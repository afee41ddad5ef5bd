use craps_sim::dice::{ScriptError, Shooter};
use craps_sim::script::{parse_roll_line, parse_roll_script, Malformed};

#[test]
fn line_with_two_numbers_is_a_roll() {
    assert_eq!(parse_roll_line(b"3 4"), Some((3, 4)));
    assert_eq!(parse_roll_line(b"  3\t 4  "), Some((3, 4)));
    assert_eq!(parse_roll_line(b"6 1\r"), Some((6, 1)));
    assert_eq!(parse_roll_line(b"+2 +5"), Some((2, 5)));
    assert_eq!(parse_roll_line(b"003 0004"), Some((3, 4)));
}

#[test]
fn what_follows_the_second_number_is_not_read() {
    assert_eq!(parse_roll_line(b"1 2 3"), Some((1, 2)));
    assert_eq!(parse_roll_line(b"1 2 seven out"), Some((1, 2)));
}

#[test]
fn numbers_are_not_held_to_the_faces_of_a_die() {
    assert_eq!(parse_roll_line(b"0 7"), Some((0, 7)));
    assert_eq!(parse_roll_line(b"12 345"), Some((12, 345)));
}

#[test]
fn line_without_two_numbers_is_no_roll() {
    assert_eq!(parse_roll_line(b""), None);
    assert_eq!(parse_roll_line(b"   "), None);
    assert_eq!(parse_roll_line(b"3"), None);
    assert_eq!(parse_roll_line(b"3 "), None);
    assert_eq!(parse_roll_line(b"a 4"), None);
    assert_eq!(parse_roll_line(b"3 4x"), None);
    assert_eq!(parse_roll_line(b"3,4"), None);
    assert_eq!(parse_roll_line(b"-3 4"), None);
    assert_eq!(parse_roll_line(b"+ 4"), None);
    assert_eq!(parse_roll_line(b"++3 4"), None);
    assert_eq!(parse_roll_line(b"3.0 4"), None);
}

#[test]
fn numbers_must_fit_the_machine() {
    let most = format!("{} {}", usize::MAX, usize::MAX);
    assert_eq!(parse_roll_line(most.as_bytes()), Some((usize::MAX, usize::MAX)));
    let more = format!("{}0 1", usize::MAX);
    assert_eq!(parse_roll_line(more.as_bytes()), None);
    let one_more = format!("1 {}", usize::MAX as u128 + 1);
    assert_eq!(parse_roll_line(one_more.as_bytes()), None);
    assert_eq!(parse_roll_line(b"99999999999999999999999999999999999999999 1"), None);
}

#[test]
fn script_is_read_line_by_line() {
    assert_eq!(parse_roll_script(b"1 2\n3 4\n5 6\n"), Ok(vec![(1, 2), (3, 4), (5, 6)]));
    assert_eq!(parse_roll_script(b"1 2\n3 4\n5 6"), Ok(vec![(1, 2), (3, 4), (5, 6)]));
    assert_eq!(parse_roll_script(b"1 2\r\n3 4\r\n"), Ok(vec![(1, 2), (3, 4)]));
    assert_eq!(parse_roll_script(b"6 6"), Ok(vec![(6, 6)]));
}

#[test]
fn empty_text_holds_no_roll() {
    assert_eq!(parse_roll_script(b""), Ok(vec![]));
}

#[test]
fn first_malformed_line_is_reported() {
    assert_eq!(parse_roll_script(b"1 2\n\n3 4\n"), Err(Malformed { line: 1 }));
    assert_eq!(parse_roll_script(b"\n"), Err(Malformed { line: 0 }));
    assert_eq!(parse_roll_script(b"1 2\n3 4\nfive six\nseven\n"), Err(Malformed { line: 2 }));
    assert_eq!(parse_roll_script(b"1 2\n3"), Err(Malformed { line: 1 }));
    assert_eq!(parse_roll_script(b"1 2\n\n"), Err(Malformed { line: 1 }));
}

#[test]
fn parsed_script_feeds_a_shooter() {
    let rolls = match parse_roll_script(b"2 2\n3 4\n") {
        Ok(rolls) => rolls,
        Err(e) => panic!("line {} is malformed", e.line),
    };
    let mut shooter = match Shooter::new(Some(rolls), false) {
        Ok(shooter) => shooter,
        Err(e) => panic!("script refused: {:?}", e),
    };
    assert_eq!(shooter.roll(), (2, 2));
    assert_eq!(shooter.roll(), (3, 4));
    assert_eq!(shooter.roll(), (2, 2));
}

#[test]
fn parsed_script_with_impossible_faces_is_refused_by_the_shooter() {
    let rolls = match parse_roll_script(b"2 2\n3 7\n") {
        Ok(rolls) => rolls,
        Err(e) => panic!("line {} is malformed", e.line),
    };
    assert_eq!(Shooter::new(Some(rolls), false).err(), Some(ScriptError::BadRoll(1)));
}

#[test]
fn numbers_are_written_in_decimal() {
    assert_eq!(craps_sim::decimal::decimal_digits(0), b"0".to_vec());
    assert_eq!(craps_sim::decimal::decimal_digits(7), b"7".to_vec());
    assert_eq!(craps_sim::decimal::decimal_digits(10), b"10".to_vec());
    assert_eq!(craps_sim::decimal::decimal_digits(308), b"308".to_vec());
    assert_eq!(craps_sim::decimal::decimal_digits(1_000_000), b"1000000".to_vec());
    assert_eq!(
        craps_sim::decimal::decimal_digits(usize::MAX),
        format!("{}", usize::MAX).into_bytes()
    );
}

#[test]
fn roll_log_line_is_two_faces_and_a_line_feed() {
    assert_eq!(craps_sim::script::roll_line((3, 4)), b"3 4\n".to_vec());
    assert_eq!(craps_sim::script::roll_line((6, 1)), b"6 1\n".to_vec());
}

#[test]
fn roll_log_reads_back_as_a_script() {
    let rolls = vec![(1, 1), (2, 5), (6, 6), (4, 3)];
    let mut text: Vec<u8> = vec![];
    for roll in &rolls {
        text.extend(craps_sim::script::roll_line(*roll));
    }
    assert_eq!(text, b"1 1\n2 5\n6 6\n4 3\n".to_vec());
    assert_eq!(craps_sim::script::roll_log(&rolls), text);
    assert_eq!(parse_roll_script(&text), Ok(rolls));
}

#[test]
fn roll_log_without_rolls_is_empty() {
    assert_eq!(craps_sim::script::roll_log(&vec![]), Vec::<u8>::new());
}

#[test]
fn no_break_space_parts_two_numbers() {
    assert_eq!(parse_roll_line("3\u{a0}4".as_bytes()), Some((3, 4)));
    assert_eq!(parse_roll_script("3\u{a0}4".as_bytes()), Ok(vec![(3, 4)]));
}

#[test]
fn every_unicode_white_space_parts_two_numbers() {
    let spaces = [
        '\u{9}', '\u{a}', '\u{b}', '\u{c}', '\u{d}', '\u{20}', '\u{85}', '\u{a0}', '\u{1680}',
        '\u{2000}', '\u{2001}', '\u{2002}', '\u{2003}', '\u{2004}', '\u{2005}', '\u{2006}',
        '\u{2007}', '\u{2008}', '\u{2009}', '\u{200a}', '\u{2028}', '\u{2029}', '\u{202f}',
        '\u{205f}', '\u{3000}',
    ];
    for c in spaces {
        let line = format!("{c}5{c}{c}6{c}");
        assert_eq!(parse_roll_line(line.as_bytes()), Some((5, 6)));
    }
}

#[test]
fn white_space_is_what_the_standard_library_splits_on() {
    for code in 0..=0x10ffffu32 {
        if let Some(c) = char::from_u32(code) {
            let line = format!("3{c}4");
            let expected = if c.is_whitespace() { Some((3, 4)) } else { None };
            assert_eq!(parse_roll_line(line.as_bytes()), expected);
        }
    }
}

#[test]
fn other_characters_part_nothing() {
    assert_eq!(parse_roll_line("3\u{200b}4".as_bytes()), None);
    assert_eq!(parse_roll_line("3\u{feff}4".as_bytes()), None);
    assert_eq!(parse_roll_line("3\u{e9} 4".as_bytes()), None);
    assert_eq!(parse_roll_line(&[b'3', 0xC2, b'4']), None);
    assert_eq!(parse_roll_line(&[b'3', 0xE2, 0x80]), None);
}

#[test]
fn lines_end_with_line_feeds_only() {
    // the line and paragraph separators are white space within a line
    assert_eq!(parse_roll_script("1\u{2028}2\u{2029}3 4\n5 6".as_bytes()), Ok(vec![(1, 2), (5, 6)]));
    assert_eq!(parse_roll_script("1 2\u{85}\n\u{3000}3\u{1680}4\n".as_bytes()), Ok(vec![(1, 2), (3, 4)]));
}
