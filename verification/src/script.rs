//! The text of roll scripts and roll logs: one roll to a line, two numbers
//! to a roll. What is written as a roll log reads back as a roll script.
//!
//! The text is UTF-8. A line holds fields, which are runs of bytes in which
//! no white space begins, with white space between and around them. White
//! space is every character that Unicode gives the property White_Space.
//! The first two fields are the faces of the roll, written in decimal
//! digits, with `+` before them where one likes; what follows them on the
//! line is not read. Lines end with a line feed; the last line may do
//! without.

use vstd::prelude::*;
use vstd::slice::slice_subrange;
use crate::decimal::{
    all_digits, decimal, decimal_digits, digits_of, is_digit, lemma_decimal_grows,
    lemma_digits_write_number,
};
use crate::dice::Roll;

verus! {

/// A white space of one byte: a space, a tab, a line feed, a vertical tab,
/// a form feed or a carriage return.
pub open spec fn is_space(b: u8) -> bool {
    b == 32 || (9 <= b && b <= 13)
}

/// A white space of two bytes: the next line character U+0085 or the
/// no-break space U+00A0.
pub open spec fn is_space_pair(a: u8, b: u8) -> bool {
    a == 0xC2 && (b == 0x85 || b == 0xA0)
}

/// A white space of three bytes: the ogham space mark U+1680, the spaces
/// U+2000 to U+200A, the line separator U+2028, the paragraph separator
/// U+2029, the narrow no-break space U+202F, the medium mathematical space
/// U+205F or the ideographic space U+3000.
pub open spec fn is_space_triple(a: u8, b: u8, c: u8) -> bool {
    ||| a == 0xE1 && b == 0x9A && c == 0x80
    ||| a == 0xE2 && b == 0x80 && ((0x80 <= c && c <= 0x8A) || c == 0xA8 || c == 0xA9 || c == 0xAF)
    ||| a == 0xE2 && b == 0x81 && c == 0x9F
    ||| a == 0xE3 && b == 0x80 && c == 0x80
}

/// The number of bytes of the white space that begins at the place `i`, and
/// zero where none begins there.
pub open spec fn space_len(s: Seq<u8>, i: int) -> nat {
    if i < 0 || i >= s.len() {
        0
    } else if is_space(s[i]) {
        1
    } else if i + 1 < s.len() && is_space_pair(s[i], s[i + 1]) {
        2
    } else if i + 2 < s.len() && is_space_triple(s[i], s[i + 1], s[i + 2]) {
        3
    } else {
        0
    }
}

/// The first place at or after `i` where no white space begins, with all
/// between the two white space.
pub open spec fn after_spaces(s: Seq<u8>, i: int) -> int
    decreases s.len() - i,
{
    if space_len(s, i) > 0 {
        after_spaces(s, i + space_len(s, i))
    } else {
        i
    }
}

/// The first place at or after `i` where a white space begins, or the end.
pub open spec fn after_field(s: Seq<u8>, i: int) -> int
    decreases s.len() - i,
{
    if 0 <= i < s.len() && space_len(s, i) == 0 {
        after_field(s, i + 1)
    } else {
        i
    }
}

/// The number of bytes from the place `i` up to the next line feed, or to
/// the end where none follows.
pub open spec fn line_len(s: Seq<u8>, i: int) -> nat
    decreases s.len() - i,
{
    if 0 <= i < s.len() && s[i] != 10 {
        1 + line_len(s, i + 1)
    } else {
        0
    }
}

/// The number that a field writes: digits, at least one, after a `+` or
/// without it, where the number fits the machine's integers.
pub open spec fn number(field: Seq<u8>) -> Option<usize> {
    let digits = if field.len() > 0 && field[0] == 43 {
        field.skip(1)
    } else {
        field
    };
    if digits.len() > 0 && all_digits(digits) && decimal(digits) <= usize::MAX {
        Some(decimal(digits) as usize)
    } else {
        None
    }
}

/// The roll that a line writes: the numbers of its first two fields, where
/// it has them.
pub open spec fn line_roll(line: Seq<u8>) -> Option<Roll> {
    let a = after_spaces(line, 0);
    let a_end = after_field(line, a);
    let b = after_spaces(line, a_end);
    let b_end = after_field(line, b);
    match (number(line.subrange(a, a_end)), number(line.subrange(b, b_end))) {
        (Some(first), Some(second)) => Some((first, second)),
        _ => None,
    }
}

/// The lines of the text from the place `i` on.
pub open spec fn lines_from(s: Seq<u8>, i: int) -> Seq<Seq<u8>>
    decreases s.len() - i,
{
    if i < 0 || i >= s.len() {
        Seq::empty()
    } else {
        let end = i + line_len(s, i);
        if end < s.len() {
            seq![s.subrange(i, end)] + lines_from(s, end + 1)
        } else {
            seq![s.subrange(i, end)]
        }
    }
}

/// The lines of a text.
pub open spec fn script_lines(text: Seq<u8>) -> Seq<Seq<u8>> {
    lines_from(text, 0)
}

/// The line that writes `roll` in a roll log: the two faces in decimal, a
/// space between them, and a line feed.
pub open spec fn roll_text(roll: Roll) -> Seq<u8> {
    digits_of(roll.0 as nat) + seq![32u8] + digits_of(roll.1 as nat) + seq![10u8]
}

/// A run of bytes in which no white space begins, with a white space or the
/// end behind it, is one field.
pub proof fn lemma_field_run(s: Seq<u8>, i: int, j: int)
    requires
        0 <= i <= j <= s.len(),
        forall|k: int| i <= k < j ==> #[trigger] space_len(s, k) == 0,
        j == s.len() || space_len(s, j) > 0,
    ensures
        after_field(s, i) == j,
    decreases j - i,
{
    if i < j {
        lemma_field_run(s, i + 1, j);
    }
}

/// A line of a roll log reads back as the roll it was written for.
pub proof fn lemma_roll_text_reads_back(roll: Roll)
    ensures
        line_roll(roll_text(roll).drop_last()) == Some(roll),
        roll_text(roll).last() == 10,
        line_len(roll_text(roll), 0) == roll_text(roll).len() - 1,
{
    let a = digits_of(roll.0 as nat);
    let b = digits_of(roll.1 as nat);
    let whole = roll_text(roll);
    let line = whole.drop_last();
    lemma_digits_write_number(roll.0 as nat);
    lemma_digits_write_number(roll.1 as nat);
    assert(line =~= a + seq![32u8] + b);
    let n = a.len() as int;
    assert forall|k: int| 0 <= k < n implies #[trigger] space_len(line, k) == 0 by {
        assert(is_digit(a[k]));
    }
    assert forall|k: int| n + 1 <= k < line.len() implies #[trigger] space_len(line, k) == 0 by {
        assert(is_digit(b[k - n - 1]));
    }
    assert(space_len(line, n) == 1);
    assert(space_len(line, 0) == 0);
    assert(space_len(line, n + 1) == 0);
    lemma_field_run(line, 0, n);
    lemma_field_run(line, n + 1, line.len() as int);
    assert(after_spaces(line, 0) == 0);
    assert(after_spaces(line, n + 1) == n + 1);
    assert(after_spaces(line, n) == n + 1);
    assert(line.subrange(0, n) =~= a);
    assert(line.subrange(n + 1, line.len() as int) =~= b);
    assert(is_digit(a[0]));
    assert(is_digit(b[0]));
    lemma_line_run(whole, 0, whole.len() - 1);
}

/// A run of bytes that are no line feeds, with a line feed behind it, is a
/// line.
pub proof fn lemma_line_run(s: Seq<u8>, i: int, j: int)
    requires
        0 <= i <= j < s.len(),
        forall|k: int| i <= k < j ==> #[trigger] s[k] != 10,
        s[j] == 10,
    ensures
        line_len(s, i) == j - i,
    decreases j - i,
{
    if i < j {
        lemma_line_run(s, i + 1, j);
    }
}

/// The text of a roll log: the lines of its rolls, in their order.
pub open spec fn log_text(rolls: Seq<Roll>) -> Seq<u8>
    decreases rolls.len(),
{
    if rolls.len() == 0 {
        Seq::empty()
    } else {
        log_text(rolls.drop_last()) + roll_text(rolls.last())
    }
}

/// In a text that ends with a line feed every line ends inside the text,
/// and what is put behind the text does not change where.
pub proof fn lemma_line_len_in_front(front: Seq<u8>, back: Seq<u8>, i: int)
    requires
        front.len() > 0,
        front.last() == 10,
        0 <= i < front.len(),
    ensures
        i + line_len(front, i) < front.len(),
        line_len(front + back, i) == line_len(front, i),
    decreases front.len() - i,
{
    assert((front + back)[i] == front[i]);
    if front[i] != 10 {
        lemma_line_len_in_front(front, back, i + 1);
    }
}

/// A line ends no later than the text.
pub proof fn lemma_line_len_bound(s: Seq<u8>, i: int)
    requires
        0 <= i <= s.len(),
    ensures
        i + line_len(s, i) <= s.len(),
    decreases s.len() - i,
{
    if i < s.len() && s[i] != 10 {
        lemma_line_len_bound(s, i + 1);
    }
}

/// The length of a line does not depend on the text in front of it.
pub proof fn lemma_line_len_behind(front: Seq<u8>, back: Seq<u8>, i: int)
    requires
        0 <= i,
    ensures
        line_len(front + back, front.len() + i) == line_len(back, i),
    decreases back.len() - i,
{
    if i < back.len() {
        assert((front + back)[front.len() + i] == back[i]);
        if back[i] != 10 {
            lemma_line_len_behind(front, back, i + 1);
        }
    }
}

/// The lines of a text do not depend on the text in front of them.
pub proof fn lemma_lines_behind(front: Seq<u8>, back: Seq<u8>, i: int)
    requires
        0 <= i,
    ensures
        lines_from(front + back, front.len() + i) == lines_from(back, i),
    decreases back.len() - i,
{
    if i < back.len() {
        lemma_line_len_behind(front, back, i);
        lemma_line_len_bound(back, i);
        let end = i + line_len(back, i);
        assert((front + back).subrange(front.len() + i, front.len() + end) =~= back.subrange(
            i,
            end,
        ));
        if end < back.len() {
            lemma_lines_behind(front, back, end + 1);
        }
    }
}

/// The lines of two texts put together are the lines of the first and the
/// lines of the second, where the first is empty or ends with a line feed.
pub proof fn lemma_lines_of_both(front: Seq<u8>, back: Seq<u8>, i: int)
    requires
        front.len() == 0 || front.last() == 10,
        0 <= i <= front.len(),
    ensures
        lines_from(front + back, i) == lines_from(front, i) + lines_from(back, 0),
    decreases front.len() - i,
{
    if i == front.len() {
        lemma_lines_behind(front, back, 0);
        assert(lines_from(front, i) + lines_from(back, 0) =~= lines_from(back, 0));
    } else {
        lemma_line_len_in_front(front, back, i);
        let end = i + line_len(front, i);
        assert((front + back).subrange(i, end) =~= front.subrange(i, end));
        lemma_lines_of_both(front, back, end + 1);
        assert(lines_from(front + back, i) =~= lines_from(front, i) + lines_from(back, 0));
    }
}

/// A roll log reads back as a roll script: its lines are as many as its
/// rolls, and each line writes the roll it was written for.
pub proof fn lemma_log_reads_back(rolls: Seq<Roll>)
    ensures
        log_text(rolls).len() == 0 || log_text(rolls).last() == 10,
        script_lines(log_text(rolls)).len() == rolls.len(),
        forall|k: int|
            0 <= k < rolls.len() ==> line_roll(#[trigger] script_lines(log_text(rolls))[k])
                == Some(rolls[k]),
    decreases rolls.len(),
{
    if rolls.len() > 0 {
        let front = log_text(rolls.drop_last());
        let back = roll_text(rolls.last());
        lemma_log_reads_back(rolls.drop_last());
        lemma_roll_text_reads_back(rolls.last());
        lemma_lines_of_both(front, back, 0);
        assert(lines_from(back, 0) =~= seq![back.drop_last()]) by {
            assert(back.subrange(0, back.len() - 1) =~= back.drop_last());
            assert(lines_from(back, back.len() as int) =~= Seq::<Seq<u8>>::empty());
        }
        let lines = script_lines(log_text(rolls));
        assert(lines =~= script_lines(front).push(back.drop_last()));
        assert forall|k: int| 0 <= k < rolls.len() implies line_roll(#[trigger] lines[k]) == Some(
            rolls[k],
        ) by {
            if k < rolls.len() - 1 {
                assert(lines[k] == script_lines(front)[k]);
                assert(rolls.drop_last()[k] == rolls[k]);
            }
        }
    }
}

/// A line of a roll script that does not write a roll.
#[derive(Clone, Copy, Debug, PartialEq, Eq)]
pub struct Malformed {
    /// The place of the line in the text, counted from zero.
    pub line: usize,
}

/// Tells how many bytes the white space has that begins at the place `i`.
fn space_at(line: &[u8], i: usize) -> (n: usize)
    requires
        i <= line@.len(),
    ensures
        n == space_len(line@, i as int),
        i + n <= line@.len(),
{
    let len: usize = line.len();
    if i >= len {
        return 0;
    }
    let a: u8 = line[i];
    if a == 32 || (9 <= a && a <= 13) {
        return 1;
    }
    if len - i >= 2 {
        let b: u8 = line[i + 1];
        if a == 0xC2 && (b == 0x85 || b == 0xA0) {
            return 2;
        }
        if len - i >= 3 {
            let c: u8 = line[i + 2];
            if (a == 0xE1 && b == 0x9A && c == 0x80) || (a == 0xE2 && b == 0x80 && ((0x80 <= c
                && c <= 0x8A) || c == 0xA8 || c == 0xA9 || c == 0xAF)) || (a == 0xE2 && b == 0x81
                && c == 0x9F) || (a == 0xE3 && b == 0x80 && c == 0x80) {
                return 3;
            }
        }
    }
    0
}

fn skip_spaces(line: &[u8], from: usize) -> (to: usize)
    requires
        from <= line@.len(),
    ensures
        to == after_spaces(line@, from as int),
        from <= to <= line@.len(),
{
    let len: usize = line.len();
    let mut j: usize = from;
    let mut n: usize = space_at(line, j);
    while n > 0
        invariant
            len == line@.len(),
            from <= j <= line@.len(),
            n == space_len(line@, j as int),
            j + n <= line@.len(),
            after_spaces(line@, from as int) == after_spaces(line@, j as int),
        decreases line@.len() - j,
    {
        j += n;
        n = space_at(line, j);
    }
    j
}

fn skip_field(line: &[u8], from: usize) -> (to: usize)
    requires
        from <= line@.len(),
    ensures
        to == after_field(line@, from as int),
        from <= to <= line@.len(),
{
    let mut j: usize = from;
    while j < line.len() && space_at(line, j) == 0
        invariant
            from <= j <= line@.len(),
            after_field(line@, from as int) == after_field(line@, j as int),
        decreases line@.len() - j,
    {
        j += 1;
    }
    j
}

fn find_line_end(text: &[u8], from: usize) -> (to: usize)
    requires
        from <= text@.len(),
    ensures
        to == from + line_len(text@, from as int),
        from <= to <= text@.len(),
{
    let mut j: usize = from;
    while j < text.len() && text[j] != 10
        invariant
            from <= j <= text@.len(),
            from + line_len(text@, from as int) == j + line_len(text@, j as int),
        decreases text@.len() - j,
    {
        j += 1;
    }
    j
}

/// Writes the line of `roll` for a roll log.
pub fn roll_line(roll: Roll) -> (line: Vec<u8>)
    ensures
        line@ == roll_text(roll),
{
    let mut line: Vec<u8> = decimal_digits(roll.0);
    let mut second: Vec<u8> = decimal_digits(roll.1);
    line.push(32);
    line.append(&mut second);
    line.push(10);
    assert(line@ =~= roll_text(roll));
    line
}

/// Writes the text of a roll log.
pub fn roll_log(rolls: &Vec<Roll>) -> (text: Vec<u8>)
    ensures
        text@ == log_text(rolls@),
{
    let mut text: Vec<u8> = Vec::new();
    let mut i: usize = 0;
    while i < rolls.len()
        invariant
            i <= rolls@.len(),
            text@ == log_text(rolls@.take(i as int)),
        decreases rolls@.len() - i,
    {
        let mut line: Vec<u8> = roll_line(rolls[i]);
        text.append(&mut line);
        assert(rolls@.take(i + 1).drop_last() =~= rolls@.take(i as int));
        i += 1;
    }
    assert(rolls@.take(i as int) =~= rolls@);
    text
}

/// Reads the number that the bytes from `from` up to `to` write.
#[verifier::loop_isolation(false)]
fn parse_number(line: &[u8], from: usize, to: usize) -> (value: Option<usize>)
    requires
        from <= to <= line@.len(),
    ensures
        value == number(line@.subrange(from as int, to as int)),
{
    let ghost field = line@.subrange(from as int, to as int);
    let mut j: usize = from;
    if j < to && line[j] == 43 {
        j += 1;
    }
    let start: usize = j;
    let ghost digits = line@.subrange(start as int, to as int);
    assert(digits =~= if field.len() > 0 && field[0] == 43 {
        field.skip(1)
    } else {
        field
    });
    if start == to {
        return None;
    }
    let mut acc: usize = 0;
    while j < to
        invariant
            start <= j <= to <= line@.len(),
            digits == line@.subrange(start as int, to as int),
            all_digits(digits.take(j - start)),
            acc == decimal(digits.take(j - start)),
        decreases to - j,
    {
        let b: u8 = line[j];
        if b < 48 || b > 57 {
            assert(!is_digit(digits[j - start]));
            return None;
        }
        let d: usize = (b - 48) as usize;
        proof {
            assert(digits.take(j - start + 1).drop_last() =~= digits.take(j - start));
            assert(digits.take(j - start + 1).last() == b);
            assert(decimal(digits.take(j - start + 1)) == acc * 10 + d);
        }
        if acc > (usize::MAX - d) / 10 {
            proof {
                if all_digits(digits) {
                    lemma_decimal_grows(digits, j - start + 1);
                }
            }
            return None;
        }
        acc = acc * 10 + d;
        j += 1;
    }
    assert(digits.take(j - start) =~= digits);
    Some(acc)
}

/// Reads the roll that a line writes, if it writes one.
pub fn parse_roll_line(line: &[u8]) -> (roll: Option<Roll>)
    ensures
        roll == line_roll(line@),
{
    let a: usize = skip_spaces(line, 0);
    let a_end: usize = skip_field(line, a);
    let b: usize = skip_spaces(line, a_end);
    let b_end: usize = skip_field(line, b);
    let first = parse_number(line, a, a_end);
    let second = parse_number(line, b, b_end);
    match (first, second) {
        (Some(x), Some(y)) => Some((x, y)),
        _ => None,
    }
}

/// Reads a roll script: the roll of every line, in the order of the lines,
/// or the first line that writes no roll.
pub fn parse_roll_script(text: &[u8]) -> (parsed: Result<Vec<Roll>, Malformed>)
    ensures
        match parsed {
            Ok(rolls) => {
                &&& rolls@.len() == script_lines(text@).len()
                &&& forall|k: int|
                    0 <= k < rolls@.len() ==> line_roll(#[trigger] script_lines(text@)[k])
                        == Some(rolls@[k])
            },
            Err(e) => {
                &&& e.line < script_lines(text@).len()
                &&& line_roll(script_lines(text@)[e.line as int]) is None
                &&& forall|k: int|
                    0 <= k < e.line ==> line_roll(#[trigger] script_lines(text@)[k]) is Some
            },
        },
{
    let mut rolls: Vec<Roll> = Vec::new();
    let mut pos: usize = 0;
    let ghost mut done: Seq<Seq<u8>> = Seq::empty();
    assert(done + lines_from(text@, 0) =~= lines_from(text@, 0));
    while pos < text.len()
        invariant
            pos <= text@.len(),
            script_lines(text@) == done + lines_from(text@, pos as int),
            rolls@.len() == done.len(),
            forall|k: int| 0 <= k < done.len() ==> line_roll(#[trigger] done[k]) == Some(rolls@[k]),
        decreases text@.len() - pos,
    {
        let end: usize = find_line_end(text, pos);
        let line = slice_subrange(text, pos, end);
        let ghost rest = if end < text@.len() {
            lines_from(text@, end + 1)
        } else {
            Seq::empty()
        };
        proof {
            assert(lines_from(text@, pos as int) =~= seq![line@] + rest);
            assert(script_lines(text@) =~= done.push(line@) + rest);
            assert(script_lines(text@)[done.len() as int] == line@);
            assert forall|k: int| 0 <= k < done.len() implies script_lines(text@)[k] == done[k] by {}
        }
        match parse_roll_line(line) {
            Some(roll) => {
                rolls.push(roll);
            },
            None => {
                return Err(Malformed { line: rolls.len() });
            },
        }
        proof {
            done = done.push(line@);
        }
        pos = if end < text.len() {
            end + 1
        } else {
            end
        };
    }
    assert(done + lines_from(text@, pos as int) =~= done);
    Ok(rolls)
}

} // verus!
