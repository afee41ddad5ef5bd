use craps_sim::report::{csv_header, csv_row};

#[test]
fn csv_row_of_a_trial() {
    assert_eq!(csv_row(60, 300, b"flat"), b"60,300,flat\n".to_vec());
    assert_eq!(csv_row(1, 5, b""), b"1,5,\n".to_vec());
    assert_eq!(csv_row(0, 0, b"odds 3-4-5"), b"0,0,odds 3-4-5\n".to_vec());
}

#[test]
fn csv_row_keeps_the_label_as_it_is() {
    let label = "gr\u{f6}\u{df}er, \"x\"";
    let row = csv_row(12, 345, label.as_bytes());
    assert_eq!(row, format!("12,345,{label}\n").into_bytes());
}

#[test]
fn csv_header_names_the_three_columns() {
    assert_eq!(csv_header(), b"rolls,max_bankroll,label\n".to_vec());
}
