//! The table of results: a heading, and one row to a trial.

use vstd::prelude::*;
use crate::decimal::{decimal_digits, digits_of};

verus! {

/// The row of a trial: the number of rolls, the highest bankroll and the
/// label, with commas between them and a line feed at the end.
pub open spec fn row_text(rolls: nat, max_bankroll: nat, label: Seq<u8>) -> Seq<u8> {
    digits_of(rolls) + seq![44u8] + digits_of(max_bankroll) + seq![44u8] + label + seq![10u8]
}

/// The line that heads the table: `rolls,max_bankroll,label` and a line
/// feed.
pub open spec fn header_text() -> Seq<u8> {
    seq![
        114u8, 111u8, 108u8, 108u8, 115u8, 44u8, 109u8, 97u8, 120u8, 95u8, 98u8, 97u8, 110u8,
        107u8, 114u8, 111u8, 108u8, 108u8, 44u8, 108u8, 97u8, 98u8, 101u8, 108u8, 10u8,
    ]
}

/// Writes the line that heads the table.
pub fn csv_header() -> (text: Vec<u8>)
    ensures
        text@ == header_text(),
{
    let text: Vec<u8> = vec![
        114u8, 111u8, 108u8, 108u8, 115u8, 44u8, 109u8, 97u8, 120u8, 95u8, 98u8, 97u8, 110u8,
        107u8, 114u8, 111u8, 108u8, 108u8, 44u8, 108u8, 97u8, 98u8, 101u8, 108u8, 10u8,
    ];
    assert(text@ =~= header_text());
    text
}

/// Writes the row of a trial.
pub fn csv_row(rolls: usize, max_bankroll: usize, label: &[u8]) -> (row: Vec<u8>)
    ensures
        row@ == row_text(rolls as nat, max_bankroll as nat, label@),
{
    let mut row: Vec<u8> = decimal_digits(rolls);
    let mut peak: Vec<u8> = decimal_digits(max_bankroll);
    row.push(44);
    row.append(&mut peak);
    row.push(44);
    let mut i: usize = 0;
    let ghost head = row@;
    while i < label.len()
        invariant
            i <= label@.len(),
            row@ == head + label@.take(i as int),
        decreases label@.len() - i,
    {
        row.push(label[i]);
        assert(label@.take(i + 1) =~= label@.take(i as int).push(label@[i as int]));
        i += 1;
    }
    row.push(10);
    assert(label@.take(i as int) =~= label@);
    assert(row@ =~= row_text(rolls as nat, max_bankroll as nat, label@));
    row
}

} // verus!
