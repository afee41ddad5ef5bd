//! Numbers in decimal digits, read and written.

use vstd::prelude::*;

verus! {

/// A decimal digit.
pub open spec fn is_digit(b: u8) -> bool {
    48 <= b && b <= 57
}

/// Every byte is a decimal digit.
pub open spec fn all_digits(s: Seq<u8>) -> bool {
    forall|k: int| 0 <= k < s.len() ==> is_digit(#[trigger] s[k])
}

/// The number that the digits write.
pub open spec fn decimal(digits: Seq<u8>) -> nat
    decreases digits.len(),
{
    if digits.len() == 0 {
        0
    } else {
        decimal(digits.drop_last()) * 10 + (digits.last() - 48) as nat
    }
}

/// The decimal digits that write `n`, the most significant first.
pub open spec fn digits_of(n: nat) -> Seq<u8>
    decreases n,
{
    if n < 10 {
        seq![(48 + n) as u8]
    } else {
        digits_of(n / 10).push((48 + n % 10) as u8)
    }
}

/// Digits that follow can only make the number larger.
pub proof fn lemma_decimal_grows(digits: Seq<u8>, k: int)
    requires
        all_digits(digits),
        0 <= k <= digits.len(),
    ensures
        decimal(digits.take(k)) <= decimal(digits),
    decreases digits.len(),
{
    if k == digits.len() {
        assert(digits.take(k) =~= digits);
    } else {
        assert(digits.drop_last().take(k) =~= digits.take(k));
        assert(is_digit(digits.last()));
        lemma_decimal_grows(digits.drop_last(), k);
    }
}

/// The digits of a number are digits, at least one, and write the number.
pub proof fn lemma_digits_write_number(n: nat)
    ensures
        digits_of(n).len() >= 1,
        all_digits(digits_of(n)),
        decimal(digits_of(n)) == n,
    decreases n,
{
    if n < 10 {
        let s = digits_of(n);
        assert(s.drop_last() =~= Seq::<u8>::empty());
        assert(decimal(s.drop_last()) == 0);
    } else {
        lemma_digits_write_number(n / 10);
        let s = digits_of(n);
        assert(s.drop_last() =~= digits_of(n / 10));
        assert forall|k: int| 0 <= k < s.len() implies is_digit(#[trigger] s[k]) by {
            if k < s.len() - 1 {
                assert(s[k] == digits_of(n / 10)[k]);
            }
        }
    }
}

/// Writes `n` in decimal digits.
pub fn decimal_digits(n: usize) -> (digits: Vec<u8>)
    ensures
        digits@ == digits_of(n as nat),
{
    let mut digits: Vec<u8> = Vec::new();
    digits.push(48 + (n % 10) as u8);
    let mut rest: usize = n / 10;
    assert(digits@ =~= seq![(48 + n % 10) as u8]);
    assert(n >= 10 ==> digits_of(n as nat) =~= digits_of(rest as nat) + digits@);
    while rest > 0
        invariant
            digits_of(n as nat) == if rest == 0 {
                digits@
            } else {
                digits_of(rest as nat) + digits@
            },
        decreases rest,
    {
        let ghost before = digits@;
        digits.insert(0, 48 + (rest % 10) as u8);
        proof {
            let d = (48 + rest % 10) as u8;
            assert(digits@ =~= seq![d] + before);
            if rest >= 10 {
                assert(digits_of(rest as nat) + before =~= digits_of((rest / 10) as nat) + digits@);
            } else {
                assert(digits_of(rest as nat) + before =~= digits@);
            }
        }
        rest = rest / 10;
    }
    digits
}

} // verus!
