//! Decimal numbers in text.
use vstd::prelude::*;

verus! {

/// The value of a string of decimal digits.
pub open spec fn decimal_value(s: Seq<u8>) -> nat
    decreases s.len(),
{
    if s.len() == 0 {
        0
    } else {
        decimal_value(s.drop_last()) * 10 + (s.last() - 48) as nat
    }
}

pub open spec fn all_digits(s: Seq<u8>) -> bool {
    forall|i: int| 0 <= i < s.len() ==> 48u8 <= #[trigger] s[i] <= 57u8
}

proof fn lemma_decimal_value_grows(s: Seq<u8>, i: int)
    requires
        all_digits(s),
        0 <= i <= s.len(),
    ensures
        decimal_value(s.subrange(0, i)) <= decimal_value(s),
    decreases s.len() - i,
{
    if i < s.len() {
        lemma_decimal_value_grows(s, i + 1);
        let p = s.subrange(0, i + 1);
        assert(p.drop_last() =~= s.subrange(0, i));
    } else {
        assert(s.subrange(0, i) =~= s);
    }
}

/// Reads a string of decimal digits as an `i64`: `None` when the value does not fit.
pub fn parse_i64(s: &[u8]) -> (r: Option<i64>)
    requires
        all_digits(s@),
    ensures
        decimal_value(s@) <= i64::MAX ==> r == Some(decimal_value(s@) as i64),
        decimal_value(s@) > i64::MAX ==> r is None,
{
    let mut value: u64 = 0;
    let mut i: usize = 0;
    while i < s.len()
        invariant
            all_digits(s@),
            i <= s@.len(),
            value == decimal_value(s@.subrange(0, i as int)),
            value <= i64::MAX,
        decreases s@.len() - i,
    {
        let digit = (s[i] - 48u8) as u64;
        assert(s@.subrange(0, i + 1).drop_last() =~= s@.subrange(0, i as int));
        if value > (9223372036854775807u64 - digit) / 10 {
            proof {
                assert(decimal_value(s@.subrange(0, i + 1)) == value * 10 + digit);
                assert(value * 10 + digit > 9223372036854775807) by (nonlinear_arith)
                    requires
                        value > (9223372036854775807u64 - digit) / 10,
                        digit <= 9,
                ;
                lemma_decimal_value_grows(s@, i + 1);
            }
            return None;
        }
        assert(value * 10 + digit <= 9223372036854775807) by (nonlinear_arith)
            requires
                value <= (9223372036854775807u64 - digit) / 10,
                digit <= 9,
        ;
        value = value * 10 + digit;
        i = i + 1;
    }
    assert(s@.subrange(0, s@.len() as int) =~= s@);
    Some(value as i64)
}

} // verus!
