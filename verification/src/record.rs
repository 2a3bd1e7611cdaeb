//! A raw input record, as handed over by the row-oriented reader at the
//! program's edge: a type tag, a client id, a transaction id, and an
//! optional amount already decoded by the amount codec.
use vstd::prelude::*;

use crate::decimal;
use crate::events::ProcessEvent;

verus! {

/// One raw record. `amount` is `None` when the row had no amount field
/// (absence, not zero).
pub struct Record {
    pub txn_type: String,
    pub client: u16,
    pub tx: u32,
    pub amount: Option<u128>,
}

/// Decode a decimal amount string into the fixed-point representation
/// (scaled by 10,000), exactly as [`decimal::parse_amount`] describes:
/// the empty string means "no amount present"; a plain integer is scaled
/// up; a fractional part is padded or truncated to four digits.
pub fn amount_from_string(s: &str) -> (r: Result<Option<u128>, ProcessEvent>)
    ensures
        r == decimal::parse_amount(s@),
{
    let n = s.unicode_len();
    if n == 0 {
        return Ok(None);
    }
    // Locate the decimal point, if any, and count how many there are.
    let mut i: usize = 0;
    let mut ndots: usize = 0;
    let mut dotpos: usize = 0;
    while i < n
        invariant
            i <= n,
            n == s@.len(),
            ndots == decimal::dot_count(s@.take(i as int)),
            ndots <= i,
            ndots >= 1 ==> dotpos < i && s@[dotpos as int] == '.',
        decreases n - i,
    {
        let c = s.get_char(i);
        proof {
            assert(s@.take(i + 1).drop_last() =~= s@.take(i as int));
            assert(s@.take(i + 1).last() == s@[i as int]);
        }
        if c == '.' {
            if ndots == 0 {
                dotpos = i;
            }
            ndots = ndots + 1;
        }
        i = i + 1;
    }
    proof {
        assert(s@.take(n as int) =~= s@);
    }
    if ndots == 0 {
        // No decimal point: the whole string is the integer part.
        let mut v: u128 = 0;
        let mut j: usize = 0;
        while j < n
            invariant
                j <= n,
                1 <= n == s@.len(),
                decimal::all_digits(s@.take(j as int)),
                v == decimal::digits_value(s@.take(j as int)),
                decimal::dot_count(s@) == 0,
            decreases n - j,
        {
            let c = s.get_char(j);
            let u = c as u32;
            proof {
                assert(s@.take(j + 1).drop_last() =~= s@.take(j as int));
                assert(s@.take(j + 1).last() == s@[j as int]);
            }
            if u < 48 || u > 57 {
                assert(!decimal::all_digits(s@));
                return Err(ProcessEvent::MalformedAmount);
            }
            let d = (u - 48) as u128;
            let scaled = match v.checked_mul(10) {
                Some(x) => x,
                None => {
                    proof {
                        decimal::lemma_digits_value_take_monotone(s@, j + 1);
                    }
                    return Err(ProcessEvent::MalformedAmount);
                },
            };
            v = match scaled.checked_add(d) {
                Some(x) => x,
                None => {
                    proof {
                        decimal::lemma_digits_value_take_monotone(s@, j + 1);
                    }
                    return Err(ProcessEvent::MalformedAmount);
                },
            };
            j = j + 1;
        }
        proof {
            assert(s@.take(n as int) =~= s@);
        }
        match v.checked_mul(10000) {
            Some(x) => Ok(Some(x)),
            None => Err(ProcessEvent::AmountOverflow),
        }
    } else if ndots == 1 {
        proof {
            decimal::lemma_dot_index_is(s@, dotpos as int);
        }
        let ghost combined = s@.subrange(0, dotpos as int) + decimal::pad4(
            s@.subrange(dotpos + 1, n as int),
        );
        assert(combined.len() == dotpos + 4);
        // Integer part: the characters before the point.
        let mut v: u128 = 0;
        let mut j: usize = 0;
        while j < dotpos
            invariant
                j <= dotpos,
                dotpos < n,
                n == s@.len(),
                decimal::dot_count(s@) == 1,
                decimal::dot_index(s@) == dotpos as int,
                combined == s@.subrange(0, dotpos as int) + decimal::pad4(
                    s@.subrange(dotpos + 1, n as int),
                ),
                combined.len() == dotpos + 4,
                decimal::all_digits(combined.take(j as int)),
                v == decimal::digits_value(combined.take(j as int)),
            decreases dotpos - j,
        {
            let c = s.get_char(j);
            let u = c as u32;
            proof {
                assert(combined.take(j + 1).drop_last() =~= combined.take(j as int));
                assert(combined.take(j + 1).last() == s@[j as int]);
            }
            if u < 48 || u > 57 {
                assert(!decimal::all_digits(combined));
                return Err(ProcessEvent::MalformedAmount);
            }
            let d = (u - 48) as u128;
            let scaled = match v.checked_mul(10) {
                Some(x) => x,
                None => {
                    proof {
                        decimal::lemma_digits_value_take_monotone(combined, j + 1);
                    }
                    return Err(ProcessEvent::MalformedAmount);
                },
            };
            v = match scaled.checked_add(d) {
                Some(x) => x,
                None => {
                    proof {
                        decimal::lemma_digits_value_take_monotone(combined, j + 1);
                    }
                    return Err(ProcessEvent::MalformedAmount);
                },
            };
            j = j + 1;
        }
        // Fractional part: exactly four digits, padding missing trailing
        // digits with zero and truncating anything beyond the fourth.
        let frac_len: usize = n - dotpos - 1;
        let mut k: usize = 0;
        while k < 4
            invariant
                k <= 4,
                dotpos < n,
                n == s@.len(),
                frac_len == n - dotpos - 1,
                decimal::dot_count(s@) == 1,
                decimal::dot_index(s@) == dotpos as int,
                combined == s@.subrange(0, dotpos as int) + decimal::pad4(
                    s@.subrange(dotpos + 1, n as int),
                ),
                combined.len() == dotpos + 4,
                decimal::all_digits(combined.take(dotpos + k)),
                v == decimal::digits_value(combined.take(dotpos + k)),
            decreases 4 - k,
        {
            let c = if k < frac_len {
                s.get_char(dotpos + 1 + k)
            } else {
                '0'
            };
            assert(combined[dotpos + k] == c);
            let u = c as u32;
            proof {
                assert(combined.take(dotpos + k + 1).drop_last() =~= combined.take(dotpos + k));
                assert(combined.take(dotpos + k + 1).last() == combined[dotpos + k]);
            }
            if u < 48 || u > 57 {
                assert(!decimal::all_digits(combined));
                return Err(ProcessEvent::MalformedAmount);
            }
            let d = (u - 48) as u128;
            let scaled = match v.checked_mul(10) {
                Some(x) => x,
                None => {
                    proof {
                        decimal::lemma_digits_value_take_monotone(combined, dotpos + k + 1);
                    }
                    return Err(ProcessEvent::MalformedAmount);
                },
            };
            v = match scaled.checked_add(d) {
                Some(x) => x,
                None => {
                    proof {
                        decimal::lemma_digits_value_take_monotone(combined, dotpos + k + 1);
                    }
                    return Err(ProcessEvent::MalformedAmount);
                },
            };
            k = k + 1;
        }
        proof {
            assert(combined.take(dotpos + 4) =~= combined);
        }
        Ok(Some(v))
    } else {
        Err(ProcessEvent::MalformedAmount)
    }
}

} // verus!
