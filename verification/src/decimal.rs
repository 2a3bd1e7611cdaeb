//! The mathematical model of the fixed-point amount codec.
//!
//! An amount string is a decimal number with an optional fractional part;
//! its value is an integer scaled by 10,000 (four implied decimal digits).
//! [`parse_amount`] says exactly what decoding a character sequence yields,
//! and [`format_amount`] says exactly what rendering an amount produces.
use vstd::prelude::*;

use vstd::arithmetic::div_mod::{
    lemma_div_denominator, lemma_fundamental_div_mod, lemma_fundamental_div_mod_converse,
};

use crate::events::ProcessEvent;

verus! {

/// `c` is an ASCII decimal digit.
pub open spec fn is_digit(c: char) -> bool {
    48 <= c as u32 <= 57
}

/// The numeric value of a digit character (meaningful only for digits).
pub open spec fn digit_val(c: char) -> nat {
    (c as u32 - 48) as nat
}

/// Every character of `s` is a decimal digit.
pub open spec fn all_digits(s: Seq<char>) -> bool {
    forall|i: int| 0 <= i < s.len() ==> is_digit(#[trigger] s[i])
}

/// The value of a digit string read as a base-10 numeral.
pub open spec fn digits_value(s: Seq<char>) -> nat
    decreases s.len(),
{
    if s.len() == 0 {
        0
    } else {
        digits_value(s.drop_last()) * 10 + digit_val(s.last())
    }
}

/// How many decimal points `s` contains.
pub open spec fn dot_count(s: Seq<char>) -> nat
    decreases s.len(),
{
    if s.len() == 0 {
        0
    } else {
        dot_count(s.drop_last()) + if s.last() == '.' {
            1nat
        } else {
            0nat
        }
    }
}

/// The position of the decimal point (meaningful when there is exactly one).
pub open spec fn dot_index(s: Seq<char>) -> int {
    choose|i: int| 0 <= i < s.len() && s[i] == '.'
}

/// The fractional digits, padded with trailing zeros to four characters and
/// truncated beyond the fourth.
pub open spec fn pad4(s: Seq<char>) -> Seq<char> {
    Seq::new(4, |i: int| if i < s.len() { s[i] } else { '0' })
}

/// What decoding an amount string yields.
///
/// The empty string means "no amount present". Without a decimal point the
/// whole string is the integer part and is scaled by 10,000 (overflow of
/// that scaling is the distinguished `AmountOverflow`). With one decimal
/// point, the integer part (empty allowed) is concatenated with exactly four
/// fractional digits, padding and truncating as needed. Anything else — a
/// second point, a non-digit, a digit string too large to represent — is
/// `MalformedAmount`.
pub open spec fn parse_amount(s: Seq<char>) -> Result<Option<u128>, ProcessEvent> {
    if s.len() == 0 {
        Ok(None)
    } else if dot_count(s) == 0 {
        if all_digits(s) && digits_value(s) <= u128::MAX {
            if digits_value(s) * 10000 <= u128::MAX {
                Ok(Some((digits_value(s) * 10000) as u128))
            } else {
                Err(ProcessEvent::AmountOverflow)
            }
        } else {
            Err(ProcessEvent::MalformedAmount)
        }
    } else if dot_count(s) == 1 {
        let combined = s.subrange(0, dot_index(s)) + pad4(
            s.subrange(dot_index(s) + 1, s.len() as int),
        );
        if all_digits(combined) && digits_value(combined) <= u128::MAX {
            Ok(Some(digits_value(combined) as u128))
        } else {
            Err(ProcessEvent::MalformedAmount)
        }
    } else {
        Err(ProcessEvent::MalformedAmount)
    }
}

/// The digit character for a value below ten.
pub open spec fn digit_char(d: nat) -> char {
    if d == 0 {
        '0'
    } else if d == 1 {
        '1'
    } else if d == 2 {
        '2'
    } else if d == 3 {
        '3'
    } else if d == 4 {
        '4'
    } else if d == 5 {
        '5'
    } else if d == 6 {
        '6'
    } else if d == 7 {
        '7'
    } else if d == 8 {
        '8'
    } else {
        '9'
    }
}

/// The shortest base-10 numeral for `n` (a single `0` for zero).
pub open spec fn dec_digits(n: nat) -> Seq<char>
    decreases n,
{
    if n < 10 {
        seq![digit_char(n)]
    } else {
        dec_digits(n / 10).push(digit_char(n % 10))
    }
}

/// Exactly four digits rendering `f` (meaningful for `f < 10000`).
pub open spec fn frac4(f: nat) -> Seq<char> {
    seq![
        digit_char(f / 1000),
        digit_char((f / 100) % 10),
        digit_char((f / 10) % 10),
        digit_char(f % 10),
    ]
}

/// What rendering an amount produces: the integer part with no leading
/// zeros (but at least one digit), a point, and exactly four fractional
/// digits.
pub open spec fn format_amount(v: u128) -> Seq<char> {
    dec_digits(v as nat / 10000) + seq!['.'] + frac4(v as nat % 10000)
}

pub open spec fn pow10(n: nat) -> nat
    decreases n,
{
    if n == 0 {
        1
    } else {
        10 * pow10((n - 1) as nat)
    }
}

/// A digit character round-trips through its value.
pub proof fn lemma_digit_char_val(d: nat)
    requires
        d < 10,
    ensures
        is_digit(digit_char(d)),
        digit_val(digit_char(d)) == d,
        digit_char(d) != '.',
{
}

/// A decimal point anywhere means the count is at least one.
pub proof fn lemma_dot_pos(s: Seq<char>, i: int)
    requires
        0 <= i < s.len(),
        s[i] == '.',
    ensures
        dot_count(s) >= 1,
    decreases s.len(),
{
    if i == s.len() - 1 {
    } else {
        assert(s.drop_last()[i] == s[i]);
        lemma_dot_pos(s.drop_last(), i);
    }
}

/// Two decimal points at distinct positions mean the count is at least two.
pub proof fn lemma_two_dots(s: Seq<char>, i: int, j: int)
    requires
        0 <= i < j < s.len(),
        s[i] == '.',
        s[j] == '.',
    ensures
        dot_count(s) >= 2,
    decreases s.len(),
{
    if j == s.len() - 1 {
        assert(s.drop_last()[i] == s[i]);
        lemma_dot_pos(s.drop_last(), i);
    } else {
        assert(s.drop_last()[i] == s[i]);
        assert(s.drop_last()[j] == s[j]);
        lemma_two_dots(s.drop_last(), i, j);
    }
}

/// With exactly one decimal point, `dot_index` is the position of any
/// decimal point found.
pub proof fn lemma_dot_index_is(s: Seq<char>, i: int)
    requires
        dot_count(s) == 1,
        0 <= i < s.len(),
        s[i] == '.',
    ensures
        dot_index(s) == i,
{
    let j = dot_index(s);
    assert(0 <= j < s.len() && s[j] == '.') by {
        assert(0 <= i < s.len() && s[i] == '.');
    }
    if i < j {
        lemma_two_dots(s, i, j);
    } else if j < i {
        lemma_two_dots(s, j, i);
    }
}

/// A positive count means a decimal point exists, and `dot_index` finds
/// one.
pub proof fn lemma_dot_exists(s: Seq<char>)
    requires
        dot_count(s) >= 1,
    ensures
        0 <= dot_index(s) < s.len(),
        s[dot_index(s)] == '.',
    decreases s.len(),
{
    if s.len() == 0 {
    } else if s.last() == '.' {
        assert(s[s.len() - 1] == '.');
        assert(exists|i: int| 0 <= i < s.len() && s[i] == '.');
    } else {
        lemma_dot_exists(s.drop_last());
        let j = dot_index(s.drop_last());
        assert(s.drop_last()[j] == s[j]);
        assert(exists|i: int| 0 <= i < s.len() && s[i] == '.');
    }
}

/// The value of a prefix never exceeds the value of the whole numeral.
pub proof fn lemma_digits_value_take_monotone(s: Seq<char>, k: int)
    requires
        0 <= k <= s.len(),
    ensures
        digits_value(s.take(k)) <= digits_value(s),
    decreases s.len() - k,
{
    if k == s.len() {
        assert(s.take(k) =~= s);
    } else {
        assert(s.take(k + 1).drop_last() =~= s.take(k));
        assert(digits_value(s.take(k + 1)) == digits_value(s.take(k)) * 10 + digit_val(
            s.take(k + 1).last(),
        ));
        lemma_digits_value_take_monotone(s, k + 1);
    }
}

/// Appending one character extends the numeral's value by one digit and
/// adjusts the point count by at most one.
pub proof fn lemma_push(s: Seq<char>, c: char)
    ensures
        digits_value(s.push(c)) == digits_value(s) * 10 + digit_val(c),
        dot_count(s.push(c)) == dot_count(s) + if c == '.' {
            1nat
        } else {
            0nat
        },
{
    assert(s.push(c).drop_last() =~= s);
    assert(s.push(c).last() == c);
}

/// Decimal points in a concatenation are counted part by part.
pub proof fn lemma_dot_count_append(a: Seq<char>, b: Seq<char>)
    ensures
        dot_count(a + b) == dot_count(a) + dot_count(b),
    decreases b.len(),
{
    if b.len() == 0 {
        assert(a + b =~= a);
    } else {
        assert((a + b).drop_last() =~= a + b.drop_last());
        assert((a + b).last() == b.last());
        lemma_dot_count_append(a, b.drop_last());
    }
}

/// The value of a concatenated numeral: the left part is shifted by the
/// length of the right part.
pub proof fn lemma_digits_value_append(a: Seq<char>, b: Seq<char>)
    ensures
        digits_value(a + b) == digits_value(a) * pow10(b.len()) + digits_value(b),
    decreases b.len(),
{
    if b.len() == 0 {
        assert(a + b =~= a);
        assert(pow10(0) == 1);
    } else {
        assert((a + b).drop_last() =~= a + b.drop_last());
        assert((a + b).last() == b.last());
        lemma_digits_value_append(a, b.drop_last());
        let p = pow10((b.len() - 1) as nat);
        assert(digits_value(a + b) == (digits_value(a) * p + digits_value(b.drop_last())) * 10
            + digit_val(b.last()));
        assert((digits_value(a) * p) * 10 == digits_value(a) * (p * 10)) by (nonlinear_arith);
        assert(pow10(b.len()) == 10 * p);
    }
}

/// The numeral for `n` has value `n`, is all digits, and contains no
/// decimal point.
pub proof fn lemma_dec_digits(n: nat)
    ensures
        all_digits(dec_digits(n)),
        digits_value(dec_digits(n)) == n,
        dot_count(dec_digits(n)) == 0,
        dec_digits(n).len() >= 1,
    decreases n,
{
    if n < 10 {
        lemma_digit_char_val(n);
        let s = dec_digits(n);
        assert(s =~= Seq::<char>::empty().push(digit_char(n)));
        assert(digits_value(Seq::<char>::empty()) == 0);
        assert(dot_count(Seq::<char>::empty()) == 0);
        lemma_push(Seq::<char>::empty(), digit_char(n));
        assert(forall|i: int| 0 <= i < s.len() ==> is_digit(#[trigger] s[i]));
    } else {
        lemma_dec_digits(n / 10);
        lemma_digit_char_val(n % 10);
        let t = dec_digits(n / 10);
        let s = dec_digits(n);
        assert(s == t.push(digit_char(n % 10)));
        lemma_push(t, digit_char(n % 10));
        lemma_fundamental_div_mod(n as int, 10);
        assert forall|i: int| 0 <= i < s.len() implies is_digit(#[trigger] s[i]) by {
            if i < s.len() - 1 {
                assert(s[i] == t[i]);
            }
        }
    }
}

/// The four-digit rendering of `f < 10000` has value `f`, is all digits,
/// and contains no decimal point.
pub proof fn lemma_frac4(f: nat)
    requires
        f < 10000,
    ensures
        all_digits(frac4(f)),
        digits_value(frac4(f)) == f,
        dot_count(frac4(f)) == 0,
        frac4(f).len() == 4,
{
    lemma_fundamental_div_mod(f as int, 1000);
    assert(f / 1000 < 10);
    lemma_digit_char_val(f / 1000);
    lemma_digit_char_val((f / 100) % 10);
    lemma_digit_char_val((f / 10) % 10);
    lemma_digit_char_val(f % 10);
    let x3 = digit_char(f / 1000);
    let x2 = digit_char((f / 100) % 10);
    let x1 = digit_char((f / 10) % 10);
    let x0 = digit_char(f % 10);
    let e0 = Seq::<char>::empty().push(x3);
    let e1 = e0.push(x2);
    let e2 = e1.push(x1);
    let e3 = e2.push(x0);
    assert(frac4(f) =~= e3);
    assert(digits_value(Seq::<char>::empty()) == 0);
    assert(dot_count(Seq::<char>::empty()) == 0);
    lemma_push(Seq::<char>::empty(), x3);
    lemma_push(e0, x2);
    lemma_push(e1, x1);
    lemma_push(e2, x0);
    // Reassemble f from its digits, one division at a time.
    lemma_fundamental_div_mod(f as int, 10);
    lemma_fundamental_div_mod(f as int / 10, 10);
    lemma_fundamental_div_mod(f as int / 100, 10);
    lemma_div_denominator(f as int, 10, 10);
    lemma_div_denominator(f as int, 100, 10);
    assert(digits_value(e3) == ((digit_val(x3) * 10 + digit_val(x2)) * 10 + digit_val(x1)) * 10
        + digit_val(x0));
    assert(digit_val(x3) * 10 + digit_val(x2) == f / 100);
    assert((f / 100) * 10 + digit_val(x1) == f / 10);
    assert((f / 10) * 10 + digit_val(x0) == f);
}

/// A numeral's value is bounded by ten to its length.
pub proof fn lemma_digits_value_bound(s: Seq<char>)
    requires
        all_digits(s),
    ensures
        digits_value(s) < pow10(s.len()),
    decreases s.len(),
{
    if s.len() == 0 {
    } else {
        assert(all_digits(s.drop_last())) by {
            assert(forall|i: int|
                0 <= i < s.len() - 1 ==> s.drop_last()[i] == #[trigger] s[i]);
        }
        lemma_digits_value_bound(s.drop_last());
        assert(digit_val(s.last()) <= 9);
    }
}

/// A digit character is recovered from its value.
pub proof fn lemma_digit_char_inverse(c: char)
    requires
        is_digit(c),
    ensures
        digit_char(digit_val(c)) == c,
{
}

/// A four-character numeral is recovered from its value.
pub proof fn lemma_frac4_inverse(x: Seq<char>)
    requires
        x.len() == 4,
        all_digits(x),
    ensures
        frac4(digits_value(x)) == x,
{
    let v0 = digit_val(x[0]);
    let v1 = digit_val(x[1]);
    let v2 = digit_val(x[2]);
    let v3 = digit_val(x[3]);
    let f = digits_value(x);
    assert(f == ((v0 * 10 + v1) * 10 + v2) * 10 + v3) by {
        let x3 = x.drop_last();
        let x2 = x3.drop_last();
        let x1 = x2.drop_last();
        assert(x1.drop_last() =~= Seq::<char>::empty());
        assert(digits_value(Seq::<char>::empty()) == 0);
        assert(x1.last() == x[0] && x2.last() == x[1] && x3.last() == x[2] && x.last() == x[3]);
        assert(digits_value(x1) == v0);
        assert(digits_value(x2) == v0 * 10 + v1);
        assert(digits_value(x3) == (v0 * 10 + v1) * 10 + v2);
    }
    assert(v0 <= 9 && v1 <= 9 && v2 <= 9 && v3 <= 9);
    lemma_fundamental_div_mod_converse(
        f as int,
        1000,
        v0 as int,
        (v1 * 100 + v2 * 10 + v3) as int,
    );
    lemma_fundamental_div_mod_converse(f as int, 100, (v0 * 10 + v1) as int, (v2 * 10 + v3) as int);
    lemma_fundamental_div_mod_converse(f as int, 10, (v0 * 100 + v1 * 10 + v2) as int, v3 as int);
    lemma_fundamental_div_mod_converse((v0 * 10 + v1) as int, 10, v0 as int, v1 as int);
    lemma_fundamental_div_mod_converse(
        (v0 * 100 + v1 * 10 + v2) as int,
        10,
        (v0 * 10 + v1) as int,
        v2 as int,
    );
    assert(f / 1000 == v0 && (f / 100) % 10 == v1 && (f / 10) % 10 == v2 && f % 10 == v3);
    lemma_digit_char_inverse(x[0]);
    lemma_digit_char_inverse(x[1]);
    lemma_digit_char_inverse(x[2]);
    lemma_digit_char_inverse(x[3]);
    assert(frac4(f) =~= x);
}

/// Normalization, fractional case: a decoded amount string with a decimal
/// point renders back as the canonical numeral of its integer part (no
/// leading zeros, at least one digit), the point, and its fractional
/// digits padded with trailing zeros to four and truncated beyond the
/// fourth.
pub proof fn lemma_format_parsed_fraction(s: Seq<char>, v: u128)
    requires
        parse_amount(s) == Ok::<Option<u128>, ProcessEvent>(Some(v)),
        dot_count(s) == 1,
    ensures
        format_amount(v) == dec_digits(digits_value(s.subrange(0, dot_index(s)))) + seq!['.']
            + pad4(s.subrange(dot_index(s) + 1, s.len() as int)),
{
    lemma_dot_exists(s);
    let before = s.subrange(0, dot_index(s));
    let padded = pad4(s.subrange(dot_index(s) + 1, s.len() as int));
    let combined = before + padded;
    assert(all_digits(combined) && v == digits_value(combined));
    assert forall|i: int| 0 <= i < before.len() implies is_digit(#[trigger] before[i]) by {
        assert(before[i] == combined[i]);
    }
    assert forall|i: int| 0 <= i < padded.len() implies is_digit(#[trigger] padded[i]) by {
        assert(padded[i] == combined[i + before.len()]);
    }
    lemma_digits_value_append(before, padded);
    lemma_digits_value_bound(padded);
    assert(pow10(4) == 10000) by {
        reveal_with_fuel(pow10, 5);
    }
    lemma_fundamental_div_mod_converse(
        v as int,
        10000,
        digits_value(before) as int,
        digits_value(padded) as int,
    );
    lemma_frac4_inverse(padded);
}

/// Normalization, integer case: a decoded amount string with no decimal
/// point renders back as its canonical numeral, a point, and four zero
/// digits.
pub proof fn lemma_format_parsed_integer(s: Seq<char>, v: u128)
    requires
        parse_amount(s) == Ok::<Option<u128>, ProcessEvent>(Some(v)),
        s.len() > 0,
        dot_count(s) == 0,
    ensures
        format_amount(v) == dec_digits(digits_value(s)) + seq!['.'] + frac4(0),
{
    assert(v == digits_value(s) * 10000);
    lemma_fundamental_div_mod_converse(v as int, 10000, digits_value(s) as int, 0);
}

/// Round trip: decoding a rendered amount yields that amount exactly.
///
/// Together with the exactness of [`parse_amount`] this gives the codec
/// round trip: every amount string with at most four fractional digits
/// decodes to a value whose rendering is the string's normalized form.
pub proof fn lemma_parse_format_round_trip(v: u128)
    ensures
        parse_amount(format_amount(v)) == Ok::<Option<u128>, ProcessEvent>(Some(v)),
{
    let u = v as nat / 10000;
    let f = v as nat % 10000;
    let ip = dec_digits(u);
    let fp = frac4(f);
    let s = format_amount(v);
    lemma_dec_digits(u);
    lemma_frac4(f);
    assert(s == ip + seq!['.'] + fp);
    // Exactly one decimal point, at position ip.len().
    lemma_dot_count_append(ip + seq!['.'], fp);
    lemma_dot_count_append(ip, seq!['.']);
    assert(dot_count(seq!['.']) == 1) by {
        assert(seq!['.'] =~= Seq::<char>::empty().push('.'));
        assert(dot_count(Seq::<char>::empty()) == 0);
        lemma_push(Seq::<char>::empty(), '.');
    }
    assert(dot_count(s) == 1);
    let di = ip.len() as int;
    assert(s[di] == '.') by {
        assert((ip + seq!['.'])[di] == seq!['.'][0]);
    }
    lemma_dot_index_is(s, di);
    // The parts on either side of the point are the numeral and the
    // fractional digits.
    assert(s.subrange(0, di) =~= ip);
    assert(s.subrange(di + 1, s.len() as int) =~= fp);
    assert(pad4(fp) =~= fp);
    let combined = s.subrange(0, di) + pad4(s.subrange(di + 1, s.len() as int));
    assert(combined =~= ip + fp);
    lemma_digits_value_append(ip, fp);
    assert(pow10(4) == 10000) by {
        reveal_with_fuel(pow10, 5);
    }
    lemma_fundamental_div_mod(v as int, 10000);
    assert(digits_value(combined) == u * 10000 + f);
    assert(u * 10000 + f == v);
    assert(all_digits(combined)) by {
        assert(forall|i: int| 0 <= i < ip.len() ==> combined[i] == #[trigger] ip[i]);
        assert(forall|i: int|
            ip.len() <= i < combined.len() ==> combined[i] == #[trigger] fp[i - ip.len()]);
    }
}

} // verus!
