//! Fixed-point monetary amounts with four fractional digits, and their
//! decimal text form.

use crate::error::ParseError;
use vstd::prelude::*;

verus! {

/// Ten-thousandths in one whole unit.
pub const SCALE: u64 = 10_000;

/// The ASCII digit for `d`, where `d < 10`.
pub open spec fn digit_char(d: nat) -> char {
    (d + 48) as char
}

/// The decimal digits of `n`, most significant first, without leading zeros.
pub open spec fn decimal_text(n: nat) -> Seq<char>
    decreases n,
{
    if n < 10 {
        seq![digit_char(n)]
    } else {
        decimal_text(n / 10).push(digit_char(n % 10))
    }
}

/// Exactly four decimal digits of `n`, zero-padded on the left, where `n < 10_000`.
pub open spec fn four_digit_text(n: nat) -> Seq<char> {
    seq![
        digit_char(n / 1000),
        digit_char((n / 100) % 10),
        digit_char((n / 10) % 10),
        digit_char(n % 10),
    ]
}

/// The text of a non-negative amount: whole units, a point, and four fractional digits.
pub open spec fn amount_text(x: nat) -> Seq<char> {
    decimal_text(x / 10_000) + seq!['.'] + four_digit_text(x % 10_000)
}

/// The text of a signed amount: a minus sign only for a negative value.
pub open spec fn signed_amount_text(v: int) -> Seq<char> {
    if v < 0 {
        seq!['-'] + amount_text((-v) as nat)
    } else {
        amount_text(v as nat)
    }
}

pub open spec fn is_digit(c: char) -> bool {
    '0' <= c && c <= '9'
}

pub open spec fn digit_value(c: char) -> nat {
    (c as int - 48) as nat
}

/// The number that a run of decimal digits denotes.
pub open spec fn digits_value(s: Seq<char>) -> nat
    decreases s.len(),
{
    if s.len() == 0 {
        0
    } else {
        digits_value(s.drop_last()) * 10 + digit_value(s.last())
    }
}

/// `s` without the one `'+'` that may lead it.
pub open spec fn unsigned_digits(s: Seq<char>) -> Seq<char> {
    if s.len() > 0 && s[0] == '+' {
        s.drop_first()
    } else {
        s
    }
}

/// An unsigned integer in text: an optional `'+'`, then one or more decimal digits.
pub open spec fn is_unsigned_text(s: Seq<char>) -> bool {
    let d = unsigned_digits(s);
    d.len() > 0 && forall|i: int| 0 <= i < d.len() ==> is_digit(#[trigger] d[i])
}

pub open spec fn unsigned_value(s: Seq<char>) -> nat {
    digits_value(unsigned_digits(s))
}

/// The index of the first `'.'` in `s`, or its length when there is none.
pub open spec fn point_position(s: Seq<char>) -> nat
    decreases s.len(),
{
    if s.len() == 0 || s[0] == '.' {
        0
    } else {
        1 + point_position(s.drop_first())
    }
}

/// The text before the first point (all of `s` when there is none).
pub open spec fn integer_field(s: Seq<char>) -> Seq<char> {
    s.take(point_position(s) as int)
}

/// The text after the first point, padded with `'0'` and cut to exactly four
/// characters.
pub open spec fn fraction_field(s: Seq<char>) -> Seq<char> {
    let p = point_position(s) as int;
    let rest = if p < s.len() {
        s.skip(p + 1)
    } else {
        Seq::<char>::empty()
    };
    (rest + seq!['0', '0', '0', '0']).take(4)
}

/// Both fields of an amount text are unsigned integers.
pub open spec fn is_amount_text(s: Seq<char>) -> bool {
    is_unsigned_text(integer_field(s)) && is_unsigned_text(fraction_field(s))
}

/// The ten-thousandths that an amount text denotes; excess fractional digits
/// are cut off, never rounded.
pub open spec fn amount_value(s: Seq<char>) -> nat {
    unsigned_value(integer_field(s)) * 10_000 + unsigned_value(fraction_field(s))
}

/// What parsing `s` as an amount yields.
pub open spec fn parse_amount(s: Seq<char>) -> Result<u64, ParseError> {
    if is_amount_text(s) && amount_value(s) <= u64::MAX {
        Ok(amount_value(s) as u64)
    } else {
        Err(ParseError::InvalidAmount)
    }
}

fn digit_str(d: u64) -> (r: &'static str)
    requires
        d < 10,
    ensures
        r@ == seq![digit_char(d as nat)],
{
    proof {
        reveal_strlit("0");
        reveal_strlit("1");
        reveal_strlit("2");
        reveal_strlit("3");
        reveal_strlit("4");
        reveal_strlit("5");
        reveal_strlit("6");
        reveal_strlit("7");
        reveal_strlit("8");
        reveal_strlit("9");
    }
    match d {
        0 => "0",
        1 => "1",
        2 => "2",
        3 => "3",
        4 => "4",
        5 => "5",
        6 => "6",
        7 => "7",
        8 => "8",
        _ => "9",
    }
}

fn push_decimal(out: &mut String, n: u64)
    ensures
        final(out)@ == old(out)@ + decimal_text(n as nat),
    decreases n,
{
    if n >= 10 {
        push_decimal(out, n / 10);
    }
    out.append(digit_str(n % 10));
}

/// Renders `value` ten-thousandths as `"{whole}.{fraction}"` with exactly four
/// fractional digits.
pub fn fixed_point_4_decimal_to_float_str(value: u64) -> (r: String)
    ensures
        r@ == amount_text(value as nat),
{
    let mut out = String::new();
    push_decimal(&mut out, value / SCALE);
    out.append(".");
    let frac = value % SCALE;
    out.append(digit_str(frac / 1000));
    out.append(digit_str((frac / 100) % 10));
    out.append(digit_str((frac / 10) % 10));
    out.append(digit_str(frac % 10));
    proof {
        reveal_strlit(".");
    }
    out
}

/// The magnitude of `value`, which for `i64::MIN` only fits unsigned.
fn magnitude(value: i64) -> (r: u64)
    ensures
        r as int == if value < 0 { -value } else { value as int },
{
    if value < 0 {
        (-(value + 1)) as u64 + 1
    } else {
        value as u64
    }
}

/// `"-"` for a negative value, else the empty text.
fn get_sign_prefix(value: i64) -> (r: &'static str)
    ensures
        r@ == (if value < 0 { seq!['-'] } else { Seq::<char>::empty() }),
{
    proof {
        reveal_strlit("-");
        reveal_strlit("");
    }
    if value < 0 {
        "-"
    } else {
        ""
    }
}

/// Renders a signed amount of ten-thousandths: a leading `-` only when the
/// value is below zero, then the magnitude as
/// [`fixed_point_4_decimal_to_float_str`] renders it.
pub fn signed_fixed_point_4_decimal_to_float_str(value: i64) -> (r: String)
    ensures
        r@ == signed_amount_text(value as int),
{
    let mut out = String::from_str(get_sign_prefix(value));
    let digits = fixed_point_4_decimal_to_float_str(magnitude(value));
    out.append(digits.as_str());
    out
}

/// The characters of `s`, in order.
fn chars_of(s: &str) -> (r: Vec<char>)
    ensures
        r@ == s@,
{
    let mut v: Vec<char> = Vec::new();
    for c in it: s.chars()
        invariant
            v@ == it.seq().take(it.index()),
    {
        v.push(c);
    }
    v
}

proof fn lemma_digits_value_prefix(s: Seq<char>, k: int)
    requires
        0 <= k <= s.len(),
    ensures
        digits_value(s.take(k)) <= digits_value(s),
    decreases s.len(),
{
    if k < s.len() {
        assert(s.drop_last().take(k) =~= s.take(k));
        lemma_digits_value_prefix(s.drop_last(), k);
    } else {
        assert(s.take(k) =~= s);
    }
}

proof fn lemma_point_position(s: Seq<char>, p: int)
    requires
        0 <= p <= s.len(),
        forall|j: int| 0 <= j < p ==> s[j] != '.',
        p == s.len() || s[p] == '.',
    ensures
        point_position(s) == p,
    decreases p,
{
    if p > 0 {
        lemma_point_position(s.drop_first(), p - 1);
    }
}

/// The unsigned integer written in `chars[lo..hi]`, when it is one and fits in `u64`.
fn parse_unsigned(chars: &Vec<char>, lo: usize, hi: usize) -> (r: Option<u64>)
    requires
        lo <= hi <= chars.len(),
    ensures
        r == (if is_unsigned_text(chars@.subrange(lo as int, hi as int)) && unsigned_value(
            chars@.subrange(lo as int, hi as int),
        ) <= u64::MAX {
            Some(unsigned_value(chars@.subrange(lo as int, hi as int)) as u64)
        } else {
            None::<u64>
        }),
{
    let ghost text = chars@.subrange(lo as int, hi as int);
    let mut start = lo;
    if start < hi && chars[start] == '+' {
        start = start + 1;
    }
    let ghost digits = chars@.subrange(start as int, hi as int);
    assert(unsigned_digits(text) =~= digits);
    if start == hi {
        return None;
    }
    let mut acc: u64 = 0;
    let mut i = start;
    while i < hi
        invariant
            lo <= start <= i <= hi <= chars.len(),
            text == chars@.subrange(lo as int, hi as int),
            digits == chars@.subrange(start as int, hi as int),
            unsigned_digits(text) == digits,
            acc == digits_value(chars@.subrange(start as int, i as int)),
            forall|j: int| start <= j < i ==> is_digit(#[trigger] chars@[j]),
        decreases hi - i,
    {
        let c = chars[i];
        if !(c >= '0' && c <= '9') {
            assert(digits[i - start] == c);
            assert(!is_digit(unsigned_digits(text)[i - start]));
            return None;
        }
        let next: u128 = acc as u128 * 10 + (c as u32 - 48) as u128;
        proof {
            let pre = chars@.subrange(start as int, i + 1);
            assert(pre.drop_last() =~= chars@.subrange(start as int, i as int));
            assert(next == digits_value(pre));
        }
        if next > u64::MAX as u128 {
            proof {
                assert(digits.take(i + 1 - start) =~= chars@.subrange(start as int, i + 1));
                lemma_digits_value_prefix(digits, i + 1 - start);
                assert(unsigned_value(text) > u64::MAX);
            }
            return None;
        }
        acc = next as u64;
        i = i + 1;
    }
    assert(chars@.subrange(start as int, i as int) =~= digits);
    assert forall|j: int| 0 <= j < digits.len() implies is_digit(#[trigger] digits[j]) by {
        assert(digits[j] == chars@[start + j]);
    }
    Some(acc)
}

/// Parses decimal text into ten-thousandths: the text before the first point is
/// the whole part, the text after it is padded with `'0'` and cut to four
/// digits (extra digits are dropped, not rounded).
pub fn float_str_to_fixed_point_4_decimal(value: &str) -> (r: Result<u64, ParseError>)
    ensures
        r == parse_amount(value@),
{
    let chars = chars_of(value);
    let n = chars.len();
    let mut p: usize = 0;
    while p < n && chars[p] != '.'
        invariant
            p <= n == chars.len(),
            forall|j: int| 0 <= j < p ==> chars@[j] != '.',
        decreases n - p,
    {
        p = p + 1;
    }
    proof {
        lemma_point_position(chars@, p as int);
        assert(chars@.subrange(0, p as int) =~= integer_field(value@));
    }
    let mut frac: Vec<char> = Vec::new();
    let mut k: usize = 0;
    while k < 4
        invariant
            p <= n == chars.len(),
            chars@ == value@,
            point_position(value@) == p,
            k <= 4,
            frac@ =~= fraction_field(value@).take(k as int),
        decreases 4 - k,
    {
        if p < n && k < n - p - 1 {
            frac.push(chars[p + 1 + k]);
        } else {
            frac.push('0');
        }
        k = k + 1;
    }
    assert(frac@ =~= frac@.subrange(0, 4));
    assert(frac@ =~= fraction_field(value@));
    let whole = parse_unsigned(&chars, 0, p);
    let fraction = parse_unsigned(&frac, 0, 4);
    match (whole, fraction) {
        (Some(w), Some(f)) => {
            if w > (u64::MAX - f) / SCALE {
                assert(w * 10_000 + f > u64::MAX) by (nonlinear_arith)
                    requires
                        w > (u64::MAX - f) / 10_000,
                        f <= u64::MAX,
                ;
                Err(ParseError::InvalidAmount)
            } else {
                assert(w * 10_000 + f <= u64::MAX) by (nonlinear_arith)
                    requires
                        w <= (u64::MAX - f) / 10_000,
                        f <= u64::MAX,
                ;
                Ok(w * SCALE + f)
            }
        },
        _ => Err(ParseError::InvalidAmount),
    }
}

proof fn lemma_digit_char(d: nat)
    requires
        d < 10,
    ensures
        is_digit(digit_char(d)),
        digit_value(digit_char(d)) == d,
{
    assert(digit_char(d) as int == d + 48);
}

proof fn lemma_decimal_text(n: nat)
    ensures
        decimal_text(n).len() > 0,
        forall|i: int| 0 <= i < decimal_text(n).len() ==> is_digit(#[trigger] decimal_text(n)[i]),
        digits_value(decimal_text(n)) == n,
    decreases n,
{
    if n >= 10 {
        lemma_decimal_text(n / 10);
        lemma_digit_char(n % 10);
        let t = decimal_text(n);
        assert(t.drop_last() =~= decimal_text(n / 10));
        assert(t.last() == digit_char(n % 10));
        assert(digits_value(t) == digits_value(t.drop_last()) * 10 + digit_value(t.last()));
        assert((n / 10) * 10 + n % 10 == n);
    } else {
        lemma_digit_char(n);
        let t = decimal_text(n);
        assert(t.drop_last() =~= Seq::<char>::empty());
        assert(digits_value(t.drop_last()) == 0);
    }
}

proof fn lemma_four_digit_text(r: nat)
    requires
        r < 10_000,
    ensures
        four_digit_text(r).len() == 4,
        forall|i: int| 0 <= i < 4 ==> is_digit(#[trigger] four_digit_text(r)[i]),
        digits_value(four_digit_text(r)) == r,
{
    let t = four_digit_text(r);
    assert(t.drop_last().drop_last().drop_last().drop_last() =~= Seq::<char>::empty());
    let a = r / 1000;
    let b = (r / 100) % 10;
    let c = (r / 10) % 10;
    let d = r % 10;
    lemma_digit_char(a);
    lemma_digit_char(b);
    lemma_digit_char(c);
    lemma_digit_char(d);
    assert(digits_value(t.drop_last().drop_last().drop_last().drop_last()) == 0);
    assert(digits_value(t.drop_last().drop_last().drop_last()) == a);
    assert(digits_value(t.drop_last().drop_last()) == a * 10 + b);
    assert(digits_value(t.drop_last()) == (a * 10 + b) * 10 + c);
    assert(((a * 10 + b) * 10 + c) * 10 + d == r) by (nonlinear_arith)
        requires
            r < 10_000,
            a == r / 1000,
            b == (r / 100) % 10,
            c == (r / 10) % 10,
            d == r % 10,
    ;
}

/// Formatting any amount and parsing the text back gives that amount again.
pub proof fn lemma_amount_text_round_trip(x: u64)
    ensures
        parse_amount(amount_text(x as nat)) == Ok::<u64, ParseError>(x),
{
    let q = x as nat / 10_000;
    let r = x as nat % 10_000;
    let whole = decimal_text(q);
    let frac = four_digit_text(r);
    let s = amount_text(x as nat);
    lemma_decimal_text(q);
    lemma_four_digit_text(r);
    assert(s[whole.len() as int] == '.');
    assert forall|j: int| 0 <= j < whole.len() implies s[j] != '.' by {
        assert(s[j] == whole[j]);
        assert(is_digit(whole[j]));
    }
    lemma_point_position(s, whole.len() as int);
    assert(integer_field(s) =~= whole);
    assert(s.skip(whole.len() as int + 1) =~= frac);
    assert(fraction_field(s) =~= frac);
    assert(unsigned_digits(whole) == whole);
    assert(unsigned_digits(frac) == frac);
}

} // verus!
