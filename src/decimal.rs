//! Exact decimal values: a sign, a 96-bit mantissa and a scale of at most 28
//! fractional digits, converted from text by `rust_decimal`.
use std::str::FromStr;
use vstd::prelude::*;
use crate::scan::is_digit;

verus! {

/// The largest mantissa a decimal holds is `MANTISSA_LIMIT - 1`.
pub const MANTISSA_LIMIT: u128 = 0x1_0000_0000_0000_0000_0000_0000;

/// The largest number of fractional digits.
pub const MAX_SCALE: u32 = 28;

/// The value `(-1)^negative * mantissa / 10^scale`. The sign is kept apart
/// from the magnitude, so a negative zero is distinct from a positive one.
#[derive(Debug, Clone, Copy, PartialEq, Eq)]
pub struct DecimalValue {
    pub negative: bool,
    pub mantissa: u128,
    pub scale: u32,
}

impl DecimalValue {
    pub open spec fn wf(&self) -> bool {
        self.mantissa < MANTISSA_LIMIT && self.scale <= MAX_SCALE
    }
}

pub open spec fn digit_value(c: char) -> nat {
    ((c as u32) - ('0' as u32)) as nat
}

/// The number that a run of decimal digits denotes.
pub open spec fn digits_value(d: Seq<char>) -> nat
    decreases d.len(),
{
    if d.len() == 0 {
        0
    } else {
        digits_value(d.drop_last()) * 10 + digit_value(d.last())
    }
}

pub open spec fn all_digits(d: Seq<char>) -> bool {
    forall|k: int| 0 <= k < d.len() ==> is_digit(#[trigger] d[k])
}

/// Only digits and points: no sign, exponent or other character.
pub open spec fn digits_and_points(t: Seq<char>) -> bool {
    forall|k: int| 0 <= k < t.len() ==> is_digit(#[trigger] t[k]) || t[k] == '.'
}

/// Position of the first `.` in `t`, or its length.
pub open spec fn point_index(t: Seq<char>) -> int
    decreases t.len(),
{
    if t.len() == 0 || t[0] == '.' {
        0
    } else {
        1 + point_index(t.drop_first())
    }
}

pub open spec fn int_digits(t: Seq<char>) -> Seq<char> {
    t.take(point_index(t))
}

pub open spec fn frac_digits(t: Seq<char>) -> Seq<char> {
    if point_index(t) < t.len() {
        t.skip(point_index(t) + 1)
    } else {
        Seq::empty()
    }
}

/// Digits, optionally followed by a point and more digits.
pub open spec fn plain_decimal(t: Seq<char>) -> bool {
    &&& int_digits(t).len() > 0
    &&& all_digits(int_digits(t))
    &&& all_digits(frac_digits(t))
    &&& point_index(t) < t.len() ==> frac_digits(t).len() > 0
}

/// What `rust_decimal`'s `Decimal::from_str` makes of a text, as mantissa and
/// scale, where it accepts the text.
pub uninterp spec fn decimal_from_text(t: Seq<char>) -> Option<(nat, nat)>;

/// The result of converting `t`, where `other` is the result on texts that
/// the next two rules leave open: exact where the digits fit a mantissa and
/// the scale, refused where the integer part alone does not fit.
pub open spec fn converted_with(t: Seq<char>, other: Option<(nat, nat)>) -> Option<(nat, nat)> {
    let all = int_digits(t) + frac_digits(t);
    if plain_decimal(t) && digits_value(all) < MANTISSA_LIMIT && frac_digits(t).len() <= MAX_SCALE {
        Some((digits_value(all), frac_digits(t).len()))
    } else if plain_decimal(t) && digits_value(int_digits(t)) >= MANTISSA_LIMIT {
        None
    } else {
        other
    }
}

pub open spec fn converted(t: Seq<char>) -> Option<(nat, nat)> {
    converted_with(t, decimal_from_text(t))
}

/// Relies on `rust_decimal::Decimal::from_str` (with `mantissa` and `scale`):
/// a plain decimal text whose digits fit 96 bits and whose scale is at most
/// 28 converts exactly; an integer part of 96 bits or more is refused; what
/// it returns always fits those bounds, the text having no sign. The error is
/// rendered as its message.
#[verifier::external_body]
fn decimal_parts(t: &Vec<char>) -> (r: Result<(u128, u32), String>)
    requires
        digits_and_points(t@),
    ensures
        match r {
            Ok((m, sc)) => converted_with(t@, decimal_from_text(t@)) == Some((m as nat, sc as nat)),
            Err(_) => converted_with(t@, decimal_from_text(t@)) is None,
        },
        r matches Ok((m, sc)) ==> m < MANTISSA_LIMIT && sc <= MAX_SCALE,
{
    let text: String = t.iter().collect();
    match rust_decimal::Decimal::from_str(&text) {
        Ok(d) => Ok((d.mantissa() as u128, d.scale())),
        Err(e) => Err(e.to_string()),
    }
}

/// Converts a decimal text to an unsigned value; the error carries the
/// converter's message.
pub fn decimal_from_chars(t: &Vec<char>) -> (r: Result<DecimalValue, String>)
    requires
        digits_and_points(t@),
    ensures
        match r {
            Ok(v) => converted(t@) == Some((v.mantissa as nat, v.scale as nat)) && !v.negative
                && v.wf(),
            Err(_) => converted(t@) is None,
        },
{
    match decimal_parts(t) {
        Ok((m, sc)) => Ok(DecimalValue { negative: false, mantissa: m, scale: sc }),
        Err(msg) => Err(msg),
    }
}

pub open spec fn digit_char(d: nat) -> char {
    if d == 0 {
        '0'
    } else if d == 1 {
        '1'
    } else if d == 2 {
        '2'
    } else if d == 3 {
        '3'
    } else if d == 4 {
        '4'
    } else if d == 5 {
        '5'
    } else if d == 6 {
        '6'
    } else if d == 7 {
        '7'
    } else if d == 8 {
        '8'
    } else {
        '9'
    }
}

/// The decimal digits of `m`, with no leading zero (none at all for zero).
pub open spec fn digits_of(m: nat) -> Seq<char>
    decreases m,
{
    if m == 0 {
        Seq::empty()
    } else {
        digits_of(m / 10).push(digit_char(m % 10))
    }
}

/// The digits of `m`, padded with leading zeros to at least `w` characters.
pub open spec fn padded_digits(m: nat, w: nat) -> Seq<char> {
    let d = digits_of(m);
    if d.len() < w {
        Seq::new((w - d.len()) as nat, |k: int| '0') + d
    } else {
        d
    }
}

/// The unsigned part of a decimal's canonical text: at least one integer
/// digit, and exactly `scale` fractional digits after a point when `scale > 0`.
pub open spec fn decimal_body(v: DecimalValue) -> Seq<char> {
    let d = padded_digits(v.mantissa as nat, v.scale as nat + 1);
    let w = d.len() - v.scale;
    if v.scale == 0 {
        d
    } else {
        d.take(w) + seq!['.'] + d.skip(w)
    }
}

/// Canonical text of a decimal: `-` when negative, then its unsigned part.
pub open spec fn decimal_text(v: DecimalValue) -> Seq<char> {
    let sign = if v.negative { seq!['-'] } else { Seq::empty() };
    sign + decimal_body(v)
}

fn digit_to_char(d: u128) -> (c: char)
    requires
        d < 10,
    ensures
        c == digit_char(d as nat),
{
    if d == 0 {
        '0'
    } else if d == 1 {
        '1'
    } else if d == 2 {
        '2'
    } else if d == 3 {
        '3'
    } else if d == 4 {
        '4'
    } else if d == 5 {
        '5'
    } else if d == 6 {
        '6'
    } else if d == 7 {
        '7'
    } else if d == 8 {
        '8'
    } else {
        '9'
    }
}

fn push_digits(m: u128, out: &mut Vec<char>)
    ensures
        final(out)@ == old(out)@ + digits_of(m as nat),
    decreases m,
{
    if m == 0 {
        proof {
            assert(old(out)@ + digits_of(0) =~= old(out)@);
        }
        return;
    }
    push_digits(m / 10, out);
    out.push(digit_to_char(m % 10));
    proof {
        assert(final(out)@ =~= old(out)@ + digits_of(m as nat));
    }
}

/// Relies on collecting `char`s into a `String`, which keeps them in order.
#[verifier::external_body]
pub(crate) fn string_from_chars(v: &Vec<char>) -> (r: String)
    ensures
        r@ == v@,
{
    v.iter().collect()
}

impl DecimalValue {
    /// The canonical text of the value.
    pub fn to_chars(&self) -> (r: Vec<char>)
        requires
            self.wf(),
        ensures
            r@ == decimal_text(*self),
    {
        let mut d: Vec<char> = Vec::new();
        push_digits(self.mantissa, &mut d);
        let w: usize = self.scale as usize + 1;
        let mut out: Vec<char> = Vec::new();
        if self.negative {
            out.push('-');
        }
        let ghost sign = out@;
        let mut p: Vec<char> = Vec::new();
        if d.len() < w {
            let mut z: usize = 0;
            while z < w - d.len()
                invariant
                    d.len() < w,
                    z <= w - d.len(),
                    p@ == Seq::new(z as nat, |k: int| '0'),
                decreases w - d.len() - z,
            {
                p.push('0');
                z = z + 1;
                proof {
                    assert(p@ =~= Seq::new(z as nat, |k: int| '0'));
                }
            }
        }
        let mut k: usize = 0;
        let ghost p0 = p@;
        while k < d.len()
            invariant
                k <= d.len(),
                p@ == p0 + d@.take(k as int),
            decreases d.len() - k,
        {
            p.push(d[k]);
            k = k + 1;
            proof {
                assert(p@ =~= p0 + d@.take(k as int));
            }
        }
        proof {
            assert(d@.take(d.len() as int) =~= d@);
            assert(p@ =~= padded_digits(self.mantissa as nat, self.scale as nat + 1));
        }
        let whole: usize = p.len() - self.scale as usize;
        let mut i: usize = 0;
        while i < whole
            invariant
                whole <= p.len(),
                i <= whole,
                out@ == sign + p@.take(i as int),
            decreases whole - i,
        {
            out.push(p[i]);
            i = i + 1;
            proof {
                assert(out@ =~= sign + p@.take(i as int));
            }
        }
        if self.scale > 0 {
            out.push('.');
            let ghost mid = out@;
            while i < p.len()
                invariant
                    whole <= i <= p.len(),
                    out@ == mid + p@.subrange(whole as int, i as int),
                decreases p.len() - i,
            {
                out.push(p[i]);
                i = i + 1;
                proof {
                    assert(out@ =~= mid + p@.subrange(whole as int, i as int));
                }
            }
            proof {
                assert(p@.subrange(whole as int, p.len() as int) =~= p@.skip(whole as int));
                assert(out@ =~= decimal_text(*self));
            }
        } else {
            proof {
                assert(p@.take(whole as int) =~= p@);
                assert(out@ =~= decimal_text(*self));
            }
        }
        out
    }

    /// The canonical text of the value, as `rust_decimal` displays it.
    pub fn to_text(&self) -> (r: String)
        requires
            self.wf(),
        ensures
            r@ == decimal_text(*self),
    {
        let v = self.to_chars();
        string_from_chars(&v)
    }
}

pub proof fn lemma_digits_of(m: nat)
    ensures
        digits_value(digits_of(m)) == m,
        all_digits(digits_of(m)),
    decreases m,
{
    if m != 0 {
        lemma_digits_of(m / 10);
        let d = digits_of(m);
        assert(d.drop_last() =~= digits_of(m / 10));
        assert(digit_value(digit_char(m % 10)) == m % 10);
    }
}

pub proof fn lemma_leading_zeros(z: nat, d: Seq<char>)
    ensures
        digits_value(Seq::new(z, |k: int| '0') + d) == digits_value(d),
    decreases d.len() + z,
{
    let zs = Seq::new(z, |k: int| '0');
    if d.len() == 0 {
        assert(zs + d =~= zs);
        if z > 0 {
            assert(zs.drop_last() =~= Seq::new((z - 1) as nat, |k: int| '0'));
            lemma_leading_zeros((z - 1) as nat, d);
            assert(Seq::new((z - 1) as nat, |k: int| '0') + d =~= zs.drop_last());
        }
    } else {
        assert((zs + d).drop_last() =~= zs + d.drop_last());
        lemma_leading_zeros(z, d.drop_last());
    }
}

pub proof fn lemma_padded_digits(m: nat, w: nat)
    ensures
        digits_value(padded_digits(m, w)) == m,
        all_digits(padded_digits(m, w)),
        padded_digits(m, w).len() >= w,
{
    lemma_digits_of(m);
    let d = digits_of(m);
    if d.len() < w {
        lemma_leading_zeros((w - d.len()) as nat, d);
        let p = padded_digits(m, w);
        assert forall|k: int| 0 <= k < p.len() implies is_digit(#[trigger] p[k]) by {
            if k >= w - d.len() {
                assert(p[k] == d[k - (w - d.len())]);
            }
        }
    }
}

pub proof fn lemma_point_index(t: Seq<char>, j: int)
    requires
        0 <= j <= t.len(),
        forall|k: int| 0 <= k < j ==> #[trigger] t[k] != '.',
        j == t.len() || t[j] == '.',
    ensures
        point_index(t) == j,
    decreases t.len(),
{
    if j > 0 {
        lemma_point_index(t.drop_first(), j - 1);
    }
}

} // verus!
