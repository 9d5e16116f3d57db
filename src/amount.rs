//! Amounts: a decimal value with a currency label, read from either of the
//! two surface forms `[sign] number currency` and `[sign] currency [sign] number`.
use vstd::prelude::*;
use vstd::string::StringExecFns;
use crate::decimal::{
    converted, decimal_from_chars, decimal_text, digits_and_points, frac_digits, int_digits, lemma_padded_digits,
    lemma_point_index, padded_digits, decimal_body, string_from_chars, DecimalValue,
};
use crate::scan::{
    bare_end, ends_bare, ends_bare_char, int_part_end, lemma_bare_run, lemma_int_part_run,
    lemma_skip_digits_run, is_digit, is_digit_char, quote_at_or_after, scan_bare,
    scan_digits, scan_hspace, scan_int_part, scan_to_quote, skip_digits, skip_hspace, trim_bounds,
    trim_end, trim_start, trimmed, white_space,
};

verus! {

broadcast use vstd::string::group_string_axioms;

/// A monetary amount: an exact decimal value and the label of its currency.
#[derive(Debug, Clone, PartialEq, Eq)]
pub struct Amount {
    pub currency: String,
    pub value: DecimalValue,
}

impl Amount {
    /// The currency is not blank and the value is in range.
    pub open spec fn wf(&self) -> bool {
        &&& self.value.wf()
        &&& trimmed(self.currency@, 0, self.currency@.len() as int).len() > 0
    }
}

/// A sign written in front of a number or a currency.
#[derive(Debug, Clone, Copy, PartialEq, Eq)]
pub enum AmountSign {
    Plus,
    Minus,
}

/// Why an amount could not be read.
#[derive(Debug, Clone, PartialEq, Eq)]
pub enum AmountError {
    /// The digits at hand could not be converted to a decimal; `position` is
    /// the end of the number, `message` the converter's explanation.
    InvalidAmount { position: usize, message: String },
    /// The input does not have the expected shape at `position`.
    Unmatched { position: usize },
}

pub open spec fn sign_at(s: Seq<char>, i: int) -> Option<AmountSign> {
    if 0 <= i < s.len() && s[i] == '-' {
        Some(AmountSign::Minus)
    } else if 0 <= i < s.len() && s[i] == '+' {
        Some(AmountSign::Plus)
    } else {
        None
    }
}

pub open spec fn after_sign(s: Seq<char>, i: int) -> int {
    if sign_at(s, i) is Some {
        i + 1
    } else {
        i
    }
}

/// End of the number token that starts with the digit at `i`.
pub open spec fn number_end(s: Seq<char>, i: int) -> int {
    let j = int_part_end(s, i);
    if 0 <= j && j + 1 < s.len() && (s[j] == '.' || s[j] == ',') && is_digit(s[j + 1]) {
        skip_digits(s, j + 1)
    } else {
        j
    }
}

pub open spec fn number_piece(c: char) -> Seq<char> {
    if c == '.' || c == ',' {
        seq!['.']
    } else if is_digit(c) {
        seq![c]
    } else {
        Seq::empty()
    }
}

/// The digits of `s[i..e]` with a point for each decimal separator; the
/// grouping spaces are dropped.
pub open spec fn number_text(s: Seq<char>, i: int, e: int) -> Seq<char>
    decreases e - i,
{
    if e <= i {
        Seq::empty()
    } else {
        number_text(s, i, e - 1) + number_piece(s[e - 1])
    }
}

/// What reading a number at `i` gives.
pub enum NumberScan {
    Number { mantissa: nat, scale: nat, end: int },
    Invalid { end: int },
    Missing,
}

pub open spec fn number_at(s: Seq<char>, i: int) -> NumberScan {
    if 0 <= i < s.len() && is_digit(s[i]) {
        let e = number_end(s, i);
        match converted(number_text(s, i, e)) {
            Some((m, sc)) => NumberScan::Number { mantissa: m, scale: sc, end: e },
            None => NumberScan::Invalid { end: e },
        }
    } else {
        NumberScan::Missing
    }
}

/// A currency label at `i`: the bounds of its text and the position after it.
/// A quoted label is taken when its closing quote exists; otherwise the
/// unquoted run, which must not be empty.
pub open spec fn currency_at(s: Seq<char>, i: int) -> Option<(int, int, int)> {
    if 0 <= i < s.len() && s[i] == '"' && quote_at_or_after(s, i + 1) < s.len() {
        let q = quote_at_or_after(s, i + 1);
        Some((i + 1, q, q + 1))
    } else if bare_end(s, i) > i {
        Some((i, bare_end(s, i), bare_end(s, i)))
    } else {
        None
    }
}

/// What reading an amount gives.
pub enum AmountScan {
    Parsed { negative: bool, mantissa: nat, scale: nat, currency: Seq<char>, end: int },
    Invalid { end: int },
    /// Neither form matches; `position` is where the last form tried, the
    /// prefix form, gave up.
    Unmatched { position: int },
}

/// `[sign] number [spaces] currency`.
pub open spec fn suffix_scan(s: Seq<char>) -> AmountScan {
    let i = skip_hspace(s, after_sign(s, 0));
    match number_at(s, i) {
        NumberScan::Missing => AmountScan::Unmatched { position: i },
        NumberScan::Invalid { end } => AmountScan::Invalid { end },
        NumberScan::Number { mantissa, scale, end } => match currency_at(s, skip_hspace(s, end)) {
            None => AmountScan::Unmatched { position: skip_hspace(s, end) },
            Some((a, b, e)) => if trimmed(s, a, b).len() == 0 {
                AmountScan::Unmatched { position: skip_hspace(s, end) }
            } else {
                AmountScan::Parsed {
                    negative: sign_at(s, 0) == Some(AmountSign::Minus),
                    mantissa,
                    scale,
                    currency: trimmed(s, a, b),
                    end: e,
                }
            },
        },
    }
}

/// `[sign] currency [spaces] [sign] number`; a second sign is looked for
/// only where the first is absent.
pub open spec fn prefix_scan(s: Seq<char>) -> AmountScan {
    let first = sign_at(s, 0);
    let c = skip_hspace(s, after_sign(s, 0));
    match currency_at(s, c) {
        None => AmountScan::Unmatched { position: c },
        Some((a, b, e)) => if trimmed(s, a, b).len() == 0 {
            AmountScan::Unmatched { position: c }
        } else {
            let k = skip_hspace(s, e);
            let sign = if first is Some { first } else { sign_at(s, k) };
            let i = if first is Some { k } else { skip_hspace(s, after_sign(s, k)) };
            match number_at(s, i) {
                NumberScan::Missing => AmountScan::Unmatched { position: i },
                NumberScan::Invalid { end } => AmountScan::Invalid { end },
                NumberScan::Number { mantissa, scale, end } => AmountScan::Parsed {
                    negative: sign == Some(AmountSign::Minus),
                    mantissa,
                    scale,
                    currency: trimmed(s, a, b),
                    end,
                },
            }
        },
    }
}

/// The suffix form first; the prefix form only where the suffix form does
/// not match. A number that fails to convert ends the attempt.
pub open spec fn amount_scan(s: Seq<char>) -> AmountScan {
    match suffix_scan(s) {
        AmountScan::Unmatched { .. } => prefix_scan(s),
        r => r,
    }
}

pub open spec fn number_result(r: Result<(DecimalValue, usize), AmountError>, m: NumberScan, i: int) -> bool {
    match m {
        NumberScan::Number { mantissa, scale, end } => r matches Ok((v, e)) && v.mantissa as nat
            == mantissa && v.scale as nat == scale && !v.negative && v.wf() && e as int == end,
        NumberScan::Invalid { end } => r matches Err(AmountError::InvalidAmount { position, .. })
            && position as int == end,
        NumberScan::Missing => r matches Err(AmountError::Unmatched { position }) && position as int
            == i,
    }
}

pub open spec fn amount_result(r: Result<(Amount, usize), AmountError>, m: AmountScan) -> bool {
    match m {
        AmountScan::Parsed { negative, mantissa, scale, currency, end } => r matches Ok((a, e))
            && a.value.negative == negative && a.value.mantissa as nat == mantissa
            && a.value.scale as nat == scale && a.currency@ == currency && a.wf() && e as int
            == end,
        AmountScan::Invalid { end } => r matches Err(AmountError::InvalidAmount { position, .. })
            && position as int == end,
        AmountScan::Unmatched { position } => r matches Err(AmountError::Unmatched { position: p })
            && p as int == position,
    }
}

fn sign_here(s: &str, n: usize, i: usize) -> (r: Option<AmountSign>)
    requires
        n == s@.len(),
        i <= n,
    ensures
        r == sign_at(s@, i as int),
{
    if i < n && s.get_char(i) == '-' {
        Some(AmountSign::Minus)
    } else if i < n && s.get_char(i) == '+' {
        Some(AmountSign::Plus)
    } else {
        None
    }
}

fn is_minus(sign: Option<AmountSign>) -> (r: bool)
    ensures
        r == (sign == Some(AmountSign::Minus)),
{
    match sign {
        Some(AmountSign::Minus) => true,
        _ => false,
    }
}

fn number_chars(s: &str, n: usize, i: usize, e: usize) -> (r: Vec<char>)
    requires
        n == s@.len(),
        i <= e <= n,
    ensures
        r@ == number_text(s@, i as int, e as int),
        digits_and_points(r@),
{
    let mut out: Vec<char> = Vec::new();
    let mut k = i;
    while k < e
        invariant
            n == s@.len(),
            i <= k <= e <= n,
            out@ == number_text(s@, i as int, k as int),
            digits_and_points(out@),
        decreases e - k,
    {
        let c = s.get_char(k);
        if c == ',' || c == '.' {
            out.push('.');
        } else if is_digit_char(c) {
            out.push(c);
        }
        k = k + 1;
        proof {
            assert(out@ =~= number_text(s@, i as int, k as int));
        }
    }
    out
}

fn number_here(s: &str, n: usize, i: usize) -> (r: Result<(DecimalValue, usize), AmountError>)
    requires
        n == s@.len(),
        i <= n,
    ensures
        number_result(r, number_at(s@, i as int), i as int),
        r matches Ok((v, e)) ==> e <= n,
{
    if i < n && is_digit_char(s.get_char(i)) {
        let j = scan_int_part(s, n, i);
        let e = if j < n && j + 1 < n && (s.get_char(j) == '.' || s.get_char(j) == ',')
            && is_digit_char(s.get_char(j + 1)) {
            scan_digits(s, n, j + 1)
        } else {
            j
        };
        let text = number_chars(s, n, i, e);
        match decimal_from_chars(&text) {
            Ok(v) => Ok((v, e)),
            Err(message) => Err(AmountError::InvalidAmount { position: e, message }),
        }
    } else {
        Err(AmountError::Unmatched { position: i })
    }
}

fn currency_here(s: &str, n: usize, i: usize) -> (r: Option<(usize, usize, usize)>)
    requires
        n == s@.len(),
        i <= n,
    ensures
        r is Some <==> currency_at(s@, i as int) is Some,
        r matches Some((a, b, e)) ==> currency_at(s@, i as int) == Some((a as int, b as int, e as int))
            && a <= b <= e <= n,
{
    if i < n && s.get_char(i) == '"' {
        let q = scan_to_quote(s, n, i + 1);
        if q < n {
            return Some((i + 1, q, q + 1));
        }
    }
    let b = scan_bare(s, n, i);
    if b > i {
        Some((i, b, b))
    } else {
        None
    }
}

fn text_between(s: &str, a: usize, b: usize) -> (r: String)
    requires
        a <= b <= s@.len(),
    ensures
        r@ == s@.subrange(a as int, b as int),
{
    s.substring_char(a, b).to_string()
}

proof fn lemma_trimmed_label(s: Seq<char>, a: int, b: int)
    requires
        0 <= a < b <= s.len(),
        !white_space(s[a]),
        !white_space(s[b - 1]),
    ensures
        trimmed(s.subrange(a, b), 0, b - a) == s.subrange(a, b),
{
    let c = s.subrange(a, b);
    assert(trim_start(c, 0, b - a) == 0);
    assert(trim_end(c, 0, b - a) == b - a);
    assert(c.subrange(0, b - a) =~= c);
}

fn suffix_here(s: &str, n: usize) -> (r: Result<(Amount, usize), AmountError>)
    requires
        n == s@.len(),
    ensures
        amount_result(r, suffix_scan(s@)),
{
    let sign = sign_here(s, n, 0);
    let start: usize = if sign.is_some() { 1 } else { 0 };
    let i = scan_hspace(s, n, start);
    match number_here(s, n, i) {
        Err(e) => Err(e),
        Ok((v, end)) => {
            let c = scan_hspace(s, n, end);
            match currency_here(s, n, c) {
                None => Err(AmountError::Unmatched { position: c }),
                Some((a, b, e)) => {
                    let (ta, tb) = trim_bounds(s, n, a, b);
                    if ta == tb {
                        Err(AmountError::Unmatched { position: c })
                    } else {
                        let currency = text_between(s, ta, tb);
                        proof {
                            lemma_trimmed_label(s@, ta as int, tb as int);
                        }
                        let value = DecimalValue { negative: is_minus(sign), ..v };
                        Ok((Amount { currency, value }, e))
                    }
                },
            }
        },
    }
}

fn prefix_here(s: &str, n: usize) -> (r: Result<(Amount, usize), AmountError>)
    requires
        n == s@.len(),
    ensures
        amount_result(r, prefix_scan(s@)),
{
    let first = sign_here(s, n, 0);
    let start: usize = if first.is_some() { 1 } else { 0 };
    let c = scan_hspace(s, n, start);
    match currency_here(s, n, c) {
        None => Err(AmountError::Unmatched { position: c }),
        Some((a, b, e)) => {
            let (ta, tb) = trim_bounds(s, n, a, b);
            if ta == tb {
                return Err(AmountError::Unmatched { position: c });
            }
            let k = scan_hspace(s, n, e);
            let (sign, i) = if first.is_some() {
                (first, k)
            } else {
                let second = sign_here(s, n, k);
                let after: usize = if second.is_some() { k + 1 } else { k };
                (second, scan_hspace(s, n, after))
            };
            match number_here(s, n, i) {
                Err(err) => Err(err),
                Ok((v, end)) => {
                    let currency = text_between(s, ta, tb);
                    proof {
                        lemma_trimmed_label(s@, ta as int, tb as int);
                    }
                    let value = DecimalValue { negative: is_minus(sign), ..v };
                    Ok((Amount { currency, value }, end))
                },
            }
        },
    }
}

/// Reads an amount at the start of `input`, in the form `[sign] number
/// currency` or else `[sign] currency [sign] number`, with optional spaces or
/// tabs between the parts. Returns the amount and the number of characters
/// read.
pub fn parse_amount(input: &str) -> (r: Result<(Amount, usize), AmountError>)
    ensures
        amount_result(r, amount_scan(input@)),
{
    let n = input.unicode_len();
    match suffix_here(input, n) {
        Err(AmountError::Unmatched { .. }) => prefix_here(input, n),
        other => other,
    }
}

/// Reads a number at the start of `input`: digit runs joined by single
/// spaces, optionally followed by `.` or `,` and more digits. Returns its
/// unsigned value and the number of characters read.
pub fn parse_money_amount(input: &str) -> (r: Result<(DecimalValue, usize), AmountError>)
    ensures
        number_result(r, number_at(input@, 0), 0),
{
    let n = input.unicode_len();
    number_here(input, n, 0)
}

/// Reads a currency label at the start of `input`: a double-quoted text,
/// whose quotes are dropped, or else a non-empty run of characters up to a
/// digit, `-`, space, tab or line feed. Returns the label untrimmed and the
/// number of characters read.
pub fn parse_currency_string(input: &str) -> (r: Result<(String, usize), AmountError>)
    ensures
        match currency_at(input@, 0) {
            Some((a, b, e)) => r matches Ok((c, k)) && c@ == input@.subrange(a, b) && k as int == e,
            None => r == Err::<(String, usize), AmountError>(AmountError::Unmatched { position: 0 }),
        },
{
    let n = input.unicode_len();
    match currency_here(input, n, 0) {
        Some((a, b, e)) => Ok((text_between(input, a, b), e)),
        None => Err(AmountError::Unmatched { position: 0 }),
    }
}

/// `value currency`, the value in its canonical text.
pub open spec fn amount_text(a: Amount) -> Seq<char> {
    decimal_text(a.value) + seq![' '] + a.currency@
}

impl Amount {
    /// Renders the amount as its value, a space and its currency.
    pub fn to_text(&self) -> (r: String)
        requires
            self.value.wf(),
        ensures
            r@ == amount_text(*self),
    {
        let mut chars = self.value.to_chars();
        chars.push(' ');
        let mut text = string_from_chars(&chars);
        text.append(self.currency.as_str());
        text
    }
}

proof fn lemma_number_text_plain(s: Seq<char>, i: int, e: int)
    requires
        0 <= i <= e <= s.len(),
        forall|k: int| i <= k < e ==> is_digit(#[trigger] s[k]) || s[k] == '.',
    ensures
        number_text(s, i, e) == s.subrange(i, e),
    decreases e - i,
{
    if i < e {
        lemma_number_text_plain(s, i, e - 1);
        assert(s.subrange(i, e) =~= s.subrange(i, e - 1) + seq![s[e - 1]]);
    } else {
        assert(s.subrange(i, e) =~= Seq::<char>::empty());
    }
}

/// A currency label that the unquoted form reads back whole: not empty, not
/// starting with a quote, with no digit, `-`, white space or line feed.
pub open spec fn plain_label(c: Seq<char>) -> bool {
    &&& c.len() > 0
    &&& c[0] != '"'
    &&& forall|k: int| 0 <= k < c.len() ==> !ends_bare(#[trigger] c[k]) && !white_space(c[k])
}

proof fn lemma_read_number(t: Seq<char>, g: int, v: DecimalValue)
    requires
        v.wf(),
        0 <= g,
        g + decimal_body(v).len() + 1 < t.len(),
        t.subrange(g, g + decimal_body(v).len()) == decimal_body(v),
        t[g + decimal_body(v).len()] == ' ',
        !is_digit(t[g + decimal_body(v).len() + 1]),
    ensures
        number_at(t, g) == (NumberScan::Number {
            mantissa: v.mantissa as nat,
            scale: v.scale as nat,
            end: g + decimal_body(v).len(),
        }),
{
    let sc = v.scale as int;
    let p = padded_digits(v.mantissa as nat, v.scale as nat + 1);
    lemma_padded_digits(v.mantissa as nat, v.scale as nat + 1);
    let w = p.len() - sc;
    let body = decimal_body(v);
    let e = g + body.len();
    assert forall|k: int| 0 <= k < body.len() implies t[g + k] == #[trigger] body[k] by {
        assert(t.subrange(g, e)[k] == t[g + k]);
    }
    assert(forall|k: int| 0 <= k < w ==> #[trigger] body[k] == p[k]);
    assert(forall|k: int| w < k < body.len() ==> #[trigger] body[k] == p[k - 1]);
    assert(is_digit(t[g]));
    assert forall|k: int| g <= k < g + w implies is_digit(#[trigger] t[k]) by {
        assert(t[k] == body[k - g]);
    }
    if sc > 0 {
        assert(body[w] == '.');
        assert(t[g + w] == body[w]);
    } else {
        assert(body.len() == w);
    }
    lemma_int_part_run(t, g, g + w);
    if sc > 0 {
        assert forall|k: int| g + w + 1 <= k < e implies is_digit(#[trigger] t[k]) by {
            assert(t[k] == body[k - g]);
        }
        lemma_skip_digits_run(t, g + w + 1, e);
    }
    assert(number_end(t, g) == e);
    assert forall|k: int| g <= k < e implies is_digit(#[trigger] t[k]) || t[k] == '.' by {
        assert(t[k] == body[k - g]);
        if k - g != w {
            assert(is_digit(body[k - g]));
        }
    }
    lemma_number_text_plain(t, g, e);
    if sc > 0 {
        lemma_point_index(body, w);
        assert(int_digits(body) =~= p.take(w));
        assert(frac_digits(body) =~= p.skip(w));
        assert(p.take(w) + p.skip(w) =~= p);
    } else {
        lemma_point_index(body, body.len() as int);
        assert(int_digits(body) =~= p);
        assert(frac_digits(body) =~= Seq::<char>::empty());
        assert(p + Seq::<char>::empty() =~= p);
    }
    assert(converted(body) == Some((v.mantissa as nat, v.scale as nat)));
}

proof fn lemma_read_label(t: Seq<char>, i: int, c: Seq<char>)
    requires
        plain_label(c),
        0 <= i,
        i + c.len() == t.len(),
        t.subrange(i, t.len() as int) == c,
    ensures
        currency_at(t, i) == Some((i, t.len() as int, t.len() as int)),
        trimmed(t, i, t.len() as int) == c,
{
    assert forall|k: int| i <= k < t.len() implies t[k] == #[trigger] c[k - i] by {
        assert(t.subrange(i, t.len() as int)[k - i] == t[k]);
    }
    assert forall|k: int| i <= k < t.len() implies !ends_bare(#[trigger] t[k]) by {
        assert(t[k] == c[k - i]);
    }
    lemma_bare_run(t, i);
    assert(t[i] == c[0]);
    assert(t[t.len() - 1] == c[c.len() - 1]);
    assert(trim_start(t, i, t.len() as int) == i);
    assert(trim_end(t, i, t.len() as int) == t.len());
}

proof fn lemma_read_suffix(a: Amount, sign: Seq<char>)
    requires
        a.value.wf(),
        plain_label(a.currency@),
        sign == seq!['-'] || sign == seq!['+'] || sign.len() == 0,
    ensures
        amount_scan(sign + decimal_body(a.value) + seq![' '] + a.currency@) == (AmountScan::Parsed {
            negative: sign == seq!['-'],
            mantissa: a.value.mantissa as nat,
            scale: a.value.scale as nat,
            currency: a.currency@,
            end: (sign.len() + decimal_body(a.value).len() + 1 + a.currency@.len()) as int,
        }),
{
    let v = a.value;
    let c = a.currency@;
    let body = decimal_body(v);
    let t = sign + body + seq![' '] + c;
    let g = sign.len() as int;
    let e = g + body.len();
    lemma_padded_digits(v.mantissa as nat, v.scale as nat + 1);
    assert(t.subrange(g, e) =~= body);
    assert(t.subrange(e + 1, t.len() as int) =~= c);
    assert(t[e] == ' ');
    assert(t[e + 1] == c[0]);
    assert(t[g] == body[0]);
    assert(is_digit(body[0]));
    if sign.len() > 0 {
        assert(t[0] == sign[0]);
    }
    assert(sign_at(t, 0) == if sign == seq!['-'] {
        Some(AmountSign::Minus)
    } else if sign == seq!['+'] {
        Some(AmountSign::Plus)
    } else {
        None::<AmountSign>
    });
    assert(skip_hspace(t, g) == g);
    lemma_read_number(t, g, v);
    assert(skip_hspace(t, e + 1) == e + 1);
    assert(skip_hspace(t, e) == e + 1);
    lemma_read_label(t, e + 1, c);
}

/// Reading back the text of an amount (`value currency`, the value in its
/// canonical text) gives the same sign, mantissa, scale and currency, and
/// consumes the whole text, for every in-range value and every plain label.
pub proof fn lemma_suffix_round_trip(a: Amount)
    requires
        a.value.wf(),
        plain_label(a.currency@),
    ensures
        amount_scan(amount_text(a)) == (AmountScan::Parsed {
            negative: a.value.negative,
            mantissa: a.value.mantissa as nat,
            scale: a.value.scale as nat,
            currency: a.currency@,
            end: amount_text(a).len() as int,
        }),
{
    let sign: Seq<char> = if a.value.negative { seq!['-'] } else { Seq::empty() };
    lemma_read_suffix(a, sign);
    assert(amount_text(a) =~= sign + decimal_body(a.value) + seq![' '] + a.currency@);
}

/// The same holds with an explicit `+` in front of the text of a value that
/// is not negative.
pub proof fn lemma_plus_suffix_round_trip(a: Amount)
    requires
        a.value.wf(),
        !a.value.negative,
        plain_label(a.currency@),
    ensures
        amount_scan(seq!['+'] + amount_text(a)) == (AmountScan::Parsed {
            negative: false,
            mantissa: a.value.mantissa as nat,
            scale: a.value.scale as nat,
            currency: a.currency@,
            end: (amount_text(a).len() + 1) as int,
        }),
{
    lemma_read_suffix(a, seq!['+']);
    assert(amount_text(a) =~= Seq::<char>::empty() + decimal_body(a.value) + seq![' ']
        + a.currency@);
    assert(seq!['+'] + amount_text(a) =~= seq!['+'] + decimal_body(a.value) + seq![' ']
        + a.currency@);
    assert(seq!['+'] != seq!['-']) by {
        assert(seq!['+'][0] != seq!['-'][0]);
    }
}

/// A sign both before the currency and before the number of the prefix form
/// is refused: such an input is read as no amount at all, so no value is
/// negated twice.
pub proof fn lemma_doubled_sign_refused(s: Seq<char>)
    requires
        sign_at(s, 0) is Some,
        currency_at(s, skip_hspace(s, 1)) matches Some((a, b, e)) && sign_at(s, skip_hspace(s, e)) is Some,
    ensures
        amount_scan(s) is Unmatched,
{
    let i = skip_hspace(s, 1);
    if 0 <= i < s.len() && s[i] == '"' && quote_at_or_after(s, i + 1) < s.len() {
    } else {
        assert(bare_end(s, i) > i);
        assert(!ends_bare(s[i]));
    }
    assert(number_at(s, i) == NumberScan::Missing);
    let k = match currency_at(s, i) {
        Some((_, _, e)) => skip_hspace(s, e),
        None => 0,
    };
    assert(number_at(s, k) == NumberScan::Missing);
}

/// `s` and `s2` differ at most in which decimal separator they write.
pub open spec fn differ_in_separators(s: Seq<char>, s2: Seq<char>) -> bool {
    &&& s.len() == s2.len()
    &&& forall|k: int|
        0 <= k < s.len() ==> #[trigger] s[k] == s2[k] || ((s[k] == '.' || s[k] == ',') && (s2[k]
            == '.' || s2[k] == ','))
}

proof fn lemma_int_part_same(s: Seq<char>, s2: Seq<char>, k: int)
    requires
        differ_in_separators(s, s2),
    ensures
        int_part_end(s, k) == int_part_end(s2, k),
        0 <= k <= s.len() ==> k <= int_part_end(s, k) <= s.len(),
    decreases s.len() - k,
{
    if 0 <= k < s.len() {
        assert(s[k] == s2[k] || ((s[k] == '.' || s[k] == ',') && (s2[k] == '.' || s2[k] == ',')));
    }
    if 0 <= k && k + 1 < s.len() {
        assert(s[k + 1] == s2[k + 1] || ((s[k + 1] == '.' || s[k + 1] == ',') && (s2[k + 1] == '.'
            || s2[k + 1] == ',')));
    }
    if 0 <= k < s.len() && is_digit(s[k]) {
        lemma_int_part_same(s, s2, k + 1);
    } else if 0 <= k && k + 1 < s.len() && s[k] == ' ' && is_digit(s[k + 1]) {
        lemma_int_part_same(s, s2, k + 2);
    }
}

proof fn lemma_skip_digits_same(s: Seq<char>, s2: Seq<char>, k: int)
    requires
        differ_in_separators(s, s2),
    ensures
        skip_digits(s, k) == skip_digits(s2, k),
        0 <= k <= s.len() ==> k <= skip_digits(s, k) <= s.len(),
    decreases s.len() - k,
{
    if 0 <= k < s.len() {
        assert(s[k] == s2[k] || ((s[k] == '.' || s[k] == ',') && (s2[k] == '.' || s2[k] == ',')));
        if is_digit(s[k]) {
            lemma_skip_digits_same(s, s2, k + 1);
        }
    }
}

proof fn lemma_number_text_same(s: Seq<char>, s2: Seq<char>, i: int, e: int)
    requires
        differ_in_separators(s, s2),
        0 <= i,
        e <= s.len(),
    ensures
        number_text(s, i, e) == number_text(s2, i, e),
    decreases e - i,
{
    if i < e {
        lemma_number_text_same(s, s2, i, e - 1);
        assert(s[e - 1] == s2[e - 1] || ((s[e - 1] == '.' || s[e - 1] == ',') && (s2[e - 1] == '.'
            || s2[e - 1] == ',')));
        assert(number_piece(s[e - 1]) == number_piece(s2[e - 1]));
    }
}

/// A comma and a point are interchangeable as the decimal separator: two
/// inputs that differ only in which of the two they write, at any places,
/// read as the same number.
pub proof fn lemma_separator_equivalence(s: Seq<char>, s2: Seq<char>, i: int)
    requires
        differ_in_separators(s, s2),
    ensures
        number_at(s, i) == number_at(s2, i),
{
    if 0 <= i < s.len() {
        assert(s[i] == s2[i] || ((s[i] == '.' || s[i] == ',') && (s2[i] == '.' || s2[i] == ',')));
        if is_digit(s[i]) {
            lemma_int_part_same(s, s2, i);
            let j = int_part_end(s, i);
            if 0 <= j && j + 1 < s.len() {
                assert(s[j] == s2[j] || ((s[j] == '.' || s[j] == ',') && (s2[j] == '.' || s2[j]
                    == ',')));
                assert(s[j + 1] == s2[j + 1] || ((s[j + 1] == '.' || s[j + 1] == ',') && (s2[j + 1]
                    == '.' || s2[j + 1] == ',')));
            }
            lemma_skip_digits_same(s, s2, j + 1);
            assert(number_end(s, i) == number_end(s2, i));
            lemma_number_text_same(s, s2, i, number_end(s, i));
        }
    }
}

} // verus!
