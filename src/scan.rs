//! Character classes and the position-based scanners shared by the parsers.
//!
//! Every scanner takes the input, its length in characters and a start
//! position, and returns the position where its run ends. Each one is
//! specified by a recursive spec function over the input's characters.
use vstd::prelude::*;

verus! {

pub open spec fn is_digit(c: char) -> bool {
    '0' <= c && c <= '9'
}

/// Horizontal white space: what separates the sub-tokens of an amount.
pub open spec fn is_hspace(c: char) -> bool {
    c == ' ' || c == '\t'
}

/// A character that ends an unquoted currency label.
pub open spec fn ends_bare(c: char) -> bool {
    is_digit(c) || c == '-' || c == ' ' || c == '\t' || c == '\n'
}

pub open spec fn is_alnum(c: char) -> bool {
    is_digit(c) || ('a' <= c && c <= 'z') || ('A' <= c && c <= 'Z')
}

/// A character allowed in a tag name.
pub open spec fn is_name_char(c: char) -> bool {
    is_alnum(c) || c == '-'
}

/// First position at or after `i` that is not horizontal white space.
pub open spec fn skip_hspace(s: Seq<char>, i: int) -> int
    decreases s.len() - i,
{
    if 0 <= i < s.len() && is_hspace(s[i]) {
        skip_hspace(s, i + 1)
    } else {
        i
    }
}

/// First position at or after `i` that is not a decimal digit.
pub open spec fn skip_digits(s: Seq<char>, i: int) -> int
    decreases s.len() - i,
{
    if 0 <= i < s.len() && is_digit(s[i]) {
        skip_digits(s, i + 1)
    } else {
        i
    }
}

/// End of an integer part: runs of digits joined by single spaces.
pub open spec fn int_part_end(s: Seq<char>, i: int) -> int
    decreases s.len() - i,
{
    if 0 <= i < s.len() && is_digit(s[i]) {
        int_part_end(s, i + 1)
    } else if 0 <= i && i + 1 < s.len() && s[i] == ' ' && is_digit(s[i + 1]) {
        int_part_end(s, i + 2)
    } else {
        i
    }
}

/// End of an unquoted currency label that starts at `i`.
pub open spec fn bare_end(s: Seq<char>, i: int) -> int
    decreases s.len() - i,
{
    if 0 <= i < s.len() && !ends_bare(s[i]) {
        bare_end(s, i + 1)
    } else {
        i
    }
}

/// First double quote at or after `i`, or the end of the input.
pub open spec fn quote_at_or_after(s: Seq<char>, i: int) -> int
    decreases s.len() - i,
{
    if 0 <= i < s.len() && s[i] != '"' {
        quote_at_or_after(s, i + 1)
    } else {
        i
    }
}

/// End of a run of tag-name characters.
pub open spec fn name_end(s: Seq<char>, i: int) -> int
    decreases s.len() - i,
{
    if 0 <= i < s.len() && is_name_char(s[i]) {
        name_end(s, i + 1)
    } else {
        i
    }
}

/// End of a run of alphanumeric characters.
pub open spec fn alnum_end(s: Seq<char>, i: int) -> int
    decreases s.len() - i,
{
    if 0 <= i < s.len() && is_alnum(s[i]) {
        alnum_end(s, i + 1)
    } else {
        i
    }
}

/// The characters with the Unicode White_Space property.
pub open spec fn white_space(c: char) -> bool {
    ('\t' <= c && c <= '\r') || c == ' ' || c == '\u{85}' || c == '\u{a0}' || c == '\u{1680}'
        || ('\u{2000}' <= c && c <= '\u{200a}') || c == '\u{2028}' || c == '\u{2029}' || c
        == '\u{202f}' || c == '\u{205f}' || c == '\u{3000}'
}

/// Relies on `char::is_whitespace`, which is documented to test the
/// White_Space property.
#[verifier::external_body]
pub(crate) fn is_white(c: char) -> (r: bool)
    ensures
        r == white_space(c),
{
    c.is_whitespace()
}

/// First position in `[i, e)` that is not white space, or `e`.
pub open spec fn trim_start(s: Seq<char>, i: int, e: int) -> int
    decreases e - i,
{
    if i < e && white_space(s[i]) {
        trim_start(s, i + 1, e)
    } else {
        i
    }
}

/// End of `[i, e)` with trailing white space removed.
pub open spec fn trim_end(s: Seq<char>, i: int, e: int) -> int
    decreases e - i,
{
    if i < e && white_space(s[e - 1]) {
        trim_end(s, i, e - 1)
    } else {
        e
    }
}

/// `s[i..e]` without leading and trailing white space.
pub open spec fn trimmed(s: Seq<char>, i: int, e: int) -> Seq<char> {
    let a = trim_start(s, i, e);
    s.subrange(a, trim_end(s, a, e))
}

pub(crate) fn scan_hspace(s: &str, n: usize, i: usize) -> (r: usize)
    requires
        n == s@.len(),
        i <= n,
    ensures
        r == skip_hspace(s@, i as int),
        i <= r <= n,
{
    let mut j = i;
    while j < n && (s.get_char(j) == ' ' || s.get_char(j) == '\t')
        invariant
            n == s@.len(),
            i <= j <= n,
            skip_hspace(s@, j as int) == skip_hspace(s@, i as int),
        decreases n - j,
    {
        j = j + 1;
    }
    j
}

pub(crate) fn is_digit_char(c: char) -> (r: bool)
    ensures
        r == is_digit(c),
{
    '0' <= c && c <= '9'
}

pub(crate) fn scan_digits(s: &str, n: usize, i: usize) -> (r: usize)
    requires
        n == s@.len(),
        i <= n,
    ensures
        r == skip_digits(s@, i as int),
        i <= r <= n,
{
    let mut j = i;
    while j < n && is_digit_char(s.get_char(j))
        invariant
            n == s@.len(),
            i <= j <= n,
            skip_digits(s@, j as int) == skip_digits(s@, i as int),
        decreases n - j,
    {
        j = j + 1;
    }
    j
}

pub(crate) fn scan_int_part(s: &str, n: usize, i: usize) -> (r: usize)
    requires
        n == s@.len(),
        i <= n,
    ensures
        r == int_part_end(s@, i as int),
        i <= r <= n,
{
    let mut j = i;
    loop
        invariant
            n == s@.len(),
            i <= j <= n,
            int_part_end(s@, j as int) == int_part_end(s@, i as int),
        decreases n - j,
    {
        if j < n && is_digit_char(s.get_char(j)) {
            j = j + 1;
        } else if j < n && j + 1 < n && s.get_char(j) == ' ' && is_digit_char(s.get_char(j + 1)) {
            j = j + 2;
        } else {
            return j;
        }
    }
}

pub(crate) fn ends_bare_char(c: char) -> (r: bool)
    ensures
        r == ends_bare(c),
{
    is_digit_char(c) || c == '-' || c == ' ' || c == '\t' || c == '\n'
}

pub(crate) fn scan_bare(s: &str, n: usize, i: usize) -> (r: usize)
    requires
        n == s@.len(),
        i <= n,
    ensures
        r == bare_end(s@, i as int),
        i <= r <= n,
{
    let mut j = i;
    while j < n && !ends_bare_char(s.get_char(j))
        invariant
            n == s@.len(),
            i <= j <= n,
            bare_end(s@, j as int) == bare_end(s@, i as int),
        decreases n - j,
    {
        j = j + 1;
    }
    j
}

pub(crate) fn scan_to_quote(s: &str, n: usize, i: usize) -> (r: usize)
    requires
        n == s@.len(),
        i <= n,
    ensures
        r == quote_at_or_after(s@, i as int),
        i <= r <= n,
{
    let mut j = i;
    while j < n && s.get_char(j) != '"'
        invariant
            n == s@.len(),
            i <= j <= n,
            quote_at_or_after(s@, j as int) == quote_at_or_after(s@, i as int),
        decreases n - j,
    {
        j = j + 1;
    }
    j
}

pub(crate) fn is_alnum_char(c: char) -> (r: bool)
    ensures
        r == is_alnum(c),
{
    is_digit_char(c) || ('a' <= c && c <= 'z') || ('A' <= c && c <= 'Z')
}

pub(crate) fn scan_name(s: &str, n: usize, i: usize) -> (r: usize)
    requires
        n == s@.len(),
        i <= n,
    ensures
        r == name_end(s@, i as int),
        i <= r <= n,
{
    let mut j = i;
    while j < n && (is_alnum_char(s.get_char(j)) || s.get_char(j) == '-')
        invariant
            n == s@.len(),
            i <= j <= n,
            name_end(s@, j as int) == name_end(s@, i as int),
        decreases n - j,
    {
        j = j + 1;
    }
    j
}

pub(crate) fn scan_alnum(s: &str, n: usize, i: usize) -> (r: usize)
    requires
        n == s@.len(),
        i <= n,
    ensures
        r == alnum_end(s@, i as int),
        i <= r <= n,
{
    let mut j = i;
    while j < n && is_alnum_char(s.get_char(j))
        invariant
            n == s@.len(),
            i <= j <= n,
            alnum_end(s@, j as int) == alnum_end(s@, i as int),
        decreases n - j,
    {
        j = j + 1;
    }
    j
}

/// The bounds of `s[i..e]` with white space removed at both ends.
pub(crate) fn trim_bounds(s: &str, n: usize, i: usize, e: usize) -> (r: (usize, usize))
    requires
        n == s@.len(),
        i <= e <= n,
    ensures
        r.0 == trim_start(s@, i as int, e as int),
        r.1 == trim_end(s@, r.0 as int, e as int),
        i <= r.0 <= r.1 <= e,
        r.0 < r.1 ==> !white_space(s@[r.0 as int]) && !white_space(s@[r.1 - 1]),
{
    let mut a = i;
    while a < e && is_white(s.get_char(a))
        invariant
            n == s@.len(),
            i <= a <= e <= n,
            trim_start(s@, a as int, e as int) == trim_start(s@, i as int, e as int),
        decreases e - a,
    {
        a = a + 1;
    }
    let mut b = e;
    while b > a && is_white(s.get_char(b - 1))
        invariant
            n == s@.len(),
            a <= b <= e <= n,
            trim_end(s@, a as int, b as int) == trim_end(s@, a as int, e as int),
        decreases b,
    {
        b = b - 1;
    }
    (a, b)
}

pub proof fn lemma_skip_digits_run(s: Seq<char>, i: int, j: int)
    requires
        0 <= i <= j <= s.len(),
        forall|k: int| i <= k < j ==> is_digit(#[trigger] s[k]),
        j == s.len() || !is_digit(s[j]),
    ensures
        skip_digits(s, i) == j,
    decreases j - i,
{
    if i < j {
        lemma_skip_digits_run(s, i + 1, j);
    }
}

pub proof fn lemma_int_part_run(s: Seq<char>, i: int, j: int)
    requires
        0 <= i <= j <= s.len(),
        forall|k: int| i <= k < j ==> is_digit(#[trigger] s[k]),
        j == s.len() || (!is_digit(s[j]) && !(s[j] == ' ' && j + 1 < s.len() && is_digit(s[j + 1]))),
    ensures
        int_part_end(s, i) == j,
    decreases j - i,
{
    if i < j {
        lemma_int_part_run(s, i + 1, j);
    }
}

pub proof fn lemma_bare_run(s: Seq<char>, i: int)
    requires
        0 <= i <= s.len(),
        forall|k: int| i <= k < s.len() ==> !ends_bare(#[trigger] s[k]),
    ensures
        bare_end(s, i) == s.len(),
    decreases s.len() - i,
{
    if i < s.len() {
        lemma_bare_run(s, i + 1);
    }
}

} // verus!
