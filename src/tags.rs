//! Tags: `name:value` annotations, where the value may be absent.
use vstd::prelude::*;
use crate::scan::{alnum_end, name_end, scan_alnum, scan_name};

verus! {

broadcast use vstd::string::group_string_axioms;

#[derive(Debug, Clone, PartialEq, Eq)]
pub struct Tag {
    pub name: String,
    pub value: Option<String>,
}

/// A tag could not be read: `position` is where a name character or the
/// colon after the name was expected.
#[derive(Debug, Clone, Copy, PartialEq, Eq)]
pub struct TagError {
    pub position: usize,
}

/// Reads a tag at the start of `input`: a non-empty run of ASCII letters,
/// digits and hyphens, a colon, and then an alphanumeric run taken as the
/// value if it is not empty. Returns what is left of the input and the tag.
pub fn parse_tag(input: &str) -> (r: Result<(String, Tag), TagError>)
    ensures
        ({
            let s = input@;
            let n = name_end(s, 0);
            let v = alnum_end(s, n + 1);
            if 0 < n < s.len() && s[n] == ':' {
                &&& r matches Ok((rest, t))
                &&& rest@ == s.subrange(v, s.len() as int)
                &&& t.name@ == s.subrange(0, n)
                &&& if v > n + 1 {
                    t.value matches Some(x) && x@ == s.subrange(n + 1, v)
                } else {
                    t.value is None
                }
            } else {
                r matches Err(e) && e.position as int == n
            }
        }),
{
    let len = input.unicode_len();
    let n = scan_name(input, len, 0);
    if n == 0 || n >= len || input.get_char(n) != ':' {
        return Err(TagError { position: n });
    }
    let v = scan_alnum(input, len, n + 1);
    let name = input.substring_char(0, n).to_string();
    let value = if v > n + 1 {
        Some(input.substring_char(n + 1, v).to_string())
    } else {
        None
    };
    let rest = input.substring_char(v, len).to_string();
    Ok((rest, Tag { name, value }))
}

} // verus!
