//! The Module API's own version: `major.minor`, and the rule by which a
//! module built against one version runs on a Runtime providing another.

use vstd::prelude::*;
use crate::text::{
    all_digits, chars_of, decimal, digit_value, digits_value, first_index_of, is_digit,
    lemma_first_index_of, push_char, push_decimal,
};

verus! {

/// A Module API version, `major.minor`.
#[derive(Debug, Clone, Copy, PartialEq, Eq, Hash, Structural)]
pub struct ApiVersion {
    pub major: u16,
    pub minor: u16,
}

impl ApiVersion {
    /// Build a version from its two components.
    pub fn new(major: u16, minor: u16) -> (v: Self)
        ensures
            v.major == major,
            v.minor == minor,
    {
        Self { major, minor }
    }

    /// The text `major.minor`, as written in manifests.
    pub open spec fn spec_text(self) -> Seq<char> {
        decimal(self.major as nat).push('.') + decimal(self.minor as nat)
    }

    /// Render as `major.minor`.
    pub fn to_string(&self) -> (s: String)
        ensures
            s@ == self.spec_text(),
    {
        let mut s = String::new();
        push_decimal(&mut s, self.major as u64);
        push_char(&mut s, '.');
        push_decimal(&mut s, self.minor as u64);
        assert(s@ =~= self.spec_text());
        s
    }

    /// Parse `major.minor`: the text before the first `.` and the text
    /// after it must each be a `u16` in decimal, as `str::parse` reads one.
    pub fn parse(input: &str) -> (r: Result<Self, ApiVersionParseError>)
        ensures
            match r {
                Ok(v) => parse_api_version(input@) == Some((v.major, v.minor)),
                Err(e) => parse_api_version(input@) is None && e.input@ == input@,
            },
    {
        let chars = chars_of(input);
        let mut dot: usize = 0;
        while dot < chars.len() && chars[dot] != '.'
            invariant
                chars@ == input@,
                dot <= chars.len(),
                forall|j: int| 0 <= j < dot ==> chars@[j] != '.',
            decreases chars.len() - dot,
        {
            dot += 1;
        }
        proof {
            lemma_first_index_of(input@, '.');
        }
        if dot == chars.len() {
            return Err(ApiVersionParseError { input: input.to_owned() });
        }
        let major = parse_u16_range(&chars, 0, dot);
        let minor = parse_u16_range(&chars, dot + 1, chars.len());
        proof {
            assert(input@.subrange(0, dot as int) =~= input@.take(dot as int));
            assert(input@.subrange(dot + 1, input@.len() as int) =~= input@.skip(dot + 1));
        }
        match (major, minor) {
            (Some(major), Some(minor)) => Ok(Self { major, minor }),
            _ => Err(ApiVersionParseError { input: input.to_owned() }),
        }
    }
}

impl std::str::FromStr for ApiVersion {
    type Err = ApiVersionParseError;

    fn from_str(input: &str) -> (r: Result<Self, Self::Err>)
        ensures
            match r {
                Ok(v) => parse_api_version(input@) == Some((v.major, v.minor)),
                Err(e) => parse_api_version(input@) is None && e.input@ == input@,
            },
    {
        Self::parse(input)
    }
}

/// The text of a `u16` in decimal as `str::parse::<u16>` accepts it: an
/// optional leading `+`, then one or more digits, of value at most 65535.
pub open spec fn parse_u16(s: Seq<char>) -> Option<u16> {
    let digits = if s.len() > 0 && s[0] == '+' { s.drop_first() } else { s };
    if digits.len() == 0 || !all_digits(digits) || digits_value(digits) > 65535 {
        None
    } else {
        Some(digits_value(digits) as u16)
    }
}

/// `major.minor`, split at the first `.`.
pub open spec fn parse_api_version(s: Seq<char>) -> Option<(u16, u16)> {
    match first_index_of(s, '.') {
        None => None,
        Some(i) => match (parse_u16(s.take(i)), parse_u16(s.skip(i + 1))) {
            (Some(major), Some(minor)) => Some((major, minor)),
            _ => None,
        },
    }
}

proof fn lemma_digits_value_grows(s: Seq<char>, i: int)
    requires
        0 <= i <= s.len(),
        all_digits(s),
    ensures
        digits_value(s.take(i)) <= digits_value(s),
    decreases s.len() - i,
{
    if i < s.len() {
        lemma_digits_value_grows(s, i + 1);
        assert(s.take(i + 1).drop_last() =~= s.take(i));
    } else {
        assert(s.take(i) =~= s);
    }
}

/// Parse `chars[start..end]` as a `u16`, as `parse_u16` describes.
fn parse_u16_range(chars: &Vec<char>, start: usize, end: usize) -> (r: Option<u16>)
    requires
        start <= end <= chars.len(),
    ensures
        r == parse_u16(chars@.subrange(start as int, end as int)),
{
    let ghost s = chars@.subrange(start as int, end as int);
    let mut i = start;
    if i < end && chars[i] == '+' {
        i += 1;
    }
    let ghost digits = chars@.subrange(i as int, end as int);
    proof {
        if s.len() > 0 && s[0] == '+' {
            assert(s.drop_first() =~= digits);
        } else {
            assert(s =~= digits);
        }
    }
    if i == end {
        return None;
    }
    let first = i;
    let mut acc: u32 = 0;
    while i < end
        invariant
            start <= first <= i <= end <= chars.len(),
            digits == chars@.subrange(first as int, end as int),
            digits.len() > 0,
            parse_u16(chars@.subrange(start as int, end as int)) == (if !all_digits(digits)
                || digits_value(digits) > 65535 {
                None
            } else {
                Some(digits_value(digits) as u16)
            }),
            all_digits(chars@.subrange(first as int, i as int)),
            acc as nat == digits_value(chars@.subrange(first as int, i as int)),
            acc <= 65535,
        decreases end - i,
    {
        let c = chars[i];
        if !('0' <= c && c <= '9') {
            proof {
                assert(digits[i - first] == c);
                assert(!is_digit(digits[i - first]));
            }
            return None;
        }
        let d = (c as u32) - ('0' as u32);
        let ghost prefix = chars@.subrange(first as int, i + 1);
        proof {
            assert(prefix.drop_last() =~= chars@.subrange(first as int, i as int));
            assert(prefix.last() == c);
        }
        if acc > 6553 || (acc == 6553 && d > 5) {
            proof {
                assert(digits_value(prefix) > 65535);
                assert(all_digits(prefix));
                if all_digits(digits) {
                    assert(digits.take(i + 1 - first) =~= prefix);
                    lemma_digits_value_grows(digits, i + 1 - first);
                }
            }
            return None;
        }
        acc = acc * 10 + d;
        i += 1;
    }
    proof {
        assert(chars@.subrange(first as int, i as int) =~= digits);
    }
    Some(acc as u16)
}

/// Whether a module built against `provided` runs on a Runtime that
/// requires `required`: same major, and at least the required minor.
pub fn is_compatible(required: ApiVersion, provided: ApiVersion) -> (r: bool)
    ensures
        r == (required.major == provided.major && provided.minor >= required.minor),
{
    required.major == provided.major && provided.minor >= required.minor
}

/// The input that `ApiVersion::parse` could not read.
#[derive(Debug, Clone, PartialEq, Eq)]
pub struct ApiVersionParseError {
    pub input: String,
}

impl ApiVersionParseError {
    /// The message shown for this error.
    pub fn message(&self) -> (s: String)
        ensures
            s@ == seq!['i', 'n', 'v', 'a', 'l', 'i', 'd', ' ', 'a', 'p', 'i', '_', 'v', 'e', 'r', 's', 'i', 'o', 'n', ' ']
                + self.input@ + seq![':', ' ', 'e', 'x', 'p', 'e', 'c', 't', 'e', 'd', ' ', 'm', 'a', 'j', 'o', 'r', '.', 'm', 'i', 'n', 'o', 'r'],
    {
        let mut s = String::new();
        crate::text::push_str(&mut s, "invalid api_version ");
        crate::text::push_str(&mut s, self.input.as_str());
        crate::text::push_str(&mut s, ": expected major.minor");
        proof {
            reveal_strlit("invalid api_version ");
            reveal_strlit(": expected major.minor");
        }
        assert(s@ =~= seq!['i', 'n', 'v', 'a', 'l', 'i', 'd', ' ', 'a', 'p', 'i', '_', 'v', 'e', 'r', 's', 'i', 'o', 'n', ' ']
                + self.input@ + seq![':', ' ', 'e', 'x', 'p', 'e', 'c', 't', 'e', 'd', ' ', 'm', 'a', 'j', 'o', 'r', '.', 'm', 'i', 'n', 'o', 'r']);
        s
    }
}

} // verus!
