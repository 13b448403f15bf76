//! Parameter types with validation of their own.
use crate::codec::{pieces, split_on};
use crate::convert::{FromParam, ToParam};
use crate::error::ParseError;
use crate::text::{chars_of, contains_char, decimal, owned, push_char, push_str, u64_to_string};
use vstd::prelude::*;

verus! {

broadcast use vstd::string::group_string_axioms;

/// A numeric user identifier.
#[derive(Debug, Clone, PartialEq, Eq)]
pub struct UserId(pub u32);

impl FromParam for UserId {
    open spec fn accepts(param: Seq<char>) -> bool {
        u32::accepts(param)
    }

    open spec fn rejection(param: Seq<char>) -> Seq<char> {
        u32::rejection(param)
    }

    open spec fn denotes(param: Seq<char>, value: UserId) -> bool {
        u32::denotes(param, value.0)
    }

    fn from_param(param: &str) -> (r: Result<UserId, ParseError>) {
        match u32::from_param(param) {
            Ok(v) => Ok(UserId(v)),
            Err(e) => Err(e),
        }
    }
}

impl ToParam for UserId {
    open spec fn param_text(&self) -> Seq<char> {
        decimal(self.0 as nat)
    }

    fn to_param(&self) -> (r: String) {
        u64_to_string(self.0 as u64)
    }
}

/// Whether Unicode counts the character as alphabetic or numeric.
pub uninterp spec fn alphanumeric(c: char) -> bool;

/// Relies on `char::is_alphanumeric`: whether the character is alphabetic or
/// numeric in Unicode.
#[verifier::external_body]
fn is_alphanumeric(c: char) -> (r: bool)
    ensures
        r == alphanumeric(c),
{
    c.is_alphanumeric()
}

/// Whether every character is alphanumeric, `-` or `_`.
pub open spec fn valid_slug(s: Seq<char>) -> bool {
    forall|i: int| 0 <= i < s.len() ==> alphanumeric(s[i]) || s[i] == '-' || s[i] == '_'
}

/// A URL-friendly identifier: letters, digits, `-` and `_`.
#[derive(Debug, Clone, PartialEq, Eq)]
pub struct Slug(pub String);

impl FromParam for Slug {
    open spec fn accepts(param: Seq<char>) -> bool {
        valid_slug(param)
    }

    open spec fn rejection(param: Seq<char>) -> Seq<char> {
        "Invalid slug '"@ + param
            + "'. Slugs can only contain letters, numbers, hyphens, and underscores"@
    }

    open spec fn denotes(param: Seq<char>, value: Slug) -> bool {
        value.0@ == param
    }

    fn from_param(param: &str) -> (r: Result<Slug, ParseError>) {
        let cs = chars_of(param);
        for i in 0..cs.len()
            invariant
                cs@ == param@,
                forall|j: int| 0 <= j < i ==> alphanumeric(param@[j]) || param@[j] == '-' || param@[j] == '_',
        {
            let c = cs[i];
            if !(is_alphanumeric(c) || c == '-' || c == '_') {
                let mut m = owned("Invalid slug '");
                push_str(&mut m, param);
                push_str(&mut m, "'. Slugs can only contain letters, numbers, hyphens, and underscores");
                return Err(ParseError::TypeConversion(m));
            }
        }
        Ok(Slug(owned(param)))
    }
}

impl ToParam for Slug {
    open spec fn param_text(&self) -> Seq<char> {
        self.0@
    }

    fn to_param(&self) -> (r: String) {
        self.0.clone()
    }
}

/// A plausible e-mail address: exactly one `@`, something before it, and
/// something holding a `.` after it.
pub open spec fn valid_email(s: Seq<char>) -> bool {
    let p = pieces(s, '@');
    p.len() == 2 && p[0].len() > 0 && p[1].len() > 0 && p[1].contains('.')
}

/// An e-mail address.
#[derive(Debug, Clone, PartialEq, Eq)]
pub struct Email(pub String);


impl FromParam for Email {
    open spec fn accepts(param: Seq<char>) -> bool {
        valid_email(param)
    }

    open spec fn rejection(param: Seq<char>) -> Seq<char> {
        "Invalid email address: "@ + param
    }

    open spec fn denotes(param: Seq<char>, value: Email) -> bool {
        value.0@ == param
    }

    fn from_param(param: &str) -> (r: Result<Email, ParseError>) {
        let parts = split_on(param, '@');
        if parts.len() == 2 {
            assert(parts@[0]@ == pieces(param@, '@')[0]);
            assert(parts@[1]@ == pieces(param@, '@')[1]);
            if !parts[0].is_empty() && !parts[1].is_empty() && contains_char(parts[1], '.') {
                return Ok(Email(owned(param)));
            }
        }
        let mut m = owned("Invalid email address: ");
        push_str(&mut m, param);
        Err(ParseError::TypeConversion(m))
    }
}

impl ToParam for Email {
    open spec fn param_text(&self) -> Seq<char> {
        self.0@
    }

    fn to_param(&self) -> (r: String) {
        self.0.clone()
    }
}

/// A semantic version `major.minor.patch`.
#[derive(Debug, Clone, PartialEq, Eq)]
pub struct Version {
    pub major: u32,
    pub minor: u32,
    pub patch: u32,
}

impl FromParam for Version {
    open spec fn accepts(param: Seq<char>) -> bool {
        let p = pieces(param, '.');
        p.len() == 3 && u32::accepts(p[0]) && u32::accepts(p[1]) && u32::accepts(p[2])
    }

    open spec fn rejection(param: Seq<char>) -> Seq<char> {
        let p = pieces(param, '.');
        if p.len() != 3 {
            "Invalid version format '"@ + param + "'. Expected format: major.minor.patch"@
        } else if !u32::accepts(p[0]) {
            "Invalid major version: "@ + p[0]
        } else if !u32::accepts(p[1]) {
            "Invalid minor version: "@ + p[1]
        } else {
            "Invalid patch version: "@ + p[2]
        }
    }

    open spec fn denotes(param: Seq<char>, value: Version) -> bool {
        let p = pieces(param, '.');
        p.len() == 3 && u32::denotes(p[0], value.major) && u32::denotes(p[1], value.minor)
            && u32::denotes(p[2], value.patch)
    }

    fn from_param(param: &str) -> (r: Result<Version, ParseError>) {
        let parts = split_on(param, '.');
        if parts.len() != 3 {
            let mut m = owned("Invalid version format '");
            push_str(&mut m, param);
            push_str(&mut m, "'. Expected format: major.minor.patch");
            return Err(ParseError::TypeConversion(m));
        }
        assert(parts@[0]@ == pieces(param@, '.')[0]);
        assert(parts@[1]@ == pieces(param@, '.')[1]);
        assert(parts@[2]@ == pieces(param@, '.')[2]);
        let major = match u32::from_param(parts[0]) {
            Ok(v) => v,
            Err(_) => {
                let mut m = owned("Invalid major version: ");
                push_str(&mut m, parts[0]);
                return Err(ParseError::TypeConversion(m));
            },
        };
        let minor = match u32::from_param(parts[1]) {
            Ok(v) => v,
            Err(_) => {
                let mut m = owned("Invalid minor version: ");
                push_str(&mut m, parts[1]);
                return Err(ParseError::TypeConversion(m));
            },
        };
        let patch = match u32::from_param(parts[2]) {
            Ok(v) => v,
            Err(_) => {
                let mut m = owned("Invalid patch version: ");
                push_str(&mut m, parts[2]);
                return Err(ParseError::TypeConversion(m));
            },
        };
        Ok(Version { major, minor, patch })
    }
}

impl ToParam for Version {
    open spec fn param_text(&self) -> Seq<char> {
        decimal(self.major as nat) + seq!['.'] + decimal(self.minor as nat) + seq!['.'] + decimal(
            self.patch as nat,
        )
    }

    fn to_param(&self) -> (r: String) {
        let mut r = u64_to_string(self.major as u64);
        push_char(&mut r, '.');
        let b = u64_to_string(self.minor as u64);
        push_str(&mut r, b.as_str());
        push_char(&mut r, '.');
        let c = u64_to_string(self.patch as u64);
        push_str(&mut r, c.as_str());
        r
    }
}

} // verus!
