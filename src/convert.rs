//! Conversions between parameter text and typed values.
use crate::codec::{join, pieces, split_on, views};
use crate::maps::str_eq;
use crate::error::ParseError;
use crate::text::{
    chars_of, decimal, i64_to_string, owned, push_char, push_str, signed_decimal, u64_to_string,
};
use vstd::prelude::*;

verus! {

broadcast use vstd::string::group_string_axioms;

/// Reading a value from parameter text.
pub trait FromParam: Sized {
    /// Whether `param` is the text of some value. A type that does not
    /// describe its text keeps this default, which callers cannot see into.
    closed spec fn accepts(param: Seq<char>) -> bool {
        arbitrary()
    }

    /// Whether `value` is what `param` stands for. A type that does not
    /// describe its text keeps this default, which callers cannot see into.
    closed spec fn denotes(param: Seq<char>, value: Self) -> bool {
        arbitrary()
    }

    /// The message of the error for text that is not accepted. A type that
    /// does not describe it keeps this default, which callers cannot see into.
    closed spec fn rejection(param: Seq<char>) -> Seq<char> {
        arbitrary()
    }

    /// Reads a value; fails with `TypeConversion`, carrying the `rejection`
    /// message, exactly where the text is not accepted.
    fn from_param(param: &str) -> (r: Result<Self, ParseError>)
        ensures
            r is Ok <==> Self::accepts(param@),
            r is Ok ==> Self::denotes(param@, r->Ok_0),
            r is Err ==> r->Err_0 is TypeConversion && r->Err_0->TypeConversion_0@
                == Self::rejection(param@),
    ;
}

/// Writing a value as parameter text.
pub trait ToParam {
    /// The text of the value. A type that does not describe its text keeps
    /// this default, which callers cannot see into.
    closed spec fn param_text(&self) -> Seq<char> {
        arbitrary()
    }

    /// Writes the value.
    fn to_param(&self) -> (r: String)
        ensures
            r@ == self.param_text(),
    ;
}

/// Whether `c` is an ASCII decimal digit.
pub open spec fn is_digit(c: char) -> bool {
    '0' <= c <= '9'
}

/// The value of a string of decimal digits.
pub open spec fn digits_value(s: Seq<char>) -> int
    decreases s.len(),
{
    if s.len() == 0 {
        0
    } else {
        digits_value(s.drop_last()) * 10 + (s.last() as int - '0' as int)
    }
}

/// The value of at least one decimal digit, and nothing else.
pub open spec fn unsigned_value(s: Seq<char>) -> Option<int> {
    if s.len() > 0 && forall|i: int| 0 <= i < s.len() ==> is_digit(s[i]) {
        Some(digits_value(s))
    } else {
        None
    }
}

/// The integer that decimal text denotes: an optional `+` (or, where
/// `signed`, `-`), then at least one digit.
pub open spec fn decimal_value(s: Seq<char>, signed: bool) -> Option<int> {
    if s.len() > 0 && s[0] == '+' {
        unsigned_value(s.skip(1))
    } else if signed && s.len() > 0 && s[0] == '-' {
        match unsigned_value(s.skip(1)) {
            Some(v) => Some(-v),
            None => None,
        }
    } else {
        unsigned_value(s)
    }
}

/// The value of decimal text where it lies in `lo..=hi`.
pub open spec fn ranged_value(s: Seq<char>, signed: bool, lo: int, hi: int) -> Option<int> {
    match decimal_value(s, signed) {
        Some(v) => if lo <= v <= hi {
            Some(v)
        } else {
            None
        },
        None => None,
    }
}

const MAGNITUDE_CAP: u128 = 0x1_0000_0000_0000_0000;

/// Reads the digits of `s` from `from` on; `None` where there is no digit, a
/// non-digit, or a value above `2^64`.
fn parse_digits(cs: &Vec<char>, from: usize) -> (r: Option<u128>)
    requires
        from <= cs@.len(),
    ensures
        match unsigned_value(cs@.skip(from as int)) {
            Some(v) => (v <= MAGNITUDE_CAP ==> r == Some(v as u128)) && (v > MAGNITUDE_CAP
                ==> r is None),
            None => r is None,
        },
        r is Some ==> r->0 <= MAGNITUDE_CAP,
{
    let ghost t = cs@.skip(from as int);
    let n = cs.len();
    if from >= n {
        return None;
    }
    let mut m: u128 = 0;
    let mut i: usize = from;
    assert(t.take(0) =~= Seq::<char>::empty());
    while i < n
        invariant
            from <= i <= n,
            n == cs@.len(),
            t == cs@.skip(from as int),
            m as int == digits_value(t.take(i - from)),
            m <= MAGNITUDE_CAP,
            forall|j: int| 0 <= j < i - from ==> is_digit(t[j]),
        decreases n - i,
    {
        let c = cs[i];
        assert(t[i - from] == c);
        if !('0' <= c && c <= '9') {
            return None;
        }
        let d = (c as u32 - '0' as u32) as u128;
        assert(t.take(i - from + 1).drop_last() =~= t.take(i - from));
        assert(t.take(i - from + 1).last() == c);
        if m > (MAGNITUDE_CAP - d) / 10 {
            proof {
                if forall|j: int| 0 <= j < t.len() ==> is_digit(t[j]) {
                    assert(digits_value(t.take(i - from + 1)) == m * 10 + d);
                    assert(m * 10 + d > MAGNITUDE_CAP) by (nonlinear_arith)
                        requires
                            m > (MAGNITUDE_CAP - d) / 10,
                            d <= 9,
                    ;
                    lemma_digits_grow(t, (i - from + 1) as int);
                }
            }
            return None;
        }
        assert(m * 10 + d <= MAGNITUDE_CAP) by (nonlinear_arith)
            requires
                m <= (MAGNITUDE_CAP - d) / 10,
                d <= 9,
        ;
        m = m * 10 + d;
        i = i + 1;
    }
    assert(t.take(n - from) =~= t);
    Some(m)
}

proof fn lemma_digits_value_nonneg(s: Seq<char>)
    requires
        forall|i: int| 0 <= i < s.len() ==> is_digit(s[i]),
    ensures
        digits_value(s) >= 0,
    decreases s.len(),
{
    if s.len() > 0 {
        lemma_digits_value_nonneg(s.drop_last());
    }
}

proof fn lemma_digits_grow(t: Seq<char>, k: int)
    requires
        0 < k <= t.len(),
        forall|i: int| 0 <= i < t.len() ==> is_digit(t[i]),
        digits_value(t.take(k)) > MAGNITUDE_CAP,
    ensures
        digits_value(t) > MAGNITUDE_CAP,
    decreases t.len() - k,
{
    if k < t.len() {
        assert(t.take(k + 1).drop_last() =~= t.take(k));
        lemma_digits_grow(t, k + 1);
    } else {
        assert(t.take(k) =~= t);
    }
}

/// Reads decimal text as an integer in `lo..=hi`.
fn parse_integer(param: &str, signed: bool, lo: i128, hi: i128) -> (r: Option<i128>)
    requires
        -0x1_0000_0000_0000_0000 <= lo <= hi <= 0x1_0000_0000_0000_0000,
    ensures
        match ranged_value(param@, signed, lo as int, hi as int) {
            Some(v) => r == Some(v as i128),
            None => r is None,
        },
{
    let cs = chars_of(param);
    let n = cs.len();
    let (neg, from) = if n > 0 && cs[0] == '+' {
        (false, 1usize)
    } else if signed && n > 0 && cs[0] == '-' {
        (true, 1usize)
    } else {
        (false, 0usize)
    };
    assert(cs@.skip(0) =~= cs@);
    assert(decimal_value(param@, signed) == match unsigned_value(cs@.skip(from as int)) {
        Some(v) => Some(if neg {
            -v
        } else {
            v
        }),
        None => None::<int>,
    });
    match parse_digits(&cs, from) {
        Some(m) => {
            let v: i128 = if neg {
                -(m as i128)
            } else {
                m as i128
            };
            proof {
                lemma_digits_value_nonneg(cs@.skip(from as int));
            }
            assert(decimal_value(param@, signed) == Some(v as int));
            if lo <= v && v <= hi {
                assert(ranged_value(param@, signed, lo as int, hi as int) == Some(v as int));
                Some(v)
            } else {
                None
            }
        },
        None => {
            proof {
                if unsigned_value(cs@.skip(from as int)) is Some {
                    lemma_digits_value_nonneg(cs@.skip(from as int));
                    assert(unsigned_value(cs@.skip(from as int))->0 > MAGNITUDE_CAP);
                }
            }
            assert(ranged_value(param@, signed, lo as int, hi as int) is None);
            None
        },
    }
}

/// The `TypeConversion` error for text that is no value of the named type.
/// The message for text that is no value of the named type.
pub open spec fn cannot_convert(param: Seq<char>, target: Seq<char>) -> Seq<char> {
    "Cannot convert '"@ + param + "' to "@ + target
}

fn conversion_error(param: &str, target: &str) -> (e: ParseError)
    ensures
        e is TypeConversion && e->TypeConversion_0@ == cannot_convert(param@, target@),
{
    let mut m = owned("Cannot convert '");
    push_str(&mut m, param);
    push_str(&mut m, "' to ");
    push_str(&mut m, target);
    ParseError::TypeConversion(m)
}

impl FromParam for u8 {
    open spec fn accepts(param: Seq<char>) -> bool {
        ranged_value(param, false, 0, u8::MAX as int) is Some
    }

    open spec fn rejection(param: Seq<char>) -> Seq<char> {
        cannot_convert(param, "u8"@)
    }

    open spec fn denotes(param: Seq<char>, value: u8) -> bool {
        decimal_value(param, false) == Some(value as int)
    }

    fn from_param(param: &str) -> (r: Result<u8, ParseError>) {
        match parse_integer(param, false, 0, u8::MAX as i128) {
            Some(v) => Ok(v as u8),
            None => Err(conversion_error(param, "u8")),
        }
    }
}

impl FromParam for u16 {
    open spec fn accepts(param: Seq<char>) -> bool {
        ranged_value(param, false, 0, u16::MAX as int) is Some
    }

    open spec fn rejection(param: Seq<char>) -> Seq<char> {
        cannot_convert(param, "u16"@)
    }

    open spec fn denotes(param: Seq<char>, value: u16) -> bool {
        decimal_value(param, false) == Some(value as int)
    }

    fn from_param(param: &str) -> (r: Result<u16, ParseError>) {
        match parse_integer(param, false, 0, u16::MAX as i128) {
            Some(v) => Ok(v as u16),
            None => Err(conversion_error(param, "u16")),
        }
    }
}

impl FromParam for u32 {
    open spec fn accepts(param: Seq<char>) -> bool {
        ranged_value(param, false, 0, u32::MAX as int) is Some
    }

    open spec fn rejection(param: Seq<char>) -> Seq<char> {
        cannot_convert(param, "u32"@)
    }

    open spec fn denotes(param: Seq<char>, value: u32) -> bool {
        decimal_value(param, false) == Some(value as int)
    }

    fn from_param(param: &str) -> (r: Result<u32, ParseError>) {
        match parse_integer(param, false, 0, u32::MAX as i128) {
            Some(v) => Ok(v as u32),
            None => Err(conversion_error(param, "u32")),
        }
    }
}

impl FromParam for u64 {
    open spec fn accepts(param: Seq<char>) -> bool {
        ranged_value(param, false, 0, u64::MAX as int) is Some
    }

    open spec fn rejection(param: Seq<char>) -> Seq<char> {
        cannot_convert(param, "u64"@)
    }

    open spec fn denotes(param: Seq<char>, value: u64) -> bool {
        decimal_value(param, false) == Some(value as int)
    }

    fn from_param(param: &str) -> (r: Result<u64, ParseError>) {
        match parse_integer(param, false, 0, u64::MAX as i128) {
            Some(v) => Ok(v as u64),
            None => Err(conversion_error(param, "u64")),
        }
    }
}

impl FromParam for usize {
    open spec fn accepts(param: Seq<char>) -> bool {
        ranged_value(param, false, 0, usize::MAX as int) is Some
    }

    open spec fn rejection(param: Seq<char>) -> Seq<char> {
        cannot_convert(param, "usize"@)
    }

    open spec fn denotes(param: Seq<char>, value: usize) -> bool {
        decimal_value(param, false) == Some(value as int)
    }

    fn from_param(param: &str) -> (r: Result<usize, ParseError>) {
        match parse_integer(param, false, 0, usize::MAX as i128) {
            Some(v) => Ok(v as usize),
            None => Err(conversion_error(param, "usize")),
        }
    }
}

impl FromParam for i8 {
    open spec fn accepts(param: Seq<char>) -> bool {
        ranged_value(param, true, i8::MIN as int, i8::MAX as int) is Some
    }

    open spec fn rejection(param: Seq<char>) -> Seq<char> {
        cannot_convert(param, "i8"@)
    }

    open spec fn denotes(param: Seq<char>, value: i8) -> bool {
        decimal_value(param, true) == Some(value as int)
    }

    fn from_param(param: &str) -> (r: Result<i8, ParseError>) {
        match parse_integer(param, true, i8::MIN as i128, i8::MAX as i128) {
            Some(v) => Ok(v as i8),
            None => Err(conversion_error(param, "i8")),
        }
    }
}

impl FromParam for i16 {
    open spec fn accepts(param: Seq<char>) -> bool {
        ranged_value(param, true, i16::MIN as int, i16::MAX as int) is Some
    }

    open spec fn rejection(param: Seq<char>) -> Seq<char> {
        cannot_convert(param, "i16"@)
    }

    open spec fn denotes(param: Seq<char>, value: i16) -> bool {
        decimal_value(param, true) == Some(value as int)
    }

    fn from_param(param: &str) -> (r: Result<i16, ParseError>) {
        match parse_integer(param, true, i16::MIN as i128, i16::MAX as i128) {
            Some(v) => Ok(v as i16),
            None => Err(conversion_error(param, "i16")),
        }
    }
}

impl FromParam for i32 {
    open spec fn accepts(param: Seq<char>) -> bool {
        ranged_value(param, true, i32::MIN as int, i32::MAX as int) is Some
    }

    open spec fn rejection(param: Seq<char>) -> Seq<char> {
        cannot_convert(param, "i32"@)
    }

    open spec fn denotes(param: Seq<char>, value: i32) -> bool {
        decimal_value(param, true) == Some(value as int)
    }

    fn from_param(param: &str) -> (r: Result<i32, ParseError>) {
        match parse_integer(param, true, i32::MIN as i128, i32::MAX as i128) {
            Some(v) => Ok(v as i32),
            None => Err(conversion_error(param, "i32")),
        }
    }
}

impl FromParam for i64 {
    open spec fn accepts(param: Seq<char>) -> bool {
        ranged_value(param, true, i64::MIN as int, i64::MAX as int) is Some
    }

    open spec fn rejection(param: Seq<char>) -> Seq<char> {
        cannot_convert(param, "i64"@)
    }

    open spec fn denotes(param: Seq<char>, value: i64) -> bool {
        decimal_value(param, true) == Some(value as int)
    }

    fn from_param(param: &str) -> (r: Result<i64, ParseError>) {
        match parse_integer(param, true, i64::MIN as i128, i64::MAX as i128) {
            Some(v) => Ok(v as i64),
            None => Err(conversion_error(param, "i64")),
        }
    }
}

impl FromParam for isize {
    open spec fn accepts(param: Seq<char>) -> bool {
        ranged_value(param, true, isize::MIN as int, isize::MAX as int) is Some
    }

    open spec fn rejection(param: Seq<char>) -> Seq<char> {
        cannot_convert(param, "isize"@)
    }

    open spec fn denotes(param: Seq<char>, value: isize) -> bool {
        decimal_value(param, true) == Some(value as int)
    }

    fn from_param(param: &str) -> (r: Result<isize, ParseError>) {
        match parse_integer(param, true, isize::MIN as i128, isize::MAX as i128) {
            Some(v) => Ok(v as isize),
            None => Err(conversion_error(param, "isize")),
        }
    }
}

impl ToParam for u8 {
    open spec fn param_text(&self) -> Seq<char> {
        decimal(*self as nat)
    }

    fn to_param(&self) -> (r: String) {
        u64_to_string(*self as u64)
    }
}

impl ToParam for u16 {
    open spec fn param_text(&self) -> Seq<char> {
        decimal(*self as nat)
    }

    fn to_param(&self) -> (r: String) {
        u64_to_string(*self as u64)
    }
}

impl ToParam for u32 {
    open spec fn param_text(&self) -> Seq<char> {
        decimal(*self as nat)
    }

    fn to_param(&self) -> (r: String) {
        u64_to_string(*self as u64)
    }
}

impl ToParam for u64 {
    open spec fn param_text(&self) -> Seq<char> {
        decimal(*self as nat)
    }

    fn to_param(&self) -> (r: String) {
        u64_to_string(*self)
    }
}

impl ToParam for usize {
    open spec fn param_text(&self) -> Seq<char> {
        decimal(*self as nat)
    }

    fn to_param(&self) -> (r: String) {
        u64_to_string(*self as u64)
    }
}

impl ToParam for i8 {
    open spec fn param_text(&self) -> Seq<char> {
        signed_decimal(*self as int)
    }

    fn to_param(&self) -> (r: String) {
        i64_to_string(*self as i64)
    }
}

impl ToParam for i16 {
    open spec fn param_text(&self) -> Seq<char> {
        signed_decimal(*self as int)
    }

    fn to_param(&self) -> (r: String) {
        i64_to_string(*self as i64)
    }
}

impl ToParam for i32 {
    open spec fn param_text(&self) -> Seq<char> {
        signed_decimal(*self as int)
    }

    fn to_param(&self) -> (r: String) {
        i64_to_string(*self as i64)
    }
}

impl ToParam for i64 {
    open spec fn param_text(&self) -> Seq<char> {
        signed_decimal(*self as int)
    }

    fn to_param(&self) -> (r: String) {
        i64_to_string(*self)
    }
}

impl ToParam for isize {
    open spec fn param_text(&self) -> Seq<char> {
        signed_decimal(*self as int)
    }

    fn to_param(&self) -> (r: String) {
        i64_to_string(*self as i64)
    }
}

impl FromParam for String {
    open spec fn accepts(param: Seq<char>) -> bool {
        true
    }

    open spec fn rejection(param: Seq<char>) -> Seq<char> {
        seq![]
    }

    open spec fn denotes(param: Seq<char>, value: String) -> bool {
        value@ == param
    }

    fn from_param(param: &str) -> (r: Result<String, ParseError>) {
        Ok(owned(param))
    }
}

impl ToParam for String {
    open spec fn param_text(&self) -> Seq<char> {
        self@
    }

    fn to_param(&self) -> (r: String) {
        self.clone()
    }
}

impl<'a> ToParam for &'a str {
    open spec fn param_text(&self) -> Seq<char> {
        (*self)@
    }

    fn to_param(&self) -> (r: String) {
        owned(*self)
    }
}

/// `s` with ASCII upper-case letters made lower-case.
pub open spec fn ascii_lower(s: Seq<char>) -> Seq<char> {
    s.map_values(
        |c: char|
            if 'A' <= c <= 'Z' {
                (((c as u32) + 32) as u8) as char
            } else {
                c
            },
    )
}

/// The spellings of `true`, compared without regard to case.
pub open spec fn spells_true(s: Seq<char>) -> bool {
    let l = ascii_lower(s);
    l == seq!['t', 'r', 'u', 'e'] || l == seq!['1'] || l == seq!['y', 'e', 's'] || l == seq![
        'o',
        'n',
    ]
}

/// The spellings of `false`, compared without regard to case.
pub open spec fn spells_false(s: Seq<char>) -> bool {
    let l = ascii_lower(s);
    l == seq!['f', 'a', 'l', 's', 'e'] || l == seq!['0'] || l == seq!['n', 'o'] || l == seq![
        'o',
        'f',
        'f',
    ]
}

fn lower_ascii(s: &str) -> (r: String)
    ensures
        r@ == ascii_lower(s@),
{
    let cs = chars_of(s);
    let mut r = String::new();
    for i in 0..cs.len()
        invariant
            cs@ == s@,
            r@ == ascii_lower(s@).take(i as int),
    {
        let c = cs[i];
        let l = if 'A' <= c && c <= 'Z' {
            ((c as u32) + 32) as u8 as char
        } else {
            c
        };
        push_char(&mut r, l);
        assert(ascii_lower(s@).take(i + 1) =~= ascii_lower(s@).take(i as int).push(l));
    }
    assert(ascii_lower(s@).take(cs.len() as int) =~= ascii_lower(s@));
    r
}

impl FromParam for bool {
    open spec fn accepts(param: Seq<char>) -> bool {
        spells_true(param) || spells_false(param)
    }

    open spec fn rejection(param: Seq<char>) -> Seq<char> {
        "Cannot convert '"@ + param + "' to bool. Valid values: true/false, 1/0, yes/no, on/off"@
    }

    open spec fn denotes(param: Seq<char>, value: bool) -> bool {
        value == spells_true(param)
    }

    fn from_param(param: &str) -> (r: Result<bool, ParseError>) {
        let l = lower_ascii(param);
        let l = l.as_str();
        proof {
            reveal_strlit("true");
            reveal_strlit("1");
            reveal_strlit("yes");
            reveal_strlit("on");
            reveal_strlit("false");
            reveal_strlit("0");
            reveal_strlit("no");
            reveal_strlit("off");
            assert("true"@ =~= seq!['t', 'r', 'u', 'e']);
            assert("1"@ =~= seq!['1']);
            assert("yes"@ =~= seq!['y', 'e', 's']);
            assert("on"@ =~= seq!['o', 'n']);
            assert("false"@ =~= seq!['f', 'a', 'l', 's', 'e']);
            assert("0"@ =~= seq!['0']);
            assert("no"@ =~= seq!['n', 'o']);
            assert("off"@ =~= seq!['o', 'f', 'f']);
        }
        if str_eq(l, "true") || str_eq(l, "1") || str_eq(l, "yes") || str_eq(l, "on") {
            Ok(true)
        } else if str_eq(l, "false") || str_eq(l, "0") || str_eq(l, "no") || str_eq(l, "off") {
            Ok(false)
        } else {
            let mut m = owned("Cannot convert '");
            push_str(&mut m, param);
            push_str(&mut m, "' to bool. Valid values: true/false, 1/0, yes/no, on/off");
            Err(ParseError::TypeConversion(m))
        }
    }
}

impl ToParam for bool {
    open spec fn param_text(&self) -> Seq<char> {
        if *self {
            seq!['t', 'r', 'u', 'e']
        } else {
            seq!['f', 'a', 'l', 's', 'e']
        }
    }

    fn to_param(&self) -> (r: String) {
        proof {
            reveal_strlit("true");
            reveal_strlit("false");
            assert("true"@ =~= seq!['t', 'r', 'u', 'e']);
            assert("false"@ =~= seq!['f', 'a', 'l', 's', 'e']);
        }
        if *self {
            owned("true")
        } else {
            owned("false")
        }
    }
}

impl<T: FromParam> FromParam for Option<T> {
    open spec fn accepts(param: Seq<char>) -> bool {
        param.len() == 0 || T::accepts(param)
    }

    open spec fn rejection(param: Seq<char>) -> Seq<char> {
        T::rejection(param)
    }

    open spec fn denotes(param: Seq<char>, value: Option<T>) -> bool {
        if param.len() == 0 {
            value is None
        } else {
            value is Some && T::denotes(param, value->0)
        }
    }

    fn from_param(param: &str) -> (r: Result<Option<T>, ParseError>) {
        if param.is_empty() {
            Ok(None)
        } else {
            match T::from_param(param) {
                Ok(v) => Ok(Some(v)),
                Err(e) => Err(e),
            }
        }
    }
}

impl<T: ToParam> ToParam for Option<T> {
    open spec fn param_text(&self) -> Seq<char> {
        match self {
            Some(v) => v.param_text(),
            None => seq![],
        }
    }

    fn to_param(&self) -> (r: String) {
        match self {
            Some(v) => v.to_param(),
            None => String::new(),
        }
    }
}

/// The characters that `str::trim` removes: Unicode `White_Space`.
pub open spec fn is_whitespace(c: char) -> bool {
    ('\u{9}' <= c <= '\u{d}') || c == ' ' || c == '\u{85}' || c == '\u{a0}' || c == '\u{1680}'
        || ('\u{2000}' <= c <= '\u{200a}') || c == '\u{2028}' || c == '\u{2029}' || c
        == '\u{202f}' || c == '\u{205f}' || c == '\u{3000}'
}

/// `s` without leading white space.
pub open spec fn trim_start(s: Seq<char>) -> Seq<char>
    decreases s.len(),
{
    if s.len() > 0 && is_whitespace(s[0]) {
        trim_start(s.drop_first())
    } else {
        s
    }
}

/// `s` without trailing white space.
pub open spec fn trim_end(s: Seq<char>) -> Seq<char>
    decreases s.len(),
{
    if s.len() > 0 && is_whitespace(s.last()) {
        trim_end(s.drop_last())
    } else {
        s
    }
}

/// `s` without leading or trailing white space.
pub open spec fn trimmed(s: Seq<char>) -> Seq<char> {
    trim_end(trim_start(s))
}

fn is_ws(c: char) -> (r: bool)
    ensures
        r == is_whitespace(c),
{
    ('\u{9}' <= c && c <= '\u{d}') || c == ' ' || c == '\u{85}' || c == '\u{a0}' || c
        == '\u{1680}' || ('\u{2000}' <= c && c <= '\u{200a}') || c == '\u{2028}' || c
        == '\u{2029}' || c == '\u{202f}' || c == '\u{205f}' || c == '\u{3000}'
}

/// Removes leading and trailing white space.
pub fn trim(s: &str) -> (r: &str)
    ensures
        r@ == trimmed(s@),
{
    let cs = chars_of(s);
    let n = cs.len();
    let mut a: usize = 0;
    assert(s@.skip(0) =~= s@);
    while a < n && is_ws(cs[a])
        invariant
            a <= n,
            n == s@.len(),
            cs@ == s@,
            trim_start(s@) == trim_start(s@.skip(a as int)),
        decreases n - a,
    {
        assert(s@.skip(a as int).drop_first() =~= s@.skip(a + 1));
        a = a + 1;
    }
    let ghost st = s@.skip(a as int);
    assert(trim_start(st) == st);
    let mut b: usize = n;
    while b > a && is_ws(cs[b - 1])
        invariant
            a <= b <= n,
            n == s@.len(),
            cs@ == s@,
            st == s@.skip(a as int),
            trim_end(st) == trim_end(s@.subrange(a as int, b as int)),
        decreases b,
    {
        assert(s@.subrange(a as int, b as int).drop_last() =~= s@.subrange(a as int, b - 1));
        b = b - 1;
    }
    assert(s@.subrange(a as int, n as int) =~= st);
    s.substring_char(a, b)
}

/// The items of a comma-separated list, each trimmed.
pub open spec fn list_items(s: Seq<char>) -> Seq<Seq<char>> {
    pieces(s, ',').map_values(|p: Seq<char>| trimmed(p))
}

impl<T: FromParam> FromParam for Vec<T> {
    open spec fn accepts(param: Seq<char>) -> bool {
        param.len() == 0 || forall|i: int|
            0 <= i < list_items(param).len() ==> T::accepts(#[trigger] list_items(param)[i])
    }

    open spec fn rejection(param: Seq<char>) -> Seq<char> {
        T::rejection(list_items(param)[first_rejected::<T>(list_items(param))])
    }

    open spec fn denotes(param: Seq<char>, value: Vec<T>) -> bool {
        if param.len() == 0 {
            value@.len() == 0
        } else {
            value@.len() == list_items(param).len() && forall|i: int|
                0 <= i < value@.len() ==> T::denotes(#[trigger] list_items(param)[i], value@[i])
        }
    }

    fn from_param(param: &str) -> (r: Result<Vec<T>, ParseError>) {
        parse_list(param)
    }
}

/// Whether `i` is the first item that `T` does not accept.
pub open spec fn is_first_rejected<T: FromParam>(items: Seq<Seq<char>>, i: int) -> bool {
    0 <= i < items.len() && !T::accepts(items[i]) && forall|j: int| 0 <= j < i ==> T::accepts(#[trigger] items[j])
}

/// The first item that `T` does not accept.
pub open spec fn first_rejected<T: FromParam>(items: Seq<Seq<char>>) -> int {
    choose|i: int| is_first_rejected::<T>(items, i)
}

/// Reads a comma-separated list: each item trimmed and read as a `T`, none
/// for the empty text. Fails at the first item that is not accepted, with
/// that item's error.
pub fn parse_list<T: FromParam>(param: &str) -> (r: Result<Vec<T>, ParseError>)
    ensures
        r is Ok <==> Vec::<T>::accepts(param@),
        r is Ok ==> Vec::<T>::denotes(param@, r->Ok_0),
        r is Err ==> r->Err_0 is TypeConversion && exists|i: int|
            0 <= i < list_items(param@).len() && !T::accepts(#[trigger] list_items(param@)[i])
                && (forall|j: int| 0 <= j < i ==> T::accepts(list_items(param@)[j]))
                && r->Err_0->TypeConversion_0@ == T::rejection(list_items(param@)[i]),
        r is Err ==> r->Err_0->TypeConversion_0@ == Vec::<T>::rejection(param@),
{
        if param.is_empty() {
            return Ok(Vec::new());
        }
        let items = split_on(param, ',');
        let ghost li = list_items(param@);
        let mut out: Vec<T> = Vec::new();
        for i in 0..items.len()
            invariant
                views(items@) == pieces(param@, ','),
                param@.len() != 0,
                li == list_items(param@),
                li.len() == items@.len(),
                out@.len() == i,
                forall|j: int| 0 <= j < i ==> T::accepts(#[trigger] li[j]),
                forall|j: int| 0 <= j < i ==> T::denotes(#[trigger] li[j], out@[j]),
        {
            let item = trim(items[i]);
            assert(item@ == li[i as int]);
            match T::from_param(item) {
                Ok(v) => out.push(v),
                Err(e) => {
                    assert(!T::accepts(li[i as int]));
                    assert(param@.len() != 0);
                    assert(!Vec::<T>::accepts(param@));
                    proof {
                        let k = first_rejected::<T>(li);
                        assert(is_first_rejected::<T>(li, i as int));
                        if k != i {
                            assert(is_first_rejected::<T>(li, k));
                        }
                    }
                    return Err(e);
                },
            }
        }
        Ok(out)
    }

impl<T: ToParam> ToParam for Vec<T> {
    open spec fn param_text(&self) -> Seq<char> {
        join(self@.map_values(|v: T| v.param_text()), seq![','])
    }

    fn to_param(&self) -> (r: String) {
        let mut r = String::new();
        let ghost texts = self@.map_values(|v: T| v.param_text());
        for i in 0..self.len()
            invariant
                texts == self@.map_values(|v: T| v.param_text()),
                r@ == join(texts.take(i as int), seq![',']),
        {
            assert(texts.take(i + 1).drop_last() =~= texts.take(i as int));
            if i > 0 {
                push_char(&mut r, ',');
            }
            let t = self[i].to_param();
            push_str(&mut r, t.as_str());
            assert(texts.take(i + 1).last() == t@);
            if i == 0 {
                assert(r@ =~= join(texts.take(i + 1), seq![',']));
            } else {
                assert(r@ =~= join(texts.take(i as int), seq![',']) + seq![','] + t@);
            }
        }
        assert(texts.take(self@.len() as int) =~= texts);
        r
    }
}

impl FromParam for char {
    open spec fn accepts(param: Seq<char>) -> bool {
        param.len() == 1
    }

    open spec fn rejection(param: Seq<char>) -> Seq<char> {
        "Cannot convert '"@ + param + "' to char. Expected exactly one character"@
    }

    open spec fn denotes(param: Seq<char>, value: char) -> bool {
        param.len() == 1 && value == param[0]
    }

    fn from_param(param: &str) -> (r: Result<char, ParseError>) {
        if param.unicode_len() == 1 {
            Ok(param.get_char(0))
        } else {
            let mut m = owned("Cannot convert '");
            push_str(&mut m, param);
            push_str(&mut m, "' to char. Expected exactly one character");
            Err(ParseError::TypeConversion(m))
        }
    }
}

impl ToParam for char {
    open spec fn param_text(&self) -> Seq<char> {
        seq![*self]
    }

    fn to_param(&self) -> (r: String) {
        let mut r = String::new();
        push_char(&mut r, *self);
        assert(r@ =~= seq![*self]);
        r
    }
}

} // verus!
