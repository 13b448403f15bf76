//! Percent-encoding, path splitting and query-string tokenizing.
use crate::error::ParseError;
use crate::maps::{QueryMap, StrMap, add_entry};
use crate::text::{chars_of, push_char, push_str};
use vstd::prelude::*;
use vstd::utf8::*;

verus! {

broadcast use vstd::string::group_string_axioms;

/// Bytes that stand for themselves in an encoded string: `A-Z a-z 0-9 - _ . ~`.
pub open spec fn is_unreserved(b: u8) -> bool {
    (0x41 <= b <= 0x5A) || (0x61 <= b <= 0x7A) || (0x30 <= b <= 0x39) || b == 0x2D || b == 0x5F
        || b == 0x2E || b == 0x7E
}

/// The upper-case hexadecimal digit of `n < 16`.
pub open spec fn hex_digit(n: u8) -> char {
    if n < 10 {
        ((n + 0x30) as u8) as char
    } else {
        ((n + 0x37) as u8) as char
    }
}

/// The encoding of one byte of UTF-8.
pub open spec fn encode_byte(b: u8) -> Seq<char> {
    if is_unreserved(b) {
        seq![b as char]
    } else {
        seq!['%', hex_digit(b / 16), hex_digit(b % 16)]
    }
}

/// The encoding of a byte sequence, byte by byte.
pub open spec fn encode_bytes(bs: Seq<u8>) -> Seq<char>
    decreases bs.len(),
{
    if bs.len() == 0 {
        seq![]
    } else {
        encode_byte(bs[0]) + encode_bytes(bs.drop_first())
    }
}

/// The percent-encoding of a string: each unreserved character as it is, every
/// other character as `%XX` for each byte of its UTF-8 encoding.
pub open spec fn url_encoded(s: Seq<char>) -> Seq<char> {
    encode_bytes(encode_utf8(s))
}

/// Whether the byte is an ASCII hexadecimal digit (either case).
pub open spec fn is_hex_byte(b: u8) -> bool {
    (0x30 <= b <= 0x39) || (0x41 <= b <= 0x46) || (0x61 <= b <= 0x66)
}

/// The value of an ASCII hexadecimal digit.
pub open spec fn hex_value(b: u8) -> u8 {
    if 0x30 <= b <= 0x39 {
        (b - 0x30) as u8
    } else if 0x41 <= b <= 0x46 {
        (b - 0x37) as u8
    } else {
        (b - 0x57) as u8
    }
}

/// Prefixes `p` to a successful result.
pub open spec fn prepend(p: Seq<u8>, o: Option<Seq<u8>>) -> Option<Seq<u8>> {
    match o {
        Some(r) => Some(p + r),
        None => None,
    }
}

/// The bytes that an encoded byte sequence stands for: `%XX` is the byte `XX`,
/// `+` is a space, any other byte stands for itself. `None` when a `%` is not
/// followed by two hexadecimal digits.
pub open spec fn decode_bytes(bs: Seq<u8>) -> Option<Seq<u8>>
    decreases bs.len(),
{
    if bs.len() == 0 {
        Some(seq![])
    } else if bs[0] == 0x25 {
        if bs.len() >= 3 && is_hex_byte(bs[1]) && is_hex_byte(bs[2]) {
            prepend(seq![(hex_value(bs[1]) * 16 + hex_value(bs[2])) as u8], decode_bytes(bs.skip(3)))
        } else {
            None
        }
    } else if bs[0] == 0x2B {
        prepend(seq![0x20u8], decode_bytes(bs.drop_first()))
    } else {
        prepend(seq![bs[0]], decode_bytes(bs.drop_first()))
    }
}

/// The string that an encoded string stands for, or `None` where an escape is
/// malformed or the decoded bytes are not UTF-8.
pub open spec fn url_decoded(s: Seq<char>) -> Option<Seq<char>> {
    match decode_bytes(encode_utf8(s)) {
        Some(b) => if valid_utf8(b) {
            Some(decode_utf8(b))
        } else {
            None
        },
        None => None,
    }
}

proof fn lemma_prepend_assoc(a: Seq<u8>, b: Seq<u8>, o: Option<Seq<u8>>)
    ensures
        prepend(a, prepend(b, o)) == prepend(a + b, o),
{
    if let Some(t) = o {
        assert(a + (b + t) =~= (a + b) + t);
    }
}

proof fn lemma_encode_utf8_append(x: Seq<char>, y: Seq<char>)
    ensures
        encode_utf8(x + y) == encode_utf8(x) + encode_utf8(y),
    decreases x.len(),
{
    if x.len() == 0 {
        assert(x + y =~= y);
        assert(encode_utf8(x) + encode_utf8(y) =~= encode_utf8(y));
    } else {
        assert((x + y).drop_first() =~= x.drop_first() + y);
        lemma_encode_utf8_append(x.drop_first(), y);
        assert(encode_utf8(x + y) =~= encode_utf8(x) + encode_utf8(y));
    }
}

proof fn lemma_ascii_char(b: u8)
    requires
        b < 0x80,
    ensures
        encode_utf8(seq![b as char]) == seq![b],
{
    let c = b as char;
    assert(seq![c].drop_first() =~= Seq::<char>::empty());
    assert(c as u32 == b as u32);
    assert(has_width_1_encoding(c as u32));
    let u = c as u32;
    assert(leading_byte_width_1(u) == b) by (bit_vector)
        requires
            u == b as u32,
            b < 0x80,
    ;
    assert(seq![c][0] == c);
    assert(encode_utf8(Seq::<char>::empty()) =~= Seq::<u8>::empty());
    assert(encode_scalar(u) =~= seq![b]);
    assert(encode_utf8(seq![c]) == encode_scalar(u) + encode_utf8(seq![c].drop_first()));
    assert(encode_utf8(seq![c]) =~= seq![b]);
}

proof fn lemma_hex_digit(n: u8)
    requires
        n < 16,
    ensures
        (hex_digit(n) as u32) < 0x80,
        is_hex_byte(hex_digit(n) as u8),
        hex_value(hex_digit(n) as u8) == n,
        (hex_digit(n) as u8) as char == hex_digit(n),
{
}

proof fn lemma_decode_encode_bytes(bs: Seq<u8>)
    ensures
        decode_bytes(encode_utf8(encode_bytes(bs))) == Some(bs),
    decreases bs.len(),
{
    if bs.len() == 0 {
        assert(encode_bytes(bs) =~= Seq::<char>::empty());
    } else {
        let b = bs[0];
        let rest = bs.drop_first();
        lemma_decode_encode_bytes(rest);
        lemma_encode_utf8_append(encode_byte(b), encode_bytes(rest));
        let tail = encode_utf8(encode_bytes(rest));
        if is_unreserved(b) {
            lemma_ascii_char(b);
            let all = seq![b] + tail;
            assert(all.drop_first() =~= tail);
            assert(seq![b] + rest =~= bs);
        } else {
            let hi = hex_digit(b / 16);
            let lo = hex_digit(b % 16);
            lemma_hex_digit(b / 16);
            lemma_hex_digit(b % 16);
            lemma_ascii_char(0x25);
            lemma_ascii_char(hi as u8);
            lemma_ascii_char(lo as u8);
            assert(seq!['%', hi, lo] =~= seq![0x25u8 as char] + seq![(hi as u8) as char] + seq![
                (lo as u8) as char,
            ]);
            lemma_encode_utf8_append(
                seq![0x25u8 as char] + seq![(hi as u8) as char],
                seq![(lo as u8) as char],
            );
            lemma_encode_utf8_append(seq![0x25u8 as char], seq![(hi as u8) as char]);
            let head = seq![0x25u8, hi as u8, lo as u8];
            assert(encode_utf8(encode_byte(b)) =~= head);
            let all = head + tail;
            assert(all.skip(3) =~= tail);
            assert(((b / 16) * 16 + b % 16) as u8 == b);
            assert(seq![b] + rest =~= bs);
        }
    }
}

/// Decoding undoes encoding: for every string `s`, `url_decode(url_encode(s))`
/// gives back `s`.
pub proof fn lemma_decode_encode(s: Seq<char>)
    ensures
        url_decoded(url_encoded(s)) == Some(s),
{
    lemma_decode_encode_bytes(encode_utf8(s));
    encode_utf8_valid_utf8(s);
    encode_utf8_decode_utf8(s);
}

/// The message of the error that decoding `s` fails with.
pub open spec fn decode_failure(s: Seq<char>) -> Seq<char> {
    if decode_bytes(encode_utf8(s)) is None {
        "Incomplete or invalid percent encoding"@
    } else {
        "Invalid UTF-8 sequence after URL decoding"@
    }
}

fn hex_char(n: u8) -> (c: char)
    requires
        n < 16,
    ensures
        c == hex_digit(n),
{
    if n < 10 {
        (n + 0x30) as char
    } else {
        (n + 0x37) as char
    }
}

/// Percent-encodes `input`: unreserved characters pass through, space becomes
/// `%20`, every other character becomes `%XX` per UTF-8 byte, in upper case.
pub fn url_encode(input: &str) -> (r: String)
    ensures
        r@ == url_encoded(input@),
{
    let bytes = input.as_bytes();
    let mut out = String::new();
    let n = bytes.len();
    assert(bytes@.skip(0) =~= bytes@);
    assert(out@ + encode_bytes(bytes@) =~= encode_bytes(bytes@));
    for i in 0..n
        invariant
            n == bytes@.len(),
            bytes@ == encode_utf8(input@),
            out@ + encode_bytes(bytes@.skip(i as int)) == url_encoded(input@),
    {
        let b = bytes[i];
        assert(bytes@.skip(i as int).drop_first() =~= bytes@.skip(i + 1));
        let ghost before = out@;
        if (0x41 <= b && b <= 0x5A) || (0x61 <= b && b <= 0x7A) || (0x30 <= b && b <= 0x39) || b
            == 0x2D || b == 0x5F || b == 0x2E || b == 0x7E {
            push_char(&mut out, b as char);
        } else {
            push_char(&mut out, '%');
            push_char(&mut out, hex_char(b / 16));
            push_char(&mut out, hex_char(b % 16));
        }
        assert(out@ =~= before + encode_byte(b));
        assert(out@ + encode_bytes(bytes@.skip(i + 1)) =~= before + encode_bytes(
            bytes@.skip(i as int),
        ));
    }
    assert(bytes@.skip(n as int) =~= Seq::<u8>::empty());
    assert(out@ + encode_bytes(bytes@.skip(n as int)) =~= out@);
    out
}

/// Relies on `String::from_utf8`: succeeds exactly on valid UTF-8, and the
/// string then holds the characters those bytes encode.
#[verifier::external_body]
fn string_from_utf8(v: Vec<u8>) -> (r: Option<String>)
    ensures
        r is Some <==> valid_utf8(v@),
        r is Some ==> r->0@ == decode_utf8(v@),
{
    String::from_utf8(v).ok()
}

fn hex_val(b: u8) -> (v: u8)
    requires
        is_hex_byte(b),
    ensures
        v == hex_value(b),
        v < 16,
{
    if 0x30 <= b && b <= 0x39 {
        b - 0x30
    } else if 0x41 <= b && b <= 0x46 {
        b - 0x37
    } else {
        b - 0x57
    }
}

/// Decodes a percent-encoded string: `%XX` is one byte, `+` is a space; the
/// bytes must form UTF-8. Fails with `UrlEncoding` exactly where
/// `url_decoded` has no value.
pub fn url_decode(input: &str) -> (r: Result<String, ParseError>)
    ensures
        match url_decoded(input@) {
            Some(d) => r is Ok && r->Ok_0@ == d,
            None => r is Err && r->Err_0 is UrlEncoding && r->Err_0->UrlEncoding_0@
                == decode_failure(input@),
        },
{
    let bytes = input.as_bytes();
    let n = bytes.len();
    let mut out: Vec<u8> = Vec::new();
    let mut i: usize = 0;
    assert(bytes@.skip(0) =~= bytes@);
    proof {
        if let Some(t) = decode_bytes(bytes@) {
            assert(out@ + t =~= t);
        }
    }
    while i < n
        invariant
            n == bytes@.len(),
            i <= n,
            bytes@ == encode_utf8(input@),
            decode_bytes(bytes@) == prepend(out@, decode_bytes(bytes@.skip(i as int))),
        decreases n - i,
    {
        let ghost rest = bytes@.skip(i as int);
        let b = bytes[i];
        if b == 0x25 {
            if n - i > 2 && is_hex(bytes[i + 1]) && is_hex(bytes[i + 2]) {
                let v = hex_val(bytes[i + 1]) * 16 + hex_val(bytes[i + 2]);
                assert(rest.skip(3) =~= bytes@.skip(i + 3));
                let ghost before = out@;
                out.push(v);
                proof {
                    lemma_prepend_assoc(before, seq![v], decode_bytes(bytes@.skip(i + 3)));
                    assert(before + seq![v] =~= out@);
                }
                i = i + 3;
            } else {
                assert(decode_bytes(rest) is None) by {
                    assert(rest[0] == 0x25u8);
                    if rest.len() >= 3 {
                        assert(rest[1] == bytes@[i + 1]);
                        assert(rest[2] == bytes@[i + 2]);
                    }
                }
                return Err(ParseError::url_encoding("Incomplete or invalid percent encoding"));
            }
        } else {
            let v = if b == 0x2B {
                0x20u8
            } else {
                b
            };
            assert(rest.drop_first() =~= bytes@.skip(i + 1));
            let ghost before = out@;
            out.push(v);
            proof {
                lemma_prepend_assoc(before, seq![v], decode_bytes(bytes@.skip(i + 1)));
                assert(before + seq![v] =~= out@);
            }
            i = i + 1;
        }
    }
    assert(bytes@.skip(n as int) =~= Seq::<u8>::empty());
    assert(out@ + Seq::<u8>::empty() =~= out@);
    match string_from_utf8(out) {
        Some(s) => Ok(s),
        None => Err(ParseError::url_encoding("Invalid UTF-8 sequence after URL decoding")),
    }
}

/// The pieces of `s` between occurrences of `sep`, empty pieces included.
pub open spec fn pieces(s: Seq<char>, sep: char) -> Seq<Seq<char>>
    decreases s.len(),
{
    if s.len() == 0 {
        seq![Seq::<char>::empty()]
    } else {
        let p = pieces(s.drop_last(), sep);
        if s.last() == sep {
            p.push(Seq::<char>::empty())
        } else {
            p.update(p.len() - 1, p.last().push(s.last()))
        }
    }
}

pub proof fn lemma_pieces_len(s: Seq<char>, sep: char)
    ensures
        pieces(s, sep).len() >= 1,
    decreases s.len(),
{
    if s.len() > 0 {
        lemma_pieces_len(s.drop_last(), sep);
    }
}

/// The non-empty members of `ps`, in order.
pub open spec fn nonempty(ps: Seq<Seq<char>>) -> Seq<Seq<char>>
    decreases ps.len(),
{
    if ps.len() == 0 {
        seq![]
    } else {
        let r = nonempty(ps.drop_last());
        if ps.last().len() > 0 {
            r.push(ps.last())
        } else {
            r
        }
    }
}

/// The segments of a path: the non-empty pieces between slashes.
pub open spec fn path_segments(s: Seq<char>) -> Seq<Seq<char>> {
    nonempty(pieces(s, '/'))
}

/// The parts joined with `sep` between each two.
pub open spec fn join(parts: Seq<Seq<char>>, sep: Seq<char>) -> Seq<char>
    decreases parts.len(),
{
    if parts.len() == 0 {
        seq![]
    } else if parts.len() == 1 {
        parts[0]
    } else {
        join(parts.drop_last(), sep) + sep + parts.last()
    }
}

/// The views of a list of string slices.
pub open spec fn views(v: Seq<&str>) -> Seq<Seq<char>> {
    v.map_values(|x: &str| x@)
}

/// The views of a list of strings.
pub open spec fn string_views(v: Seq<String>) -> Seq<Seq<char>> {
    v.map_values(|x: String| x@)
}

/// The pieces of `s` between occurrences of `sep`, empty pieces included.
pub fn split_on(s: &str, sep: char) -> (r: Vec<&str>)
    ensures
        views(r@) == pieces(s@, sep),
{
    let cs = chars_of(s);
    let n = cs.len();
    let mut r: Vec<&str> = Vec::new();
    let mut start: usize = 0;
    assert(s@.take(0) =~= Seq::<char>::empty());
    assert(views(r@).push(s@.subrange(0, 0)) =~= seq![Seq::<char>::empty()]);
    for i in 0..n
        invariant
            n == s@.len(),
            cs@ == s@,
            start <= i,
            pieces(s@.take(i as int), sep) == views(r@).push(s@.subrange(start as int, i as int)),
    {
        let ghost prev = r@;
        assert(s@.take(i + 1).drop_last() =~= s@.take(i as int));
        assert(s@.take(i + 1).last() == s@[i as int]);
        if cs[i] == sep {
            let ghost start0 = start;
            let piece = s.substring_char(start, i);
            r.push(piece);
            assert(views(r@) =~= views(prev).push(piece@));
            start = i + 1;
            assert(s@.subrange(start as int, i + 1) =~= Seq::<char>::empty());
            assert(views(r@).push(s@.subrange(start as int, i + 1)) =~= views(prev).push(
                s@.subrange(start0 as int, i as int),
            ).push(Seq::<char>::empty()));
        } else {
            assert(s@.subrange(start as int, i + 1) =~= s@.subrange(start as int, i as int).push(
                s@[i as int],
            ));
            assert(views(r@).push(s@.subrange(start as int, i + 1)) =~= views(r@).push(
                s@.subrange(start as int, i as int),
            ).update(views(r@).len() as int, s@.subrange(start as int, i as int).push(s@[i as int])));
        }
    }
    let ghost prev = r@;
    let piece = s.substring_char(start, n);
    r.push(piece);
    assert(views(r@) =~= views(prev).push(piece@));
    assert(s@.take(n as int) =~= s@);
    r
}

/// Splits a path into its non-empty segments.
pub fn split_path_segments(path: &str) -> (r: Vec<&str>)
    ensures
        views(r@) == path_segments(path@),
{
    let ps = split_on(path, '/');
    let mut r: Vec<&str> = Vec::new();
    assert(views(ps@).take(0) =~= Seq::<Seq<char>>::empty());
    for i in 0..ps.len()
        invariant
            views(r@) == nonempty(views(ps@).take(i as int)),
    {
        let ghost prev = r@;
        assert(views(ps@).take(i + 1).drop_last() =~= views(ps@).take(i as int));
        assert(views(ps@).take(i + 1).last() == ps@[i as int]@);
        if !ps[i].is_empty() {
            r.push(ps[i]);
            assert(views(r@) =~= views(prev).push(ps@[i as int]@));
        }
    }
    assert(views(ps@).take(ps@.len() as int) =~= views(ps@));
    r
}

/// The path `s` stripped of its query: everything before the first `?`.
pub open spec fn is_first(s: Seq<char>, c: char, i: int) -> bool {
    0 <= i < s.len() && s[i] == c && forall|j: int| 0 <= j < i ==> s[j] != c
}

/// The path of a URL: what comes before its first `?`, all of it where
/// there is none.
pub open spec fn path_part(url: Seq<char>) -> Seq<char> {
    if exists|i: int| is_first(url, '?', i) {
        url.take(choose|i: int| is_first(url, '?', i))
    } else {
        url
    }
}

/// The query of a URL: what follows its first `?`, `None` where there is none.
pub open spec fn query_of(url: Seq<char>) -> Option<Seq<char>> {
    if exists|i: int| is_first(url, '?', i) {
        Some(url.skip((choose|i: int| is_first(url, '?', i)) + 1))
    } else {
        None
    }
}

/// Splits a URL at its first `?` into the path and the query.
pub fn split_path_query(url: &str) -> (r: (&str, Option<&str>))
    ensures
        r.0@ == path_part(url@),
        match r.1 {
            Some(q) => query_of(url@) == Some(q@),
            None => query_of(url@) is None,
        },
{
    let (p, q) = split_first(url, '?');
    proof {
        match q {
            Some(qq) => {
                let i = choose|i: int|
                    is_first(url@, '?', i) && p@ == url@.take(i) && qq@ == url@.skip(i + 1);
                let j = choose|j: int| is_first(url@, '?', j);
                lemma_first_unique(url@, '?', i, j);
            },
            None => {
                assert(!exists|i: int| is_first(url@, '?', i)) by {
                    if exists|i: int| is_first(url@, '?', i) {
                        let i = choose|i: int| is_first(url@, '?', i);
                        assert(url@[i] == '?');
                    }
                }
            },
        }
    }
    (p, q)
}

/// Joins the strings with `sep` between each two.
pub fn join_strings(parts: &Vec<String>, sep: &str) -> (r: String)
    ensures
        r@ == join(string_views(parts@), sep@),
{
    let mut r = String::new();
    for i in 0..parts.len()
        invariant
            r@ == join(string_views(parts@).take(i as int), sep@),
    {
        let ghost before = string_views(parts@).take(i as int);
        assert(string_views(parts@).take(i + 1).drop_last() =~= before);
        if i > 0 {
            push_str(&mut r, sep);
        }
        push_str(&mut r, parts[i].as_str());
        assert(string_views(parts@).take(i + 1).last() == parts@[i as int]@);
        if i == 0 {
            assert(r@ =~= join(string_views(parts@).take(i + 1), sep@));
        }
    }
    assert(string_views(parts@).take(parts@.len() as int) =~= string_views(parts@));
    r
}

/// Joins the strings with `sep` between each two.
pub fn join_strs(parts: &Vec<&str>, sep: &str) -> (r: String)
    ensures
        r@ == join(views(parts@), sep@),
{
    let mut r = String::new();
    for i in 0..parts.len()
        invariant
            r@ == join(views(parts@).take(i as int), sep@),
    {
        let ghost before = views(parts@).take(i as int);
        assert(views(parts@).take(i + 1).drop_last() =~= before);
        if i > 0 {
            push_str(&mut r, sep);
        }
        push_str(&mut r, parts[i]);
        assert(views(parts@).take(i + 1).last() == parts@[i as int]@);
        if i == 0 {
            assert(r@ =~= join(views(parts@).take(i + 1), sep@));
        }
    }
    assert(views(parts@).take(parts@.len() as int) =~= views(parts@));
    r
}

/// The normal form of a path: `/` followed by its segments joined with `/`.
pub open spec fn normalized(path: Seq<char>) -> Seq<char> {
    seq!['/'] + join(path_segments(path), seq!['/'])
}

/// Removes empty segments: `//user///123//profile/` becomes `/user/123/profile`,
/// and a path without segments becomes `/`.
pub fn normalize_path(path: &str) -> (r: String)
    ensures
        r@ == normalized(path@),
{
    let segments = split_path_segments(path);
    let mut r = String::new();
    push_char(&mut r, '/');
    let body = join_strs(&segments, "/");
    push_str(&mut r, body.as_str());
    proof {
        reveal_strlit("/");
        assert("/"@ =~= seq!['/']);
    }
    assert(r@ =~= normalized(path@));
    r
}

/// A query fragment's raw key and value: split at the first `=`, the value
/// being empty where there is none.
pub open spec fn fragment_parts(f: Seq<char>) -> (Seq<char>, Seq<char>) {
    if exists|i: int| is_first(f, '=', i) {
        let i = choose|i: int| is_first(f, '=', i);
        (f.take(i), f.skip(i + 1))
    } else {
        (f, seq![])
    }
}

/// The entries that the fragments give, in order, or `None` where a key or a
/// value does not decode.
pub open spec fn query_entries(frags: Seq<Seq<char>>) -> Option<Seq<(Seq<char>, Seq<Seq<char>>)>>
    decreases frags.len(),
{
    if frags.len() == 0 {
        Some(seq![])
    } else {
        match query_entries(frags.drop_last()) {
            None => None,
            Some(e) => {
                let (k, v) = fragment_parts(frags.last());
                match (url_decoded(k), url_decoded(v)) {
                    (Some(dk), Some(dv)) => Some(add_entry(e, dk, dv)),
                    _ => None,
                }
            },
        }
    }
}

/// The message of the error that parsing the fragments fails with: the
/// decoding error of the key, else of the value, of the first fragment that
/// does not decode.
pub open spec fn query_error(frags: Seq<Seq<char>>) -> Seq<char>
    decreases frags.len(),
{
    if frags.len() == 0 {
        seq![]
    } else if query_entries(frags.drop_last()) is None {
        query_error(frags.drop_last())
    } else {
        let (k, v) = fragment_parts(frags.last());
        if url_decoded(k) is None {
            decode_failure(k)
        } else {
            decode_failure(v)
        }
    }
}

/// The entries of a query string: its non-empty `&`-separated fragments,
/// each split at its first `=` and decoded, values gathered per key in order.
pub open spec fn query_parsed(s: Seq<char>) -> Option<Seq<(Seq<char>, Seq<Seq<char>>)>> {
    query_entries(nonempty(pieces(s, '&')))
}

proof fn lemma_first_unique(s: Seq<char>, c: char, i: int, j: int)
    requires
        is_first(s, c, i),
        is_first(s, c, j),
    ensures
        i == j,
{
    if i < j {
        assert(s[i] == c);
    } else if j < i {
        assert(s[j] == c);
    }
}

proof fn lemma_query_entries_none(frags: Seq<Seq<char>>, i: int)
    requires
        0 <= i <= frags.len(),
        query_entries(frags.take(i)) is None,
    ensures
        query_entries(frags) is None,
        query_error(frags) == query_error(frags.take(i)),
    decreases frags.len() - i,
{
    if i < frags.len() {
        assert(frags.take(i + 1).drop_last() =~= frags.take(i));
        lemma_query_entries_none(frags, i + 1);
    } else {
        assert(frags.take(i) =~= frags);
    }
}

/// Splits `s` at the first occurrence of `c`.
pub fn split_first(s: &str, c: char) -> (r: (&str, Option<&str>))
    ensures
        match r.1 {
            Some(q) => exists|i: int| is_first(s@, c, i) && r.0@ == s@.take(i) && q@ == s@.skip(i + 1),
            None => r.0@ == s@ && forall|j: int| 0 <= j < s@.len() ==> s@[j] != c,
        },
{
    let cs = chars_of(s);
    let n = cs.len();
    for i in 0..n
        invariant
            n == s@.len(),
            cs@ == s@,
            forall|j: int| 0 <= j < i ==> s@[j] != c,
    {
        if cs[i] == c {
            let head = s.substring_char(0, i);
            let tail = s.substring_char(i + 1, n);
            assert(is_first(s@, c, i as int));
            assert(s@.subrange(0, i as int) =~= s@.take(i as int));
            assert(s@.subrange(i + 1, n as int) =~= s@.skip(i + 1));
            return (head, Some(tail));
        }
    }
    (s, None)
}

/// Parses a query string (without `?`) into its entries: fragments split on
/// `&`, empty ones dropped, each split at its first `=`, key and value decoded,
/// values kept in arrival order under their key. Fails with `UrlEncoding`
/// exactly where a key or a value does not decode.
pub fn parse_query_string(query: &str) -> (r: Result<QueryMap, ParseError>)
    ensures
        match query_parsed(query@) {
            Some(e) => r is Ok && r->Ok_0@ == e && r->Ok_0.wf(),
            None => r is Err && r->Err_0 is UrlEncoding && r->Err_0->UrlEncoding_0@ == query_error(
                nonempty(pieces(query@, '&')),
            ),
        },
{
    let ps = split_on(query, '&');
    let mut frags: Vec<&str> = Vec::new();
    assert(views(ps@).take(0) =~= Seq::<Seq<char>>::empty());
    for i in 0..ps.len()
        invariant
            views(frags@) == nonempty(views(ps@).take(i as int)),
    {
        let ghost prev = frags@;
        assert(views(ps@).take(i + 1).drop_last() =~= views(ps@).take(i as int));
        assert(views(ps@).take(i + 1).last() == ps@[i as int]@);
        if !ps[i].is_empty() {
            frags.push(ps[i]);
            assert(views(frags@) =~= views(prev).push(ps@[i as int]@));
        }
    }
    assert(views(ps@).take(ps@.len() as int) =~= views(ps@));
    let ghost fs = views(frags@);
    let mut map: QueryMap = StrMap::new();
    assert(fs.take(0) =~= Seq::<Seq<char>>::empty());
    for i in 0..frags.len()
        invariant
            fs == views(frags@),
            fs == nonempty(pieces(query@, '&')),
            map.wf(),
            query_entries(fs.take(i as int)) == Some(map@),
    {
        let f = frags[i];
        assert(fs.take(i + 1).drop_last() =~= fs.take(i as int));
        assert(fs.take(i + 1).last() == f@);
        let (raw_key, raw_value) = split_first(f, '=');
        proof {
            match raw_value {
                Some(q) => {
                    let j = choose|j: int|
                        is_first(f@, '=', j) && raw_key@ == f@.take(j) && q@ == f@.skip(j + 1);
                    let j2 = choose|j: int| is_first(f@, '=', j);
                    lemma_first_unique(f@, '=', j, j2);
                },
                None => {},
            }
        }
        let key = match url_decode(raw_key) {
            Ok(k) => k,
            Err(e) => {
                proof {
                    lemma_query_entries_none(fs, i + 1);
                }
                return Err(e);
            },
        };
        let value = match raw_value {
            Some(v) => url_decode(v),
            None => {
                proof {
                    reveal_strlit("");
                }
                url_decode("")
            },
        };
        let value = match value {
            Ok(v) => v,
            Err(e) => {
                proof {
                    lemma_query_entries_none(fs, i + 1);
                }
                return Err(e);
            },
        };
        map.add(key, value);
    }
    assert(fs.take(fs.len() as int) =~= fs);
    Ok(map)
}

/// The text of one key and value: the encoded key alone when the value is
/// empty, else `key=value` encoded.
pub open spec fn pair_text(k: Seq<char>, v: Seq<char>) -> Seq<char> {
    if v.len() == 0 {
        url_encoded(k)
    } else {
        url_encoded(k) + seq!['='] + url_encoded(v)
    }
}

/// The fragments of a query, key by key and value by value.
pub open spec fn entry_texts(e: Seq<(Seq<char>, Seq<Seq<char>>)>) -> Seq<Seq<char>>
    decreases e.len(),
{
    if e.len() == 0 {
        seq![]
    } else {
        entry_texts(e.drop_last()) + e.last().1.map_values(|v: Seq<char>| pair_text(e.last().0, v))
    }
}

/// The query string of the entries: their fragments joined with `&`.
pub open spec fn query_text(e: Seq<(Seq<char>, Seq<Seq<char>>)>) -> Seq<char> {
    join(entry_texts(e), seq!['&'])
}

/// The text of one key and value.
pub fn format_pair(key: &str, value: &str) -> (r: String)
    ensures
        r@ == pair_text(key@, value@),
{
    let mut r = url_encode(key);
    if !value.is_empty() {
        push_char(&mut r, '=');
        let v = url_encode(value);
        push_str(&mut r, v.as_str());
    }
    r
}

/// Formats the entries as a query string (without `?`): each value as
/// `key=value` (the key alone for an empty value), percent-encoded, joined
/// with `&`, keys and values in their stored order.
pub fn format_query_string(params: &QueryMap) -> (r: String)
    requires
        params.wf(),
    ensures
        r@ == query_text(params@),
{
    let keys = params.keys();
    let mut parts: Vec<String> = Vec::new();
    let ghost e = params@;
    assert(e.take(0) =~= Seq::<(Seq<char>, Seq<Seq<char>>)>::empty());
    assert(views(keys@).len() == keys@.len());
    for i in 0..keys.len()
        invariant
            views(keys@) == crate::maps::keys_of(e),
            keys@.len() == e.len(),
            e == params@,
            params.wf(),
            string_views(parts@) == entry_texts(e.take(i as int)),
    {
        let key = keys[i];
        assert(views(keys@)[i as int] == key@);
        assert(key@ == e[i as int].0);
        proof {
            crate::maps::lemma_lookup_at(e, i as int);
        }
        let values = params.get(key).unwrap();
        let ghost vs = values.deep_view();
        assert(vs == e[i as int].1);
        let ghost base = string_views(parts@);
        assert(e.take(i + 1).drop_last() =~= e.take(i as int));
        assert(e.take(i + 1).last() == e[i as int]);
        for j in 0..values.len()
            invariant
                vs == values.deep_view(),
                string_views(parts@) == base + vs.take(j as int).map_values(
                    |v: Seq<char>| pair_text(key@, v),
                ),
        {
            let ghost prev = string_views(parts@);
            let t = format_pair(key, values[j].as_str());
            parts.push(t);
            assert(vs[j as int] == values@[j as int]@);
            assert(vs.take(j + 1).map_values(|v: Seq<char>| pair_text(key@, v)) =~= vs.take(
                j as int,
            ).map_values(|v: Seq<char>| pair_text(key@, v)).push(pair_text(key@, vs[j as int])));
            assert(string_views(parts@) =~= prev.push(t@));
        }
        assert(vs.take(values.len() as int) =~= vs);
    }
    assert(e.take(keys.len() as int) =~= e);
    proof {
        reveal_strlit("&");
        assert("&"@ =~= seq!['&']);
    }
    join_strings(&parts, "&")
}

fn is_hex(b: u8) -> (r: bool)
    ensures
        r == is_hex_byte(b),
{
    (0x30 <= b && b <= 0x39) || (0x41 <= b && b <= 0x46) || (0x61 <= b && b <= 0x66)
}

} // verus!
