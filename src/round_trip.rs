//! Formatting parameters into a path and matching the path again gives the
//! parameters back.
use crate::codec::{
    join, lemma_decode_encode, nonempty, path_segments, pieces, url_decoded, url_encoded,
};
use crate::maps::{
    distinct_keys, lemma_lookup_all, lemma_lookup_push, lemma_lookup_update, lookup, put_entry,
};
use crate::codec::{path_part, query_of, entry_texts, fragment_parts, is_first, pair_text, query_entries, query_parsed, query_text};
use crate::maps::add_entry;
use crate::path::{compiled, 
    SegmentSpec, decode_all, emitted, formatted, match_from, matched, name_of,
};
use vstd::prelude::*;

verus! {

/// Whether formatting emits a segment for `s`.
pub open spec fn emits(s: SegmentSpec, m: Seq<(Seq<char>, Seq<char>)>) -> bool {
    match s {
        SegmentSpec::OptionalParameter(n) => lookup(m, n) is Some,
        _ => true,
    }
}

/// The segment emitted for `s`, where there is one.
pub open spec fn emission(s: SegmentSpec, m: Seq<(Seq<char>, Seq<char>)>) -> Seq<Seq<char>> {
    match s {
        SegmentSpec::Literal(x) => seq![x],
        SegmentSpec::Parameter(n) => seq![url_encoded(lookup(m, n)->0)],
        SegmentSpec::OptionalParameter(n) => match lookup(m, n) {
            Some(v) => seq![url_encoded(v)],
            None => seq![],
        },
        SegmentSpec::Wildcard(n) => seq![url_encoded(lookup(m, n)->0)],
    }
}

/// The segments emitted from the `k`-th pattern segment on.
pub open spec fn emitted_from(pat: Seq<SegmentSpec>, k: int, m: Seq<(Seq<char>, Seq<char>)>) -> Seq<
    Seq<char>,
>
    decreases pat.len() - k,
{
    if k < 0 || k >= pat.len() {
        seq![]
    } else {
        emission(pat[k], m) + emitted_from(pat, k + 1, m)
    }
}

/// The parameters that matching captures from the `k`-th pattern segment on.
pub open spec fn captured_from(
    pat: Seq<SegmentSpec>,
    k: int,
    acc: Seq<(Seq<char>, Seq<char>)>,
    m: Seq<(Seq<char>, Seq<char>)>,
) -> Seq<(Seq<char>, Seq<char>)>
    decreases pat.len() - k,
{
    if k < 0 || k >= pat.len() {
        acc
    } else {
        match name_of(pat[k]) {
            Some(n) => if lookup(m, n) is Some {
                captured_from(pat, k + 1, put_entry(acc, n, lookup(m, n)->0), m)
            } else {
                captured_from(pat, k + 1, acc, m)
            },
            None => captured_from(pat, k + 1, acc, m),
        }
    }
}

/// Every literal of the pattern is non-empty and holds no `/`, as in every
/// compiled pattern.
pub open spec fn plain_literals(pat: Seq<SegmentSpec>) -> bool {
    forall|i: int|
        0 <= i < pat.len() ==> match #[trigger] pat[i] {
            SegmentSpec::Literal(x) => x.len() > 0 && !x.contains('/'),
            _ => true,
        }
}

/// The parameters fit the pattern so that formatting and matching are
/// inverse: a wildcard comes last; every required parameter and wildcard has
/// a value; every value is non-empty; nothing is emitted after an absent
/// optional parameter; and every stored name is a name of the pattern.
pub open spec fn fits(pat: Seq<SegmentSpec>, m: Seq<(Seq<char>, Seq<char>)>) -> bool {
    &&& distinct_keys(m)
    &&& forall|i: int|
        0 <= i < pat.len() ==> match #[trigger] pat[i] {
            SegmentSpec::Literal(x) => true,
            SegmentSpec::Parameter(n) => lookup(m, n) is Some,
            SegmentSpec::OptionalParameter(n) => true,
            SegmentSpec::Wildcard(n) => lookup(m, n) is Some && i == pat.len() - 1,
        }
    &&& forall|i: int| 0 <= i < m.len() ==> #[trigger] m[i].1.len() > 0
    &&& forall|i: int, j: int|
        0 <= i < j < pat.len() && !emits(#[trigger] pat[i], m) ==> !emits(#[trigger] pat[j], m)
    &&& forall|i: int|
        0 <= i < m.len() ==> exists|k: int| 0 <= k < pat.len() && name_of(pat[k]) == Some(#[trigger] m[i].0)
}

/// Both conditions of the round trip.
pub open spec fn round_trips(pat: Seq<SegmentSpec>, m: Seq<(Seq<char>, Seq<char>)>) -> bool {
    plain_literals(pat) && fits(pat, m)
}

proof fn lemma_value_nonempty(m: Seq<(Seq<char>, Seq<char>)>, n: Seq<char>)
    requires
        distinct_keys(m),
        forall|i: int| 0 <= i < m.len() ==> #[trigger] m[i].1.len() > 0,
        lookup(m, n) is Some,
    ensures
        lookup(m, n)->0.len() > 0,
{
    crate::maps::lemma_lookup_found(m, n);
}

/// The encoding of a non-empty value is non-empty and holds no `/`.
proof fn lemma_encoded_plain(v: Seq<char>)
    requires
        v.len() > 0,
    ensures
        url_encoded(v).len() > 0,
        !url_encoded(v).contains('/'),
{
    lemma_encode_bytes_plain(vstd::utf8::encode_utf8(v));
    assert(vstd::utf8::encode_utf8(v).len() > 0) by {
        let c = v[0];
        assert(vstd::utf8::encode_utf8(v) == vstd::utf8::encode_scalar(c as u32)
            + vstd::utf8::encode_utf8(v.drop_first()));
    }
}

proof fn lemma_encode_bytes_plain(bs: Seq<u8>)
    ensures
        bs.len() > 0 ==> crate::codec::encode_bytes(bs).len() > 0,
        !crate::codec::encode_bytes(bs).contains('/'),
{
    lemma_encode_bytes_avoid(bs, '/');
}

/// An encoding holds none of `/`, `&` and `=`.
proof fn lemma_encode_bytes_avoid(bs: Seq<u8>, c: char)
    requires
        c == '/' || c == '&' || c == '=',
    ensures
        bs.len() > 0 ==> crate::codec::encode_bytes(bs).len() > 0,
        !crate::codec::encode_bytes(bs).contains(c),
    decreases bs.len(),
{
    if bs.len() > 0 {
        lemma_encode_bytes_avoid(bs.drop_first(), c);
        let b = bs[0];
        let head = crate::codec::encode_byte(b);
        let tail = crate::codec::encode_bytes(bs.drop_first());
        assert(!head.contains(c)) by {
            if crate::codec::is_unreserved(b) {
                assert(head[0] == b as char);
            } else {
                assert(crate::codec::hex_digit(b / 16) != c);
                assert(crate::codec::hex_digit(b % 16) != c);
            }
        }
        assert(!(head + tail).contains(c)) by {
            if (head + tail).contains(c) {
                let i = choose|i: int| 0 <= i < (head + tail).len() && (head + tail)[i] == c;
                if i < head.len() {
                    assert(head[i] == c);
                } else {
                    assert(tail[i - head.len()] == c);
                }
            }
        }
    }
}

proof fn lemma_pieces_append_plain(x: Seq<char>, w: Seq<char>)
    requires
        !w.contains('/'),
    ensures
        pieces(x + w, '/') == pieces(x, '/').update(
            pieces(x, '/').len() - 1,
            pieces(x, '/').last() + w,
        ),
{
    lemma_pieces_append(x, w, '/');
}

proof fn lemma_pieces_append(x: Seq<char>, w: Seq<char>, sep: char)
    requires
        !w.contains(sep),
    ensures
        pieces(x + w, sep) == pieces(x, sep).update(
            pieces(x, sep).len() - 1,
            pieces(x, sep).last() + w,
        ),
    decreases w.len(),
{
    crate::codec::lemma_pieces_len(x, sep);
    let p = pieces(x, sep);
    if w.len() == 0 {
        assert(x + w =~= x);
        assert(p.last() + w =~= p.last());
        assert(p.update(p.len() - 1, p.last()) =~= p);
    } else {
        let w0 = w.drop_last();
        assert(!w0.contains(sep)) by {
            if w0.contains(sep) {
                let i = choose|i: int| 0 <= i < w0.len() && w0[i] == sep;
                assert(w[i] == sep);
            }
        }
        lemma_pieces_append(x, w0, sep);
        assert((x + w).drop_last() =~= x + w0);
        assert((x + w).last() == w.last());
        assert(w.last() != sep) by {
            assert(w[w.len() - 1] == w.last());
        }
        let q = pieces(x + w0, sep);
        assert(q =~= p.update(p.len() - 1, p.last() + w0));
        assert(q.len() == p.len());
        assert(q.last() == p.last() + w0);
        assert((p.last() + w0).push(w.last()) =~= p.last() + w);
        assert(q.update(q.len() - 1, q.last().push(w.last())) =~= p.update(
            p.len() - 1,
            p.last() + w,
        ));
    }
}

/// The path that formatting builds from the emitted segments.
pub open spec fn path_text(e: Seq<Seq<char>>) -> Seq<char> {
    seq!['/'] + join(e, seq!['/'])
}

proof fn lemma_path_text_pieces(e: Seq<Seq<char>>)
    requires
        forall|i: int| 0 <= i < e.len() ==> !(#[trigger] e[i]).contains('/'),
    ensures
        e.len() == 0 ==> pieces(path_text(e), '/') == seq![Seq::<char>::empty(), Seq::<char>::empty()],
        e.len() > 0 ==> pieces(path_text(e), '/') == seq![Seq::<char>::empty()] + e,
    decreases e.len(),
{
    let empty = Seq::<char>::empty();
    assert(pieces(empty, '/') == seq![empty]);
    let slash = seq!['/'];
    assert(slash.drop_last() =~= empty);
    assert(pieces(slash, '/') =~= seq![empty, empty]);
    if e.len() == 0 {
        assert(path_text(e) =~= slash);
    } else if e.len() == 1 {
        assert(path_text(e) =~= slash + e[0]);
        lemma_pieces_append_plain(slash, e[0]);
        assert(empty + e[0] =~= e[0]);
        assert(seq![empty, empty].update(1, e[0]) =~= seq![empty] + e);
    } else {
        let d = e.drop_last();
        assert forall|i: int| 0 <= i < d.len() implies !(#[trigger] d[i]).contains('/') by {
            assert(d[i] == e[i]);
        }
        lemma_path_text_pieces(d);
        let base = path_text(d);
        assert(path_text(e) =~= base.push('/') + e.last());
        assert(base.push('/').drop_last() =~= base);
        assert(pieces(base.push('/'), '/') == pieces(base, '/').push(empty));
        assert(!e.last().contains('/')) by {
            assert(e[e.len() - 1] == e.last());
        }
        lemma_pieces_append_plain(base.push('/'), e.last());
        let q = (seq![empty] + d).push(empty);
        assert(q.update(q.len() - 1, q.last() + e.last()) =~= seq![empty] + e);
    }
}

proof fn lemma_nonempty_after_empty(e: Seq<Seq<char>>)
    requires
        forall|i: int| 0 <= i < e.len() ==> (#[trigger] e[i]).len() > 0,
    ensures
        nonempty(seq![Seq::<char>::empty()] + e) == e,
    decreases e.len(),
{
    let empty = Seq::<char>::empty();
    if e.len() == 0 {
        assert(seq![empty] + e =~= seq![empty]);
        assert(seq![empty].drop_last() =~= Seq::<Seq<char>>::empty());
        assert(nonempty(Seq::<Seq<char>>::empty()) == Seq::<Seq<char>>::empty());
        assert(seq![empty].last() == empty);
        assert(nonempty(seq![empty]) == nonempty(Seq::<Seq<char>>::empty()));
        assert(e =~= Seq::<Seq<char>>::empty());
    } else {
        let d = e.drop_last();
        assert forall|i: int| 0 <= i < d.len() implies (#[trigger] d[i]).len() > 0 by {
            assert(d[i] == e[i]);
        }
        lemma_nonempty_after_empty(d);
        assert((seq![empty] + e).drop_last() =~= seq![empty] + d);
        assert((seq![empty] + e).last() == e.last());
        assert(e.last().len() > 0) by {
            assert(e[e.len() - 1] == e.last());
        }
        assert(d.push(e.last()) =~= e);
    }
}

/// The segments of a formatted path are the emitted segments.
proof fn lemma_segments_of_path_text(e: Seq<Seq<char>>)
    requires
        forall|i: int| 0 <= i < e.len() ==> !(#[trigger] e[i]).contains('/'),
        forall|i: int| 0 <= i < e.len() ==> (#[trigger] e[i]).len() > 0,
    ensures
        path_segments(path_text(e)) == e,
{
    lemma_path_text_pieces(e);
    lemma_nonempty_after_empty(e);
    if e.len() == 0 {
        let empty = Seq::<char>::empty();
        assert(seq![empty, empty] =~= seq![empty] + seq![empty]);
        assert(nonempty(seq![empty, empty]) == nonempty(seq![empty])) by {
            assert(seq![empty, empty].drop_last() =~= seq![empty]);
        }
        assert(seq![empty].drop_last() =~= Seq::<Seq<char>>::empty());
    }
}

proof fn lemma_emitted_from_split(pat: Seq<SegmentSpec>, k: int, m: Seq<(Seq<char>, Seq<char>)>)
    requires
        pat.len() > 0,
        0 <= k <= pat.len() - 1,
    ensures
        emitted_from(pat, k, m) == emitted_from(pat.drop_last(), k, m) + emission(pat.last(), m),
    decreases pat.len() - k,
{
    if k == pat.len() - 1 {
        assert(emitted_from(pat, k + 1, m) == Seq::<Seq<char>>::empty());
        assert(emitted_from(pat.drop_last(), k, m) == Seq::<Seq<char>>::empty());
        assert(emission(pat[k], m) + Seq::<Seq<char>>::empty() =~= emission(pat.last(), m));
        assert(Seq::<Seq<char>>::empty() + emission(pat.last(), m) =~= emission(pat.last(), m));
    } else {
        lemma_emitted_from_split(pat, k + 1, m);
        assert(pat.drop_last()[k] == pat[k]);
        assert(emission(pat[k], m) + (emitted_from(pat.drop_last(), k + 1, m) + emission(
            pat.last(),
            m,
        )) =~= (emission(pat[k], m) + emitted_from(pat.drop_last(), k + 1, m)) + emission(
            pat.last(),
            m,
        ));
    }
}

/// Where every required parameter and wildcard has a value, formatting
/// emits the segments of `emitted_from`.
proof fn lemma_emitted_forward(pat: Seq<SegmentSpec>, m: Seq<(Seq<char>, Seq<char>)>)
    requires
        forall|i: int|
            0 <= i < pat.len() ==> match #[trigger] pat[i] {
                SegmentSpec::Parameter(n) => lookup(m, n) is Some,
                SegmentSpec::Wildcard(n) => lookup(m, n) is Some,
                _ => true,
            },
    ensures
        emitted(pat, m) == Ok::<Seq<Seq<char>>, Seq<char>>(emitted_from(pat, 0, m)),
    decreases pat.len(),
{
    if pat.len() > 0 {
        let d = pat.drop_last();
        assert forall|i: int| 0 <= i < d.len() implies match #[trigger] d[i] {
            SegmentSpec::Parameter(n) => lookup(m, n) is Some,
            SegmentSpec::Wildcard(n) => lookup(m, n) is Some,
            _ => true,
        } by {
            assert(d[i] == pat[i]);
        }
        lemma_emitted_forward(d, m);
        lemma_emitted_from_split(pat, 0, m);
        let out = emitted_from(d, 0, m);
        assert(pat.last() == pat[pat.len() - 1]);
        match pat.last() {
            SegmentSpec::Literal(x) => assert(out.push(x) =~= out + emission(pat.last(), m)),
            SegmentSpec::Parameter(n) => assert(out.push(url_encoded(lookup(m, n)->0)) =~= out
                + emission(pat.last(), m)),
            SegmentSpec::OptionalParameter(n) => {
                match lookup(m, n) {
                    Some(v) => assert(out.push(url_encoded(v)) =~= out + emission(pat.last(), m)),
                    None => assert(out =~= out + emission(pat.last(), m)),
                }
            },
            SegmentSpec::Wildcard(n) => assert(out.push(url_encoded(lookup(m, n)->0)) =~= out
                + emission(pat.last(), m)),
        }
    }
}

proof fn lemma_put_lookup(e: Seq<(Seq<char>, Seq<char>)>, n: Seq<char>, v: Seq<char>)
    requires
        distinct_keys(e),
    ensures
        distinct_keys(put_entry(e, n, v)),
        forall|key: Seq<char>|
            #![auto]
            lookup(put_entry(e, n, v), key) == if key == n {
                Some(v)
            } else {
                lookup(e, key)
            },
{
    lemma_lookup_all(e, n);
    if exists|i: int| 0 <= i < e.len() && e[i].0 == n {
        let i = choose|i: int| 0 <= i < e.len() && e[i].0 == n;
        lemma_lookup_update(e, i, v);
        assert(e.update(i, (e[i].0, v)) == put_entry(e, n, v));
    } else {
        lemma_lookup_push(e, n, v);
    }
}

proof fn lemma_emitted_none(pat: Seq<SegmentSpec>, k: int, m: Seq<(Seq<char>, Seq<char>)>)
    requires
        0 <= k,
        forall|i: int| k <= i < pat.len() ==> !emits(#[trigger] pat[i], m),
    ensures
        emitted_from(pat, k, m) == Seq::<Seq<char>>::empty(),
    decreases pat.len() - k,
{
    if k < pat.len() {
        lemma_emitted_none(pat, k + 1, m);
        assert(!emits(pat[k], m));
        assert(emission(pat[k], m) =~= Seq::<Seq<char>>::empty());
        assert(emission(pat[k], m) + Seq::<Seq<char>>::empty() =~= Seq::<Seq<char>>::empty());
    }
}

proof fn lemma_emitted_plain(pat: Seq<SegmentSpec>, k: int, m: Seq<(Seq<char>, Seq<char>)>)
    requires
        round_trips(pat, m),
        0 <= k,
    ensures
        forall|i: int|
            0 <= i < emitted_from(pat, k, m).len() ==> (#[trigger] emitted_from(pat, k, m)[i]).len() > 0
                && !emitted_from(pat, k, m)[i].contains('/'),
    decreases pat.len() - k,
{
    if k < pat.len() {
        lemma_emitted_plain(pat, k + 1, m);
        let head = emission(pat[k], m);
        let tail = emitted_from(pat, k + 1, m);
        assert(forall|i: int| 0 <= i < head.len() ==> (#[trigger] head[i]).len() > 0 && !head[i].contains('/')) by {
            match pat[k] {
                SegmentSpec::Literal(x) => {},
                SegmentSpec::Parameter(n) => {
                    lemma_value_nonempty(m, n);
                    lemma_encoded_plain(lookup(m, n)->0);
                },
                SegmentSpec::OptionalParameter(n) => {
                    if lookup(m, n) is Some {
                        lemma_value_nonempty(m, n);
                        lemma_encoded_plain(lookup(m, n)->0);
                    }
                },
                SegmentSpec::Wildcard(n) => {
                    lemma_value_nonempty(m, n);
                    lemma_encoded_plain(lookup(m, n)->0);
                },
            }
        }
        assert forall|i: int| 0 <= i < (head + tail).len() implies (#[trigger] (head + tail)[i]).len() > 0
            && !(head + tail)[i].contains('/') by {
            if i < head.len() {
                assert((head + tail)[i] == head[i]);
            } else {
                assert((head + tail)[i] == tail[i - head.len()]);
            }
        }
    }
}

proof fn lemma_match_emitted(
    pat: Seq<SegmentSpec>,
    k: int,
    segs: Seq<Seq<char>>,
    j: int,
    acc: Seq<(Seq<char>, Seq<char>)>,
    m: Seq<(Seq<char>, Seq<char>)>,
)
    requires
        round_trips(pat, m),
        0 <= k <= pat.len(),
        0 <= j <= segs.len(),
        segs.subrange(j, segs.len() as int) == emitted_from(pat, k, m),
    ensures
        match_from(pat, k, segs, j, acc) == Ok::<Seq<(Seq<char>, Seq<char>)>, crate::path::MatchFailure>(
            captured_from(pat, k, acc, m),
        ),
    decreases pat.len() - k,
{
    let rest = segs.subrange(j, segs.len() as int);
    if k == pat.len() {
        assert(rest.len() == 0);
        assert(j == segs.len());
    } else {
        let tail = emitted_from(pat, k + 1, m);
        assert(rest == emission(pat[k], m) + tail);
        match pat[k] {
            SegmentSpec::Literal(x) => {
                assert(rest[0] == x);
                assert(segs[j] == x);
                assert(segs.subrange(j + 1, segs.len() as int) =~= rest.drop_first());
                assert(rest.drop_first() =~= tail);
                lemma_match_emitted(pat, k + 1, segs, j + 1, acc, m);
            },
            SegmentSpec::Parameter(n) => {
                let v = lookup(m, n)->0;
                assert(segs[j] == rest[0]);
                assert(rest[0] == url_encoded(v));
                lemma_decode_encode(v);
                assert(segs.subrange(j + 1, segs.len() as int) =~= rest.drop_first());
                assert(rest.drop_first() =~= tail);
                lemma_match_emitted(pat, k + 1, segs, j + 1, put_entry(acc, n, v), m);
            },
            SegmentSpec::OptionalParameter(n) => {
                match lookup(m, n) {
                    Some(v) => {
                        assert(segs[j] == rest[0]);
                        assert(rest[0] == url_encoded(v));
                        lemma_decode_encode(v);
                        assert(segs.subrange(j + 1, segs.len() as int) =~= rest.drop_first());
                        assert(rest.drop_first() =~= tail);
                        lemma_match_emitted(pat, k + 1, segs, j + 1, put_entry(acc, n, v), m);
                    },
                    None => {
                        assert(!emits(pat[k], m));
                        assert forall|i: int| k + 1 <= i < pat.len() implies !emits(
                            #[trigger] pat[i],
                            m,
                        ) by {
                            assert(!emits(pat[k], m));
                        }
                        lemma_emitted_none(pat, k + 1, m);
                        assert(rest =~= tail);
                        assert(j == segs.len());
                        lemma_match_emitted(pat, k + 1, segs, j, acc, m);
                    },
                }
            },
            SegmentSpec::Wildcard(n) => {
                let v = lookup(m, n)->0;
                assert(k == pat.len() - 1);
                assert(tail == Seq::<Seq<char>>::empty());
                assert(rest =~= seq![url_encoded(v)]);
                lemma_decode_encode(v);
                assert(rest.drop_last() =~= Seq::<Seq<char>>::empty());
                assert(decode_all(rest) == Some(seq![v])) by {
                    assert(decode_all(rest.drop_last()) == Some(Seq::<Seq<char>>::empty()));
                    assert(Seq::<Seq<char>>::empty().push(v) =~= seq![v]);
                }
                assert(join(seq![v], seq!['/']) == v);
                assert(captured_from(pat, k + 1, put_entry(acc, n, v), m) == put_entry(acc, n, v));
                assert(name_of(pat[k]) == Some(n));
                assert(captured_from(pat, k, acc, m) == put_entry(acc, n, v));
                assert(match_from(pat, k, segs, j, acc) == Ok::<
                    Seq<(Seq<char>, Seq<char>)>,
                    crate::path::MatchFailure,
                >(put_entry(acc, n, v)));
            },
        }
    }
}

proof fn lemma_captured_lookup(
    pat: Seq<SegmentSpec>,
    k: int,
    acc: Seq<(Seq<char>, Seq<char>)>,
    m: Seq<(Seq<char>, Seq<char>)>,
    key: Seq<char>,
)
    requires
        0 <= k <= pat.len(),
        distinct_keys(acc),
    ensures
        lookup(captured_from(pat, k, acc, m), key) == if (exists|i: int|
            k <= i < pat.len() && name_of(pat[i]) == Some(key)) && lookup(m, key) is Some {
            lookup(m, key)
        } else {
            lookup(acc, key)
        },
    decreases pat.len() - k,
{
    if k < pat.len() {
        match name_of(pat[k]) {
            Some(n) => {
                if lookup(m, n) is Some {
                    let v = lookup(m, n)->0;
                    lemma_put_lookup(acc, n, v);
                    lemma_captured_lookup(pat, k + 1, put_entry(acc, n, v), m, key);
                    if key != n {
                        if exists|i: int| k <= i < pat.len() && name_of(pat[i]) == Some(key) {
                            let i = choose|i: int| k <= i < pat.len() && name_of(pat[i]) == Some(key);
                            assert(i != k);
                        }
                    }
                } else {
                    lemma_captured_lookup(pat, k + 1, acc, m, key);
                    if exists|i: int| k <= i < pat.len() && name_of(pat[i]) == Some(key) {
                        let i = choose|i: int| k <= i < pat.len() && name_of(pat[i]) == Some(key);
                        if i == k {
                            assert(key == n);
                        }
                    }
                }
            },
            None => {
                lemma_captured_lookup(pat, k + 1, acc, m, key);
                if exists|i: int| k <= i < pat.len() && name_of(pat[i]) == Some(key) {
                    let i = choose|i: int| k <= i < pat.len() && name_of(pat[i]) == Some(key);
                    assert(i != k);
                }
            },
        }
    }
}

/// Every literal of a compiled pattern is non-empty and holds no `/`.
pub proof fn lemma_compiled_literals_plain(pattern: Seq<char>)
    requires
        compiled(pattern) is Some,
    ensures
        plain_literals(compiled(pattern)->0),
{
    let ps = path_segments(pattern);
    lemma_segments_plain(pattern);
    lemma_compile_pieces_plain(ps);
}

proof fn lemma_pieces_no_sep(s: Seq<char>, sep: char)
    ensures
        forall|i: int| 0 <= i < pieces(s, sep).len() ==> !(#[trigger] pieces(s, sep)[i]).contains(sep),
    decreases s.len(),
{
    if s.len() > 0 {
        lemma_pieces_no_sep(s.drop_last(), sep);
        crate::codec::lemma_pieces_len(s.drop_last(), sep);
        let p = pieces(s.drop_last(), sep);
        if s.last() != sep {
            let l = p.last().push(s.last());
            assert(!l.contains(sep)) by {
                if l.contains(sep) {
                    let i = choose|i: int| 0 <= i < l.len() && l[i] == sep;
                    if i < p.last().len() {
                        assert(p[p.len() - 1][i] == sep);
                    }
                }
            }
            let q = p.update(p.len() - 1, l);
            assert forall|i: int| 0 <= i < q.len() implies !(#[trigger] q[i]).contains(sep) by {
                if i < p.len() - 1 {
                    assert(q[i] == p[i]);
                }
            }
        } else {
            let q = p.push(Seq::<char>::empty());
            assert forall|i: int| 0 <= i < q.len() implies !(#[trigger] q[i]).contains(sep) by {
                if i < p.len() {
                    assert(q[i] == p[i]);
                }
            }
        }
    } else {
        assert(pieces(s, sep) == seq![Seq::<char>::empty()]);
    }
}

proof fn lemma_nonempty_members(ps: Seq<Seq<char>>)
    ensures
        forall|i: int| 0 <= i < nonempty(ps).len() ==> (#[trigger] nonempty(ps)[i]).len() > 0,
        forall|i: int| 0 <= i < nonempty(ps).len() ==> exists|j: int| 0 <= j < ps.len() && ps[j] == #[trigger] nonempty(ps)[i],
    decreases ps.len(),
{
    if ps.len() > 0 {
        let d = ps.drop_last();
        lemma_nonempty_members(d);
        let r = nonempty(d);
        assert forall|i: int| 0 <= i < r.len() implies exists|j: int| 0 <= j < ps.len() && ps[j] == #[trigger] r[i] by {
            let j = choose|j: int| 0 <= j < d.len() && d[j] == r[i];
            assert(ps[j] == d[j]);
        }
        if ps.last().len() > 0 {
            let q = r.push(ps.last());
            assert forall|i: int| 0 <= i < q.len() implies exists|j: int| 0 <= j < ps.len() && ps[j] == #[trigger] q[i] by {
                if i < r.len() {
                    assert(q[i] == r[i]);
                } else {
                    assert(ps[ps.len() - 1] == q[i]);
                }
            }
            assert forall|i: int| 0 <= i < q.len() implies (#[trigger] q[i]).len() > 0 by {
                if i < r.len() {
                    assert(q[i] == r[i]);
                }
            }
        }
    }
}

proof fn lemma_segments_plain(pattern: Seq<char>)
    ensures
        forall|i: int| 0 <= i < path_segments(pattern).len() ==> (#[trigger] path_segments(pattern)[i]).len() > 0
            && !path_segments(pattern)[i].contains('/'),
{
    lemma_pieces_no_sep(pattern, '/');
    lemma_nonempty_members(pieces(pattern, '/'));
    let ps = pieces(pattern, '/');
    assert forall|i: int| 0 <= i < path_segments(pattern).len() implies !(#[trigger] path_segments(pattern)[i]).contains('/') by {
        let j = choose|j: int| 0 <= j < ps.len() && ps[j] == nonempty(ps)[i];
    }
}

proof fn lemma_compile_pieces_plain(ps: Seq<Seq<char>>)
    requires
        forall|i: int| 0 <= i < ps.len() ==> (#[trigger] ps[i]).len() > 0 && !ps[i].contains('/'),
        crate::path::compile_pieces(ps) is Some,
    ensures
        plain_literals(crate::path::compile_pieces(ps)->0),
    decreases ps.len(),
{
    if ps.len() > 0 {
        let d = ps.drop_last();
        assert forall|i: int| 0 <= i < d.len() implies (#[trigger] d[i]).len() > 0 && !d[i].contains('/') by {
            assert(d[i] == ps[i]);
        }
        lemma_compile_pieces_plain(d);
        let a = crate::path::compile_pieces(d)->0;
        let b = crate::path::classify(ps.last())->0;
        assert(ps.last() == ps[ps.len() - 1]);
        assert(plain_literals(b)) by {
            assert forall|i: int| 0 <= i < b.len() implies match #[trigger] b[i] {
                SegmentSpec::Literal(x) => x.len() > 0 && !x.contains('/'),
                _ => true,
            } by {}
        }
        assert forall|i: int| 0 <= i < (a + b).len() implies match #[trigger] (a + b)[i] {
            SegmentSpec::Literal(x) => x.len() > 0 && !x.contains('/'),
            _ => true,
        } by {
            if i < a.len() {
                assert((a + b)[i] == a[i]);
            } else {
                assert((a + b)[i] == b[i - a.len()]);
            }
        }
    }
}

/// Formatting then matching gives the parameters back, for every compiled
/// pattern: where the parameters fit the pattern, formatting succeeds,
/// matching the formatted path succeeds, and it yields the value of every
/// name that the parameters hold, and no other name.
pub proof fn lemma_path_round_trip(pattern: Seq<char>, m: Seq<(Seq<char>, Seq<char>)>)
    requires
        compiled(pattern) is Some,
        fits(compiled(pattern)->0, m),
    ensures
        formatted(compiled(pattern)->0, m) is Ok,
        matched(compiled(pattern)->0, formatted(compiled(pattern)->0, m)->Ok_0) is Ok,
        forall|key: Seq<char>|
            #![auto]
            lookup(matched(compiled(pattern)->0, formatted(compiled(pattern)->0, m)->Ok_0)->Ok_0, key)
                == lookup(m, key),
{
    lemma_compiled_literals_plain(pattern);
    lemma_format_then_match(compiled(pattern)->0, m);
}

/// Formatting then matching gives the parameters back: where `round_trips`
/// holds, formatting succeeds, matching the formatted path against the same
/// pattern succeeds, and it yields the value of every name that the
/// parameters hold, and no other name.
pub proof fn lemma_format_then_match(pat: Seq<SegmentSpec>, m: Seq<(Seq<char>, Seq<char>)>)
    requires
        round_trips(pat, m),
    ensures
        formatted(pat, m) is Ok,
        matched(pat, formatted(pat, m)->Ok_0) is Ok,
        forall|key: Seq<char>|
            #![auto]
            lookup(matched(pat, formatted(pat, m)->Ok_0)->Ok_0, key) == lookup(m, key),
{
    assert forall|i: int|
        0 <= i < pat.len() implies match #[trigger] pat[i] {
            SegmentSpec::Parameter(n) => lookup(m, n) is Some,
            SegmentSpec::Wildcard(n) => lookup(m, n) is Some,
            _ => true,
        } by {}
    lemma_emitted_forward(pat, m);
    let e = emitted_from(pat, 0, m);
    lemma_emitted_plain(pat, 0, m);
    lemma_segments_of_path_text(e);
    assert(formatted(pat, m) == Ok::<Seq<char>, Seq<char>>(path_text(e)));
    assert(e.subrange(0, e.len() as int) =~= e);
    lemma_match_emitted(pat, 0, e, 0, seq![], m);
    assert forall|key: Seq<char>|
        #![auto]
        lookup(matched(pat, formatted(pat, m)->Ok_0)->Ok_0, key) == lookup(m, key) by {
        lemma_captured_lookup(pat, 0, seq![], m, key);
        if lookup(m, key) is Some {
            crate::maps::lemma_lookup_found(m, key);
            let i = choose|i: int| 0 <= i < m.len() && m[i].0 == key && m[i].1 == lookup(m, key)->0;
            assert(exists|k: int| 0 <= k < pat.len() && name_of(pat[k]) == Some(m[i].0));
        }
    }
}

/// One fragment taken into the entries, as parsing a query takes it.
pub open spec fn take_fragment(
    e: Option<Seq<(Seq<char>, Seq<Seq<char>>)>>,
    f: Seq<char>,
) -> Option<Seq<(Seq<char>, Seq<Seq<char>>)>> {
    match e {
        None => None,
        Some(e) => {
            let (k, v) = fragment_parts(f);
            match (url_decoded(k), url_decoded(v)) {
                (Some(dk), Some(dv)) => Some(add_entry(e, dk, dv)),
                _ => None,
            }
        },
    }
}

/// The fragments taken into the entries one after another.
pub open spec fn take_all(
    init: Option<Seq<(Seq<char>, Seq<Seq<char>>)>>,
    frags: Seq<Seq<char>>,
) -> Option<Seq<(Seq<char>, Seq<Seq<char>>)>>
    decreases frags.len(),
{
    if frags.len() == 0 {
        init
    } else {
        take_fragment(take_all(init, frags.drop_last()), frags.last())
    }
}

proof fn lemma_query_entries_take_all(frags: Seq<Seq<char>>)
    ensures
        query_entries(frags) == take_all(Some(seq![]), frags),
    decreases frags.len(),
{
    if frags.len() > 0 {
        lemma_query_entries_take_all(frags.drop_last());
    }
}

proof fn lemma_take_all_concat(
    init: Option<Seq<(Seq<char>, Seq<Seq<char>>)>>,
    a: Seq<Seq<char>>,
    b: Seq<Seq<char>>,
)
    ensures
        take_all(init, a + b) == take_all(take_all(init, a), b),
    decreases b.len(),
{
    if b.len() == 0 {
        assert(a + b =~= a);
    } else {
        lemma_take_all_concat(init, a, b.drop_last());
        assert((a + b).drop_last() =~= a + b.drop_last());
        assert((a + b).last() == b.last());
    }
}

proof fn lemma_empty_decodes()
    ensures
        url_decoded(Seq::<char>::empty()) == Some(Seq::<char>::empty()),
{
    assert(vstd::utf8::encode_utf8(Seq::<char>::empty()) == Seq::<u8>::empty());
    assert(vstd::utf8::valid_utf8(Seq::<u8>::empty()));
    assert(vstd::utf8::decode_utf8(Seq::<u8>::empty()) == Seq::<char>::empty());
}

proof fn lemma_pair_fragment(e: Seq<(Seq<char>, Seq<Seq<char>>)>, k: Seq<char>, v: Seq<char>)
    ensures
        take_fragment(Some(e), pair_text(k, v)) == Some(add_entry(e, k, v)),
{
    let ek = url_encoded(k);
    lemma_encode_bytes_avoid(vstd::utf8::encode_utf8(k), '=');
    lemma_decode_encode(k);
    if v.len() == 0 {
        assert(!exists|i: int| is_first(ek, '=', i)) by {
            if exists|i: int| is_first(ek, '=', i) {
                let i = choose|i: int| is_first(ek, '=', i);
                assert(ek[i] == '=');
            }
        }
        lemma_empty_decodes();
        assert(v =~= Seq::<char>::empty());
        assert(fragment_parts(ek) == (ek, Seq::<char>::empty()));
    } else {
        let ev = url_encoded(v);
        lemma_decode_encode(v);
        let t = ek + seq!['='] + ev;
        let n = ek.len() as int;
        assert(is_first(t, '=', n)) by {
            assert(t[n] == '=');
            assert forall|j: int| 0 <= j < n implies t[j] != '=' by {
                assert(t[j] == ek[j]);
            }
        }
        let i = choose|i: int| is_first(t, '=', i);
        assert(i == n) by {
            if i < n {
                assert(t[i] == '=');
            } else if n < i {
                assert(t[n] == '=');
            }
        }
        assert(t.take(n) =~= ek);
        assert(t.skip(n + 1) =~= ev);
    }
}

proof fn lemma_take_values(
    d: Seq<(Seq<char>, Seq<Seq<char>>)>,
    k: Seq<char>,
    vs: Seq<Seq<char>>,
)
    requires
        distinct_keys(d),
        forall|i: int| 0 <= i < d.len() ==> d[i].0 != k,
        vs.len() > 0,
    ensures
        take_all(Some(d), vs.map_values(|v: Seq<char>| pair_text(k, v))) == Some(d.push((k, vs))),
    decreases vs.len(),
{
    let t = vs.map_values(|v: Seq<char>| pair_text(k, v));
    let last = vs.last();
    assert(t.last() == pair_text(k, last));
    if vs.len() == 1 {
        assert(t.drop_last() =~= Seq::<Seq<char>>::empty());
        lemma_pair_fragment(d, k, last);
        assert(!exists|i: int| 0 <= i < d.len() && d[i].0 == k);
        assert(seq![last] =~= vs);
        assert(add_entry(d, k, last) == d.push((k, vs)));
        assert(take_all(Some(d), t.drop_last()) == Some(d));
        assert(take_all(Some(d), t) == take_fragment(Some(d), t.last()));
    } else {
        let vs0 = vs.drop_last();
        lemma_take_values(d, k, vs0);
        assert(t.drop_last() =~= vs0.map_values(|v: Seq<char>| pair_text(k, v)));
        let e = d.push((k, vs0));
        lemma_pair_fragment(e, k, last);
        assert(e[d.len() as int].0 == k);
        let i = choose|i: int| 0 <= i < e.len() && e[i].0 == k;
        assert(i == d.len()) by {
            if i < d.len() {
                assert(e[i] == d[i]);
            }
        }
        assert(vs0.push(last) =~= vs);
        assert(e[i].1 == vs0);
        assert(e.update(i, (k, e[i].1.push(last))) =~= d.push((k, vs)));
        assert(add_entry(e, k, last) == d.push((k, vs)));
        assert(take_all(Some(d), t.drop_last()) == Some(e));
        assert(take_all(Some(d), t) == take_fragment(Some(e), t.last()));
    }
}

proof fn lemma_take_entry_texts(e: Seq<(Seq<char>, Seq<Seq<char>>)>)
    requires
        distinct_keys(e),
        forall|i: int| 0 <= i < e.len() ==> (#[trigger] e[i]).1.len() > 0,
    ensures
        take_all(Some(seq![]), entry_texts(e)) == Some(e),
    decreases e.len(),
{
    if e.len() > 0 {
        let d = e.drop_last();
        assert forall|i: int| 0 <= i < d.len() implies (#[trigger] d[i]).1.len() > 0 by {
            assert(d[i] == e[i]);
        }
        lemma_take_entry_texts(d);
        let (k, vs) = e.last();
        assert(e.last() == e[e.len() - 1]);
        lemma_take_all_concat(
            Some(seq![]),
            entry_texts(d),
            vs.map_values(|v: Seq<char>| pair_text(k, v)),
        );
        assert forall|i: int| 0 <= i < d.len() implies d[i].0 != k by {
            assert(d[i] == e[i]);
        }
        lemma_take_values(d, k, vs);
        assert(d.push((k, vs)) =~= e);
    } else {
        assert(e =~= Seq::<(Seq<char>, Seq<Seq<char>>)>::empty());
    }
}

proof fn lemma_pieces_of_join(f: Seq<Seq<char>>, sep: char)
    requires
        f.len() > 0,
        forall|i: int| 0 <= i < f.len() ==> !(#[trigger] f[i]).contains(sep),
    ensures
        pieces(join(f, seq![sep]), sep) == f,
    decreases f.len(),
{
    let empty = Seq::<char>::empty();
    assert(pieces(empty, sep) == seq![empty]);
    if f.len() == 1 {
        lemma_pieces_append(empty, f[0], sep);
        assert(empty + f[0] =~= f[0]);
        assert(seq![empty].update(0, empty + f[0]) =~= f);
    } else {
        let d = f.drop_last();
        assert forall|i: int| 0 <= i < d.len() implies !(#[trigger] d[i]).contains(sep) by {
            assert(d[i] == f[i]);
        }
        lemma_pieces_of_join(d, sep);
        let base = join(d, seq![sep]);
        assert(join(f, seq![sep]) =~= base.push(sep) + f.last());
        assert(base.push(sep).drop_last() =~= base);
        assert(!f.last().contains(sep)) by {
            assert(f[f.len() - 1] == f.last());
        }
        lemma_pieces_append(base.push(sep), f.last(), sep);
        let q = d.push(empty);
        assert(q.update(q.len() - 1, q.last() + f.last()) =~= f);
    }
}

proof fn lemma_nonempty_all(f: Seq<Seq<char>>)
    requires
        forall|i: int| 0 <= i < f.len() ==> (#[trigger] f[i]).len() > 0,
    ensures
        nonempty(f) == f,
    decreases f.len(),
{
    if f.len() > 0 {
        let d = f.drop_last();
        assert forall|i: int| 0 <= i < d.len() implies (#[trigger] d[i]).len() > 0 by {
            assert(d[i] == f[i]);
        }
        lemma_nonempty_all(d);
        assert(f.last().len() > 0) by {
            assert(f[f.len() - 1] == f.last());
        }
        assert(d.push(f.last()) =~= f);
    }
}

proof fn lemma_entry_texts_plain(e: Seq<(Seq<char>, Seq<Seq<char>>)>)
    requires
        forall|i: int, j: int|
            0 <= i < e.len() && 0 <= j < e[i].1.len() ==> (#[trigger] e[i].0.len() > 0
                || #[trigger] e[i].1[j].len() > 0),
    ensures
        forall|i: int|
            0 <= i < entry_texts(e).len() ==> (#[trigger] entry_texts(e)[i]).len() > 0
                && !entry_texts(e)[i].contains('&'),
    decreases e.len(),
{
    if e.len() > 0 {
        let d = e.drop_last();
        assert forall|i: int, j: int|
            0 <= i < d.len() && 0 <= j < d[i].1.len() implies (#[trigger] d[i].0.len() > 0
                || #[trigger] d[i].1[j].len() > 0) by {
            assert(d[i] == e[i]);
        }
        lemma_entry_texts_plain(d);
        let (k, vs) = e.last();
        assert(e.last() == e[e.len() - 1]);
        let a = entry_texts(d);
        let b = vs.map_values(|v: Seq<char>| pair_text(k, v));
        assert forall|j: int| 0 <= j < b.len() implies (#[trigger] b[j]).len() > 0 && !b[j].contains('&') by {
            let v = vs[j];
            assert(b[j] == pair_text(k, v));
            lemma_encode_bytes_avoid(vstd::utf8::encode_utf8(k), '&');
            lemma_encode_bytes_avoid(vstd::utf8::encode_utf8(v), '&');
            let ek = url_encoded(k);
            let ev = url_encoded(v);
            assert(e[e.len() - 1].1[j] == v);
            if v.len() == 0 {
                assert(k.len() > 0);
                assert(vstd::utf8::encode_utf8(k).len() > 0) by {
                    assert(vstd::utf8::encode_utf8(k) == vstd::utf8::encode_scalar(k[0] as u32)
                        + vstd::utf8::encode_utf8(k.drop_first()));
                }
            } else {
                let t = ek + seq!['='] + ev;
                assert(t[ek.len() as int] == '=');
                if t.contains('&') {
                    let i = choose|i: int| 0 <= i < t.len() && t[i] == '&';
                    if i < ek.len() {
                        assert(ek[i] == '&');
                    } else if i > ek.len() {
                        assert(ev[i - ek.len() - 1] == '&');
                    }
                }
            }
        }
        assert forall|i: int| 0 <= i < (a + b).len() implies (#[trigger] (a + b)[i]).len() > 0 && !(a
            + b)[i].contains('&') by {
            if i < a.len() {
                assert((a + b)[i] == a[i]);
            } else {
                assert((a + b)[i] == b[i - a.len()]);
            }
        }
    }
}

/// Parsing a formatted query gives the entries back: for entries with
/// distinct keys, at least one value under each key, and no empty value under
/// an empty key, parsing their query string yields exactly those entries,
/// keys and values in order.
pub proof fn lemma_query_round_trip(e: Seq<(Seq<char>, Seq<Seq<char>>)>)
    requires
        distinct_keys(e),
        forall|i: int| 0 <= i < e.len() ==> (#[trigger] e[i]).1.len() > 0,
        forall|i: int, j: int|
            0 <= i < e.len() && 0 <= j < e[i].1.len() ==> (#[trigger] e[i].0.len() > 0
                || #[trigger] e[i].1[j].len() > 0),
    ensures
        query_parsed(query_text(e)) == Some(e),
{
    let f = entry_texts(e);
    lemma_entry_texts_plain(e);
    if f.len() > 0 {
        lemma_pieces_of_join(f, '&');
    } else {
        assert(join(f, seq!['&']) == Seq::<char>::empty());
        assert(pieces(Seq::<char>::empty(), '&') == seq![Seq::<char>::empty()]);
        assert(seq![Seq::<char>::empty()].drop_last() =~= Seq::<Seq<char>>::empty());
        assert(nonempty(seq![Seq::<char>::empty()]) == nonempty(Seq::<Seq<char>>::empty()));
        assert(f =~= Seq::<Seq<char>>::empty());
    }
    lemma_nonempty_all(f);
    lemma_query_entries_take_all(f);
    lemma_take_entry_texts(e);
}

/// The query of a URL: what follows its first `?`, empty where there is none.
pub open spec fn query_part(url: Seq<char>) -> Seq<char> {
    match query_of(url) {
        Some(q) => q,
        None => seq![],
    }
}

/// No literal of the pattern holds `?`.
pub open spec fn literals_without_query_mark(pat: Seq<SegmentSpec>) -> bool {
    forall|i: int|
        0 <= i < pat.len() ==> match #[trigger] pat[i] {
            SegmentSpec::Literal(x) => !x.contains('?'),
            _ => true,
        }
}

/// The entries form a query that parsing gives back.
pub open spec fn query_fits(e: Seq<(Seq<char>, Seq<Seq<char>>)>) -> bool {
    &&& distinct_keys(e)
    &&& forall|i: int| 0 <= i < e.len() ==> (#[trigger] e[i]).1.len() > 0
    &&& forall|i: int, j: int|
        0 <= i < e.len() && 0 <= j < e[i].1.len() ==> (#[trigger] e[i].0.len() > 0
            || #[trigger] e[i].1[j].len() > 0)
}

proof fn lemma_emitted_no_query_mark(pat: Seq<SegmentSpec>, k: int, m: Seq<(Seq<char>, Seq<char>)>)
    requires
        literals_without_query_mark(pat),
        0 <= k,
    ensures
        forall|i: int|
            0 <= i < emitted_from(pat, k, m).len() ==> !(#[trigger] emitted_from(pat, k, m)[i]).contains('?'),
    decreases pat.len() - k,
{
    if k < pat.len() {
        lemma_emitted_no_query_mark(pat, k + 1, m);
        let head = emission(pat[k], m);
        let tail = emitted_from(pat, k + 1, m);
        assert forall|i: int| 0 <= i < head.len() implies !(#[trigger] head[i]).contains('?') by {
            match pat[k] {
                SegmentSpec::Literal(x) => {},
                SegmentSpec::Parameter(n) => lemma_encoded_avoids_query_mark(lookup(m, n)->0),
                SegmentSpec::OptionalParameter(n) => {
                    if lookup(m, n) is Some {
                        lemma_encoded_avoids_query_mark(lookup(m, n)->0);
                    }
                },
                SegmentSpec::Wildcard(n) => lemma_encoded_avoids_query_mark(lookup(m, n)->0),
            }
        }
        assert forall|i: int| 0 <= i < (head + tail).len() implies !(#[trigger] (head + tail)[i]).contains('?') by {
            if i < head.len() {
                assert((head + tail)[i] == head[i]);
            } else {
                assert((head + tail)[i] == tail[i - head.len()]);
            }
        }
    }
}

proof fn lemma_encoded_avoids_query_mark(v: Seq<char>)
    ensures
        !url_encoded(v).contains('?'),
{
    lemma_encode_bytes_avoid_mark(vstd::utf8::encode_utf8(v));
}

proof fn lemma_encode_bytes_avoid_mark(bs: Seq<u8>)
    ensures
        !crate::codec::encode_bytes(bs).contains('?'),
    decreases bs.len(),
{
    if bs.len() > 0 {
        lemma_encode_bytes_avoid_mark(bs.drop_first());
        let b = bs[0];
        let head = crate::codec::encode_byte(b);
        let tail = crate::codec::encode_bytes(bs.drop_first());
        assert(!head.contains('?')) by {
            if crate::codec::is_unreserved(b) {
                assert(head[0] == b as char);
            } else {
                assert(crate::codec::hex_digit(b / 16) != '?');
                assert(crate::codec::hex_digit(b % 16) != '?');
            }
        }
        assert(!(head + tail).contains('?')) by {
            if (head + tail).contains('?') {
                let i = choose|i: int| 0 <= i < (head + tail).len() && (head + tail)[i] == '?';
                if i < head.len() {
                    assert(head[i] == '?');
                } else {
                    assert(tail[i - head.len()] == '?');
                }
            }
        }
    }
}

proof fn lemma_join_avoids(e: Seq<Seq<char>>, sep: char, c: char)
    requires
        sep != c,
        forall|i: int| 0 <= i < e.len() ==> !(#[trigger] e[i]).contains(c),
    ensures
        !join(e, seq![sep]).contains(c),
    decreases e.len(),
{
    if e.len() == 1 {
        assert(join(e, seq![sep]) == e[0]);
    } else if e.len() > 1 {
        let d = e.drop_last();
        assert forall|i: int| 0 <= i < d.len() implies !(#[trigger] d[i]).contains(c) by {
            assert(d[i] == e[i]);
        }
        lemma_join_avoids(d, sep, c);
        let a = join(d, seq![sep]);
        let l = e.last();
        assert(!l.contains(c)) by {
            assert(e[e.len() - 1] == l);
        }
        let t = a + seq![sep] + l;
        if t.contains(c) {
            let i = choose|i: int| 0 <= i < t.len() && t[i] == c;
            if i < a.len() {
                assert(a[i] == c);
            } else if i > a.len() {
                assert(l[i - a.len() - 1] == c);
            }
        }
    }
}

/// Formatting a route value as a URL and parsing the URL gives the route
/// value back: for a compiled pattern whose literals hold no `?`, parameters
/// that fit it and query entries that fit, the URL that `format_route` gives
/// is the formatted path (already in normal form) followed by the query; the
/// path part matches the pattern with exactly the parameters (name by name),
/// and the query part parses to exactly the entries, so `parse_route` on it
/// gives back the route value.
pub proof fn lemma_url_round_trip(
    pattern: Seq<char>,
    m: Seq<(Seq<char>, Seq<char>)>,
    q: Seq<(Seq<char>, Seq<Seq<char>>)>,
)
    requires
        compiled(pattern) is Some,
        literals_without_query_mark(compiled(pattern)->0),
        fits(compiled(pattern)->0, m),
        query_fits(q),
    ensures
        formatted(compiled(pattern)->0, m) is Ok,
        ({
            let path = formatted(compiled(pattern)->0, m)->Ok_0;
            let url = crate::codec::normalized(path) + crate::formatter::with_prefix(query_text(q));
            &&& crate::codec::normalized(path) == path
            &&& path_part(url) == path
            &&& matched(compiled(pattern)->0, path_part(url)) is Ok
            &&& (forall|key: Seq<char>|
                #![auto]
                lookup(matched(compiled(pattern)->0, path_part(url))->Ok_0, key) == lookup(m, key))
            &&& query_parsed(query_part(url)) == Some(q)
        }),
{
    let pat = compiled(pattern)->0;
    lemma_path_round_trip(pattern, m);
    lemma_compiled_literals_plain(pattern);
    lemma_query_round_trip(q);
    assert forall|i: int|
        0 <= i < pat.len() implies match #[trigger] pat[i] {
            SegmentSpec::Parameter(n) => lookup(m, n) is Some,
            SegmentSpec::Wildcard(n) => lookup(m, n) is Some,
            _ => true,
        } by {}
    lemma_emitted_forward(pat, m);
    let e = emitted_from(pat, 0, m);
    lemma_emitted_plain(pat, 0, m);
    lemma_emitted_no_query_mark(pat, 0, m);
    lemma_segments_of_path_text(e);
    let path = path_text(e);
    assert(crate::codec::normalized(path) == path);
    let qt = query_text(q);
    let url = path + crate::formatter::with_prefix(qt);
    if e.len() > 0 {
        lemma_join_avoids(e, '/', '?');
    }
    assert(!path.contains('?')) by {
        if path.contains('?') {
            let i = choose|i: int| 0 <= i < path.len() && path[i] == '?';
            if i > 0 {
                assert(join(e, seq!['/'])[i - 1] == '?');
            }
        }
    }
    if qt.len() == 0 {
        assert(url =~= path);
        assert(!exists|i: int| is_first(url, '?', i)) by {
            if exists|i: int| is_first(url, '?', i) {
                let i = choose|i: int| is_first(url, '?', i);
                assert(path[i] == '?');
            }
        }
        assert(query_part(url) == Seq::<char>::empty());
        assert(query_text(q) =~= Seq::<char>::empty());
    } else {
        let n = path.len() as int;
        assert(url =~= path + seq!['?'] + qt);
        assert(is_first(url, '?', n)) by {
            assert(url[n] == '?');
            assert forall|j: int| 0 <= j < n implies url[j] != '?' by {
                assert(url[j] == path[j]);
            }
        }
        let i = choose|i: int| is_first(url, '?', i);
        assert(i == n) by {
            if i < n {
                assert(url[i] == path[i]);
            } else if n < i {
                assert(url[n] == '?');
            }
        }
        assert(url.take(n) =~= path);
        assert(url.skip(n + 1) =~= qt);
    }
}

} // verus!
