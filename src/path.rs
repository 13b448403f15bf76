//! Path patterns: compiling a pattern string, matching a path against it, and
//! formatting parameters back into a path.
use crate::codec::{
    join, path_segments, split_path_segments, url_decode, url_decoded, url_encode, url_encoded,
    views,
};
use crate::error::ParseError;
use crate::maps::{ParamMap, StrMap, lookup, put_entry};
use crate::text::{chars_of, owned, push_char, push_str};
use vstd::prelude::*;

verus! {

broadcast use vstd::string::group_string_axioms;

/// One segment of a compiled pattern.
#[derive(Debug, Clone, PartialEq, Eq)]
pub enum PathSegment {
    /// Matches exactly this text, e.g. `user`.
    Literal(String),
    /// Captures one segment under this name, e.g. `:id`.
    Parameter(String),
    /// Captures one segment under this name if there is one, e.g. `?:format`.
    OptionalParameter(String),
    /// Captures all remaining segments under this name, e.g. `*path`.
    Wildcard(String),
}

/// The mathematical content of a pattern segment.
pub enum SegmentSpec {
    Literal(Seq<char>),
    Parameter(Seq<char>),
    OptionalParameter(Seq<char>),
    Wildcard(Seq<char>),
}

impl View for PathSegment {
    type V = SegmentSpec;

    open spec fn view(&self) -> SegmentSpec {
        match self {
            PathSegment::Literal(t) => SegmentSpec::Literal(t@),
            PathSegment::Parameter(n) => SegmentSpec::Parameter(n@),
            PathSegment::OptionalParameter(n) => SegmentSpec::OptionalParameter(n@),
            PathSegment::Wildcard(n) => SegmentSpec::Wildcard(n@),
        }
    }
}

/// Whether `?:` occurs in `s` at `i`.
pub open spec fn mark_at(s: Seq<char>, i: int) -> bool {
    0 <= i && i + 1 < s.len() && s[i] == '?' && s[i + 1] == ':'
}

/// `s` is a compound segment `:name?:name2`: it starts with `:` and `?:` occurs
/// in it exactly once, at `i`.
pub open spec fn compound_at(s: Seq<char>, i: int) -> bool {
    s.len() > 0 && s[0] == ':' && mark_at(s, i) && forall|j: int| j != i ==> !mark_at(s, j)
}

/// A named segment, refused where the name is empty.
pub open spec fn named(name: Seq<char>, seg: SegmentSpec) -> Option<Seq<SegmentSpec>> {
    if name.len() == 0 {
        None
    } else {
        Some(seq![seg])
    }
}

/// The segments that one piece of a pattern compiles to, or `None` where a
/// parameter or wildcard has no name. Forms are tried in this order: `:a?:b`,
/// `*name`, `?:name`, `:name`, `{name}`, literal.
pub open spec fn classify(s: Seq<char>) -> Option<Seq<SegmentSpec>> {
    if exists|i: int| compound_at(s, i) {
        let i = choose|i: int| compound_at(s, i);
        let a = s.subrange(1, i);
        let b = s.skip(i + 2);
        if a.len() == 0 || b.len() == 0 {
            None
        } else {
            Some(seq![SegmentSpec::Parameter(a), SegmentSpec::OptionalParameter(b)])
        }
    } else if s.len() > 0 && s[0] == '*' {
        named(s.skip(1), SegmentSpec::Wildcard(s.skip(1)))
    } else if s.len() >= 2 && s[0] == '?' && s[1] == ':' {
        named(s.skip(2), SegmentSpec::OptionalParameter(s.skip(2)))
    } else if s.len() > 0 && s[0] == ':' {
        named(s.skip(1), SegmentSpec::Parameter(s.skip(1)))
    } else if s.len() >= 2 && s[0] == '{' && s.last() == '}' {
        let n = s.subrange(1, s.len() - 1);
        named(n, SegmentSpec::Parameter(n))
    } else {
        Some(seq![SegmentSpec::Literal(s)])
    }
}

/// The segments that a list of pattern pieces compiles to, in order.
pub open spec fn compile_pieces(ps: Seq<Seq<char>>) -> Option<Seq<SegmentSpec>>
    decreases ps.len(),
{
    if ps.len() == 0 {
        Some(seq![])
    } else {
        match (compile_pieces(ps.drop_last()), classify(ps.last())) {
            (Some(a), Some(b)) => Some(a + b),
            _ => None,
        }
    }
}

/// The compiled form of a pattern: its non-empty `/`-separated pieces,
/// classified in order.
pub open spec fn compiled(pattern: Seq<char>) -> Option<Seq<SegmentSpec>> {
    compile_pieces(path_segments(pattern))
}

/// The views of a list of segments.
pub open spec fn segment_views(v: Seq<PathSegment>) -> Seq<SegmentSpec> {
    v.map_values(|x: PathSegment| x@)
}

/// A compiled path pattern.
#[derive(Debug, Clone)]
pub struct PathParser {
    pattern: String,
    pattern_segments: Vec<PathSegment>,
}

/// Why a path does not match a pattern.
pub enum MatchFailure {
    /// The path has too few or too many segments.
    Count { expected: nat, actual: nat },
    /// A literal differs from the path's segment.
    Mismatch { expected: Seq<char>, actual: Seq<char>, position: nat },
    /// A required parameter has no segment.
    Missing(Seq<char>),
    /// A captured segment does not decode.
    Encoding,
}

/// Whether the error `e` reports the failure `f`.
pub open spec fn reports(e: ParseError, f: MatchFailure) -> bool {
    match f {
        MatchFailure::Count { expected, actual } => e is SegmentCountMismatch
            && e->SegmentCountMismatch_expected == expected && e->SegmentCountMismatch_actual
            == actual,
        MatchFailure::Mismatch { expected, actual, position } => e is SegmentMismatch
            && e->SegmentMismatch_expected@ == expected && e->SegmentMismatch_actual@ == actual
            && e->SegmentMismatch_position == position,
        MatchFailure::Missing(n) => e is MissingParameter && e->MissingParameter_0@ == n,
        MatchFailure::Encoding => e is UrlEncoding,
    }
}

/// Each segment decoded, or `None` where one does not decode.
pub open spec fn decode_all(ss: Seq<Seq<char>>) -> Option<Seq<Seq<char>>>
    decreases ss.len(),
{
    if ss.len() == 0 {
        Some(seq![])
    } else {
        match (decode_all(ss.drop_last()), url_decoded(ss.last())) {
            (Some(a), Some(b)) => Some(a.push(b)),
            _ => None,
        }
    }
}

/// Matching the pattern from its `k`-th segment against the path from its
/// `j`-th segment, with the parameters captured so far in `acc`. A literal
/// must equal the path's segment as it stands; a parameter decodes one
/// segment; an optional parameter does so where a segment remains; a wildcard
/// decodes every remaining segment and joins them with `/`. Segments left
/// over at the end are a count mismatch.
pub open spec fn match_from(
    pat: Seq<SegmentSpec>,
    k: int,
    segs: Seq<Seq<char>>,
    j: int,
    acc: Seq<(Seq<char>, Seq<char>)>,
) -> Result<Seq<(Seq<char>, Seq<char>)>, MatchFailure>
    decreases pat.len() - k,
{
    if k < 0 || k >= pat.len() {
        if j < segs.len() {
            Err(MatchFailure::Count { expected: pat.len(), actual: segs.len() })
        } else {
            Ok(acc)
        }
    } else {
        match pat[k] {
            SegmentSpec::Literal(x) => if j >= segs.len() {
                Err(MatchFailure::Count { expected: pat.len(), actual: segs.len() })
            } else if segs[j] != x {
                Err(MatchFailure::Mismatch { expected: x, actual: segs[j], position: k as nat })
            } else {
                match_from(pat, k + 1, segs, j + 1, acc)
            },
            SegmentSpec::Parameter(n) => if j >= segs.len() {
                Err(MatchFailure::Missing(n))
            } else {
                match url_decoded(segs[j]) {
                    Some(v) => match_from(pat, k + 1, segs, j + 1, put_entry(acc, n, v)),
                    None => Err(MatchFailure::Encoding),
                }
            },
            SegmentSpec::OptionalParameter(n) => if j < segs.len() {
                match url_decoded(segs[j]) {
                    Some(v) => match_from(pat, k + 1, segs, j + 1, put_entry(acc, n, v)),
                    None => Err(MatchFailure::Encoding),
                }
            } else {
                match_from(pat, k + 1, segs, j, acc)
            },
            SegmentSpec::Wildcard(n) => match decode_all(segs.subrange(j, segs.len() as int)) {
                Some(ds) => Ok(put_entry(acc, n, join(ds, seq!['/']))),
                None => Err(MatchFailure::Encoding),
            },
        }
    }
}

/// The parameters that matching a path against a compiled pattern yields.
pub open spec fn matched(pat: Seq<SegmentSpec>, path: Seq<char>) -> Result<
    Seq<(Seq<char>, Seq<char>)>,
    MatchFailure,
> {
    match_from(pat, 0, path_segments(path), 0, seq![])
}

proof fn lemma_decode_all_none(ss: Seq<Seq<char>>, i: int)
    requires
        0 <= i <= ss.len(),
        decode_all(ss.take(i)) is None,
    ensures
        decode_all(ss) is None,
    decreases ss.len() - i,
{
    if i < ss.len() {
        assert(ss.take(i + 1).drop_last() =~= ss.take(i));
        lemma_decode_all_none(ss, i + 1);
    } else {
        assert(ss.take(i) =~= ss);
    }
}

/// Decodes each segment and joins them with `/`.
fn decode_joined(ss: &Vec<&str>, from: usize) -> (r: Result<String, ParseError>)
    requires
        from <= ss@.len(),
    ensures
        match decode_all(views(ss@).subrange(from as int, ss@.len() as int)) {
            Some(ds) => r is Ok && r->Ok_0@ == join(ds, seq!['/']),
            None => r is Err && r->Err_0 is UrlEncoding,
        },
{
    let ghost rest = views(ss@).subrange(from as int, ss@.len() as int);
    let mut parts: Vec<String> = Vec::new();
    let mut t: usize = from;
    assert(rest.take(0) =~= Seq::<Seq<char>>::empty());
    while t < ss.len()
        invariant
            from <= t <= ss@.len(),
            rest == views(ss@).subrange(from as int, ss@.len() as int),
            decode_all(rest.take(t - from)) == Some(crate::codec::string_views(parts@)),
        decreases ss.len() - t,
    {
        assert(rest.take(t - from + 1).drop_last() =~= rest.take(t - from));
        assert(rest.take(t - from + 1).last() == ss@[t as int]@);
        match url_decode(ss[t]) {
            Ok(d) => {
                let ghost prev = crate::codec::string_views(parts@);
                parts.push(d);
                assert(crate::codec::string_views(parts@) =~= prev.push(d@));
            },
            Err(e) => {
                proof {
                    lemma_decode_all_none(rest, t - from + 1);
                }
                return Err(e);
            },
        }
        t = t + 1;
    }
    assert(rest.take(t - from) =~= rest);
    proof {
        reveal_strlit("/");
        assert("/"@ =~= seq!['/']);
    }
    Ok(crate::codec::join_strings(&parts, "/"))
}

impl PathParser {
    /// The pattern text.
    pub closed spec fn spec_pattern(&self) -> Seq<char> {
        self.pattern@
    }

    /// The compiled segments.
    pub closed spec fn spec_segments(&self) -> Seq<SegmentSpec> {
        segment_views(self.pattern_segments@)
    }

    /// Compiles `pattern`. Fails with `InvalidPath` exactly where a parameter,
    /// an optional parameter or a wildcard has an empty name.
    pub fn new(pattern: &str) -> (r: Result<PathParser, ParseError>)
        ensures
            match compiled(pattern@) {
                Some(segs) => r is Ok && r->Ok_0.spec_pattern() == pattern@
                    && r->Ok_0.spec_segments() == segs,
                None => r is Err && r->Err_0 is InvalidPath,
            },
    {
        let pattern_segments = Self::parse_pattern(pattern)?;
        Ok(PathParser { pattern: owned(pattern), pattern_segments })
    }

    fn parse_pattern(pattern: &str) -> (r: Result<Vec<PathSegment>, ParseError>)
        ensures
            match compiled(pattern@) {
                Some(segs) => r is Ok && segment_views(r->Ok_0@) == segs,
                None => r is Err && r->Err_0 is InvalidPath,
            },
    {
        let pieces = split_path_segments(pattern);
        let ghost ps = views(pieces@);
        let mut out: Vec<PathSegment> = Vec::new();
        assert(ps.take(0) =~= Seq::<Seq<char>>::empty());
        for i in 0..pieces.len()
            invariant
                ps == views(pieces@),
                ps == path_segments(pattern@),
                compile_pieces(ps.take(i as int)) == Some(segment_views(out@)),
        {
            let ghost prev = segment_views(out@);
            assert(ps.take(i + 1).drop_last() =~= ps.take(i as int));
            assert(ps.take(i + 1).last() == pieces@[i as int]@);
            match classify_piece(pieces[i]) {
                Some(v) => {
                    let mut v = v;
                    let ghost added = segment_views(v@);
                    out.append(&mut v);
                    assert(segment_views(out@) =~= prev + added);
                },
                None => {
                    proof {
                        lemma_compile_none(ps, i + 1);
                    }
                    return Err(ParseError::invalid_path("Parameter must have a name"));
                },
            }
        }
        assert(ps.take(pieces.len() as int) =~= ps);
        Ok(out)
    }
}

impl PathParser {
    /// Matches `path` against the pattern and returns the captured, decoded
    /// parameters; fails with the error that reports where it stops matching.
    pub fn match_path(&self, path: &str) -> (r: Result<ParamMap, ParseError>)
        ensures
            match matched(self.spec_segments(), path@) {
                Ok(e) => r is Ok && r->Ok_0@ == e && r->Ok_0.wf(),
                Err(f) => r is Err && reports(r->Err_0, f),
            },
    {
        let path_segments = split_path_segments(path);
        let ghost segs = views(path_segments@);
        let ghost pat = self.spec_segments();
        let mut params: ParamMap = StrMap::new();
        let mut j: usize = 0;
        let n = self.pattern_segments.len();
        for k in 0..n
            invariant
                n == pat.len(),
                pat == self.spec_segments(),
                segs == views(path_segments@),
                segs == crate::codec::path_segments(path@),
                j <= segs.len(),
                params.wf(),
                matched(pat, path@) == match_from(pat, k as int, segs, j as int, params@),
        {
            assert(pat[k as int] == self.pattern_segments@[k as int]@);
            match &self.pattern_segments[k] {
                PathSegment::Literal(expected) => {
                    if j >= path_segments.len() {
                        return Err(
                            ParseError::segment_count_mismatch(
                                self.pattern_segments.len(),
                                path_segments.len(),
                            ),
                        );
                    }
                    let actual = path_segments[j];
                    if !crate::maps::str_eq(actual, expected.as_str()) {
                        return Err(ParseError::segment_mismatch(expected.as_str(), actual, k));
                    }
                    j = j + 1;
                },
                PathSegment::Parameter(name) => {
                    if j >= path_segments.len() {
                        return Err(ParseError::missing_parameter(name.as_str()));
                    }
                    let value = url_decode(path_segments[j])?;
                    params.insert(name.clone(), value);
                    j = j + 1;
                },
                PathSegment::OptionalParameter(name) => {
                    if j < path_segments.len() {
                        let value = url_decode(path_segments[j])?;
                        params.insert(name.clone(), value);
                        j = j + 1;
                    }
                },
                PathSegment::Wildcard(name) => {
                    let value = decode_joined(&path_segments, j)?;
                    params.insert(name.clone(), value);
                    return Ok(params);
                },
            }
        }
        if j < path_segments.len() {
            return Err(
                ParseError::segment_count_mismatch(self.pattern_segments.len(), path_segments.len()),
            );
        }
        Ok(params)
    }
}

/// The segments that formatting emits for the pattern, or the name of the
/// first required parameter or wildcard that has no value. A literal emits its
/// text; a parameter, optional parameter or wildcard with a value emits the
/// value percent-encoded; an optional parameter without one emits nothing.
pub open spec fn emitted(pat: Seq<SegmentSpec>, m: Seq<(Seq<char>, Seq<char>)>) -> Result<
    Seq<Seq<char>>,
    Seq<char>,
>
    decreases pat.len(),
{
    if pat.len() == 0 {
        Ok(seq![])
    } else {
        match emitted(pat.drop_last(), m) {
            Err(n) => Err(n),
            Ok(out) => match pat.last() {
                SegmentSpec::Literal(x) => Ok(out.push(x)),
                SegmentSpec::Parameter(n) => match lookup(m, n) {
                    Some(v) => Ok(out.push(url_encoded(v))),
                    None => Err(n),
                },
                SegmentSpec::OptionalParameter(n) => match lookup(m, n) {
                    Some(v) => Ok(out.push(url_encoded(v))),
                    None => Ok(out),
                },
                SegmentSpec::Wildcard(n) => match lookup(m, n) {
                    Some(v) => Ok(out.push(url_encoded(v))),
                    None => Err(n),
                },
            },
        }
    }
}

/// The path that formatting yields: `/` followed by the emitted segments
/// joined with `/`.
pub open spec fn formatted(pat: Seq<SegmentSpec>, m: Seq<(Seq<char>, Seq<char>)>) -> Result<
    Seq<char>,
    Seq<char>,
> {
    match emitted(pat, m) {
        Ok(out) => Ok(seq!['/'] + join(out, seq!['/'])),
        Err(n) => Err(n),
    }
}

proof fn lemma_emitted_err(pat: Seq<SegmentSpec>, m: Seq<(Seq<char>, Seq<char>)>, i: int)
    requires
        0 <= i <= pat.len(),
        emitted(pat.take(i), m) is Err,
    ensures
        emitted(pat, m) == emitted(pat.take(i), m),
    decreases pat.len() - i,
{
    if i < pat.len() {
        assert(pat.take(i + 1).drop_last() =~= pat.take(i));
        lemma_emitted_err(pat, m, i + 1);
    } else {
        assert(pat.take(i) =~= pat);
    }
}

/// How many path segments the pattern consumes from the `j`-th on, leftover
/// segments allowed; fails as matching does where a literal differs or a
/// required parameter has no segment.
pub open spec fn consumed_from(pat: Seq<SegmentSpec>, k: int, segs: Seq<Seq<char>>, j: int) -> Result<
    int,
    MatchFailure,
>
    decreases pat.len() - k,
{
    if k < 0 || k >= pat.len() {
        Ok(j)
    } else {
        match pat[k] {
            SegmentSpec::Literal(x) => if j >= segs.len() {
                Err(MatchFailure::Count { expected: pat.len(), actual: segs.len() })
            } else if segs[j] != x {
                Err(MatchFailure::Mismatch { expected: x, actual: segs[j], position: k as nat })
            } else {
                consumed_from(pat, k + 1, segs, j + 1)
            },
            SegmentSpec::Parameter(n) => if j >= segs.len() {
                Err(MatchFailure::Missing(n))
            } else {
                consumed_from(pat, k + 1, segs, j + 1)
            },
            SegmentSpec::OptionalParameter(n) => if j < segs.len() {
                consumed_from(pat, k + 1, segs, j + 1)
            } else {
                consumed_from(pat, k + 1, segs, j)
            },
            SegmentSpec::Wildcard(n) => Ok(segs.len() as int),
        }
    }
}

/// Scanning `s` from `i` for the end of the `c`-th segment still to pass,
/// `inside` telling whether `i` lies within a segment: the position of the
/// `/` that ends it, or the end of `s`.
pub open spec fn end_scan(s: Seq<char>, c: nat, i: int, inside: bool) -> int
    decreases s.len() - i,
{
    if i < 0 || i >= s.len() {
        s.len() as int
    } else if s[i] == '/' {
        if inside {
            if c <= 1 {
                i
            } else {
                end_scan(s, (c - 1) as nat, i + 1, false)
            }
        } else {
            end_scan(s, c, i + 1, false)
        }
    } else {
        end_scan(s, c, i + 1, true)
    }
}

/// The position in `s` just past its `c`-th non-empty segment (0 for none;
/// the end of `s` where it has fewer).
pub open spec fn end_after(s: Seq<char>, c: nat) -> int {
    if c == 0 {
        0
    } else {
        end_scan(s, c, 0, false)
    }
}

impl PathParser {
    /// Formats the parameters into a path: `/` followed by the emitted
    /// segments joined with `/`. Fails with `MissingParameter` naming the first
    /// required parameter or wildcard without a value.
    pub fn format_path(&self, params: &ParamMap) -> (r: Result<String, ParseError>)
        requires
            params.wf(),
        ensures
            match formatted(self.spec_segments(), params@) {
                Ok(t) => r is Ok && r->Ok_0@ == t,
                Err(n) => r is Err && r->Err_0 is MissingParameter && r->Err_0->MissingParameter_0@
                    == n,
            },
    {
        let ghost pat = self.spec_segments();
        let mut segments: Vec<String> = Vec::new();
        let n = self.pattern_segments.len();
        assert(pat.take(0) =~= Seq::<SegmentSpec>::empty());
        assert(crate::codec::string_views(segments@) =~= Seq::<Seq<char>>::empty());
        for k in 0..n
            invariant
                n == pat.len(),
                pat == self.spec_segments(),
                params.wf(),
                emitted(pat.take(k as int), params@) == Ok::<Seq<Seq<char>>, Seq<char>>(
                    crate::codec::string_views(segments@),
                ),
        {
            let ghost prev = crate::codec::string_views(segments@);
            assert(pat.take(k + 1).drop_last() =~= pat.take(k as int));
            assert(pat.take(k + 1).last() == self.pattern_segments@[k as int]@);
            match &self.pattern_segments[k] {
                PathSegment::Literal(literal) => {
                    let t = literal.clone();
                    segments.push(t);
                    assert(crate::codec::string_views(segments@) =~= prev.push(t@));
                },
                PathSegment::Parameter(name) => {
                    match params.get(name.as_str()) {
                        Some(value) => {
                            let t = url_encode(value.as_str());
                            segments.push(t);
                            assert(crate::codec::string_views(segments@) =~= prev.push(t@));
                        },
                        None => {
                            proof {
                                lemma_emitted_err(pat, params@, k + 1);
                            }
                            return Err(ParseError::missing_parameter(name.as_str()));
                        },
                    }
                },
                PathSegment::OptionalParameter(name) => {
                    match params.get(name.as_str()) {
                        Some(value) => {
                            let t = url_encode(value.as_str());
                            segments.push(t);
                            assert(crate::codec::string_views(segments@) =~= prev.push(t@));
                        },
                        None => {},
                    }
                },
                PathSegment::Wildcard(name) => {
                    match params.get(name.as_str()) {
                        Some(value) => {
                            let t = url_encode(value.as_str());
                            segments.push(t);
                            assert(crate::codec::string_views(segments@) =~= prev.push(t@));
                        },
                        None => {
                            proof {
                                lemma_emitted_err(pat, params@, k + 1);
                            }
                            return Err(ParseError::missing_parameter(name.as_str()));
                        },
                    }
                },
            }
        }
        assert(pat.take(n as int) =~= pat);
        let mut r = String::new();
        push_char(&mut r, '/');
        let body = crate::codec::join_strings(&segments, "/");
        push_str(&mut r, body.as_str());
        proof {
            reveal_strlit("/");
            assert("/"@ =~= seq!['/']);
        }
        assert(r@ =~= seq!['/'] + join(crate::codec::string_views(segments@), seq!['/']));
        Ok(r)
    }

    /// How many leading characters of `path` (a path without query) the
    /// pattern consumes: the position just past the last segment it takes,
    /// leftover segments allowed. Fails as matching does where a literal
    /// differs or a required parameter has no segment.
    pub fn consumed_length(&self, path: &str) -> (r: Result<usize, ParseError>)
        ensures
            match consumed_from(self.spec_segments(), 0, path_segments(path@), 0) {
                Ok(c) => r is Ok && r->Ok_0 == end_after(path@, c as nat),
                Err(f) => r is Err && reports(r->Err_0, f),
            },
    {
        let path_segments = split_path_segments(path);
        let ghost segs = views(path_segments@);
        let ghost pat = self.spec_segments();
        let mut j: usize = 0;
        let n = self.pattern_segments.len();
        let mut k: usize = 0;
        while k < n
            invariant
                n == pat.len(),
                k <= n,
                pat == self.spec_segments(),
                segs == views(path_segments@),
                segs == crate::codec::path_segments(path@),
                j <= segs.len(),
                consumed_from(pat, 0, segs, 0) == consumed_from(pat, k as int, segs, j as int),
            decreases n - k,
        {
            assert(pat[k as int] == self.pattern_segments@[k as int]@);
            match &self.pattern_segments[k] {
                PathSegment::Literal(expected) => {
                    if j >= path_segments.len() {
                        return Err(
                            ParseError::segment_count_mismatch(
                                self.pattern_segments.len(),
                                path_segments.len(),
                            ),
                        );
                    }
                    let actual = path_segments[j];
                    if !crate::maps::str_eq(actual, expected.as_str()) {
                        return Err(ParseError::segment_mismatch(expected.as_str(), actual, k));
                    }
                    j = j + 1;
                },
                PathSegment::Parameter(name) => {
                    if j >= path_segments.len() {
                        return Err(ParseError::missing_parameter(name.as_str()));
                    }
                    j = j + 1;
                },
                PathSegment::OptionalParameter(_) => {
                    if j < path_segments.len() {
                        j = j + 1;
                    }
                },
                PathSegment::Wildcard(_) => {
                    j = path_segments.len();
                    k = n - 1;
                },
            }
            k = k + 1;
        }
        // the position just past the last consumed segment
        proof {
            lemma_consumed_nonneg(pat, 0, segs, 0);
        }
        if j == 0 {
            return Ok(0);
        }
        let cs = chars_of(path);
        let n = cs.len();
        let ghost goal = end_scan(path@, j as nat, 0, false);
        let mut c: usize = j;
        let mut i: usize = 0;
        let mut inside = false;
        while i < n
            invariant
                n == path@.len(),
                cs@ == path@,
                c >= 1,
                i <= n,
                goal == end_scan(path@, c as nat, i as int, inside),
                goal == end_after(path@, j as nat),
                j >= 1,
                consumed_from(pat, 0, segs, 0) == Ok::<int, MatchFailure>(j as int),
                pat == self.spec_segments(),
                segs == crate::codec::path_segments(path@),
            decreases n - i,
        {
            if cs[i] == '/' {
                if inside {
                    if c == 1 {
                        return Ok(i);
                    }
                    c = c - 1;
                }
                inside = false;
            } else {
                inside = true;
            }
            i = i + 1;
        }
        Ok(n)
    }
}






/// Whether the segment is a wildcard.
pub open spec fn is_wildcard(s: SegmentSpec) -> bool {
    s is Wildcard
}

/// The name of a parameter, optional parameter or wildcard segment.
pub open spec fn name_of(s: SegmentSpec) -> Option<Seq<char>> {
    match s {
        SegmentSpec::Literal(_) => None,
        SegmentSpec::Parameter(n) => Some(n),
        SegmentSpec::OptionalParameter(n) => Some(n),
        SegmentSpec::Wildcard(n) => Some(n),
    }
}

/// The names of the parameters, optional parameters and wildcards, in order.
pub open spec fn names_of(segs: Seq<SegmentSpec>) -> Seq<Seq<char>>
    decreases segs.len(),
{
    if segs.len() == 0 {
        seq![]
    } else {
        match name_of(segs.last()) {
            Some(n) => names_of(segs.drop_last()).push(n),
            None => names_of(segs.drop_last()),
        }
    }
}

impl PathParser {
    /// The pattern text.
    pub fn pattern(&self) -> (r: &str)
        ensures
            r@ == self.spec_pattern(),
    {
        self.pattern.as_str()
    }

    /// The compiled segments.
    pub fn segments(&self) -> (r: &[PathSegment])
        ensures
            segment_views(r@) == self.spec_segments(),
    {
        self.pattern_segments.as_slice()
    }

    /// Whether the pattern holds a wildcard.
    pub fn has_wildcard(&self) -> (r: bool)
        ensures
            r == exists|i: int| 0 <= i < self.spec_segments().len() && is_wildcard(
                self.spec_segments()[i],
            ),
    {
        let n = self.pattern_segments.len();
        for i in 0..n
            invariant
                n == self.spec_segments().len(),
                forall|j: int| 0 <= j < i ==> !is_wildcard(self.spec_segments()[j]),
        {
            assert(self.spec_segments()[i as int] == self.pattern_segments@[i as int]@);
            if let PathSegment::Wildcard(_) = &self.pattern_segments[i] {
                return true;
            }
        }
        false
    }

    /// The names of all parameters, optional parameters and wildcards, in order.
    pub fn parameter_names(&self) -> (r: Vec<&str>)
        ensures
            views(r@) == names_of(self.spec_segments()),
    {
        let ghost segs = self.spec_segments();
        let mut r: Vec<&str> = Vec::new();
        let n = self.pattern_segments.len();
        assert(segs.take(0) =~= Seq::<SegmentSpec>::empty());
        for i in 0..n
            invariant
                n == segs.len(),
                segs == self.spec_segments(),
                views(r@) == names_of(segs.take(i as int)),
        {
            let ghost prev = r@;
            assert(segs.take(i + 1).drop_last() =~= segs.take(i as int));
            assert(segs.take(i + 1).last() == self.pattern_segments@[i as int]@);
            match &self.pattern_segments[i] {
                PathSegment::Literal(_) => {},
                PathSegment::Parameter(name) | PathSegment::OptionalParameter(name)
                | PathSegment::Wildcard(name) => {
                    r.push(name.as_str());
                    assert(views(r@) =~= views(prev).push(name@));
                },
            }
        }
        assert(segs.take(n as int) =~= segs);
        r
    }
}

/// The parameter name a pattern piece declares: the rest of a piece that
/// starts with `:`, or the inside of a piece wrapped in `{ }`.
pub open spec fn declared_name(p: Seq<char>) -> Option<Seq<char>> {
    if p.len() > 0 && p[0] == ':' {
        Some(p.skip(1))
    } else if p.len() >= 2 && p[0] == '{' && p.last() == '}' {
        Some(p.subrange(1, p.len() - 1))
    } else {
        None
    }
}

/// The names that the pieces declare, in order.
pub open spec fn declared_names(ps: Seq<Seq<char>>) -> Seq<Seq<char>>
    decreases ps.len(),
{
    if ps.len() == 0 {
        seq![]
    } else {
        match declared_name(ps.last()) {
            Some(n) => declared_names(ps.drop_last()).push(n),
            None => declared_names(ps.drop_last()),
        }
    }
}

/// The parameter names written in a pattern as `:name` or `{name}`, piece by
/// piece between slashes.
pub fn extract_path_params(pattern: &str) -> (r: Vec<String>)
    ensures
        crate::codec::string_views(r@) == declared_names(crate::codec::pieces(pattern@, '/')),
{
    let ps = crate::codec::split_on(pattern, '/');
    let ghost all = views(ps@);
    let mut r: Vec<String> = Vec::new();
    assert(all.take(0) =~= Seq::<Seq<char>>::empty());
    for i in 0..ps.len()
        invariant
            all == views(ps@),
            all == crate::codec::pieces(pattern@, '/'),
            crate::codec::string_views(r@) == declared_names(all.take(i as int)),
    {
        let ghost prev = crate::codec::string_views(r@);
        assert(all.take(i + 1).drop_last() =~= all.take(i as int));
        assert(all.take(i + 1).last() == ps@[i as int]@);
        let piece = ps[i];
        let cs = chars_of(piece);
        let n = cs.len();
        if n > 0 && cs[0] == ':' {
            let name = piece.substring_char(1, n);
            assert(name@ =~= piece@.skip(1));
            r.push(owned(name));
            assert(crate::codec::string_views(r@) =~= prev.push(name@));
        } else if n >= 2 && cs[0] == '{' && cs[n - 1] == '}' {
            let name = piece.substring_char(1, n - 1);
            r.push(owned(name));
            assert(crate::codec::string_views(r@) =~= prev.push(name@));
        }
    }
    assert(all.take(ps@.len() as int) =~= all);
    r
}


proof fn lemma_consumed_nonneg(pat: Seq<SegmentSpec>, k: int, segs: Seq<Seq<char>>, j: int)
    requires
        0 <= j <= segs.len(),
    ensures
        consumed_from(pat, k, segs, j) matches Ok(c) ==> c >= j,
    decreases pat.len() - k,
{
    if 0 <= k < pat.len() {
        if j < segs.len() {
            lemma_consumed_nonneg(pat, k + 1, segs, j + 1);
        }
        lemma_consumed_nonneg(pat, k + 1, segs, j);
    }
}

proof fn lemma_compile_none(ps: Seq<Seq<char>>, i: int)
    requires
        0 <= i <= ps.len(),
        compile_pieces(ps.take(i)) is None,
    ensures
        compile_pieces(ps) is None,
    decreases ps.len() - i,
{
    if i < ps.len() {
        assert(ps.take(i + 1).drop_last() =~= ps.take(i));
        lemma_compile_none(ps, i + 1);
    } else {
        assert(ps.take(i) =~= ps);
    }
}

/// Classifies one piece of a pattern.
fn classify_piece(piece: &str) -> (r: Option<Vec<PathSegment>>)
    ensures
        match classify(piece@) {
            Some(segs) => r is Some && segment_views(r->Some_0@) == segs,
            None => r is None,
        },
{
    let cs = chars_of(piece);
    let n = cs.len();
    let ghost s = piece@;
    // the compound form `:a?:b`, with exactly one `?:`
    if n > 0 && cs[0] == ':' {
        let mut count: usize = 0;
        let mut at: usize = 0;
        let mut k: usize = 0;
        while k < n - 1
            invariant
                n == s.len(),
                n > 0,
                cs@ == s,
                count <= k,
                count == 0 ==> forall|j: int| 0 <= j < k ==> !mark_at(s, j),
                count == 1 ==> mark_at(s, at as int) && at < k && forall|j: int|
                    0 <= j < k && j != at ==> !mark_at(s, j),
                count >= 2 ==> exists|a: int, b: int| a != b && mark_at(s, a) && mark_at(s, b),
            decreases n - k,
        {
            if cs[k] == '?' && cs[k + 1] == ':' {
                if count == 1 {
                    assert(mark_at(s, at as int) && mark_at(s, k as int));
                }
                if count == 0 {
                    at = k;
                }
                count = if count < 2 {
                    count + 1
                } else {
                    2
                };
            }
            k = k + 1;
        }
        assert forall|j: int| j >= k implies !mark_at(s, j) by {}
        if count == 1 {
            assert(compound_at(s, at as int));
            proof {
                let i = choose|i: int| compound_at(s, i);
                assert(i == at);
            }
            let a = piece.substring_char(1, at);
            let b = piece.substring_char(at + 2, n);
            assert(b@ =~= s.skip(at + 2));
            if a.unicode_len() == 0 || b.unicode_len() == 0 {
                return None;
            }
            let mut v: Vec<PathSegment> = Vec::new();
            v.push(PathSegment::Parameter(owned(a)));
            v.push(PathSegment::OptionalParameter(owned(b)));
            assert(segment_views(v@) =~= seq![
                SegmentSpec::Parameter(a@),
                SegmentSpec::OptionalParameter(b@),
            ]);
            return Some(v);
        }
        assert(!exists|i: int| compound_at(s, i)) by {
            if exists|i: int| compound_at(s, i) {
                let i = choose|i: int| compound_at(s, i);
                if count == 0 {
                    assert(!mark_at(s, i));
                } else {
                    let (a, b) = choose|a: int, b: int| a != b && mark_at(s, a) && mark_at(s, b);
                    if a != i {
                        assert(!mark_at(s, a));
                    } else {
                        assert(!mark_at(s, b));
                    }
                }
            }
        }
    }
    assert(n > 0 && s[0] == ':' || !exists|i: int| compound_at(s, i));
    let seg = if n > 0 && cs[0] == '*' {
        let name = piece.substring_char(1, n);
        assert(name@ =~= s.skip(1));
        if n == 1 {
            return None;
        }
        PathSegment::Wildcard(owned(name))
    } else if n >= 2 && cs[0] == '?' && cs[1] == ':' {
        let name = piece.substring_char(2, n);
        assert(name@ =~= s.skip(2));
        if n == 2 {
            return None;
        }
        PathSegment::OptionalParameter(owned(name))
    } else if n > 0 && cs[0] == ':' {
        let name = piece.substring_char(1, n);
        assert(name@ =~= s.skip(1));
        if n == 1 {
            return None;
        }
        PathSegment::Parameter(owned(name))
    } else if n >= 2 && cs[0] == '{' && cs[n - 1] == '}' {
        let name = piece.substring_char(1, n - 1);
        if n == 2 {
            return None;
        }
        PathSegment::Parameter(owned(name))
    } else {
        PathSegment::Literal(owned(piece))
    };
    let mut v: Vec<PathSegment> = Vec::new();
    v.push(seg);
    assert(segment_views(v@) =~= seq![v@[0]@]);
    Some(v)
}

} // verus!
