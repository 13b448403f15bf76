//! Nested route resolution: route values, route matchers, and the rendering of
//! a resolved route as a tree.
use crate::codec::{path_part, query_of, split_path_query, string_views, views};
use crate::error::{ParseError, RouteState};
use crate::maps::QueryMap;
use crate::codec::{format_query_string, parse_query_string, query_parsed, query_text};
use crate::formatter::with_prefix;
use crate::maps::ParamMap;
use crate::path::{PathParser, SegmentSpec, compiled, formatted, matched, reports};
use crate::round_trip::query_part;
use crate::text::{contains_char, owned, push_char, push_str};
use vstd::prelude::*;

verus! {

broadcast use vstd::string::group_string_axioms;

/// A snapshot of a resolved route and its sub-routes, for inspection.
#[derive(Debug)]
pub struct RouteInfo {
    /// The route's pattern.
    pub pattern: &'static str,
    /// The route's formatted path and query.
    pub formatted: String,
    /// The resolved sub-route, if any.
    pub sub_route_info: Option<Box<RouteInfo>>,
}

/// A route value and what its sub-router resolved.
#[derive(Debug)]
pub struct NestedRouteResult<T> {
    /// The route of this level.
    pub current: T,
    /// The resolved sub-route, if any.
    pub sub_route_info: Option<Box<RouteInfo>>,
}

/// Taking a snapshot of a resolved route.
pub trait ToRouteInfo {
    /// The snapshot's pattern and formatted text. A type that does not
    /// describe them keeps this default, which callers cannot see into.
    closed spec fn info_view(&self) -> (Seq<char>, Seq<char>) {
        arbitrary()
    }

    /// The snapshot.
    fn to_route_info(&self) -> (r: RouteInfo)
        ensures
            r.pattern@ == self.info_view().0,
            r.formatted@ == self.info_view().1,
    ;
}

/// A closed choice among alternative routes, tried in declared order.
pub trait RouteMatcher: Sized + ToRouteInfo {
    /// The alternative that `try_parse` gives for a path, `None` where it
    /// fails. A type that does not describe it keeps this default, which
    /// callers cannot see into.
    closed spec fn try_parsed(path: Seq<char>) -> Option<Self> {
        arbitrary()
    }

    /// The text `format` gives (default: unseen, as above).
    closed spec fn format_view(&self) -> Seq<char> {
        arbitrary()
    }

    /// The patterns `patterns` gives (default: unseen, as above).
    closed spec fn patterns_view() -> Seq<Seq<char>> {
        arbitrary()
    }

    /// The first alternative, in declared order, that parses `path`.
    fn try_parse(path: &str) -> (r: Result<Self, ParseError>)
        ensures
            r is Ok <==> Self::try_parsed(path@) is Some,
            r is Ok ==> r->Ok_0 == Self::try_parsed(path@)->0,
    ;

    /// The held alternative's path and query.
    fn format(&self) -> (r: String)
        ensures
            r@ == self.format_view(),
    ;

    /// The pattern of every alternative, in declared order.
    fn patterns() -> (r: Vec<&'static str>)
        ensures
            views(r@) == Self::patterns_view(),
    ;

    /// Like `try_parse`, also handing back what follows the first
    /// `consumed_length` characters of `path`.
    fn try_parse_with_remaining(path: &str, consumed_length: usize) -> (r: Result<(Self, &str), ParseError>)
        ensures
            r is Ok <==> Self::try_parsed(path@) is Some,
            r is Ok ==> r->Ok_0.0 == Self::try_parsed(path@)->0 && r->Ok_0.1@ == path@.skip(
                clamp(consumed_length as int, path@.len() as int),
            ),
    {
        let route = Self::try_parse(path)?;
        let (_, remaining) = split_at_char(path, consumed_length);
        Ok((route, remaining))
    }

    /// The held route rendered as a tree, indented by `indent` levels; by
    /// default the snapshot's tree (`default_debug_of`).
    fn debug_format(&self, indent: usize) -> String {
        default_debug_of(self, indent)
    }
}

/// The sub-router of a route that has none: it parses nothing.
#[derive(Debug, Clone, PartialEq)]
pub struct NoSubRouter;

impl ToRouteInfo for NoSubRouter {
    open spec fn info_view(&self) -> (Seq<char>, Seq<char>) {
        (seq![], seq![])
    }

    fn to_route_info(&self) -> (r: RouteInfo) {
        let r = RouteInfo { pattern: "", formatted: String::new(), sub_route_info: None };
        proof {
            reveal_strlit("");
        }
        r
    }
}

impl RouteMatcher for NoSubRouter {
    open spec fn try_parsed(path: Seq<char>) -> Option<NoSubRouter> {
        None
    }

    open spec fn format_view(&self) -> Seq<char> {
        seq![]
    }

    open spec fn patterns_view() -> Seq<Seq<char>> {
        seq![]
    }

    fn try_parse(_path: &str) -> (r: Result<NoSubRouter, ParseError>) {
        Err(ParseError::invalid_path("No sub router available"))
    }

    fn format(&self) -> (r: String) {
        String::new()
    }

    fn patterns() -> (r: Vec<&'static str>) {
        let r: Vec<&'static str> = Vec::new();
        assert(views(r@) =~= Seq::<Seq<char>>::empty());
        r
    }

    fn debug_format(&self, indent: usize) -> String {
        let mut r = indentation(indent);
        push_str(&mut r, "NoSubRouter (empty)");
        r
    }
}

/// `c` where it is at most `n`, else `n`.
pub open spec fn clamp(c: int, n: int) -> int {
    if c < n {
        c
    } else {
        n
    }
}

/// A path followed by `?` and the query where there is one.
pub open spec fn with_query_text(path: Seq<char>, query: Option<Seq<char>>) -> Seq<char> {
    match query {
        Some(q) => path + seq!['?'] + q,
        None => path,
    }
}

/// The state of the sub-route for what remains: a leaf where nothing
/// remains; else what the matcher `M` parses, or a failure naming the
/// remainder and the patterns `M` tried.
pub open spec fn state_for<M: RouteMatcher>(st: RouteState<M>, rem: Seq<char>) -> bool {
    if rem.len() == 0 {
        st is NoSubRoute
    } else {
        match M::try_parsed(rem) {
            Some(s) => st == RouteState::SubRoute(s),
            None => st is ParseFailed && st->ParseFailed_remaining_path@ == rem && string_views(
                st->ParseFailed_attempted_patterns@,
            ) == M::patterns_view() && st->ParseFailed_closest_match is None,
        }
    }
}

/// A single route: one pattern, its own query, at most one sub-router.
pub trait RouterData: Sized {
    /// The matcher that resolves what follows this route's own path.
    type SubRouterMatch: RouteMatcher;

    /// The route `parse` gives for a path, `None` where it fails. A type that
    /// does not describe it keeps this default, which callers cannot see into.
    closed spec fn parsed(path: Seq<char>) -> Option<Self> {
        arbitrary()
    }

    /// The text `format` gives (default: unseen, as above).
    closed spec fn format_view(&self) -> Seq<char> {
        arbitrary()
    }

    /// The text `pattern` gives (default: unseen, as above).
    closed spec fn pattern_view() -> Seq<char> {
        arbitrary()
    }

    /// What `consumed_length` gives for a path, `None` where it fails. A type
    /// that does not describe it keeps this default, which callers cannot
    /// see into.
    closed spec fn consumed(path: Seq<char>) -> Option<nat> {
        arbitrary()
    }

    /// Parses this route's own path and query; looks at no sub-router.
    fn parse(path: &str) -> (r: Result<Self, ParseError>)
        ensures
            r is Ok <==> Self::parsed(path@) is Some,
            r is Ok ==> r->Ok_0 == Self::parsed(path@)->0,
    ;

    /// This route's own path, with its query where it is not empty.
    fn format(&self) -> (r: String)
        ensures
            r@ == self.format_view(),
    ;

    /// The route's path, with what a sub-router adds; by default `format`.
    fn format_sub_router(&self) -> String {
        self.format()
    }

    /// The route's pattern.
    fn pattern() -> (r: &'static str)
        ensures
            r@ == Self::pattern_view(),
    ;

    /// Parses this route from the part of `path` its pattern consumes (with
    /// the query), and hands the rest of the path to the sub-router.
    fn parse_with_sub(path: &str) -> (r: Result<(Self, RouteState<Self::SubRouterMatch>), ParseError>)
        ensures
            ({
                let p = path_part(path@);
                let k = clamp(Self::consumed(p)->0 as int, p.len() as int);
                let own = Self::parsed(with_query_text(p.take(k), query_of(path@)));
                &&& (r is Ok <==> Self::consumed(p) is Some && own is Some)
                &&& (r is Ok ==> r->Ok_0.0 == own->0 && state_for(r->Ok_0.1, p.skip(k)))
            }),
    {
        let (own_part, query_part) = split_path_query(path);
        let consumed = Self::consumed_length(own_part)?;
        let (own, remaining) = split_at_char(own_part, consumed);
        let own_path = with_query(own, query_part);
        proof {
            match query_part {
                Some(q) => assert(with_query_text(own@, query_of(path@)) == own_path@),
                None => assert(with_query_text(own@, query_of(path@)) == own_path@),
            }
        }
        let route = Self::parse(own_path.as_str())?;
        let state = sub_route_state::<Self::SubRouterMatch>(remaining);
        Ok((route, state))
    }

    /// This route's path followed by what the sub-route formats to.
    fn format_with_sub(&self, sub_route_state: &RouteState<Self::SubRouterMatch>) -> (r: String)
        ensures
            r@ == match sub_route_state {
                RouteState::SubRoute(s) => joined_path(self.format_view(), s.format_view()),
                _ => self.format_view(),
            },
    {
        let base_url = self.format();
        match sub_route_state {
            RouteState::SubRoute(sub) => {
                let sub_url = sub.format();
                join_sub_path(base_url.as_str(), sub_url.as_str())
            },
            _ => base_url,
        }
    }

    /// How many leading characters of `path` this route consumes. A leaf
    /// route consumes all of a path that it parses, as `parsed_length` gives.
    fn consumed_length(path: &str) -> (r: Result<usize, ParseError>)
        ensures
            r is Ok <==> Self::consumed(path@) is Some,
            r is Ok ==> r->Ok_0 == Self::consumed(path@)->0,
    ;

    /// Parses this route and takes a snapshot of its resolved sub-route.
    fn parse_recursive(path: &str) -> (r: Result<NestedRouteResult<Self>, ParseError>)
        ensures
            ({
                let p = path_part(path@);
                let k = clamp(Self::consumed(p)->0 as int, p.len() as int);
                let own = Self::parsed(with_query_text(p.take(k), query_of(path@)));
                &&& (r is Ok <==> Self::consumed(p) is Some && own is Some)
                &&& (r is Ok ==> r->Ok_0.current == own->0 && sub_info_for::<Self::SubRouterMatch>(
                    r->Ok_0.sub_route_info,
                    p.skip(k),
                ))
            }),
    {
        let (current, sub_route_state) = Self::parse_with_sub(path)?;
        let sub_route_info = info_of_state(sub_route_state);
        Ok(NestedRouteResult { current, sub_route_info })
    }

    /// Parses this route from the part of `full_path` that it consumes and
    /// hands back the rest.
    fn parse_from_full_path(full_path: &str) -> (r: Result<(NestedRouteResult<Self>, &str), ParseError>)
        ensures
            ({
                let k = clamp(Self::consumed(full_path@)->0 as int, full_path@.len() as int);
                let cur = full_path@.take(k);
                let p = path_part(cur);
                let d = clamp(Self::consumed(p)->0 as int, p.len() as int);
                let own = Self::parsed(with_query_text(p.take(d), query_of(cur)));
                &&& (r is Ok <==> Self::consumed(full_path@) is Some && Self::consumed(p) is Some
                    && own is Some)
                &&& (r is Ok ==> r->Ok_0.0.current == own->0 && r->Ok_0.1@ == full_path@.skip(k))
            }),
            r is Ok ==> full_path@ == full_path@.take(full_path@.len() - r->Ok_0.1@.len())
                + r->Ok_0.1@,
    {
        let consumed = Self::consumed_length(full_path)?;
        let (current_path, remaining_path) = split_at_char(full_path, consumed);
        let (current, sub_route_state) = Self::parse_with_sub(current_path)?;
        let sub_route_info = info_of_state(sub_route_state);
        let ghost c = clamp(consumed as int, full_path@.len() as int);
        assert(current_path@ == full_path@.take(c));
        assert(full_path@ =~= full_path@.take(c) + full_path@.skip(c));
        assert(full_path@.take(full_path@.len() - remaining_path@.len()) =~= full_path@.take(c));
        Ok((NestedRouteResult { current, sub_route_info }, remaining_path))
    }

    /// The names of the route's query parameters; by default none.
    fn query_keys() -> Vec<&'static str> {
        Vec::new()
    }
}

/// What a snapshot of the sub-route holds for what remains: the sub-route's
/// pattern and text where the matcher `M` parses the remainder, else nothing.
pub open spec fn sub_info_for<M: RouteMatcher>(info: Option<Box<RouteInfo>>, rem: Seq<char>) -> bool {
    match info {
        Some(i) => rem.len() > 0 && M::try_parsed(rem) is Some && i.pattern@ == M::try_parsed(
            rem,
        )->0.info_view().0 && i.formatted@ == M::try_parsed(rem)->0.info_view().1,
        None => rem.len() == 0 || M::try_parsed(rem) is None,
    }
}

/// The snapshot of a resolved sub-route, nothing for the other states.
pub fn info_of_state<M: RouteMatcher>(st: RouteState<M>) -> (r: Option<Box<RouteInfo>>)
    ensures
        match st {
            RouteState::SubRoute(s) => r is Some && r->0.pattern@ == s.info_view().0
                && r->0.formatted@ == s.info_view().1,
            _ => r is None,
        },
{
    match st {
        RouteState::SubRoute(sub) => Some(Box::new(sub.to_route_info())),
        _ => None,
    }
}

/// The consumed length of a leaf route: all of a path that it parses.
pub fn parsed_length<R: RouterData>(path: &str) -> (r: Result<usize, ParseError>)
    ensures
        r is Ok <==> R::parsed(path@) is Some,
        r is Ok ==> r->Ok_0 == path@.len(),
{
    let _route = R::parse(path)?;
    Ok(path.unicode_len())
}

/// The default rendering of a matcher: the tree of its snapshot.
pub fn default_debug_of<M: ToRouteInfo>(m: &M, indent: usize) -> (r: String)
    ensures
        r@ == default_tree(indent as nat, m.info_view().0, m.info_view().1),
{
    let info = m.to_route_info();
    default_debug(indent, info.pattern, info.formatted.as_str())
}

/// The literal text a path must start with to match the compiled pattern:
/// `/` and its leading literal segments joined with `/`.
pub open spec fn prefix_text(segs: Seq<SegmentSpec>) -> Seq<char> {
    seq!['/'] + crate::codec::join(PathParser::leading_literals(segs), seq!['/'])
}

/// Whether `s` begins with `prefix`.
pub open spec fn begins_with(s: Seq<char>, prefix: Seq<char>) -> bool {
    prefix.len() <= s.len() && s.take(prefix.len() as int) == prefix
}

/// Tries one alternative on `path`: nothing unless its pattern compiles and
/// the path starts with the pattern's literal prefix; then the route that
/// `parse_with_sub` gives, or failing that the one `parse` gives.
pub fn attempt<R: RouterData>(path: &str) -> (r: Option<R>)
    ensures
        r is Some ==> compiled(R::pattern_view()) is Some && begins_with(
            path@,
            prefix_text(compiled(R::pattern_view())->0),
        ) && (R::parsed(path@) == r || exists|c: int|
            0 <= c <= path_part(path@).len() && #[trigger] R::parsed(
                with_query_text(path_part(path@).take(c), query_of(path@)),
            ) == r),
        r is None ==> compiled(R::pattern_view()) is None || !begins_with(
            path@,
            prefix_text(compiled(R::pattern_view())->0),
        ) || R::parsed(path@) is None,
{
    let parser = match PathParser::new(R::pattern()) {
        Ok(p) => p,
        Err(_) => return None,
    };
    let prefix = parser.literal_prefix();
    if !starts_with(path, prefix.as_str()) {
        return None;
    }
    match R::parse_with_sub(path) {
        Ok((route, _)) => Some(route),
        Err(_) => match R::parse(path) {
            Ok(route) => Some(route),
            Err(_) => None,
        },
    }
}

/// The index of the first outcome that holds a value.
pub open spec fn first_some<T>(outcomes: Seq<Option<T>>) -> Option<int> {
    if exists|i: int| 0 <= i < outcomes.len() && outcomes[i] is Some {
        Some(choose|i: int| 0 <= i < outcomes.len() && outcomes[i] is Some && forall|j: int| 0 <= j < i ==> outcomes[j] is None)
    } else {
        None
    }
}

/// First match wins: the first outcome, in declared order, that holds a
/// route, with its index; where none does, `InvalidPath` with the message
/// `No matching route found for path: <path>`.
pub fn first_match<T>(path: &str, candidates: Vec<Option<T>>) -> (r: Result<(usize, T), ParseError>)
    ensures
        r is Ok ==> r->Ok_0.0 < candidates@.len(),
        r is Ok ==> candidates@[r->Ok_0.0 as int] == Some(r->Ok_0.1),
        r is Ok ==> forall|j: int| 0 <= j < r->Ok_0.0 ==> candidates@[j] is None,
        r is Err ==> (forall|j: int| 0 <= j < candidates@.len() ==> candidates@[j] is None)
            && r->Err_0 is InvalidPath && r->Err_0->InvalidPath_0@
            == "No matching route found for path: "@ + path@,
{
    let ghost all = candidates@;
    let mut outcomes = candidates;
    let n = outcomes.len();
    for i in 0..n
        invariant
            n == all.len(),
            outcomes@ == all,
            all == candidates@,
            forall|j: int| 0 <= j < i ==> all[j] is None,
    {
        if outcomes[i].is_some() {
            let removed = outcomes.remove(i);
            assert(removed == all[i as int]);
            match removed {
                Some(x) => {
                    assert(all[i as int] == Some(x));
                    assert(forall|j: int| 0 <= j < i ==> all[j] is None);
                    return Ok((i, x));
                },
                None => {},
            }
        }
    }
    let mut m = owned("No matching route found for path: ");
    push_str(&mut m, path);
    Err(ParseError::InvalidPath(m))
}

/// A route value as plain data: the values of its pattern's parameters and
/// the entries of its query. `lemma_url_round_trip` states that
/// `parse_route` gives back what `format_route` formatted.
#[derive(Debug, Clone)]
pub struct RouteValue {
    /// The path parameters.
    pub params: ParamMap,
    /// The query entries.
    pub query: QueryMap,
}

/// The URL of a route value: its path formatted by the pattern and
/// normalized, then `?` and its query where that is not empty. Fails with
/// `MissingParameter` as formatting the path does.
pub fn format_route(parser: &PathParser, value: &RouteValue) -> (r: Result<String, ParseError>)
    requires
        value.params.wf(),
        value.query.wf(),
    ensures
        match formatted(parser.spec_segments(), value.params@) {
            Ok(t) => r is Ok && r->Ok_0@ == crate::codec::normalized(t) + with_prefix(
                query_text(value.query@),
            ),
            Err(n) => r is Err && r->Err_0 is MissingParameter && r->Err_0->MissingParameter_0@ == n,
        },
{
    let path = parser.format_path(&value.params)?;
    let mut r = crate::codec::normalize_path(path.as_str());
    let query = format_query_string(&value.query);
    if !query.as_str().is_empty() {
        push_char(&mut r, '?');
        push_str(&mut r, query.as_str());
    }
    Ok(r)
}

/// Reads a route value from a URL: the path before the first `?` matched
/// against the pattern, the rest parsed as the query. Fails as matching does,
/// else as parsing the query does.
pub fn parse_route(parser: &PathParser, url: &str) -> (r: Result<RouteValue, ParseError>)
    ensures
        match matched(parser.spec_segments(), path_part(url@)) {
            Err(f) => r is Err && reports(r->Err_0, f),
            Ok(e) => match query_parsed(query_part(url@)) {
                Some(q) => r is Ok && r->Ok_0.params@ == e && r->Ok_0.query@ == q
                    && r->Ok_0.params.wf() && r->Ok_0.query.wf(),
                None => r is Err && r->Err_0 is UrlEncoding,
            },
        },
{
    let (path, query) = split_path_query(url);
    let params = parser.match_path(path)?;
    let text = match query {
        Some(q) => q,
        None => "",
    };
    proof {
        reveal_strlit("");
    }
    let query = parse_query_string(text)?;
    Ok(RouteValue { params, query })
}

/// Reading and writing a typed query.
pub trait Query: Sized {
    /// Parses a query string (without `?`).
    fn parse(query: &str) -> Result<Self, ParseError>;

    /// The query string (without `?`).
    fn format(&self) -> String;

    /// Reads the query from parsed entries.
    fn from_query_map(query_map: &QueryMap) -> Result<Self, ParseError>;

    /// The query string (without `?`).
    fn to_query_string(&self) -> String;

    /// The names of the query's parameters.
    fn query_keys() -> Vec<&'static str>;
}

/// Splits `s` after its first `n` characters (all of it where it is shorter).
pub fn split_at_char(s: &str, n: usize) -> (r: (&str, &str))
    ensures
        r.0@ == s@.take(clamp(n as int, s@.len() as int)),
        r.1@ == s@.skip(clamp(n as int, s@.len() as int)),
{
    let len = s.unicode_len();
    let k = if n < len {
        n
    } else {
        len
    };
    let a = s.substring_char(0, k);
    let b = s.substring_char(k, len);
    assert(s@.subrange(0, k as int) =~= s@.take(k as int));
    assert(s@.subrange(k as int, len as int) =~= s@.skip(k as int));
    (a, b)
}

/// A path followed by `?` and the query where there is one.
pub fn with_query(path: &str, query: Option<&str>) -> (r: String)
    ensures
        r@ == with_query_text(
            path@,
            match query {
                Some(q) => Some(q@),
                None => None,
            },
        ),
{
    let mut r = owned(path);
    match query {
        Some(q) => {
            push_char(&mut r, '?');
            push_str(&mut r, q);
        },
        None => {},
    }
    r
}

/// The state that resolving `remaining` with the matcher `M` gives: a leaf
/// where nothing remains; else the alternative `M` parses, or a failure that
/// names the remaining path and the patterns `M` tried.
pub fn sub_route_state<M: RouteMatcher>(remaining: &str) -> (r: RouteState<M>)
    ensures
        state_for(r, remaining@),
{
    if remaining.is_empty() {
        RouteState::NoSubRoute
    } else {
        match M::try_parse(remaining) {
            Ok(sub) => RouteState::SubRoute(sub),
            Err(_) => {
                let patterns = M::patterns();
                let mut attempted: Vec<String> = Vec::new();
                for i in 0..patterns.len()
                    invariant
                        string_views(attempted@) == views(patterns@).take(i as int),
                {
                    let ghost prev = string_views(attempted@);
                    let t = owned(patterns[i]);
                    attempted.push(t);
                    assert(string_views(attempted@) =~= prev.push(t@));
                    assert(views(patterns@).take(i + 1) =~= views(patterns@).take(i as int).push(
                        patterns@[i as int]@,
                    ));
                }
                assert(views(patterns@).take(patterns@.len() as int) =~= views(patterns@));
                RouteState::ParseFailed {
                    remaining_path: owned(remaining),
                    attempted_patterns: attempted,
                    closest_match: None,
                }
            },
        }
    }
}

/// `s` without its trailing slashes.
pub open spec fn trim_trailing_slashes(s: Seq<char>) -> Seq<char>
    decreases s.len(),
{
    if s.len() > 0 && s.last() == '/' {
        trim_trailing_slashes(s.drop_last())
    } else {
        s
    }
}

/// A route's path joined with its sub-route's: the base without trailing
/// slashes, then the sub-route; the base alone where the sub-route is empty.
pub open spec fn joined_path(base: Seq<char>, sub: Seq<char>) -> Seq<char> {
    if sub.len() == 0 {
        base
    } else {
        trim_trailing_slashes(base) + sub
    }
}

/// Joins a route's path with its sub-route's.
pub fn join_sub_path(base: &str, sub: &str) -> (r: String)
    ensures
        r@ == joined_path(base@, sub@),
{
    if sub.is_empty() {
        return owned(base);
    }
    let cs = crate::text::chars_of(base);
    let mut end: usize = cs.len();
    assert(base@.take(end as int) =~= base@);
    while end > 0 && cs[end - 1] == '/'
        invariant
            end <= cs@.len(),
            cs@ == base@,
            trim_trailing_slashes(base@) == trim_trailing_slashes(base@.take(end as int)),
        decreases end,
    {
        assert(base@.take(end as int).drop_last() =~= base@.take(end - 1));
        end = end - 1;
    }
    let mut r = owned(base.substring_char(0, end));
    assert(base@.subrange(0, end as int) =~= base@.take(end as int));
    push_str(&mut r, sub);
    r
}

/// Two spaces for each level.
pub open spec fn indent_of(n: nat) -> Seq<char> {
    Seq::new(2 * n, |i: int| ' ')
}

/// Two spaces for each level.
pub fn indentation(n: usize) -> (r: String)
    ensures
        r@ == indent_of(n as nat),
{
    let mut r = String::new();
    for i in 0..n
        invariant
            r@ == indent_of(i as nat),
    {
        push_char(&mut r, ' ');
        push_char(&mut r, ' ');
        assert(r@ =~= indent_of((i + 1) as nat));
    }
    r
}

/// The rendering of a route that only knows its pattern and formatted text.
pub open spec fn default_tree(indent: nat, pattern: Seq<char>, formatted: Seq<char>) -> Seq<char> {
    let ind = indent_of(indent);
    ind + "RouterMatch\n"@ + ind + "├─ Pattern: "@ + pattern + "\n"@ + ind + "└─ Formatted: "@
        + formatted
}

/// Renders a route that only knows its pattern and formatted text.
pub fn default_debug(indent: usize, pattern: &str, formatted: &str) -> (r: String)
    ensures
        r@ == default_tree(indent as nat, pattern@, formatted@),
{
    let ind = indentation(indent);
    let mut r = ind.clone();
    push_str(&mut r, "RouterMatch\n");
    push_str(&mut r, ind.as_str());
    push_str(&mut r, "├─ Pattern: ");
    push_str(&mut r, pattern);
    push_str(&mut r, "\n");
    push_str(&mut r, ind.as_str());
    push_str(&mut r, "└─ Formatted: ");
    push_str(&mut r, formatted);
    r
}

/// One node of the rendered tree: the alternative's name, its pattern, its
/// formatted text, its query keys where the text holds a query (`∅` where it
/// declares none), then the rendered sub-tree under `Sub:` or the leaf mark.
pub open spec fn tree_node(
    indent: nat,
    name: Seq<char>,
    pattern: Seq<char>,
    formatted: Seq<char>,
    query_keys: Seq<Seq<char>>,
    sub_tree: Option<Seq<char>>,
) -> Seq<char> {
    let ind = indent_of(indent);
    let head = ind + name + "\n"@ + ind + "├─ Pattern: "@ + pattern + "\n"@ + ind
        + "├─ Formatted: "@ + formatted;
    let query = if formatted.contains('?') {
        if query_keys.len() > 0 {
            "\n"@ + ind + "├─ Query: "@ + crate::codec::join(query_keys, ", "@)
        } else {
            "\n"@ + ind + "├─ Query: ∅"@
        }
    } else {
        seq![]
    };
    let tail = match sub_tree {
        Some(t) => "\n"@ + ind + "└─ Sub:"@ + "\n"@ + t,
        None => "\n"@ + ind + "└─ ◉"@,
    };
    head + query + tail
}


/// Renders one node of the tree of a resolved route.
pub fn debug_node(
    indent: usize,
    name: &str,
    pattern: &str,
    formatted: &str,
    query_keys: &Vec<&str>,
    sub_tree: Option<&str>,
) -> (r: String)
    ensures
        r@ == tree_node(
            indent as nat,
            name@,
            pattern@,
            formatted@,
            views(query_keys@),
            match sub_tree {
                Some(t) => Some(t@),
                None => None,
            },
        ),
{
    let ind = indentation(indent);
    let mut r = ind.clone();
    push_str(&mut r, name);
    push_str(&mut r, "\n");
    push_str(&mut r, ind.as_str());
    push_str(&mut r, "├─ Pattern: ");
    push_str(&mut r, pattern);
    push_str(&mut r, "\n");
    push_str(&mut r, ind.as_str());
    push_str(&mut r, "├─ Formatted: ");
    push_str(&mut r, formatted);
    if contains_char(formatted, '?') {
        push_str(&mut r, "\n");
        push_str(&mut r, ind.as_str());
        if query_keys.len() > 0 {
            push_str(&mut r, "├─ Query: ");
            let keys = crate::codec::join_strs(query_keys, ", ");
            push_str(&mut r, keys.as_str());
        } else {
            push_str(&mut r, "├─ Query: ∅");
        }
    }
    push_str(&mut r, "\n");
    push_str(&mut r, ind.as_str());
    match sub_tree {
        Some(t) => {
            push_str(&mut r, "└─ Sub:");
            push_str(&mut r, "\n");
            push_str(&mut r, t);
        },
        None => {
            push_str(&mut r, "└─ ◉");
        },
    }
    r
}

impl PathParser {
    /// The literal segments before the first parameter, optional parameter or
    /// wildcard.
    pub open spec fn leading_literals(segs: Seq<SegmentSpec>) -> Seq<Seq<char>>
        decreases segs.len(),
    {
        if segs.len() == 0 {
            seq![]
        } else {
            match segs[0] {
                SegmentSpec::Literal(t) => seq![t] + Self::leading_literals(segs.drop_first()),
                _ => seq![],
            }
        }
    }

    /// The literal text a path must start with to match: `/` and the
    /// literal segments before the first parameter, joined with `/`.
    pub fn literal_prefix(&self) -> (r: String)
        ensures
            r@ == seq!['/'] + crate::codec::join(
                Self::leading_literals(self.spec_segments()),
                seq!['/'],
            ),
    {
        let segs = self.segments();
        let ghost all = self.spec_segments();
        let mut parts: Vec<String> = Vec::new();
        let mut i: usize = 0;
        let mut stop = false;
        assert(all.skip(0) =~= all);
        assert(crate::codec::string_views(parts@) + Self::leading_literals(all) =~= Self::leading_literals(all));
        while i < segs.len() && !stop
            invariant
                i <= segs@.len(),
                crate::path::segment_views(segs@) == all,
                !stop ==> Self::leading_literals(all) == crate::codec::string_views(parts@)
                    + Self::leading_literals(all.skip(i as int)),
                stop ==> Self::leading_literals(all) == crate::codec::string_views(parts@),
            decreases segs.len() - i,
        {
            assert(all.skip(i as int)[0] == segs@[i as int]@);
            assert(all.skip(i as int).drop_first() =~= all.skip(i + 1));
            match &segs[i] {
                crate::path::PathSegment::Literal(t) => {
                    let ghost prev = crate::codec::string_views(parts@);
                    parts.push(t.clone());
                    assert(crate::codec::string_views(parts@) =~= prev.push(t@));
                    assert(prev + (seq![t@] + Self::leading_literals(all.skip(i + 1)))
                        =~= prev.push(t@) + Self::leading_literals(all.skip(i + 1)));
                },
                _ => {
                    assert(crate::codec::string_views(parts@) + Self::leading_literals(
                        all.skip(i as int),
                    ) =~= crate::codec::string_views(parts@));
                    stop = true;
                },
            }
            i = i + 1;
        }
        proof {
            if !stop {
                assert(all.skip(i as int).len() == 0);
                assert(crate::codec::string_views(parts@) + Self::leading_literals(all.skip(i as int))
                    =~= crate::codec::string_views(parts@));
            }
            reveal_strlit("/");
            assert("/"@ =~= seq!['/']);
        }
        let mut r = String::new();
        push_char(&mut r, '/');
        let body = crate::codec::join_strings(&parts, "/");
        push_str(&mut r, body.as_str());
        r
    }
}

/// Whether `s` begins with `prefix`.
pub fn starts_with(s: &str, prefix: &str) -> (r: bool)
    ensures
        r == (prefix@.len() <= s@.len() && s@.take(prefix@.len() as int) == prefix@),
{
    let a = crate::text::chars_of(s);
    let b = crate::text::chars_of(prefix);
    if b.len() > a.len() {
        return false;
    }
    for i in 0..b.len()
        invariant
            a@ == s@,
            b@ == prefix@,
            b@.len() <= a@.len(),
            forall|j: int| 0 <= j < i ==> a@[j] == b@[j],
    {
        if a[i] != b[i] {
            assert(s@.take(prefix@.len() as int)[i as int] != prefix@[i as int]);
            return false;
        }
    }
    assert(s@.take(prefix@.len() as int) =~= prefix@);
    true
}

} // verus!
