//! Errors of parsing and the outcome of resolving one more nesting level.
use crate::codec::{join, join_strings, string_views};
use crate::text::{decimal, owned, push_str, usize_to_string};
use vstd::prelude::*;

verus! {

/// Why a path, a query string or a parameter could not be read.
#[derive(Debug, Clone, PartialEq, Eq)]
pub enum ParseError {
    /// The path or the pattern is malformed, or no route matched.
    InvalidPath(String),
    /// A required parameter has no value.
    MissingParameter(String),
    /// A value could not be converted to the requested type.
    TypeConversion(String),
    /// A query parameter is malformed.
    InvalidQuery(String),
    /// A percent escape is malformed or the decoded bytes are not UTF-8.
    UrlEncoding(String),
    /// The path has more or fewer segments than the pattern.
    SegmentCountMismatch { expected: usize, actual: usize },
    /// A literal segment of the pattern differs from the path.
    SegmentMismatch { expected: String, actual: String, position: usize },
}

/// Result of a parse.
pub type ParseResult<T> = Result<T, ParseError>;

impl ParseError {
    /// The human-readable message of this error.
    pub open spec fn message(&self) -> Seq<char> {
        match self {
            ParseError::InvalidPath(m) => "Invalid path: "@ + m@,
            ParseError::MissingParameter(p) => "Missing required parameter: "@ + p@,
            ParseError::TypeConversion(m) => "Type conversion error: "@ + m@,
            ParseError::InvalidQuery(m) => "Invalid query parameter: "@ + m@,
            ParseError::UrlEncoding(m) => "URL encoding error: "@ + m@,
            ParseError::SegmentCountMismatch { expected, actual } => "Path segment count mismatch: expected "@
                + decimal(*expected as nat) + " segments, found "@ + decimal(*actual as nat),
            ParseError::SegmentMismatch { expected, actual, position } => "Path segment mismatch at position "@
                + decimal(*position as nat) + ": expected '"@ + expected@ + "', found '"@ + actual@
                + "'"@,
        }
    }

    /// Renders the error as text.
    pub fn to_string(&self) -> (r: String)
        ensures
            r@ == self.message(),
    {
        let mut r = String::new();
        match self {
            ParseError::InvalidPath(m) => {
                push_str(&mut r, "Invalid path: ");
                push_str(&mut r, m.as_str());
            },
            ParseError::MissingParameter(p) => {
                push_str(&mut r, "Missing required parameter: ");
                push_str(&mut r, p.as_str());
            },
            ParseError::TypeConversion(m) => {
                push_str(&mut r, "Type conversion error: ");
                push_str(&mut r, m.as_str());
            },
            ParseError::InvalidQuery(m) => {
                push_str(&mut r, "Invalid query parameter: ");
                push_str(&mut r, m.as_str());
            },
            ParseError::UrlEncoding(m) => {
                push_str(&mut r, "URL encoding error: ");
                push_str(&mut r, m.as_str());
            },
            ParseError::SegmentCountMismatch { expected, actual } => {
                push_str(&mut r, "Path segment count mismatch: expected ");
                let e = usize_to_string(*expected);
                push_str(&mut r, e.as_str());
                push_str(&mut r, " segments, found ");
                let a = usize_to_string(*actual);
                push_str(&mut r, a.as_str());
            },
            ParseError::SegmentMismatch { expected, actual, position } => {
                push_str(&mut r, "Path segment mismatch at position ");
                let p = usize_to_string(*position);
                push_str(&mut r, p.as_str());
                push_str(&mut r, ": expected '");
                push_str(&mut r, expected.as_str());
                push_str(&mut r, "', found '");
                push_str(&mut r, actual.as_str());
                push_str(&mut r, "'");
            },
        }
        r
    }

    /// An `InvalidPath` error with the given message.
    pub fn invalid_path(msg: &str) -> (r: ParseError)
        ensures
            r is InvalidPath && r->InvalidPath_0@ == msg@,
    {
        ParseError::InvalidPath(msg.to_string())
    }

    /// A `MissingParameter` error naming the given parameter.
    pub fn missing_parameter(param: &str) -> (r: ParseError)
        ensures
            r is MissingParameter && r->MissingParameter_0@ == param@,
    {
        ParseError::MissingParameter(param.to_string())
    }

    /// A `TypeConversion` error with the given message.
    pub fn type_conversion(msg: &str) -> (r: ParseError)
        ensures
            r is TypeConversion && r->TypeConversion_0@ == msg@,
    {
        ParseError::TypeConversion(msg.to_string())
    }

    /// An `InvalidQuery` error with the given message.
    pub fn invalid_query(msg: &str) -> (r: ParseError)
        ensures
            r is InvalidQuery && r->InvalidQuery_0@ == msg@,
    {
        ParseError::InvalidQuery(msg.to_string())
    }

    /// A `UrlEncoding` error with the given message.
    pub fn url_encoding(msg: &str) -> (r: ParseError)
        ensures
            r is UrlEncoding && r->UrlEncoding_0@ == msg@,
    {
        ParseError::UrlEncoding(msg.to_string())
    }

    /// A `SegmentCountMismatch` error.
    pub fn segment_count_mismatch(expected: usize, actual: usize) -> (r: ParseError)
        ensures
            r == (ParseError::SegmentCountMismatch { expected, actual }),
    {
        ParseError::SegmentCountMismatch { expected, actual }
    }

    /// A `SegmentMismatch` error.
    pub fn segment_mismatch(expected: &str, actual: &str, position: usize) -> (r: ParseError)
        ensures
            r is SegmentMismatch && r->SegmentMismatch_expected@ == expected@
                && r->SegmentMismatch_actual@ == actual@ && r->SegmentMismatch_position == position,
    {
        ParseError::SegmentMismatch { expected: expected.to_string(), actual: actual.to_string(), position }
    }
}

/// The outcome of resolving one more nesting level.
#[derive(Debug, Clone, PartialEq)]
pub enum RouteState<T> {
    /// A leaf: nothing follows this route.
    NoSubRoute,
    /// The sub-router resolved the rest of the path.
    SubRoute(T),
    /// The sub-router could not resolve the rest of the path.
    ParseFailed {
        /// The path left for the sub-router.
        remaining_path: String,
        /// The patterns the sub-router tried.
        attempted_patterns: Vec<String>,
        /// The nearest candidate, where one is known.
        closest_match: Option<ClosestMatch>,
    },
}

/// The nearest candidate of a failed resolution.
#[derive(Debug, Clone, PartialEq)]
pub struct ClosestMatch {
    /// The candidate's pattern.
    pub pattern: String,
    /// How many characters it matched.
    pub matched_length: usize,
    /// Why it failed.
    pub failure_reason: String,
}

/// What is known of a failed resolution, for reports.
#[derive(Debug, Clone, PartialEq)]
pub struct RouteDebugInfo {
    /// The nesting level that failed.
    pub failed_at_level: usize,
    /// The part of the path resolved before the failure.
    pub consumed_path: String,
    /// The part of the path that was not resolved.
    pub remaining_path: String,
    /// The patterns that were available there.
    pub available_routes: Vec<String>,
    /// A hint for the author.
    pub suggestion: Option<String>,
}

impl ClosestMatch {
    /// A record of the nearest candidate.
    pub fn new(pattern: &str, matched_length: usize, failure_reason: &str) -> (r: ClosestMatch)
        ensures
            r.pattern@ == pattern@,
            r.matched_length == matched_length,
            r.failure_reason@ == failure_reason@,
    {
        ClosestMatch { pattern: owned(pattern), matched_length, failure_reason: owned(failure_reason) }
    }

    /// The hint that this candidate gives.
    pub open spec fn hint(&self) -> Seq<char> {
        "Did you mean '"@ + self.pattern@ + "'? (matched "@ + decimal(self.matched_length as nat)
            + " characters, failed because: "@ + self.failure_reason@ + ")"@
    }

    /// Renders the hint.
    pub fn to_hint(&self) -> (r: String)
        ensures
            r@ == self.hint(),
    {
        let mut r = owned("Did you mean '");
        push_str(&mut r, self.pattern.as_str());
        push_str(&mut r, "'? (matched ");
        let n = usize_to_string(self.matched_length);
        push_str(&mut r, n.as_str());
        push_str(&mut r, " characters, failed because: ");
        push_str(&mut r, self.failure_reason.as_str());
        push_str(&mut r, ")");
        r
    }
}

impl<T> RouteState<T> {
    /// The leaf state.
    pub fn no_sub_route() -> (r: RouteState<T>)
        ensures
            r is NoSubRoute,
    {
        RouteState::NoSubRoute
    }

    /// The state of a resolved sub-route.
    pub fn sub_route(sub_router: T) -> (r: RouteState<T>)
        ensures
            r == RouteState::SubRoute(sub_router),
    {
        RouteState::SubRoute(sub_router)
    }

    /// The state of a failed sub-route.
    pub fn parse_failed(
        remaining_path: &str,
        attempted_patterns: Vec<String>,
        closest_match: Option<ClosestMatch>,
    ) -> (r: RouteState<T>)
        ensures
            r is ParseFailed,
            r->ParseFailed_remaining_path@ == remaining_path@,
            r->ParseFailed_attempted_patterns == attempted_patterns,
            r->ParseFailed_closest_match == closest_match,
    {
        RouteState::ParseFailed { remaining_path: owned(remaining_path), attempted_patterns, closest_match }
    }

    /// Whether this is the leaf state.
    pub fn is_no_sub_route(&self) -> (r: bool)
        ensures
            r == self is NoSubRoute,
    {
        matches!(self, RouteState::NoSubRoute)
    }

    /// Whether a sub-route was resolved.
    pub fn is_sub_route(&self) -> (r: bool)
        ensures
            r == self is SubRoute,
    {
        matches!(self, RouteState::SubRoute(_))
    }

    /// Whether the sub-route failed.
    pub fn is_parse_failed(&self) -> (r: bool)
        ensures
            r == self is ParseFailed,
    {
        matches!(self, RouteState::ParseFailed { .. })
    }

    /// The resolved sub-route, if any.
    pub fn as_sub_route(&self) -> (r: Option<&T>)
        ensures
            match self {
                RouteState::SubRoute(t) => r == Some(t),
                _ => r is None,
            },
    {
        match self {
            RouteState::SubRoute(sub) => Some(sub),
            _ => None,
        }
    }

    /// The resolved sub-route, if any, to change in place.
    pub fn as_sub_route_mut(&mut self) -> (r: Option<&mut T>)
        ensures
            match *old(self) {
                RouteState::SubRoute(t) => r is Some && *r->0 == t && *final(self)
                    == RouteState::SubRoute(*final(r->0)),
                _ => r is None && *final(self) == *old(self),
            },
    {
        match self {
            RouteState::SubRoute(sub) => Some(sub),
            _ => None,
        }
    }

    /// The resolved sub-route, if any, as `Option`.
    pub fn into_option(self) -> (r: Option<T>)
        ensures
            match self {
                RouteState::SubRoute(t) => r == Some(t),
                _ => r is None,
            },
    {
        match self {
            RouteState::SubRoute(sub) => Some(sub),
            _ => None,
        }
    }

    /// `SubRoute` for `Some`, the leaf state for `None`.
    pub fn from_option(option: Option<T>) -> (r: RouteState<T>)
        ensures
            match option {
                Some(t) => r == RouteState::SubRoute(t),
                None => r is NoSubRoute,
            },
    {
        match option {
            Some(sub) => RouteState::SubRoute(sub),
            None => RouteState::NoSubRoute,
        }
    }

    /// Applies `f` to the resolved sub-route; the other states carry over.
    pub fn map<U, F: FnOnce(T) -> U>(self, f: F) -> (r: RouteState<U>)
        requires
            self matches RouteState::SubRoute(t) ==> f.requires((t,)),
        ensures
            match self {
                RouteState::NoSubRoute => r is NoSubRoute,
                RouteState::SubRoute(t) => r is SubRoute && f.ensures((t,), r->SubRoute_0),
                RouteState::ParseFailed { remaining_path, attempted_patterns, closest_match } => r
                    == RouteState::<U>::ParseFailed { remaining_path, attempted_patterns, closest_match },
            },
    {
        match self {
            RouteState::NoSubRoute => RouteState::NoSubRoute,
            RouteState::SubRoute(sub) => RouteState::SubRoute(f(sub)),
            RouteState::ParseFailed { remaining_path, attempted_patterns, closest_match } => {
                RouteState::ParseFailed { remaining_path, attempted_patterns, closest_match }
            },
        }
    }

    /// For a failed sub-route: its remaining path and the patterns tried as
    /// available routes, at level 0 with nothing consumed, and the hint of the
    /// nearest candidate. `None` for the other states.
    pub fn debug_info(&self) -> (r: Option<RouteDebugInfo>)
        ensures
            match self {
                RouteState::ParseFailed { remaining_path, attempted_patterns, closest_match } => r
                    is Some && r->0.failed_at_level == 0 && r->0.consumed_path@.len() == 0
                    && r->0.remaining_path@ == remaining_path@ && string_views(
                    r->0.available_routes@,
                ) == string_views(attempted_patterns@) && match closest_match {
                    Some(m) => r->0.suggestion is Some && r->0.suggestion->0@ == m.hint(),
                    None => r->0.suggestion is None,
                },
                _ => r is None,
            },
    {
        match self {
            RouteState::ParseFailed { remaining_path, attempted_patterns, closest_match } => {
                let suggestion = match closest_match {
                    Some(m) => Some(m.to_hint()),
                    None => None,
                };
                let routes = crate::maps::copy_strings(attempted_patterns);
                assert(string_views(routes@) =~= routes.deep_view());
                assert(string_views(attempted_patterns@) =~= attempted_patterns.deep_view());
                Some(
                    RouteDebugInfo {
                        failed_at_level: 0,
                        consumed_path: String::new(),
                        remaining_path: remaining_path.clone(),
                        available_routes: routes,
                        suggestion,
                    },
                )
            },
            _ => None,
        }
    }
}

impl RouteDebugInfo {
    /// A report record.
    pub fn new(
        failed_at_level: usize,
        consumed_path: &str,
        remaining_path: &str,
        available_routes: Vec<String>,
        suggestion: Option<String>,
    ) -> (r: RouteDebugInfo)
        ensures
            r.failed_at_level == failed_at_level,
            r.consumed_path@ == consumed_path@,
            r.remaining_path@ == remaining_path@,
            r.available_routes == available_routes,
            r.suggestion == suggestion,
    {
        RouteDebugInfo {
            failed_at_level,
            consumed_path: owned(consumed_path),
            remaining_path: owned(remaining_path),
            available_routes,
            suggestion,
        }
    }

    /// The report's text.
    pub open spec fn message(&self) -> Seq<char> {
        let head = "Route parsing failed at level "@ + decimal(self.failed_at_level as nat)
            + ": consumed '"@ + self.consumed_path@ + "', remaining '"@ + self.remaining_path@
            + "'"@;
        let routes = if self.available_routes@.len() == 0 {
            seq![]
        } else {
            "\nAvailable routes: "@ + join(string_views(self.available_routes@), ", "@)
        };
        let hint = match self.suggestion {
            Some(s) => "\nSuggestion: "@ + s@,
            None => seq![],
        };
        head + routes + hint
    }

    /// Renders the report: the level and the paths, then the available
    /// routes and the suggestion where there are any.
    pub fn to_error_message(&self) -> (r: String)
        ensures
            r@ == self.message(),
    {
        let mut message = owned("Route parsing failed at level ");
        let level = usize_to_string(self.failed_at_level);
        push_str(&mut message, level.as_str());
        push_str(&mut message, ": consumed '");
        push_str(&mut message, self.consumed_path.as_str());
        push_str(&mut message, "', remaining '");
        push_str(&mut message, self.remaining_path.as_str());
        push_str(&mut message, "'");
        if self.available_routes.len() > 0 {
            push_str(&mut message, "\nAvailable routes: ");
            let routes = join_strings(&self.available_routes, ", ");
            push_str(&mut message, routes.as_str());
        }
        match &self.suggestion {
            Some(s) => {
                push_str(&mut message, "\nSuggestion: ");
                push_str(&mut message, s.as_str());
            },
            None => {},
        }
        assert(message@ =~= self.message());
        message
    }
}

} // verus!
