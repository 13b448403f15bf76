//! A declarative URL router: path patterns, query strings, typed parameters
//! and nested route resolution, with their behaviour stated as contracts.
//!
//! - `codec`: percent-encoding, path splitting, query-string tokenizing.
//! - `path`: compiling a pattern, matching a path, formatting a path.
//! - `query`, `formatter`: typed access to queries and building URLs.
//! - `convert`, `types`: conversions between parameter text and values.
//! - `route`: route values, route matchers and the rendering of a tree.
//! - `round_trip`: formatting and parsing undo each other.
pub mod codec;
pub mod convert;
pub mod error;
pub mod formatter;
pub mod maps;
pub mod path;
pub mod query;
pub mod round_trip;
pub mod route;
pub mod text;
pub mod types;

pub use convert::{FromParam, ToParam};
pub use error::{ParseError, ParseResult, RouteState};
pub use formatter::{PathFormatter, QueryFormatter, UrlFormatter};
pub use maps::{ParamMap, QueryMap};
pub use path::PathParser;
pub use query::{QueryBuilder, QueryParser};
pub use route::{NoSubRouter, Query, RouteMatcher, RouterData, ToRouteInfo};
