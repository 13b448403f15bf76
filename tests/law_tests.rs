use ruled_router::codec::{format_query_string, parse_query_string};
use ruled_router::error::RouteState;
use ruled_router::maps::{ParamMap, QueryMap};
use ruled_router::path::{PathParser, extract_path_params};
use ruled_router::error::ParseError;
use ruled_router::route::{first_match, split_at_char, with_query};
use ruled_router::types::Slug;
use ruled_router::convert::FromParam;

fn params(pairs: &[(&str, &str)]) -> ParamMap {
    let mut m = ParamMap::new();
    for (k, v) in pairs {
        m.insert(k.to_string(), v.to_string());
    }
    m
}

#[test]
fn format_then_match_gives_parameters_back() {
    let cases: Vec<(&str, Vec<(&str, &str)>)> = vec![
        ("/users/:id", vec![("id", "42")]),
        ("/blog/{category}/:slug", vec![("category", "a b"), ("slug", "x/y?z")]),
        ("/user/:id?:format", vec![("id", "7")]),
        ("/user/:id?:format", vec![("id", "7"), ("format", "json")]),
        ("/files/*path", vec![("path", "a/b/c")]),
        ("/api/:v/search", vec![("v", "中文")]),
    ];
    for (pattern, pairs) in cases {
        let parser = PathParser::new(pattern).unwrap();
        let m = params(&pairs);
        let path = parser.format_path(&m).unwrap();
        let back = parser.match_path(&path).unwrap();
        assert_eq!(back.len(), m.len(), "{pattern}");
        for (k, v) in &pairs {
            assert_eq!(back.get(k), Some(&v.to_string()), "{pattern} {k}");
        }
    }
}

#[test]
fn absent_optional_before_a_literal_does_not_round_trip() {
    let parser = PathParser::new("/a/?:opt/b").unwrap();
    let path = parser.format_path(&ParamMap::new()).unwrap();
    assert_eq!(path, "/a/b");
    assert!(parser.match_path(&path).is_err());
}

#[test]
fn parse_then_format_query_round_trip() {
    let mut q = QueryMap::new();
    q.add("q".to_string(), "rust lang".to_string());
    q.add("tag".to_string(), "a".to_string());
    q.add("tag".to_string(), "b&c=d".to_string());
    q.add("flag".to_string(), "".to_string());
    q.add("".to_string(), "anonymous".to_string());
    let text = format_query_string(&q);
    let back = parse_query_string(&text).unwrap();
    assert_eq!(back.keys(), vec!["q", "tag", "flag", ""]);
    assert_eq!(back.get("tag"), Some(&vec!["a".to_string(), "b&c=d".to_string()]));
    assert_eq!(back.get("flag"), Some(&vec!["".to_string()]));
    assert_eq!(back.get(""), Some(&vec!["anonymous".to_string()]));
    assert_eq!(format_query_string(&back), text);
}

#[test]
fn path_params_written_in_a_pattern() {
    assert_eq!(extract_path_params("/users/:id/{post}/x"), vec!["id".to_string(), "post".to_string()]);
    assert_eq!(extract_path_params("/:id?:format"), vec!["id?:format".to_string()]);
    assert!(extract_path_params("/static/*rest").is_empty());
}

#[test]
fn literal_prefix_of_patterns() {
    assert_eq!(PathParser::new("/users/:id").unwrap().literal_prefix(), "/users");
    assert_eq!(PathParser::new("/admin/settings").unwrap().literal_prefix(), "/admin/settings");
    assert_eq!(PathParser::new("/:id").unwrap().literal_prefix(), "/");
}

#[test]
fn splitting_and_query_helpers() {
    assert_eq!(split_at_char("/a/b", 2), ("/a", "/b"));
    assert_eq!(split_at_char("/a", 9), ("/a", ""));
    assert_eq!(split_at_char("中文x", 2), ("中文", "x"));
    assert_eq!(with_query("/a", Some("x=1")), "/a?x=1");
    assert_eq!(with_query("/a", None), "/a");
}

#[test]
fn sub_route_can_be_changed_in_place() {
    let mut s: RouteState<u32> = RouteState::sub_route(1);
    if let Some(v) = s.as_sub_route_mut() {
        *v = 5;
    }
    assert_eq!(s, RouteState::SubRoute(5));
    let mut n: RouteState<u32> = RouteState::no_sub_route();
    assert!(n.as_sub_route_mut().is_none());
}

#[test]
fn slugs_accept_unicode_letters() {
    assert_eq!(Slug::from_param("héllo-世界_1").unwrap(), Slug("héllo-世界_1".to_string()));
    assert!(Slug::from_param("a/b").is_err());
}

#[test]
fn first_match_takes_the_earliest_outcome() {
    assert_eq!(first_match("/x", vec![None, Some(3), Some(4)]).unwrap(), (1, 3));
    assert_eq!(
        first_match::<u8>("/x", vec![None, None]).unwrap_err(),
        ParseError::InvalidPath("No matching route found for path: /x".to_string())
    );
}

#[test]
fn list_errors_come_from_the_first_bad_item() {
    assert_eq!(
        Vec::<u32>::from_param("1, x ,y").unwrap_err(),
        ParseError::TypeConversion("Cannot convert 'x' to u32".to_string())
    );
    let parser = ruled_router::query::QueryParser::new("n=1&n=a&n=b").unwrap();
    assert_eq!(
        parser.get_all_parsed::<u8>("n").unwrap_err(),
        ParseError::TypeConversion("Cannot convert 'a' to u8".to_string())
    );
    assert_eq!(
        ruled_router::types::Version::from_param("1.x.3").unwrap_err(),
        ParseError::TypeConversion("Invalid minor version: x".to_string())
    );
}

#[test]
fn route_value_round_trip() {
    use_route_value();
}

fn use_route_value() {
    let parser = PathParser::new("/search/:category/?:page").unwrap();
    let mut q = QueryMap::new();
    q.add("q".to_string(), "a b".to_string());
    q.add("tag".to_string(), "x".to_string());
    q.add("tag".to_string(), "y".to_string());
    let value = ruled_router::route::RouteValue { params: params(&[("category", "books & more")]), query: q };
    let url = ruled_router::route::format_route(&parser, &value).unwrap();
    assert_eq!(url, "/search/books%20%26%20more?q=a%20b&tag=x&tag=y");
    let back = ruled_router::route::parse_route(&parser, &url).unwrap();
    assert_eq!(back.params.get("category"), Some(&"books & more".to_string()));
    assert_eq!(back.params.len(), 1);
    assert_eq!(back.query.keys(), vec!["q", "tag"]);
    assert_eq!(back.query.get("tag"), Some(&vec!["x".to_string(), "y".to_string()]));
    let bare = ruled_router::route::RouteValue { params: params(&[("category", "c"), ("page", "2")]), query: QueryMap::new() };
    assert_eq!(ruled_router::route::format_route(&parser, &bare).unwrap(), "/search/c/2");
}
