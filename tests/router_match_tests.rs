use ruled_router::codec::split_path_query;
use ruled_router::convert::{FromParam, ToParam};
use ruled_router::error::{ParseError, RouteState};
use ruled_router::formatter::{PathFormatter, QueryFormatter};
use ruled_router::maps::{ParamMap, QueryMap};
use ruled_router::path::PathParser;
use ruled_router::query::QueryParser;
use ruled_router::route::{
    NoSubRouter, Query, RouteInfo, RouteMatcher, RouterData, ToRouteInfo, attempt, debug_node, first_match,
};

fn field<T: FromParam>(params: &ParamMap, name: &str) -> Result<T, ParseError> {
    let value = params.get(name).ok_or_else(|| ParseError::missing_parameter(name))?;
    T::from_param(value)
}

fn path_of(pattern: &str, params: &ParamMap, query: String) -> String {
    let mut url = PathFormatter::new(pattern).unwrap().format(params).unwrap();
    if !query.is_empty() {
        url.push('?');
        url.push_str(&query);
    }
    url
}

#[derive(Debug, Clone, PartialEq, Default)]
struct TestQuery {
    format: Option<String>,
    debug: Option<bool>,
}

impl Query for TestQuery {
    fn parse(query: &str) -> Result<Self, ParseError> {
        let p = QueryParser::new(query)?;
        Self::from_query_map(p.params())
    }
    fn format(&self) -> String {
        let mut f = QueryFormatter::new();
        if let Some(v) = &self.format {
            f.set("format", v.clone());
        }
        if let Some(v) = self.debug {
            f.set("debug", v);
        }
        f.format()
    }
    fn from_query_map(query_map: &QueryMap) -> Result<Self, ParseError> {
        let p = QueryParser::from_params(query_map.duplicate());
        Ok(Self { format: p.get_optional("format")?, debug: p.get_optional("debug")? })
    }
    fn to_query_string(&self) -> String {
        self.format()
    }
    fn query_keys() -> Vec<&'static str> {
        vec!["format", "debug"]
    }
}

#[derive(Debug, Clone, PartialEq, Default)]
struct UserQuery {
    page: Option<u32>,
    limit: Option<u32>,
}

impl Query for UserQuery {
    fn parse(query: &str) -> Result<Self, ParseError> {
        let p = QueryParser::new(query)?;
        Self::from_query_map(p.params())
    }
    fn format(&self) -> String {
        let mut f = QueryFormatter::new();
        if let Some(v) = self.page {
            f.set("page", v);
        }
        if let Some(v) = self.limit {
            f.set("limit", v);
        }
        f.format()
    }
    fn from_query_map(query_map: &QueryMap) -> Result<Self, ParseError> {
        let p = QueryParser::from_params(query_map.duplicate());
        Ok(Self { page: p.get_optional("page")?, limit: p.get_optional("limit")? })
    }
    fn to_query_string(&self) -> String {
        self.format()
    }
    fn query_keys() -> Vec<&'static str> {
        vec!["page", "limit"]
    }
}

#[derive(Debug, Clone, PartialEq, Default)]
struct ProductQuery {
    category: Option<String>,
    sort: Option<String>,
    min_price: Option<f64>,
}

impl Query for ProductQuery {
    fn parse(query: &str) -> Result<Self, ParseError> {
        let p = QueryParser::new(query)?;
        Self::from_query_map(p.params())
    }
    fn format(&self) -> String {
        let mut f = QueryFormatter::new();
        if let Some(v) = &self.category {
            f.set("category", v.clone());
        }
        if let Some(v) = &self.sort {
            f.set("sort", v.clone());
        }
        if let Some(v) = self.min_price {
            f.set("min_price", v.to_string());
        }
        f.format()
    }
    fn from_query_map(query_map: &QueryMap) -> Result<Self, ParseError> {
        let p = QueryParser::from_params(query_map.duplicate());
        let min_price = match p.get("min_price") {
            Some(v) => Some(v.parse::<f64>().map_err(|_| ParseError::type_conversion(v))?),
            None => None,
        };
        Ok(Self { category: p.get_optional("category")?, sort: p.get_optional("sort")?, min_price })
    }
    fn to_query_string(&self) -> String {
        self.format()
    }
    fn query_keys() -> Vec<&'static str> {
        vec!["category", "sort", "min_price"]
    }
}

#[derive(Debug, Clone, PartialEq)]
struct UserRoute {
    id: u32,
    query: UserQuery,
}

impl RouterData for UserRoute {
    type SubRouterMatch = NoSubRouter;
    fn parse(path: &str) -> Result<Self, ParseError> {
        let (path_part, query_part) = split_path_query(path);
        let params = PathParser::new(Self::pattern())?.match_path(path_part)?;
        Ok(Self { id: field(&params, "id")?, query: UserQuery::parse(query_part.unwrap_or(""))? })
    }
    fn format(&self) -> String {
        let mut params = ParamMap::new();
        params.insert("id".to_string(), self.id.to_param());
        path_of(Self::pattern(), &params, self.query.format())
    }
    fn pattern() -> &'static str {
        "/users/:id"
    }
    fn query_keys() -> Vec<&'static str> {
        UserQuery::query_keys()
    }

    fn consumed_length(path: &str) -> Result<usize, ParseError> {
        ruled_router::route::parsed_length::<Self>(path)
    }
}

#[derive(Debug, Clone, PartialEq)]
struct ProductRoute {
    category: String,
    id: u32,
    query: ProductQuery,
}

impl RouterData for ProductRoute {
    type SubRouterMatch = NoSubRouter;
    fn parse(path: &str) -> Result<Self, ParseError> {
        let (path_part, query_part) = split_path_query(path);
        let params = PathParser::new(Self::pattern())?.match_path(path_part)?;
        Ok(Self {
            category: field(&params, "category")?,
            id: field(&params, "id")?,
            query: ProductQuery::parse(query_part.unwrap_or(""))?,
        })
    }
    fn format(&self) -> String {
        let mut params = ParamMap::new();
        params.insert("category".to_string(), self.category.to_param());
        params.insert("id".to_string(), self.id.to_param());
        path_of(Self::pattern(), &params, self.query.format())
    }
    fn pattern() -> &'static str {
        "/products/:category/:id"
    }
    fn query_keys() -> Vec<&'static str> {
        ProductQuery::query_keys()
    }

    fn consumed_length(path: &str) -> Result<usize, ParseError> {
        ruled_router::route::parsed_length::<Self>(path)
    }
}

#[derive(Debug, Clone, PartialEq)]
struct SettingsRoute {
    query: TestQuery,
}

impl RouterData for SettingsRoute {
    type SubRouterMatch = NoSubRouter;
    fn parse(path: &str) -> Result<Self, ParseError> {
        let (path_part, query_part) = split_path_query(path);
        PathParser::new(Self::pattern())?.match_path(path_part)?;
        Ok(Self { query: TestQuery::parse(query_part.unwrap_or(""))? })
    }
    fn format(&self) -> String {
        path_of(Self::pattern(), &ParamMap::new(), self.query.format())
    }
    fn pattern() -> &'static str {
        "/settings"
    }
    fn query_keys() -> Vec<&'static str> {
        TestQuery::query_keys()
    }

    fn consumed_length(path: &str) -> Result<usize, ParseError> {
        ruled_router::route::parsed_length::<Self>(path)
    }
}

#[derive(Debug, Clone, PartialEq)]
struct ApiRoute {
    version: String,
    query: TestQuery,
}

impl RouterData for ApiRoute {
    type SubRouterMatch = NoSubRouter;
    fn parse(path: &str) -> Result<Self, ParseError> {
        let (path_part, query_part) = split_path_query(path);
        let params = PathParser::new(Self::pattern())?.match_path(path_part)?;
        Ok(Self { version: field(&params, "version")?, query: TestQuery::parse(query_part.unwrap_or(""))? })
    }
    fn format(&self) -> String {
        let mut params = ParamMap::new();
        params.insert("version".to_string(), self.version.to_param());
        path_of(Self::pattern(), &params, self.query.format())
    }
    fn pattern() -> &'static str {
        "/api/:version"
    }
    fn query_keys() -> Vec<&'static str> {
        TestQuery::query_keys()
    }

    fn consumed_length(path: &str) -> Result<usize, ParseError> {
        ruled_router::route::parsed_length::<Self>(path)
    }
}

/// The node of one alternative, as the tree renders it.
fn node<R: RouterData>(name: &str, route: &R, indent: usize) -> String {
    let formatted = route.format();
    let keys = R::query_keys();
    let sub = match R::parse_with_sub(&formatted) {
        Ok((_, RouteState::SubRoute(sub))) => Some(sub.debug_format(indent + 1)),
        _ => None,
    };
    debug_node(indent, name, R::pattern(), &formatted, &keys, sub.as_deref())
}

#[derive(Debug, Clone, PartialEq)]
enum AppRouterMatch {
    User(UserRoute),
    Product(ProductRoute),
    Settings(SettingsRoute),
    Api(ApiRoute),
}

impl ToRouteInfo for AppRouterMatch {
    fn to_route_info(&self) -> RouteInfo {
        let (pattern, formatted) = match self {
            Self::User(r) => (UserRoute::pattern(), r.format()),
            Self::Product(r) => (ProductRoute::pattern(), r.format()),
            Self::Settings(r) => (SettingsRoute::pattern(), r.format()),
            Self::Api(r) => (ApiRoute::pattern(), r.format()),
        };
        RouteInfo { pattern, formatted, sub_route_info: None }
    }
}

impl RouteMatcher for AppRouterMatch {
    fn try_parse(path: &str) -> Result<Self, ParseError> {
        let candidates = vec![
            attempt::<UserRoute>(path).map(Self::User),
            attempt::<ProductRoute>(path).map(Self::Product),
            attempt::<SettingsRoute>(path).map(Self::Settings),
            attempt::<ApiRoute>(path).map(Self::Api),
        ];
        first_match(path, candidates).map(|(_, m)| m)
    }

    fn format(&self) -> String {
        match self {
            Self::User(r) => r.format(),
            Self::Product(r) => r.format(),
            Self::Settings(r) => r.format(),
            Self::Api(r) => r.format(),
        }
    }

    fn patterns() -> Vec<&'static str> {
        vec![UserRoute::pattern(), ProductRoute::pattern(), SettingsRoute::pattern(), ApiRoute::pattern()]
    }

    fn debug_format(&self, indent: usize) -> String {
        match self {
            Self::User(r) => node("AppRouterMatch::User", r, indent),
            Self::Product(r) => node("AppRouterMatch::Product", r, indent),
            Self::Settings(r) => node("AppRouterMatch::Settings", r, indent),
            Self::Api(r) => node("AppRouterMatch::Api", r, indent),
        }
    }
}

#[derive(Debug, Clone, PartialEq)]
enum SubRouterMatch {
    User(UserRoute),
    Settings(SettingsRoute),
}

impl ToRouteInfo for SubRouterMatch {
    fn to_route_info(&self) -> RouteInfo {
        let (pattern, formatted) = match self {
            Self::User(r) => (UserRoute::pattern(), r.format()),
            Self::Settings(r) => (SettingsRoute::pattern(), r.format()),
        };
        RouteInfo { pattern, formatted, sub_route_info: None }
    }
}

impl RouteMatcher for SubRouterMatch {
    fn try_parse(path: &str) -> Result<Self, ParseError> {
        let candidates =
            vec![attempt::<UserRoute>(path).map(Self::User), attempt::<SettingsRoute>(path).map(Self::Settings)];
        first_match(path, candidates).map(|(_, m)| m)
    }

    fn format(&self) -> String {
        match self {
            Self::User(r) => r.format(),
            Self::Settings(r) => r.format(),
        }
    }

    fn patterns() -> Vec<&'static str> {
        vec![UserRoute::pattern(), SettingsRoute::pattern()]
    }

    fn debug_format(&self, indent: usize) -> String {
        match self {
            Self::User(r) => node("SubRouterMatch::User", r, indent),
            Self::Settings(r) => node("SubRouterMatch::Settings", r, indent),
        }
    }
}

#[test]
fn test_router_match_format_user_route() {
    let user_route = UserRoute { id: 123, query: UserQuery { page: Some(1), limit: Some(20) } };

    let app_match = AppRouterMatch::User(user_route);
    let formatted = app_match.format();

    assert!(formatted.contains("/users/123"));
    assert!(formatted.contains("page=1"));
    assert!(formatted.contains("limit=20"));
}

#[test]
fn test_router_match_format_product_route() {
    let product_route = ProductRoute {
        category: "electronics".to_string(),
        id: 456,
        query: ProductQuery {
            category: Some("laptop".to_string()),
            sort: Some("price".to_string()),
            min_price: Some(100.0),
        },
    };

    let app_match = AppRouterMatch::Product(product_route);
    let formatted = app_match.format();

    assert!(formatted.contains("/products/electronics/456"));
    assert!(formatted.contains("category=laptop"));
    assert!(formatted.contains("sort=price"));
    assert!(formatted.contains("min_price=100"));
}

#[test]
fn test_router_match_format_settings_route() {
    let settings_route =
        SettingsRoute { query: TestQuery { format: Some("json".to_string()), debug: Some(true) } };

    let app_match = AppRouterMatch::Settings(settings_route);
    let formatted = app_match.format();

    assert!(formatted.contains("/settings"));
    assert!(formatted.contains("format=json"));
    assert!(formatted.contains("debug=true"));
}

#[test]
fn test_router_match_format_api_route() {
    let api_route = ApiRoute {
        version: "v1".to_string(),
        query: TestQuery { format: Some("xml".to_string()), debug: Some(false) },
    };

    let app_match = AppRouterMatch::Api(api_route);
    let formatted = app_match.format();

    assert!(formatted.contains("/api/v1"));
    assert!(formatted.contains("format=xml"));
    assert!(formatted.contains("debug=false"));
}

#[test]
fn test_router_match_format_empty_query() {
    let user_route = UserRoute { id: 789, query: UserQuery::default() };

    let app_match = AppRouterMatch::User(user_route);
    let formatted = app_match.format();

    assert_eq!(formatted, "/users/789");
}

#[test]
fn test_router_match_format_partial_query() {
    let user_route = UserRoute { id: 999, query: UserQuery { page: Some(5), limit: None } };

    let app_match = AppRouterMatch::User(user_route);
    let formatted = app_match.format();

    assert!(formatted.contains("/users/999"));
    assert!(formatted.contains("page=5"));
    assert!(!formatted.contains("limit="));
}

#[test]
fn test_router_match_format_special_characters() {
    let product_route = ProductRoute {
        category: "home & garden".to_string(),
        id: 123,
        query: ProductQuery {
            category: Some("outdoor furniture".to_string()),
            sort: Some("price-desc".to_string()),
            min_price: None,
        },
    };

    let app_match = AppRouterMatch::Product(product_route);
    let formatted = app_match.format();

    assert!(
        formatted.contains("/products/home%20%26%20garden/123")
            || formatted.contains("/products/home%20&%20garden/123")
    );
    assert!(formatted.contains("category=outdoor%20furniture") || formatted.contains("category=outdoor+furniture"));
    assert!(formatted.contains("sort=price-desc"));
}

#[test]
fn test_sub_router_match_format() {
    let user_route = UserRoute { id: 456, query: UserQuery { page: Some(2), limit: Some(50) } };

    let sub_match = SubRouterMatch::User(user_route);
    let formatted = sub_match.format();

    assert!(formatted.contains("/users/456"));
    assert!(formatted.contains("page=2"));
    assert!(formatted.contains("limit=50"));
}

#[test]
fn test_router_match_format_roundtrip() {
    let original_route = UserRoute { id: 777, query: UserQuery { page: Some(3), limit: Some(25) } };

    let app_match = AppRouterMatch::User(original_route.clone());
    let formatted = app_match.format();

    let parsed_route = UserRoute::parse(&formatted).unwrap();

    assert_eq!(parsed_route.id, original_route.id);
    assert_eq!(parsed_route.query.page, original_route.query.page);
    assert_eq!(parsed_route.query.limit, original_route.query.limit);
}

#[test]
fn test_router_match_patterns() {
    let patterns = AppRouterMatch::patterns();

    assert!(patterns.contains(&"/users/:id"));
    assert!(patterns.contains(&"/products/:category/:id"));
    assert!(patterns.contains(&"/settings"));
    assert!(patterns.contains(&"/api/:version"));
    assert_eq!(patterns.len(), 4);
}

#[test]
fn test_router_match_format_consistency() {
    let routes = vec![
        AppRouterMatch::User(UserRoute { id: 1, query: UserQuery::default() }),
        AppRouterMatch::Settings(SettingsRoute { query: TestQuery::default() }),
        AppRouterMatch::Api(ApiRoute { version: "v2".to_string(), query: TestQuery::default() }),
    ];

    for route in routes {
        let formatted = route.format();
        assert!(formatted.starts_with('/'), "Route should start with '/': {formatted}");
        assert!(!formatted.contains("//"), "Route should not contain '//': {formatted}");
        let question_marks = formatted.matches('?').count();
        assert!(question_marks <= 1, "Route should have at most one '?': {formatted}");
    }
}

#[test]
fn test_router_match_debug_format_basic() {
    let user_route = UserRoute { id: 123, query: UserQuery { page: Some(1), limit: Some(20) } };

    let app_match = AppRouterMatch::User(user_route);
    let debug_output = app_match.debug_format(0);

    assert!(debug_output.contains("User"));
    assert!(debug_output.contains("/users/:id"));
    assert!(debug_output.contains("/users/123"));
    assert!(debug_output.contains("page=1"));
    assert!(debug_output.contains("limit=20"));
}

#[test]
fn test_router_match_debug_format_with_indent() {
    let settings_route =
        SettingsRoute { query: TestQuery { format: Some("json".to_string()), debug: Some(true) } };

    let app_match = AppRouterMatch::Settings(settings_route);
    let debug_output = app_match.debug_format(2);

    let lines: Vec<&str> = debug_output.lines().collect();
    for line in lines {
        if !line.trim().is_empty() {
            assert!(line.starts_with("  "), "Line should start with 2 spaces: '{line}'");
        }
    }

    assert!(debug_output.contains("Settings"));
    assert!(debug_output.contains("/settings"));
    assert!(debug_output.contains("format=json"));
    assert!(debug_output.contains("debug=true"));
}

#[test]
fn test_router_match_debug_format_all_variants() {
    let routes = vec![
        ("User", AppRouterMatch::User(UserRoute { id: 1, query: UserQuery::default() })),
        (
            "Product",
            AppRouterMatch::Product(ProductRoute {
                category: "electronics".to_string(),
                id: 456,
                query: ProductQuery::default(),
            }),
        ),
        ("Settings", AppRouterMatch::Settings(SettingsRoute { query: TestQuery::default() })),
        ("Api", AppRouterMatch::Api(ApiRoute { version: "v1".to_string(), query: TestQuery::default() })),
    ];

    for (variant_name, route) in routes {
        let debug_output = route.debug_format(0);
        assert!(
            debug_output.contains(variant_name),
            "Debug output should contain variant name '{variant_name}': {debug_output}"
        );
        assert!(debug_output.contains("Pattern:"), "Debug output should contain 'Pattern:': {debug_output}");
        assert!(debug_output.contains("Formatted:"), "Debug output should contain 'Formatted:': {debug_output}");
    }
}

#[test]
fn test_sub_router_match_debug_format() {
    let user_route = UserRoute { id: 789, query: UserQuery { page: Some(3), limit: Some(15) } };

    let sub_match = SubRouterMatch::User(user_route);
    let debug_output = sub_match.debug_format(1);

    let lines: Vec<&str> = debug_output.lines().collect();
    for line in lines {
        if !line.trim().is_empty() {
            assert!(line.starts_with(" "), "Line should start with 1 space: '{line}'");
        }
    }

    assert!(debug_output.contains("User"));
    assert!(debug_output.contains("/users/789"));
    assert!(debug_output.contains("page=3"));
    assert!(debug_output.contains("limit=15"));
}

#[test]
fn test_router_match_debug_format_empty_query() {
    let user_route = UserRoute { id: 999, query: UserQuery::default() };

    let app_match = AppRouterMatch::User(user_route);
    let debug_output = app_match.debug_format(0);

    assert!(debug_output.contains("User"));
    assert!(debug_output.contains("/users/:id"));
    assert!(debug_output.contains("/users/999"));

    let lines: Vec<&str> = debug_output.lines().collect();
    let formatted_line = lines.iter().find(|line| line.contains("Formatted:")).unwrap();
    assert!(formatted_line.contains("/users/999"));
    assert!(!formatted_line.contains("?"), "Should not contain query separator when query is empty");
}

#[test]
fn debug_tree_text_is_exact() {
    let app_match = AppRouterMatch::User(UserRoute { id: 5, query: UserQuery { page: Some(2), limit: None } });
    assert_eq!(
        app_match.debug_format(1),
        "  AppRouterMatch::User\n  ├─ Pattern: /users/:id\n  ├─ Formatted: /users/5?page=2\n  ├─ Query: page, limit\n  └─ ◉"
    );
    let settings = AppRouterMatch::Settings(SettingsRoute { query: TestQuery::default() });
    assert_eq!(
        settings.debug_format(0),
        "AppRouterMatch::Settings\n├─ Pattern: /settings\n├─ Formatted: /settings\n└─ ◉"
    );
}

#[test]
fn first_alternative_that_parses_wins() {
    let m = AppRouterMatch::try_parse("/settings?format=json").unwrap();
    assert_eq!(m, AppRouterMatch::Settings(SettingsRoute { query: TestQuery { format: Some("json".to_string()), debug: None } }));
    let m = AppRouterMatch::try_parse("/api/v3").unwrap();
    assert!(matches!(m, AppRouterMatch::Api(_)));
    assert_eq!(
        AppRouterMatch::try_parse("/nowhere").unwrap_err(),
        ParseError::InvalidPath("No matching route found for path: /nowhere".to_string())
    );
}
