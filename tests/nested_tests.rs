use ruled_router::codec::split_path_query;
use ruled_router::convert::{FromParam, ToParam};
use ruled_router::error::{ParseError, RouteState};
use ruled_router::formatter::PathFormatter;
use ruled_router::maps::ParamMap;
use ruled_router::path::PathParser;
use ruled_router::route::{
    NoSubRouter, RouteInfo, RouteMatcher, RouterData, ToRouteInfo, attempt, debug_node, first_match,
    join_sub_path, starts_with, sub_route_state,
};

#[derive(Debug, Clone, PartialEq)]
struct UserRoute {
    id: u32,
}

impl RouterData for UserRoute {
    type SubRouterMatch = NoSubRouter;
    fn parse(path: &str) -> Result<Self, ParseError> {
        let (p, _) = split_path_query(path);
        let params = PathParser::new(Self::pattern())?.match_path(p)?;
        Ok(Self { id: u32::from_param(params.get("id").unwrap())? })
    }
    fn format(&self) -> String {
        let mut m = ParamMap::new();
        m.insert("id".to_string(), self.id.to_param());
        PathFormatter::new(Self::pattern()).unwrap().format(&m).unwrap()
    }
    fn pattern() -> &'static str {
        "/users/:id"
    }
    fn consumed_length(path: &str) -> Result<usize, ParseError> {
        PathParser::new(Self::pattern())?.consumed_length(path)
    }
}

#[derive(Debug, Clone, PartialEq)]
enum AdminSub {
    Users(UserRoute),
}

impl ToRouteInfo for AdminSub {
    fn to_route_info(&self) -> RouteInfo {
        let AdminSub::Users(r) = self;
        RouteInfo { pattern: UserRoute::pattern(), formatted: r.format(), sub_route_info: None }
    }
}

impl RouteMatcher for AdminSub {
    fn try_parse(path: &str) -> Result<Self, ParseError> {
        let prefix = PathParser::new(UserRoute::pattern())?.literal_prefix();
        if starts_with(path, &prefix) {
            if let Ok(r) = UserRoute::parse(path) {
                return Ok(AdminSub::Users(r));
            }
        }
        Err(ParseError::invalid_path("No matching route"))
    }
    fn format(&self) -> String {
        let AdminSub::Users(r) = self;
        r.format()
    }
    fn patterns() -> Vec<&'static str> {
        vec![UserRoute::pattern()]
    }
    fn debug_format(&self, indent: usize) -> String {
        let AdminSub::Users(r) = self;
        debug_node(indent, "AdminSub::Users", UserRoute::pattern(), &r.format(), &vec![], None)
    }
}

#[derive(Debug, Clone, PartialEq)]
struct AdminRoute {
    sub: Option<AdminSub>,
}

impl RouterData for AdminRoute {
    type SubRouterMatch = AdminSub;
    fn parse(path: &str) -> Result<Self, ParseError> {
        let (p, _) = split_path_query(path);
        PathParser::new(Self::pattern())?.match_path(p)?;
        Ok(Self { sub: None })
    }
    fn format(&self) -> String {
        "/admin".to_string()
    }
    fn pattern() -> &'static str {
        "/admin"
    }
    fn consumed_length(path: &str) -> Result<usize, ParseError> {
        PathParser::new(Self::pattern())?.consumed_length(path)
    }
}

#[derive(Debug, Clone, PartialEq)]
enum Top {
    User(UserRoute),
    Admin(AdminRoute),
}

impl ToRouteInfo for Top {
    fn to_route_info(&self) -> RouteInfo {
        match self {
            Top::User(r) => RouteInfo { pattern: UserRoute::pattern(), formatted: r.format(), sub_route_info: None },
            Top::Admin(r) => RouteInfo { pattern: AdminRoute::pattern(), formatted: r.format(), sub_route_info: None },
        }
    }
}

impl RouteMatcher for Top {
    fn try_parse(path: &str) -> Result<Self, ParseError> {
        let admin = attempt::<AdminRoute>(path).map(|mut a| {
            a.sub = AdminRoute::parse_with_sub(path).ok().and_then(|(_, st)| st.into_option());
            Top::Admin(a)
        });
        let candidates = vec![attempt::<UserRoute>(path).map(Top::User), admin];
        first_match(path, candidates).map(|(_, m)| m)
    }
    fn format(&self) -> String {
        match self {
            Top::User(r) => r.format(),
            Top::Admin(r) => r.format_with_sub(&RouteState::from_option(r.sub.clone())),
        }
    }
    fn patterns() -> Vec<&'static str> {
        vec![UserRoute::pattern(), AdminRoute::pattern()]
    }
    fn debug_format(&self, indent: usize) -> String {
        match self {
            Top::User(r) => debug_node(indent, "Top::User", UserRoute::pattern(), &r.format(), &vec![], None),
            Top::Admin(r) => {
                let sub = r.sub.as_ref().map(|s| s.debug_format(indent + 1));
                debug_node(indent, "Top::Admin", AdminRoute::pattern(), &r.format(), &vec![], sub.as_deref())
            }
        }
    }
}

#[test]
fn nested_resolution_picks_admin_then_its_sub_router() {
    let top = Top::try_parse("/admin/users/5").unwrap();
    assert_eq!(top, Top::Admin(AdminRoute { sub: Some(AdminSub::Users(UserRoute { id: 5 })) }));
    assert_eq!(top.format(), "/admin/users/5");
    assert_eq!(
        top.debug_format(0),
        "Top::Admin\n├─ Pattern: /admin\n├─ Formatted: /admin\n└─ Sub:\n  AdminSub::Users\n  ├─ Pattern: /users/:id\n  ├─ Formatted: /users/5\n  └─ ◉"
    );
}

#[test]
fn first_declared_alternative_wins() {
    assert_eq!(Top::try_parse("/users/9").unwrap(), Top::User(UserRoute { id: 9 }));
    assert!(Top::try_parse("/other").is_err());
}

#[test]
fn parse_with_sub_reports_a_failed_sub_route() {
    let (route, state) = AdminRoute::parse_with_sub("/admin/nothing/here").unwrap();
    assert_eq!(route, AdminRoute { sub: None });
    match state {
        RouteState::ParseFailed { remaining_path, attempted_patterns, closest_match } => {
            assert_eq!(remaining_path, "/nothing/here");
            assert_eq!(attempted_patterns, vec!["/users/:id".to_string()]);
            assert_eq!(closest_match, None);
        }
        other => panic!("unexpected {other:?}"),
    }
    let (_, state) = AdminRoute::parse_with_sub("/admin").unwrap();
    assert!(state.is_no_sub_route());
}

#[test]
fn remaining_path_and_sub_path_joining() {
    let (r, rest) = AdminSub::try_parse_with_remaining("/users/3", 6).unwrap();
    assert_eq!(r, AdminSub::Users(UserRoute { id: 3 }));
    assert_eq!(rest, "/3");
    assert_eq!(join_sub_path("/admin///", "/users/1"), "/admin/users/1");
    assert_eq!(join_sub_path("/admin/", ""), "/admin/");
    let s: RouteState<AdminSub> = sub_route_state("");
    assert!(s.is_no_sub_route());
    let s: RouteState<AdminSub> = sub_route_state("/users/4");
    assert_eq!(s, RouteState::SubRoute(AdminSub::Users(UserRoute { id: 4 })));
}

#[test]
fn no_sub_router_parses_nothing() {
    assert!(NoSubRouter::try_parse("/x").is_err());
    assert_eq!(NoSubRouter.format(), "");
    assert!(NoSubRouter::patterns().is_empty());
    assert_eq!(NoSubRouter.debug_format(1), "  NoSubRouter (empty)");
}


#[test]
fn leaf_routes_consume_what_they_parse() {
    assert_eq!(ruled_router::route::parsed_length::<UserRoute>("/users/12").unwrap(), 9);
    assert!(ruled_router::route::parsed_length::<UserRoute>("/users").is_err());
    assert_eq!(ruled_router::route::default_debug_of(&NoSubRouter, 1), "  RouterMatch\n  ├─ Pattern: \n  └─ Formatted: ");
}
