use router_rs::{ParamType, ParamValue, Route, RouteParams, Router};
use virtual_dom_rs::prelude::{View, VirtualNode};

type Factory = Box<dyn Fn(RouteParams) -> String>;

fn id_types() -> Vec<(String, ParamType)> {
    vec![("id".to_string(), ParamType::U64)]
}

fn labelled(pattern: &str, types: Vec<(String, ParamType)>, label: &'static str) -> Route<Factory> {
    let factory: Factory = Box::new(move |_| label.to_string());
    Route::new(pattern, types, factory)
}

struct TestView {
    kind: &'static str,
}

impl View for TestView {
    fn render(&self) -> VirtualNode {
        div_with_text(self.kind)
    }
}

fn div_with_text(text: &str) -> VirtualNode {
    let mut div = VirtualNode::element("div");
    if let Some(element) = div.as_velement_mut() {
        element.children.push(VirtualNode::text(text));
    }
    div
}

type ViewFactory = Box<dyn Fn(RouteParams) -> Box<dyn View>>;

fn viewing(pattern: &str, types: Vec<(String, ParamType)>, kind: &'static str) -> Route<ViewFactory> {
    let factory: ViewFactory = Box::new(move |_| Box::new(TestView { kind }) as Box<dyn View>);
    Route::new(pattern, types, factory)
}

#[test]
fn match_route() {
    let mut router: Router<ViewFactory> = Router::default();
    router.add_route(viewing("/users/:id", id_types(), "first"));
    router.add_route(viewing("/users/:id/name", id_types(), "second"));

    assert_eq!(
        router.view("/users/5/name").unwrap().render(),
        div_with_text("second")
    );
}

#[test]
fn match_top_level_routes() {
    let mut router: Router<ViewFactory> = Router::default();
    router.add_route(viewing("/users", id_types(), "users"));
    router.add_route(viewing("/posts", id_types(), "posts"));

    assert_eq!(router.view("/users").unwrap().render(), div_with_text("users"));
    assert_eq!(router.view("/posts").unwrap().render(), div_with_text("posts"));
}

#[test]
fn match_nested_routes() {
    let mut router: Router<ViewFactory> = Router::default();
    router.add_route(viewing("/api/users", id_types(), "users"));
    router.add_route(viewing("/api/posts", id_types(), "posts"));

    assert_eq!(router.view("/api/users").unwrap().render(), div_with_text("users"));
    assert_eq!(router.view("/api/posts").unwrap().render(), div_with_text("posts"));
}

#[test]
fn nested_route_without_a_match_is_absent() {
    let mut router: Router<Factory> = Router::default();
    router.add_route(labelled("/api/users", id_types(), "users"));
    router.add_route(labelled("/api/posts", id_types(), "posts"));

    assert!(router.view("/api/comments").is_none());
    assert_eq!(router.find("/api/comments"), None);
    assert_eq!(router.find("/api/posts"), Some(1));
}

#[test]
fn empty_router_matches_nothing() {
    let router: Router<Factory> = Router::new();
    assert!(router.view("/").is_none());
    assert!(router.view("/users").is_none());
}

#[test]
fn segment_count_is_strict() {
    let route = labelled("/users/:id", id_types(), "user");
    assert!(!route.matches("/users"));
    assert!(!route.matches("/users/5/name"));
    assert!(route.matches("/users/5"));
}

#[test]
fn placeholder_type_is_strict() {
    let route = labelled("/users/:id", id_types(), "user");
    assert!(!route.matches("/users/abc"));
    assert!(!route.matches("/users/-5"));
    assert!(route.matches("/users/5"));
}

#[test]
fn undecodable_placeholder_gives_no_view() {
    let mut router: Router<Factory> = Router::new();
    router.add_route(labelled("/users/:id", id_types(), "user"));
    assert!(router.view("/users/notanumber").is_none());
    assert_eq!(router.view("/users/12").unwrap(), "user");
}

#[test]
fn decode_failure_falls_through_to_later_route() {
    let mut router: Router<Factory> = Router::new();
    router.add_route(labelled("/users/:id", id_types(), "by id"));
    router.add_route(labelled(
        "/users/:name",
        vec![("name".to_string(), ParamType::String)],
        "by name",
    ));
    assert_eq!(router.view("/users/7").unwrap(), "by id");
    assert_eq!(router.view("/users/alice").unwrap(), "by name");
}

#[test]
fn swapping_order_changes_the_view() {
    let mut first: Router<Factory> = Router::new();
    first.add_route(labelled("/users/:id", id_types(), "numeric"));
    first.add_route(labelled("/users/:id", vec![("id".to_string(), ParamType::String)], "text"));

    let mut second: Router<Factory> = Router::new();
    second.add_route(labelled("/users/:id", vec![("id".to_string(), ParamType::String)], "text"));
    second.add_route(labelled("/users/:id", id_types(), "numeric"));

    assert_eq!(first.view("/users/3").unwrap(), "numeric");
    assert_eq!(second.view("/users/3").unwrap(), "text");
}

#[test]
fn repeated_lookup_gives_the_same_view() {
    let mut router: Router<Factory> = Router::new();
    router.add_route(labelled("/users/:id", id_types(), "first"));
    router.add_route(labelled("/users/:id/name", id_types(), "second"));

    for path in ["/users/5/name", "/users/5", "/nowhere"] {
        assert_eq!(router.view(path), router.view(path));
        assert_eq!(router.find(path), router.find(path));
    }
}

#[test]
fn shadowed_route_is_never_reached() {
    let mut router: Router<Factory> = Router::new();
    router.add_route(labelled("/users", id_types(), "first"));
    router.add_route(labelled("/users", id_types(), "second"));
    assert_eq!(router.view("/users").unwrap(), "first");
    assert_eq!(router.find("/users"), Some(0));
}

#[test]
fn surrounding_slashes_are_ignored() {
    let route = labelled("/users/:id/", id_types(), "user");
    assert!(route.matches("users/5"));
    assert!(route.matches("//users/5//"));
    assert!(route.matches("/users/5/"));
}

#[test]
fn literals_are_case_sensitive() {
    let route = labelled("/Users", vec![], "users");
    assert!(route.matches("/Users"));
    assert!(!route.matches("/users"));
}

#[test]
fn placeholder_rejects_an_empty_segment() {
    let route = labelled(
        "/a/:x/b",
        vec![("x".to_string(), ParamType::String)],
        "x",
    );
    assert!(!route.matches("/a//b"));
    assert!(route.matches("/a/anything/b"));
}

#[test]
fn placeholder_without_a_type_never_matches() {
    let route = labelled("/users/:id", vec![], "user");
    assert!(!route.matches("/users/5"));
    assert!(!route.matches("/users/abc"));
}

#[test]
fn root_pattern_matches_root_path() {
    let route = labelled("/", vec![], "home");
    assert!(route.matches("/"));
    assert!(route.matches(""));
    assert!(!route.matches("/home"));
}

#[test]
fn u64_placeholder_range() {
    let route = labelled("/n/:id", id_types(), "n");
    assert!(route.matches("/n/18446744073709551615"));
    assert!(!route.matches("/n/18446744073709551616"));
    assert!(route.matches("/n/+7"));
    assert!(!route.matches("/n/+"));
    assert!(route.matches("/n/007"));
}

#[test]
fn factory_receives_decoded_values() {
    let factory: Factory = Box::new(|params: RouteParams| {
        let id = match params.get("id") {
            Some(ParamValue::U64(n)) => *n,
            _ => 0,
        };
        let slug = match params.get("slug") {
            Some(ParamValue::Text(s)) => s.clone(),
            _ => String::new(),
        };
        format!("{} {}", id, slug)
    });
    let route = Route::new(
        "/users/:id/posts/:slug",
        vec![
            ("id".to_string(), ParamType::U64),
            ("slug".to_string(), ParamType::String),
        ],
        factory,
    );
    let mut router: Router<Factory> = Router::new();
    router.add_route(route);
    assert_eq!(router.view("/users/42/posts/hello").unwrap(), "42 hello");
}

#[test]
fn params_in_pattern_order() {
    let route = labelled(
        "/users/:id/posts/:slug",
        vec![
            ("slug".to_string(), ParamType::String),
            ("id".to_string(), ParamType::U64),
        ],
        "post",
    );
    let params = route.params("/users/42/posts/hello");
    assert_eq!(params.get("id"), Some(&ParamValue::U64(42)));
    assert_eq!(params.get("slug"), Some(&ParamValue::Text("hello".to_string())));
    assert_eq!(params.get("other"), None);
}

#[test]
fn first_declared_type_counts() {
    let route = labelled(
        "/users/:id",
        vec![
            ("id".to_string(), ParamType::U64),
            ("id".to_string(), ParamType::String),
        ],
        "user",
    );
    assert!(!route.matches("/users/abc"));
    assert!(route.matches("/users/9"));
}

#[test]
fn route_view_builds_from_params() {
    let factory: Factory = Box::new(|params: RouteParams| match params.get("name") {
        Some(ParamValue::Text(s)) => s.clone(),
        _ => String::new(),
    });
    let route = Route::new("/hello/:name", vec![("name".to_string(), ParamType::String)], factory);
    assert_eq!(route.view("/hello/world"), "world");
}
