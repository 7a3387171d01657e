use mini_http::request::{HttpMethod, HttpProtocol, HttpRequest};
use mini_http::response::{ContentType, HttpResponse};
use mini_http::router::{Route, Router, Routing};
use mini_http::text_map::TextMap;

type Handler = fn(HttpRequest) -> HttpResponse;

fn text(body: &str) -> HttpResponse {
    HttpResponse::Success(ContentType::PlainText(body.to_string()), None)
}

fn first(_request: HttpRequest) -> HttpResponse {
    text("first")
}

fn second(_request: HttpRequest) -> HttpResponse {
    text("second")
}

fn created(_request: HttpRequest) -> HttpResponse {
    HttpResponse::Created
}

fn show_params(request: HttpRequest) -> HttpResponse {
    let params = request.params.expect("a matched request has parameters");
    let mut names = vec!["a", "b", "id", "x", "str", ""];
    names.retain(|n| params.contains_key(n));
    let shown: Vec<String> =
        names.iter().map(|n| format!("{}={}", n, params.get(n).unwrap())).collect();
    text(&format!("{}:{}", params.len(), shown.join(",")))
}

fn request(method: HttpMethod, resource: &str) -> HttpRequest {
    HttpRequest {
        method,
        resource: resource.to_string(),
        protocol: HttpProtocol::Http11,
        headers: TextMap::new(),
        body: String::new(),
        params: None,
    }
}

fn value<'a>(params: &'a TextMap, name: &str) -> Option<&'a str> {
    params.get(name).map(|v| v.as_str())
}

#[test]
fn template_without_parameters_is_kept() {
    let route = Route::new("/user-agent");
    assert_eq!(route.path, "/user-agent");
    assert!(route.params.is_empty());
    let root = Route::new("/");
    assert_eq!(root.path, "/");
    assert!(root.params.is_empty());
}

#[test]
fn template_parameters_become_placeholders() {
    let route = Route::new("/echo/{str}");
    assert_eq!(route.path, "/echo/{}");
    assert_eq!(route.params, vec!["str".to_string()]);
    let two = Route::new("/users/{id}/posts/{post}");
    assert_eq!(two.path, "/users/{}/posts/{}");
    assert_eq!(two.params, vec!["id".to_string(), "post".to_string()]);
}

#[test]
fn only_whole_segments_in_braces_are_parameters() {
    let route = Route::new("/a{b}/{c}d/{}/{/}");
    assert_eq!(route.path, "/a{b}/{c}d/{}/{/}");
    assert_eq!(route.params, vec!["".to_string()]);
    let nested = Route::new("/{{x}}");
    assert_eq!(nested.path, "/{}");
    assert_eq!(nested.params, vec!["{x}".to_string()]);
}

#[test]
fn routes_are_equal_by_pattern() {
    assert!(Route::new("/users/{id}") == Route::new("/users/{name}"));
    assert!(Route::new("/users/{id}") != Route::new("/users/id"));
    assert!(Route::new("/a") == Route::new("/a"));
}

#[test]
fn literal_route_matches_only_itself() {
    let route = Route::new("/user-agent");
    assert_eq!(route.matches("/user-agent").map(|p| p.len()), Some(0));
    assert!(route.matches("/user-agent/").is_none());
    assert!(route.matches("/User-Agent").is_none());
    assert!(route.matches("/user").is_none());
    assert!(route.matches("user-agent").is_none());
    assert!(route.matches("/").is_none());
}

#[test]
fn root_route_matches_root() {
    let route = Route::new("/");
    assert!(route.matches("/").is_some());
    assert!(route.matches("").is_none());
    assert!(route.matches("//").is_none());
}

#[test]
fn parameter_binds_one_segment() {
    let route = Route::new("/echo/{str}");
    let params = route.matches("/echo/abc").expect("the path matches");
    assert_eq!(params.len(), 1);
    assert_eq!(value(&params, "str"), Some("abc"));
    assert!(route.matches("/echo/abc/def").is_none());
    assert!(route.matches("/echo").is_none());
    assert!(route.matches("/other/abc").is_none());
}

#[test]
fn parameter_binds_the_empty_segment() {
    let route = Route::new("/echo/{str}");
    let params = route.matches("/echo/").expect("the path matches");
    assert_eq!(params.len(), 1);
    assert_eq!(value(&params, "str"), Some(""));
}

#[test]
fn parameters_bind_in_template_order() {
    let route = Route::new("/{a}/x/{b}/{id}");
    let params = route.matches("/1/x/2/3").expect("the path matches");
    assert_eq!(params.len(), 3);
    assert_eq!(value(&params, "a"), Some("1"));
    assert_eq!(value(&params, "b"), Some("2"));
    assert_eq!(value(&params, "id"), Some("3"));
    assert!(route.matches("/1/y/2/3").is_none());
}

#[test]
fn parameter_takes_a_segment_in_braces_too() {
    let route = Route::new("/echo/{str}");
    let params = route.matches("/echo/{}").expect("the path matches");
    assert_eq!(value(&params, "str"), Some("{}"));
}

#[test]
fn repeated_parameter_name_keeps_the_later_value() {
    let route = Route::new("/{a}/{a}/{b}");
    let params = route.matches("/1/2/3").expect("the path matches");
    assert_eq!(params.len(), 2);
    assert_eq!(value(&params, "a"), Some("2"));
    assert_eq!(value(&params, "b"), Some("3"));
}

#[test]
fn missing_names_are_empty() {
    let route = Route { path: "/{}/{}".to_string(), params: vec!["a".to_string()] };
    let params = route.matches("/1/2").expect("the path matches");
    assert_eq!(params.len(), 2);
    assert_eq!(value(&params, "a"), Some("1"));
    assert_eq!(value(&params, ""), Some("2"));
}

#[test]
fn empty_table_answers_not_found() {
    let router: Router<Handler> = Router::new();
    assert_eq!(router.len(), 0);
    assert_eq!(router.handle_request(request(HttpMethod::Get, "/")), HttpResponse::NotFound);
}

#[test]
fn registers_under_each_method() {
    let mut router: Router<Handler> = Router::new();
    router.get("/g", first);
    router.post("/p", created);
    router.put("/u", second);
    router.delete("/d", first);
    assert_eq!(router.len(), 4);
    assert_eq!(router.handle_request(request(HttpMethod::Get, "/g")), text("first"));
    assert_eq!(router.handle_request(request(HttpMethod::Post, "/p")), HttpResponse::Created);
    assert_eq!(router.handle_request(request(HttpMethod::Put, "/u")), text("second"));
    assert_eq!(router.handle_request(request(HttpMethod::Delete, "/d")), text("first"));
}

#[test]
fn method_is_part_of_the_key() {
    let mut router: Router<Handler> = Router::new();
    router.get("/x", first);
    router.post("/x", second);
    assert_eq!(router.len(), 2);
    assert_eq!(router.handle_request(request(HttpMethod::Get, "/x")), text("first"));
    assert_eq!(router.handle_request(request(HttpMethod::Post, "/x")), text("second"));
    assert_eq!(router.handle_request(request(HttpMethod::Put, "/x")), HttpResponse::NotFound);
}

#[test]
fn later_registration_for_the_same_key_wins() {
    let mut router: Router<Handler> = Router::new();
    router.get("/x", first);
    router.get("/x", second);
    assert_eq!(router.len(), 1);
    assert_eq!(router.handle_request(request(HttpMethod::Get, "/x")), text("second"));
}

#[test]
fn templates_that_differ_in_names_only_share_a_key() {
    let mut router: Router<Handler> = Router::new();
    router.get("/users/{id}", first);
    router.get("/users/{x}", show_params);
    assert_eq!(router.len(), 1);
    assert_eq!(router.handle_request(request(HttpMethod::Get, "/users/7")), text("1:id=7"));
}

#[test]
fn first_registered_match_answers() {
    let mut router: Router<Handler> = Router::new();
    router.get("/a/{x}", first);
    router.get("/{x}/b", second);
    assert_eq!(router.handle_request(request(HttpMethod::Get, "/a/b")), text("first"));
    assert_eq!(router.handle_request(request(HttpMethod::Get, "/c/b")), text("second"));
    let mut other: Router<Handler> = Router::new();
    other.get("/{x}/b", second);
    other.get("/a/{x}", first);
    assert_eq!(other.handle_request(request(HttpMethod::Get, "/a/b")), text("second"));
}

#[test]
fn handler_sees_the_parameters() {
    let mut router: Router<Handler> = Router::new();
    router.get("/{a}/{b}", show_params);
    assert_eq!(router.handle_request(request(HttpMethod::Get, "/1/2")), text("2:a=1,b=2"));
    assert_eq!(router.handle_request(request(HttpMethod::Get, "//")), text("2:a=,b="));
}

#[test]
fn handler_of_a_literal_route_sees_no_parameter() {
    let mut router: Router<Handler> = Router::new();
    router.get("/plain", show_params);
    assert_eq!(router.handle_request(request(HttpMethod::Get, "/plain")), text("0:"));
}

#[test]
fn resolve_gives_the_handler_and_the_parameters() {
    let mut router: Router<Handler> = Router::new();
    router.get("/echo/{str}", first);
    let (handler, params) =
        router.resolve(HttpMethod::Get, "/echo/hi").expect("the route matches");
    assert_eq!(value(&params, "str"), Some("hi"));
    assert_eq!(handler(request(HttpMethod::Get, "/echo/hi")), text("first"));
    assert!(router.resolve(HttpMethod::Post, "/echo/hi").is_none());
    assert!(router.resolve(HttpMethod::Get, "/echo").is_none());
}

#[test]
fn dispatch_hands_an_unmatched_request_back() {
    let mut router: Router<Handler> = Router::new();
    router.get("/x", first);
    match router.dispatch(request(HttpMethod::Get, "/y")) {
        Routing::Unmatched(back) => {
            assert_eq!(back.resource, "/y");
            assert!(back.params.is_none());
        },
        Routing::Matched(response) => panic!("expected no match, got {:?}", response),
    }
    match router.dispatch(request(HttpMethod::Get, "/x")) {
        Routing::Matched(response) => assert_eq!(response, text("first")),
        Routing::Unmatched(_) => panic!("expected a match"),
    }
}
