use market_connectors::http::request::{Credentials, Method, Request, RequestBuilder};

fn keys() -> Credentials {
    Credentials { api_key: "key".to_string(), api_secret: "hush".to_string() }
}

fn pairs(request: &Request) -> Vec<(&str, &str)> {
    request.params().iter().map(|p| (p.0.as_str(), p.1.as_str())).collect()
}

#[test]
fn bare_request_has_the_defaults() {
    let request = Request::from(RequestBuilder::new(Method::Get, "/v5/market/time"));
    assert_eq!(*request.method(), Method::Get);
    assert_eq!(request.path(), "/v5/market/time");
    assert_eq!(request.body(), "");
    assert!(request.params().is_empty());
    assert_eq!(*request.credentials(), None);
    assert!(!*request.sign());
    assert_eq!(*request.recv_window(), 5000);
}

#[test]
fn builder_fills_every_field() {
    let request = Request::from(
        RequestBuilder::new(Method::Post, "/v5/order/create")
            .params(vec![("category", "linear")])
            .credentials(keys())
            .sign()
            .recv_window(20_000)
            .body("{\"qty\":\"1\"}"),
    );
    assert_eq!(*request.method(), Method::Post);
    assert_eq!(pairs(&request), vec![("category", "linear")]);
    assert_eq!(*request.credentials(), Some(keys()));
    assert!(*request.sign());
    assert_eq!(*request.recv_window(), 20_000);
    assert_eq!(request.body(), "{\"qty\":\"1\"}");
}

#[test]
fn into_gives_the_same_request() {
    let request: Request = RequestBuilder::new(Method::Delete, "/x").sign().into();
    assert_eq!(request, Request::from(RequestBuilder::new(Method::Delete, "/x").sign()));
    assert_ne!(request, Request::from(RequestBuilder::new(Method::Put, "/x").sign()));
}

#[test]
fn parameters_accumulate_and_keep_duplicates() {
    let in_two = Request::from(
        RequestBuilder::new(Method::Get, "/q")
            .params([("symbol", "BTC"), ("limit", "1")])
            .params([("symbol", "ETH")]),
    );
    assert_eq!(pairs(&in_two), vec![("symbol", "BTC"), ("limit", "1"), ("symbol", "ETH")]);
    let all: &[(&str, &str)] = &[("symbol", "BTC"), ("limit", "1"), ("symbol", "ETH")];
    let in_one = Request::from(RequestBuilder::new(Method::Get, "/q").params(all));
    assert_eq!(in_one, in_two);
    let none: [(&str, &str); 0] = [];
    assert!(Request::from(RequestBuilder::new(Method::Get, "/q").params(none)).params().is_empty());
}

#[test]
fn parameters_come_from_any_iterator() {
    let given = vec![("symbol", 1), ("skipped", 0), ("symbol", 2)];
    let texts = ["zero", "one", "two"];
    let request = Request::from(
        RequestBuilder::new(Method::Get, "/q")
            .params([("limit", "1")])
            .params_from(given.iter().filter(|p| p.1 > 0).map(|p| (p.0, texts[p.1]))),
    );
    assert_eq!(pairs(&request), vec![("limit", "1"), ("symbol", "one"), ("symbol", "two")]);
}

#[test]
fn the_later_value_counts() {
    let other = Credentials { api_key: "k2".to_string(), api_secret: "s2".to_string() };
    let request = Request::from(
        RequestBuilder::new(Method::Get, "/q")
            .body("a")
            .body("b")
            .recv_window(1)
            .recv_window(2)
            .credentials(other)
            .credentials(keys())
            .sign()
            .sign(),
    );
    assert_eq!(request.body(), "b");
    assert_eq!(*request.recv_window(), 2);
    assert_eq!(*request.credentials(), Some(keys()));
    assert!(*request.sign());
}

#[test]
fn the_order_of_different_calls_is_free() {
    let one = RequestBuilder::new(Method::Get, "/q").sign().body("b").params([("a", "1")]);
    let other = RequestBuilder::new(Method::Get, "/q").params([("a", "1")]).body("b").sign();
    assert_eq!(Request::from(one), Request::from(other));
}
