use market_connectors::ctp::error::AppError;
use market_connectors::ctp::loader::{
    answered_klines, kline_query, sent, CtpKlineLoader, KLineQuery, SHORT_HEAD,
    SHORT_TEXT,
};
use market_connectors::ctp::server::{CtpConfig, CtpMarketServer, Symbol};

fn owned(pairs: &[(&str, &str)]) -> Vec<(String, String)> {
    pairs.iter().map(|p| (p.0.to_string(), p.1.to_string())).collect()
}

fn query_of(request: &ureq::Request) -> Vec<(String, String)> {
    owned(&request.request_url().unwrap().query_pairs())
}

#[test]
fn start_time_overrides_count_and_end_time() {
    let wanted = KLineQuery {
        path: "/ctp/klines".to_string(),
        params: owned(&[("symbol", "rb"), ("interval", "1m"), ("start", "1700000000000")]),
    };
    assert_eq!(kline_query("rb", "1m", 10, Some(1_700_000_000_000), None), wanted);
    assert_eq!(kline_query("rb", "1m", 99, Some(1_700_000_000_000), Some(5)), wanted);
}

#[test]
fn count_limits_a_query_without_start_time() {
    assert_eq!(
        kline_query("rb", "1m", 10, None, None),
        KLineQuery {
            path: "/ctp/klines/n".to_string(),
            params: owned(&[("symbol", "rb"), ("interval", "1m"), ("limit", "10")]),
        }
    );
    assert_eq!(
        kline_query("rb", "1m", 10, None, Some(7)),
        KLineQuery {
            path: "/ctp/klines/n".to_string(),
            params: owned(&[("symbol", "rb"), ("interval", "1m"), ("end", "7"), ("limit", "10")]),
        }
    );
}

#[test]
fn no_parameter_is_given_twice() {
    for (start, end) in [(None, None), (None, Some(1)), (Some(1), None), (Some(1), Some(2))] {
        let params = kline_query("s", "i", 3, start, end).params;
        for i in 0..params.len() {
            for j in 0..i {
                assert_ne!(params[i].0, params[j].0);
            }
        }
    }
}

#[test]
fn request_carries_method_url_and_header() {
    let loader = CtpKlineLoader::new("http://127.0.0.1:5001");
    let request = loader.request("POST", "some/path", &owned(&[("a", "1"), ("b", "x y")]));
    assert_eq!(request.method(), "POST");
    assert_eq!(request.url(), "http://127.0.0.1:5001/some/path?a=1&b=x+y");
    assert_eq!(request.header("User-Agent"), Some("ctp-connector"));
    assert_eq!(request.header_names(), vec!["user-agent".to_string()]);
    let bare = loader.request("GET", "p", &vec![]);
    assert_eq!(bare.url(), "http://127.0.0.1:5001/p");
}

#[test]
fn candle_request_asks_the_service() {
    let loader = CtpKlineLoader::new("http://history:80");
    let request = loader.load_kline("SHFE.rb2410", "5m", 20, None, Some(9));
    assert_eq!(request.method(), "GET");
    assert_eq!(
        query_of(&request),
        owned(&[("symbol", "SHFE.rb2410"), ("interval", "5m"), ("end", "9"), ("limit", "20")])
    );
    assert_eq!(request.request_url().unwrap().path(), "//ctp/klines/n");
    let since = loader.load_kline("SHFE.rb2410", "5m", 20, Some(3), None);
    assert_eq!(
        since.url(),
        "http://history//ctp/klines?symbol=SHFE.rb2410&interval=5m&start=3"
    );
}

#[test]
fn base_url_that_does_not_parse_is_left_alone() {
    let loader = CtpKlineLoader::new("nowhere");
    assert!(loader.takes("/ctp/klines/n", &owned(&[("limit", "1")])));
    assert_eq!(loader.load_kline("s", "i", 1, None, None).url(), "nowhere//ctp/klines/n");
}

#[test]
fn fragment_stays_behind_the_query() {
    let loader = CtpKlineLoader::new("http://h/#top");
    let request = loader.try_load_kline("s", "i", 1, None, None).unwrap();
    assert_eq!(request.url(), "http://h/?symbol=s&interval=i&limit=1#top//ctp/klines/n");
    let plain = CtpKlineLoader::new("http://h");
    let tried = plain.try_load_kline("s", "i", 1, None, None).unwrap();
    assert_eq!(tried.url(), plain.load_kline("s", "i", 1, None, None).url());
    assert_eq!(tried.method(), "GET");
    assert_eq!(tried.header("User-Agent"), Some("ctp-connector"));
}

#[test]
fn endless_url_takes_no_parameter() {
    let endless = "p".repeat(SHORT_TEXT);
    let one = owned(&[("a", "1")]);
    let long = owned(&[("a", endless.as_str())]);
    let loader = CtpKlineLoader::new("http://h");
    assert!(loader.takes("p", &one));
    assert!(loader.takes("p", &long));
    assert!(!loader.takes("p#", &long));
    assert!(loader.takes("p#", &one));
    assert!(loader.takes(&endless, &vec![]));
    assert!(!loader.takes(&endless, &one));
    assert!(!loader.takes(&format!("{}?", endless), &one));
    assert!(loader.takes(&format!("p?{}", endless), &one));
    let far = CtpKlineLoader::new(&format!("http://h/{}", endless));
    assert!(far.try_load_kline("s", "i", 1, None, None).is_none());
}

#[test]
fn long_url_takes_parameters_while_it_fits() {
    let loader = CtpKlineLoader::new("http://h");
    let path = "p".repeat(2 * SHORT_HEAD);
    let params = owned(&[("a", "1"), ("b", "2")]);
    assert!(loader.takes(&path, &params));
    let request = loader.request("GET", &path, &params);
    assert_eq!(request.url(), format!("http://h/{}?a=1&b=2", path));
}

#[test]
fn server_asks_for_the_qualified_name() {
    let mut server = CtpMarketServer::new(CtpConfig { nm_addr: "h:1".to_string() });
    let symbol = Symbol { symbol: "rb2410".to_string(), exchange_id: "SHFE".to_string() };
    let request = server.load_kline(symbol, "1h", 100);
    assert_eq!(
        request.url(),
        "http://127.0.0.1:5001//ctp/klines/n?symbol=SHFE.rb2410&interval=1h&limit=100"
    );
    assert_eq!(request.header("user-agent"), Some("ctp-connector"));
}

#[test]
fn failed_sending_is_an_error() {
    assert_eq!(sent::<u8>(Ok(7)), Ok(7));
    assert_eq!(
        sent::<u8>(Err("refused".to_string())),
        Err(AppError { code: -200, message: "refused".to_string() })
    );
}

#[test]
fn answers_are_unwrapped() {
    assert_eq!(answered_klines(Ok(Some(vec![1, 2]))), Ok(vec![1, 2]));
    let error = AppError::new(-1, "bad");
    assert_eq!(
        answered_klines::<u8>(Err(error)),
        Err(AppError { code: -1, message: "bad".to_string() })
    );
}
