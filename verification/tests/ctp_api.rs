use market_connectors::ctp::api::{
    ApiCommand, ApiConfig, MDApi, Phase, StartStep, Wait, RECV_TIMEOUT,
};
use market_connectors::ctp::market::MarketData;

fn config() -> ApiConfig {
    ApiConfig {
        flow_path: "flow".to_string(),
        is_udp: true,
        is_multicast: false,
        front_addr: vec!["tcp://a:1".to_string(), "tcp://b:2".to_string()],
    }
}

fn ok() -> Result<(), String> {
    Ok(())
}

fn waited(api: &mut MDApi, delivered: &[MarketData<f64>]) -> StartStep {
    api.received(delivered, ok())
}

#[test]
fn default_configuration_is_blank() {
    let blank = ApiConfig::default();
    assert_eq!(blank.flow_path, "");
    assert!(!blank.is_udp);
    assert!(!blank.is_multicast);
    assert!(blank.front_addr.is_empty());
}

#[test]
fn version_is_decoded() {
    assert_eq!(MDApi::get_version(b"v6.7.2_20230913"), "v6.7.2_20230913");
    assert_eq!(MDApi::get_version("\u{7248}1".as_bytes()), "\u{7248}1");
    assert_eq!(MDApi::get_version(&[b'v', 0xff, b'1']), "v\u{fffd}1");
    assert_eq!(MDApi::get_version(&[]), "");
}

#[test]
fn creation_passes_the_configuration_on() {
    let api = MDApi::new(config());
    assert_eq!(api.phase(), Phase::Created);
    assert_eq!(
        api.create_command(),
        ApiCommand::Create { flow_path: "flow".to_string(), is_udp: true, is_multicast: false }
    );
}

#[test]
fn start_registers_callbacks_and_fronts_then_connects() {
    let mut api = MDApi::new(config());
    assert_eq!(
        api.start(),
        vec![
            ApiCommand::RegisterSpi,
            ApiCommand::RegisterFront("tcp://a:1".to_string()),
            ApiCommand::RegisterFront("tcp://b:2".to_string()),
            ApiCommand::Init,
        ]
    );
    assert_eq!(api.phase(), Phase::Connecting);
}

#[test]
fn every_callback_object_is_freed_once() {
    let mut api = MDApi::new(ApiConfig::default());
    let mut all = api.start();
    all.extend(api.start());
    all.extend(api.release());
    assert_eq!(
        all,
        vec![
            ApiCommand::RegisterSpi,
            ApiCommand::Init,
            ApiCommand::DropSpi,
            ApiCommand::RegisterSpi,
            ApiCommand::Init,
            ApiCommand::Destruct,
            ApiCommand::DropSpi,
        ]
    );
    assert_eq!(api.phase(), Phase::Released);
    let mut unstarted = MDApi::new(ApiConfig::default());
    assert_eq!(unstarted.release(), vec![ApiCommand::Destruct]);
    assert_eq!(unstarted.phase(), Phase::Released);
}

#[test]
fn only_the_newest_callback_object_lives() {
    let mut api = MDApi::new(ApiConfig::default());
    assert_eq!(api.register(), vec![ApiCommand::RegisterSpi]);
    assert_eq!(api.phase(), Phase::Created);
    assert_eq!(api.register(), vec![ApiCommand::DropSpi, ApiCommand::RegisterSpi]);
    assert_eq!(
        api.req_init(),
        vec![ApiCommand::DropSpi, ApiCommand::RegisterSpi, ApiCommand::Init]
    );
    assert_eq!(api.phase(), Phase::Created);
    assert_eq!(
        api.start(),
        vec![ApiCommand::DropSpi, ApiCommand::RegisterSpi, ApiCommand::Init]
    );
    assert_eq!(api.phase(), Phase::Connecting);
    assert_eq!(api.release(), vec![ApiCommand::Destruct, ApiCommand::DropSpi]);
}

#[test]
fn login_is_requested_by_the_connection_even_of_a_failed_start() {
    let mut api = MDApi::new(config());
    api.start();
    assert!(matches!(waited(&mut api, &[MarketData::Connected]), StartStep::Login(_)));
    let connected: [MarketData<f64>; 1] = [MarketData::Connected];
    assert!(matches!(api.received(&connected, Err("gone".to_string())), StartStep::Failed(_)));
    let mut unconnected = MDApi::new(config());
    unconnected.start();
    assert_eq!(waited(&mut unconnected, &[MarketData::Other]), StartStep::Receive);
    assert!(matches!(
        unconnected.received(&connected, Err("gone".to_string())),
        StartStep::Failed(_)
    ));
}

#[test]
fn login_follows_the_connection() {
    let mut api = MDApi::new(config());
    api.start();
    assert_eq!(waited(&mut api, &[]), StartStep::Receive);
    assert_eq!(waited(&mut api, &[MarketData::UserLogin]), StartStep::Receive);
    assert_eq!(api.phase(), Phase::Connecting);
    match waited(&mut api, &[MarketData::Other, MarketData::Connected]) {
        StartStep::Login(ApiCommand::UserLogin { field, request_id }) => {
            assert_eq!(request_id, 1);
            assert_eq!(field.password, [0i8; 41]);
            assert_eq!(field.client_ip_address, [0i8; 33]);
            assert_eq!(field.login_remark, [0i8; 36]);
            assert_eq!(field.client_ip_port, 0);
        }
        other => panic!("no login: {:?}", other),
    }
    assert_eq!(api.phase(), Phase::LoggingIn);
    assert_eq!(waited(&mut api, &[MarketData::Connected]), StartStep::Receive);
    assert_eq!(waited(&mut api, &[MarketData::UserLogin]), StartStep::Ready);
    assert_eq!(api.phase(), Phase::Ready);
    assert_eq!(RECV_TIMEOUT, 5);
}

#[test]
fn failed_wait_fails_the_start() {
    let mut api = MDApi::new(config());
    api.start();
    let connected: [MarketData<f64>; 1] = [MarketData::Connected];
    assert_eq!(
        api.received(&connected, Err("Timeout".to_string())),
        StartStep::Failed("Error happened when connecting to market server: Timeout".to_string())
    );
    assert_eq!(api.phase(), Phase::Failed);
    api.start();
    waited(&mut api, &[MarketData::Connected]);
    let none: [MarketData<f64>; 0] = [];
    assert_eq!(
        api.received(&none, Err("Disconnected".to_string())),
        StartStep::Failed("Error happened when logining to market server: Disconnected".to_string())
    );
}

#[test]
fn single_waits_are_judged() {
    let none: [MarketData<i64>; 0] = [];
    assert_eq!(MDApi::check_connected(&none, ok()), Wait::Again);
    assert_eq!(MDApi::check_connected(&[MarketData::<i64>::Connected], ok()), Wait::Done);
    assert_eq!(MDApi::check_logined(&[MarketData::<i64>::Connected], ok()), Wait::Again);
    assert_eq!(MDApi::check_logined(&[MarketData::<i64>::UserLogin], ok()), Wait::Done);
}

#[test]
fn subscriptions_name_and_count_their_instruments() {
    let api = MDApi::new(config());
    assert_eq!(
        api.subscribe_market_data(&["rb2410", "au2412"], false),
        ApiCommand::Subscribe {
            codes: vec!["rb2410".to_string(), "au2412".to_string()],
            count: 2
        }
    );
    assert_eq!(
        api.subscribe_market_data(&["rb2410"], true),
        ApiCommand::Unsubscribe { codes: vec!["rb2410".to_string()], count: 1 }
    );
    assert_eq!(
        api.subscribe_market_data(&[], false),
        ApiCommand::Subscribe { codes: vec![], count: 0 }
    );
}

#[test]
fn subscription_replies_are_judged() {
    assert_eq!(MDApi::subscribe_reply(0), Ok(()));
    assert_eq!(
        MDApi::subscribe_reply(-3),
        Err("Fail to req `md_api_subscribe_market_data`: -3".to_string())
    );
    assert_eq!(
        MDApi::subscribe_reply(2),
        Err("Fail to req `md_api_subscribe_market_data`: 2".to_string())
    );
}

#[test]
fn front_with_a_nul_is_found() {
    assert!(MDApi::new(config()).fronts_are_nul_free());
    let mut broken = config();
    broken.front_addr.push("tcp://\u{0}".to_string());
    assert!(!MDApi::new(broken).fronts_are_nul_free());
}
