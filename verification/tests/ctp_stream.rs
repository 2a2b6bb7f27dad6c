use market_connectors::ctp::api::ApiCommand;
use market_connectors::ctp::market::{Delta, KLine, KLineDraft, MarketData, Tick};
use market_connectors::ctp::server::{CtpConfig, CtpMarketServer, Startup, Symbol};
use market_connectors::ctp::stream::{
    publish, CombineTask, CombinerParams, StreamAction, StreamError, StreamHandler,
};
use market_connectors::ctp::topic::MarketTopic;

fn symbol(name: &str) -> Symbol {
    Symbol { symbol: name.to_string(), exchange_id: "SHFE".to_string() }
}

fn server() -> CtpMarketServer {
    CtpMarketServer::new(CtpConfig { nm_addr: "180.168.146.187:10211".to_string() })
}

fn topic(name: &str, interval: &str) -> MarketTopic {
    MarketTopic { symbol: name.to_string(), interval: interval.to_string() }
}

fn tick(name: &str, close: f64, volume: f64, turnover: f64) -> Tick<f64> {
    Tick {
        symbol: name.to_string(),
        datetime: "2024-05-06 21:00:00".to_string(),
        close,
        volume,
        turnover,
        timestamp: 1_715_000_400_000,
    }
}

fn draft(name: &str, interval: &str, price: f64, volume: Delta<f64>, turnover: Delta<f64>) -> KLineDraft<f64> {
    KLineDraft {
        symbol: name.to_string(),
        datetime: "2024-05-06 21:00:00".to_string(),
        interval: interval.to_string(),
        price,
        volume,
        turnover,
        timestamp: 1_715_000_400_000,
    }
}

fn made(interval: &str) -> Option<CombinerParams> {
    Some(CombinerParams { interval: interval.to_string(), length: 100, opening_hour: Some(21) })
}

fn tasks(actions: Vec<StreamAction<f64>>) -> Vec<CombineTask<f64>> {
    let mut found = Vec::new();
    for action in actions {
        match action {
            StreamAction::Combine(task) => found.push(task),
            StreamAction::SendTick(_) => {}
        }
    }
    found
}

fn handled(handler: &mut StreamHandler<f64>, tick: Tick<f64>) -> Vec<CombineTask<f64>> {
    let (reply, actions) = handler.handle(1, Some(&MarketData::Tick(tick)));
    assert_eq!(reply, Ok(false));
    tasks(actions)
}

#[test]
fn startup_describes_the_api_and_the_instruments() {
    let mut server = server();
    server.subscribe_kline(symbol("rb"), "1m").unwrap();
    server.subscribe_tick(symbol("au")).unwrap();
    server.subscribe_kline(symbol("rb"), "5m").unwrap();
    server.subscribe_tick(symbol("rb")).unwrap();
    let mut startup: Startup<f64> = server.start();
    assert_eq!(startup.symbols, vec!["rb".to_string(), "au".to_string()]);
    assert_eq!(startup.channel_name, "CTP MARKETSERVER");
    assert_eq!(
        startup.subscriptions(),
        vec![
            ApiCommand::Subscribe { codes: vec!["rb".to_string()], count: 1 },
            ApiCommand::Subscribe { codes: vec!["au".to_string()], count: 1 },
        ]
    );
    assert_eq!(
        startup.mapi.create_command(),
        ApiCommand::Create { flow_path: "".to_string(), is_udp: false, is_multicast: false }
    );
    assert_eq!(
        startup.mapi.start(),
        vec![
            ApiCommand::RegisterSpi,
            ApiCommand::RegisterFront("tcp://180.168.146.187:10211".to_string()),
            ApiCommand::Init,
        ]
    );
}

#[test]
fn subscribing_again_changes_nothing() {
    let mut once = server();
    once.subscribe_tick(symbol("au")).unwrap();
    once.subscribe_kline(symbol("rb"), "1m").unwrap();
    let mut twice = server();
    for _ in 0..2 {
        twice.subscribe_tick(symbol("au")).unwrap();
        twice.subscribe_kline(symbol("rb"), "1m").unwrap();
    }
    assert_eq!(once, twice);
    let mut other = server();
    other.subscribe_tick(symbol("au")).unwrap();
    other.subscribe_kline(symbol("rb"), "5m").unwrap();
    assert_ne!(once, other);
}

#[test]
fn candles_bring_their_ticks() {
    let mut with_ticks = server();
    with_ticks.subscribe_kline(symbol("rb"), "1m").unwrap();
    with_ticks.subscribe_tick(symbol("rb")).unwrap();
    let mut without = server();
    without.subscribe_kline(symbol("rb"), "1m").unwrap();
    assert_eq!(with_ticks, without);
    let mut ticks_first = server();
    ticks_first.subscribe_tick(symbol("rb")).unwrap();
    ticks_first.subscribe_kline(symbol("rb"), "1m").unwrap();
    assert_ne!(ticks_first, without);
}

#[test]
fn plain_answers_of_the_server() {
    let mut server = server();
    assert_eq!(server.init(), Ok(()));
    assert_eq!(server.get_server_ping(), 0);
    assert_eq!(server.starts(), 0);
}

#[test]
fn first_tick_is_forwarded_and_moves_nothing() {
    let mut handler = StreamHandler::new(0, vec![topic("rb", "1m")]);
    let first = tick("rb", 3600.5, 100.0, 360_050.0);
    let (reply, actions) = handler.handle(1, Some(&MarketData::Tick(first.clone())));
    assert_eq!(reply, Ok(false));
    assert_eq!(
        actions,
        vec![
            StreamAction::SendTick(first),
            StreamAction::Combine(CombineTask {
                slot: 0,
                create: made("1m"),
                kline: draft("rb", "1m", 3600.5, Delta::Zero, Delta::Zero),
                tick: true,
            }),
        ]
    );
}

#[test]
fn first_tick_moves_nothing_after_other_instruments() {
    let mut handler = StreamHandler::new(0, vec![topic("rb", "1m"), topic("au", "1m")]);
    handled(&mut handler, tick("rb", 1.0, 100.0, 1000.0));
    handled(&mut handler, tick("cu", 1.0, 5.0, 50.0));
    handled(&mut handler, tick("rb", 1.0, 110.0, 1100.0));
    let first = handled(&mut handler, tick("au", 2.0, 7.0, 70.0));
    assert_eq!(first[0].kline.volume, Delta::Zero);
    assert_eq!(first[0].kline.turnover, Delta::Zero);
}

#[test]
fn totals_are_counted_from_the_last_tick_of_the_instrument() {
    let mut handler = StreamHandler::new(0, vec![topic("rb", "1m"), topic("au", "1m")]);
    handled(&mut handler, tick("rb", 1.0, 100.0, 1000.0));
    let other = handled(&mut handler, tick("au", 2.0, 7.0, 70.0));
    assert_eq!(other[0].kline.volume, Delta::Zero);
    let second = handled(&mut handler, tick("rb", 3.0, 130.0, 1500.0));
    assert_eq!(second[0].kline.volume, Delta::Since { current: 130.0, previous: 100.0 });
    assert_eq!(second[0].kline.turnover, Delta::Since { current: 1500.0, previous: 1000.0 });
    let third = handled(&mut handler, tick("rb", 3.0, 131.0, 1501.0));
    assert_eq!(third[0].kline.volume, Delta::Since { current: 131.0, previous: 130.0 });
}

#[test]
fn one_update_for_each_candle_topic_in_order() {
    let topics = vec![topic("rb", ""), topic("rb", "5m"), topic("au", "1m"), topic("rb", "1m")];
    let mut handler = StreamHandler::new(0, topics);
    let first = handled(&mut handler, tick("rb", 1.0, 1.0, 1.0));
    let intervals: Vec<&str> = first.iter().map(|t| t.kline.interval.as_str()).collect();
    assert_eq!(intervals, vec!["5m", "1m"]);
    assert_eq!((first[0].slot, first[1].slot), (0, 1));
    assert_eq!(first[0].create, made("5m"));
    assert_eq!(first[1].create, made("1m"));
    let au = handled(&mut handler, tick("au", 1.0, 1.0, 1.0));
    assert_eq!((au.len(), au[0].slot), (1, 2));
    let again = handled(&mut handler, tick("rb", 1.0, 2.0, 2.0));
    assert_eq!((again[0].slot, again[1].slot), (0, 1));
    assert_eq!(again[0].create, None);
    assert_eq!(again[1].create, None);
    assert!(handled(&mut handler, tick("cu", 1.0, 1.0, 1.0)).is_empty());
}

#[test]
fn equal_keys_share_a_combiner() {
    let mut handler = StreamHandler::new(0, vec![topic("a_b", "c"), topic("a", "b_c")]);
    let one = handled(&mut handler, tick("a_b", 1.0, 1.0, 1.0));
    let other = handled(&mut handler, tick("a", 1.0, 1.0, 1.0));
    assert_eq!(one[0].slot, other[0].slot);
    assert_eq!(one[0].create, made("c"));
    assert_eq!(other[0].create, None);
    assert_eq!(other[0].kline.interval, "b_c");
}

#[test]
fn other_events_are_left_alone() {
    let mut handler: StreamHandler<f64> = StreamHandler::new(0, vec![topic("rb", "1m")]);
    for event in [MarketData::Connected, MarketData::UserLogin, MarketData::Other] {
        assert_eq!(handler.handle(1, Some(&event)), (Ok(true), vec![]));
    }
    assert_eq!(handler.handle(1, None), (Ok(true), vec![]));
}

#[test]
fn only_the_latest_stream_runs() {
    let mut server = server();
    server.subscribe_tick(symbol("rb")).unwrap();
    let mut first: Startup<f64> = server.start();
    let event = MarketData::Tick(tick("rb", 1.0, 1.0, 1.0));
    assert_eq!(first.handler.handle(server.starts(), Some(&event)).0, Ok(false));
    let mut second: Startup<f64> = server.start();
    assert_eq!(
        first.handler.handle(server.starts(), Some(&event)),
        (Err(StreamError::Exit), vec![])
    );
    assert_eq!(second.handler.handle(server.starts(), None).0, Ok(true));
    server.close();
    assert_eq!(second.handler.handle(server.starts(), None).0, Err(StreamError::Exit));
}

#[test]
fn running_stream_keeps_its_topics() {
    let mut server = server();
    server.subscribe_kline(symbol("rb"), "1m").unwrap();
    let mut startup: Startup<f64> = server.start();
    server.subscribe_kline(symbol("rb"), "5m").unwrap();
    assert_eq!(handled(&mut startup.handler, tick("rb", 1.0, 1.0, 1.0)).len(), 1);
    let mut restarted: Startup<f64> = server.start();
    let (_, actions) =
        restarted.handler.handle(2, Some(&MarketData::Tick(tick("rb", 1.0, 1.0, 1.0))));
    assert_eq!(tasks(actions).len(), 2);
}

#[test]
fn drafts_are_completed() {
    let kline = draft("rb", "1m", 10.0, Delta::Zero, Delta::Zero).complete(30.0, 500.0);
    let wanted = KLine {
        symbol: "rb".to_string(),
        datetime: "2024-05-06 21:00:00".to_string(),
        interval: "1m".to_string(),
        open: 10.0,
        high: 10.0,
        low: 10.0,
        close: 10.0,
        volume: 30.0,
        turnover: 500.0,
        timestamp: 1_715_000_400_000,
    };
    assert_eq!(kline, wanted);
    assert_eq!(publish(Some(kline)), Some(MarketData::Kline(wanted)));
    assert_eq!(publish::<f64>(None), None);
}

#[test]
fn name_with_a_nul_is_found() {
    let mut server = server();
    server.subscribe_tick(symbol("rb")).unwrap();
    let started: Startup<f64> = server.start();
    assert!(started.symbols_are_nul_free());
    assert!(started.mapi.fronts_are_nul_free());
    server.subscribe_kline(symbol("r\u{0}b"), "1m").unwrap();
    let broken: Startup<f64> = server.start();
    assert!(!broken.symbols_are_nul_free());
    assert_eq!(broken.symbols, vec!["rb", "r\u{0}b"]);
    assert_eq!(server.starts(), 2);
    let mut nowhere = CtpMarketServer::new(CtpConfig { nm_addr: "\u{0}".to_string() });
    assert!(!nowhere.start::<f64>().mapi.fronts_are_nul_free());
}
