//! The market server: what it follows, and which of its streams is the latest.

use crate::ctp::api::{
    all_nul_free, commands_view, ApiCommand, ApiConfig, ApiConfigView, ApiView, CommandView, MDApi,
    Phase,
};
use crate::ctp::error::AppError;
use crate::ctp::loader::{
    joined_url, kline_query_view, request_headers, request_method, request_url, takes_queries,
    url_with_queries, CtpKlineLoader,
};
use crate::ctp::stream::{HandlerView, StreamHandler};
use crate::ctp::topic::{
    add_kline_topic, add_tick_topic, clone_topics, distinct_symbols, distinct_symbols_view,
    kline_subscribed, strings_view, tick_subscribed, topics_view, MarketTopic, TopicView,
};
use crate::text::{is_nul_free, nul_free};
use vstd::prelude::*;
use vstd::string::*;

verus! {

/// The part of the connector's configuration that market data needs.
#[derive(PartialEq, Eq, Debug)]
pub struct CtpConfig {
    /// The address of the market-data front, as host and port.
    pub nm_addr: String,
}

/// An instrument.
#[derive(PartialEq, Eq, Debug)]
pub struct Symbol {
    pub symbol: String,
    pub exchange_id: String,
}

/// The name of an instrument together with its exchange.
pub open spec fn qualified_name(symbol: Symbol) -> Seq<char> {
    symbol.exchange_id@ + seq!['.'] + symbol.symbol@
}

/// The state of a server.
pub struct ServerView {
    pub nm_addr: Seq<char>,
    pub topics: Seq<TopicView>,
    /// How often the server was started or closed, modulo the size of a `usize`.
    pub starts: usize,
}

impl ServerView {
    /// The state after one more start or close.
    pub open spec fn counted(self) -> ServerView {
        ServerView {
            starts: if self.starts == usize::MAX {
                0
            } else {
                (self.starts + 1) as usize
            },
            ..self
        }
    }

    /// The state after `n` more starts and closes.
    pub open spec fn counted_times(self, n: nat) -> ServerView
        decreases n,
    {
        if n == 0 {
            self
        } else {
            self.counted_times((n - 1) as nat).counted()
        }
    }

    /// The configuration of the API: TCP to the one front.
    pub open spec fn api_config(self) -> ApiConfigView {
        ApiConfigView { front_addr: seq!["tcp://"@ + self.nm_addr], ..ApiConfigView::blank() }
    }
}

/// What a start needs: an API to start up, the instruments to subscribe to once it
/// is up, one command each and in this order, and a handler for the stream.
#[verifier::reject_recursive_types(N)]
pub struct Startup<N> {
    pub mapi: MDApi,
    pub channel_name: String,
    pub symbols: Vec<String>,
    pub handler: StreamHandler<N>,
}

/// The command that subscribes to one instrument.
pub open spec fn subscription(symbol: Seq<char>) -> CommandView {
    CommandView::Subscribe { codes: seq![symbol], count: 1 }
}

impl<N> Startup<N> {
    /// Whether every instrument can be named to the native side, as the
    /// subscriptions demand.
    pub fn symbols_are_nul_free(&self) -> (free: bool)
        ensures
            free == all_nul_free(strings_view(self.symbols@)),
    {
        let ghost symbols = strings_view(self.symbols@);
        let mut i: usize = 0;
        while i < self.symbols.len()
            invariant
                i <= symbols.len(),
                symbols == strings_view(self.symbols@),
                forall|j: int| 0 <= j < i ==> nul_free(#[trigger] symbols[j]),
            decreases symbols.len() - i,
        {
            if !is_nul_free(self.symbols[i].as_str()) {
                assert(!nul_free(symbols[i as int]));
                return false;
            }
            i = i + 1;
        }
        true
    }

    /// The commands that subscribe to the instruments, once the API is up.
    pub fn subscriptions(&self) -> (commands: Vec<ApiCommand>)
        requires
            self.mapi@.phase != Phase::Released,
            all_nul_free(strings_view(self.symbols@)),
        ensures
            commands_view(commands@) == strings_view(self.symbols@).map_values(
                |s: Seq<char>| subscription(s),
            ),
    {
        let ghost symbols = strings_view(self.symbols@);
        let ghost subscribe = |s: Seq<char>| subscription(s);
        let mut commands: Vec<ApiCommand> = Vec::new();
        let mut i: usize = 0;
        assert(commands_view(commands@) =~= symbols.take(0).map_values(subscribe));
        while i < self.symbols.len()
            invariant
                i <= symbols.len(),
                symbols == strings_view(self.symbols@),
                self.mapi@.phase != Phase::Released,
                all_nul_free(symbols),
                subscribe == (|s: Seq<char>| subscription(s)),
                commands_view(commands@) == symbols.take(i as int).map_values(subscribe),
            decreases symbols.len() - i,
        {
            let ghost before = commands@;
            let codes: [&str; 1] = [self.symbols[i].as_str()];
            assert(codes@.map_values(|c: &str| c@) =~= seq![symbols[i as int]]);
            let command = self.mapi.subscribe_market_data(codes.as_slice(), false);
            commands.push(command);
            i = i + 1;
            proof {
                let wanted = subscription(symbols[i - 1]);
                assert(command@ == wanted);
                assert(symbols.take(i as int) =~= symbols.take(i - 1).push(symbols[i - 1]));
                assert(commands_view(commands@) =~= commands_view(before).push(wanted));
                assert(symbols.take(i as int).map_values(subscribe) =~= symbols.take(
                    i - 1,
                ).map_values(subscribe).push(wanted));
            }
        }
        assert(symbols.take(symbols.len() as int) =~= symbols);
        commands
    }
}

/// A server of market data.
#[derive(PartialEq, Debug)]
pub struct CtpMarketServer {
    topics: Vec<MarketTopic>,
    config: CtpConfig,
    start_ticket: usize,
}

impl View for CtpMarketServer {
    type V = ServerView;

    closed spec fn view(&self) -> ServerView {
        ServerView {
            nm_addr: self.config.nm_addr@,
            topics: topics_view(self.topics@),
            starts: self.start_ticket,
        }
    }
}

impl CtpMarketServer {
    /// A server that follows nothing and was never started.
    pub fn new(config: CtpConfig) -> (server: Self)
        ensures
            server@ == (ServerView {
                nm_addr: config.nm_addr@,
                topics: Seq::empty(),
                starts: 0,
            }),
    {
        let server = CtpMarketServer { config, topics: Vec::new(), start_ticket: 0 };
        assert(server@.topics =~= Seq::empty());
        server
    }

    /// Prepares the server. There is nothing to prepare.
    pub fn init(&mut self) -> (result: Result<(), AppError>)
        ensures
            result == Ok::<(), AppError>(()),
            final(self)@ == old(self)@,
    {
        Ok(())
    }

    /// Begins a start: it takes the place of any earlier one, and follows the
    /// topics of this moment.
    pub fn start<N: Copy>(&mut self) -> (startup: Startup<N>)
        ensures
            final(self)@ == old(self)@.counted(),
            startup.mapi@ == (ApiView {
                config: old(self)@.api_config(),
                spi: false,
                phase: Phase::Created,
            }),
            startup.channel_name@ == "CTP MARKETSERVER"@,
            strings_view(startup.symbols@) == distinct_symbols_view(old(self)@.topics),
            startup.handler@ == HandlerView::<N>::fresh(
                old(self)@.starts as nat,
                old(self)@.topics,
            ),
            startup.handler@.wf(),
    {
        let ghost before = self@;
        let ticket: usize = self.start_ticket;
        self.start_ticket = if ticket == usize::MAX {
            0
        } else {
            ticket + 1
        };
        let mut front_addr: Vec<String> = Vec::new();
        front_addr.push("tcp://".to_string().concat(self.config.nm_addr.as_str()));
        let config = ApiConfig { flow_path: String::new(), front_addr, ..ApiConfig::default() };
        assert(config@.front_addr =~= before.api_config().front_addr);
        let mapi = MDApi::new(config);
        let symbols = distinct_symbols(&self.topics);
        Startup {
            mapi,
            channel_name: "CTP MARKETSERVER".to_string(),
            symbols,
            handler: StreamHandler::new(ticket, clone_topics(&self.topics)),
        }
    }

    /// How often the server was started or closed so far.
    pub fn starts(&self) -> (starts: usize)
        ensures
            starts == self@.starts,
    {
        self.start_ticket
    }

    /// The request for the latest `count` candles of an instrument.
    pub fn load_kline(
        &mut self,
        symbol: Symbol,
        interval: &str,
        count: u32,
    ) -> (request: ureq::Request)
        ensures
            final(self)@ == old(self)@,
            request_method(request) == "GET"@,
            request_url(request) == ({
                let query = kline_query_view(
                    qualified_name(symbol),
                    interval@,
                    count,
                    None,
                    None,
                );
                url_with_queries(joined_url("http://127.0.0.1:5001"@, query.path), query.params)
            }),
            request_headers(request) == seq![("User-Agent"@, "ctp-connector"@)],
    {
        let name: String = symbol.exchange_id.concat(".").concat(symbol.symbol.as_str());
        proof {
            reveal_strlit(".");
            assert("."@ =~= seq!['.']);
            let query = kline_query_view(qualified_name(symbol), interval@, count, None, None);
            let url = joined_url("http://127.0.0.1:5001"@, query.path);
            reveal_strlit("http://127.0.0.1:5001");
            reveal_strlit("/ctp/klines/n");
            assert(takes_queries(url));
        }
        CtpKlineLoader::new("http://127.0.0.1:5001").load_kline(
            name.as_str(),
            interval,
            count,
            None,
            None,
        )
    }

    /// The round-trip time to the server, which is not measured.
    pub fn get_server_ping(&self) -> (ping: usize)
        ensures
            ping == 0,
    {
        0
    }

    /// Closes the server: its stream, if any, exits at its next event.
    pub fn close(&mut self)
        ensures
            final(self)@ == old(self)@.counted(),
    {
        self.start_ticket = if self.start_ticket == usize::MAX {
            0
        } else {
            self.start_ticket + 1
        };
    }

    /// Follows the ticks of an instrument, from the next start on.
    pub fn subscribe_tick(&mut self, symbol: Symbol) -> (result: Result<(), AppError>)
        ensures
            result == Ok::<(), AppError>(()),
            final(self)@ == (ServerView {
                topics: tick_subscribed(old(self)@.topics, symbol.symbol@),
                ..old(self)@
            }),
    {
        add_tick_topic(&mut self.topics, &symbol.symbol);
        Ok(())
    }

    /// Follows the candles of an instrument, from the next start on.
    pub fn subscribe_kline(&mut self, symbol: Symbol, interval: &str) -> (result: Result<
        (),
        AppError,
    >)
        ensures
            result == Ok::<(), AppError>(()),
            final(self)@ == (ServerView {
                topics: kline_subscribed(old(self)@.topics, symbol.symbol@, interval@),
                ..old(self)@
            }),
    {
        add_kline_topic(&mut self.topics, &symbol.symbol, interval);
        Ok(())
    }
}

/// The stream of a start is the latest one until the next start or close, and
/// never again. (The count of starts wraps around at the size of a `usize`.)
pub proof fn law_only_the_latest_stream_runs<N>(server: ServerView, n: nat)
    requires
        server.starts + n <= usize::MAX,
    ensures
        HandlerView::<N>::fresh(server.starts as nat, server.topics).is_current(
            server.counted_times(n).starts as nat,
        ) <==> n == 1,
{
    lemma_counted_times(server, n);
}

proof fn lemma_counted_times(server: ServerView, n: nat)
    requires
        server.starts + n <= usize::MAX,
    ensures
        server.counted_times(n).starts == server.starts + n,
    decreases n,
{
    if n > 0 {
        lemma_counted_times(server, (n - 1) as nat);
    }
}

/// The name of an instrument together with its exchange is the exchange, a dot and
/// the instrument.
pub proof fn law_exchange_stands_before_the_instrument(symbol: Symbol)
    ensures
        ({
            let name = qualified_name(symbol);
            let dot = symbol.exchange_id@.len() as int;
            &&& name.len() == dot + 1 + symbol.symbol@.len()
            &&& name.take(dot) == symbol.exchange_id@
            &&& name[dot] == '.'
            &&& name.skip(dot + 1) == symbol.symbol@
        }),
{
    let name = qualified_name(symbol);
    let dot = symbol.exchange_id@.len() as int;
    assert(name.take(dot) =~= symbol.exchange_id@);
    assert(name.skip(dot + 1) =~= symbol.symbol@);
}

/// A start or close counts one on, from the largest count to zero, and changes
/// nothing else.
pub proof fn law_counting_changes_the_count_alone(server: ServerView)
    ensures
        server.counted().nm_addr == server.nm_addr,
        server.counted().topics == server.topics,
        server.starts < usize::MAX ==> server.counted().starts == server.starts + 1,
        server.starts == usize::MAX ==> server.counted().starts == 0,
{
}

/// The API of a server connects by TCP, and by unicast, to the one front that the
/// server was given, and has no flow path.
pub proof fn law_server_connects_to_its_front(server: ServerView)
    ensures
        server.api_config().front_addr.len() == 1,
        server.api_config().front_addr[0] == seq!['t', 'c', 'p', ':', '/', '/'] + server.nm_addr,
        !server.api_config().is_udp,
        !server.api_config().is_multicast,
        server.api_config().flow_path.len() == 0,
{
    reveal_strlit("tcp://");
    assert("tcp://"@ =~= seq!['t', 'c', 'p', ':', '/', '/']);
}

/// The command for one instrument subscribes to it, and to it alone.
pub proof fn law_subscription_names_one_instrument(symbol: Seq<char>)
    ensures
        subscription(symbol) matches CommandView::Subscribe { codes, count } && {
            &&& count == 1
            &&& codes.len() == 1
            &&& codes[0] == symbol
        },
{
}

} // verus!
