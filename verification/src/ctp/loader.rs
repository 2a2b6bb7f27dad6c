//! Candle history over HTTP: which request asks for it, and what the answer
//! comes to.

use crate::ctp::error::{AppError, AppErrorView, SEND_FAILED};
use crate::http::request::pairs_view;
use crate::text::{decimal, decimal_view, is_numeral_of, law_decimal_is_a_numeral};
use ureq::Request as HttpRequest;
use vstd::prelude::*;
use vstd::string::*;

verus! {

/// `ureq::Agent`, opaque: it is only handed on.
#[verifier::external_type_specification]
#[verifier::external_body]
pub struct ExAgent(ureq::Agent);

/// `ureq::AgentBuilder`, opaque: it is only handed on.
#[verifier::external_type_specification]
#[verifier::external_body]
pub struct ExAgentBuilder(ureq::AgentBuilder);

/// `ureq::Request`, opaque but for the names below.
#[verifier::external_type_specification]
#[verifier::external_body]
pub struct ExRequest(HttpRequest);

/// The agent that sends a request.
pub uninterp spec fn request_agent(request: HttpRequest) -> ureq::Agent;

/// The method of a request.
pub uninterp spec fn request_method(request: HttpRequest) -> Seq<char>;

/// The URL of a request.
pub uninterp spec fn request_url(request: HttpRequest) -> Seq<char>;

/// The headers of a request, as names and values, in the order in which they are
/// sent.
pub uninterp spec fn request_headers(request: HttpRequest) -> Seq<(Seq<char>, Seq<char>)>;

/// What `ureq::Request::query` makes of a URL: the URL with one more query
/// parameter, or the URL as it was where it does not parse.
pub uninterp spec fn url_with_query(
    url: Seq<char>,
    param: Seq<char>,
    value: Seq<char>,
) -> Seq<char>;

/// Whether headers of this name add up instead of replacing each other.
pub open spec fn is_repeatable(name: Seq<char>) -> bool {
    name.len() >= 2 && (name[0] == 'x' || name[0] == 'X') && name[1] == '-'
}

/// The headers after one more is set.
pub open spec fn with_header(
    headers: Seq<(Seq<char>, Seq<char>)>,
    name: Seq<char>,
    value: Seq<char>,
) -> Seq<(Seq<char>, Seq<char>)> {
    let kept = if is_repeatable(name) {
        headers
    } else {
        headers.filter(|h: (Seq<char>, Seq<char>)| h.0 != name)
    };
    kept.push((name, value))
}

/// `ureq::AgentBuilder::new`: the default settings. Nothing is claimed of them.
pub assume_specification[ ureq::AgentBuilder::new ]() -> (builder: ureq::AgentBuilder)
;

/// `ureq::AgentBuilder::build`: an agent with the builder's settings. Nothing is
/// claimed of it.
pub assume_specification[ ureq::AgentBuilder::build ](builder: ureq::AgentBuilder) -> (agent:
    ureq::Agent)
;

/// `ureq::Agent::request`: a request of this agent, with this method and URL, and
/// without headers.
pub assume_specification[ ureq::Agent::request ](
    agent: &ureq::Agent,
    method: &str,
    path: &str,
) -> (request: HttpRequest)
    ensures
        request_agent(request) == *agent,
        request_method(request) == method@,
        request_url(request) == path@,
        request_headers(request) == Seq::<(Seq<char>, Seq<char>)>::empty(),
;

/// `ureq::Request::set`: the request with one more header. It replaces those of
/// the same name, unless the name begins with `x-`.
pub assume_specification[ HttpRequest::set ](
    request: HttpRequest,
    header: &str,
    value: &str,
) -> (result: HttpRequest)
    ensures
        request_agent(result) == request_agent(request),
        request_method(result) == request_method(request),
        request_url(result) == request_url(request),
        request_headers(result) == with_header(request_headers(request), header@, value@),
;

/// `ureq::Request::url`: the URL as it stands.
pub assume_specification[ HttpRequest::url ](request: &HttpRequest) -> (url: &str)
    ensures
        url@ == request_url(*request),
;

/// The number of characters up to which a text is short: a 256th of what a 32-bit
/// position in a URL can reach. When a URL is parsed, one character comes to less
/// than 256: in a path to three for each of its bytes, in a host name to ten or so
/// for each of the up to eighteen characters that it is mapped to.
pub const SHORT_TEXT: usize = 0x0100_0000;

/// The number of characters that are still short once they are parsed: a 256th of
/// a short text.
pub const SHORT_HEAD: usize = 0x0001_0000;

/// Whether at most `n` characters stand in front of the query of a URL.
pub open spec fn head_fits(url: Seq<char>, n: int) -> bool {
    ||| url.len() <= n
    ||| exists|i: int| 0 <= i <= n && i < url.len() && url[i] == '?'
}

/// Whether a URL takes one parameter of any length: it has no fragment, and what
/// stands in front of its query is short.
pub open spec fn takes_any_query(url: Seq<char>) -> bool {
    !url.contains('#') && head_fits(url, SHORT_TEXT as int)
}

/// Whether a URL takes any number of parameters: it has no fragment, and what
/// stands in front of its query is short even once it is parsed.
pub open spec fn takes_queries(url: Seq<char>) -> bool {
    !url.contains('#') && head_fits(url, SHORT_HEAD as int)
}

/// Whether a URL takes this parameter, though it may not take every other.
pub open spec fn takes_query(url: Seq<char>, param: Seq<char>, value: Seq<char>) -> bool {
    ||| takes_any_query(url)
    ||| url.len() + param.len() + value.len() <= SHORT_TEXT
}

/// Whether a URL came out of adding a parameter.
pub open spec fn is_rewritten(url: Seq<char>) -> bool {
    exists|before: Seq<char>, param: Seq<char>, value: Seq<char>|
        takes_query(before, param, value) && url == #[trigger] url_with_query(before, param, value)
}

/// `ureq::Request::query`: the request with one more parameter in its URL. The
/// call parses the URL, and can panic where the parser counts further than its
/// counters reach: the characters of the authority in 31 bits, the places of the
/// query and of the fragment behind it in 32. A URL that takes the parameter rules
/// that out. No fragment is added. What stands in front of the query grows less
/// than 256 times when a URL is first parsed, and not at all when the call has
/// written the URL before; so the URL goes on to take parameters.
pub assume_specification[ HttpRequest::query ](
    request: HttpRequest,
    param: &str,
    value: &str,
) -> (result: HttpRequest)
    requires
        takes_query(request_url(request), param@, value@),
    ensures
        request_agent(result) == request_agent(request),
        request_method(result) == request_method(request),
        request_url(result) == url_with_query(request_url(request), param@, value@),
        request_headers(result) == request_headers(request),
        takes_queries(request_url(request)) ==> takes_any_query(request_url(result)),
        takes_any_query(request_url(request)) && is_rewritten(request_url(request))
            ==> takes_any_query(request_url(result)),
;

/// The URL with all parameters added, in order.
pub open spec fn url_with_queries(
    url: Seq<char>,
    params: Seq<(Seq<char>, Seq<char>)>,
) -> Seq<char>
    decreases params.len(),
{
    if params.len() == 0 {
        url
    } else {
        url_with_query(
            url_with_queries(url, params.drop_last()),
            params.last().0,
            params.last().1,
        )
    }
}

/// Whether a URL takes all parameters, each in its turn.
pub open spec fn takes_all(url: Seq<char>, params: Seq<(Seq<char>, Seq<char>)>) -> bool {
    ||| takes_queries(url)
    ||| forall|i: int|
        0 <= i < params.len() ==> takes_query(
            #[trigger] url_with_queries(url, params.take(i)),
            params[i].0,
            params[i].1,
        )
}

/// Whether a text holds a character.
fn holds(text: &str, wanted: char) -> (found: bool)
    ensures
        found == text@.contains(wanted),
{
    for c in iter: text.chars()
        invariant
            iter.seq() == text@,
            forall|j: int| 0 <= j < iter.index() ==> text@[j] != wanted,
    {
        if c == wanted {
            return true;
        }
    }
    false
}

/// Tests [`head_fits`].
fn url_head_fits(url: &str, n: usize) -> (fits: bool)
    ensures
        fits == head_fits(url@, n as int),
{
    let mut seen: usize = 0;
    for c in iter: url.chars()
        invariant
            iter.seq() == url@,
            seen == iter.index(),
            seen <= n,
            forall|j: int| 0 <= j < seen ==> url@[j] != '?',
    {
        if c == '?' {
            assert(url@[seen as int] == '?');
            return true;
        }
        if seen == n {
            return false;
        }
        seen = seen + 1;
    }
    true
}

/// Tests [`takes_queries`].
fn url_takes_queries(url: &str) -> (takes: bool)
    ensures
        takes == takes_queries(url@),
{
    !holds(url, '#') && url_head_fits(url, SHORT_HEAD)
}

/// Tests [`takes_query`].
fn url_takes_query(url: &str, param: &str, value: &str) -> (takes: bool)
    ensures
        takes == takes_query(url@, param@, value@),
{
    if !holds(url, '#') && url_head_fits(url, SHORT_TEXT) {
        return true;
    }
    let url_len: usize = url.unicode_len();
    let param_len: usize = param.unicode_len();
    let value_len: usize = value.unicode_len();
    url_len <= SHORT_TEXT && param_len <= SHORT_TEXT - url_len && value_len <= SHORT_TEXT - url_len
        - param_len
}

/// A base URL and a path, with a slash between them.
pub open spec fn joined_url(base_url: Seq<char>, path: Seq<char>) -> Seq<char> {
    base_url + seq!['/'] + path
}

/// A query for candles: a path below the base URL, and parameters.
#[derive(PartialEq, Eq, Debug)]
pub struct KLineQuery {
    pub path: String,
    pub params: Vec<(String, String)>,
}

/// What a query for candles says.
pub struct KLineQueryView {
    pub path: Seq<char>,
    pub params: Seq<(Seq<char>, Seq<char>)>,
}

impl View for KLineQuery {
    type V = KLineQueryView;

    open spec fn view(&self) -> KLineQueryView {
        KLineQueryView { path: self.path@, params: pairs_view(self.params@) }
    }
}

/// The query for candles. From a start time on, all of them are asked for;
/// without one, the latest `count` are, up to an end time where there is one.
pub open spec fn kline_query_view(
    symbol: Seq<char>,
    interval: Seq<char>,
    count: u32,
    start_time: Option<u64>,
    end_time: Option<u64>,
) -> KLineQueryView {
    let subject = seq![("symbol"@, symbol), ("interval"@, interval)];
    let limit = ("limit"@, decimal_view(count as nat));
    match (start_time, end_time) {
        (Some(start), _) => KLineQueryView {
            path: "/ctp/klines"@,
            params: subject.push(("start"@, decimal_view(start as nat))),
        },
        (None, Some(end)) => KLineQueryView {
            path: "/ctp/klines/n"@,
            params: subject.push(("end"@, decimal_view(end as nat))).push(limit),
        },
        (None, None) => KLineQueryView { path: "/ctp/klines/n"@, params: subject.push(limit) },
    }
}

/// Builds the query for candles.
pub fn kline_query(
    symbol: &str,
    interval: &str,
    count: u32,
    start_time: Option<u64>,
    end_time: Option<u64>,
) -> (query: KLineQuery)
    ensures
        query@ == kline_query_view(symbol@, interval@, count, start_time, end_time),
{
    let mut params: Vec<(String, String)> = Vec::new();
    params.push(("symbol".to_string(), symbol.to_string()));
    params.push(("interval".to_string(), interval.to_string()));
    let path: &str;
    match start_time {
        Some(start) => {
            params.push(("start".to_string(), decimal(start)));
            path = "/ctp/klines";
        },
        None => {
            match end_time {
                Some(end) => {
                    params.push(("end".to_string(), decimal(end)));
                },
                None => {},
            }
            params.push(("limit".to_string(), decimal(count as u64)));
            path = "/ctp/klines/n";
        },
    }
    assert(pairs_view(params@) =~= kline_query_view(
        symbol@,
        interval@,
        count,
        start_time,
        end_time,
    ).params);
    KLineQuery { path: path.to_string(), params }
}

/// Loads candle history from an HTTP service.
pub struct CtpKlineLoader {
    client: ureq::Agent,
    base_url: String,
}

impl CtpKlineLoader {
    /// The agent that sends the requests.
    pub closed spec fn client(&self) -> ureq::Agent {
        self.client
    }

    /// The URL that every path is appended to.
    pub closed spec fn base_url(&self) -> Seq<char> {
        self.base_url@
    }

    /// A loader for the service at `base_url`.
    pub fn new(base_url: &str) -> (loader: Self)
        ensures
            loader.base_url() == base_url@,
    {
        CtpKlineLoader {
            client: ureq::AgentBuilder::new().build(),
            base_url: base_url.to_string(),
        }
    }

    /// The URL of a path.
    fn url(&self, path: &str) -> (url: String)
        ensures
            url@ == joined_url(self.base_url(), path@),
    {
        let url: String = self.base_url.clone().concat("/").concat(path);
        proof {
            reveal_strlit("/");
            assert("/"@ =~= seq!['/']);
            assert(url@ =~= joined_url(self.base_url(), path@));
        }
        url
    }

    /// Whether the URL of a path takes all parameters, as a request demands. It
    /// does unless it runs to millions of characters.
    pub fn takes(&self, path: &str, params: &Vec<(String, String)>) -> (takes: bool)
        ensures
            takes == takes_all(joined_url(self.base_url(), path@), pairs_view(params@)),
    {
        let url = self.url(path);
        if url_takes_queries(url.as_str()) {
            return true;
        }
        let ghost pairs = pairs_view(params@);
        let mut request = self.client.request("GET", url.as_str());
        let mut i: usize = 0;
        assert(pairs.take(0) =~= Seq::empty());
        while i < params.len()
            invariant
                i <= params@.len(),
                pairs == pairs_view(params@),
                url@ == joined_url(self.base_url(), path@),
                !takes_queries(url@),
                request_url(request) == url_with_queries(url@, pairs.take(i as int)),
                forall|j: int|
                    0 <= j < i ==> takes_query(
                        #[trigger] url_with_queries(url@, pairs.take(j)),
                        pairs[j].0,
                        pairs[j].1,
                    ),
            decreases params@.len() - i,
        {
            if !url_takes_query(request.url(), params[i].0.as_str(), params[i].1.as_str()) {
                assert(!takes_query(
                    url_with_queries(url@, pairs.take(i as int)),
                    pairs[i as int].0,
                    pairs[i as int].1,
                ));
                return false;
            }
            request = request.query(params[i].0.as_str(), params[i].1.as_str());
            i = i + 1;
            assert(pairs.take(i as int).drop_last() =~= pairs.take(i - 1));
        }
        true
    }

    /// The request to send for a path and parameters.
    pub fn request(
        &self,
        method: &str,
        path: &str,
        params: &Vec<(String, String)>,
    ) -> (request: HttpRequest)
        requires
            takes_all(joined_url(self.base_url(), path@), pairs_view(params@)),
        ensures
            request_agent(request) == self.client(),
            request_method(request) == method@,
            request_url(request) == url_with_queries(
                joined_url(self.base_url(), path@),
                pairs_view(params@),
            ),
            request_headers(request) == seq![("User-Agent"@, "ctp-connector"@)],
    {
        let url = self.url(path);
        let mut request = self.client.request(method, url.as_str());
        request = request.set("User-Agent", "ctp-connector");
        proof {
            reveal(Seq::filter);
            assert(request_headers(request) =~= seq![("User-Agent"@, "ctp-connector"@)]);
        }
        let ghost pairs = pairs_view(params@);
        let mut i: usize = 0;
        assert(pairs.take(0) =~= Seq::empty());
        while i < params.len()
            invariant
                i <= params@.len(),
                pairs == pairs_view(params@),
                takes_all(url@, pairs),
                takes_queries(url@) ==> takes_any_query(request_url(request)),
                i == 0 ==> request_url(request) == url@,
                i > 0 ==> is_rewritten(request_url(request)),
                request_agent(request) == self.client(),
                request_method(request) == method@,
                request_url(request) == url_with_queries(url@, pairs.take(i as int)),
                request_headers(request) == seq![("User-Agent"@, "ctp-connector"@)],
            decreases params@.len() - i,
        {
            request = request.query(params[i].0.as_str(), params[i].1.as_str());
            i = i + 1;
            assert(pairs.take(i as int).drop_last() =~= pairs.take(i - 1));
        }
        assert(pairs.take(pairs.len() as int) =~= pairs);
        request
    }

    /// The request for candles.
    pub fn load_kline(
        &self,
        symbol: &str,
        interval: &str,
        count: u32,
        start_time: Option<u64>,
        end_time: Option<u64>,
    ) -> (request: HttpRequest)
        requires
            ({
                let query = kline_query_view(symbol@, interval@, count, start_time, end_time);
                takes_all(joined_url(self.base_url(), query.path), query.params)
            }),
        ensures
            request_agent(request) == self.client(),
            request_method(request) == "GET"@,
            request_url(request) == ({
                let query = kline_query_view(symbol@, interval@, count, start_time, end_time);
                url_with_queries(joined_url(self.base_url(), query.path), query.params)
            }),
            request_headers(request) == seq![("User-Agent"@, "ctp-connector"@)],
    {
        let query = kline_query(symbol, interval, count, start_time, end_time);
        self.request("GET", query.path.as_str(), &query.params)
    }

    /// The request for candles, where its URL takes the parameters.
    pub fn try_load_kline(
        &self,
        symbol: &str,
        interval: &str,
        count: u32,
        start_time: Option<u64>,
        end_time: Option<u64>,
    ) -> (request: Option<HttpRequest>)
        ensures
            ({
                let query = kline_query_view(symbol@, interval@, count, start_time, end_time);
                let url = joined_url(self.base_url(), query.path);
                &&& request is Some <==> takes_all(url, query.params)
                &&& request matches Some(sendable) ==> {
                    &&& request_agent(sendable) == self.client()
                    &&& request_method(sendable) == "GET"@
                    &&& request_url(sendable) == url_with_queries(url, query.params)
                    &&& request_headers(sendable) == seq![("User-Agent"@, "ctp-connector"@)]
                }
            }),
    {
        let query = kline_query(symbol, interval, count, start_time, end_time);
        if self.takes(query.path.as_str(), &query.params) {
            Some(self.load_kline(symbol, interval, count, start_time, end_time))
        } else {
            None
        }
    }
}

/// What sending a request came to. `outcome` holds the response, or in words why
/// the request could not be sent or was refused.
pub fn sent<R>(outcome: Result<R, String>) -> (result: Result<R, AppError>)
    ensures
        outcome matches Ok(response) ==> result == Ok::<R, AppError>(response),
        outcome matches Err(reason) ==> (result matches Err(error) && error@ == (AppErrorView {
            code: SEND_FAILED,
            message: reason@,
        })),
{
    match outcome {
        Ok(response) => Ok(response),
        Err(reason) => Err(AppError::new(SEND_FAILED, reason.as_str())),
    }
}

/// The candles of an answer. An answer that was read holds some.
pub fn answered_klines<K>(answer: Result<Option<Vec<K>>, AppError>) -> (klines: Result<
    Vec<K>,
    AppError,
>)
    requires
        answer != Ok::<Option<Vec<K>>, AppError>(None),
    ensures
        answer matches Ok(Some(read)) ==> klines == Ok::<Vec<K>, AppError>(read),
        answer matches Err(error) ==> klines == Err::<Vec<K>, AppError>(error),
{
    match answer {
        Ok(read) => Ok(read.unwrap()),
        Err(error) => Err(error),
    }
}

/// With a start time, neither the count nor the end time matters.
pub proof fn law_start_time_overrides_count_and_end_time(
    symbol: Seq<char>,
    interval: Seq<char>,
    start: u64,
    count: u32,
    end_time: Option<u64>,
    other_count: u32,
    other_end_time: Option<u64>,
)
    ensures
        kline_query_view(symbol, interval, count, Some(start), end_time) == kline_query_view(
            symbol,
            interval,
            other_count,
            Some(start),
            other_end_time,
        ),
{
}

/// No parameter of a query for candles is given twice.
pub proof fn law_no_parameter_is_given_twice(
    symbol: Seq<char>,
    interval: Seq<char>,
    count: u32,
    start_time: Option<u64>,
    end_time: Option<u64>,
    i: int,
    j: int,
)
    requires
        0 <= i < j < kline_query_view(symbol, interval, count, start_time, end_time).params.len(),
    ensures
        ({
            let params = kline_query_view(symbol, interval, count, start_time, end_time).params;
            params[i].0 != params[j].0
        }),
{
    reveal_strlit("symbol");
    reveal_strlit("interval");
    reveal_strlit("start");
    reveal_strlit("end");
    reveal_strlit("limit");
    assert("symbol"@.len() == 6 && "interval"@.len() == 8 && "start"@.len() == 5);
    assert("end"@.len() == 3 && "limit"@.len() == 5);
}

/// A query for candles is seen as its path and its parameters.
pub proof fn law_query_is_seen_as_it_is(query: KLineQuery)
    ensures
        query@.path == query.path@,
        query@.params == pairs_view(query.params@),
{
}

/// Whether a query gives this value under this name, and no other.
pub open spec fn asks_for(
    params: Seq<(Seq<char>, Seq<char>)>,
    name: Seq<char>,
    value: Seq<char>,
) -> bool {
    &&& exists|i: int| 0 <= i < params.len() && (#[trigger] params[i]).0 == name
    &&& forall|i: int|
        0 <= i < params.len() && (#[trigger] params[i]).0 == name ==> params[i].1 == value
}

/// Whether a query gives this number in decimal under this name, and nothing else.
pub open spec fn asks_for_number(
    params: Seq<(Seq<char>, Seq<char>)>,
    name: Seq<char>,
    number: int,
) -> bool {
    &&& exists|i: int| 0 <= i < params.len() && (#[trigger] params[i]).0 == name
    &&& forall|i: int|
        0 <= i < params.len() && (#[trigger] params[i]).0 == name ==> is_numeral_of(
            params[i].1,
            number,
        )
}

/// A query asks for its instrument and interval. With a start time it asks for that
/// time too; without one it asks for as many candles as `count` says, and for the end
/// time where there is one. It asks for nothing else.
pub proof fn law_query_asks_for_what_is_wanted(
    symbol: Seq<char>,
    interval: Seq<char>,
    count: u32,
    start_time: Option<u64>,
    end_time: Option<u64>,
)
    ensures
        ({
            let query = kline_query_view(symbol, interval, count, start_time, end_time);
            &&& asks_for(query.params, "symbol"@, symbol)
            &&& asks_for(query.params, "interval"@, interval)
            &&& start_time matches Some(start) ==> {
                &&& query.path == "/ctp/klines"@
                &&& query.params.len() == 3
                &&& asks_for_number(query.params, "start"@, start as int)
            }
            &&& start_time is None ==> {
                &&& query.path == "/ctp/klines/n"@
                &&& query.params.len() == if end_time is Some {
                    4int
                } else {
                    3int
                }
                &&& asks_for_number(query.params, "limit"@, count as int)
                &&& end_time matches Some(end) ==> asks_for_number(
                    query.params,
                    "end"@,
                    end as int,
                )
            }
        }),
{
    lemma_parameter_names();
    law_decimal_is_a_numeral(count as nat);
    let params = kline_query_view(symbol, interval, count, start_time, end_time).params;
    assert(params[0].0 == "symbol"@ && params[1].0 == "interval"@);
    match (start_time, end_time) {
        (Some(start), _) => {
            law_decimal_is_a_numeral(start as nat);
            assert(params[2].0 == "start"@);
        },
        (None, Some(end)) => {
            law_decimal_is_a_numeral(end as nat);
            assert(params[2].0 == "end"@ && params[3].0 == "limit"@);
        },
        (None, None) => {
            assert(params[2].0 == "limit"@);
        },
    }
}

proof fn lemma_parameter_names()
    ensures
        "symbol"@.len() == 6,
        "interval"@.len() == 8,
        "start"@.len() == 5,
        "limit"@.len() == 5,
        "end"@.len() == 3,
        "start"@ != "limit"@,
{
    reveal_strlit("symbol");
    reveal_strlit("interval");
    reveal_strlit("start");
    reveal_strlit("end");
    reveal_strlit("limit");
    assert("start"@[0] != "limit"@[0]);
}

/// Two queries are the same exactly where they are for the same instrument, interval
/// and start time, and, without a start time, for the same count and end time.
pub proof fn law_different_wishes_make_different_queries(
    symbol: (Seq<char>, Seq<char>),
    interval: (Seq<char>, Seq<char>),
    count: (u32, u32),
    start_time: (Option<u64>, Option<u64>),
    end_time: (Option<u64>, Option<u64>),
)
    ensures
        kline_query_view(symbol.0, interval.0, count.0, start_time.0, end_time.0)
            == kline_query_view(symbol.1, interval.1, count.1, start_time.1, end_time.1) <==> {
            &&& symbol.0 == symbol.1
            &&& interval.0 == interval.1
            &&& start_time.0 == start_time.1
            &&& start_time.0 is None ==> count.0 == count.1 && end_time.0 == end_time.1
        },
{
    let one = kline_query_view(symbol.0, interval.0, count.0, start_time.0, end_time.0);
    let other = kline_query_view(symbol.1, interval.1, count.1, start_time.1, end_time.1);
    law_query_asks_for_what_is_wanted(symbol.0, interval.0, count.0, start_time.0, end_time.0);
    law_query_asks_for_what_is_wanted(symbol.1, interval.1, count.1, start_time.1, end_time.1);
    if one == other {
        let i = choose|i: int|
            0 <= i < one.params.len() && (#[trigger] one.params[i]).0 == "symbol"@;
        assert(one.params[i].1 == symbol.0 && other.params[i].1 == symbol.1);
        let i = choose|i: int|
            0 <= i < one.params.len() && (#[trigger] one.params[i]).0 == "interval"@;
        assert(one.params[i].1 == interval.0 && other.params[i].1 == interval.1);
        reveal_strlit("/ctp/klines");
        reveal_strlit("/ctp/klines/n");
        assert("/ctp/klines"@.len() == 11 && "/ctp/klines/n"@.len() == 13);
        if start_time.0 is Some {
            let i = choose|i: int|
                0 <= i < one.params.len() && (#[trigger] one.params[i]).0 == "start"@;
            assert(is_numeral_of(other.params[i].1, start_time.1->0 as int));
        } else {
            let i = choose|i: int|
                0 <= i < one.params.len() && (#[trigger] one.params[i]).0 == "limit"@;
            assert(is_numeral_of(other.params[i].1, count.1 as int));
            if end_time.0 is Some {
                let i = choose|i: int|
                    0 <= i < one.params.len() && (#[trigger] one.params[i]).0 == "end"@;
                assert(is_numeral_of(other.params[i].1, end_time.1->0 as int));
            }
        }
    }
}

/// A joined URL is the base URL, one slash and the path.
pub proof fn law_path_follows_the_base_url(base_url: Seq<char>, path: Seq<char>)
    ensures
        joined_url(base_url, path).len() == base_url.len() + 1 + path.len(),
        joined_url(base_url, path).take(base_url.len() as int) == base_url,
        joined_url(base_url, path)[base_url.len() as int] == '/',
        joined_url(base_url, path).skip(base_url.len() as int + 1) == path,
{
    assert(joined_url(base_url, path).take(base_url.len() as int) =~= base_url);
    assert(joined_url(base_url, path).skip(base_url.len() as int + 1) =~= path);
}

/// Parameters are added to a URL one after the other, none left out: those that are
/// given behind others are added to what the others came to.
pub proof fn law_parameters_are_added_one_by_one(
    url: Seq<char>,
    first: Seq<(Seq<char>, Seq<char>)>,
    name: Seq<char>,
    value: Seq<char>,
    second: Seq<(Seq<char>, Seq<char>)>,
)
    ensures
        url_with_queries(url, Seq::empty()) == url,
        url_with_queries(url, first.push((name, value))) == url_with_query(
            url_with_queries(url, first),
            name,
            value,
        ),
        url_with_queries(url, first + second) == url_with_queries(
            url_with_queries(url, first),
            second,
        ),
    decreases second.len(),
{
    assert(first.push((name, value)).drop_last() =~= first);
    if second.len() == 0 {
        assert(first + second =~= first);
    } else {
        law_parameters_are_added_one_by_one(url, first, name, value, second.drop_last());
        assert((first + second).drop_last() =~= first + second.drop_last());
    }
}

/// A URL of up to 65536 characters without a fragment takes all parameters, however
/// many they are and however long; any URL takes none at all, and one parameter with
/// which it comes to no more than 16777216 characters.
pub proof fn law_ordinary_urls_take_all_parameters(
    url: Seq<char>,
    params: Seq<(Seq<char>, Seq<char>)>,
    name: Seq<char>,
    value: Seq<char>,
)
    ensures
        url.len() <= 65536 && !url.contains('#') ==> takes_all(url, params),
        takes_all(url, Seq::empty()),
        url.len() + name.len() + value.len() <= 16777216 ==> takes_all(url, seq![(name, value)]),
{
    let one = seq![(name, value)];
    assert(one.take(0) =~= Seq::empty());
    if url.len() + name.len() + value.len() <= 16777216 {
        assert forall|i: int| 0 <= i < one.len() implies takes_query(
            #[trigger] url_with_queries(url, one.take(i)),
            one[i].0,
            one[i].1,
        ) by {
            assert(one.take(i) =~= Seq::empty());
        }
    }
}

/// A response is handed on as it is; a failure becomes an error with code -200, and
/// the reason is its message.
pub proof fn law_failure_is_reported_with_its_reason<R>(
    outcome: Result<R, String>,
    result: Result<R, AppError>,
)
    requires
        call_ensures(sent::<R>, (outcome,), result),
    ensures
        outcome matches Ok(response) ==> result == Ok::<R, AppError>(response),
        outcome matches Err(reason) ==> (result matches Err(error) && error.code == -200
            && error.message@ == reason@),
{
}

/// The candles that an answer holds come out as they are, and so does its error.
pub proof fn law_answer_comes_out_as_it_is<K>(
    answer: Result<Option<Vec<K>>, AppError>,
    klines: Result<Vec<K>, AppError>,
)
    requires
        call_ensures(answered_klines::<K>, (answer,), klines),
    ensures
        answer matches Ok(Some(read)) ==> klines == Ok::<Vec<K>, AppError>(read),
        answer matches Err(error) ==> klines == Err::<Vec<K>, AppError>(error),
{
}

} // verus!
