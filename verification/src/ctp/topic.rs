//! The topics that a market server follows.

use vstd::hash_set::StringHashSet;
use vstd::prelude::*;
use vstd::string::*;

verus! {

/// A subscription: an instrument, and the candle interval to build for it. An
/// empty interval stands for ticks alone.
#[derive(PartialEq, Debug)]
pub struct MarketTopic {
    pub symbol: String,
    pub interval: String,
}

/// What a topic says.
pub struct TopicView {
    pub symbol: Seq<char>,
    pub interval: Seq<char>,
}

impl View for MarketTopic {
    type V = TopicView;

    open spec fn view(&self) -> TopicView {
        TopicView { symbol: self.symbol@, interval: self.interval@ }
    }
}

impl Clone for MarketTopic {
    fn clone(&self) -> (topic: Self)
        ensures
            topic == *self,
    {
        MarketTopic { symbol: self.symbol.clone(), interval: self.interval.clone() }
    }
}

/// What a list of topics says.
pub open spec fn topics_view(topics: Seq<MarketTopic>) -> Seq<TopicView> {
    topics.map_values(|t: MarketTopic| t@)
}

/// What a list of strings says.
pub open spec fn strings_view(strings: Seq<String>) -> Seq<Seq<char>> {
    strings.map_values(|s: String| s@)
}

/// Whether some topic is about `symbol`.
pub open spec fn follows_symbol(topics: Seq<TopicView>, symbol: Seq<char>) -> bool {
    exists|i: int| 0 <= i < topics.len() && topics[i].symbol == symbol
}

/// Whether some topic is about `symbol` and `interval`.
pub open spec fn follows(
    topics: Seq<TopicView>,
    symbol: Seq<char>,
    interval: Seq<char>,
) -> bool {
    topics.contains(TopicView { symbol, interval })
}

/// The topics after a subscription to ticks: a topic for ticks alone is added
/// where no topic is about the instrument.
pub open spec fn tick_subscribed(topics: Seq<TopicView>, symbol: Seq<char>) -> Seq<TopicView> {
    if follows_symbol(topics, symbol) {
        topics
    } else {
        topics.push(TopicView { symbol, interval: Seq::empty() })
    }
}

/// The topics after a subscription to candles: a topic is added where no topic is
/// about this instrument and interval.
pub open spec fn kline_subscribed(
    topics: Seq<TopicView>,
    symbol: Seq<char>,
    interval: Seq<char>,
) -> Seq<TopicView> {
    if follows(topics, symbol, interval) {
        topics
    } else {
        topics.push(TopicView { symbol, interval })
    }
}

/// The instruments of the topics, each once, in the order of their first topics.
pub open spec fn distinct_symbols_view(topics: Seq<TopicView>) -> Seq<Seq<char>>
    decreases topics.len(),
{
    if topics.len() == 0 {
        Seq::empty()
    } else {
        let before = distinct_symbols_view(topics.drop_last());
        if before.contains(topics.last().symbol) {
            before
        } else {
            before.push(topics.last().symbol)
        }
    }
}

/// Copies a list of topics.
pub(crate) fn clone_topics(topics: &Vec<MarketTopic>) -> (copy: Vec<MarketTopic>)
    ensures
        copy@ == topics@,
{
    let mut copy: Vec<MarketTopic> = Vec::new();
    let mut i: usize = 0;
    while i < topics.len()
        invariant
            i <= topics@.len(),
            copy@ == topics@.take(i as int),
        decreases topics@.len() - i,
    {
        copy.push(topics[i].clone());
        i = i + 1;
        assert(topics@.take(i as int) =~= topics@.take(i - 1).push(topics@[i - 1]));
    }
    assert(topics@.take(topics@.len() as int) =~= topics@);
    copy
}

/// Adds a topic for ticks alone, unless some topic is about the instrument.
pub(crate) fn add_tick_topic(topics: &mut Vec<MarketTopic>, symbol: &String)
    ensures
        topics_view(final(topics)@) == tick_subscribed(topics_view(old(topics)@), symbol@),
{
    let ghost view = topics_view(topics@);
    let mut i: usize = 0;
    while i < topics.len()
        invariant
            i <= topics@.len(),
            view == topics_view(topics@),
            *topics == *old(topics),
            forall|j: int| 0 <= j < i ==> view[j].symbol != symbol@,
        decreases topics@.len() - i,
    {
        if topics[i].symbol == *symbol {
            assert(view[i as int].symbol == symbol@);
            return;
        }
        i = i + 1;
    }
    topics.push(MarketTopic { symbol: symbol.clone(), interval: String::new() });
    assert(topics_view(topics@) =~= view.push(
        TopicView { symbol: symbol@, interval: Seq::empty() },
    ));
}

/// Adds a topic for candles, unless there is one for the instrument and interval.
pub(crate) fn add_kline_topic(topics: &mut Vec<MarketTopic>, symbol: &String, interval: &str)
    ensures
        topics_view(final(topics)@) == kline_subscribed(
            topics_view(old(topics)@),
            symbol@,
            interval@,
        ),
{
    let ghost view = topics_view(topics@);
    let wanted_interval: String = interval.to_string();
    let ghost wanted = TopicView { symbol: symbol@, interval: interval@ };
    let mut i: usize = 0;
    while i < topics.len()
        invariant
            i <= topics@.len(),
            view == topics_view(topics@),
            *topics == *old(topics),
            wanted_interval@ == interval@,
            wanted == (TopicView { symbol: symbol@, interval: interval@ }),
            forall|j: int| 0 <= j < i ==> view[j] != wanted,
        decreases topics@.len() - i,
    {
        if topics[i].symbol == *symbol && topics[i].interval == wanted_interval {
            assert(view[i as int] == wanted);
            return;
        }
        i = i + 1;
    }
    topics.push(MarketTopic { symbol: symbol.clone(), interval: wanted_interval });
    assert(topics_view(topics@) =~= view.push(wanted));
}

/// Lists the instruments of the topics, each once, in the order of their first
/// topics.
pub(crate) fn distinct_symbols(topics: &Vec<MarketTopic>) -> (symbols: Vec<String>)
    ensures
        strings_view(symbols@) == distinct_symbols_view(topics_view(topics@)),
{
    let mut seen = StringHashSet::new();
    let mut symbols: Vec<String> = Vec::new();
    let ghost view = topics_view(topics@);
    let mut i: usize = 0;
    assert(strings_view(symbols@) =~= distinct_symbols_view(view.take(0)));
    while i < topics.len()
        invariant
            i <= topics@.len(),
            view == topics_view(topics@),
            strings_view(symbols@) == distinct_symbols_view(view.take(i as int)),
            forall|s: Seq<char>| seen@.contains(s) <==> strings_view(symbols@).contains(s),
        decreases topics@.len() - i,
    {
        let ghost before = symbols@;
        let symbol: &String = &topics[i].symbol;
        assert(view.take(i + 1).drop_last() =~= view.take(i as int));
        if !seen.contains(symbol.as_str()) {
            symbols.push(symbol.clone());
            seen.insert(symbol.clone());
            proof {
                let old_view = strings_view(before);
                assert(strings_view(symbols@) =~= old_view.push(symbol@));
                assert forall|s: Seq<char>| seen@.contains(s) <==> strings_view(symbols@).contains(
                    s,
                ) by {
                    vstd::seq_lib::lemma_seq_contains_after_push(old_view, symbol@, s);
                }
            }
        }
        i = i + 1;
    }
    assert(view.take(view.len() as int) =~= view);
    symbols
}

/// A subscription to ticks leaves the instrument followed.
pub proof fn law_subscribed_instrument_is_followed(topics: Seq<TopicView>, symbol: Seq<char>)
    ensures
        follows_symbol(tick_subscribed(topics, symbol), symbol),
{
    if !follows_symbol(topics, symbol) {
        assert(tick_subscribed(topics, symbol)[topics.len() as int].symbol == symbol);
    }
}

/// A subscription to candles leaves the instrument and interval followed.
pub proof fn law_subscribed_candle_is_followed(
    topics: Seq<TopicView>,
    symbol: Seq<char>,
    interval: Seq<char>,
)
    ensures
        follows(kline_subscribed(topics, symbol, interval), symbol, interval),
{
    if !follows(topics, symbol, interval) {
        assert(kline_subscribed(topics, symbol, interval)[topics.len() as int] == (TopicView {
            symbol,
            interval,
        }));
    }
}

/// Subscribing to ticks again changes nothing.
pub proof fn law_tick_subscription_is_idempotent(topics: Seq<TopicView>, symbol: Seq<char>)
    ensures
        tick_subscribed(tick_subscribed(topics, symbol), symbol) == tick_subscribed(topics, symbol),
{
    law_subscribed_instrument_is_followed(topics, symbol);
}

/// Subscribing to candles again changes nothing.
pub proof fn law_kline_subscription_is_idempotent(
    topics: Seq<TopicView>,
    symbol: Seq<char>,
    interval: Seq<char>,
)
    ensures
        kline_subscribed(kline_subscribed(topics, symbol, interval), symbol, interval)
            == kline_subscribed(topics, symbol, interval),
{
    law_subscribed_candle_is_followed(topics, symbol, interval);
}

/// An instrument whose candles are subscribed needs no subscription to its ticks.
pub proof fn law_candles_bring_their_ticks(
    topics: Seq<TopicView>,
    symbol: Seq<char>,
    interval: Seq<char>,
)
    ensures
        tick_subscribed(kline_subscribed(topics, symbol, interval), symbol) == kline_subscribed(
            topics,
            symbol,
            interval,
        ),
{
    law_subscribed_candle_is_followed(topics, symbol, interval);
    let after = kline_subscribed(topics, symbol, interval);
    let i = choose|i: int|
        0 <= i < after.len() && after[i] == (TopicView { symbol, interval });
    assert(after[i].symbol == symbol);
}

/// Subscriptions drop no topic and reorder none.
pub proof fn law_topics_only_grow(
    topics: Seq<TopicView>,
    symbol: Seq<char>,
    interval: Seq<char>,
)
    ensures
        topics.is_prefix_of(tick_subscribed(topics, symbol)),
        topics.is_prefix_of(kline_subscribed(topics, symbol, interval)),
{
}

/// No topic occurs twice, whatever is subscribed to.
pub proof fn law_no_topic_occurs_twice(
    topics: Seq<TopicView>,
    symbol: Seq<char>,
    interval: Seq<char>,
)
    requires
        topics.no_duplicates(),
    ensures
        tick_subscribed(topics, symbol).no_duplicates(),
        kline_subscribed(topics, symbol, interval).no_duplicates(),
{
}

/// The instruments to subscribe to are those of the topics, each of them once.
pub proof fn law_every_instrument_is_listed_once(topics: Seq<TopicView>, symbol: Seq<char>)
    ensures
        distinct_symbols_view(topics).no_duplicates(),
        distinct_symbols_view(topics).contains(symbol) <==> follows_symbol(topics, symbol),
    decreases topics.len(),
{
    if topics.len() > 0 {
        let rest = topics.drop_last();
        let last = topics.last().symbol;
        law_every_instrument_is_listed_once(rest, symbol);
        law_every_instrument_is_listed_once(rest, last);
        let before = distinct_symbols_view(rest);
        if !before.contains(last) {
            vstd::seq_lib::lemma_seq_contains_after_push(before, last, symbol);
        }
        if follows_symbol(topics, symbol) {
            let i = choose|i: int| 0 <= i < topics.len() && topics[i].symbol == symbol;
            if i < rest.len() {
                assert(rest[i].symbol == symbol);
            }
        }
        if follows_symbol(rest, symbol) {
            let i = choose|i: int| 0 <= i < rest.len() && rest[i].symbol == symbol;
            assert(topics[i].symbol == symbol);
        }
        assert(topics[topics.len() - 1].symbol == last);
    }
}

/// Topics and strings are seen one by one, in order, each field in its place.
pub proof fn law_topics_are_seen_in_order(topics: Seq<MarketTopic>, strings: Seq<String>)
    ensures
        topics_view(topics).len() == topics.len(),
        strings_view(strings).len() == strings.len(),
        forall|i: int|
            0 <= i < topics.len() ==> (#[trigger] topics_view(topics)[i]).symbol
                == topics[i].symbol@ && topics_view(topics)[i].interval == topics[i].interval@,
        forall|i: int|
            0 <= i < strings.len() ==> #[trigger] strings_view(strings)[i] == strings[i]@,
{
}

/// A subscription to ticks asks for no candle: of any instrument, the candles that
/// are asked for are those that were asked for before.
pub proof fn law_tick_subscription_asks_for_no_candle(
    topics: Seq<TopicView>,
    symbol: Seq<char>,
    other: Seq<char>,
    interval: Seq<char>,
)
    requires
        interval.len() > 0,
    ensures
        tick_subscribed(topics, symbol).contains(TopicView { symbol: other, interval })
            <==> topics.contains(TopicView { symbol: other, interval }),
        follows(tick_subscribed(topics, symbol), other, interval) <==> follows(
            topics,
            other,
            interval,
        ),
{
    let after = tick_subscribed(topics, symbol);
    let wanted = TopicView { symbol: other, interval };
    if topics.contains(wanted) {
        let i = choose|i: int| 0 <= i < topics.len() && topics[i] == wanted;
        assert(after[i] == wanted);
    }
    if after.contains(wanted) {
        let i = choose|i: int| 0 <= i < after.len() && after[i] == wanted;
        assert(i < topics.len());
        assert(topics[i] == wanted);
    }
}

/// A subscription to ticks changes nothing where a topic is about the instrument;
/// else it adds one topic at the end, about this instrument and no interval.
pub proof fn law_tick_subscription_adds_a_missing_instrument(
    topics: Seq<TopicView>,
    symbol: Seq<char>,
)
    ensures
        (exists|i: int| 0 <= i < topics.len() && (#[trigger] topics[i]).symbol == symbol)
            ==> tick_subscribed(topics, symbol) == topics,
        (forall|i: int| 0 <= i < topics.len() ==> (#[trigger] topics[i]).symbol != symbol) ==> {
            &&& tick_subscribed(topics, symbol).len() == topics.len() + 1
            &&& tick_subscribed(topics, symbol).last().symbol == symbol
            &&& tick_subscribed(topics, symbol).last().interval.len() == 0
        },
        forall|i: int|
            0 <= i < topics.len() ==> #[trigger] tick_subscribed(topics, symbol)[i] == topics[i],
{
}

/// A subscription to candles asks for this candle and for no other that was not
/// asked for before.
pub proof fn law_kline_subscription_asks_for_this_candle_alone(
    topics: Seq<TopicView>,
    symbol: Seq<char>,
    interval: Seq<char>,
    other: TopicView,
)
    ensures
        kline_subscribed(topics, symbol, interval).contains(other) <==> topics.contains(other) || (
        other.symbol == symbol && other.interval == interval),
{
    let after = kline_subscribed(topics, symbol, interval);
    law_subscribed_candle_is_followed(topics, symbol, interval);
    if topics.contains(other) {
        let i = choose|i: int| 0 <= i < topics.len() && topics[i] == other;
        assert(after[i] == other);
    }
    if after.contains(other) {
        let i = choose|i: int| 0 <= i < after.len() && after[i] == other;
        if i < topics.len() {
            assert(topics[i] == other);
        }
    }
}

/// A subscription to candles changes nothing where a topic is about this instrument
/// and interval; else it adds one topic at the end, about both.
pub proof fn law_kline_subscription_adds_a_missing_candle(
    topics: Seq<TopicView>,
    symbol: Seq<char>,
    interval: Seq<char>,
)
    ensures
        (exists|i: int|
            0 <= i < topics.len() && (#[trigger] topics[i]).symbol == symbol && topics[i].interval
                == interval) ==> kline_subscribed(topics, symbol, interval) == topics,
        (forall|i: int|
            0 <= i < topics.len() ==> !((#[trigger] topics[i]).symbol == symbol
                && topics[i].interval == interval)) ==> {
            &&& kline_subscribed(topics, symbol, interval).len() == topics.len() + 1
            &&& kline_subscribed(topics, symbol, interval).last().symbol == symbol
            &&& kline_subscribed(topics, symbol, interval).last().interval == interval
        },
        forall|i: int|
            0 <= i < topics.len() ==> #[trigger] kline_subscribed(topics, symbol, interval)[i]
                == topics[i],
{
    if exists|i: int|
        0 <= i < topics.len() && (#[trigger] topics[i]).symbol == symbol && topics[i].interval
            == interval {
        let i = choose|i: int|
            0 <= i < topics.len() && (#[trigger] topics[i]).symbol == symbol && topics[i].interval
                == interval;
        assert(topics[i] == (TopicView { symbol, interval }));
    }
}

/// The instruments to subscribe to are listed in the order of their first topics:
/// some topic about the one comes before every topic about the other.
pub proof fn law_instruments_are_listed_in_order(topics: Seq<TopicView>, i: int, j: int)
    requires
        0 <= i < j < distinct_symbols_view(topics).len(),
    ensures
        exists|p: int|
            0 <= p < topics.len() && (#[trigger] topics[p]).symbol == distinct_symbols_view(
                topics,
            )[i] && forall|q: int|
                0 <= q < topics.len() && (#[trigger] topics[q]).symbol == distinct_symbols_view(
                    topics,
                )[j] ==> p < q,
    decreases topics.len(),
{
    let rest = topics.drop_last();
    let last = topics.last().symbol;
    let before = distinct_symbols_view(rest);
    let listed = distinct_symbols_view(topics);
    law_every_instrument_is_listed_once(rest, last);
    if j < before.len() {
        law_instruments_are_listed_in_order(rest, i, j);
        let p = choose|p: int|
            0 <= p < rest.len() && (#[trigger] rest[p]).symbol == before[i] && forall|q: int|
                0 <= q < rest.len() && (#[trigger] rest[q]).symbol == before[j] ==> p < q;
        assert(topics[p].symbol == listed[i]);
        assert forall|q: int| 0 <= q < topics.len() && (#[trigger] topics[q]).symbol
            == listed[j] implies p < q by {
            if q < rest.len() {
                assert(rest[q].symbol == before[j]);
            }
        }
    } else {
        law_every_instrument_is_listed_once(rest, before[i]);
        assert(before.contains(before[i]));
        let p = choose|p: int| 0 <= p < rest.len() && rest[p].symbol == before[i];
        assert(topics[p].symbol == listed[i]);
        assert forall|q: int| 0 <= q < topics.len() && (#[trigger] topics[q]).symbol
            == listed[j] implies p < q by {
            if q < rest.len() {
                assert(rest[q].symbol == last);
                assert(follows_symbol(rest, last));
            }
        }
    }
}

} // verus!
