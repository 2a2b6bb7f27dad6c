//! The handler of the market-data stream: it forwards every tick and turns it
//! into candle updates, one for each topic that asks for candles.

use crate::ctp::market::{Delta, KLine, KLineDraft, KLineDraftView, MarketData, Tick, TickView};
use crate::ctp::topic::{
    follows, follows_symbol, tick_subscribed, topics_view, MarketTopic, TopicView,
};
use vstd::hash_map::StringHashMap;
use vstd::prelude::*;
use vstd::string::*;

verus! {

/// The number of candles that a combiner keeps.
pub const COMBINER_LENGTH: u32 = 100;

/// The hour at which a combiner's trading day opens.
pub const COMBINER_OPENING_HOUR: u32 = 21;

/// Why a handler stops its stream.
#[derive(Clone, Copy, PartialEq, Eq, Structural, Debug)]
pub enum StreamError {
    /// The stream was replaced by a later one, or closed.
    Exit,
}

/// How a candle combiner is made.
#[derive(PartialEq, Debug)]
pub struct CombinerParams {
    pub interval: String,
    pub length: u32,
    pub opening_hour: Option<u32>,
}

/// What the parameters of a combiner say.
pub struct CombinerParamsView {
    pub interval: Seq<char>,
    pub length: u32,
    pub opening_hour: Option<u32>,
}

impl View for CombinerParams {
    type V = CombinerParamsView;

    open spec fn view(&self) -> CombinerParamsView {
        CombinerParamsView {
            interval: self.interval@,
            length: self.length,
            opening_hour: self.opening_hour,
        }
    }
}

/// A candle update: hand `kline` to the combiner in `slot`.
#[derive(PartialEq, Debug)]
pub struct CombineTask<N> {
    /// The combiner. Slots are numbered from zero, in the order in which they are
    /// first used.
    pub slot: usize,
    /// How to make the combiner first, where the slot is new.
    pub create: Option<CombinerParams>,
    /// The candle of the tick.
    pub kline: KLineDraft<N>,
    /// Whether the update is that of a tick.
    pub tick: bool,
}

/// What a candle update says.
pub struct CombineView<N> {
    pub slot: nat,
    pub create: Option<CombinerParamsView>,
    pub kline: KLineDraftView<N>,
    pub tick: bool,
}

impl<N> View for CombineTask<N> {
    type V = CombineView<N>;

    open spec fn view(&self) -> CombineView<N> {
        CombineView {
            slot: self.slot as nat,
            create: match self.create {
                Some(params) => Some(params@),
                None => None,
            },
            kline: self.kline@,
            tick: self.tick,
        }
    }
}

/// Something for the owner of the stream to do.
#[derive(PartialEq, Debug)]
pub enum StreamAction<N> {
    /// Send the tick on.
    SendTick(Tick<N>),
    /// Update a candle, and send the candle that the combiner completes, if any.
    Combine(CombineTask<N>),
}

/// What an action says.
pub enum ActionView<N> {
    SendTick(TickView<N>),
    Combine(CombineView<N>),
}

impl<N> View for StreamAction<N> {
    type V = ActionView<N>;

    open spec fn view(&self) -> ActionView<N> {
        match self {
            StreamAction::SendTick(tick) => ActionView::SendTick(tick@),
            StreamAction::Combine(task) => ActionView::Combine(task@),
        }
    }
}

/// What a list of actions says.
pub open spec fn actions_view<N>(actions: Seq<StreamAction<N>>) -> Seq<ActionView<N>> {
    actions.map_values(|a: StreamAction<N>| a@)
}

/// The name under which the combiner of an instrument and interval is kept.
pub open spec fn combiner_key(symbol: Seq<char>, interval: Seq<char>) -> Seq<char> {
    symbol + seq!['_'] + interval
}

/// Whether a tick of `symbol` updates the candle of `topic`.
pub open spec fn wants_candle(topic: TopicView, symbol: Seq<char>) -> bool {
    topic.symbol == symbol && topic.interval.len() > 0
}

/// The combiner slots, with one for `key`: the next free slot where it had none.
pub open spec fn claim(slots: Map<Seq<char>, nat>, key: Seq<char>) -> Map<Seq<char>, nat> {
    if slots.contains_key(key) {
        slots
    } else {
        slots.insert(key, slots.len())
    }
}

/// The slots are numbered from zero without gaps, and no two combiners share one.
pub open spec fn numbered(slots: Map<Seq<char>, nat>) -> bool {
    &&& slots.dom().finite()
    &&& forall|k: Seq<char>| #[trigger] slots.contains_key(k) ==> slots[k] < slots.len()
    &&& forall|j: Seq<char>, k: Seq<char>|
        slots.contains_key(j) && slots.contains_key(k) && #[trigger] slots[j]
            == #[trigger] slots[k] ==> j == k
}

/// The combiner slots after a tick of `symbol`.
pub open spec fn slots_after(
    slots: Map<Seq<char>, nat>,
    topics: Seq<TopicView>,
    symbol: Seq<char>,
) -> Map<Seq<char>, nat>
    decreases topics.len(),
{
    if topics.len() == 0 {
        slots
    } else {
        let before = slots_after(slots, topics.drop_last(), symbol);
        if wants_candle(topics.last(), symbol) {
            claim(before, combiner_key(symbol, topics.last().interval))
        } else {
            before
        }
    }
}

/// The candle of a single tick.
pub open spec fn tick_candle<N>(
    tick: TickView<N>,
    interval: Seq<char>,
    volume: Delta<N>,
    turnover: Delta<N>,
) -> KLineDraftView<N> {
    KLineDraftView {
        symbol: tick.symbol,
        datetime: tick.datetime,
        interval,
        price: tick.close,
        volume,
        turnover,
        timestamp: tick.timestamp,
    }
}

/// The update of one topic's candle, where `slots` are the combiner slots so far.
pub open spec fn candle_update<N>(
    slots: Map<Seq<char>, nat>,
    interval: Seq<char>,
    tick: TickView<N>,
    volume: Delta<N>,
    turnover: Delta<N>,
) -> CombineView<N> {
    let key = combiner_key(tick.symbol, interval);
    CombineView {
        slot: claim(slots, key)[key],
        create: if slots.contains_key(key) {
            None
        } else {
            Some(
                CombinerParamsView {
                    interval,
                    length: COMBINER_LENGTH,
                    opening_hour: Some(COMBINER_OPENING_HOUR),
                },
            )
        },
        kline: tick_candle(tick, interval, volume, turnover),
        tick: true,
    }
}

/// The candle updates of a tick, in the order of the topics.
pub open spec fn candle_updates<N>(
    slots: Map<Seq<char>, nat>,
    topics: Seq<TopicView>,
    tick: TickView<N>,
    volume: Delta<N>,
    turnover: Delta<N>,
) -> Seq<CombineView<N>>
    decreases topics.len(),
{
    if topics.len() == 0 {
        Seq::empty()
    } else {
        let before = candle_updates(slots, topics.drop_last(), tick, volume, turnover);
        if wants_candle(topics.last(), tick.symbol) {
            before.push(
                candle_update(
                    slots_after(slots, topics.drop_last(), tick.symbol),
                    topics.last().interval,
                    tick,
                    volume,
                    turnover,
                ),
            )
        } else {
            before
        }
    }
}

/// The state of a handler.
pub struct HandlerView<N> {
    pub ticket: nat,
    pub topics: Seq<TopicView>,
    pub last_ticks: Map<Seq<char>, TickView<N>>,
    pub slots: Map<Seq<char>, nat>,
}

impl<N> HandlerView<N> {
    /// A handler that has seen nothing yet.
    pub open spec fn fresh(ticket: nat, topics: Seq<TopicView>) -> HandlerView<N> {
        HandlerView { ticket, topics, last_ticks: Map::empty(), slots: Map::empty() }
    }

    /// Every combiner has a slot of its own.
    pub open spec fn wf(self) -> bool {
        numbered(self.slots)
    }

    /// Whether the handler belongs to the latest of `starts` starts.
    pub open spec fn is_current(self, starts: nat) -> bool {
        self.ticket + 1 == starts
    }

    /// How far the day's volume moved with the tick.
    pub open spec fn volume_delta(self, tick: TickView<N>) -> Delta<N> {
        if self.last_ticks.contains_key(tick.symbol) {
            Delta::Since { current: tick.volume, previous: self.last_ticks[tick.symbol].volume }
        } else {
            Delta::Zero
        }
    }

    /// How far the day's turnover moved with the tick.
    pub open spec fn turnover_delta(self, tick: TickView<N>) -> Delta<N> {
        if self.last_ticks.contains_key(tick.symbol) {
            Delta::Since { current: tick.turnover, previous: self.last_ticks[tick.symbol].turnover }
        } else {
            Delta::Zero
        }
    }

    /// The candle updates that the tick brings.
    pub open spec fn updates(self, tick: TickView<N>) -> Seq<CombineView<N>> {
        candle_updates(
            self.slots,
            self.topics,
            tick,
            self.volume_delta(tick),
            self.turnover_delta(tick),
        )
    }

    /// Everything to do about the tick.
    pub open spec fn actions(self, tick: TickView<N>) -> Seq<ActionView<N>> {
        seq![ActionView::SendTick(tick)] + self.updates(tick).map_values(
            |u: CombineView<N>| ActionView::Combine(u),
        )
    }

    /// The state after the tick.
    pub open spec fn after(self, tick: TickView<N>) -> HandlerView<N> {
        HandlerView {
            last_ticks: self.last_ticks.insert(tick.symbol, tick),
            slots: slots_after(self.slots, self.topics, tick.symbol),
            ..self
        }
    }
}

/// Claiming a slot keeps the numbering, and moves no combiner.
proof fn lemma_claim(slots: Map<Seq<char>, nat>, key: Seq<char>)
    requires
        numbered(slots),
    ensures
        numbered(claim(slots, key)),
        claim(slots, key).contains_key(key),
        slots.submap_of(claim(slots, key)),
{
    let after = claim(slots, key);
    if !slots.contains_key(key) {
        assert(after.dom() =~= slots.dom().insert(key));
        assert(after.len() == slots.len() + 1);
        assert forall|k: Seq<char>| #[trigger] after.contains_key(k) implies after[k]
            < after.len() by {
            if k != key {
                assert(slots.contains_key(k));
            }
        }
        assert forall|j: Seq<char>, k: Seq<char>|
            after.contains_key(j) && after.contains_key(k) && #[trigger] after[j]
                == #[trigger] after[k] implies j == k by {
            if j != key {
                assert(slots.contains_key(j));
            }
            if k != key {
                assert(slots.contains_key(k));
            }
        }
    }
}

/// What the handler of one stream remembers.
#[verifier::reject_recursive_types(N)]
pub struct StreamHandler<N> {
    start_ticket: usize,
    topics: Vec<MarketTopic>,
    last_ticks: StringHashMap<Tick<N>>,
    combiners: StringHashMap<usize>,
}

impl<N> View for StreamHandler<N> {
    type V = HandlerView<N>;

    closed spec fn view(&self) -> HandlerView<N> {
        HandlerView {
            ticket: self.start_ticket as nat,
            topics: topics_view(self.topics@),
            last_ticks: self.last_ticks@.map_values(|t: Tick<N>| t@),
            slots: self.combiners@.map_values(|s: usize| s as nat),
        }
    }
}

impl<N: Copy> StreamHandler<N> {
    /// A handler for the start with this ticket, about these topics.
    pub fn new(start_ticket: usize, topics: Vec<MarketTopic>) -> (handler: Self)
        ensures
            handler@ == HandlerView::<N>::fresh(start_ticket as nat, topics_view(topics@)),
            handler@.wf(),
    {
        let handler = StreamHandler {
            start_ticket,
            topics,
            last_ticks: StringHashMap::new(),
            combiners: StringHashMap::new(),
        };
        assert(handler@.last_ticks =~= Map::empty());
        assert(handler@.slots =~= Map::empty());
        handler
    }

    /// Handles one event of the stream, where `starts` counts the starts and stops
    /// so far. Returns what the stream is told, and what its owner is to do, in
    /// order. A stream that is no longer the latest is told to exit. A tick is
    /// used up here; any other event is left to whoever reads the stream next.
    pub fn handle(&mut self, starts: usize, event: Option<&MarketData<N>>) -> (result: (
        Result<bool, StreamError>,
        Vec<StreamAction<N>>,
    ))
        requires
            old(self)@.wf(),
            starts > 0,
        ensures
            final(self)@.wf(),
            match event {
                _ if !old(self)@.is_current(starts as nat) => {
                    &&& result.0 == Err::<bool, StreamError>(StreamError::Exit)
                    &&& result.1@.len() == 0
                    &&& final(self)@ == old(self)@
                },
                Some(MarketData::Tick(tick)) => {
                    &&& result.0 == Ok::<bool, StreamError>(false)
                    &&& actions_view(result.1@) == old(self)@.actions(tick@)
                    &&& final(self)@ == old(self)@.after(tick@)
                },
                _ => {
                    &&& result.0 == Ok::<bool, StreamError>(true)
                    &&& result.1@.len() == 0
                    &&& final(self)@ == old(self)@
                },
            },
    {
        let mut actions: Vec<StreamAction<N>> = Vec::new();
        if self.start_ticket != starts - 1 {
            return (Err(StreamError::Exit), actions);
        }
        match event {
            Some(MarketData::Tick(tick)) => {
                self.handle_tick(tick, &mut actions);
                (Ok(false), actions)
            },
            _ => (Ok(true), actions),
        }
    }

    fn handle_tick(&mut self, tick: &Tick<N>, actions: &mut Vec<StreamAction<N>>)
        requires
            old(self)@.wf(),
            old(actions)@.len() == 0,
        ensures
            final(self)@.wf(),
            final(self)@ == old(self)@.after(tick@),
            actions_view(final(actions)@) == old(self)@.actions(tick@),
    {
        let ghost start = self@;
        actions.push(StreamAction::SendTick(tick.clone()));
        let (volume, turnover): (Delta<N>, Delta<N>) = match self.last_ticks.get(
            tick.symbol.as_str(),
        ) {
            Some(previous) => (
                Delta::Since { current: tick.volume, previous: previous.volume },
                Delta::Since { current: tick.turnover, previous: previous.turnover },
            ),
            None => (Delta::Zero, Delta::Zero),
        };
        self.last_ticks.insert(tick.symbol.clone(), tick.clone());
        assert(self@.last_ticks =~= start.last_ticks.insert(tick@.symbol, tick@));
        let ghost combine = |u: CombineView<N>| ActionView::Combine(u);
        let ghost mut updates: Seq<CombineView<N>> = Seq::empty();
        assert(actions_view(actions@) =~= seq![ActionView::SendTick(tick@)] + updates.map_values(
            combine,
        ));
        assert(start.topics.take(0) =~= Seq::empty());
        let mut i: usize = 0;
        while i < self.topics.len()
            invariant
                i <= self.topics@.len(),
                start.topics == topics_view(self.topics@),
                self@.wf(),
                self@.ticket == start.ticket,
                self@.topics == start.topics,
                self@.last_ticks == start.last_ticks.insert(tick@.symbol, tick@),
                volume == start.volume_delta(tick@),
                turnover == start.turnover_delta(tick@),
                combine == (|u: CombineView<N>| ActionView::Combine(u)),
                self@.slots == slots_after(
                    start.slots,
                    start.topics.take(i as int),
                    tick@.symbol,
                ),
                updates == candle_updates(
                    start.slots,
                    start.topics.take(i as int),
                    tick@,
                    volume,
                    turnover,
                ),
                actions_view(actions@) == seq![ActionView::SendTick(tick@)] + updates.map_values(
                    combine,
                ),
            decreases start.topics.len() - i,
        {
            let ghost done = start.topics.take(i as int);
            let ghost topic = start.topics[i as int];
            assert(start.topics.take(i + 1).drop_last() =~= done);
            assert(start.topics.take(i + 1).last() == topic);
            let wanted = self.topics[i].symbol == tick.symbol
                && !self.topics[i].interval.as_str().is_empty();
            if wanted {
                let interval: String = self.topics[i].interval.clone();
                let ghost before = actions@;
                let ghost so_far = updates;
                let task = self.candle_task(tick, interval, volume, turnover);
                actions.push(StreamAction::Combine(task));
                proof {
                    updates = updates.push(task@);
                    assert(actions_view(actions@) =~= actions_view(before).push(
                        ActionView::Combine(task@),
                    ));
                    assert(updates.map_values(combine) =~= so_far.map_values(combine).push(
                        ActionView::Combine(task@),
                    ));
                    assert(actions_view(actions@) =~= seq![ActionView::SendTick(tick@)]
                        + updates.map_values(combine));
                }
            }
            i = i + 1;
        }
        assert(start.topics.take(start.topics.len() as int) =~= start.topics);
    }

    fn candle_task(
        &mut self,
        tick: &Tick<N>,
        interval: String,
        volume: Delta<N>,
        turnover: Delta<N>,
    ) -> (task: CombineTask<N>)
        requires
            old(self)@.wf(),
        ensures
            final(self)@.wf(),
            final(self)@ == (HandlerView {
                slots: claim(old(self)@.slots, combiner_key(tick@.symbol, interval@)),
                ..old(self)@
            }),
            final(self).topics == old(self).topics,
            task@ == candle_update(old(self)@.slots, interval@, tick@, volume, turnover),
    {
        let ghost start = self@;
        let key: String = tick.symbol.clone().concat("_").concat(interval.as_str());
        proof {
            reveal_strlit("_");
            assert("_"@ =~= seq!['_']);
            assert(key@ == combiner_key(tick@.symbol, interval@));
            lemma_claim(start.slots, key@);
            assert(start.slots.dom() =~= self.combiners@.dom());
        }
        let known: Option<usize> = match self.combiners.get(key.as_str()) {
            Some(slot) => Some(*slot),
            None => None,
        };
        let (slot, create): (usize, Option<CombinerParams>) = match known {
            Some(slot) => (slot, None),
            None => {
                let slot: usize = self.combiners.len();
                self.combiners.insert(key, slot);
                assert(self@.slots =~= start.slots.insert(key@, slot as nat));
                (
                    slot,
                    Some(
                        CombinerParams {
                            interval: interval.clone(),
                            length: COMBINER_LENGTH,
                            opening_hour: Some(COMBINER_OPENING_HOUR),
                        },
                    ),
                )
            },
        };
        CombineTask {
            slot,
            create,
            kline: KLineDraft {
                symbol: tick.symbol.clone(),
                datetime: tick.datetime.clone(),
                interval,
                price: tick.close,
                volume,
                turnover,
                timestamp: tick.timestamp,
            },
            tick: true,
        }
    }
}

/// The event to send for what a combiner returned: the candle that it completed,
/// if any.
pub fn publish<N>(completed: Option<KLine<N>>) -> (event: Option<MarketData<N>>)
    ensures
        event == match completed {
            Some(kline) => Some(MarketData::Kline(kline)),
            None => None,
        },
{
    match completed {
        Some(kline) => Some(MarketData::Kline(kline)),
        None => None,
    }
}

/// The topics whose candles a tick of `symbol` updates, in order.
pub open spec fn candle_topics(topics: Seq<TopicView>, symbol: Seq<char>) -> Seq<TopicView> {
    topics.filter(|t: TopicView| wants_candle(t, symbol))
}

/// The key of the combiner that an update goes to.
pub open spec fn update_key<N>(update: CombineView<N>) -> Seq<char> {
    combiner_key(update.kline.symbol, update.kline.interval)
}

/// The state after a run of ticks.
pub open spec fn after_all<N>(state: HandlerView<N>, ticks: Seq<TickView<N>>) -> HandlerView<N>
    decreases ticks.len(),
{
    if ticks.len() == 0 {
        state
    } else {
        after_all(state, ticks.drop_last()).after(ticks.last())
    }
}

/// The facts about the updates of one tick that the laws below draw on.
proof fn lemma_updates<N>(
    slots: Map<Seq<char>, nat>,
    topics: Seq<TopicView>,
    tick: TickView<N>,
    volume: Delta<N>,
    turnover: Delta<N>,
)
    requires
        numbered(slots),
    ensures
        ({
            let updates = candle_updates(slots, topics, tick, volume, turnover);
            let after = slots_after(slots, topics, tick.symbol);
            let wanting = candle_topics(topics, tick.symbol);
            &&& numbered(after)
            &&& slots.submap_of(after)
            &&& updates.len() == wanting.len()
            &&& forall|i: int|
                0 <= i < updates.len() ==> (#[trigger] updates[i]).kline == tick_candle(
                    tick,
                    wanting[i].interval,
                    volume,
                    turnover,
                )
            &&& forall|i: int|
                0 <= i < updates.len() ==> after.contains_key(update_key(#[trigger] updates[i]))
                    && after[update_key(updates[i])] == updates[i].slot
            &&& forall|k: Seq<char>| #[trigger]
                after.contains_key(k) ==> slots.contains_key(k) || exists|i: int|
                    0 <= i < updates.len() && update_key(#[trigger] updates[i]) == k
            &&& forall|i: int|
                0 <= i < updates.len() ==> ((#[trigger] updates[i]).create is Some <==> {
                    &&& !slots.contains_key(update_key(updates[i]))
                    &&& forall|j: int|
                        0 <= j < i ==> update_key(#[trigger] updates[j]) != update_key(updates[i])
                })
        }),
    decreases topics.len(),
{
    reveal(Seq::filter);
    if topics.len() > 0 {
        let rest = topics.drop_last();
        let last = topics.last();
        lemma_updates(slots, rest, tick, volume, turnover);
        let updates0 = candle_updates(slots, rest, tick, volume, turnover);
        let after0 = slots_after(slots, rest, tick.symbol);
        if wants_candle(last, tick.symbol) {
            let key = combiner_key(tick.symbol, last.interval);
            lemma_claim(after0, key);
            let updates = candle_updates(slots, topics, tick, volume, turnover);
            let after = slots_after(slots, topics, tick.symbol);
            let n = updates0.len() as int;
            assert(update_key(updates[n]) == key);
            assert forall|i: int| 0 <= i < updates.len() implies after.contains_key(
                update_key(#[trigger] updates[i]),
            ) && after[update_key(updates[i])] == updates[i].slot by {
                if i < n {
                    assert(updates[i] == updates0[i]);
                }
            }
            assert forall|k: Seq<char>| #[trigger] after.contains_key(k) implies slots.contains_key(
                k,
            ) || exists|i: int| 0 <= i < updates.len() && update_key(#[trigger] updates[i]) == k by {
                if k != key {
                    assert(after0.contains_key(k));
                    if !slots.contains_key(k) {
                        let i = choose|i: int|
                            0 <= i < updates0.len() && update_key(#[trigger] updates0[i]) == k;
                        assert(updates[i] == updates0[i]);
                    }
                }
            }
            assert forall|i: int| 0 <= i < updates.len() implies ((
            #[trigger] updates[i]).create is Some <==> {
                &&& !slots.contains_key(update_key(updates[i]))
                &&& forall|j: int|
                    0 <= j < i ==> update_key(#[trigger] updates[j]) != update_key(updates[i])
            }) by {
                assert(forall|j: int| 0 <= j < n ==> updates[j] == updates0[j]);
                if i == n {
                    if after0.contains_key(key) && !slots.contains_key(key) {
                        let j = choose|j: int|
                            0 <= j < updates0.len() && update_key(#[trigger] updates0[j]) == key;
                        assert(update_key(updates[j]) == key);
                    }
                    if !after0.contains_key(key) {
                        assert forall|j: int| 0 <= j < i implies update_key(#[trigger] updates[j])
                            != key by {
                            assert(after0.contains_key(update_key(updates0[j])));
                        }
                    }
                } else {
                    assert(updates[i] == updates0[i]);
                    assert((forall|j: int|
                        0 <= j < i ==> update_key(#[trigger] updates0[j]) != update_key(
                            updates0[i],
                        )) <==> (forall|j: int|
                        0 <= j < i ==> update_key(#[trigger] updates[j]) != update_key(
                            updates[i],
                        )));
                }
            }
        }
    }
}

/// Whatever ticks a handler sees, every combiner keeps a slot of its own.
pub proof fn law_every_combiner_has_its_own_slot<N>(state: HandlerView<N>, tick: TickView<N>)
    requires
        state.wf(),
    ensures
        state.after(tick).wf(),
{
    lemma_updates(
        state.slots,
        state.topics,
        tick,
        state.volume_delta(tick),
        state.turnover_delta(tick),
    );
}

/// A combiner stays in its slot, whatever ticks the handler sees.
pub proof fn law_combiners_never_move<N>(
    state: HandlerView<N>,
    ticks: Seq<TickView<N>>,
    key: Seq<char>,
)
    requires
        state.slots.contains_key(key),
    ensures
        after_all(state, ticks).slots.contains_key(key),
        after_all(state, ticks).slots[key] == state.slots[key],
    decreases ticks.len(),
{
    if ticks.len() > 0 {
        let before = after_all(state, ticks.drop_last());
        law_combiners_never_move(state, ticks.drop_last(), key);
        lemma_slot_is_kept(before.slots, before.topics, ticks.last().symbol, key);
    }
}

proof fn lemma_slot_is_kept(
    slots: Map<Seq<char>, nat>,
    topics: Seq<TopicView>,
    symbol: Seq<char>,
    key: Seq<char>,
)
    requires
        slots.contains_key(key),
    ensures
        slots_after(slots, topics, symbol).contains_key(key),
        slots_after(slots, topics, symbol)[key] == slots[key],
    decreases topics.len(),
{
    if topics.len() > 0 {
        lemma_slot_is_kept(slots, topics.drop_last(), symbol, key);
    }
}

/// A tick updates one candle for each topic of its instrument that names an
/// interval, in the order of the topics, and no other. All of them hold the same
/// tick.
pub proof fn law_one_update_for_each_candle_topic<N>(state: HandlerView<N>, tick: TickView<N>)
    requires
        state.wf(),
    ensures
        state.updates(tick).len() == candle_topics(state.topics, tick.symbol).len(),
        forall|i: int|
            0 <= i < state.updates(tick).len() ==> (#[trigger] state.updates(tick)[i]).kline
                == tick_candle(
                tick,
                candle_topics(state.topics, tick.symbol)[i].interval,
                state.volume_delta(tick),
                state.turnover_delta(tick),
            ),
{
    lemma_updates(
        state.slots,
        state.topics,
        tick,
        state.volume_delta(tick),
        state.turnover_delta(tick),
    );
}

/// A candle that is subscribed is updated by every tick of its instrument.
pub proof fn law_subscribed_candle_is_updated<N>(
    state: HandlerView<N>,
    tick: TickView<N>,
    interval: Seq<char>,
)
    requires
        state.wf(),
        follows(state.topics, tick.symbol, interval),
        interval.len() > 0,
    ensures
        exists|i: int|
            0 <= i < state.updates(tick).len() && (
            #[trigger] state.updates(tick)[i]).kline.interval == interval,
{
    let wanting = candle_topics(state.topics, tick.symbol);
    let topic = TopicView { symbol: tick.symbol, interval };
    lemma_wanting_topic_is_kept(state.topics, topic);
    law_one_update_for_each_candle_topic(state, tick);
    let i = choose|i: int| 0 <= i < wanting.len() && wanting[i] == topic;
    assert(state.updates(tick)[i].kline.interval == interval);
}

proof fn lemma_wanting_topic_is_kept(topics: Seq<TopicView>, topic: TopicView)
    requires
        topics.contains(topic),
        topic.interval.len() > 0,
    ensures
        candle_topics(topics, topic.symbol).contains(topic),
    decreases topics.len(),
{
    reveal(Seq::filter);
    let rest = topics.drop_last();
    let kept = candle_topics(rest, topic.symbol);
    if topics.last() == topic {
        assert(candle_topics(topics, topic.symbol) == kept.push(topic));
        assert(kept.push(topic)[kept.len() as int] == topic);
    } else {
        let i = choose|i: int| 0 <= i < topics.len() && topics[i] == topic;
        assert(rest[i] == topic);
        lemma_wanting_topic_is_kept(rest, topic);
        let j = choose|j: int| 0 <= j < kept.len() && kept[j] == topic;
        assert(candle_topics(topics, topic.symbol)[j] == topic);
    }
}

/// A combiner is made with the first update that goes to it, and never again.
pub proof fn law_combiners_are_made_once<N>(state: HandlerView<N>, tick: TickView<N>, i: int)
    requires
        state.wf(),
        0 <= i < state.updates(tick).len(),
    ensures
        state.updates(tick)[i].create is Some <==> {
            &&& !state.slots.contains_key(update_key(state.updates(tick)[i]))
            &&& forall|j: int|
                0 <= j < i ==> update_key(#[trigger] state.updates(tick)[j]) != update_key(
                    state.updates(tick)[i],
                )
        },
        state.after(tick).slots.contains_key(update_key(state.updates(tick)[i])),
{
    lemma_updates(
        state.slots,
        state.topics,
        tick,
        state.volume_delta(tick),
        state.turnover_delta(tick),
    );
}

/// Updates of one tick go to the same combiner exactly where their keys agree.
pub proof fn law_same_key_same_combiner<N>(
    state: HandlerView<N>,
    tick: TickView<N>,
    i: int,
    j: int,
)
    requires
        state.wf(),
        0 <= i < state.updates(tick).len(),
        0 <= j < state.updates(tick).len(),
    ensures
        state.updates(tick)[i].slot == state.updates(tick)[j].slot <==> update_key(
            state.updates(tick)[i],
        ) == update_key(state.updates(tick)[j]),
{
    lemma_updates(
        state.slots,
        state.topics,
        tick,
        state.volume_delta(tick),
        state.turnover_delta(tick),
    );
}

/// Updates of two ticks, whatever ticks came in between, go to the same combiner
/// exactly where their keys agree.
pub proof fn law_same_key_same_combiner_later<N>(
    state: HandlerView<N>,
    first: TickView<N>,
    between: Seq<TickView<N>>,
    second: TickView<N>,
    i: int,
    j: int,
)
    requires
        state.wf(),
        0 <= i < state.updates(first).len(),
        0 <= j < after_all(state.after(first), between).updates(second).len(),
    ensures
        state.updates(first)[i].slot == after_all(state.after(first), between).updates(
            second,
        )[j].slot <==> update_key(state.updates(first)[i]) == update_key(
            after_all(state.after(first), between).updates(second)[j],
        ),
{
    lemma_updates(
        state.slots,
        state.topics,
        first,
        state.volume_delta(first),
        state.turnover_delta(first),
    );
    lemma_slots_survive(state.after(first), between);
    let middle = after_all(state.after(first), between);
    lemma_updates(
        middle.slots,
        middle.topics,
        second,
        middle.volume_delta(second),
        middle.turnover_delta(second),
    );
    let end = middle.after(second);
    let one = update_key(state.updates(first)[i]);
    let other = update_key(middle.updates(second)[j]);
    assert(state.after(first).slots.contains_key(one));
    assert(middle.slots.contains_key(one));
    assert(end.slots.contains_key(one));
    assert(end.slots[one] == state.updates(first)[i].slot);
    assert(end.slots[other] == middle.updates(second)[j].slot);
}

proof fn lemma_slots_survive<N>(state: HandlerView<N>, ticks: Seq<TickView<N>>)
    requires
        state.wf(),
    ensures
        after_all(state, ticks).wf(),
        state.slots.submap_of(after_all(state, ticks).slots),
    decreases ticks.len(),
{
    if ticks.len() > 0 {
        lemma_slots_survive(state, ticks.drop_last());
        let before = after_all(state, ticks.drop_last());
        let tick = ticks.last();
        lemma_updates(
            before.slots,
            before.topics,
            tick,
            before.volume_delta(tick),
            before.turnover_delta(tick),
        );
        let end = after_all(state, ticks);
        assert forall|k: Seq<char>| #[trigger] state.slots.contains_key(k) implies {
            &&& end.slots.contains_key(k)
            &&& end.slots[k] == state.slots[k]
        } by {
            assert(before.slots.contains_key(k));
        }
    }
}

/// The first tick of an instrument moves its totals by zero, whatever other
/// instruments traded before.
pub proof fn law_first_tick_moves_nothing<N>(
    ticket: nat,
    topics: Seq<TopicView>,
    ticks: Seq<TickView<N>>,
    tick: TickView<N>,
)
    requires
        forall|i: int| 0 <= i < ticks.len() ==> (#[trigger] ticks[i]).symbol != tick.symbol,
    ensures
        after_all(HandlerView::<N>::fresh(ticket, topics), ticks).volume_delta(tick)
            == Delta::<N>::Zero,
        after_all(HandlerView::<N>::fresh(ticket, topics), ticks).turnover_delta(tick)
            == Delta::<N>::Zero,
{
    lemma_unseen_stays_unseen(HandlerView::<N>::fresh(ticket, topics), ticks, tick.symbol);
}

proof fn lemma_unseen_stays_unseen<N>(
    state: HandlerView<N>,
    ticks: Seq<TickView<N>>,
    symbol: Seq<char>,
)
    requires
        !state.last_ticks.contains_key(symbol),
        forall|i: int| 0 <= i < ticks.len() ==> (#[trigger] ticks[i]).symbol != symbol,
    ensures
        !after_all(state, ticks).last_ticks.contains_key(symbol),
    decreases ticks.len(),
{
    if ticks.len() > 0 {
        lemma_unseen_stays_unseen(state, ticks.drop_last(), symbol);
        assert(ticks.last().symbol != symbol);
    }
}

/// The volume and turnover of a candle update are counted from the latest tick of
/// the same instrument, whatever other instruments traded in between.
pub proof fn law_totals_are_counted_from_the_last_tick<N>(
    state: HandlerView<N>,
    first: TickView<N>,
    between: Seq<TickView<N>>,
    second: TickView<N>,
)
    requires
        first.symbol == second.symbol,
        forall|i: int| 0 <= i < between.len() ==> (#[trigger] between[i]).symbol != first.symbol,
    ensures
        after_all(state.after(first), between).volume_delta(second) == (Delta::Since {
            current: second.volume,
            previous: first.volume,
        }),
        after_all(state.after(first), between).turnover_delta(second) == (Delta::Since {
            current: second.turnover,
            previous: first.turnover,
        }),
{
    lemma_last_tick_survives(state.after(first), between, first.symbol);
}

proof fn lemma_last_tick_survives<N>(
    state: HandlerView<N>,
    ticks: Seq<TickView<N>>,
    symbol: Seq<char>,
)
    requires
        state.last_ticks.contains_key(symbol),
        forall|i: int| 0 <= i < ticks.len() ==> (#[trigger] ticks[i]).symbol != symbol,
    ensures
        after_all(state, ticks).last_ticks.contains_key(symbol),
        after_all(state, ticks).last_ticks[symbol] == state.last_ticks[symbol],
    decreases ticks.len(),
{
    if ticks.len() > 0 {
        lemma_last_tick_survives(state, ticks.drop_last(), symbol);
        assert(ticks.last().symbol != symbol);
    }
}

/// A candle update is seen field by field, each in its place.
pub proof fn law_update_is_seen_as_it_is<N>(task: CombineTask<N>, params: CombinerParams)
    ensures
        task@.slot == task.slot,
        task@.kline == task.kline@,
        task@.tick == task.tick,
        task@.create is Some <==> task.create is Some,
        task.create is Some ==> task@.create->0 == task.create->0@,
        params@.interval == params.interval@,
        params@.length == params.length,
        params@.opening_hour == params.opening_hour,
{
}

/// Actions are seen one by one, in order, each as what it is.
pub proof fn law_actions_are_seen_in_order<N>(
    actions: Seq<StreamAction<N>>,
    tick: Tick<N>,
    task: CombineTask<N>,
)
    ensures
        StreamAction::SendTick(tick)@ == ActionView::SendTick(tick@),
        StreamAction::Combine(task)@ == ActionView::Combine(task@),
        actions_view(actions).len() == actions.len(),
        forall|i: int|
            0 <= i < actions.len() ==> #[trigger] actions_view(actions)[i] == actions[i]@,
{
}

/// Every tick is sent on first and as it is; its candle updates follow in order,
/// and nothing else does.
pub proof fn law_tick_is_sent_on_before_its_updates<N>(state: HandlerView<N>, tick: TickView<N>)
    ensures
        state.actions(tick).len() == 1 + state.updates(tick).len(),
        state.actions(tick)[0] == ActionView::SendTick(tick),
        forall|i: int|
            0 <= i < state.updates(tick).len() ==> state.actions(tick)[i + 1]
                == ActionView::<N>::Combine(#[trigger] state.updates(tick)[i]),
{
}

/// A tick updates the candle of each topic that is about its instrument and names an
/// interval, in the order of the topics, and no other. Each candle stands at the
/// price of the tick, at its time, and counts what the totals moved by. A combiner
/// that has to be made first is one for the interval, of 100 candles and with a day
/// that opens at 21.
pub proof fn law_each_candle_is_that_of_its_tick<N>(state: HandlerView<N>, tick: TickView<N>)
    ensures
        ({
            let updates = state.updates(tick);
            let wanting = state.topics.filter(
                |t: TopicView| t.symbol == tick.symbol && t.interval.len() > 0,
            );
            &&& updates.len() == wanting.len()
            &&& forall|i: int|
                0 <= i < updates.len() ==> {
                    &&& (#[trigger] updates[i]).tick
                    &&& updates[i].kline.symbol == tick.symbol
                    &&& updates[i].kline.interval == wanting[i].interval
                    &&& updates[i].kline.datetime == tick.datetime
                    &&& updates[i].kline.timestamp == tick.timestamp
                    &&& updates[i].kline.price == tick.close
                    &&& updates[i].kline.volume == state.volume_delta(tick)
                    &&& updates[i].kline.turnover == state.turnover_delta(tick)
                    &&& updates[i].create matches Some(params) ==> {
                        &&& params.interval == wanting[i].interval
                        &&& params.length == 100
                        &&& params.opening_hour == Some(21u32)
                    }
                }
        }),
{
    lemma_update_fields(
        state.slots,
        state.topics,
        tick,
        state.volume_delta(tick),
        state.turnover_delta(tick),
    );
}

proof fn lemma_update_fields<N>(
    slots: Map<Seq<char>, nat>,
    topics: Seq<TopicView>,
    tick: TickView<N>,
    volume: Delta<N>,
    turnover: Delta<N>,
)
    ensures
        ({
            let updates = candle_updates(slots, topics, tick, volume, turnover);
            let wanting = topics.filter(
                |t: TopicView| t.symbol == tick.symbol && t.interval.len() > 0,
            );
            &&& updates.len() == wanting.len()
            &&& forall|i: int|
                0 <= i < updates.len() ==> {
                    &&& (#[trigger] updates[i]).tick
                    &&& updates[i].kline.symbol == tick.symbol
                    &&& updates[i].kline.interval == wanting[i].interval
                    &&& updates[i].kline.datetime == tick.datetime
                    &&& updates[i].kline.timestamp == tick.timestamp
                    &&& updates[i].kline.price == tick.close
                    &&& updates[i].kline.volume == volume
                    &&& updates[i].kline.turnover == turnover
                    &&& updates[i].create matches Some(params) ==> {
                        &&& params.interval == wanting[i].interval
                        &&& params.length == 100
                        &&& params.opening_hour == Some(21u32)
                    }
                }
        }),
    decreases topics.len(),
{
    reveal(Seq::filter);
    if topics.len() > 0 {
        lemma_update_fields(slots, topics.drop_last(), tick, volume, turnover);
    }
}

/// The candles of an instrument's first tick count nothing, whatever other
/// instruments traded before.
pub proof fn law_first_candle_counts_nothing<N>(
    ticket: nat,
    topics: Seq<TopicView>,
    ticks: Seq<TickView<N>>,
    tick: TickView<N>,
    i: int,
)
    requires
        forall|k: int| 0 <= k < ticks.len() ==> (#[trigger] ticks[k]).symbol != tick.symbol,
        0 <= i < after_all(HandlerView::<N>::fresh(ticket, topics), ticks).updates(tick).len(),
    ensures
        after_all(HandlerView::<N>::fresh(ticket, topics), ticks).updates(tick)[i].kline.volume
            == Delta::<N>::Zero,
        after_all(HandlerView::<N>::fresh(ticket, topics), ticks).updates(tick)[i].kline.turnover
            == Delta::<N>::Zero,
{
    law_first_tick_moves_nothing(ticket, topics, ticks, tick);
    law_each_candle_is_that_of_its_tick(
        after_all(HandlerView::<N>::fresh(ticket, topics), ticks),
        tick,
    );
}

/// The candles of every later tick count volume and turnover from the latest tick
/// of the same instrument, whatever other instruments traded in between.
pub proof fn law_later_candles_count_from_the_last_tick<N>(
    state: HandlerView<N>,
    first: TickView<N>,
    between: Seq<TickView<N>>,
    second: TickView<N>,
    i: int,
)
    requires
        first.symbol == second.symbol,
        forall|k: int| 0 <= k < between.len() ==> (#[trigger] between[k]).symbol != first.symbol,
        0 <= i < after_all(state.after(first), between).updates(second).len(),
    ensures
        after_all(state.after(first), between).updates(second)[i].kline.volume == (Delta::Since {
            current: second.volume,
            previous: first.volume,
        }),
        after_all(state.after(first), between).updates(second)[i].kline.turnover == (Delta::Since {
            current: second.turnover,
            previous: first.turnover,
        }),
{
    law_totals_are_counted_from_the_last_tick(state, first, between, second);
    law_each_candle_is_that_of_its_tick(after_all(state.after(first), between), second);
}

/// A handler starts with its ticket and its topics, and keeps both; of every
/// instrument it remembers the last tick. It belongs to the latest start exactly
/// where one more start than its ticket was counted.
pub proof fn law_handler_remembers_the_last_ticks<N>(
    ticket: nat,
    topics: Seq<TopicView>,
    state: HandlerView<N>,
    tick: TickView<N>,
    starts: nat,
)
    ensures
        HandlerView::<N>::fresh(ticket, topics).ticket == ticket,
        HandlerView::<N>::fresh(ticket, topics).topics == topics,
        HandlerView::<N>::fresh(ticket, topics).wf(),
        forall|s: Seq<char>|
            !(#[trigger] HandlerView::<N>::fresh(ticket, topics).last_ticks.contains_key(s)),
        forall|s: Seq<char>|
            !(#[trigger] HandlerView::<N>::fresh(ticket, topics).slots.contains_key(s)),
        state.is_current(starts) <==> starts == state.ticket + 1,
        state.after(tick).ticket == state.ticket,
        state.after(tick).topics == state.topics,
        state.after(tick).last_ticks.contains_key(tick.symbol),
        state.after(tick).last_ticks[tick.symbol] == tick,
        forall|s: Seq<char>|
            s != tick.symbol ==> (#[trigger] state.after(tick).last_ticks.contains_key(s)
                <==> state.last_ticks.contains_key(s)),
        forall|s: Seq<char>|
            s != tick.symbol && state.last_ticks.contains_key(s)
                ==> #[trigger] state.after(tick).last_ticks[s] == state.last_ticks[s],
{
}

/// Two updates of one tick go to the same combiner exactly where they are for the
/// same interval.
pub proof fn law_every_interval_has_its_own_combiner<N>(
    state: HandlerView<N>,
    tick: TickView<N>,
    i: int,
    j: int,
)
    requires
        state.wf(),
        0 <= i < state.updates(tick).len(),
        0 <= j < state.updates(tick).len(),
    ensures
        state.updates(tick)[i].slot == state.updates(tick)[j].slot <==> state.updates(
            tick,
        )[i].kline.interval == state.updates(tick)[j].kline.interval,
{
    law_same_key_same_combiner(state, tick, i, j);
    law_each_candle_is_that_of_its_tick(state, tick);
    let one = state.updates(tick)[i].kline;
    let other = state.updates(tick)[j].kline;
    let head = (tick.symbol.len() + 1) as int;
    assert(combiner_key(one.symbol, one.interval).skip(head) =~= one.interval);
    assert(combiner_key(other.symbol, other.interval).skip(head) =~= other.interval);
}

/// A subscription to ticks alone brings no candle update.
pub proof fn law_tick_subscription_brings_no_update<N>(
    state: HandlerView<N>,
    symbol: Seq<char>,
    tick: TickView<N>,
)
    ensures
        (HandlerView { topics: tick_subscribed(state.topics, symbol), ..state }).updates(tick)
            == state.updates(tick),
        (HandlerView { topics: tick_subscribed(state.topics, symbol), ..state }).after(tick).slots
            == state.after(tick).slots,
{
    if !follows_symbol(state.topics, symbol) {
        assert(tick_subscribed(state.topics, symbol).drop_last() =~= state.topics);
    }
}

/// The names of the combiners that the owner of a stream holds, slot by slot, after
/// it has carried out `updates`: where an update asks for a combiner, one for its
/// instrument and interval is added at the end.
pub open spec fn combiners_made<N>(
    combiners: Seq<Seq<char>>,
    updates: Seq<CombineView<N>>,
) -> Seq<Seq<char>>
    decreases updates.len(),
{
    if updates.len() == 0 {
        combiners
    } else {
        let before = combiners_made(combiners, updates.drop_last());
        if updates.last().create is Some {
            before.push(updates.last().kline.symbol + seq!['_'] + updates.last().kline.interval)
        } else {
            before
        }
    }
}

/// The names of the combiners that the owner of a stream holds after a run of ticks.
pub open spec fn combiners_held<N>(state: HandlerView<N>, ticks: Seq<TickView<N>>) -> Seq<Seq<char>>
    decreases ticks.len(),
{
    if ticks.len() == 0 {
        Seq::empty()
    } else {
        combiners_made(
            combiners_held(state, ticks.drop_last()),
            after_all(state, ticks.drop_last()).updates(ticks.last()),
        )
    }
}

/// Whether update `i` finds its combiner: it goes to the one that was made for its
/// instrument and interval, which is the newest one where the update asks for it.
pub open spec fn finds_its_combiner<N>(
    combiners: Seq<Seq<char>>,
    updates: Seq<CombineView<N>>,
    i: int,
) -> bool {
    let held = combiners_made(combiners, updates.take(i + 1));
    &&& updates[i].slot < held.len()
    &&& held[updates[i].slot as int] == updates[i].kline.symbol + seq!['_']
        + updates[i].kline.interval
    &&& updates[i].create is Some ==> updates[i].slot == held.len() - 1
}

/// Whatever ticks a handler sees, every update goes to the combiner that was made
/// for its instrument and interval, and no combiner is made twice.
pub proof fn law_every_update_finds_its_combiner<N>(
    ticket: nat,
    topics: Seq<TopicView>,
    ticks: Seq<TickView<N>>,
    tick: TickView<N>,
    i: int,
)
    requires
        0 <= i < after_all(HandlerView::<N>::fresh(ticket, topics), ticks).updates(tick).len(),
    ensures
        finds_its_combiner(
            combiners_held(HandlerView::<N>::fresh(ticket, topics), ticks),
            after_all(HandlerView::<N>::fresh(ticket, topics), ticks).updates(tick),
            i,
        ),
        combiners_held(HandlerView::<N>::fresh(ticket, topics), ticks).no_duplicates(),
{
    let start = HandlerView::<N>::fresh(ticket, topics);
    lemma_held_combiners(start, ticks);
    let state = after_all(start, ticks);
    lemma_finding(
        combiners_held(start, ticks),
        state.slots,
        state.topics,
        tick,
        state.volume_delta(tick),
        state.turnover_delta(tick),
    );
}

/// The slots are those of the combiners that are held.
spec fn slots_of(slots: Map<Seq<char>, nat>, combiners: Seq<Seq<char>>) -> bool {
    &&& slots.dom().finite()
    &&& slots.len() == combiners.len()
    &&& forall|k: Seq<char>| #[trigger]
        slots.contains_key(k) ==> slots[k] < combiners.len() && combiners[slots[k] as int] == k
    &&& forall|j: int|
        0 <= j < combiners.len() ==> slots.contains_key(#[trigger] combiners[j])
            && slots[combiners[j]] == j
}

proof fn lemma_held_combiners<N>(start: HandlerView<N>, ticks: Seq<TickView<N>>)
    requires
        start.slots == Map::<Seq<char>, nat>::empty(),
    ensures
        slots_of(after_all(start, ticks).slots, combiners_held(start, ticks)),
        combiners_held(start, ticks).no_duplicates(),
    decreases ticks.len(),
{
    if ticks.len() > 0 {
        lemma_held_combiners(start, ticks.drop_last());
        let before = after_all(start, ticks.drop_last());
        let tick = ticks.last();
        lemma_finding(
            combiners_held(start, ticks.drop_last()),
            before.slots,
            before.topics,
            tick,
            before.volume_delta(tick),
            before.turnover_delta(tick),
        );
    }
}

proof fn lemma_finding<N>(
    combiners: Seq<Seq<char>>,
    slots: Map<Seq<char>, nat>,
    topics: Seq<TopicView>,
    tick: TickView<N>,
    volume: Delta<N>,
    turnover: Delta<N>,
)
    requires
        slots_of(slots, combiners),
    ensures
        ({
            let updates = candle_updates(slots, topics, tick, volume, turnover);
            &&& slots_of(
                slots_after(slots, topics, tick.symbol),
                combiners_made(combiners, updates),
            )
            &&& forall|i: int|
                0 <= i < updates.len() ==> #[trigger] finds_its_combiner(combiners, updates, i)
        }),
    decreases topics.len(),
{
    if topics.len() > 0 {
        let rest = topics.drop_last();
        let before = candle_updates(slots, rest, tick, volume, turnover);
        let updates = candle_updates(slots, topics, tick, volume, turnover);
        let old_slots = slots_after(slots, rest, tick.symbol);
        let held = combiners_made(combiners, before);
        lemma_finding(combiners, slots, rest, tick, volume, turnover);
        if wants_candle(topics.last(), tick.symbol) {
            let key = combiner_key(tick.symbol, topics.last().interval);
            let new_slots = claim(old_slots, key);
            let n = before.len() as int;
            assert(updates.drop_last() =~= before);
            assert(updates.take(n + 1) =~= updates);
            let now_held = combiners_made(combiners, updates);
            if !old_slots.contains_key(key) {
                assert(now_held == held.push(key));
                assert(new_slots.dom() =~= old_slots.dom().insert(key));
                assert forall|k: Seq<char>| #[trigger] new_slots.contains_key(k) implies new_slots[k]
                    < now_held.len() && now_held[new_slots[k] as int] == k by {
                    if k != key {
                        assert(old_slots.contains_key(k));
                    }
                }
                assert forall|j: int| 0 <= j < now_held.len() implies new_slots.contains_key(
                    #[trigger] now_held[j],
                ) && new_slots[now_held[j]] == j by {
                    if j < held.len() {
                        assert(old_slots.contains_key(held[j]));
                    }
                }
            }
            assert(slots_of(new_slots, now_held));
            assert forall|i: int| 0 <= i < updates.len() implies #[trigger] finds_its_combiner(
                combiners,
                updates,
                i,
            ) by {
                if i < n {
                    assert(finds_its_combiner(combiners, before, i));
                    assert(updates.take(i + 1) =~= before.take(i + 1));
                } else {
                    assert(new_slots.contains_key(key));
                }
            }
        }
    }
}

/// A candle is published exactly where a combiner completed one, and as it is.
pub proof fn law_completed_candle_is_published<N>(
    completed: Option<KLine<N>>,
    event: Option<MarketData<N>>,
)
    requires
        call_ensures(publish::<N>, (completed,), event),
    ensures
        event is Some <==> completed is Some,
        completed matches Some(kline) ==> event == Some(MarketData::<N>::Kline(kline)),
{
}

} // verus!
