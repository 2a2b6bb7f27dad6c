//! Market data: ticks, candles, and the events that a market-data channel carries.
//!
//! The numeric type `N` of prices and volumes is left to the caller. Nothing here
//! computes with such numbers: where one is the difference of two others, it is
//! given as a [`Delta`], which names both.

use vstd::prelude::*;

verus! {

/// A trade tick. `volume` and `turnover` are running totals of the trading day.
#[derive(PartialEq, Debug)]
pub struct Tick<N> {
    pub symbol: String,
    pub datetime: String,
    pub close: N,
    pub volume: N,
    pub turnover: N,
    pub timestamp: u64,
}

/// What a tick says.
pub struct TickView<N> {
    pub symbol: Seq<char>,
    pub datetime: Seq<char>,
    pub close: N,
    pub volume: N,
    pub turnover: N,
    pub timestamp: u64,
}

impl<N> View for Tick<N> {
    type V = TickView<N>;

    open spec fn view(&self) -> TickView<N> {
        TickView {
            symbol: self.symbol@,
            datetime: self.datetime@,
            close: self.close,
            volume: self.volume,
            turnover: self.turnover,
            timestamp: self.timestamp,
        }
    }
}

impl<N: Copy> Clone for Tick<N> {
    fn clone(&self) -> (tick: Self)
        ensures
            tick == *self,
    {
        Tick {
            symbol: self.symbol.clone(),
            datetime: self.datetime.clone(),
            close: self.close,
            volume: self.volume,
            turnover: self.turnover,
            timestamp: self.timestamp,
        }
    }
}

/// A candle.
#[derive(PartialEq, Debug)]
pub struct KLine<N> {
    pub symbol: String,
    pub datetime: String,
    pub interval: String,
    pub open: N,
    pub high: N,
    pub low: N,
    pub close: N,
    pub volume: N,
    pub turnover: N,
    pub timestamp: u64,
}

/// What a candle says.
pub struct KLineView<N> {
    pub symbol: Seq<char>,
    pub datetime: Seq<char>,
    pub interval: Seq<char>,
    pub open: N,
    pub high: N,
    pub low: N,
    pub close: N,
    pub volume: N,
    pub turnover: N,
    pub timestamp: u64,
}

impl<N> View for KLine<N> {
    type V = KLineView<N>;

    open spec fn view(&self) -> KLineView<N> {
        KLineView {
            symbol: self.symbol@,
            datetime: self.datetime@,
            interval: self.interval@,
            open: self.open,
            high: self.high,
            low: self.low,
            close: self.close,
            volume: self.volume,
            turnover: self.turnover,
            timestamp: self.timestamp,
        }
    }
}

/// How far a running total moved.
#[derive(PartialEq, Debug)]
pub enum Delta<N> {
    /// By zero: there is no earlier total to compare with.
    Zero,
    /// By `current - previous`.
    Since { current: N, previous: N },
}

impl<N: Copy> Clone for Delta<N> {
    fn clone(&self) -> (delta: Self)
        ensures
            delta == *self,
    {
        *self
    }
}

impl<N: Copy> Copy for Delta<N> {

}

/// A candle of a single tick, up to the two differences that are still to be
/// computed.
#[derive(PartialEq, Debug)]
pub struct KLineDraft<N> {
    pub symbol: String,
    pub datetime: String,
    pub interval: String,
    pub price: N,
    pub volume: Delta<N>,
    pub turnover: Delta<N>,
    pub timestamp: u64,
}

/// What a draft says.
pub struct KLineDraftView<N> {
    pub symbol: Seq<char>,
    pub datetime: Seq<char>,
    pub interval: Seq<char>,
    pub price: N,
    pub volume: Delta<N>,
    pub turnover: Delta<N>,
    pub timestamp: u64,
}

impl<N> View for KLineDraft<N> {
    type V = KLineDraftView<N>;

    open spec fn view(&self) -> KLineDraftView<N> {
        KLineDraftView {
            symbol: self.symbol@,
            datetime: self.datetime@,
            interval: self.interval@,
            price: self.price,
            volume: self.volume,
            turnover: self.turnover,
            timestamp: self.timestamp,
        }
    }
}

impl<N> KLineDraftView<N> {
    /// The candle of the draft, given the values of its two differences. All four
    /// prices are the price of the tick.
    pub open spec fn complete(self, volume: N, turnover: N) -> KLineView<N> {
        KLineView {
            symbol: self.symbol,
            datetime: self.datetime,
            interval: self.interval,
            open: self.price,
            high: self.price,
            low: self.price,
            close: self.price,
            volume,
            turnover,
            timestamp: self.timestamp,
        }
    }
}

impl<N: Copy> KLineDraft<N> {
    /// Completes the draft with the values of its two differences.
    pub fn complete(self, volume: N, turnover: N) -> (kline: KLine<N>)
        ensures
            kline@ == self@.complete(volume, turnover),
    {
        KLine {
            symbol: self.symbol,
            datetime: self.datetime,
            interval: self.interval,
            open: self.price,
            high: self.price,
            low: self.price,
            close: self.price,
            volume,
            turnover,
            timestamp: self.timestamp,
        }
    }
}

/// An event on a market-data channel.
#[derive(PartialEq, Debug)]
pub enum MarketData<N> {
    /// The front accepted the connection.
    Connected,
    /// The front accepted the login.
    UserLogin,
    /// A trade tick.
    Tick(Tick<N>),
    /// A candle.
    Kline(KLine<N>),
    /// Any other event.
    Other,
}

/// A tick is seen field by field, each in its place.
pub proof fn law_tick_is_seen_as_it_is<N>(tick: Tick<N>)
    ensures
        tick@.symbol == tick.symbol@,
        tick@.datetime == tick.datetime@,
        tick@.close == tick.close,
        tick@.volume == tick.volume,
        tick@.turnover == tick.turnover,
        tick@.timestamp == tick.timestamp,
{
}

/// A candle is seen field by field, each in its place.
pub proof fn law_candle_is_seen_as_it_is<N>(kline: KLine<N>)
    ensures
        kline@.symbol == kline.symbol@,
        kline@.datetime == kline.datetime@,
        kline@.interval == kline.interval@,
        kline@.open == kline.open,
        kline@.high == kline.high,
        kline@.low == kline.low,
        kline@.close == kline.close,
        kline@.volume == kline.volume,
        kline@.turnover == kline.turnover,
        kline@.timestamp == kline.timestamp,
{
}

/// A draft is seen field by field, each in its place.
pub proof fn law_draft_is_seen_as_it_is<N>(draft: KLineDraft<N>)
    ensures
        draft@.symbol == draft.symbol@,
        draft@.datetime == draft.datetime@,
        draft@.interval == draft.interval@,
        draft@.price == draft.price,
        draft@.volume == draft.volume,
        draft@.turnover == draft.turnover,
        draft@.timestamp == draft.timestamp,
{
}

/// A completed candle opens, closes and peaks both ways at the price of its draft,
/// has the volume and turnover that it was completed with, and is the draft's in
/// all else.
pub proof fn law_completed_candle_stands_at_one_price<N>(
    draft: KLineDraftView<N>,
    volume: N,
    turnover: N,
)
    ensures
        draft.complete(volume, turnover).open == draft.price,
        draft.complete(volume, turnover).high == draft.price,
        draft.complete(volume, turnover).low == draft.price,
        draft.complete(volume, turnover).close == draft.price,
        draft.complete(volume, turnover).volume == volume,
        draft.complete(volume, turnover).turnover == turnover,
        draft.complete(volume, turnover).symbol == draft.symbol,
        draft.complete(volume, turnover).datetime == draft.datetime,
        draft.complete(volume, turnover).interval == draft.interval,
        draft.complete(volume, turnover).timestamp == draft.timestamp,
{
}

} // verus!
