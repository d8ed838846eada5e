use vstd::prelude::*;

verus! {

/// One OHLCV record: open, high, low, close and traded volume for a single
/// interval, as fixed-point integer mantissas in chronological order of the
/// sequence that holds them.
#[derive(Clone, Copy, Debug, PartialEq, Eq, Structural)]
pub struct CandleRow {
    pub open: i64,
    pub high: i64,
    pub low: i64,
    pub close: i64,
    pub volume: i64,
}

impl CandleRow {
    /// Packs the five mantissas into a row.
    pub fn new(open: i64, high: i64, low: i64, close: i64, volume: i64) -> (r: CandleRow)
        ensures
            r.open == open,
            r.high == high,
            r.low == low,
            r.close == close,
            r.volume == volume,
    {
        CandleRow { open, high, low, close, volume }
    }
}

} // verus!
