use vstd::prelude::*;

use crate::candle::CandleRow;
use crate::error::ForecastError;
use crate::frac::Frac;

verus! {

/// One row of the feature table: the five raw candle fields plus the
/// derived columns. Rolling means are kept exactly as window sum over
/// window size; the volume change is the exact fraction
/// `(volume[i] - volume[i-1]) / volume[i-1]`, absent on the first row.
#[derive(Clone, Copy, Debug, PartialEq, Eq)]
pub struct FeatureRow {
    pub open: i64,
    pub high: i64,
    pub low: i64,
    pub close: i64,
    pub volume: i64,
    /// `open - close` for this row.
    pub oc_diff: i128,
    /// `high - low` for this row.
    pub hl_diff: i128,
    /// Trailing mean of `close` over up to 5 rows ending here.
    pub ma_5: Frac,
    /// Trailing mean of `close` over up to 10 rows ending here.
    pub ma_10: Frac,
    /// Percentage change of volume against the previous row; `None` on the
    /// first row, where there is no previous volume.
    pub volume_change: Option<Frac>,
}

/// The first index of the trailing window of width `w` that ends at row
/// `i`: the window shrinks at the start of the series instead of running
/// off its front.
pub open spec fn window_start(i: int, w: int) -> int {
    if i + 1 >= w {
        i + 1 - w
    } else {
        0
    }
}

/// The sum of the close prices of rows `lo..hi`.
pub open spec fn close_sum(rows: Seq<CandleRow>, lo: int, hi: int) -> int
    decreases hi - lo,
{
    if lo >= hi {
        0
    } else {
        close_sum(rows, lo, hi - 1) + rows[hi - 1].close
    }
}

/// A window sum of close prices is bounded by the window width times the
/// magnitude of the widest 64-bit value.
pub proof fn lemma_close_sum_bound(rows: Seq<CandleRow>, lo: int, hi: int)
    requires
        0 <= lo <= hi <= rows.len(),
    ensures
        -((hi - lo) * 0x8000000000000000) <= close_sum(rows, lo, hi),
        close_sum(rows, lo, hi) <= (hi - lo) * 0x8000000000000000,
    decreases hi - lo,
{
    if lo < hi {
        lemma_close_sum_bound(rows, lo, hi - 1);
    }
}

/// Row `i` of a feature table is exactly the derived view of row `i` of
/// the candle sequence: raw fields copied, `oc_diff` and `hl_diff` the
/// stated differences, each rolling mean the exact window sum over the
/// (possibly shrunk) window size, and the volume change the exact fraction
/// against the previous row, absent only on the first row. Every column
/// reads rows at indices `<= i`: there is no look-ahead.
pub open spec fn row_matches(rows: Seq<CandleRow>, i: int, fr: FeatureRow) -> bool {
    &&& fr.open == rows[i].open
    &&& fr.high == rows[i].high
    &&& fr.low == rows[i].low
    &&& fr.close == rows[i].close
    &&& fr.volume == rows[i].volume
    &&& fr.oc_diff == rows[i].open - rows[i].close
    &&& fr.hl_diff == rows[i].high - rows[i].low
    &&& fr.ma_5.num == close_sum(rows, window_start(i, 5), i + 1)
    &&& fr.ma_5.den == i + 1 - window_start(i, 5)
    &&& fr.ma_10.num == close_sum(rows, window_start(i, 10), i + 1)
    &&& fr.ma_10.den == i + 1 - window_start(i, 10)
    &&& i == 0 ==> fr.volume_change is None
    &&& i > 0 ==> (fr.volume_change matches Some(vc) && vc.num == rows[i].volume - rows[i
        - 1].volume && vc.den == rows[i - 1].volume)
}

/// `table` is the feature table of `rows`: equal length, and every row the
/// exact derived view of the corresponding candle row.
pub open spec fn feature_table_for(rows: Seq<CandleRow>, table: Seq<FeatureRow>) -> bool {
    &&& table.len() == rows.len()
    &&& forall|i: int| 0 <= i < rows.len() ==> row_matches(rows, i, #[trigger] table[i])
}

/// Sums the close prices of rows `lo..hi` for a window of at most 10 rows.
fn sum_close(rows: &Vec<CandleRow>, lo: usize, hi: usize) -> (s: i128)
    requires
        lo <= hi <= rows@.len(),
        hi - lo <= 10,
    ensures
        s == close_sum(rows@, lo as int, hi as int),
{
    let mut s: i128 = 0;
    let mut j: usize = lo;
    while j < hi
        invariant
            lo <= j <= hi <= rows@.len(),
            hi - lo <= 10,
            s == close_sum(rows@, lo as int, j as int),
        decreases hi - j,
    {
        proof {
            lemma_close_sum_bound(rows@, lo as int, j as int);
        }
        s = s + rows[j].close as i128;
        j = j + 1;
    }
    s
}

/// Builds the feature table for a chronological candle sequence, or
/// reports `InsufficientData` when fewer rows than the configured minimum
/// are available. On success the table has one row per candle row, each
/// the exact derived view of its candle: this is the whole of the
/// transform, so the output is a pure function of the input.
pub fn build_features(rows: &Vec<CandleRow>, min_rows: usize) -> (r: Result<
    Vec<FeatureRow>,
    ForecastError,
>)
    ensures
        rows@.len() < min_rows ==> (r matches Err(e) && e == ForecastError::InsufficientData),
        rows@.len() >= min_rows ==> (r matches Ok(t) && feature_table_for(rows@, t@)),
{
    if rows.len() < min_rows {
        return Err(ForecastError::InsufficientData);
    }
    let n = rows.len();
    let mut table: Vec<FeatureRow> = Vec::new();
    let mut i: usize = 0;
    while i < n
        invariant
            n == rows@.len(),
            i <= n,
            table@.len() == i,
            forall|k: int| 0 <= k < i ==> row_matches(rows@, k, #[trigger] table@[k]),
        decreases n - i,
    {
        let row = rows[i];
        let lo5 = if i + 1 >= 5 {
            i + 1 - 5
        } else {
            0
        };
        let lo10 = if i + 1 >= 10 {
            i + 1 - 10
        } else {
            0
        };
        let sum5 = sum_close(rows, lo5, i + 1);
        let sum10 = sum_close(rows, lo10, i + 1);
        let volume_change = if i == 0 {
            None
        } else {
            let prev = rows[i - 1];
            Some(
                Frac {
                    num: row.volume as i128 - prev.volume as i128,
                    den: prev.volume as i128,
                },
            )
        };
        let fr = FeatureRow {
            open: row.open,
            high: row.high,
            low: row.low,
            close: row.close,
            volume: row.volume,
            oc_diff: row.open as i128 - row.close as i128,
            hl_diff: row.high as i128 - row.low as i128,
            ma_5: Frac { num: sum5, den: (i + 1 - lo5) as i128 },
            ma_10: Frac { num: sum10, den: (i + 1 - lo10) as i128 },
            volume_change,
        };
        table.push(fr);
        i = i + 1;
    }
    Ok(table)
}

/// Two candle sequences that agree on a range give the same window sums
/// over it.
proof fn lemma_close_sum_congruence(r1: Seq<CandleRow>, r2: Seq<CandleRow>, lo: int, hi: int)
    requires
        0 <= lo,
        hi <= r1.len(),
        hi <= r2.len(),
        forall|k: int| lo <= k < hi ==> r1[k] == r2[k],
    ensures
        close_sum(r1, lo, hi) == close_sum(r2, lo, hi),
    decreases hi - lo,
{
    if lo < hi {
        lemma_close_sum_congruence(r1, r2, lo, hi - 1);
    }
}

/// No look-ahead: row `i` of a feature table depends only on candle rows
/// at indices `<= i`, so two candle sequences that agree up to `i` have
/// identical feature rows there.
pub proof fn lemma_no_lookahead(
    r1: Seq<CandleRow>,
    r2: Seq<CandleRow>,
    t1: Seq<FeatureRow>,
    t2: Seq<FeatureRow>,
    i: int,
)
    requires
        feature_table_for(r1, t1),
        feature_table_for(r2, t2),
        0 <= i < r1.len(),
        i < r2.len(),
        forall|k: int| 0 <= k <= i ==> r1[k] == r2[k],
    ensures
        t1[i] == t2[i],
{
    assert(row_matches(r1, i, t1[i]));
    assert(row_matches(r2, i, t2[i]));
    lemma_close_sum_congruence(r1, r2, window_start(i, 5), i + 1);
    lemma_close_sum_congruence(r1, r2, window_start(i, 10), i + 1);
}

/// Feature construction is a pure function of its input: any two feature
/// tables for the same candle sequence are equal, so building the table
/// twice from the same rows gives identical output.
pub proof fn lemma_feature_table_unique(
    rows: Seq<CandleRow>,
    t1: Seq<FeatureRow>,
    t2: Seq<FeatureRow>,
)
    requires
        feature_table_for(rows, t1),
        feature_table_for(rows, t2),
    ensures
        t1 == t2,
{
    assert forall|k: int| 0 <= k < t1.len() implies t1[k] == t2[k] by {
        assert(row_matches(rows, k, t1[k]));
        assert(row_matches(rows, k, t2[k]));
    }
    assert(t1 =~= t2);
}

} // verus!
