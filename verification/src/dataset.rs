use vstd::prelude::*;

use crate::error::ForecastError;
use crate::features::FeatureRow;
use crate::features::feature_table_for;
use crate::features::row_matches;
use crate::frac::Frac;
use crate::candle::CandleRow;

verus! {

/// One labeled training example: the feature columns of a row paired with
/// the close price of the following row.
#[derive(Clone, Debug, PartialEq, Eq)]
pub struct TrainingExample {
    pub features: Vec<Frac>,
    pub label: i64,
}

/// What the preparer hands to the model: the labeled examples, the feature
/// vector of the most recent row for inference, and the feature column
/// names in the one order used everywhere.
#[derive(Clone, Debug, PartialEq, Eq)]
pub struct Dataset {
    pub examples: Vec<TrainingExample>,
    pub inference: Vec<Frac>,
    pub feature_names: Vec<&'static str>,
}

/// A well-formed feature table: the volume change is absent on the first
/// row and present on every later one. Tables built by feature
/// construction always have this shape.
pub open spec fn table_wf(t: Seq<FeatureRow>) -> bool {
    forall|i: int| 0 <= i < t.len() ==> ((#[trigger] t[i]).volume_change is Some <==> i > 0)
}

/// A feature table built from candle rows is well formed: its first row
/// lacks a volume change and every later row has one, so the preparer's
/// precondition holds for everything the builder produces.
pub proof fn lemma_feature_table_wf(rows: Seq<CandleRow>, table: Seq<FeatureRow>)
    requires
        feature_table_for(rows, table),
    ensures
        table_wf(table),
{
    assert forall|i: int| 0 <= i < table.len() implies ((#[trigger] table[i]).volume_change
        is Some <==> i > 0) by {
        assert(row_matches(rows, i, table[i]));
    }
}

/// `v` is the feature-column vector of `fr`: the ten columns in the fixed
/// order open, high, low, close, volume, oc_diff, hl_diff, ma_5, ma_10,
/// volume_change, each as an exact fraction.
pub open spec fn vec_matches_row(v: Seq<Frac>, fr: FeatureRow) -> bool {
    &&& v.len() == 10
    &&& v[0].num == fr.open && v[0].den == 1
    &&& v[1].num == fr.high && v[1].den == 1
    &&& v[2].num == fr.low && v[2].den == 1
    &&& v[3].num == fr.close && v[3].den == 1
    &&& v[4].num == fr.volume && v[4].den == 1
    &&& v[5].num == fr.oc_diff && v[5].den == 1
    &&& v[6].num == fr.hl_diff && v[6].den == 1
    &&& v[7] == fr.ma_5
    &&& v[8] == fr.ma_10
    &&& fr.volume_change matches Some(vc) && v[9] == vc
}

/// Example `k` of the prepared dataset comes from table row `k + 1`: its
/// features are that row's columns and its label is the close of the row
/// after it.
pub open spec fn example_matches(t: Seq<FeatureRow>, k: int, ex: TrainingExample) -> bool {
    &&& vec_matches_row(ex.features@, t[k + 1])
    &&& ex.label == t[k + 2].close
}

/// The ten feature column names, in the one fixed order shared by the
/// training matrix and the inference vector.
pub open spec fn names_spec(names: Seq<&'static str>) -> bool {
    &&& names.len() == 10
    &&& names[0]@ == "open"@
    &&& names[1]@ == "high"@
    &&& names[2]@ == "low"@
    &&& names[3]@ == "close"@
    &&& names[4]@ == "volume"@
    &&& names[5]@ == "oc_diff"@
    &&& names[6]@ == "hl_diff"@
    &&& names[7]@ == "ma_5"@
    &&& names[8]@ == "ma_10"@
    &&& names[9]@ == "volume_change"@
}

/// A prepared dataset for table `t`: exactly the rows with every field
/// present and a label survive (rows `1..len-1`, since the first row has
/// no volume change and the last has no following close), the inference
/// vector is the column vector of the last row of the full table, and the
/// column names are the fixed ordering.
pub open spec fn dataset_matches(t: Seq<FeatureRow>, d: Dataset) -> bool {
    &&& d.examples@.len() == t.len() - 2
    &&& forall|k: int| 0 <= k < t.len() - 2 ==> example_matches(t, k, #[trigger] d.examples@[k])
    &&& vec_matches_row(d.inference@, t[t.len() - 1])
    &&& names_spec(d.feature_names@)
}

/// Across the whole pipeline: from `N >= 3` raw candle rows the preparer
/// keeps exactly `N - 2` training examples, and none of them has a missing
/// field — the first table row falls to its absent volume change and the
/// last to its missing label, every survivor carries all ten columns.
pub proof fn lemma_training_count(rows: Seq<CandleRow>, table: Seq<FeatureRow>, d: Dataset)
    requires
        feature_table_for(rows, table),
        rows.len() >= 3,
        dataset_matches(table, d),
    ensures
        d.examples@.len() == rows.len() - 2,
        forall|k: int| 0 <= k < d.examples@.len() ==> (#[trigger] d.examples@[k]).features@.len()
            == 10,
{
    assert forall|k: int| 0 <= k < d.examples@.len() implies (
    #[trigger] d.examples@[k]).features@.len() == 10 by {
        assert(example_matches(table, k, d.examples@[k]));
    }
}

/// The feature column names in their fixed order.
pub fn feature_names() -> (names: Vec<&'static str>)
    ensures
        names_spec(names@),
{
    let mut names: Vec<&'static str> = Vec::new();
    names.push("open");
    names.push("high");
    names.push("low");
    names.push("close");
    names.push("volume");
    names.push("oc_diff");
    names.push("hl_diff");
    names.push("ma_5");
    names.push("ma_10");
    names.push("volume_change");
    names
}

/// The feature-column vector of one fully formed row, in the fixed column
/// order.
pub fn feature_vector(fr: &FeatureRow) -> (v: Vec<Frac>)
    requires
        fr.volume_change is Some,
    ensures
        vec_matches_row(v@, *fr),
{
    let mut v: Vec<Frac> = Vec::new();
    v.push(Frac::whole(fr.open));
    v.push(Frac::whole(fr.high));
    v.push(Frac::whole(fr.low));
    v.push(Frac::whole(fr.close));
    v.push(Frac::whole(fr.volume));
    v.push(Frac { num: fr.oc_diff, den: 1 });
    v.push(Frac { num: fr.hl_diff, den: 1 });
    v.push(fr.ma_5);
    v.push(fr.ma_10);
    if let Some(vc) = fr.volume_change {
        v.push(vc);
    }
    v
}

/// Labels each row with the next row's close, drops every row with a
/// missing field (the first row, whose volume change is absent, and the
/// last row, which has no following close to act as label), and extracts
/// the inference vector from the last row of the full table, before the
/// label drop. With fewer than three rows no labeled, fully formed row
/// survives and the preparer reports `EmptyDataset`.
pub fn prepare_training_data(table: &Vec<FeatureRow>) -> (r: Result<Dataset, ForecastError>)
    requires
        table_wf(table@),
    ensures
        table@.len() < 3 ==> (r matches Err(e) && e == ForecastError::EmptyDataset),
        table@.len() >= 3 ==> (r matches Ok(d) && dataset_matches(table@, d)),
{
    let n = table.len();
    if n < 3 {
        return Err(ForecastError::EmptyDataset);
    }
    let mut examples: Vec<TrainingExample> = Vec::new();
    let mut i: usize = 1;
    while i + 1 < n
        invariant
            n == table@.len(),
            3 <= n,
            table_wf(table@),
            1 <= i <= n - 1,
            examples@.len() == i - 1,
            forall|k: int| 0 <= k < i - 1 ==> example_matches(
                table@,
                k,
                #[trigger] examples@[k],
            ),
        decreases n - i,
    {
        let row = table[i];
        let feats = feature_vector(&row);
        examples.push(TrainingExample { features: feats, label: table[i + 1].close });
        i = i + 1;
    }
    let last = table[n - 1];
    let inference = feature_vector(&last);
    Ok(Dataset { examples, inference, feature_names: feature_names() })
}

/// The close price of the most recent row of the feature table: the
/// current price that a forecast is compared against. `None` only for an
/// empty table.
pub fn last_close(table: &Vec<FeatureRow>) -> (r: Option<i64>)
    ensures
        table@.len() == 0 ==> r is None,
        table@.len() > 0 ==> r == Some(table@[table@.len() - 1].close),
{
    if table.len() == 0 {
        None
    } else {
        Some(table[table.len() - 1].close)
    }
}

} // verus!
