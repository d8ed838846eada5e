use vstd::prelude::*;

verus! {

/// Everything that can stop one symbol's forecast. Each failure is
/// per-symbol: a caller logs it and moves on to the next symbol.
#[derive(Clone, Copy, Debug, PartialEq, Eq, Structural)]
pub enum ForecastError {
    /// The data source was unreachable or returned malformed rows.
    Fetch,
    /// Fewer usable rows than the configured minimum after feature
    /// construction.
    InsufficientData,
    /// Null-filtering dropped every row, so there is nothing to train on.
    EmptyDataset,
    /// The training data was degenerate and the regression fit failed.
    ModelFit,
    /// The current price is zero, so a percentage change is undefined.
    DivisionByZero,
    /// The notification channel reported a delivery failure.
    Notify,
}

} // verus!
