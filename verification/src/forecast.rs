use vstd::prelude::*;

use crate::error::ForecastError;
use crate::frac::Frac;
use crate::signal::Signal;
use crate::signal::change_pct;
use crate::signal::decide_signal;
use crate::signal::spec_signal;

verus! {

/// One symbol's finished forecast, created once per run and handed
/// straight to formatting and notification.
#[derive(Clone, Debug, PartialEq, Eq)]
pub struct ForecastResult {
    pub symbol: String,
    /// The wall-clock timestamp string supplied by the caller.
    pub timestamp: String,
    pub current_price: i64,
    pub predicted_price: i64,
    /// The exact percentage change from current to predicted price.
    pub change: Frac,
    pub signal: Signal,
}

/// Combines a symbol's current price, its predicted price and the signal
/// threshold (in hundredths of a percent) into a forecast record. A zero
/// current price makes the change undefined: it is reported as an error,
/// to be logged and skipped, never a crash.
pub fn make_forecast(
    symbol: String,
    timestamp: String,
    current_price: i64,
    predicted_price: i64,
    threshold_centi_pct: i64,
) -> (r: Result<ForecastResult, ForecastError>)
    ensures
        current_price == 0 ==> (r matches Err(e) && e == ForecastError::DivisionByZero),
        current_price != 0 ==> (r matches Ok(f) && {
            &&& f.symbol@ == symbol@
            &&& f.timestamp@ == timestamp@
            &&& f.current_price == current_price
            &&& f.predicted_price == predicted_price
            &&& f.change.num == (predicted_price - current_price) * 100
            &&& f.change.den == current_price
            &&& f.signal == spec_signal(
                current_price as int,
                predicted_price as int,
                threshold_centi_pct as int,
            )
        }),
{
    let change = match change_pct(current_price, predicted_price) {
        Ok(c) => c,
        Err(e) => {
            return Err(e);
        },
    };
    let signal = match decide_signal(current_price, predicted_price, threshold_centi_pct) {
        Ok(s) => s,
        Err(e) => {
            return Err(e);
        },
    };
    Ok(
        ForecastResult {
            symbol,
            timestamp,
            current_price,
            predicted_price,
            change,
            signal,
        },
    )
}

} // verus!
