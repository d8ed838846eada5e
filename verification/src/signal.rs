use vstd::prelude::*;

use crate::error::ForecastError;
use crate::frac::Frac;

verus! {

/// The discrete trading signal derived from a forecast.
#[derive(Clone, Copy, Debug, PartialEq, Eq, Structural)]
pub enum Signal {
    Buy,
    Sell,
    Hold,
}

/// The plain-text name of a signal.
pub open spec fn spec_label(s: Signal) -> Seq<char> {
    match s {
        Signal::Buy => "Buy"@,
        Signal::Sell => "Sell"@,
        Signal::Hold => "Hold"@,
    }
}

impl Signal {
    /// The plain-text name of the signal, for message formatting.
    pub fn label(self) -> (s: &'static str)
        ensures
            s@ == spec_label(self),
    {
        match self {
            Signal::Buy => "Buy",
            Signal::Sell => "Sell",
            Signal::Hold => "Hold",
        }
    }
}

/// Percentage change from `current` to `predicted` exceeds `threshold`.
///
/// The change is `(predicted - current) * 100 / current` percent and the
/// threshold is given in hundredths of a percent, so the comparison
/// `change > threshold / 100` is cross-multiplied by `current`, flipping
/// the inequality when `current` is negative.
pub open spec fn rises_above(current: int, predicted: int, threshold_centi_pct: int) -> bool {
    if current > 0 {
        (predicted - current) * 10000 > threshold_centi_pct * current
    } else {
        (predicted - current) * 10000 < threshold_centi_pct * current
    }
}

/// Percentage change from `current` to `predicted` is below the negated
/// threshold, cross-multiplied exactly as in `rises_above`.
pub open spec fn falls_below(current: int, predicted: int, threshold_centi_pct: int) -> bool {
    if current > 0 {
        (predicted - current) * 10000 < -(threshold_centi_pct * current)
    } else {
        (predicted - current) * 10000 > -(threshold_centi_pct * current)
    }
}

/// The signal for a current price, a predicted price and a threshold in
/// hundredths of a percent: Buy above the threshold, Sell below its
/// negation, Hold otherwise. Meaningful only for `current != 0`.
pub open spec fn spec_signal(current: int, predicted: int, threshold_centi_pct: int) -> Signal {
    if rises_above(current, predicted, threshold_centi_pct) {
        Signal::Buy
    } else if falls_below(current, predicted, threshold_centi_pct) {
        Signal::Sell
    } else {
        Signal::Hold
    }
}

/// Decides the signal from the current price, the predicted price (both as
/// mantissas at the same scale) and the threshold in hundredths of a
/// percent. A zero current price makes the percentage change undefined and
/// is reported as an error rather than a crash.
pub fn decide_signal(current: i64, predicted: i64, threshold_centi_pct: i64) -> (r: Result<
    Signal,
    ForecastError,
>)
    ensures
        current == 0 ==> (r matches Err(e) && e == ForecastError::DivisionByZero),
        current != 0 ==> (r matches Ok(s) && s == spec_signal(
            current as int,
            predicted as int,
            threshold_centi_pct as int,
        )),
{
    if current == 0 {
        return Err(ForecastError::DivisionByZero);
    }
    let t: i128 = threshold_centi_pct as i128;
    let c: i128 = current as i128;
    proof {
        assert(-0x40000000000000000000000000000000 <= t * c
            <= 0x40000000000000000000000000000000) by (nonlinear_arith)
            requires
                -0x8000000000000000 <= t <= 0x7fffffffffffffff,
                -0x8000000000000000 <= c <= 0x7fffffffffffffff,
        ;
    }
    let lhs: i128 = (predicted as i128 - c) * 10000;
    let rhs: i128 = t * c;
    let buy = if current > 0 {
        lhs > rhs
    } else {
        lhs < rhs
    };
    if buy {
        return Ok(Signal::Buy);
    }
    let sell = if current > 0 {
        lhs < -rhs
    } else {
        lhs > -rhs
    };
    if sell {
        Ok(Signal::Sell)
    } else {
        Ok(Signal::Hold)
    }
}

/// The exact percentage change from `current` to `predicted`: the fraction
/// `(predicted - current) * 100 / current`, kept as numerator and
/// denominator. A zero current price is reported as an error.
pub fn change_pct(current: i64, predicted: i64) -> (r: Result<Frac, ForecastError>)
    ensures
        current == 0 ==> (r matches Err(e) && e == ForecastError::DivisionByZero),
        current != 0 ==> (r matches Ok(f) && f.num == (predicted - current) * 100 && f.den
            == current),
{
    if current == 0 {
        return Err(ForecastError::DivisionByZero);
    }
    Ok(Frac { num: (predicted as i128 - current as i128) * 100, den: current as i128 })
}

} // verus!
