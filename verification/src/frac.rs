use vstd::prelude::*;

verus! {

/// An exact fraction: a numerator and denominator pair, kept verbatim.
///
/// No reduction and no sign normalization is performed, and the denominator
/// may be zero: a `Frac` records exactly which division a derived column
/// stands for. Callers that evaluate it numerically decide for themselves
/// what a zero denominator means.
#[derive(Clone, Copy, Debug, PartialEq, Eq, Structural)]
pub struct Frac {
    pub num: i128,
    pub den: i128,
}

impl Frac {
    /// The fraction `n / 1`, the exact embedding of an integer mantissa.
    pub fn whole(n: i64) -> (r: Frac)
        ensures
            r.num == n,
            r.den == 1,
    {
        Frac { num: n as i128, den: 1 }
    }
}

} // verus!
