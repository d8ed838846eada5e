use vstd::prelude::*;
use vstd::string::StringSliceAdditionalSpecFns;

verus! {

/// The byte of an ASCII decimal digit.
pub open spec fn is_digit(b: u8) -> bool {
    0x30 <= b <= 0x39
}

/// The numeric value of an ASCII decimal digit byte.
pub open spec fn digit_val(b: u8) -> int {
    b - 0x30
}

/// Every byte of `s` is an ASCII decimal digit.
pub open spec fn all_digits(s: Seq<u8>) -> bool {
    forall|i: int| 0 <= i < s.len() ==> is_digit(#[trigger] s[i])
}

/// The integer a digit string denotes, most significant digit first.
pub open spec fn digits_value(s: Seq<u8>) -> int
    decreases s.len(),
{
    if s.len() == 0 {
        0
    } else {
        digits_value(s.drop_last()) * 10 + digit_val(s.last())
    }
}

/// Ten to the `k`.
pub open spec fn pow10(k: nat) -> int
    decreases k,
{
    if k == 0 {
        1
    } else {
        10 * pow10((k - 1) as nat)
    }
}

pub proof fn lemma_pow10_pos(k: nat)
    ensures
        pow10(k) >= 1,
    decreases k,
{
    if k > 0 {
        lemma_pow10_pos((k - 1) as nat);
    }
}

pub proof fn lemma_pow10_mono(j: nat, k: nat)
    requires
        j <= k,
    ensures
        pow10(j) <= pow10(k),
    decreases k,
{
    lemma_pow10_pos(j);
    if j < k {
        lemma_pow10_mono(j, (k - 1) as nat);
        lemma_pow10_pos((k - 1) as nat);
    }
}

/// A digit string of length `n` denotes a value in `[0, 10^n)`.
pub proof fn lemma_digits_value_bounds(s: Seq<u8>)
    requires
        all_digits(s),
    ensures
        0 <= digits_value(s) < pow10(s.len()),
    decreases s.len(),
{
    if s.len() > 0 {
        lemma_digits_value_bounds(s.drop_last());
    }
}

/// Splitting a digit string: the whole value is the prefix value shifted
/// by the suffix length plus the suffix value.
pub proof fn lemma_digits_value_split(s: Seq<u8>, k: int)
    requires
        0 <= k <= s.len(),
    ensures
        digits_value(s) == digits_value(s.subrange(0, k)) * pow10((s.len() - k) as nat)
            + digits_value(s.subrange(k, s.len() as int)),
    decreases s.len() - k,
{
    if k == s.len() {
        assert(s.subrange(0, k) =~= s);
        assert(s.subrange(k, s.len() as int) =~= Seq::<u8>::empty());
    } else {
        let t = s.drop_last();
        lemma_digits_value_split(t, k);
        assert(t.subrange(0, k) =~= s.subrange(0, k));
        assert(s.subrange(k, s.len() as int).drop_last() =~= t.subrange(k, t.len() as int));
        let a = digits_value(s.subrange(0, k));
        let m = (t.len() - k) as nat;
        assert(digits_value(t) == a * pow10(m) + digits_value(t.subrange(k, t.len() as int)));
        assert(digits_value(s) == digits_value(t) * 10 + digit_val(s.last()));
        assert(digits_value(s.subrange(k, s.len() as int)) == digits_value(
            t.subrange(k, t.len() as int),
        ) * 10 + digit_val(s.last()));
        assert(pow10(m + 1) == 10 * pow10(m));
        assert((a * pow10(m)) * 10 == a * (pow10(m) * 10)) by (nonlinear_arith);
    }
}

/// A run of ASCII zeros denotes zero.
pub proof fn lemma_zeros_value(s: Seq<u8>)
    requires
        forall|i: int| 0 <= i < s.len() ==> #[trigger] s[i] == 0x30,
    ensures
        digits_value(s) == 0,
    decreases s.len(),
{
    if s.len() > 0 {
        lemma_zeros_value(s.drop_last());
    }
}

/// A digit string with a nonzero leading digit denotes at least
/// `10^(n-1)`.
pub proof fn lemma_digits_value_lower(s: Seq<u8>)
    requires
        all_digits(s),
        s.len() >= 1,
        s[0] != 0x30,
    ensures
        digits_value(s) >= pow10((s.len() - 1) as nat),
{
    lemma_digits_value_split(s, 1);
    let head = s.subrange(0, 1);
    let tail = s.subrange(1, s.len() as int);
    assert(head.drop_last() =~= Seq::<u8>::empty());
    assert(head.last() == s[0]);
    assert(digits_value(head) == digits_value(Seq::<u8>::empty()) * 10 + digit_val(s[0]));
    assert(digits_value(Seq::<u8>::empty()) == 0);
    lemma_digits_value_bounds(tail);
    let p = pow10((s.len() - 1) as nat);
    lemma_pow10_pos((s.len() - 1) as nat);
    assert(digit_val(s[0]) * p >= p) by (nonlinear_arith)
        requires
            digit_val(s[0]) >= 1,
            p >= 1,
    ;
}

/// `s` splits at `d` into a nonempty integer digit run, an ASCII dot and
/// a nonempty fractional digit run.
pub open spec fn dotted_shape(s: Seq<u8>, d: int) -> bool {
    &&& 1 <= d <= s.len() - 2
    &&& s[d] == 0x2e
    &&& all_digits(s.subrange(0, d))
    &&& all_digits(s.subrange(d + 1, s.len() as int))
}

/// At most one position of `s` can carry the dot of a dotted shape.
pub proof fn lemma_dot_unique(s: Seq<u8>, d1: int, d2: int)
    requires
        dotted_shape(s, d1),
        dotted_shape(s, d2),
    ensures
        d1 == d2,
{
    if d1 < d2 {
        assert(is_digit(s.subrange(d1 + 1, s.len() as int)[d2 - d1 - 1]));
    }
    if d2 < d1 {
        assert(is_digit(s.subrange(d2 + 1, s.len() as int)[d1 - d2 - 1]));
    }
}

/// An unsigned decimal numeral: a nonempty digit run, optionally split in
/// two by a single dot with digits on both sides.
pub open spec fn is_unsigned_decimal(s: Seq<u8>) -> bool {
    ||| (s.len() >= 1 && all_digits(s))
    ||| exists|d: int| dotted_shape(s, d)
}

/// The fixed-point mantissa at `p` fractional digits of the numeral that
/// splits at dot position `d`: the integer part shifted by `p` plus the
/// first `p` fractional digits, right-padded with zeros; fractional
/// digits beyond `p` are truncated.
pub open spec fn mantissa_with_dot(s: Seq<u8>, d: int, p: nat) -> int {
    let frac = s.subrange(d + 1, s.len() as int);
    let j = if frac.len() <= p {
        frac.len() as int
    } else {
        p as int
    };
    digits_value(s.subrange(0, d)) * pow10(p) + digits_value(frac.subrange(0, j)) * pow10(
        (p - j) as nat,
    )
}

/// The fixed-point mantissa at `p` fractional digits of an unsigned
/// decimal numeral.
pub open spec fn decimal_mantissa(s: Seq<u8>, p: nat) -> int {
    if s.len() >= 1 && all_digits(s) {
        digits_value(s) * pow10(p)
    } else {
        mantissa_with_dot(s, choose|d: int| dotted_shape(s, d), p)
    }
}

/// Ten to the `k` as a machine integer.
pub(crate) fn pow10_i128(k: usize) -> (r: i128)
    requires
        k <= 18,
    ensures
        r == pow10(k as nat),
{
    let mut r: i128 = 1;
    let mut i: usize = 0;
    while i < k
        invariant
            i <= k <= 18,
            r == pow10(i as nat),
        decreases k - i,
    {
        proof {
            lemma_pow10_pos(i as nat);
            lemma_pow10_mono(i as nat, 17nat);
            assert(pow10(17nat) == 100000000000000000) by {
                reveal_with_fuel(pow10, 18);
            }
        }
        r = r * 10;
        i = i + 1;
    }
    r
}

/// Reads the digit run `b[lo..hi]` into a machine integer.
fn digits_to_i128(b: &[u8], lo: usize, hi: usize) -> (r: i128)
    requires
        lo <= hi <= b@.len(),
        hi - lo <= 19,
        all_digits(b@.subrange(lo as int, hi as int)),
    ensures
        r == digits_value(b@.subrange(lo as int, hi as int)),
        0 <= r < pow10((hi - lo) as nat),
{
    let mut r: i128 = 0;
    let mut j: usize = lo;
    while j < hi
        invariant
            lo <= j <= hi <= b@.len(),
            hi - lo <= 19,
            all_digits(b@.subrange(lo as int, hi as int)),
            r == digits_value(b@.subrange(lo as int, j as int)),
            0 <= r < pow10((j - lo) as nat),
        decreases hi - j,
    {
        proof {
            lemma_pow10_mono((j - lo) as nat, 19nat);
            assert(pow10(19nat) == 10000000000000000000) by {
                reveal_with_fuel(pow10, 20);
            }
            assert(is_digit(b@.subrange(lo as int, hi as int)[j - lo]));
            assert(b@.subrange(lo as int, hi as int)[j - lo] == b@[j as int]);
            assert(0x30 <= b@[j as int] <= 0x39);
            assert(b@.subrange(lo as int, j as int + 1).drop_last() =~= b@.subrange(
                lo as int,
                j as int,
            ));
            assert(b@.subrange(lo as int, j as int + 1).last() == b@[j as int]);
        }
        r = r * 10 + (b[j] - 0x30) as i128;
        j = j + 1;
        proof {
            lemma_digits_value_bounds(b@.subrange(lo as int, j as int));
        }
    }
    proof {
        assert(b@.subrange(lo as int, j as int) =~= b@.subrange(lo as int, hi as int));
    }
    r
}

/// Skips a leading run of ASCII zeros in `b[..end]`.
fn skip_zeros(b: &[u8], end: usize) -> (z: usize)
    requires
        end <= b@.len(),
    ensures
        z <= end,
        forall|k: int| 0 <= k < z ==> b@[k] == 0x30,
        z < end ==> b@[z as int] != 0x30,
{
    let mut z: usize = 0;
    while z < end && b[z] == 0x30
        invariant
            z <= end <= b@.len(),
            forall|k: int| 0 <= k < z ==> b@[k] == 0x30,
        decreases end - z,
    {
        z = z + 1;
    }
    z
}

/// A digit run whose significant part (after leading zeros) is longer
/// than 19 digits denotes more than `i64::MAX`.
proof fn lemma_long_run_too_big(b: Seq<u8>, z: int, end: int)
    requires
        0 <= z <= end <= b.len(),
        all_digits(b.subrange(0, end)),
        forall|k: int| 0 <= k < z ==> b[k] == 0x30,
        z < end,
        b[z] != 0x30,
        end - z > 19,
    ensures
        digits_value(b.subrange(0, end)) > i64::MAX,
{
    let whole = b.subrange(0, end);
    let sig = b.subrange(z, end);
    lemma_digits_value_split(whole, z);
    assert(whole.subrange(0, z) =~= b.subrange(0, z));
    assert(whole.subrange(z, end) =~= sig);
    lemma_zeros_value(b.subrange(0, z));
    assert(all_digits(sig)) by {
        assert forall|k: int| 0 <= k < sig.len() implies is_digit(#[trigger] sig[k]) by {
            assert(is_digit(whole[z + k]));
        }
    }
    lemma_digits_value_lower(sig);
    lemma_pow10_mono(19nat, (end - z - 1) as nat);
    assert(pow10(19nat) == 10000000000000000000) by {
        reveal_with_fuel(pow10, 20);
    }
    lemma_pow10_pos((end - z) as nat);
    assert(digits_value(whole) == 0 * pow10((end - z) as nat) + digits_value(sig));
}

/// Parses an unsigned decimal numeral - a nonempty digit run, optionally
/// split once by a dot with digits on both sides, the shape a market data
/// feed prints prices in - into a fixed-point mantissa with `frac_digits`
/// fractional digits. Fractional digits beyond that scale are truncated.
/// Returns the mantissa exactly when the text is such a numeral and the
/// mantissa fits the result type; anything else gives `None`.
#[verifier::rlimit(80)]
pub fn parse_mantissa(s: &str, frac_digits: usize) -> (r: Option<i64>)
    requires
        frac_digits <= 18,
    ensures
        r is Some <==> (is_unsigned_decimal(s.spec_bytes()) && decimal_mantissa(
            s.spec_bytes(),
            frac_digits as nat,
        ) <= i64::MAX),
        r matches Some(m) ==> m == decimal_mantissa(s.spec_bytes(), frac_digits as nat),
{
    let b = s.as_bytes();
    let n = b.len();
    if n == 0 {
        return None;
    }
    let mut dot: Option<usize> = None;
    let mut i: usize = 0;
    while i < n
        invariant
            b@ == s.spec_bytes(),
            n == b@.len(),
            1 <= n,
            i <= n,
            match dot {
                Some(d) => {
                    &&& 1 <= d < i
                    &&& b@[d as int] == 0x2e
                    &&& all_digits(b@.subrange(0, d as int))
                    &&& all_digits(b@.subrange(d as int + 1, i as int))
                },
                None => all_digits(b@.subrange(0, i as int)),
            },
        decreases n - i,
    {
        let c = b[i];
        if c == 0x2e {
            if i == 0 {
                proof {
                    assert(!is_digit(b@[0]));
                    assert forall|d: int| !dotted_shape(b@, d) by {
                        if dotted_shape(b@, d) {
                            assert(is_digit(b@.subrange(0, d)[0]));
                        }
                    }
                }
                return None;
            }
            match dot {
                Some(d0) => {
                    proof {
                        assert(!is_digit(b@[d0 as int]));
                        assert forall|d: int| !dotted_shape(b@, d) by {
                            if dotted_shape(b@, d) {
                                if d == d0 {
                                    assert(is_digit(
                                        b@.subrange(d + 1, n as int)[i - d - 1],
                                    ));
                                } else if d0 < d {
                                    assert(is_digit(b@.subrange(0, d)[d0 as int]));
                                } else {
                                    assert(is_digit(
                                        b@.subrange(d + 1, n as int)[d0 - d - 1],
                                    ));
                                }
                            }
                        }
                    }
                    return None;
                },
                None => {
                    dot = Some(i);
                    proof {
                        assert(b@.subrange(i as int + 1, i as int + 1) =~= Seq::<
                            u8,
                        >::empty());
                    }
                },
            }
        } else if c < 0x30 || c > 0x39 {
            proof {
                assert(!is_digit(b@[i as int]));
                assert forall|d: int| !dotted_shape(b@, d) by {
                    if dotted_shape(b@, d) {
                        if i < d {
                            assert(is_digit(b@.subrange(0, d)[i as int]));
                        } else if i > d {
                            assert(is_digit(b@.subrange(d + 1, n as int)[i - d - 1]));
                        }
                    }
                }
            }
            return None;
        } else {
            proof {
                match dot {
                    Some(d) => {
                        assert forall|k: int| 0 <= k < i + 1 - (d + 1) implies is_digit(
                            #[trigger] b@.subrange(d as int + 1, i as int + 1)[k],
                        ) by {
                            if k < i - (d + 1) {
                                assert(is_digit(b@.subrange(d as int + 1, i as int)[k]));
                            } else {
                                assert(b@.subrange(d as int + 1, i as int + 1)[k] == b@[i as int]);
                            }
                        }
                    },
                    None => {
                        assert forall|k: int| 0 <= k < i + 1 implies is_digit(
                            #[trigger] b@.subrange(0, i as int + 1)[k],
                        ) by {
                            if k < i {
                                assert(is_digit(b@.subrange(0, i as int)[k]));
                            } else {
                                assert(b@.subrange(0, i as int + 1)[k] == b@[i as int]);
                            }
                        }
                    },
                }
            }
        }
        i = i + 1;
    }
    match dot {
        None => {
            proof {
                assert(b@.subrange(0, n as int) =~= b@);
            }
            let z = skip_zeros(b, n);
            if n - z > 19 {
                proof {
                    lemma_long_run_too_big(b@, z as int, n as int);
                    lemma_pow10_pos(frac_digits as nat);
                    assert(digits_value(b@.subrange(0, n as int)) * pow10(frac_digits as nat)
                        >= digits_value(b@.subrange(0, n as int))) by (nonlinear_arith)
                        requires
                            digits_value(b@.subrange(0, n as int)) > 0,
                            pow10(frac_digits as nat) >= 1,
                    ;
                }
                return None;
            }
            proof {
                assert forall|k: int| 0 <= k < n - z implies is_digit(
                    #[trigger] b@.subrange(z as int, n as int)[k],
                ) by {
                    assert(is_digit(b@[z + k]));
                }
                lemma_digits_value_split(b@, z as int);
                lemma_zeros_value(b@.subrange(0, z as int));
            }
            let v = digits_to_i128(b, z, n);
            let scale = pow10_i128(frac_digits);
            proof {
                lemma_pow10_mono((n - z) as nat, 19nat);
                lemma_pow10_mono(frac_digits as nat, 18nat);
                lemma_pow10_pos(frac_digits as nat);
                assert(pow10(19nat) == 10000000000000000000) by {
                    reveal_with_fuel(pow10, 20);
                }
                assert(pow10(18nat) == 1000000000000000000) by {
                    reveal_with_fuel(pow10, 19);
                }
                assert(0 <= v * scale < 10000000000000000000000000000000000000) by (
                nonlinear_arith)
                    requires
                        0 <= v < 10000000000000000000,
                        1 <= scale <= 1000000000000000000,
                ;
            }
            let m = v * scale;
            if m > i64::MAX as i128 {
                None
            } else {
                Some(m as i64)
            }
        },
        Some(d) => {
            if d == n - 1 {
                proof {
                    assert(!is_digit(b@[d as int]));
                    assert forall|d2: int| !dotted_shape(b@, d2) by {
                        if dotted_shape(b@, d2) {
                            assert(is_digit(b@.subrange(d2 + 1, n as int)[d - d2 - 1]));
                        }
                    }
                }
                return None;
            }
            proof {
                assert(dotted_shape(b@, d as int));
                assert(!is_digit(b@[d as int]));
                let dc = choose|dd: int| dotted_shape(b@, dd);
                lemma_dot_unique(b@, d as int, dc);
                assert(decimal_mantissa(b@, frac_digits as nat) == mantissa_with_dot(
                    b@,
                    d as int,
                    frac_digits as nat,
                ));
            }
            let flen = n - 1 - d;
            let j = if frac_digits < flen {
                frac_digits
            } else {
                flen
            };
            let ghost frac = b@.subrange(d as int + 1, n as int);
            proof {
                assert(frac.subrange(0, j as int) =~= b@.subrange(
                    d as int + 1,
                    d as int + 1 + j as int,
                ));
                assert forall|k: int| 0 <= k < j implies is_digit(
                    #[trigger] b@.subrange(d as int + 1, d as int + 1 + j as int)[k],
                ) by {
                    assert(is_digit(frac[k]));
                }
            }
            let z = skip_zeros(b, d);
            if d - z > 19 {
                proof {
                    lemma_long_run_too_big(b@, z as int, d as int);
                    lemma_pow10_pos(frac_digits as nat);
                    lemma_pow10_pos((frac_digits - j) as nat);
                    lemma_digits_value_bounds(frac.subrange(0, j as int));
                    let iv = digits_value(b@.subrange(0, d as int));
                    let fv = digits_value(frac.subrange(0, j as int));
                    assert(iv * pow10(frac_digits as nat) >= iv && fv * pow10(
                        (frac_digits - j) as nat,
                    ) >= 0) by (nonlinear_arith)
                        requires
                            iv > 0,
                            fv >= 0,
                            pow10(frac_digits as nat) >= 1,
                            pow10((frac_digits - j) as nat) >= 1,
                    ;
                }
                return None;
            }
            proof {
                assert forall|k: int| 0 <= k < d - z implies is_digit(
                    #[trigger] b@.subrange(z as int, d as int)[k],
                ) by {
                    assert(is_digit(b@.subrange(0, d as int)[z + k]));
                }
                lemma_digits_value_split(b@.subrange(0, d as int), z as int);
                assert(b@.subrange(0, d as int).subrange(0, z as int) =~= b@.subrange(
                    0,
                    z as int,
                ));
                assert(b@.subrange(0, d as int).subrange(z as int, d as int) =~= b@.subrange(
                    z as int,
                    d as int,
                ));
                lemma_zeros_value(b@.subrange(0, z as int));
            }
            let vi = digits_to_i128(b, z, d);
            let vf = digits_to_i128(b, d + 1, d + 1 + j);
            let scale = pow10_i128(frac_digits);
            let scale2 = pow10_i128(frac_digits - j);
            proof {
                lemma_pow10_mono((d - z) as nat, 19nat);
                lemma_pow10_mono(frac_digits as nat, 18nat);
                lemma_pow10_mono(((d + 1 + j) - (d + 1)) as nat, 18nat);
                lemma_pow10_mono((frac_digits - j) as nat, 18nat);
                lemma_pow10_pos(frac_digits as nat);
                lemma_pow10_pos((frac_digits - j) as nat);
                assert(pow10(19nat) == 10000000000000000000) by {
                    reveal_with_fuel(pow10, 20);
                }
                assert(pow10(18nat) == 1000000000000000000) by {
                    reveal_with_fuel(pow10, 19);
                }
                assert(0 <= vi * scale < 10000000000000000000000000000000000000 && 0 <= vf
                    * scale2 < 10000000000000000000000000000000000000) by (nonlinear_arith)
                    requires
                        0 <= vi < 10000000000000000000,
                        0 <= vf < 1000000000000000000,
                        1 <= scale <= 1000000000000000000,
                        1 <= scale2 <= 1000000000000000000,
                ;
            }
            let m = vi * scale + vf * scale2;
            if m > i64::MAX as i128 {
                None
            } else {
                Some(m as i64)
            }
        },
    }
}

} // verus!
