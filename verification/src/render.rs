use vstd::prelude::*;
use vstd::string::StringExecFns;

use crate::forecast::ForecastResult;
use crate::parse::pow10;
use crate::parse::pow10_i128;
use crate::parse::lemma_pow10_pos;
use crate::signal::spec_label;

verus! {

/// The ASCII character of one decimal digit.
pub open spec fn digit_char(d: int) -> char {
    if d == 0 {
        '0'
    } else if d == 1 {
        '1'
    } else if d == 2 {
        '2'
    } else if d == 3 {
        '3'
    } else if d == 4 {
        '4'
    } else if d == 5 {
        '5'
    } else if d == 6 {
        '6'
    } else if d == 7 {
        '7'
    } else if d == 8 {
        '8'
    } else {
        '9'
    }
}

/// The decimal digit string of `n`, most significant digit first; zero is
/// rendered as a single digit.
pub open spec fn dec_digits(n: nat) -> Seq<char>
    decreases n,
{
    if n < 10 {
        seq![digit_char(n as int)]
    } else {
        dec_digits(n / 10) + seq![digit_char((n % 10) as int)]
    }
}

/// `s` left-padded with ASCII zeros to `width` characters.
pub open spec fn pad_zeros(s: Seq<char>, width: nat) -> Seq<char> {
    if s.len() >= width {
        s
    } else {
        Seq::new((width - s.len()) as nat, |i: int| '0') + s
    }
}

/// The fixed-point rendering of mantissa `m` at `p` fractional digits: an
/// optional minus sign, the integer part, and for `p > 0` a dot followed
/// by exactly `p` fractional digits.
pub open spec fn spec_fixed_point(m: int, p: nat) -> Seq<char> {
    let a = (if m >= 0 {
        m
    } else {
        -m
    }) as nat;
    let q = a / (pow10(p) as nat);
    let r = a % (pow10(p) as nat);
    let sign = if m < 0 {
        seq!['-']
    } else {
        Seq::<char>::empty()
    };
    if p == 0 {
        sign + dec_digits(q)
    } else {
        sign + dec_digits(q) + seq!['.'] + pad_zeros(dec_digits(r), p)
    }
}

/// A number below `10^k` prints in at most `k` digits.
proof fn lemma_dec_digits_len(n: nat, k: nat)
    requires
        k >= 1,
        n < pow10(k),
    ensures
        1 <= dec_digits(n).len() <= k,
    decreases k,
{
    if n >= 10 {
        assert(pow10(k) == 10 * pow10((k - 1) as nat));
        assert(n / 10 < pow10((k - 1) as nat));
        lemma_dec_digits_len(n / 10, (k - 1) as nat);
    }
}

/// The digit characters of `ds`, last byte first.
spec fn rev_chars(ds: Seq<u8>) -> Seq<char> {
    Seq::new(ds.len(), |i: int| digit_char(ds[ds.len() - 1 - i] as int))
}

/// Appends one decimal digit to `s`.
fn append_digit(s: &mut String, d: u8)
    requires
        d < 10,
    ensures
        final(s)@ == old(s)@ + seq![digit_char(d as int)],
{
    proof {
        reveal_strlit("0");
        reveal_strlit("1");
        reveal_strlit("2");
        reveal_strlit("3");
        reveal_strlit("4");
        reveal_strlit("5");
        reveal_strlit("6");
        reveal_strlit("7");
        reveal_strlit("8");
        reveal_strlit("9");
    }
    match d {
        0 => s.append("0"),
        1 => s.append("1"),
        2 => s.append("2"),
        3 => s.append("3"),
        4 => s.append("4"),
        5 => s.append("5"),
        6 => s.append("6"),
        7 => s.append("7"),
        8 => s.append("8"),
        _ => s.append("9"),
    }
    proof {
        assert(s@ =~= old(s)@ + seq![digit_char(d as int)]);
    }
}

/// Appends the decimal digit string of `n` to `s`.
fn append_uint(s: &mut String, n: i128)
    requires
        n >= 0,
    ensures
        final(s)@ == old(s)@ + dec_digits(n as nat),
{
    let mut digits: Vec<u8> = Vec::new();
    let mut x: i128 = n;
    if x == 0 {
        digits.push(0);
        proof {
            assert(rev_chars(digits@) =~= dec_digits(0));
        }
    } else {
        while x > 0
            invariant
                0 <= x,
                forall|k: int| 0 <= k < digits@.len() ==> #[trigger] digits@[k] < 10,
                x > 0 ==> dec_digits(n as nat) =~= dec_digits(x as nat) + rev_chars(digits@),
                x == 0 ==> digits@.len() > 0 && dec_digits(n as nat) =~= rev_chars(digits@),
            decreases x,
        {
            let d = (x % 10) as u8;
            let ghost pre = digits@;
            digits.push(d);
            x = x / 10;
            proof {
                assert(rev_chars(pre.push(d)) =~= seq![digit_char(d as int)] + rev_chars(pre));
                if x > 0 {
                    assert(dec_digits(n as nat) =~= dec_digits(x as nat) + rev_chars(
                        digits@,
                    ));
                } else {
                    assert(dec_digits(n as nat) =~= rev_chars(digits@));
                }
            }
        }
    }
    let mut i: usize = digits.len();
    while i > 0
        invariant
            i <= digits@.len(),
            forall|k: int| 0 <= k < digits@.len() ==> #[trigger] digits@[k] < 10,
            dec_digits(n as nat) =~= rev_chars(digits@),
            s@ == old(s)@ + rev_chars(digits@).subrange(0, digits@.len() - i),
        decreases i,
    {
        i = i - 1;
        let d = digits[i];
        append_digit(s, d);
        proof {
            assert(rev_chars(digits@)[digits@.len() - 1 - i as int] == digit_char(d as int));
            assert(s@ =~= old(s)@ + rev_chars(digits@).subrange(
                0,
                digits@.len() - i as int,
            ));
        }
    }
    proof {
        assert(rev_chars(digits@).subrange(0, digits@.len() as int) =~= rev_chars(digits@));
        assert(s@ =~= old(s)@ + dec_digits(n as nat));
    }
}

/// Renders mantissa `m` at `p` fractional digits, exactly as
/// `spec_fixed_point` says: sign, integer part, and for `p > 0` a dot and
/// exactly `p` fractional digits.
pub fn format_fixed_point(m: i128, p: usize) -> (r: String)
    requires
        p <= 18,
        m != i128::MIN,
    ensures
        r@ == spec_fixed_point(m as int, p as nat),
{
    let neg = m < 0;
    let a: i128 = if m < 0 {
        -m
    } else {
        m
    };
    let scale = pow10_i128(p);
    proof {
        lemma_pow10_pos(p as nat);
    }
    let q = a / scale;
    let rem = a % scale;
    let mut s = String::new();
    if neg {
        s.append("-");
        proof {
            reveal_strlit("-");
            assert(s@ =~= seq!['-']);
        }
    }
    append_uint(&mut s, q);
    if p > 0 {
        s.append(".");
        proof {
            reveal_strlit(".");
        }
        // Count the digits of the remainder to know the zero padding.
        let ghost rn = rem as nat;
        proof {
            lemma_dec_digits_len(rem as nat, p as nat);
        }
        let mut cnt: usize = 1;
        let mut x: i128 = rem;
        while x >= 10
            invariant
                x >= 0,
                1 <= cnt <= dec_digits(rn).len() <= 18,
                dec_digits(rn).len() == cnt - 1 + dec_digits(x as nat).len(),
                dec_digits(x as nat).len() >= 1,
            decreases x,
        {
            proof {
                assert(dec_digits(x as nat) == dec_digits((x as nat) / 10) + seq![
                    digit_char(((x as nat) % 10) as int),
                ]);
                assert(dec_digits((x as nat) / 10).len() >= 1);
            }
            x = x / 10;
            cnt = cnt + 1;
        }
        let mut z: usize = p - cnt;
        let ghost zeros = (p - cnt as nat) as nat;
        let ghost before = s@;
        while z > 0
            invariant
                z <= zeros,
                s@ == before + Seq::new((zeros - z) as nat, |i: int| '0'),
            decreases z,
        {
            append_digit(&mut s, 0);
            z = z - 1;
            proof {
                assert(s@ =~= before + Seq::new((zeros - z) as nat, |i: int| '0'));
            }
        }
        append_uint(&mut s, rem);
        proof {
            assert(pad_zeros(dec_digits(rem as nat), p as nat) =~= Seq::new(
                zeros,
                |i: int| '0',
            ) + dec_digits(rem as nat));
            assert(s@ =~= spec_fixed_point(m as int, p as nat));
        }
    } else {
        proof {
            assert(s@ =~= spec_fixed_point(m as int, p as nat));
        }
    }
    s
}

/// The percentage change from `current` to `predicted` as a mantissa with
/// two fractional digits, truncated toward zero: the exact value of
/// `(predicted - current) / current * 100` cut at the fourth digit after
/// the decimal point of the raw ratio. Meaningful only for a nonzero
/// `current`.
pub open spec fn spec_change_centi(current: int, predicted: int) -> int {
    let diff = (predicted - current) * 10000;
    let an = if diff >= 0 {
        diff
    } else {
        -diff
    };
    let ad = if current >= 0 {
        current
    } else {
        -current
    };
    let q = an / ad;
    if (diff < 0) != (current < 0) {
        -q
    } else {
        q
    }
}

/// The notification text for one forecast: the fixed frame around the
/// symbol, the timestamp, both prices, the change percentage and the
/// signal label.
pub open spec fn spec_message(
    symbol: Seq<char>,
    timestamp: Seq<char>,
    current: Seq<char>,
    predicted: Seq<char>,
    change: Seq<char>,
    signal: Seq<char>,
) -> Seq<char> {
    "*ML Forecast for #"@ + symbol + "*\nTime: "@ + timestamp + "\nCurrent Price: "@ + current
        + "\nNext Price: "@ + predicted + "\nChange: "@ + change + "%\nSignal: *"@ + signal
        + "*"@
}

/// Renders one forecast into the notification message, reproducibly:
/// both prices at `price_frac_digits` decimal places and the change
/// percentage at two, every field exactly as the specification says.
pub fn format_forecast_message(f: &ForecastResult, price_frac_digits: usize) -> (r: String)
    requires
        price_frac_digits <= 18,
        f.current_price != 0,
    ensures
        r@ == spec_message(
            f.symbol@,
            f.timestamp@,
            spec_fixed_point(f.current_price as int, price_frac_digits as nat),
            spec_fixed_point(f.predicted_price as int, price_frac_digits as nat),
            spec_fixed_point(
                spec_change_centi(f.current_price as int, f.predicted_price as int),
                2,
            ),
            spec_label(f.signal),
        ),
{
    let cur = f.current_price;
    let diff: i128 = f.predicted_price as i128 - cur as i128;
    let num: i128 = diff * 10000;
    let an: i128 = if num >= 0 {
        num
    } else {
        -num
    };
    let ad: i128 = if cur >= 0 {
        cur as i128
    } else {
        -(cur as i128)
    };
    let q: i128 = an / ad;
    let centi: i128 = if (num < 0) != (cur < 0) {
        -q
    } else {
        q
    };
    let mut s = String::from_str("*ML Forecast for #");
    s.append(f.symbol.as_str());
    s.append("*\nTime: ");
    s.append(f.timestamp.as_str());
    s.append("\nCurrent Price: ");
    let cur_txt = format_fixed_point(cur as i128, price_frac_digits);
    s.append(cur_txt.as_str());
    s.append("\nNext Price: ");
    let nxt_txt = format_fixed_point(f.predicted_price as i128, price_frac_digits);
    s.append(nxt_txt.as_str());
    s.append("\nChange: ");
    let chg_txt = format_fixed_point(centi, 2);
    s.append(chg_txt.as_str());
    s.append("%\nSignal: *");
    s.append(f.signal.label());
    s.append("*");
    proof {
        assert(s@ =~= spec_message(
            f.symbol@,
            f.timestamp@,
            spec_fixed_point(f.current_price as int, price_frac_digits as nat),
            spec_fixed_point(f.predicted_price as int, price_frac_digits as nat),
            spec_fixed_point(
                spec_change_centi(f.current_price as int, f.predicted_price as int),
                2,
            ),
            spec_label(f.signal),
        ));
    }
    s
}

} // verus!
