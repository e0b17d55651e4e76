//! JSON numbers against timestamps: which timestamps lie above a number.

use vstd::arithmetic::div_mod::{lemma_basic_div, lemma_div_denominator, lemma_fundamental_div_mod};
use vstd::arithmetic::mul::lemma_mul_inequality;
use vstd::arithmetic::power2::{
    lemma2_to64, lemma2_to64_rest, lemma_pow2_adds, lemma_pow2_pos,
    lemma_pow2_strictly_increases, lemma_pow2_unfold, pow2,
};
use vstd::prelude::*;
use crate::rpc::json::{Json, JsonView};

verus! {

// ── IEEE 754 doubles, by their bits ────────────────────────────────────────

/// The sign bit: the double is negative, or the negative zero.
pub open spec fn is_negative(bits: u64) -> bool {
    bits >= 0x8000_0000_0000_0000
}

/// The exponent field.
pub open spec fn exponent_field(bits: u64) -> nat {
    ((bits / 0x10_0000_0000_0000) % 0x800) as nat
}

/// The fraction field.
pub open spec fn fraction_field(bits: u64) -> nat {
    (bits % 0x10_0000_0000_0000) as nat
}

/// The bits stand for no number.
pub open spec fn is_nan(bits: u64) -> bool {
    exponent_field(bits) == 0x7ff && fraction_field(bits) != 0
}

/// The magnitude of the double is `significand * 2^scale`.
pub open spec fn significand(bits: u64) -> nat {
    if exponent_field(bits) == 0 {
        fraction_field(bits)
    } else {
        0x10_0000_0000_0000 + fraction_field(bits)
    }
}

/// The magnitude of the double is `significand * 2^scale`.
pub open spec fn scale(bits: u64) -> int {
    if exponent_field(bits) == 0 {
        -1074
    } else {
        exponent_field(bits) - 1075
    }
}

/// `ts` is greater than the double. The infinities lie, by their bits, beyond every
/// timestamp.
pub open spec fn above_double(ts: u64, bits: u64) -> bool {
    if is_negative(bits) {
        significand(bits) > 0 || ts > 0
    } else if scale(bits) >= 0 {
        ts > significand(bits) * pow2(scale(bits) as nat)
    } else {
        ts * pow2((-scale(bits)) as nat) > significand(bits)
    }
}

impl JsonView {
    /// `ts` is greater than the number; what is no number counts as 0.
    pub open spec fn lies_below(self, ts: u64) -> bool {
        match self {
            JsonView::PosInt(n) => ts > n,
            JsonView::NegInt(n) => ts > n,
            JsonView::Float(bits) => if is_nan(bits) {
                ts > 0
            } else {
                above_double(ts, bits)
            },
            _ => ts > 0,
        }
    }
}

/// A timestamp lies above a fraction where it lies above its whole part.
proof fn lemma_above_fraction(ts: u64, numerator: nat, denominator: nat)
    requires
        denominator > 0,
    ensures
        ts * denominator > numerator <==> ts > numerator / denominator,
{
    let q = numerator / denominator;
    lemma_fundamental_div_mod(numerator as int, denominator as int);
    if ts > q {
        lemma_mul_inequality(q as int + 1, ts as int, denominator as int);
        assert((q + 1) * denominator == denominator * q + denominator) by (nonlinear_arith);
    } else {
        lemma_mul_inequality(ts as int, q as int, denominator as int);
        assert(q * denominator == denominator * q) by (nonlinear_arith);
    }
}

/// A significand has at most 53 bits.
proof fn lemma_significand(bits: u64)
    ensures
        significand(bits) < 0x20_0000_0000_0000,
        scale(bits) >= 0 ==> significand(bits) >= 0x10_0000_0000_0000,
{
}

/// `n * 2^times`, which fits.
fn doubled(n: u64, times: u64) -> (r: u64)
    requires
        n < 0x20_0000_0000_0000,
        times < 12,
    ensures
        r == n * pow2(times as nat),
{
    let mut r: u64 = n;
    let mut i: u64 = 0;
    proof {
        lemma2_to64();
    }
    while i < times
        invariant
            i <= times < 12,
            n < 0x20_0000_0000_0000,
            r == n * pow2(i as nat),
        decreases times - i,
    {
        proof {
            lemma2_to64();
            lemma_pow2_unfold((i + 1) as nat);
            if i < 10 {
                lemma_pow2_strictly_increases(i as nat, 10);
            }
            assert(pow2(i as nat) <= 0x400);
            assert(n * pow2(i as nat) <= 0x1f_ffff_ffff_ffff * 0x400) by (nonlinear_arith)
                requires
                    n < 0x20_0000_0000_0000,
                    pow2(i as nat) <= 0x400,
            ;
            assert(n * pow2(i as nat) * 2 == n * (2 * pow2(i as nat))) by (nonlinear_arith);
        }
        r = r * 2;
        i = i + 1;
    }
    r
}

/// `n / 2^times`, rounded down.
fn halved(n: u64, times: u64) -> (r: u64)
    requires
        n < 0x20_0000_0000_0000,
    ensures
        r == n as nat / pow2(times as nat),
{
    proof {
        lemma2_to64();
        lemma_pow2_pos(times as nat);
    }
    if times >= 53 {
        proof {
            if times > 53 {
                lemma_pow2_strictly_increases(53, times as nat);
            }
            lemma2_to64_rest();
            lemma_basic_div(n as int, pow2(times as nat) as int);
        }
        return 0;
    }
    let mut r: u64 = n;
    let mut i: u64 = 0;
    while i < times
        invariant
            i <= times,
            r == n as nat / pow2(i as nat),
        decreases times - i,
    {
        proof {
            lemma_pow2_pos(i as nat);
            lemma_pow2_unfold((i + 1) as nat);
            lemma_div_denominator(n as int, pow2(i as nat) as int, 2);
            assert(pow2(i as nat) * 2 == pow2((i + 1) as nat));
        }
        r = r / 2;
        i = i + 1;
    }
    r
}

/// The largest timestamp that is not above the double, unless all are.
fn bound_of_double(bits: u64) -> (r: Option<u64>)
    ensures
        match r {
            Some(n) => forall|ts: u64| #[trigger] above_double(ts, bits) == (ts > n),
            None => forall|ts: u64| #[trigger] above_double(ts, bits),
        },
{
    let exponent: u64 = (bits / 0x10_0000_0000_0000) % 0x800;
    let fraction: u64 = bits % 0x10_0000_0000_0000;
    let m: u64 = if exponent == 0 {
        fraction
    } else {
        0x10_0000_0000_0000 + fraction
    };
    proof {
        lemma_significand(bits);
    }
    if bits >= 0x8000_0000_0000_0000 {
        return if m > 0 {
            None
        } else {
            Some(0)
        };
    }
    if exponent >= 1087 {
        proof {
            let s = scale(bits) as nat;
            lemma2_to64();
            if s > 12 {
                lemma_pow2_strictly_increases(12, s);
            }
            assert(m * pow2(s) >= 0x10_0000_0000_0000 * 0x1000) by (nonlinear_arith)
                requires
                    m >= 0x10_0000_0000_0000,
                    pow2(s) >= 0x1000,
            ;
        }
        Some(u64::MAX)
    } else if exponent >= 1075 {
        Some(doubled(m, exponent - 1075))
    } else {
        let down: u64 = if exponent == 0 {
            1074
        } else {
            1075 - exponent
        };
        let n: u64 = halved(m, down);
        proof {
            lemma_pow2_pos(down as nat);
            assert forall|ts: u64| #[trigger] above_double(ts, bits) == (ts > n) by {
                lemma_above_fraction(ts, m as nat, pow2(down as nat));
            }
        }
        Some(n)
    }
}

impl Json {
    /// The largest timestamp that is not above the number, unless all are.
    pub fn bound(&self) -> (r: Option<u64>)
        ensures
            match r {
                Some(n) => forall|ts: u64| #[trigger] self@.lies_below(ts) == (ts > n),
                None => forall|ts: u64| #[trigger] self@.lies_below(ts),
            },
    {
        match self {
            Json::PosInt(n) => Some(*n),
            Json::NegInt(n) => if *n < 0 {
                None
            } else {
                Some(*n as u64)
            },
            Json::Float(bits) => {
                let exponent: u64 = (*bits / 0x10_0000_0000_0000) % 0x800;
                let fraction: u64 = *bits % 0x10_0000_0000_0000;
                if exponent == 0x7ff && fraction != 0 {
                    Some(0)
                } else {
                    bound_of_double(*bits)
                }
            },
            _ => Some(0),
        }
    }
}

/// A timestamp lies above a double exactly where it is greater than the number that the double
/// stands for by its fields: `(2^52 + fraction) * 2^(exponent - 1075)`, or, where the exponent
/// field is 0, `fraction * 2^-1074`; and above a negative one always.
pub proof fn doubles_stand_for_their_fields(ts: u64, exponent: nat, fraction: nat, bits: u64)
    requires
        exponent < 0x800,
        fraction < 0x10_0000_0000_0000,
    ensures
        bits == exponent * 0x10_0000_0000_0000 + fraction && exponent > 0 ==> (above_double(
            ts,
            bits,
        ) <==> ts * pow2(1075) > (0x10_0000_0000_0000 + fraction) * pow2(exponent)),
        bits == fraction ==> (above_double(ts, bits) <==> ts * pow2(1074) > fraction),
        bits == 0x8000_0000_0000_0000 + exponent * 0x10_0000_0000_0000 + fraction && (exponent > 0
            || fraction > 0) ==> above_double(ts, bits),
        bits == 0x8000_0000_0000_0000 ==> (above_double(ts, bits) <==> ts > 0),
{
    if bits == exponent * 0x10_0000_0000_0000 + fraction {
        lemma_fields(exponent, fraction, bits);
        assert(!is_negative(bits));
        if exponent > 0 {
            let m = (0x10_0000_0000_0000 + fraction) as nat;
            if exponent >= 1075 {
                let s = (exponent - 1075) as nat;
                lemma_pow2_adds(1075, s);
                lemma_pow2_pos(1075);
                let p = pow2(1075);
                let q = pow2(s);
                assert(m * pow2(exponent) == (m * q) * p) by (nonlinear_arith)
                    requires
                        pow2(exponent) == p * q,
                ;
                lemma_scaled(ts as nat, m * q, p);
            } else {
                let s = (1075 - exponent) as nat;
                lemma_pow2_adds(s, exponent);
                lemma_pow2_pos(exponent);
                let p = pow2(exponent);
                let q = pow2(s);
                assert(ts * pow2(1075) == (ts * q) * p) by (nonlinear_arith)
                    requires
                        pow2(1075) == q * p,
                ;
                lemma_scaled(ts as nat * q, m, p);
            }
        }
    }
    if bits == fraction {
        lemma_fields(0, fraction, bits);
    }
    if bits == 0x8000_0000_0000_0000 + exponent * 0x10_0000_0000_0000 + fraction {
        let low = (bits - 0x8000_0000_0000_0000) as u64;
        lemma_fields(exponent, fraction, low);
        assert(bits / 0x10_0000_0000_0000 == 0x800 + exponent);
        assert(bits % 0x10_0000_0000_0000 == fraction);
    }
    if bits == 0x8000_0000_0000_0000 {
        assert(bits / 0x10_0000_0000_0000 == 0x800);
        assert(bits % 0x10_0000_0000_0000 == 0);
    }
}

/// The fields are found in the bits.
proof fn lemma_fields(exponent: nat, fraction: nat, bits: u64)
    requires
        exponent < 0x800,
        fraction < 0x10_0000_0000_0000,
        bits == exponent * 0x10_0000_0000_0000 + fraction,
    ensures
        exponent_field(bits) == exponent,
        fraction_field(bits) == fraction,
{
    assert(bits / 0x10_0000_0000_0000 == exponent);
    assert(bits % 0x10_0000_0000_0000 == fraction);
}

/// A common factor does not decide which of two numbers is greater.
proof fn lemma_scaled(a: nat, b: nat, p: nat)
    requires
        p > 0,
    ensures
        a * p > b * p <==> a > b,
{
    assert(a > b ==> a * p > b * p) by (nonlinear_arith)
        requires
            p > 0,
    ;
    assert(a <= b ==> a * p <= b * p) by (nonlinear_arith);
}

/// What a timestamp is compared with is the number itself, where it is an integer; what is no
/// number is taken for 0.
pub proof fn numbers_stand_for_themselves(ts: u64, n: u64, z: i64, bits: u64, other: JsonView)
    ensures
        JsonView::PosInt(n).lies_below(ts) <==> ts > n,
        JsonView::NegInt(z).lies_below(ts) <==> ts as int > z as int,
        bits % 0x8000_0000_0000_0000 <= 0x7ff0_0000_0000_0000 ==> (JsonView::Float(bits).lies_below(
            ts,
        ) <==> above_double(ts, bits)),
        bits % 0x8000_0000_0000_0000 > 0x7ff0_0000_0000_0000 ==> (JsonView::Float(bits).lies_below(
            ts,
        ) <==> ts > 0),
        !(other is PosInt) && !(other is NegInt) && !(other is Float) ==> (other.lies_below(ts)
            <==> ts > 0),
{
}

/// Of two timestamps the later one lies above whatever the earlier one does.
pub proof fn later_timestamps_lie_above_more(j: JsonView, earlier: u64, later: u64)
    requires
        earlier <= later,
        j.lies_below(earlier),
    ensures
        j.lies_below(later),
{
    match j {
        JsonView::Float(bits) => {
            if !is_nan(bits) && !is_negative(bits) && scale(bits) < 0 {
                let p = pow2((-scale(bits)) as nat);
                assert(earlier * p <= later * p) by (nonlinear_arith)
                    requires
                        earlier <= later,
                ;
            }
        },
        _ => {},
    }
}

} // verus!
