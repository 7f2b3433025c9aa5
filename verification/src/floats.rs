//! Floating-point numbers as the bits that stand for them (IEEE 754, 64 bits).
use crate::json::{Json, JsonMap, JsonView, ObjectView};
use vstd::arithmetic::power2::{lemma2_to64, lemma_pow2_adds, lemma_pow2_pos, lemma_pow2_unfold, pow2};
use vstd::prelude::*;

verus! {

/// The bits of zero's exponent and fraction, without the sign.
pub open spec fn magnitude(bits: u64) -> int {
    bits as int % 0x8000_0000_0000_0000
}

/// Neither infinite nor undefined.
pub open spec fn finite(bits: u64) -> bool {
    magnitude(bits) / 0x10_0000_0000_0000 != 0x7ff
}

/// Above zero.
pub open spec fn positive(bits: u64) -> bool {
    bits < 0x8000_0000_0000_0000 && magnitude(bits) != 0 && !(magnitude(bits) > 0x7ff0_0000_0000_0000)
}

/// Different from zero, of either sign. (An undefined number counts.)
pub open spec fn nonzero(bits: u64) -> bool {
    magnitude(bits) != 0
}

pub fn is_finite(bits: u64) -> (r: bool)
    ensures
        r == finite(bits),
{
    (bits % 0x8000_0000_0000_0000) / 0x10_0000_0000_0000 != 0x7ff
}

pub fn is_positive(bits: u64) -> (r: bool)
    ensures
        r == positive(bits),
{
    bits < 0x8000_0000_0000_0000 && bits != 0 && bits <= 0x7ff0_0000_0000_0000
}

pub fn is_nonzero(bits: u64) -> (r: bool)
    ensures
        r == nonzero(bits),
{
    bits % 0x8000_0000_0000_0000 != 0
}

/// The position of the highest bit of a positive number.
pub open spec fn top_bit(m: nat) -> nat
    decreases m,
{
    if m < 2 {
        0
    } else {
        1 + top_bit(m / 2)
    }
}

/// The significand, of 53 bits, that is nearest to `m` times a power of two; of
/// two that are equally near, the even one.
pub open spec fn nearest_significand(m: nat) -> int {
    let p = top_bit(m);
    if p <= 52 {
        (m * pow2((52 - p) as nat)) as int
    } else {
        let unit = pow2((p - 52) as nat) as int;
        let whole = m as int / unit;
        let rest = m as int % unit;
        if 2 * rest > unit || (2 * rest == unit && whole % 2 == 1) {
            whole + 1
        } else {
            whole
        }
    }
}

/// The bits of the floating-point number nearest to the integer `n`.
pub open spec fn nearest_float(n: int) -> int {
    if n == 0 {
        0
    } else {
        let m = (if n < 0 {
            -n
        } else {
            n
        }) as nat;
        let bits = (1022 + top_bit(m)) * 0x10_0000_0000_0000 + nearest_significand(m);
        if n < 0 {
            bits + 0x8000_0000_0000_0000
        } else {
            bits
        }
    }
}

proof fn lemma_top_bit(m: nat)
    requires
        m > 0,
    ensures
        pow2(top_bit(m)) <= m < pow2(top_bit(m) + 1),
    decreases m,
{
    lemma2_to64();
    if m >= 2 {
        lemma_top_bit(m / 2);
        lemma_pow2_unfold(top_bit(m));
        lemma_pow2_unfold(top_bit(m) + 1);
    }
}

proof fn lemma_top_bit_bound(m: nat, e: nat)
    requires
        m < pow2(e),
        m > 0,
    ensures
        top_bit(m) < e,
{
    lemma_top_bit(m);
    if top_bit(m) >= e {
        let d = (top_bit(m) - e) as nat;
        lemma_pow2_adds(e, d);
        lemma_pow2_pos(d);
        assert(pow2(e) <= pow2(e) * pow2(d)) by (nonlinear_arith)
            requires
                pow2(d) >= 1,
        ;
    }
}

proof fn lemma_significand(m: nat)
    requires
        m > 0,
    ensures
        0 <= nearest_significand(m) <= 0x20_0000_0000_0000,
        top_bit(m) <= 52 ==> nearest_significand(m) < 0x20_0000_0000_0000,
{
    let p = top_bit(m);
    lemma_top_bit(m);
    lemma2_to64();
    if p <= 52 {
        let d = (52 - p) as nat;
        lemma_pow2_adds(p + 1, d);
        lemma_pow2_pos(d);
        assert(p + 1 + d == 53);
        assert(m * pow2(d) < pow2(p + 1) * pow2(d)) by (nonlinear_arith)
            requires
                m < pow2(p + 1),
                pow2(d) > 0,
        ;
        assert(pow2(53) == 0x20_0000_0000_0000) by {
            lemma2_to64();
            lemma_pow2_adds(32, 21);
        }
    } else {
        let d = (p - 52) as nat;
        lemma_pow2_adds(53, d);
        lemma_pow2_pos(d);
        let unit = pow2(d) as int;
        assert(pow2(53) == 0x20_0000_0000_0000) by {
            lemma2_to64();
            lemma_pow2_adds(32, 21);
        }
        assert(m as int / unit < 0x20_0000_0000_0000) by (nonlinear_arith)
            requires
                (m as int) < 0x20_0000_0000_0000 * unit,
                unit > 0,
                m >= 0,
        ;
        assert(m as int / unit >= 0) by (nonlinear_arith)
            requires
                m >= 0,
                unit > 0,
        ;
    }
}

fn power_of_two(e: u32) -> (r: u128)
    requires
        e <= 126,
    ensures
        r == pow2(e as nat),
{
    let mut r: u128 = 1;
    let mut i: u32 = 0;
    proof {
        lemma2_to64();
    }
    while i < e
        invariant
            i <= e <= 126,
            r == pow2(i as nat),
        decreases e - i,
    {
        proof {
            lemma_pow2_unfold((i + 1) as nat);
            lemma_pow2_adds(i as nat, (126 - i) as nat);
            lemma_pow2_pos((126 - i) as nat);
            lemma2_to64();
            lemma_pow2_adds(63, 63);
            assert(pow2(126) == 0x8000_0000_0000_0000 * 0x8000_0000_0000_0000) by {
                lemma_pow2_unfold(64);
            }
            assert(pow2(i as nat) <= pow2(126)) by (nonlinear_arith)
                requires
                    pow2(126) == pow2(i as nat) * pow2((126 - i) as nat),
                    pow2((126 - i) as nat) >= 1,
            ;
        }
        r = r * 2;
        i = i + 1;
    }
    r
}

/// The bits of the floating-point number nearest to `n`.
pub fn float_of_int(n: i128) -> (r: u64)
    ensures
        r == nearest_float(n as int),
{
    if n == 0 {
        return 0;
    }
    let negative = n < 0;
    let m: u128 = if negative {
        if n == i128::MIN {
            0x8000_0000_0000_0000_0000_0000_0000_0000
        } else {
            (-n) as u128
        }
    } else {
        n as u128
    };
    let mut rest: u128 = m;
    let mut p: u32 = 0;
    proof {
        lemma_top_bit(m as nat);
        lemma2_to64();
        lemma_pow2_adds(64, 64);
        lemma_pow2_unfold(65);
        assert(pow2(128) == 0x1_0000_0000_0000_0000 * 0x1_0000_0000_0000_0000);
        lemma_top_bit_bound(m as nat, 128);
    }
    while rest >= 2
        invariant
            rest > 0,
            top_bit(m as nat) == p + top_bit(rest as nat),
            top_bit(m as nat) < 128,
        decreases rest,
    {
        rest = rest / 2;
        p = p + 1;
    }
    assert(p == top_bit(m as nat));
    proof {
        lemma_significand(m as nat);
    }
    let significand: u64 = if p <= 52 {
        let unit = power_of_two(52 - p);
        proof {
            assert(m * unit < 0x20_0000_0000_0000);
        }
        (m * unit) as u64
    } else {
        let unit = power_of_two(p - 52);
        proof {
            lemma_pow2_pos((p - 52) as nat);
        }
        let whole: u128 = m / unit;
        let left: u128 = m % unit;
        proof {
            assert(unit <= pow2(76)) by {
                let d = (76 - (p - 52)) as nat;
                lemma_pow2_adds((p - 52) as nat, d);
                lemma_pow2_pos(d);
                assert(pow2((p - 52) as nat) <= pow2(76)) by (nonlinear_arith)
                    requires
                        pow2(76) == pow2((p - 52) as nat) * pow2(d),
                        pow2(d) >= 1,
                ;
            }
            lemma_pow2_adds(64, 12);
            lemma2_to64();
        }
        if 2 * left > unit || (2 * left == unit && whole % 2 == 1) {
            (whole + 1) as u64
        } else {
            whole as u64
        }
    };
    let base: u64 = (1022 + p as u64) * 0x10_0000_0000_0000;
    let bits: u64 = base + significand;
    if negative {
        bits + 0x8000_0000_0000_0000
    } else {
        bits
    }
}

/// The bits of a JSON number.
pub open spec fn number_of(v: JsonView) -> Option<u64> {
    match v {
        JsonView::Int(n) => Some(nearest_float(n) as u64),
        JsonView::Float(bits) => Some(bits),
        _ => None,
    }
}

/// The bits of a JSON number.
pub fn value_number(value: &Json) -> (r: Option<u64>)
    ensures
        r == number_of(value@),
{
    match value {
        Json::Int(n) => Some(float_of_int(*n)),
        Json::Float(bits) => Some(*bits),
        _ => None,
    }
}

/// The bits of the finite number under `k`.
pub open spec fn number_at(m: ObjectView, k: Seq<char>) -> Option<u64> {
    if m.contains_key(k) {
        match number_of(m[k]) {
            Some(bits) => if finite(bits) {
                Some(bits)
            } else {
                None
            },
            None => None,
        }
    } else {
        None
    }
}

/// The bits of the finite number under `key`.
pub fn number_field(meta: &JsonMap, key: &str) -> (r: Option<u64>)
    ensures
        r == number_at(meta@, key@),
{
    match meta.get(key) {
        Some(v) => match value_number(v) {
            Some(bits) => if is_finite(bits) {
                Some(bits)
            } else {
                None
            },
            None => None,
        },
        None => None,
    }
}

/// The JSON value of a number; one that is not finite has none and becomes null.
pub open spec fn number_json(bits: u64) -> JsonView {
    if finite(bits) {
        JsonView::Float(bits)
    } else {
        JsonView::Null
    }
}

pub fn json_number(bits: u64) -> (r: Json)
    ensures
        r@ == number_json(bits),
{
    if is_finite(bits) {
        Json::Float(bits)
    } else {
        Json::Null
    }
}

/// The JSON value of an optional number.
pub open spec fn opt_number_json(bits: Option<u64>) -> JsonView {
    match bits {
        Some(b) => number_json(b),
        None => JsonView::Null,
    }
}

pub fn json_opt_number(bits: Option<u64>) -> (r: Json)
    ensures
        r@ == opt_number_json(bits),
{
    match bits {
        Some(b) => json_number(b),
        None => Json::Null,
    }
}

} // verus!
