//! The share of an entry in the total, written as `{:>5.1}` writes
//! `(size as f64 / total as f64) * 100.0`, computed exactly with integers.
use vstd::prelude::*;
use vstd::arithmetic::power2::{pow2, lemma_pow2_unfold, lemma_pow2_adds, lemma_pow2_pos, lemma_pow2_strictly_increases, lemma2_to64};

use crate::format::{round_half_even, u64_as_f64, one_decimal, pad_left, u64_to_f64_value, push_one_decimal, pad_left_exec};

verus! {

/// `a / b` lies in the binade `[2^e, 2^(e+1))`.
pub open spec fn in_binade(a: nat, b: nat, e: int) -> bool {
    if e >= 0 {
        b * pow2(e as nat) <= a < b * pow2((e + 1) as nat)
    } else {
        b <= a * pow2((-e) as nat) < 2 * b
    }
}

/// `floor(log2(a / b))` for positive `a` and `b`.
pub open spec fn floor_log2_ratio(a: nat, b: nat) -> int {
    choose|e: int| in_binade(a, b, e)
}

pub(crate) proof fn lemma_pow2_le(i: nat, j: nat)
    requires
        i <= j,
    ensures
        pow2(i) <= pow2(j),
{
    if i < j {
        lemma_pow2_strictly_increases(i, j);
    }
}

/// A ratio lies in one binade only.
pub(crate) proof fn lemma_binade_unique(a: nat, b: nat, e1: int, e2: int)
    requires
        b > 0,
        in_binade(a, b, e1),
        in_binade(a, b, e2),
    ensures
        e1 == e2,
{
    lemma_binade_order(a, b, e1, e2);
    lemma_binade_order(a, b, e2, e1);
}

proof fn lemma_binade_order(a: nat, b: nat, e1: int, e2: int)
    requires
        b > 0,
        in_binade(a, b, e1),
        in_binade(a, b, e2),
    ensures
        e2 <= e1,
{
    if e1 >= e2 {
    } else if e1 >= 0 {
        lemma_pow2_le((e1 + 1) as nat, e2 as nat);
        let p1 = pow2((e1 + 1) as nat);
        let p2 = pow2(e2 as nat);
        assert(b * p1 <= b * p2) by (nonlinear_arith)
            requires
                p1 <= p2,
        ;
    } else if e2 < 0 {
        let k1 = (-e1) as nat;
        let k2 = (-e2) as nat;
        lemma_pow2_le(k2 + 1, k1);
        lemma_pow2_unfold(k2 + 1);
        let p1 = pow2(k1);
        let p2 = pow2(k2);
        assert(a * (2 * p2) <= a * p1) by (nonlinear_arith)
            requires
                2 * p2 <= p1,
        ;
        assert(a * (2 * p2) == 2 * (a * p2)) by (nonlinear_arith);
    } else {
        let k1 = (-e1) as nat;
        lemma_pow2_le(0, e2 as nat);
        lemma_pow2_le(1, k1);
        lemma2_to64();
        let p1 = pow2(k1);
        let p2 = pow2(e2 as nat);
        assert(b * 1 <= b * p2) by (nonlinear_arith)
            requires
                1 <= p2,
        ;
        assert(a * 2 <= a * p1) by (nonlinear_arith)
            requires
                2 <= p1,
        ;
    }
}

/// `2^k` for `k <= 120`.
fn pow2_exec(k: u32) -> (r: u128)
    requires
        k <= 120,
    ensures
        r == pow2(k as nat),
{
    proof {
        lemma2_to64();
        lemma_pow2_adds(32, 24);
        lemma_pow2_adds(64, 56);
    }
    let mut r: u128 = 1;
    let mut i: u32 = 0;
    while i < k
        invariant
            i <= k <= 120,
            r == pow2(i as nat),
            pow2(120) == 0x100_0000_0000_0000_0000_0000_0000_0000,
        decreases k - i,
    {
        proof {
            lemma_pow2_unfold((i + 1) as nat);
            lemma_pow2_le((i + 1) as nat, 120);
        }
        r = r * 2;
        i = i + 1;
    }
    r
}

/// The binade of `a / b`, for positive `a` and `b` below `2^66`.
fn floor_log2_exec(a: u128, b: u128) -> (e: i32)
    requires
        0 < a < 0x4_0000_0000_0000_0000,
        0 < b < 0x4_0000_0000_0000_0000,
    ensures
        in_binade(a as nat, b as nat, e as int),
        floor_log2_ratio(a as nat, b as nat) == e as int,
        -66 <= e <= 66,
{
    proof {
        lemma2_to64();
        lemma_pow2_adds(64, 2);
        assert(b * pow2(0) == b && a * pow2(0) == a) by (nonlinear_arith)
            requires
                pow2(0) == 1,
        ;
    }
    let mut e: i32 = 0;
    if a >= b {
        let mut qq: u128 = b;
        while a >= 2 * qq
            invariant
                0 < b <= qq <= a < 0x4_0000_0000_0000_0000,
                0 <= e <= 66,
                qq == b * pow2(e as nat),
                pow2(e as nat) <= qq,
                pow2(66) == 0x4_0000_0000_0000_0000,
            decreases a - qq,
        {
            proof {
                lemma_pow2_unfold((e + 1) as nat);
                if e >= 66 {
                    lemma_pow2_le(66, e as nat);
                }
                assert(b * pow2((e + 1) as nat) == 2 * (b * pow2(e as nat))) by (nonlinear_arith)
                    requires
                        pow2((e + 1) as nat) == 2 * pow2(e as nat),
                ;
            }
            qq = 2 * qq;
            e = e + 1;
        }
        proof {
            lemma_pow2_unfold((e + 1) as nat);
            assert(b * pow2((e + 1) as nat) == 2 * (b * pow2(e as nat))) by (nonlinear_arith)
                requires
                    pow2((e + 1) as nat) == 2 * pow2(e as nat),
            ;
        }
    } else {
        let mut pp: u128 = a;
        let mut k: i32 = 0;
        while pp < b
            invariant
                0 < a <= pp < 2 * b,
                b < 0x4_0000_0000_0000_0000,
                0 <= k <= 66,
                pp == a * pow2(k as nat),
                pow2(k as nat) <= pp,
                pow2(66) == 0x4_0000_0000_0000_0000,
            decreases 2 * b - pp,
        {
            proof {
                lemma_pow2_unfold((k + 1) as nat);
                if k >= 66 {
                    lemma_pow2_le(66, k as nat);
                }
                assert(a * pow2((k + 1) as nat) == 2 * (a * pow2(k as nat))) by (nonlinear_arith)
                    requires
                        pow2((k + 1) as nat) == 2 * pow2(k as nat),
                ;
            }
            pp = 2 * pp;
            k = k + 1;
        }
        e = -k;
        assert(k > 0);
    }
    proof {
        let c = choose|x: int| in_binade(a as nat, b as nat, x);
        assert(in_binade(a as nat, b as nat, e as int));
        lemma_binade_unique(a as nat, b as nat, c, e as int);
    }
    e
}

/// The 53-bit significand of the double nearest to `a / b` (ties to even): with
/// `e` the binade of `a / b`, the double is this significand times `2^(e - 52)`.
pub open spec fn ratio_significand(a: nat, b: nat) -> nat {
    let e = floor_log2_ratio(a, b);
    if e <= 52 {
        round_half_even(a * pow2((52 - e) as nat), b)
    } else {
        round_half_even(a, b * pow2((e - 52) as nat))
    }
}

/// Tenths of `(size as f64 / total as f64) * 100.0`, rounded half to even as `{:.1}`
/// rounds, and 0 when the total is 0.
///
/// With `a` and `b` the doubles of `size` and `total` and `e` the binade of `a / b`,
/// the quotient is `m * 2^(e - 52)` (`m` its significand), and the product by 100
/// is `100 m` rounded to 53 significant bits, times the same power of two.
pub open spec fn percent_tenths(size: u64, total: u64) -> nat {
    if total == 0 || size == 0 {
        0
    } else {
        let a = u64_as_f64(size as nat);
        let b = u64_as_f64(total as nat);
        let e = floor_log2_ratio(a, b);
        let p = u64_as_f64(100 * ratio_significand(a, b));
        if e >= 52 {
            10 * p * pow2((e - 52) as nat)
        } else {
            round_half_even(10 * p, pow2((52 - e) as nat))
        }
    }
}

/// The share of `size` in `total` as the display writes it: `{:>5.1}`.
pub open spec fn percent_text(size: u64, total: u64) -> Seq<char> {
    pad_left(one_decimal(percent_tenths(size, total)), 5)
}

pub(crate) proof fn lemma_significand_bound(a: nat, b: nat, e: int)
    requires
        b > 0,
        in_binade(a, b, e),
    ensures
        e <= 52 ==> a * pow2((52 - e) as nat) < b * pow2(53),
        e > 52 ==> a < (b * pow2((e - 52) as nat)) * pow2(53),
{
    if e >= 0 && e <= 52 {
        lemma_pow2_adds((e + 1) as nat, (52 - e) as nat);
        let p1 = pow2((e + 1) as nat);
        let p2 = pow2((52 - e) as nat);
        lemma_pow2_pos((52 - e) as nat);
        assert(a * p2 < b * (p1 * p2)) by (nonlinear_arith)
            requires
                a < b * p1,
                p2 > 0,
        ;
        assert(((e + 1) as nat + (52 - e) as nat) == 53);
    } else if e < 0 {
        let k = (-e) as nat;
        lemma_pow2_adds(k, 52);
        lemma_pow2_adds(1, 52);
        lemma2_to64();
        assert((52 - e) as nat == k + 52);
        let pk = pow2(k);
        let p52 = pow2(52);
        lemma_pow2_pos(52);
        assert(a * (pk * p52) < b * (2 * p52)) by (nonlinear_arith)
            requires
                a * pk < 2 * b,
                p52 > 0,
        ;
        assert(a * (pk * p52) == (a * pk) * p52) by (nonlinear_arith);
    } else {
        lemma_pow2_adds((e - 52) as nat, 53);
        assert(((e - 52) as nat + 53) as nat == (e + 1) as nat);
        let p1 = pow2((e - 52) as nat);
        let p2 = pow2(53);
        assert((b * p1) * p2 == b * (p1 * p2)) by (nonlinear_arith);
    }
}

/// The significand of the double nearest to `a / b`, given the binade `e` of `a / b`.
fn ratio_significand_exec(a: u128, b: u128, e: i32) -> (m: u64)
    requires
        0 < a < 0x4_0000_0000_0000_0000,
        0 < b < 0x4_0000_0000_0000_0000,
        in_binade(a as nat, b as nat, e as int),
        floor_log2_ratio(a as nat, b as nat) == e as int,
        -66 <= e <= 66,
    ensures
        m == ratio_significand(a as nat, b as nat),
        m <= 0x20_0000_0000_0000,
{
    proof {
        lemma_significand_bound(a as nat, b as nat, e as int);
        lemma2_to64();
        lemma_pow2_adds(32, 21);
        lemma_pow2_adds(64, 2);
        lemma_pow2_adds(66, 53);
    }
    if e <= 52 {
        let sh: u32 = (52 - e) as u32;
        let p = pow2_exec(sh);
        proof {
            assert(b * pow2(53) < 0x4_0000_0000_0000_0000 * pow2(53)) by (nonlinear_arith)
                requires
                    b < 0x4_0000_0000_0000_0000,
                    pow2(53) > 0,
            ;
        }
        let num: u128 = a * p;
        let q: u128 = num / b;
        let r: u128 = num % b;
        proof {
            vstd::arithmetic::div_mod::lemma_multiply_divide_lt(num as int, b as int, pow2(53) as int);
        }
        let up: bool = 2 * r > b || (2 * r == b && q % 2 == 1);
        let m: u128 = if up { q + 1 } else { q };
        m as u64
    } else {
        let p = pow2_exec((e - 52) as u32);
        proof {
            lemma_pow2_le((e - 52) as nat, 14);
            lemma_pow2_adds(14, 52);
            lemma_pow2_pos((e - 52) as nat);
            assert(b * p <= 0x4_0000_0000_0000_0000 * pow2(14)) by (nonlinear_arith)
                requires
                    b < 0x4_0000_0000_0000_0000,
                    p <= pow2(14),
            ;
            assert(b * p > 0) by (nonlinear_arith)
                requires
                    b > 0,
                    p > 0,
            ;
        }
        let den: u128 = b * p;
        let q: u128 = a / den;
        let r: u128 = a % den;
        proof {
            vstd::arithmetic::div_mod::lemma_multiply_divide_lt(a as int, den as int, pow2(53) as int);
        }
        let up: bool = 2 * r > den || (2 * r == den && q % 2 == 1);
        let m: u128 = if up { q + 1 } else { q };
        m as u64
    }
}

/// Tenths of the percentage that `size` makes of `total`, as the display rounds it.
pub fn percent_tenths_exec(size: u64, total: u64) -> (t: u128)
    ensures
        t == percent_tenths(size, total),
{
    if total == 0 || size == 0 {
        return 0;
    }
    let a = u64_to_f64_value(size);
    let b = u64_to_f64_value(total);
    let e = floor_log2_exec(a, b);
    let m = ratio_significand_exec(a, b, e);
    let p = u64_to_f64_value(100 * m);
    proof {
        lemma2_to64();
        lemma_pow2_adds(64, 14);
    }
    if e >= 52 {
        let f = pow2_exec((e - 52) as u32);
        proof {
            lemma_pow2_le((e - 52) as nat, 14);
            assert(10 * p * f <= 10 * 0x100_0000_0000_0000_0000 * pow2(14)) by (nonlinear_arith)
                requires
                    p <= 0x100_0000_0000_0000_0000,
                    f <= pow2(14),
            ;
        }
        10 * p * f
    } else {
        let d = pow2_exec((52 - e) as u32);
        proof {
            lemma_pow2_pos((52 - e) as nat);
            lemma_pow2_le((52 - e) as nat, 118);
            lemma_pow2_adds(32, 22);
            lemma_pow2_adds(64, 54);
        }
        let num: u128 = 10 * p;
        let q: u128 = num / d;
        let r: u128 = num % d;
        let up: bool = 2 * r > d || (2 * r == d && q % 2 == 1);
        if up { q + 1 } else { q }
    }
}

/// Writes the share of `size` in `total` as the display does: one decimal place,
/// right-aligned in five characters.
pub fn percent_text_exec(size: u64, total: u64) -> (text: String)
    ensures
        text@ == percent_text(size, total),
{
    let t = percent_tenths_exec(size, total);
    let mut s = String::new();
    push_one_decimal(&mut s, t);
    pad_left_exec(s, 5)
}

}
