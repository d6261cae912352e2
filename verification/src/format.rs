//! Human-readable sizes, written out as decimal text.
use vstd::prelude::*;
use vstd::string::*;

verus! {

/// Bytes in a kibibyte, mebibyte and gibibyte.
pub const KIB: u64 = 1024;
pub const MIB: u64 = 1048576;
pub const GIB: u64 = 1073741824;

/// 2^53: below it every integer is a double; from it on the doubles thin out.
pub const F64_EXACT_LIMIT: u64 = 9007199254740992;

/// The character of a decimal digit.
pub open spec fn digit_char(d: nat) -> char {
    ((d + 48) as u32) as char
}

/// The decimal digits of `n`, most significant first, without leading zeros.
pub open spec fn decimal(n: nat) -> Seq<char>
    decreases n,
{
    if n < 10 {
        seq![digit_char(n)]
    } else {
        decimal(n / 10).push(digit_char(n % 10))
    }
}

/// `num / den` rounded to the nearest integer, ties going to the even one.
pub open spec fn round_half_even(num: nat, den: nat) -> nat {
    let q = num / den;
    let r = num % den;
    if 2 * r > den || (2 * r == den && q % 2 == 1) {
        q + 1
    } else {
        q
    }
}

/// The distance between consecutive doubles around `n`: 1 below 2^53, doubling
/// with every further bit of `n`.
pub open spec fn f64_spacing(n: nat) -> nat
    decreases n,
{
    if n < F64_EXACT_LIMIT {
        1
    } else {
        2 * f64_spacing(n / 2)
    }
}

/// The value of `n as f64`: the nearest multiple of the local spacing, ties to even.
pub open spec fn u64_as_f64(n: nat) -> nat {
    round_half_even(n, f64_spacing(n)) * f64_spacing(n)
}

/// A count of tenths written with one decimal place, as `{:.1}` writes it.
pub open spec fn one_decimal(tenths: nat) -> Seq<char> {
    decimal(tenths / 10).push('.').push(digit_char(tenths % 10))
}

/// `size as f64 / unit as f64`, which is exact for a power-of-two unit, in tenths
/// rounded half to even.
pub open spec fn tenths_of(size: nat, unit: nat) -> nat {
    round_half_even(u64_as_f64(size) * 10, unit)
}

/// The text `format_size` produces.
pub open spec fn size_text(size: u64) -> Seq<char> {
    if size >= GIB {
        one_decimal(tenths_of(size as nat, GIB as nat)).push('G')
    } else if size >= MIB {
        one_decimal(tenths_of(size as nat, MIB as nat)).push('M')
    } else if size >= KIB {
        one_decimal(tenths_of(size as nat, KIB as nat)).push('K')
    } else {
        decimal(size as nat).push('B')
    }
}

/// Appends one character with `String::push`; the contract claims that the string
/// afterwards is the old one followed by `c`.
#[verifier::external_body]
pub(crate) fn push_char(s: &mut String, c: char)
    ensures
        final(s)@ == old(s)@.push(c),
{
    s.push(c);
}

fn digit_to_char(d: u128) -> (c: char)
    requires
        d < 10,
    ensures
        c == digit_char(d as nat),
{
    let b: u8 = d as u8 + 48;
    b as char
}

/// Appends the decimal digits of `n`.
pub fn push_decimal(s: &mut String, n: u128)
    ensures
        final(s)@ == old(s)@ + decimal(n as nat),
    decreases n,
{
    if n >= 10 {
        push_decimal(s, n / 10);
    }
    push_char(s, digit_to_char(n % 10));
    proof {
        if n >= 10 {
            assert(decimal(n as nat) == decimal((n / 10) as nat).push(digit_char((n % 10) as nat)));
        }
    }
}

/// `n as f64`, held exactly as an integer.
pub(crate) fn u64_to_f64_value(n: u64) -> (r: u128)
    ensures
        r == u64_as_f64(n as nat),
        r <= n as nat + 4096,
        n > 0 ==> r > 0,
{
    let mut m: u64 = n;
    let mut s: u64 = 1;
    while m >= F64_EXACT_LIMIT
        invariant
            1 <= s <= 4096,
            m == n as nat / s as nat,
            s * f64_spacing(m as nat) == f64_spacing(n as nat),
            n > 0 ==> m > 0,
        decreases m,
    {
        proof {
            vstd::arithmetic::div_mod::lemma_div_denominator(n as int, s as int, 2);
            assert(f64_spacing(m as nat) == 2 * f64_spacing((m / 2) as nat));
            assert(s * (2 * f64_spacing((m / 2) as nat)) == (s * 2) * f64_spacing((m / 2) as nat))
                by (nonlinear_arith);
            lemma_spacing_bound(n, s, m);
        }
        m = m / 2;
        s = s * 2;
    }
    let q: u64 = n / s;
    let r: u64 = n % s;
    let up: bool = 2 * r > s || (2 * r == s && q % 2 == 1);
    let q2: u128 = if up { q as u128 + 1 } else { q as u128 };
    proof {
        assert(f64_spacing(m as nat) == 1);
        assert(s * f64_spacing(m as nat) == s * 1);
        assert(s == f64_spacing(n as nat));
        assert(q2 == round_half_even(n as nat, s as nat));
        vstd::arithmetic::div_mod::lemma_fundamental_div_mod(n as int, s as int);
        assert(n > 0 ==> q2 * s > 0) by (nonlinear_arith)
            requires
                q2 >= q,
                n > 0 ==> q > 0,
                s >= 1,
        ;
        assert(q2 * s <= n as nat + s) by (nonlinear_arith)
            requires
                q2 <= q + 1,
                s * q <= n as nat,
        ;
    }
    q2 * (s as u128)
}

proof fn lemma_spacing_bound(n: u64, s: u64, m: u64)
    requires
        1 <= s,
        m == n as nat / s as nat,
        m >= F64_EXACT_LIMIT,
    ensures
        s * 2 <= 4096,
{
    vstd::arithmetic::div_mod::lemma_fundamental_div_mod(n as int, s as int);
    assert(s * m <= n);
    assert(s * F64_EXACT_LIMIT <= s * m) by (nonlinear_arith)
        requires
            m >= F64_EXACT_LIMIT,
            s >= 1,
    ;
}

/// Tenths of `size` in the given unit, as `{:.1}` rounds `size as f64 / unit as f64`.
fn tenths(size: u64, unit: u64) -> (t: u64)
    requires
        unit == KIB || unit == MIB || unit == GIB,
        size >= unit,
    ensures
        t == tenths_of(size as nat, unit as nat),
{
    let f: u128 = u64_to_f64_value(size);
    let num: u128 = f * 10;
    let d: u128 = unit as u128;
    let q: u128 = num / d;
    let r: u128 = num % d;
    proof {
        assert(q <= num / 1024) by {
            vstd::arithmetic::div_mod::lemma_div_is_ordered_by_denominator(num as int, 1024, d as int);
        }
    }
    let up: bool = 2 * r > d || (2 * r == d && q % 2 == 1);
    let t: u128 = if up { q + 1 } else { q };
    t as u64
}

/// Writes a size for people: whole bytes below one KiB, otherwise KiB, MiB or GiB
/// with one decimal place ("512B", "1.5K", "2.0G").
pub fn format_size(size: u64) -> (text: String)
    ensures
        text@ == size_text(size),
{
    let mut s = String::new();
    if size >= GIB {
        let t = tenths(size, GIB);
        push_one_decimal(&mut s, t as u128);
        push_char(&mut s, 'G');
    } else if size >= MIB {
        let t = tenths(size, MIB);
        push_one_decimal(&mut s, t as u128);
        push_char(&mut s, 'M');
    } else if size >= KIB {
        let t = tenths(size, KIB);
        push_one_decimal(&mut s, t as u128);
        push_char(&mut s, 'K');
    } else {
        push_decimal(&mut s, size as u128);
        push_char(&mut s, 'B');
    }
    s
}

/// Appends a count of tenths with one decimal place.
pub fn push_one_decimal(s: &mut String, tenths: u128)
    ensures
        final(s)@ == old(s)@ + one_decimal(tenths as nat),
{
    push_decimal(s, tenths / 10);
    push_char(s, '.');
    push_char(s, digit_to_char(tenths % 10));
}

/// `s` right-aligned in a field of `width` characters, as `{:>width}` writes it.
pub open spec fn pad_left(s: Seq<char>, width: nat) -> Seq<char> {
    if s.len() < width {
        Seq::new((width - s.len()) as nat, |i: int| ' ') + s
    } else {
        s
    }
}

/// Right-aligns a string in a field of `width` characters.
pub fn pad_left_exec(s: String, width: usize) -> (r: String)
    ensures
        r@ == pad_left(s@, width as nat),
{
    let n = s.as_str().unicode_len();
    if n >= width {
        return s;
    }
    let mut r = String::new();
    let mut i: usize = 0;
    while i < width - n
        invariant
            n < width,
            i <= width - n,
            r@ == Seq::new(i as nat, |k: int| ' '),
        decreases width - n - i,
    {
        push_char(&mut r, ' ');
        assert(r@ == Seq::new((i + 1) as nat, |k: int| ' '));
        i = i + 1;
    }
    r.append(s.as_str());
    r
}

}
