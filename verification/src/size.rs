//! File sizes for people to read.
use vstd::prelude::*;
use vstd::string::*;

use crate::text;

verus! {

/// `a / b`, rounded to the nearest integer, and to the even one of two that
/// are equally near.
pub open spec fn round_half_even(a: nat, b: nat) -> nat {
    let q = a / b;
    let r = a % b;
    if 2 * r > b || (2 * r == b && q % 2 == 1) {
        q + 1
    } else {
        q
    }
}

/// The distance between neighbouring double-precision numbers around `n`.
pub open spec fn double_step(n: nat) -> nat
    decreases n,
{
    if n < 0x20_0000_0000_0000 {
        1
    } else {
        2 * double_step(n / 2)
    }
}

/// The double-precision number nearest to `n`.
pub open spec fn as_double(n: nat) -> nat {
    round_half_even(n, double_step(n)) * double_step(n)
}

/// The largest unit of which `v` bytes make at least one: the number of times
/// that 1024 goes into it, four at most.
pub open spec fn unit_of(v: nat) -> nat {
    if v < 1024 {
        0
    } else if v < 1024 * 1024 {
        1
    } else if v < 1024 * 1024 * 1024 {
        2
    } else if v < 1024 * 1024 * 1024 * 1024 {
        3
    } else {
        4
    }
}

/// The number of bytes in a unit.
pub open spec fn unit_bytes(unit: nat) -> nat {
    if unit == 0 {
        1
    } else if unit == 1 {
        1024
    } else if unit == 2 {
        1024 * 1024
    } else if unit == 3 {
        1024 * 1024 * 1024
    } else {
        1024 * 1024 * 1024 * 1024
    }
}

/// The letter of a unit.
pub open spec fn unit_letter(unit: nat) -> char {
    if unit == 0 {
        'B'
    } else if unit == 1 {
        'K'
    } else if unit == 2 {
        'M'
    } else if unit == 3 {
        'G'
    } else {
        'T'
    }
}

/// A size in tenths of its unit.
pub open spec fn tenths(v: nat) -> nat {
    round_half_even(10 * v, unit_bytes(unit_of(v)))
}

/// A number of bytes in its largest unit, with one decimal place; the exact
/// number where it is below one kilobyte. The size is taken in double
/// precision, and rounded once more when it is written.
pub open spec fn human_size(bytes: nat) -> Seq<char> {
    let v = as_double(bytes);
    if unit_of(v) == 0 {
        text::digits(bytes).push('B')
    } else {
        (text::digits(tenths(v) / 10) + seq!['.'] + text::digits(tenths(v) % 10)).push(
            unit_letter(unit_of(v)),
        )
    }
}

/// Up to 53 bits a size is taken exactly: what is shown is the size itself,
/// rounded once.
pub proof fn law_sizes_are_exact(bytes: nat)
    requires
        bytes < 0x20_0000_0000_0000,
    ensures
        as_double(bytes) == bytes,
        bytes < 1024 ==> human_size(bytes) == text::digits(bytes).push('B'),
{
    assert(double_step(bytes) == 1);
    assert(bytes / 1 == bytes && bytes % 1 == 0) by (nonlinear_arith);
    assert(round_half_even(bytes, 1) == bytes);
    assert(round_half_even(bytes, 1) * 1 == bytes) by (nonlinear_arith)
        requires
            round_half_even(bytes, 1) == bytes,
    ;
    assert(as_double(bytes) == bytes);
}

/// `a / b`, rounded half to even.
fn rounded(a: u128, b: u128) -> (r: u128)
    requires
        0 < b <= 0x100_0000_0000_0000,
        a <= 0x1_0000_0000_0000_0000_0000,
    ensures
        r == round_half_even(a as nat, b as nat),
        r * b <= a + b,
        r <= a + 1,
{
    let q: u128 = a / b;
    let rest: u128 = a % b;
    assert(q * b + rest == a && q <= a && (q + 1) * b == q * b + b) by (nonlinear_arith)
        requires
            q == a / b,
            rest == a % b,
            b > 0,
    ;
    assert(rest < b);
    if 2 * rest > b || (2 * rest == b && q % 2 == 1) {
        q + 1
    } else {
        q
    }
}

/// The double-precision number nearest to `n`.
fn nearest_double(n: u64) -> (r: u128)
    ensures
        r == as_double(n as nat),
        r <= 2 * n + 1,
{
    let mut step: u128 = 1;
    let mut m: u64 = n;
    assert(double_step(n as nat) == 1 * double_step(n as nat));
    while m >= 0x20_0000_0000_0000
        invariant
            step > 0,
            step * m <= n,
            step == 1 || m >= 0x10_0000_0000_0000,
            double_step(n as nat) == step * double_step(m as nat),
        decreases m,
    {
        let ghost s = step as nat;
        let ghost d = double_step((m / 2) as nat);
        assert(s * (2 * d) == (2 * s) * d) by (nonlinear_arith);
        assert((2 * step) * (m / 2) <= n) by (nonlinear_arith)
            requires
                step * m <= n,
        ;
        assert(2 * step <= n) by (nonlinear_arith)
            requires
                (2 * step) * (m / 2) <= n,
                m >= 0x20_0000_0000_0000,
        ;
        step = step * 2;
        m = m / 2;
    }
    assert(step * 1 == step);
    assert(step <= 0x1000 && (n == 0 || step <= n)) by (nonlinear_arith)
        requires
            step * m <= n,
            n <= 0xffff_ffff_ffff_ffff,
            step == 1 || m >= 0x10_0000_0000_0000,
    ;
    let q: u128 = rounded(n as u128, step);
    q * step
}

/// A size in a form for people to read, such as `4.2K`.
pub fn human_readable_size(bytes: u64) -> (r: String)
    ensures
        r@ == human_size(bytes as nat),
{
    let v: u128 = nearest_double(bytes);
    if v < 1024 {
        let mut out = text::decimal(bytes);
        out.push('B');
        return out;
    }
    let unit: u128;
    let letter: char;
    if v < 0x10_0000 {
        unit = 0x400;
        letter = 'K';
    } else if v < 0x4000_0000 {
        unit = 0x10_0000;
        letter = 'M';
    } else if v < 0x100_0000_0000 {
        unit = 0x4000_0000;
        letter = 'G';
    } else {
        unit = 0x100_0000_0000;
        letter = 'T';
    }
    let t: u128 = rounded(10 * v, unit);
    assert(t <= 0xffff_ffff_ffff_ffff) by (nonlinear_arith)
        requires
            t * unit <= 10 * v + unit,
            unit >= 0x400,
            v <= 2 * 0xffff_ffff_ffff_ffff + 1,
    ;
    let mut out = text::decimal((t / 10) as u64);
    out.push('.');
    let last = text::decimal((t % 10) as u64);
    out.append(last.as_str());
    out.push(letter);
    assert(out@ =~= human_size(bytes as nat));
    out
}

} // verus!
