//! How far a shown size may be from the size itself.
use vstd::arithmetic::power2::*;
use vstd::prelude::*;

use crate::size;
use crate::text;

verus! {

/// The distance between two numbers.
pub open spec fn distance(a: int, b: int) -> int {
    if a <= b {
        b - a
    } else {
        a - b
    }
}

proof fn lemma_round(a: nat, b: nat)
    requires
        b > 0,
    ensures
        ({
            let q = size::round_half_even(a, b);
            &&& 2 * distance((q * b) as int, a as int) <= b
            &&& (2 * distance((q * b) as int, a as int) == b ==> q % 2 == 0)
        }),
{
    let q = a / b;
    let r = a % b;
    assert(q * b + r == a && r < b && (q + 1) * b == q * b + b) by (nonlinear_arith)
        requires
            q == a / b,
            r == a % b,
            b > 0,
    ;
}

proof fn lemma_double_step(n: nat, k: nat)
    requires
        k == 0 ==> n < 0x20_0000_0000_0000,
        k > 0 ==> 0x10_0000_0000_0000 * pow2(k) <= n < 0x20_0000_0000_0000 * pow2(k),
    ensures
        size::double_step(n) == pow2(k),
    decreases k,
{
    lemma2_to64();
    if k > 0 {
        lemma_pow2_unfold(k);
        let j = (k - 1) as nat;
        lemma_pow2_pos(j);
        assert(n >= 0x20_0000_0000_0000) by {
            assert(0x10_0000_0000_0000 * (2 * pow2(j)) >= 0x20_0000_0000_0000) by (nonlinear_arith)
                requires
                    pow2(j) >= 1,
            ;
        }
        lemma_double_step(n / 2, j);
    }
}

/// A size is taken as the double-precision number next to it: one of 53 bits
/// times a power of two, and of two that are equally near the even one.
pub proof fn law_size_is_taken_as_the_nearest_double(n: nat, k: nat)
    requires
        k == 0 ==> n < 0x20_0000_0000_0000,
        k > 0 ==> 0x10_0000_0000_0000 * pow2(k) <= n < 0x20_0000_0000_0000 * pow2(k),
    ensures
        exists|m: nat|
            {
                &&& size::as_double(n) == #[trigger] (m * pow2(k))
                &&& 2 * distance((m * pow2(k)) as int, n as int) <= pow2(k)
                &&& 2 * distance((m * pow2(k)) as int, n as int) == pow2(k) ==> m % 2 == 0
            },
{
    lemma_double_step(n, k);
    lemma_pow2_pos(k);
    lemma_round(n, pow2(k));
    let m = size::round_half_even(n, pow2(k));
    assert(size::as_double(n) == m * pow2(k));
}

/// A size of at least one kilobyte is shown in the largest of four units that
/// goes into it, to one decimal place: the tenth that is nearest, and of two
/// that are equally near the even one. A smaller size is shown in full.
pub proof fn law_shown_size_is_the_nearest_tenth(bytes: nat, unit: nat, letter: char)
    requires
        (unit == 1024 && letter == 'K') || (unit == 1_048_576 && letter == 'M') || (unit
            == 1_073_741_824 && letter == 'G') || (unit == 1_099_511_627_776 && letter == 'T'),
        unit <= size::as_double(bytes),
        letter != 'T' ==> size::as_double(bytes) < 1024 * unit,
    ensures
        exists|t: nat|
            {
                &&& size::human_size(bytes) == #[trigger] text::digits(t / 10) + "."@
                    + text::digits(t % 10) + seq![letter]
                &&& 2 * distance((t * unit) as int, (10 * size::as_double(bytes)) as int) <= unit
                &&& 2 * distance((t * unit) as int, (10 * size::as_double(bytes)) as int) == unit
                    ==> t % 2 == 0
            },
{
    let v = size::as_double(bytes);
    reveal_strlit(".");
    assert("."@ =~= seq!['.']);
    let t = size::tenths(v);
    assert(size::unit_bytes(size::unit_of(v)) == unit);
    assert(size::unit_letter(size::unit_of(v)) == letter);
    lemma_round(10 * v, unit);
    assert(size::human_size(bytes) =~= text::digits(t / 10) + "."@ + text::digits(t % 10)
        + seq![letter]);
}

/// A size below one kilobyte is shown in full.
pub proof fn law_small_size_is_shown_in_full(bytes: nat)
    requires
        bytes < 1024,
    ensures
        size::human_size(bytes) == text::digits(bytes) + "B"@,
{
    reveal_strlit("B");
    size::law_sizes_are_exact(bytes);
    assert(text::digits(bytes).push('B') =~= text::digits(bytes) + "B"@);
}

} // verus!
