//! Laws on sizes as people read them.

use vstd::prelude::*;

use crate::commands::size;
use crate::text;

verus! {

/// A count of tenths, with its point and a unit.
pub open spec fn in_tenths(t: nat, unit: Seq<char>) -> Seq<char> {
    text::decimal(t / 10) + "."@ + text::decimal(t % 10) + " "@ + unit
}

/// `t` tenths of `unit` bytes are `bytes`, to the nearest tenth; where two are as near it is
/// the even one.
pub open spec fn nearest_tenth(bytes: int, t: nat, unit: int) -> bool {
    let off = 2 * (10 * bytes - t * unit);
    &&& -unit <= off <= unit
    &&& off == unit || off == -unit ==> t % 2 == 0
}

/// Below 1024 bytes a size is its number of bytes. From there on it is a number of tenths
/// in the largest unit that it fills, and that number is the nearest one.
pub proof fn a_size_is_in_its_largest_unit(bytes: int)
    requires
        bytes < 0x20_0000_0000_0000,
    ensures
        bytes < 1024 ==> size::human(bytes) == text::signed_decimal(bytes) + " B"@,
        1024 <= bytes < 0x10_0000 ==> exists|t: nat|
            size::human(bytes) == #[trigger] in_tenths(t, "KB"@) && nearest_tenth(bytes, t, 1024),
        0x10_0000 <= bytes < 0x4000_0000 ==> exists|t: nat|
            size::human(bytes) == #[trigger] in_tenths(t, "MB"@) && nearest_tenth(
                bytes,
                t,
                0x10_0000,
            ),
        0x4000_0000 <= bytes < 0x100_0000_0000 ==> exists|t: nat|
            size::human(bytes) == #[trigger] in_tenths(t, "GB"@) && nearest_tenth(
                bytes,
                t,
                0x4000_0000,
            ),
        0x100_0000_0000 <= bytes ==> exists|t: nat|
            size::human(bytes) == #[trigger] in_tenths(t, "TB"@) && nearest_tenth(
                bytes,
                t,
                0x100_0000_0000,
            ),
{
    if 1024 <= bytes {
        size::a_size_is_shown_to_half_a_tenth(bytes as nat);
        let unit = size::unit_bytes(size::unit_index(bytes as nat));
        let name = size::unit_name(size::unit_index(bytes as nat));
        let t = size::nearest(10 * bytes as nat, unit);
        assert(size::human(bytes) == in_tenths(t, name));
        lemma_nearest(10 * bytes as nat, unit);
        assert(nearest_tenth(bytes, t, unit as int));
    }
}

proof fn lemma_spacing_is_small(n: nat)
    requires
        n < 0x8000_0000_0000_0000,
    ensures
        0 < size::spacing(n),
        size::spacing(n) == 1 || size::spacing(n) * 0x10_0000_0000_0000 <= n,
    decreases n,
{
    if n >= 0x20_0000_0000_0000 {
        lemma_spacing_is_small(n / 2);
    }
}

proof fn lemma_nearest(n: nat, d: nat)
    requires
        d > 0,
    ensures
        -(d as int) <= 2 * (n - size::nearest(n, d) * d) <= d,
        2 * (n - size::nearest(n, d) * d) == d || 2 * (n - size::nearest(n, d) * d) == -(d as int)
            ==> size::nearest(n, d) % 2 == 0,
{
    let q = n / d;
    let r = n % d;
    vstd::arithmetic::div_mod::lemma_fundamental_div_mod(n as int, d as int);
    assert(n == q * d + r) by (nonlinear_arith)
        requires
            n == d * q + r,
    ;
    assert((q + 1) * d == q * d + d) by (nonlinear_arith);
}

/// A size beyond what 53 binary digits hold is in terabytes, and off by no more than half a
/// tenth of one and what the digits leave out, which is less than 1024 bytes.
pub proof fn a_huge_size_is_in_terabytes(bytes: int)
    requires
        0x20_0000_0000_0000 <= bytes < 0x8000_0000_0000_0000,
    ensures
        exists|t: nat|
            size::human(bytes) == #[trigger] in_tenths(t, "TB"@) && -(0x100_0000_0000 + 20480)
                <= 2 * (10 * bytes - t * 0x100_0000_0000) <= 0x100_0000_0000 + 20480,
{
    let b = bytes as nat;
    let step = size::spacing(b);
    lemma_spacing_is_small(b);
    assert(step < 2048);
    lemma_nearest(b, step);
    let n = size::in_double(b);
    assert(n == size::nearest(b, step) * step);
    assert(n >= 0x100_0000_0000);
    let t = size::nearest(10 * n, 0x100_0000_0000);
    lemma_nearest(10 * n, 0x100_0000_0000);
    assert(size::human(bytes) == in_tenths(t, "TB"@));
}

/// A size beyond what 53 binary digits hold is shown by the number that they do hold, to the
/// nearest tenth of a terabyte.
pub proof fn a_huge_size_is_shown_by_its_double(bytes: int)
    requires
        0x20_0000_0000_0000 <= bytes < 0x8000_0000_0000_0000,
    ensures
        exists|t: nat|
            size::human(bytes) == #[trigger] in_tenths(t, "TB"@) && nearest_tenth(
                size::in_double(bytes as nat) as int,
                t,
                0x100_0000_0000,
            ),
{
    let b = bytes as nat;
    lemma_spacing_is_small(b);
    lemma_nearest(b, size::spacing(b));
    let n = size::in_double(b);
    assert(n >= 0x100_0000_0000);
    let t = size::nearest(10 * n, 0x100_0000_0000);
    lemma_nearest(10 * n, 0x100_0000_0000);
    assert(size::human(bytes) == in_tenths(t, "TB"@));
}

/// The distance of the numbers near `n` that 53 binary digits write is a power of two of which
/// `n` holds at least `2^52` and fewer than `2^53`, or 1.
pub proof fn a_double_has_fifty_three_digits(n: nat)
    ensures
        n < 0x20_0000_0000_0000 ==> size::spacing(n) == 1,
        n >= 0x20_0000_0000_0000 ==> size::spacing(n) == 2 * size::spacing(n / 2),
        n >= 0x20_0000_0000_0000 ==> 0x10_0000_0000_0000 * size::spacing(n) <= n
            < 0x20_0000_0000_0000 * size::spacing(n),
    decreases n,
{
    if n >= 0x20_0000_0000_0000 {
        a_double_has_fifty_three_digits(n / 2);
    }
}

/// The number in 53 binary digits is a multiple of their distance, the nearest one to the
/// size, and where two are as near the even one.
pub proof fn a_double_is_the_nearest(n: nat)
    ensures
        ({
            let step = size::spacing(n) as int;
            let d = size::in_double(n) as int;
            &&& d % step == 0
            &&& -step <= 2 * (n - d) <= step
            &&& 2 * (n - d) == step || 2 * (n - d) == -step ==> (d / step) % 2 == 0
        }),
{
    a_double_has_fifty_three_digits(n);
    let step = size::spacing(n);
    if n >= 0x20_0000_0000_0000 {
        assert(step > 0);
    }
    let q = size::nearest(n, step);
    lemma_nearest(n, step);
    assert((q * step) % step == 0 && (q * step) / step == q) by (nonlinear_arith)
        requires
            step > 0,
    ;
}

} // verus!
