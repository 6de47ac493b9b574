//! File sizes as people read them.

use vstd::prelude::*;
use vstd::string::*;

use crate::text;

verus! {

/// `n / d` to the nearest whole number, halves to the even one.
pub open spec fn nearest(n: nat, d: nat) -> nat {
    let q = n / d;
    let r = n % d;
    if 2 * r < d || (2 * r == d && q % 2 == 0) {
        q
    } else {
        q + 1
    }
}

fn nearest_of(n: u128, d: u128) -> (r: u128)
    requires
        0 < d,
        n <= 0x1_0000_0000_0000_0000_0000,
        d <= 0x1_0000_0000_0000_0000_0000,
    ensures
        r == nearest(n as nat, d as nat),
        r <= n + 1,
{
    let q: u128 = n / d;
    let r: u128 = n % d;
    assert(q <= n) by (nonlinear_arith)
        requires
            q == n / d,
            0 < d,
    ;
    if 2 * r < d || (2 * r == d && q % 2 == 0) {
        q
    } else {
        q + 1
    }
}

/// The distance of the numbers around `n` that 53 binary digits can tell apart.
pub open spec fn spacing(n: nat) -> nat
    decreases n,
{
    if n < 0x20_0000_0000_0000 {
        1
    } else {
        2 * spacing(n / 2)
    }
}

fn spacing_of(n: u64) -> (r: u64)
    ensures
        r == spacing(n as nat),
        0 < r,
        r == 1 || r * 0x10_0000_0000_0000 <= n,
    decreases n,
{
    if n < 0x20_0000_0000_0000 {
        1
    } else {
        2 * spacing_of(n / 2)
    }
}

/// The number nearest to `n` that has at most 53 binary digits before its zeros.
pub open spec fn in_double(n: nat) -> nat {
    nearest(n, spacing(n)) * spacing(n)
}

/// How many times the size can be divided by 1024 and stay at 1 or above, as far
/// as there are units.
pub open spec fn unit_index(n: nat) -> int {
    if n < 0x400 {
        0
    } else if n < 0x10_0000 {
        1
    } else if n < 0x4000_0000 {
        2
    } else if n < 0x100_0000_0000 {
        3
    } else {
        4
    }
}

/// How many bytes a unit has.
pub open spec fn unit_bytes(unit: int) -> nat {
    if unit <= 0 {
        1
    } else if unit == 1 {
        0x400
    } else if unit == 2 {
        0x10_0000
    } else if unit == 3 {
        0x4000_0000
    } else {
        0x100_0000_0000
    }
}

/// The name of a unit.
pub open spec fn unit_name(unit: int) -> Seq<char> {
    if unit <= 0 {
        "B"@
    } else if unit == 1 {
        "KB"@
    } else if unit == 2 {
        "MB"@
    } else if unit == 3 {
        "GB"@
    } else {
        "TB"@
    }
}

/// A count of tenths with its decimal point.
pub open spec fn tenths(t: nat) -> Seq<char> {
    text::decimal(t / 10) + "."@ + text::decimal(t % 10)
}

/// A size in bytes below 1024 and otherwise in the largest unit that it fills,
/// to the nearest tenth.
pub open spec fn human(bytes: int) -> Seq<char> {
    if bytes < 0x400 {
        text::signed_decimal(bytes) + " B"@
    } else {
        let n = in_double(bytes as nat);
        let unit = unit_index(n);
        tenths(nearest(10 * n, unit_bytes(unit))) + " "@ + unit_name(unit)
    }
}

/// Bytes as a short human string (KB/MB/…), matching how sizes usually read.
pub fn human_size(bytes: i64) -> (r: String)
    ensures
        r@ == human(bytes as int),
{
    if bytes < 0x400 {
        let mut s = text::signed_decimal_text(bytes);
        s.append(" B");
        return s;
    }
    let step: u128 = spacing_of(bytes as u64) as u128;
    let count: u128 = nearest_of(bytes as u128, step);
    assert(count * step <= bytes + step) by (nonlinear_arith)
        requires
            count == nearest(bytes as nat, step as nat),
            0 < step,
            0 <= bytes,
    {
        let q = (bytes as nat) / (step as nat);
        assert(count <= q + 1);
        assert(q * step <= bytes) by {
            vstd::arithmetic::div_mod::lemma_fundamental_div_mod(bytes as int, step as int);
        }
        assert(count * step <= (q + 1) * step);
        assert((q + 1) * step == q * step + step);
    }
    let n: u128 = count * step;
    assert(n == in_double(bytes as nat));
    let (unit, name): (u128, &str) = if n < 0x400 {
        (1, "B")
    } else if n < 0x10_0000 {
        (0x400, "KB")
    } else if n < 0x4000_0000 {
        (0x10_0000, "MB")
    } else if n < 0x100_0000_0000 {
        (0x4000_0000, "GB")
    } else {
        (0x100_0000_0000, "TB")
    };
    let t: u128 = nearest_of(10 * n, unit);
    let mut s = text::decimal_text(t / 10);
    s.append(".");
    s.append(text::decimal_text(t % 10).as_str());
    s.append(" ");
    s.append(name);
    s
}

proof fn nearest_is_near(n: nat, d: nat)
    requires
        d > 0,
    ensures
        2 * (n - nearest(n, d) * d) <= d,
        2 * (nearest(n, d) * d - n) <= d,
{
    let q = n / d;
    let r = n % d;
    vstd::arithmetic::div_mod::lemma_fundamental_div_mod(n as int, d as int);
    assert(n == q * d + r) by (nonlinear_arith)
        requires
            n == d * q + r,
    ;
    assert((q + 1) * d == q * d + d) by (nonlinear_arith);
}

/// A size of 1024 bytes or more that 53 binary digits hold is shown in the largest unit
/// that it fills, and what is shown is off by half a tenth of the unit at most.
pub proof fn a_size_is_shown_to_half_a_tenth(bytes: nat)
    requires
        0x400 <= bytes < 0x20_0000_0000_0000,
    ensures
        ({
            let unit = unit_index(bytes);
            let size = unit_bytes(unit);
            let t = nearest(10 * bytes, size);
            &&& human(bytes as int) == tenths(t) + " "@ + unit_name(unit)
            &&& size <= bytes
            &&& unit < 4 ==> bytes < 1024 * size
            &&& 2 * (10 * bytes - t * size) <= size
            &&& 2 * (t * size - 10 * bytes) <= size
        }),
{
    assert(spacing(bytes) == 1);
    assert(in_double(bytes) == bytes);
    nearest_is_near(10 * bytes, unit_bytes(unit_index(bytes)));
}

} // verus!
