//! Machine words: two's complement, powers of two, and bit lengths.

use vstd::prelude::*;

verus! {

/// The signed value of the word `w` out of `modulus` many.
pub open spec fn signed_of(w: int, modulus: int) -> int {
    if 2 * w < modulus {
        w
    } else {
        w - modulus
    }
}

/// `x` wrapped to the signed 16-bit range.
pub open spec fn wrap16(x: int) -> int {
    signed_of(x % 65536, 65536)
}

/// Two to the power of `e`.
pub open spec fn two_to(e: int) -> int
    decreases e,
{
    if e <= 0 {
        1
    } else {
        2 * two_to(e - 1)
    }
}

/// The number of binary digits of `x`; none for zero.
pub open spec fn bit_length(x: int) -> int
    decreases x,
{
    if x <= 0 {
        0
    } else {
        1 + bit_length(x / 2)
    }
}

/// Powers of two are positive.
pub proof fn two_to_positive(e: int)
    ensures
        two_to(e) >= 1,
    decreases e,
{
    if e > 0 {
        two_to_positive(e - 1);
    }
}

/// A larger power is at least as large.
pub proof fn two_to_monotonic(a: int, b: int)
    requires
        a <= b,
    ensures
        two_to(a) <= two_to(b),
    decreases b - a,
{
    if a < b {
        two_to_monotonic(a, b - 1);
        two_to_positive(b - 1);
    }
}

/// Powers multiply by adding exponents.
pub proof fn two_to_adds(a: int, b: int)
    requires
        0 <= a,
        0 <= b,
    ensures
        two_to(a + b) == two_to(a) * two_to(b),
    decreases b,
{
    if b > 0 {
        two_to_adds(a, b - 1);
        assert(two_to(a) * (2 * two_to(b - 1)) == 2 * (two_to(a) * two_to(b - 1)))
            by (nonlinear_arith);
    }
}

/// The first powers of two.
pub proof fn two_to_values()
    ensures
        two_to(0) == 1,
        two_to(1) == 2,
        two_to(2) == 4,
        two_to(3) == 8,
        two_to(4) == 16,
        two_to(5) == 32,
        two_to(6) == 64,
        two_to(7) == 128,
        two_to(8) == 256,
        two_to(9) == 512,
        two_to(10) == 1024,
        two_to(11) == 2048,
        two_to(12) == 4096,
        two_to(13) == 8192,
        two_to(14) == 16384,
        two_to(15) == 32768,
        two_to(16) == 65536,
{
    reveal_with_fuel(two_to, 17);
}

/// A positive number lies between the power below its bit length and that of
/// its bit length.
pub proof fn bit_length_bounds(x: int)
    requires
        0 <= x,
    ensures
        0 <= bit_length(x),
        x < two_to(bit_length(x)),
        x > 0 ==> bit_length(x) >= 1 && two_to(bit_length(x) - 1) <= x,
    decreases x,
{
    if x > 0 {
        bit_length_bounds(x / 2);
        if x / 2 == 0 {
            assert(x == 1);
        }
    }
}

/// The bit length is pinned by the powers around a number.
pub proof fn bit_length_unique(x: int, n: int)
    requires
        1 <= n,
        two_to(n - 1) <= x < two_to(n),
    ensures
        bit_length(x) == n,
{
    two_to_positive(n - 1);
    bit_length_bounds(x);
    let m = bit_length(x);
    if m < n {
        two_to_monotonic(m, n - 1);
    } else if m > n {
        two_to_monotonic(n, m - 1);
    }
}

/// A number below a power of two has no more digits than its exponent.
pub proof fn bit_length_limit(x: int, n: int)
    requires
        0 <= x < two_to(n),
        0 <= n,
    ensures
        0 <= bit_length(x) <= n,
{
    bit_length_bounds(x);
    if bit_length(x) > n {
        two_to_monotonic(n, bit_length(x) - 1);
    }
}

/// Words add up as the numbers they stand for.
pub proof fn word_sum(x: int, y: int)
    ensures
        ((x % 65536) + (y % 65536)) % 65536 == (x + y) % 65536,
{
}

/// Computes [`two_to`].
pub fn power_of_two(e: u32) -> (r: u64)
    requires
        e < 64,
    ensures
        r == two_to(e as int),
        r >= 1,
{
    let mut r: u64 = 1;
    let mut i: u32 = 0;
    while i < e
        invariant
            i <= e < 64,
            r == two_to(i as int),
            r >= 1,
        decreases e - i,
    {
        proof {
            two_to_monotonic(i + 1, 63);
            assert(two_to(63) == 0x8000_0000_0000_0000) by {
                two_to_values();
                two_to_adds(16, 16);
                two_to_adds(32, 16);
                two_to_adds(48, 15);
            }
        }
        r = 2 * r;
        i = i + 1;
    }
    r
}

/// Computes [`bit_length`].
pub fn bit_length_of(x: u32) -> (r: u32)
    ensures
        r == bit_length(x as int),
        r <= 32,
{
    let mut n: u32 = 0;
    let mut v: u32 = x;
    proof {
        assert(two_to(32) == 0x1_0000_0000) by {
            two_to_values();
            two_to_adds(16, 16);
        }
        bit_length_limit(x as int, 32);
        bit_length_bounds(x as int);
    }
    while v > 0
        invariant
            bit_length(x as int) == n + bit_length(v as int),
            bit_length(x as int) <= 32,
            n <= 32,
        decreases v,
    {
        proof {
            bit_length_bounds(v as int / 2);
        }
        v = v / 2;
        n = n + 1;
    }
    n
}

/// The signed value of a 16-bit word.
pub fn signed16(w: u32) -> (r: i32)
    requires
        w < 65536,
    ensures
        r == signed_of(w as int, 65536),
        -32768 <= r <= 32767,
{
    if w < 32768 {
        w as i32
    } else {
        w as i32 - 65536
    }
}

/// The 16-bit word of `x`, wrapped.
pub fn word16(x: i32) -> (r: u32)
    requires
        -0x100_0000 <= x <= 0x100_0000,
    ensures
        r == x as int % 65536,
        r < 65536,
        signed_of(r as int, 65536) == wrap16(x as int),
{
    ((x + 0x100_0000) % 65536) as u32
}

} // verus!
