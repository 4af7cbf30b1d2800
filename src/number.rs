//! Lua numbers that are not integers, held as the bits of an IEEE-754 double,
//! and their conversion to integers.
use vstd::prelude::*;

verus! {

/// `x` halved `k` times, rounding down: `x / 2^k`.
pub open spec fn halved(x: nat, k: nat) -> nat
    decreases k,
{
    if k == 0 {
        x
    } else {
        halved(x / 2, (k - 1) as nat)
    }
}

/// `2^k`.
pub open spec fn two_to(k: nat) -> nat
    decreases k,
{
    if k == 0 {
        1
    } else {
        2 * two_to((k - 1) as nat)
    }
}

/// The double with bits `bits` truncated toward zero to an `i64`, saturating
/// at the bounds; not-a-number gives 0. A double is a sign bit, an 11-bit
/// exponent `e` and a 52-bit fraction `m`; when it is finite and `e` is not 0
/// its magnitude is `(2^52 + m) * 2^(e - 1075)`.
pub open spec fn float_trunc(bits: u64) -> i64 {
    let neg = bits >= 0x8000_0000_0000_0000;
    let e = ((bits / 0x10_0000_0000_0000) % 2048) as int;
    let m = (bits % 0x10_0000_0000_0000) as nat;
    let x = (0x10_0000_0000_0000 + m) as nat;
    if e == 2047 && m != 0 {
        0
    } else if e < 1023 {
        0
    } else if e >= 1086 {
        if neg { i64::MIN } else { i64::MAX }
    } else {
        let mag: int = if e <= 1075 {
            halved(x, (1075 - e) as nat) as int
        } else {
            (x * two_to((e - 1075) as nat)) as int
        };
        if neg { (-mag) as i64 } else { mag as i64 }
    }
}

proof fn lemma_halved_le(x: nat, k: nat)
    ensures
        halved(x, k) <= x,
    decreases k,
{
    if k > 0 {
        lemma_halved_le(x / 2, (k - 1) as nat);
    }
}

proof fn lemma_two_to_mono(a: nat, b: nat)
    requires
        a <= b,
    ensures
        two_to(a) <= two_to(b),
    decreases b,
{
    if a < b {
        lemma_two_to_mono(a, (b - 1) as nat);
    }
}

/// Truncates the double with bits `bits` toward zero, as Rust's `as i64`
/// does.
pub fn float_to_i64(bits: u64) -> (r: i64)
    ensures
        r == float_trunc(bits),
{
    let neg = bits >= 0x8000_0000_0000_0000;
    let e = (bits / 0x10_0000_0000_0000) % 2048;
    let m = bits % 0x10_0000_0000_0000;
    if e == 2047 && m != 0 {
        return 0;
    }
    if e < 1023 {
        return 0;
    }
    if e >= 1086 {
        return if neg { i64::MIN } else { i64::MAX };
    }
    let x: u64 = 0x10_0000_0000_0000 + m;
    let mut mag: u64 = x;
    if e <= 1075 {
        let k = 1075 - e;
        let mut i: u64 = 0;
        while i < k
            invariant
                i <= k,
                halved(x as nat, k as nat) == halved(mag as nat, (k - i) as nat),
                mag <= x,
            decreases k - i,
        {
            mag = mag / 2;
            i += 1;
        }
        proof {
            lemma_halved_le(x as nat, k as nat);
        }
    } else {
        let k = e - 1075;
        proof {
            reveal_with_fuel(two_to, 11);
            lemma_two_to_mono(k as nat, 10);
            assert(two_to(0) == 1);
            assert(x * two_to(0) == x);
        }
        let mut i: u64 = 0;
        while i < k
            invariant
                i <= k <= 10,
                mag == x * two_to(i as nat),
                two_to(k as nat) <= 1024,
                x < 0x20_0000_0000_0000,
            decreases k - i,
        {
            proof {
                lemma_two_to_mono((i + 1) as nat, k as nat);
                assert(x * two_to((i + 1) as nat) <= 0x20_0000_0000_0000 * 1024) by (nonlinear_arith)
                    requires
                        x < 0x20_0000_0000_0000,
                        two_to((i + 1) as nat) <= 1024,
                ;
                assert(x * two_to((i + 1) as nat) == 2 * (x * two_to(i as nat))) by (nonlinear_arith)
                    requires
                        two_to((i + 1) as nat) == 2 * two_to(i as nat),
                ;
            }
            mag = mag * 2;
            i += 1;
        }
        proof {
            assert(x * two_to(k as nat) < 0x20_0000_0000_0000 * 1024) by (nonlinear_arith)
                requires
                    x < 0x20_0000_0000_0000,
                    two_to(k as nat) <= 1024,
            ;
        }
    }
    if neg {
        -(mag as i64)
    } else {
        mag as i64
    }
}

} // verus!
