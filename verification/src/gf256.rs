//! Arithmetic in the finite field GF(2^8).
//!
//! Field elements are bytes; addition is XOR (characteristic 2) and
//! multiplication is carry-less polynomial multiplication reduced modulo the
//! irreducible polynomial x^8 + x^4 + x^3 + x^2 + 1 (0x11D).
//!
//! The specification-level product [`spec_gf_mul`] is the shift-and-add
//! recursion over the polynomial basis; the executable operations are proved
//! to compute exactly that. The multiplicative inverse of a nonzero element
//! `a` is `a^254` (the order of the multiplicative group is 255).

use crate::Error;
use vstd::prelude::*;

verus! {

/// Doubling in GF(256): multiply by the polynomial x, reducing by 0x11D
/// when the top bit is set.
pub open spec fn spec_xtime(a: u8) -> u8 {
    ((((a as u16) << 1u16) ^ (if a >= 128 { 0x11Du16 } else { 0u16 })) & 0xFFu16) as u8
}

/// Product of two field elements: shift-and-add recursion on the bits of `b`.
pub open spec fn spec_gf_mul(a: u8, b: u8) -> u8
    decreases b,
{
    if b == 0 {
        0u8
    } else {
        (if b % 2 == 1 { a } else { 0u8 }) ^ spec_gf_mul(spec_xtime(a), b / 2)
    }
}

/// `a` raised to the `n`-th power, multiplying on the right so that an
/// iterative product matches the definition step for step.
pub open spec fn spec_gf_pow(a: u8, n: nat) -> u8
    decreases n,
{
    if n == 0 {
        1u8
    } else {
        spec_gf_mul(spec_gf_pow(a, (n - 1) as nat), a)
    }
}

/// Multiplicative inverse as `a^254`; maps 0 to 0.
pub open spec fn spec_gf_inv(a: u8) -> u8 {
    spec_gf_pow(a, 254)
}

/// Field quotient `a * b^-1`; yields 0 whenever `a` is 0.
pub open spec fn spec_gf_div(a: u8, b: u8) -> u8 {
    spec_gf_mul(a, spec_gf_inv(b))
}

proof fn lemma_xor_zero(a: u8)
    by (bit_vector)
    ensures
        a ^ 0u8 == a,
        0u8 ^ a == a,
{
}

proof fn lemma_xor_assoc(a: u8, b: u8, c: u8)
    by (bit_vector)
    ensures
        (a ^ b) ^ c == a ^ (b ^ c),
{
}

/// One is the multiplicative identity: `a * 1 == a`.
pub proof fn lemma_gf_mul_one(a: u8)
    ensures
        spec_gf_mul(a, 1) == a,
{
    assert(spec_gf_mul(spec_xtime(a), 0) == 0);
    lemma_xor_zero(a);
}

/// Branch-free form of [`spec_gf_mul`]: the eight shift-and-add steps
/// written out, one term per bit of `b`. Equal to `spec_gf_mul` by
/// [`lemma_gf_mul_unrolled`]; the bit-vector solver can inline this form,
/// which a recursive definition does not allow.
pub open spec fn spec_gf_mul_unrolled(a: u8, b: u8) -> u8 {
    let a1 = spec_xtime(a);
    let a2 = spec_xtime(a1);
    let a3 = spec_xtime(a2);
    let a4 = spec_xtime(a3);
    let a5 = spec_xtime(a4);
    let a6 = spec_xtime(a5);
    let a7 = spec_xtime(a6);
    (if b % 2 == 1 {
        a
    } else {
        0u8
    }) ^ ((if (b / 2) % 2 == 1 {
        a1
    } else {
        0u8
    }) ^ ((if (b / 4) % 2 == 1 {
        a2
    } else {
        0u8
    }) ^ ((if (b / 8) % 2 == 1 {
        a3
    } else {
        0u8
    }) ^ ((if (b / 16) % 2 == 1 {
        a4
    } else {
        0u8
    }) ^ ((if (b / 32) % 2 == 1 {
        a5
    } else {
        0u8
    }) ^ ((if (b / 64) % 2 == 1 {
        a6
    } else {
        0u8
    }) ^ ((if (b / 128) % 2 == 1 {
        a7
    } else {
        0u8
    }) ^ 0u8)))))))
}

/// The recursive and the branch-free product agree.
proof fn lemma_gf_mul_unrolled(a: u8, b: u8)
    ensures
        spec_gf_mul(a, b) == spec_gf_mul_unrolled(a, b),
    decreases b,
{
    if b == 0 {
        assert(spec_gf_mul_unrolled(a, 0) == 0) by (bit_vector);
    } else {
        lemma_gf_mul_unrolled(spec_xtime(a), b / 2);
        assert(spec_gf_mul_unrolled(a, b) == ((if b % 2 == 1 {
            a
        } else {
            0u8
        }) ^ spec_gf_mul_unrolled(spec_xtime(a), b / 2))) by (bit_vector);
        assert(spec_gf_mul(a, b) == ((if b % 2 == 1 {
            a
        } else {
            0u8
        }) ^ spec_gf_mul(spec_xtime(a), b / 2)));
    }
}

/// The field has no zero divisors: the polynomial 0x11D is irreducible.
pub proof fn lemma_gf_no_zero_divisors(a: u8, b: u8)
    requires
        a != 0,
        b != 0,
    ensures
        spec_gf_mul(a, b) != 0,
{
    lemma_gf_mul_unrolled(a, b);
    assert(a != 0 && b != 0 ==> spec_gf_mul_unrolled(a, b) != 0) by (bit_vector);
}

/// No power of a nonzero element is zero; in particular the inverse
/// `a^254` of a nonzero `a` is nonzero.
pub proof fn lemma_gf_pow_nonzero(a: u8, n: nat)
    requires
        a != 0,
    ensures
        spec_gf_pow(a, n) != 0,
    decreases n,
{
    if n > 0 {
        lemma_gf_pow_nonzero(a, (n - 1) as nat);
        lemma_gf_no_zero_divisors(spec_gf_pow(a, (n - 1) as nat), a);
    }
}

/// Field addition: XOR of the two bytes.
pub fn gf_add(a: u8, b: u8) -> (r: u8)
    ensures
        r == (a ^ b),
{
    a ^ b
}

fn xtime(a: u8) -> (r: u8)
    ensures
        r == spec_xtime(a),
{
    let w: u16 = ((a as u16) << 1u16) ^ (if a >= 128 { 0x11Du16 } else { 0u16 });
    (w & 0xFFu16) as u8
}

/// Field multiplication, shift-and-add over the bits of `b`.
pub fn gf_mul(a: u8, b: u8) -> (r: u8)
    ensures
        r == spec_gf_mul(a, b),
{
    let mut acc: u8 = 0;
    let mut x: u8 = a;
    let mut y: u8 = b;
    proof {
        lemma_xor_zero(spec_gf_mul(a, b));
    }
    while y != 0
        invariant
            spec_gf_mul(a, b) == acc ^ spec_gf_mul(x, y),
        decreases y,
    {
        let ghost g: u8 = spec_gf_mul(spec_xtime(x), y / 2);
        let t: u8 = if y % 2 == 1 { x } else { 0u8 };
        proof {
            assert(spec_gf_mul(x, y) == (t ^ g));
            lemma_xor_assoc(acc, t, g);
        }
        acc = acc ^ t;
        x = xtime(x);
        y = y / 2;
    }
    proof {
        lemma_xor_zero(acc);
    }
    acc
}

/// `a^254`, the inverse of a nonzero `a`, by iterated multiplication.
pub(crate) fn pow254(a: u8) -> (r: u8)
    ensures
        r == spec_gf_inv(a),
{
    let mut r: u8 = 1;
    let mut i: usize = 0;
    while i < 254
        invariant
            i <= 254,
            r == spec_gf_pow(a, i as nat),
        decreases 254 - i,
    {
        r = gf_mul(r, a);
        i = i + 1;
        proof {
            assert(spec_gf_pow(a, i as nat) == spec_gf_mul(spec_gf_pow(a, (i - 1) as nat), a));
        }
    }
    r
}

/// Multiplicative inverse; fails on the zero element. The inverse of a
/// nonzero element is itself nonzero.
pub fn gf_inv(a: u8) -> (r: Result<u8, Error>)
    ensures
        a != 0 ==> r == Ok::<u8, Error>(spec_gf_inv(a)) && spec_gf_inv(a) != 0,
        a == 0 ==> r == Err::<u8, Error>(Error::DivideByZero),
{
    if a == 0 {
        Err(Error::DivideByZero)
    } else {
        proof {
            lemma_gf_pow_nonzero(a, 254);
        }
        Ok(pow254(a))
    }
}

/// Field division `a / b`; fails when `b` is the zero element.
pub fn gf_div(a: u8, b: u8) -> (r: Result<u8, Error>)
    ensures
        b != 0 ==> r == Ok::<u8, Error>(spec_gf_div(a, b)),
        b == 0 ==> r == Err::<u8, Error>(Error::DivideByZero),
{
    if b == 0 {
        Err(Error::DivideByZero)
    } else {
        Ok(gf_mul(a, pow254(b)))
    }
}

} // verus!
