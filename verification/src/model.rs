//! Pure mathematical model of GF(256).
//!
//! A field element is a byte, read as a polynomial of degree < 8 over
//! GF(2) with the coefficients packed as bits. `pow_x(n)` is the n-th
//! power of the generator x (the byte 2), reduced modulo the field's
//! defining polynomial; `gf_log` is its partial inverse. Multiplication
//! and division are specified through the discrete logarithm, exactly as
//! the table-driven executable code computes them.

use vstd::prelude::*;

verus! {

/// Low byte of the defining polynomial x^8 + x^4 + x^3 + x^2 + 1: the
/// constant XORed in when a left shift carries out of bit 7.
pub const POLY: u8 = 0x1D;

/// Replicates the least significant bit of `bit` into every bit.
pub open spec fn mask_spec(bit: u8) -> u8 {
    if bit & 1u8 == 1u8 {
        0xFFu8
    } else {
        0u8
    }
}

/// One step of multiplication by the generator x: shift left, and if the
/// bit shifted out was set, reduce by the defining polynomial.
pub open spec fn xt(p: u8) -> u8 {
    (p << 1u8) ^ (mask_spec(p >> 7u8) & POLY)
}

/// The n-th power of the generator x.
pub open spec fn pow_x(n: nat) -> u8
    decreases n,
{
    if n == 0 {
        1u8
    } else {
        xt(pow_x((n - 1) as nat))
    }
}

/// Discrete logarithm of `v` with respect to the generator: the power
/// p < 255 with pow_x(p) == v. Meaningful only for nonzero `v`, and only
/// because the generator's powers enumerate every nonzero byte.
pub open spec fn gf_log(v: u8) -> nat {
    choose|p: nat| p < 255 && pow_x(p) == v
}

/// The generator's powers 0..255 hit every nonzero byte exactly once.
/// This is the primitivity of x for the chosen defining polynomial; the
/// table builder establishes it by an exhaustive run-time check.
pub open spec fn x_is_primitive() -> bool {
    &&& forall|p1: nat, p2: nat|
        p1 < 255 && p2 < 255 && pow_x(p1) == pow_x(p2) ==> p1 == p2
    &&& forall|v: u8| v != 0 ==> #[trigger] gf_log(v) < 255 && pow_x(gf_log(v)) == v
}

/// Field addition: XOR of the byte representations.
pub open spec fn gf_add_spec(a: u8, b: u8) -> u8 {
    a ^ b
}

/// Exponentiation of the generator by a byte-sized power; the index 255
/// aliases the index 0, closing the multiplicative cycle of order 255.
pub open spec fn gf_exp_spec(power: u8) -> u8 {
    pow_x((power as nat) % 255)
}

/// Field multiplication through discrete logarithms.
pub open spec fn gf_mul_spec(a: u8, b: u8) -> u8 {
    if a == 0 || b == 0 {
        0u8
    } else {
        pow_x((gf_log(a) + gf_log(b)) % 255)
    }
}

/// Field division through discrete logarithms; meaningful only for
/// nonzero divisors. The group order 255 is added before subtracting the
/// divisor's logarithm so the difference stays non-negative.
pub open spec fn gf_div_spec(a: u8, b: u8) -> u8 {
    if a == 0 {
        0u8
    } else {
        pow_x((((gf_log(a) + 255 - gf_log(b)) % 255) as nat))
    }
}

/// The multiplicative inverse of `a`: the generator raised to the power
/// 255 - log(a), with 255 aliasing 0 as in the exponent table.
pub open spec fn gf_inv_spec(a: u8) -> u8 {
    pow_x((((255 - gf_log(a)) % 255) as nat))
}

/// `k` applications of the multiply-by-x step to `v`: the product of
/// `v` with the k-th power of the generator, computed step by step.
pub open spec fn xpow(k: nat, v: u8) -> u8
    decreases k,
{
    if k == 0 {
        v
    } else {
        xt(xpow((k - 1) as nat, v))
    }
}

/// The multiply-by-x step is injective: it is multiplication by a
/// nonzero field element.
pub proof fn lemma_xt_injective(a: u8, b: u8)
    by (bit_vector)
    requires
        xt(a) == xt(b),
    ensures
        a == b,
{
}

/// The multiply-by-x step distributes over addition: the shift is
/// bitwise linear, and the reduction constant is XORed in exactly when
/// the top bits of the operands differ.
pub proof fn lemma_xt_distributes(u: u8, v: u8)
    by (bit_vector)
    ensures
        xt(u ^ v) == xt(u) ^ xt(v),
{
}

/// The multiply-by-x step fixes zero.
pub proof fn lemma_xt_zero()
    by (bit_vector)
    ensures
        xt(0) == 0,
{
}

/// Repeated multiplication by the generator fixes zero.
pub proof fn lemma_xpow_zero(k: nat)
    ensures
        xpow(k, 0) == 0,
    decreases k,
{
    if k > 0 {
        lemma_xpow_zero((k - 1) as nat);
        lemma_xt_zero();
    }
}

/// Repeated multiplication by the generator distributes over addition.
pub proof fn lemma_xpow_distributes(k: nat, u: u8, v: u8)
    ensures
        xpow(k, u ^ v) == xpow(k, u) ^ xpow(k, v),
    decreases k,
{
    if k > 0 {
        lemma_xpow_distributes((k - 1) as nat, u, v);
        lemma_xt_distributes(xpow((k - 1) as nat, u), xpow((k - 1) as nat, v));
    }
}

/// Two bytes XOR to zero exactly when they are equal; equivalently, in
/// a field of characteristic 2 a difference is zero exactly when the
/// operands coincide.
pub proof fn lemma_xor_eq_zero(a: u8, b: u8)
    by (bit_vector)
    ensures
        (a ^ b == 0) <==> a == b,
{
}

/// Multiplying a nonzero byte by the generator keeps it nonzero: for
/// bytes below 0x80 the shift alone cannot reach zero, and otherwise the
/// XOR with the odd constant POLY makes the result odd.
pub proof fn lemma_xt_nonzero(p: u8)
    requires
        p != 0,
    ensures
        xt(p) != 0,
{
    if p >> 7u8 & 1u8 == 1u8 {
        assert((p >> 7u8) & 1u8 == 1u8 ==> ((p << 1u8) ^ (mask_spec(p >> 7u8) & POLY)) != 0u8)
            by (bit_vector);
    } else {
        assert(p != 0 && (p >> 7u8) & 1u8 != 1u8 ==> ((p << 1u8) ^ (mask_spec(p >> 7u8) & POLY))
            != 0u8) by (bit_vector);
    }
}

/// No power of the generator is zero.
pub proof fn lemma_pow_nonzero(n: nat)
    ensures
        pow_x(n) != 0,
    decreases n,
{
    if n > 0 {
        lemma_pow_nonzero((n - 1) as nat);
        lemma_xt_nonzero(pow_x((n - 1) as nat));
    }
}

} // verus!
