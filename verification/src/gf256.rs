//! Field elements of GF(256) and their arithmetic.
//!
//! A `Gf256` wraps one byte. Addition and subtraction are bitwise XOR
//! (the field has characteristic 2); multiplication and division go
//! through the discrete-logarithm tables. Division by the zero element
//! and interpolation over duplicate nodes are the two domain faults,
//! reported through `GfError` rather than by aborting.

use vstd::arithmetic::div_mod::lemma_small_mod;
use vstd::prelude::*;

use crate::model::gf_add_spec;
use crate::model::gf_div_spec;
use crate::model::gf_exp_spec;
use crate::model::gf_log;
use crate::model::gf_mul_spec;
use crate::model::pow_x;
use crate::tables::Tables;
use crate::tables::lemma_log_char;
use crate::tables::lemma_pow_log;

verus! {

/// The domain faults of the field API: both indicate invalid input from
/// the caller, not a recoverable runtime condition.
#[derive(Clone, Copy, PartialEq, Eq, Structural, Debug)]
pub enum GfError {
    /// The zero element has no multiplicative inverse.
    DivisionByZero,
    /// Two interpolation nodes share an x-coordinate.
    DuplicateShares,
}

/// One element of the finite field with 256 elements, stored as the
/// byte whose bits are the coefficients of a polynomial of degree < 8
/// over GF(2).
#[derive(Clone, Copy, PartialEq, Eq, Structural, Debug)]
pub struct Gf256 {
    pub poly: u8,
}

impl Gf256 {
    /// Returns the additive neutral element of the field.
    pub fn zero() -> (r: Gf256)
        ensures
            r.poly == 0,
    {
        Gf256 { poly: 0 }
    }

    /// Returns the multiplicative neutral element of the field.
    pub fn one() -> (r: Gf256)
        ensures
            r.poly == 1,
    {
        Gf256 { poly: 1 }
    }

    /// Wraps a raw byte as a field element.
    pub fn from_byte(b: u8) -> (r: Gf256)
        ensures
            r.poly == b,
    {
        Gf256 { poly: b }
    }

    /// Extracts the raw byte of a field element.
    pub fn to_byte(&self) -> (r: u8)
        ensures
            r == self.poly,
    {
        self.poly
    }

    /// The discrete logarithm of this element with respect to the
    /// generator, or `None` for the zero element, which has none.
    pub fn log(&self, tabs: &Tables) -> (r: Option<u8>)
        requires
            tabs.wf(),
        ensures
            r is None <==> self.poly == 0,
            r matches Some(l) ==> l < 255 && l as nat == gf_log(self.poly),
    {
        if self.poly == 0 {
            None
        } else {
            proof {
                lemma_log_char(tabs, self.poly);
            }
            Some(tabs.log[self.poly as usize])
        }
    }

    /// The generator raised to the given power; the power 255 aliases
    /// the power 0, closing the multiplicative cycle of order 255.
    pub fn exp(power: u8, tabs: &Tables) -> (r: Gf256)
        requires
            tabs.wf(),
        ensures
            r.poly == gf_exp_spec(power),
    {
        proof {
            if power < 255 {
                lemma_small_mod(power as nat, 255);
            }
        }
        Gf256 { poly: tabs.exp[power as usize] }
    }

    /// Field addition: bitwise XOR of the byte representations.
    pub fn add(self, rhs: Gf256) -> (r: Gf256)
        ensures
            r.poly == gf_add_spec(self.poly, rhs.poly),
    {
        Gf256 { poly: self.poly ^ rhs.poly }
    }

    /// Field subtraction: identical to addition, because every element
    /// of a field of characteristic 2 is its own additive inverse.
    pub fn sub(self, rhs: Gf256) -> (r: Gf256)
        ensures
            r.poly == gf_add_spec(self.poly, rhs.poly),
    {
        Gf256 { poly: self.poly ^ rhs.poly }
    }

    /// Field multiplication: zero absorbs, and otherwise the discrete
    /// logarithms are added modulo the group order 255 and mapped back
    /// through the exponent table.
    pub fn mul(self, rhs: Gf256, tabs: &Tables) -> (r: Gf256)
        requires
            tabs.wf(),
        ensures
            r.poly == gf_mul_spec(self.poly, rhs.poly),
    {
        if self.poly == 0 || rhs.poly == 0 {
            Gf256 { poly: 0 }
        } else {
            proof {
                lemma_log_char(tabs, self.poly);
                lemma_log_char(tabs, rhs.poly);
            }
            let l1 = tabs.log[self.poly as usize];
            let l2 = tabs.log[rhs.poly as usize];
            let idx = ((l1 as usize) + (l2 as usize)) % 255;
            Gf256 { poly: tabs.exp[idx] }
        }
    }

    /// Field division: fails for a zero divisor, and otherwise
    /// subtracts discrete logarithms modulo the group order 255, adding
    /// the order first so the difference cannot go below zero.
    pub fn div(self, rhs: Gf256, tabs: &Tables) -> (r: Result<Gf256, GfError>)
        requires
            tabs.wf(),
        ensures
            r is Err <==> rhs.poly == 0,
            r matches Err(e) ==> e == GfError::DivisionByZero,
            r matches Ok(q) ==> q.poly == gf_div_spec(self.poly, rhs.poly),
    {
        if rhs.poly == 0 {
            Err(GfError::DivisionByZero)
        } else if self.poly == 0 {
            Ok(Gf256 { poly: 0 })
        } else {
            proof {
                lemma_log_char(tabs, self.poly);
                lemma_log_char(tabs, rhs.poly);
            }
            let l1 = tabs.log[self.poly as usize];
            let l2 = tabs.log[rhs.poly as usize];
            let idx = ((l1 as usize) + 255 - (l2 as usize)) % 255;
            Ok(Gf256 { poly: tabs.exp[idx] })
        }
    }
}

} // verus!
