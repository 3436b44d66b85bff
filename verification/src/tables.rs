//! The exponent / logarithm / inverse lookup tables for GF(256).
//!
//! The tables are a construct-once value: built from the generator's
//! power sequence, checked, and thereafter only read. Every field
//! operation takes them by shared reference, so any number of threads
//! may use one set of tables concurrently once it has been built.
//!
//! Whether the log and exp tables are mutual inverses rests on the
//! generator x being primitive for the chosen defining polynomial. That
//! number-theoretic fact is beyond the verifier, so the builder checks
//! it exhaustively at run time (512 table lookups) and reports the
//! outcome exactly: it returns `Some` if and only if the generator's
//! powers enumerate every nonzero byte, which they do for this field.

use vstd::prelude::*;

use crate::model::POLY;
use crate::model::gf_log;
use crate::model::lemma_pow_nonzero;
use crate::model::mask_spec;
use crate::model::pow_x;
use crate::model::x_is_primitive;
use crate::model::xt;

verus! {

/// Replicates the least significant bit of `bit` to every other bit.
pub fn mask(bit: u8) -> (r: u8)
    ensures
        r == mask_spec(bit),
{
    if bit & 1 == 1 {
        0xFF
    } else {
        0
    }
}

/// Multiplies a polynomial by x and returns the residue of the division
/// by the field's defining polynomial.
pub fn xtimes(poly: u8) -> (r: u8)
    ensures
        r == xt(poly),
{
    (poly << 1) ^ (mask(poly >> 7) & POLY)
}

/// `v` occurs among the generator's powers below `n`.
pub open spec fn hit_below(v: u8, n: nat) -> bool {
    exists|q: nat| q < n && #[trigger] pow_x(q) == v
}

/// The logarithm table entry for `v` points back at `v` through the
/// exponent table.
pub open spec fn log_matches(exp: Seq<u8>, log: Seq<u8>, v: u8) -> bool {
    log[v as int] < 255 && exp[log[v as int] as int] == v
}

/// Table index holding the inverse of the value whose logarithm is `l`:
/// the logarithm is negated modulo the group order 255, with the value 1
/// (logarithm 0) left as its own inverse.
pub open spec fn inv_log_index(l: u8) -> u8 {
    if l == 0 {
        0u8
    } else {
        (255 - l) as u8
    }
}

/// Lookup tables for multiplication, division and inversion in GF(256).
pub struct Tables {
    /// `exp[p]` is the generator raised to the power `p`; index 255
    /// aliases index 0, so `exp[255] == exp[0] == 1`.
    pub exp: Vec<u8>,
    /// `log[v]` is the discrete logarithm of the nonzero value `v`;
    /// the entry at 0 is unused and left at 0.
    pub log: Vec<u8>,
    /// `inv[v]` is the multiplicative inverse of the nonzero value `v`;
    /// the entry at 0 is unused and left at 0.
    pub inv: Vec<u8>,
}

impl Tables {
    /// Well-formedness: each table has 256 entries, the exponent table
    /// lists the generator's powers, the logarithm table is its exact
    /// inverse over the nonzero bytes, and the inverse table is the
    /// exponent table read at the negated logarithm.
    pub open spec fn wf(&self) -> bool {
        &&& self.exp@.len() == 256
        &&& self.log@.len() == 256
        &&& self.inv@.len() == 256
        &&& forall|p: int| 0 <= p < 255 ==> self.exp@[p] == pow_x(p as nat)
        &&& self.exp@[255] == 1u8
        &&& forall|p: int| 0 <= p < 255 ==> self.log@[#[trigger] self.exp@[p] as int] == p
        &&& self.log@[0] == 0u8
        &&& forall|v: int|
            1 <= v < 256 ==> #[trigger] self.log@[v] < 255 && self.exp@[self.log@[v] as int] == v
        &&& self.inv@[0] == 0u8
        &&& forall|v: int|
            1 <= v < 256 ==> #[trigger] self.inv@[v] == self.exp@[inv_log_index(self.log@[v]) as int]
    }

    /// Builds the tables, then checks exhaustively that the exponent and
    /// logarithm tables are mutual inverses — equivalently, that the
    /// generator is primitive. The check always succeeds for this
    /// field's defining polynomial, but that fact is taken from the
    /// check, not assumed: the result is `Some` if and only if the
    /// generator's powers enumerate every nonzero byte.
    pub fn new() -> (r: Option<Tables>)
        ensures
            r is Some <==> x_is_primitive(),
            r matches Some(t) ==> t.wf(),
    {
        let exp = build_exp();
        let log = build_log(&exp);
        if !check_log(&exp, &log) {
            return None;
        }
        let inv = build_inv(&exp, &log);
        Some(Tables { exp, log, inv })
    }
}

/// Fills the exponent table with the generator's powers, closing the
/// cycle of order 255 by aliasing index 255 to index 0.
fn build_exp() -> (exp: Vec<u8>)
    ensures
        exp@.len() == 256,
        forall|p: int| 0 <= p < 255 ==> exp@[p] == pow_x(p as nat),
        exp@[255] == 1u8,
{
    let mut exp: Vec<u8> = Vec::new();
    let mut tmp: u8 = 1;
    while exp.len() < 255
        invariant
            exp@.len() <= 255,
            tmp == pow_x(exp@.len() as nat),
            forall|p: int| 0 <= p < exp@.len() ==> exp@[p] == pow_x(p as nat),
        decreases 255 - exp@.len(),
    {
        exp.push(tmp);
        tmp = xtimes(tmp);
    }
    exp.push(1u8);
    exp
}

/// Fills the logarithm table: for each power p below 255, the entry at
/// the byte `exp[p]` is set to p, a later power overwriting an earlier
/// one if the power sequence were ever to repeat. Entries never written
/// stay 0; in particular the unused entry at 0 does, because no power of
/// the generator is zero.
fn build_log(exp: &Vec<u8>) -> (log: Vec<u8>)
    requires
        exp@.len() == 256,
        forall|p: int| 0 <= p < 255 ==> exp@[p] == pow_x(p as nat),
    ensures
        log@.len() == 256,
        forall|v: u8|
            hit_below(v, 255) ==> #[trigger] log_matches(exp@, log@, v),
        forall|v: u8| !hit_below(v, 255) ==> #[trigger] log@[v as int] == 0u8,
        log@[0] == 0u8,
{
    let mut log: Vec<u8> = Vec::new();
    while log.len() < 256
        invariant
            log@.len() <= 256,
            forall|k: int| 0 <= k < log@.len() ==> log@[k] == 0u8,
        decreases 256 - log@.len(),
    {
        log.push(0u8);
    }
    let mut p: usize = 0;
    while p < 255
        invariant
            p <= 255,
            log@.len() == 256,
            exp@.len() == 256,
            forall|k: int| 0 <= k < 255 ==> exp@[k] == pow_x(k as nat),
            forall|v: u8|
                hit_below(v, p as nat) ==> #[trigger] log_matches(exp@, log@, v),
            forall|v: u8| !hit_below(v, p as nat) ==> #[trigger] log@[v as int] == 0u8,
        decreases 255 - p,
    {
        let v = exp[p];
        let ghost old_log = log@;
        log[v as usize] = p as u8;
        proof {
            assert(pow_x(p as nat) == v);
            assert(hit_below(v, (p + 1) as nat));
            assert forall|w: u8| hit_below(w, (p + 1) as nat) implies #[trigger] log_matches(
                exp@,
                log@,
                w,
            ) by {
                if w == v {
                    assert(log@[v as int] == p as u8);
                    assert(exp@[p as int] == v);
                } else {
                    let q = choose|q: nat| q < p + 1 && #[trigger] pow_x(q) == w;
                    assert(q != p);
                    assert(hit_below(w, p as nat));
                    assert(log_matches(exp@, old_log, w));
                    assert(log@[w as int] == old_log[w as int]);
                }
            }
            assert forall|w: u8| !hit_below(w, (p + 1) as nat) implies #[trigger] log@[w as int]
                == 0u8 by {
                assert(w != v);
                assert(!hit_below(w, p as nat));
            }
        }
        p = p + 1;
    }
    proof {
        assert(!hit_below(0u8, 255)) by {
            assert forall|q: nat| q < 255 implies #[trigger] pow_x(q) != 0u8 by {
                lemma_pow_nonzero(q);
            }
        }
    }
    log
}

/// Checks that the exponent and logarithm tables invert each other over
/// the whole field: the logarithm of the p-th power is p, and every
/// nonzero byte is the power named by its logarithm. The result decides
/// the generator's primitivity exactly.
fn check_log(exp: &Vec<u8>, log: &Vec<u8>) -> (ok: bool)
    requires
        exp@.len() == 256,
        forall|p: int| 0 <= p < 255 ==> exp@[p] == pow_x(p as nat),
        log@.len() == 256,
        forall|v: u8|
            hit_below(v, 255) ==> #[trigger] log_matches(exp@, log@, v),
        forall|v: u8| !hit_below(v, 255) ==> #[trigger] log@[v as int] == 0u8,
    ensures
        ok <==> x_is_primitive(),
        ok ==> forall|p: int| 0 <= p < 255 ==> log@[#[trigger] exp@[p] as int] == p,
        ok ==> forall|v: int|
            1 <= v < 256 ==> #[trigger] log@[v] < 255 && exp@[log@[v] as int] == v,
{
    let mut p: usize = 0;
    while p < 255
        invariant
            p <= 255,
            exp@.len() == 256,
            forall|k: int| 0 <= k < 255 ==> exp@[k] == pow_x(k as nat),
            log@.len() == 256,
            forall|v: u8|
                hit_below(v, 255) ==> #[trigger] log_matches(exp@, log@, v),
            forall|k: int| 0 <= k < p ==> log@[#[trigger] exp@[k] as int] == k,
        decreases 255 - p,
    {
        let e = exp[p];
        let l = log[e as usize];
        if l as usize != p {
            proof {
                assert(pow_x(p as nat) == e);
                assert(hit_below(e, 255));
                assert(log_matches(exp@, log@, e));
                let pp = log@[e as int] as nat;
                assert(pow_x(pp) == e && pp < 255);
                assert(pp != p as nat);
                assert(!x_is_primitive());
            }
            return false;
        }
        p = p + 1;
    }
    let mut v: usize = 1;
    while v < 256
        invariant
            1 <= v <= 256,
            exp@.len() == 256,
            forall|k: int| 0 <= k < 255 ==> exp@[k] == pow_x(k as nat),
            log@.len() == 256,
            forall|w: u8|
                hit_below(w, 255) ==> #[trigger] log_matches(exp@, log@, w),
            forall|w: u8| !hit_below(w, 255) ==> #[trigger] log@[w as int] == 0u8,
            forall|k: int| 0 <= k < 255 ==> log@[#[trigger] exp@[k] as int] == k,
            forall|w: int| 1 <= w < v ==> #[trigger] log@[w] < 255 && exp@[log@[w] as int] == w,
        decreases 256 - v,
    {
        let l = log[v];
        let bad = if l >= 255 {
            true
        } else {
            let e = exp[l as usize];
            e as usize != v
        };
        if bad {
            proof {
                let vb = v as u8;
                assert(vb as int == v as int);
                assert(!(gf_log(vb) < 255 && pow_x(gf_log(vb)) == vb)) by {
                    if gf_log(vb) < 255 && pow_x(gf_log(vb)) == vb {
                        assert(hit_below(vb, 255));
                        assert(log_matches(exp@, log@, vb));
                    }
                }
                assert(!x_is_primitive());
            }
            return false;
        }
        v = v + 1;
    }
    proof {
        assert forall|p1: nat, p2: nat|
            p1 < 255 && p2 < 255 && pow_x(p1) == pow_x(p2) implies p1 == p2 by {
            assert(log@[exp@[p1 as int] as int] == p1 as int);
            assert(log@[exp@[p2 as int] as int] == p2 as int);
        }
        assert forall|w: u8| w != 0 implies #[trigger] gf_log(w) < 255 && pow_x(gf_log(w))
            == w by {
            assert(log@[w as int] < 255 && exp@[log@[w as int] as int] == w);
            assert(pow_x(log@[w as int] as nat) == w);
        }
        assert(x_is_primitive());
    }
    true
}

/// From well-formed tables: the discrete logarithm of a nonzero value
/// is the unique power below 255 reaching it, and the logarithm table
/// holds exactly that power.
pub proof fn lemma_log_char(t: &Tables, v: u8)
    requires
        t.wf(),
        v != 0,
    ensures
        gf_log(v) < 255,
        pow_x(gf_log(v)) == v,
        t.log@[v as int] == gf_log(v),
{
    let w = t.log@[v as int];
    assert(t.exp@[w as int] == v);
    assert(pow_x(w as nat) == v);
    assert(gf_log(v) < 255 && pow_x(gf_log(v)) == v) by {
        assert(exists|p: nat| p < 255 && #[trigger] pow_x(p) == v);
    }
    let l = gf_log(v);
    assert(t.exp@[l as int] == pow_x(l));
    assert(t.log@[t.exp@[l as int] as int] == l as int);
}

/// From well-formed tables: a power below 255 is nonzero, and taking
/// its logarithm gives the power back.
pub proof fn lemma_pow_log(t: &Tables, p: nat)
    requires
        t.wf(),
        p < 255,
    ensures
        pow_x(p) != 0,
        gf_log(pow_x(p)) == p,
{
    lemma_pow_nonzero(p);
    lemma_log_char(t, pow_x(p));
    assert(t.exp@[p as int] == pow_x(p));
    assert(t.log@[t.exp@[p as int] as int] == p as int);
}

/// Fills the inverse table from the exponent and logarithm tables.
fn build_inv(exp: &Vec<u8>, log: &Vec<u8>) -> (inv: Vec<u8>)
    requires
        exp@.len() == 256,
        log@.len() == 256,
        forall|v: int| 1 <= v < 256 ==> #[trigger] log@[v] < 255,
    ensures
        inv@.len() == 256,
        inv@[0] == 0u8,
        forall|v: int|
            1 <= v < 256 ==> #[trigger] inv@[v] == exp@[inv_log_index(log@[v]) as int],
{
    let mut inv: Vec<u8> = Vec::new();
    while inv.len() < 256
        invariant
            inv@.len() <= 256,
            forall|k: int| 0 <= k < inv@.len() ==> inv@[k] == 0u8,
        decreases 256 - inv@.len(),
    {
        inv.push(0u8);
    }
    let mut v: usize = 1;
    while v < 256
        invariant
            1 <= v <= 256,
            inv@.len() == 256,
            exp@.len() == 256,
            log@.len() == 256,
            forall|w: int| 1 <= w < 256 ==> #[trigger] log@[w] < 255,
            inv@[0] == 0u8,
            forall|w: int| 1 <= w < v ==> #[trigger] inv@[w] == exp@[inv_log_index(log@[w]) as int],
        decreases 256 - v,
    {
        let l = log[v];
        let nl: u8 = if l == 0 {
            0
        } else {
            255 - l
        };
        inv[v] = exp[nl as usize];
        v = v + 1;
    }
    inv
}

} // verus!
