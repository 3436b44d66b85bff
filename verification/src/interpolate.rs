//! Lagrange interpolation over GF(256).
//!
//! Given n coordinate pairs with pairwise distinct x values, the unique
//! polynomial of degree at most n-1 through them is evaluated at a
//! caller-chosen point, entirely in field arithmetic. Evaluating at
//! x = 0 recovers the polynomial's constant term — the shared secret
//! when the pairs are shares of a secret-sharing polynomial. Samples
//! that repeat an x-coordinate make the basis undefined and are
//! rejected as a domain fault.

use vstd::prelude::*;

use crate::gf256::Gf256;
use crate::gf256::GfError;
use crate::model::gf_div_spec;
use crate::model::gf_mul_spec;
use crate::model::lemma_xor_eq_zero;
use crate::tables::Tables;

verus! {

/// The partial product, over the samples below `k` other than `i`, of
/// `(x - xj) / (xi - xj)` — the first `k` steps of the Lagrange basis
/// value at `x` for the node with x-coordinate `xi`, accumulated in the
/// order the executable loop uses (multiply, then divide).
pub open spec fn basis_upto(pts: Seq<(u8, u8)>, x: u8, i: int, xi: u8, k: int) -> u8
    decreases k,
{
    if k <= 0 {
        1u8
    } else {
        let prev = basis_upto(pts, x, i, xi, k - 1);
        if k - 1 == i {
            prev
        } else {
            gf_div_spec(gf_mul_spec(prev, x ^ pts[k - 1].0), xi ^ pts[k - 1].0)
        }
    }
}

/// The partial sum, over the samples below `k`, of the basis value at
/// `x` times the sample's y value: the first `k` terms of the
/// interpolated value at `x`.
pub open spec fn interp_upto(pts: Seq<(u8, u8)>, x: u8, k: int) -> u8
    decreases k,
{
    if k <= 0 {
        0u8
    } else {
        interp_upto(pts, x, k - 1) ^ gf_mul_spec(
            basis_upto(pts, x, k - 1, pts[k - 1].0, pts.len() as int),
            pts[k - 1].1,
        )
    }
}

/// The value at `x` of the unique interpolating polynomial through all
/// the samples, as the Lagrange sum computes it.
pub open spec fn interpolate_spec(pts: Seq<(u8, u8)>, x: u8) -> u8 {
    interp_upto(pts, x, pts.len() as int)
}

/// Two distinct samples share an x-coordinate.
pub open spec fn has_duplicate(pts: Seq<(u8, u8)>) -> bool {
    exists|i: int, j: int|
        0 <= i < j < pts.len() && (#[trigger] pts[i]).0 == (#[trigger] pts[j]).0
}

/// Computes the Lagrange basis value at `x` for the node `i` with
/// x-coordinate `xi`: the product over every other sample j of
/// `(x - xj) / (xi - xj)`. A sample other than `i` whose x-coordinate
/// equals `xi` makes a basis denominator zero: that is the
/// duplicate-shares fault, reported exactly when such a sample exists.
pub fn lagrange_basis(src: &[(u8, u8)], x: Gf256, i: usize, xi: Gf256, tabs: &Tables) -> (r:
    Result<Gf256, GfError>)
    requires
        tabs.wf(),
        i < src@.len(),
    ensures
        r is Err <==> exists|j: int|
            0 <= j < src@.len() && j != i && (#[trigger] src@[j]).0 == xi.poly,
        r matches Err(e) ==> e == GfError::DuplicateShares,
        r matches Ok(b) ==> b.poly == basis_upto(src@, x.poly, i as int, xi.poly, src@.len() as int),
{
    let mut lix = Gf256::one();
    let mut j: usize = 0;
    while j < src.len()
        invariant
            tabs.wf(),
            i < src@.len(),
            j <= src@.len(),
            lix.poly == basis_upto(src@, x.poly, i as int, xi.poly, j as int),
            forall|k: int| 0 <= k < j && k != i ==> (#[trigger] src@[k]).0 != xi.poly,
        decreases src@.len() - j,
    {
        if i != j {
            let xj = Gf256::from_byte(src[j].0);
            let delta = xi.sub(xj);
            proof {
                lemma_xor_eq_zero(xi.poly, xj.poly);
            }
            if delta.to_byte() == 0 {
                return Err(GfError::DuplicateShares);
            }
            let num = lix.mul(x.sub(xj), tabs);
            lix = match num.div(delta, tabs) {
                Ok(q) => q,
                Err(_) => Gf256 { poly: 0 },
            };
        }
        j = j + 1;
    }
    Ok(lix)
}

/// Evaluates, at `raw_x`, the polynomial interpolated through the
/// coordinate pairs `src`: the sum over all samples of the sample's y
/// value times its Lagrange basis value. Fails with the
/// duplicate-shares fault exactly when two samples share an
/// x-coordinate, and otherwise returns the interpolated byte.
pub fn lagrange_interpolate(src: &[(u8, u8)], raw_x: u8, tabs: &Tables) -> (r: Result<
    u8,
    GfError,
>)
    requires
        tabs.wf(),
    ensures
        r is Err <==> has_duplicate(src@),
        r matches Err(e) ==> e == GfError::DuplicateShares,
        r matches Ok(y) ==> y == interpolate_spec(src@, raw_x),
{
    let x = Gf256::from_byte(raw_x);
    let mut sum = Gf256::zero();
    let mut i: usize = 0;
    while i < src.len()
        invariant
            tabs.wf(),
            i <= src@.len(),
            x.poly == raw_x,
            sum.poly == interp_upto(src@, raw_x, i as int),
            forall|i2: int, j2: int|
                0 <= i2 < i && 0 <= j2 < src@.len() && j2 != i2 ==> (#[trigger] src@[j2]).0 != (
                #[trigger] src@[i2]).0,
        decreases src@.len() - i,
    {
        let xi = Gf256::from_byte(src[i].0);
        let yi = Gf256::from_byte(src[i].1);
        match lagrange_basis(src, x, i, xi, tabs) {
            Ok(lix) => {
                sum = sum.add(lix.mul(yi, tabs));
            },
            Err(e) => {
                proof {
                    let j = choose|j: int|
                        0 <= j < src@.len() && j != i && (#[trigger] src@[j]).0 == xi.poly;
                    if j < i {
                        assert((src@[j]).0 == (src@[i as int]).0);
                    } else {
                        assert((src@[i as int]).0 == (src@[j]).0);
                    }
                    assert(has_duplicate(src@));
                }
                return Err(e);
            },
        }
        i = i + 1;
    }
    proof {
        if has_duplicate(src@) {
            let (di, dj) = choose|di: int, dj: int|
                0 <= di < dj < src@.len() && (#[trigger] src@[di]).0 == (#[trigger] src@[dj]).0;
            assert((src@[dj]).0 != (src@[di]).0);
        }
    }
    Ok(sum.to_byte())
}

} // verus!
