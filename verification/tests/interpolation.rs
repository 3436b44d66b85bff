//! Run-time checks of Lagrange interpolation: round trips through
//! sampled polynomials, rejection of duplicate nodes, and the pinned
//! regression vector.

use gf256::Gf256;
use gf256::GfError;
use gf256::Tables;
use gf256::lagrange_basis;
use gf256::lagrange_interpolate;

fn tables() -> Tables {
    Tables::new().expect("the generator is primitive, so building the tables succeeds")
}

/// Evaluates the polynomial with the given coefficients (constant term
/// first) at `x`, by Horner's rule in the field.
fn eval_poly(coeffs: &[u8], x: u8, t: &Tables) -> u8 {
    let xe = Gf256::from_byte(x);
    let mut acc = Gf256::zero();
    for &c in coeffs.iter().rev() {
        acc = acc.mul(xe, t).add(Gf256::from_byte(c));
    }
    acc.to_byte()
}

#[test]
fn roundtrip_quadratic_recovers_constant_term() {
    let t = tables();
    let coeffs = [42u8, 17, 200];
    let shares: Vec<(u8, u8)> = (1..=5u8).map(|x| (x, eval_poly(&coeffs, x, &t))).collect();
    let first_three = &shares[0..3];
    assert_eq!(lagrange_interpolate(first_three, 0, &t), Ok(42));
    let spread = [shares[1], shares[3], shares[4]];
    assert_eq!(lagrange_interpolate(&spread, 0, &t), Ok(42));
    let all_five = &shares[..];
    assert_eq!(lagrange_interpolate(all_five, 0, &t), Ok(42));
}

#[test]
fn roundtrip_degree_four_recovers_constant_term() {
    let t = tables();
    let coeffs = [99u8, 1, 2, 3, 4];
    let shares: Vec<(u8, u8)> = (1..=5u8).map(|x| (x, eval_poly(&coeffs, x, &t))).collect();
    assert_eq!(lagrange_interpolate(&shares, 0, &t), Ok(99));
}

#[test]
fn roundtrip_many_constant_terms_and_points() {
    let t = tables();
    for secret in [0u8, 1, 7, 128, 255] {
        let coeffs = [secret, 3, 94];
        let shares: Vec<(u8, u8)> =
            (1..=4u8).map(|x| (x, eval_poly(&coeffs, x, &t))).collect();
        assert_eq!(lagrange_interpolate(&shares[0..3], 0, &t), Ok(secret));
        assert_eq!(lagrange_interpolate(&shares[1..4], 0, &t), Ok(secret));
    }
}

#[test]
fn roundtrip_with_every_nonzero_point() {
    let t = tables();
    let coeffs = [42u8, 17, 200];
    let shares: Vec<(u8, u8)> = (1..=255u8).map(|x| (x, eval_poly(&coeffs, x, &t))).collect();
    assert_eq!(lagrange_interpolate(&shares, 0, &t), Ok(42));
}

#[test]
fn interpolation_at_sample_point_returns_sample() {
    let t = tables();
    let coeffs = [42u8, 17, 200];
    let shares: Vec<(u8, u8)> = (1..=3u8).map(|x| (x, eval_poly(&coeffs, x, &t))).collect();
    for &(x, y) in &shares {
        assert_eq!(lagrange_interpolate(&shares, x, &t), Ok(y));
    }
}

#[test]
fn roundtrip_affine_recovers_constant_term() {
    let t = tables();
    for (a, b) in [(0u8, 0u8), (42, 17), (255, 1), (7, 0), (0, 255), (200, 200)] {
        for (x1, x2) in [(1u8, 2u8), (3, 250), (255, 254)] {
            let coeffs = [a, b];
            let pts = [(x1, eval_poly(&coeffs, x1, &t)), (x2, eval_poly(&coeffs, x2, &t))];
            assert_eq!(lagrange_interpolate(&pts, 0, &t), Ok(a));
        }
    }
}

#[test]
fn duplicate_nodes_are_rejected() {
    let t = tables();
    let pts = [(1u8, 5u8), (1u8, 9u8)];
    assert_eq!(lagrange_interpolate(&pts, 0, &t), Err(GfError::DuplicateShares));
}

#[test]
fn duplicate_nodes_among_many_are_rejected() {
    let t = tables();
    let pts = [(3u8, 5u8), (2u8, 9u8), (7u8, 1u8), (2u8, 0u8)];
    assert_eq!(lagrange_interpolate(&pts, 0, &t), Err(GfError::DuplicateShares));
}

#[test]
fn concrete_vector_is_stable() {
    let t = tables();
    let pts = [(1u8, 5u8), (2u8, 8u8), (3u8, 11u8)];
    assert_eq!(lagrange_interpolate(&pts, 0, &t), Ok(6));
}

#[test]
fn single_share_interpolates_to_its_value() {
    let t = tables();
    for &(x, y) in &[(1u8, 200u8), (17, 0), (255, 255)] {
        let pts = [(x, y)];
        for at in [0u8, 1, 9, 255] {
            assert_eq!(lagrange_interpolate(&pts, at, &t), Ok(y));
        }
    }
}

#[test]
fn empty_input_interpolates_to_zero() {
    let t = tables();
    let pts: [(u8, u8); 0] = [];
    assert_eq!(lagrange_interpolate(&pts, 0, &t), Ok(0));
}

#[test]
fn basis_values_sum_to_one_at_sample_points() {
    let t = tables();
    let pts = [(1u8, 5u8), (2u8, 8u8), (3u8, 11u8)];
    let x = Gf256::from_byte(0);
    let mut sum = Gf256::zero();
    for (i, &(xi, _)) in pts.iter().enumerate() {
        let b = lagrange_basis(&pts, x, i, Gf256::from_byte(xi), &t)
            .expect("the x-coordinates are distinct");
        sum = sum.add(b);
    }
    assert_eq!(sum.to_byte(), 1);
}

#[test]
fn basis_reports_duplicates() {
    let t = tables();
    let pts = [(1u8, 5u8), (1u8, 9u8)];
    let r = lagrange_basis(&pts, Gf256::from_byte(0), 0, Gf256::from_byte(1), &t);
    assert_eq!(r, Err(GfError::DuplicateShares));
}
