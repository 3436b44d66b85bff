//! Exhaustive run-time checks of the field arithmetic: the additive
//! laws, the multiplicative inverse, the cancellation of division
//! against multiplication, the zero rules, and the table properties.

use gf256::Gf256;
use gf256::GfError;
use gf256::Tables;

fn tables() -> Tables {
    Tables::new().expect("the generator is primitive, so building the tables succeeds")
}

#[test]
fn tables_build_succeeds() {
    assert!(Tables::new().is_some());
}

#[test]
fn add_self_is_zero_for_all_elements() {
    for a in 0..=255u8 {
        let s = Gf256::from_byte(a).add(Gf256::from_byte(a));
        assert_eq!(s.to_byte(), 0);
    }
}

#[test]
fn add_commutes_for_all_pairs() {
    for a in 0..=255u8 {
        for b in 0..=255u8 {
            let x = Gf256::from_byte(a).add(Gf256::from_byte(b));
            let y = Gf256::from_byte(b).add(Gf256::from_byte(a));
            assert_eq!(x.to_byte(), y.to_byte());
        }
    }
}

#[test]
fn add_associates_on_sampled_triples() {
    for a in (0..=255u8).step_by(5) {
        for b in (0..=255u8).step_by(7) {
            for c in (0..=255u8).step_by(11) {
                let ab_c = Gf256::from_byte(a)
                    .add(Gf256::from_byte(b))
                    .add(Gf256::from_byte(c));
                let a_bc = Gf256::from_byte(a)
                    .add(Gf256::from_byte(b).add(Gf256::from_byte(c)));
                assert_eq!(ab_c.to_byte(), a_bc.to_byte());
            }
        }
    }
}

#[test]
fn sub_equals_add_for_all_pairs() {
    for a in 0..=255u8 {
        for b in 0..=255u8 {
            let d = Gf256::from_byte(a).sub(Gf256::from_byte(b));
            let s = Gf256::from_byte(a).add(Gf256::from_byte(b));
            assert_eq!(d.to_byte(), s.to_byte());
        }
    }
}

#[test]
fn mul_by_inverse_is_one_for_all_nonzero() {
    let t = tables();
    for a in 1..=255u8 {
        let elem = Gf256::from_byte(a);
        let l = elem.log(&t).expect("nonzero elements have a logarithm");
        let inv = Gf256::exp(255 - l, &t);
        assert_eq!(elem.mul(inv, &t).to_byte(), 1);
    }
}

#[test]
fn div_cancels_mul_for_all_pairs() {
    let t = tables();
    for a in 0..=255u8 {
        for b in 1..=255u8 {
            let prod = Gf256::from_byte(a).mul(Gf256::from_byte(b), &t);
            let q = prod.div(Gf256::from_byte(b), &t).expect("nonzero divisor");
            assert_eq!(q.to_byte(), a);
        }
    }
}

#[test]
fn zero_rules() {
    let t = tables();
    for a in 0..=255u8 {
        let elem = Gf256::from_byte(a);
        assert_eq!(elem.mul(Gf256::zero(), &t).to_byte(), 0);
        assert_eq!(Gf256::zero().mul(elem, &t).to_byte(), 0);
        assert_eq!(elem.div(Gf256::zero(), &t), Err(GfError::DivisionByZero));
        if a != 0 {
            let q = Gf256::zero().div(elem, &t).expect("nonzero divisor");
            assert_eq!(q.to_byte(), 0);
        }
    }
}

#[test]
fn exp_and_log_are_mutual_inverses() {
    let t = tables();
    for v in 1..=255u8 {
        let l = Gf256::from_byte(v)
            .log(&t)
            .expect("nonzero elements have a logarithm");
        assert_eq!(Gf256::exp(l, &t).to_byte(), v);
    }
    for p in 0..=254u8 {
        let e = Gf256::exp(p, &t);
        let l = e.log(&t).expect("powers of the generator are nonzero");
        assert_eq!(l, p);
    }
}

#[test]
fn exp_table_aliases_255_to_0() {
    let t = tables();
    assert_eq!(Gf256::exp(255, &t).to_byte(), 1);
    assert_eq!(Gf256::exp(0, &t).to_byte(), 1);
}

#[test]
fn log_of_zero_is_undefined() {
    let t = tables();
    assert_eq!(Gf256::zero().log(&t), None);
}

#[test]
fn constructors_and_accessors() {
    assert_eq!(Gf256::zero().to_byte(), 0);
    assert_eq!(Gf256::one().to_byte(), 1);
    for b in 0..=255u8 {
        assert_eq!(Gf256::from_byte(b).to_byte(), b);
    }
}

#[test]
fn table_construction_is_deterministic() {
    let t1 = tables();
    let t2 = tables();
    assert_eq!(t1.exp, t2.exp);
    assert_eq!(t1.log, t2.log);
    assert_eq!(t1.inv, t2.inv);
}

#[test]
fn concrete_multiplication_vectors() {
    let t = tables();
    for p in 0..=7u8 {
        assert_eq!(Gf256::exp(p, &t).to_byte(), 1u8 << p);
    }
    assert_eq!(Gf256::exp(8, &t).to_byte(), 0x1D);
    assert_eq!(Gf256::from_byte(7).mul(Gf256::from_byte(11), &t).to_byte(), 49);
    assert_eq!(
        Gf256::from_byte(0x53).mul(Gf256::from_byte(0xCA), &t).to_byte(),
        143
    );
    let q = Gf256::one().div(Gf256::from_byte(2), &t).expect("nonzero divisor");
    assert_eq!(q.to_byte(), 142);
}

#[test]
fn one_plus_one_is_zero() {
    let c = Gf256::one().add(Gf256::one());
    assert_eq!(c.to_byte(), 0);
}
