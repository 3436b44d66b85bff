//! The algebraic laws of the field, stated over the mathematical model
//! and proved once and for all. The laws about multiplication and
//! division hold wherever a well-formed set of tables exists: the
//! tables witness that the generator's powers enumerate the nonzero
//! bytes, which is what makes the log/exp view of multiplication sound.

use vstd::arithmetic::div_mod::lemma_add_mod_noop;
use vstd::arithmetic::div_mod::lemma_mod_add_multiples_vanish;
use vstd::arithmetic::div_mod::lemma_mod_bound;
use vstd::arithmetic::div_mod::lemma_small_mod;
use vstd::prelude::*;

use crate::interpolate::basis_upto;
use crate::interpolate::has_duplicate;
use crate::interpolate::interp_upto;
use crate::interpolate::interpolate_spec;
use crate::model::gf_add_spec;
use crate::model::gf_div_spec;
use crate::model::gf_exp_spec;
use crate::model::gf_inv_spec;
use crate::model::gf_log;
use crate::model::gf_mul_spec;
use crate::model::lemma_xor_eq_zero;
use crate::model::pow_x;
use crate::tables::Tables;
use crate::tables::inv_log_index;
use crate::tables::lemma_log_char;
use crate::tables::lemma_pow_log;

verus! {

/// Every field element is its own additive inverse: the field has
/// characteristic 2, so adding an element to itself gives zero.
pub proof fn lemma_add_self_inverse(a: u8)
    ensures
        gf_add_spec(a, a) == 0,
{
    assert(a ^ a == 0) by (bit_vector);
}

/// Addition is commutative.
pub proof fn lemma_add_commutative(a: u8, b: u8)
    ensures
        gf_add_spec(a, b) == gf_add_spec(b, a),
{
    assert(a ^ b == b ^ a) by (bit_vector);
}

/// Addition is associative.
pub proof fn lemma_add_associative(a: u8, b: u8, c: u8)
    ensures
        gf_add_spec(gf_add_spec(a, b), c) == gf_add_spec(a, gf_add_spec(b, c)),
{
    assert((a ^ b) ^ c == a ^ (b ^ c)) by (bit_vector);
}

/// The multiplicative neutral element: multiplying by 1 on either side
/// leaves an element unchanged.
pub proof fn lemma_mul_one(tabs: &Tables, a: u8)
    requires
        tabs.wf(),
    ensures
        gf_mul_spec(1, a) == a,
        gf_mul_spec(a, 1) == a,
{
    if a != 0 {
        lemma_pow_log(tabs, 0);
        lemma_log_char(tabs, a);
        lemma_small_mod(gf_log(a), 255);
    }
}

/// Every nonzero element times its inverse is 1, where the inverse is
/// the generator raised to the power 255 - log(a) — exactly the value
/// `Gf256::exp(255 - l)` computes from the logarithm `l` of `a`.
pub proof fn lemma_mul_inverse(tabs: &Tables, a: u8)
    requires
        tabs.wf(),
        a != 0,
    ensures
        gf_mul_spec(a, gf_inv_spec(a)) == 1,
        gf_inv_spec(a) == gf_exp_spec((255 - gf_log(a)) as u8),
{
    lemma_log_char(tabs, a);
    let la = gf_log(a);
    if la == 0 {
        assert((255int - 0) % 255 == 0);
        assert(gf_inv_spec(a) == pow_x(0));
        lemma_pow_log(tabs, 0);
        lemma_small_mod(0, 255);
    } else {
        lemma_small_mod((255 - la) as nat, 255);
        assert(gf_inv_spec(a) == pow_x((255 - la) as nat));
        lemma_pow_log(tabs, (255 - la) as nat);
        assert(gf_log(gf_inv_spec(a)) == (255 - la) as nat);
        assert((la + (255 - la) as nat) % 255 == 0);
        lemma_pow_log(tabs, 0);
    }
    assert(gf_exp_spec((255 - la) as u8) == pow_x(((255 - la) as u8 as nat) % 255));
    if la == 0 {
        assert((255u8 as nat) % 255 == 0);
    } else {
        lemma_small_mod((255 - la) as nat, 255);
    }
}

/// The generator's power sequence returns to 1 after the group order.
proof fn lemma_pow_order(tabs: &Tables)
    requires
        tabs.wf(),
    ensures
        pow_x(255) == 1,
{
    let w = pow_x(255);
    crate::model::lemma_pow_nonzero(255);
    lemma_log_char(tabs, w);
    let l = gf_log(w);
    if l > 0 {
        assert(pow_x(l) == crate::model::xt(pow_x((l - 1) as nat)));
        assert(pow_x(255) == crate::model::xt(pow_x(254)));
        crate::model::lemma_xt_injective(pow_x((l - 1) as nat), pow_x(254));
        lemma_pow_log(tabs, (l - 1) as nat);
        lemma_pow_log(tabs, 254);
        assert(false);
    }
}

/// Shifting an exponent by the group order leaves the power unchanged.
proof fn lemma_pow_plus_order(tabs: &Tables, n: nat)
    requires
        tabs.wf(),
    ensures
        pow_x(n + 255) == pow_x(n),
    decreases n,
{
    if n == 0 {
        lemma_pow_order(tabs);
    } else {
        lemma_pow_plus_order(tabs, (n - 1) as nat);
        assert(pow_x(n + 255) == crate::model::xt(pow_x((n + 254) as nat)));
        assert((n - 1 + 255) as nat == (n + 254) as nat);
    }
}

/// Exponents of the generator reduce modulo the group order.
proof fn lemma_pow_mod(tabs: &Tables, n: nat)
    requires
        tabs.wf(),
    ensures
        pow_x(n) == pow_x(n % 255),
    decreases n,
{
    if n < 255 {
        lemma_small_mod(n, 255);
    } else {
        lemma_pow_plus_order(tabs, (n - 255) as nat);
        lemma_pow_mod(tabs, (n - 255) as nat);
        lemma_mod_add_multiples_vanish((n - 255) as int, 255);
    }
}

/// Multiplying nonzero elements adds their exponents.
proof fn lemma_mul_is_pow_sum(tabs: &Tables, a: u8, b: u8)
    requires
        tabs.wf(),
        a != 0,
        b != 0,
    ensures
        gf_mul_spec(a, b) == pow_x(gf_log(a) + gf_log(b)),
{
    lemma_log_char(tabs, a);
    lemma_log_char(tabs, b);
    lemma_pow_mod(tabs, gf_log(a) + gf_log(b));
}

/// A product of nonzero elements is nonzero, and its logarithm is the
/// sum of the factors' logarithms, reduced modulo the group order.
proof fn lemma_log_mul(tabs: &Tables, u: u8, v: u8)
    requires
        tabs.wf(),
        u != 0,
        v != 0,
    ensures
        gf_mul_spec(u, v) != 0,
        gf_log(gf_mul_spec(u, v)) == (gf_log(u) + gf_log(v)) % 255,
{
    lemma_log_char(tabs, u);
    lemma_log_char(tabs, v);
    lemma_mod_bound((gf_log(u) + gf_log(v)) as int, 255);
    lemma_pow_log(tabs, (gf_log(u) + gf_log(v)) % 255);
}

/// Multiplication is commutative.
pub proof fn lemma_mul_commutative(tabs: &Tables, a: u8, b: u8)
    requires
        tabs.wf(),
    ensures
        gf_mul_spec(a, b) == gf_mul_spec(b, a),
{
}

/// Multiplication is associative.
pub proof fn lemma_mul_associative(tabs: &Tables, a: u8, b: u8, c: u8)
    requires
        tabs.wf(),
    ensures
        gf_mul_spec(gf_mul_spec(a, b), c) == gf_mul_spec(a, gf_mul_spec(b, c)),
{
    if a != 0 && b != 0 && c != 0 {
        let la = gf_log(a);
        let lb = gf_log(b);
        let lc = gf_log(c);
        lemma_log_mul(tabs, a, b);
        lemma_log_mul(tabs, b, c);
        lemma_mul_is_pow_sum(tabs, gf_mul_spec(a, b), c);
        lemma_mul_is_pow_sum(tabs, a, gf_mul_spec(b, c));
        lemma_log_char(tabs, c);
        lemma_log_char(tabs, a);
        assert(gf_mul_spec(gf_mul_spec(a, b), c) == pow_x(((la + lb) % 255 + lc) as nat));
        assert(gf_mul_spec(a, gf_mul_spec(b, c)) == pow_x((la + (lb + lc) % 255) as nat));
        lemma_pow_mod(tabs, ((la + lb) % 255 + lc) as nat);
        lemma_pow_mod(tabs, (la + (lb + lc) % 255) as nat);
        lemma_small_mod(lc, 255);
        lemma_small_mod(la, 255);
        lemma_add_mod_noop(((la + lb) % 255) as int, lc as int, 255);
        lemma_add_mod_noop((la + lb) as int, lc as int, 255);
        lemma_add_mod_noop(la as int, ((lb + lc) % 255) as int, 255);
        lemma_add_mod_noop(la as int, (lb + lc) as int, 255);
        vstd::arithmetic::div_mod::lemma_mod_twice((la + lb) as int, 255);
        vstd::arithmetic::div_mod::lemma_mod_twice((lb + lc) as int, 255);
        assert(((la + lb) % 255 + lc) % 255 == (la + lb + lc) % 255);
        assert((la + (lb + lc) % 255) % 255 == (la + lb + lc) % 255);
    }
}

/// For nonzero `a`, multiplying by `a` is log(a)-fold multiplication by
/// the generator — also on the zero element, which both fix.
proof fn lemma_mul_as_xpow(tabs: &Tables, a: u8, w: u8)
    requires
        tabs.wf(),
        a != 0,
    ensures
        gf_mul_spec(a, w) == crate::model::xpow(gf_log(a), w),
{
    lemma_log_char(tabs, a);
    if w == 0 {
        crate::model::lemma_xpow_zero(gf_log(a));
    } else {
        lemma_log_char(tabs, w);
        lemma_xpow_is_pow(tabs, gf_log(a), w);
        lemma_mul_is_pow_sum(tabs, a, w);
    }
}

/// Repeated multiplication by the generator lands on the power whose
/// exponent is the count plus the start's logarithm.
proof fn lemma_xpow_is_pow(tabs: &Tables, k: nat, v: u8)
    requires
        tabs.wf(),
        v != 0,
    ensures
        crate::model::xpow(k, v) == pow_x(k + gf_log(v)),
    decreases k,
{
    lemma_log_char(tabs, v);
    if k > 0 {
        lemma_xpow_is_pow(tabs, (k - 1) as nat, v);
        assert(pow_x(k + gf_log(v)) == crate::model::xt(pow_x((k + gf_log(v) - 1) as nat)));
    }
}

/// Multiplication distributes over addition: together with the group
/// laws this makes the byte operations a field.
pub proof fn lemma_mul_distributes(tabs: &Tables, a: u8, b: u8, c: u8)
    requires
        tabs.wf(),
    ensures
        gf_mul_spec(a, b ^ c) == gf_mul_spec(a, b) ^ gf_mul_spec(a, c),
{
    if a == 0 {
        assert(0u8 ^ 0u8 == 0u8) by (bit_vector);
    } else {
        lemma_log_char(tabs, a);
        lemma_mul_as_xpow(tabs, a, b);
        lemma_mul_as_xpow(tabs, a, c);
        lemma_mul_as_xpow(tabs, a, (b ^ c));
        crate::model::lemma_xpow_distributes(gf_log(a), b, c);
    }
}

/// Division is multiplication by the divisor's inverse.
pub proof fn lemma_div_is_mul_inverse(tabs: &Tables, a: u8, b: u8)
    requires
        tabs.wf(),
        b != 0,
    ensures
        gf_div_spec(a, b) == gf_mul_spec(a, gf_inv_spec(b)),
        gf_inv_spec(b) != 0,
{
    lemma_log_char(tabs, b);
    let lb = gf_log(b);
    let e = ((255 - lb) % 255) as nat;
    lemma_mod_bound((255 - lb) as int, 255);
    lemma_pow_log(tabs, e);
    if a != 0 {
        lemma_log_char(tabs, a);
        let la = gf_log(a);
        lemma_mul_is_pow_sum(tabs, a, gf_inv_spec(b));
        lemma_pow_mod(tabs, la + e);
        lemma_pow_mod(tabs, (la + 255 - lb) as nat);
        if lb == 0 {
            assert(e == 0);
            lemma_mod_add_multiples_vanish(la as int, 255);
            lemma_small_mod(la, 255);
        } else {
            lemma_small_mod((255 - lb) as nat, 255);
        }
    }
}

/// A nonzero element divided by itself is 1.
pub proof fn lemma_div_self(tabs: &Tables, d: u8)
    requires
        tabs.wf(),
        d != 0,
    ensures
        gf_div_spec(d, d) == 1,
{
    lemma_log_char(tabs, d);
    assert((gf_log(d) + 255 - gf_log(d)) as int % 255 == 0) by {
        vstd::arithmetic::div_mod::lemma_mod_self_0(255);
    }
}

/// Dividing a product by one of its factors gives the other factor
/// back: division is the inverse of multiplication.
pub proof fn lemma_div_mul_cancel(tabs: &Tables, a: u8, b: u8)
    requires
        tabs.wf(),
        b != 0,
    ensures
        gf_div_spec(gf_mul_spec(a, b), b) == a,
{
    if a != 0 {
        lemma_log_char(tabs, a);
        lemma_log_char(tabs, b);
        let la = gf_log(a);
        let lb = gf_log(b);
        let s = la + lb;
        if s < 255 {
            lemma_small_mod(s, 255);
        } else {
            lemma_mod_add_multiples_vanish(s - 255, 255);
            lemma_small_mod((s - 255) as nat, 255);
        }
        let m = gf_mul_spec(a, b);
        assert(m == pow_x(s % 255));
        lemma_pow_log(tabs, s % 255);
        assert(gf_log(m) == s % 255);
        assert((gf_log(m) + 255 - lb) % 255 == la as int % 255) by {
            if s < 255 {
                lemma_mod_add_multiples_vanish(la as int, 255);
            }
        }
        lemma_small_mod(la, 255);
        assert(gf_div_spec(m, b) == pow_x(la));
    }
}

/// Zero absorbs multiplication, and a zero numerator gives a zero
/// quotient; dividing by the zero element is the fault the executable
/// division reports instead of returning a value.
pub proof fn lemma_zero_rules(a: u8)
    ensures
        gf_mul_spec(a, 0) == 0,
        gf_mul_spec(0, a) == 0,
        gf_div_spec(0, a) == 0,
{
}

/// The exponent and logarithm tables are mutual inverses: the logarithm
/// of the p-th power of the generator is p, and every nonzero byte is
/// the power of the generator named by its logarithm.
pub proof fn lemma_tables_mutual_inverse(tabs: &Tables)
    requires
        tabs.wf(),
    ensures
        forall|v: int|
            1 <= v < 256 ==> #[trigger] tabs.log@[v] < 255 && tabs.exp@[tabs.log@[v] as int] == v,
        forall|p: int| 0 <= p < 255 ==> tabs.log@[#[trigger] tabs.exp@[p] as int] == p,
{
}

/// Table construction is deterministic: any two well-formed sets of
/// tables have identical contents, so rebuilding them — in another
/// thread or another process — always yields the same three tables.
pub proof fn lemma_tables_deterministic(t1: &Tables, t2: &Tables)
    requires
        t1.wf(),
        t2.wf(),
    ensures
        t1.exp@ == t2.exp@,
        t1.log@ == t2.log@,
        t1.inv@ == t2.inv@,
{
    assert forall|k: int| 0 <= k < 256 implies t1.exp@[k] == t2.exp@[k] by {
        if k < 255 {
            assert(t1.exp@[k] == pow_x(k as nat));
        }
    }
    assert forall|k: int| 0 <= k < 256 implies t1.log@[k] == t2.log@[k] by {
        if k >= 1 {
            let p1 = t1.log@[k] as int;
            let p2 = t2.log@[k] as int;
            assert(t1.exp@[p1] == k && t2.exp@[p2] == k);
            assert(t1.exp@[p2] == pow_x(p2 as nat) && t2.exp@[p2] == pow_x(p2 as nat));
            assert(t1.log@[t1.exp@[p2] as int] == p2);
        }
    }
    assert forall|k: int| 0 <= k < 256 implies t1.inv@[k] == t2.inv@[k] by {
        if k >= 1 {
            assert(t1.inv@[k] == t1.exp@[inv_log_index(t1.log@[k]) as int]);
            assert(t2.inv@[k] == t2.exp@[inv_log_index(t2.log@[k]) as int]);
        }
    }
    assert(t1.exp@ =~= t2.exp@);
    assert(t1.log@ =~= t2.log@);
    assert(t1.inv@ =~= t2.inv@);
}

/// Two two-factor products of the same four nonzero elements are
/// equal: both are the generator raised to the sum of the four
/// logarithms.
proof fn lemma_mul_swap(tabs: &Tables, p: u8, q: u8, r: u8, s: u8)
    requires
        tabs.wf(),
        p != 0,
        q != 0,
        r != 0,
        s != 0,
    ensures
        gf_mul_spec(gf_mul_spec(p, q), gf_mul_spec(r, s)) == gf_mul_spec(
            gf_mul_spec(s, q),
            gf_mul_spec(r, p),
        ),
{
    let lp = gf_log(p);
    let lq = gf_log(q);
    let lr = gf_log(r);
    let ls = gf_log(s);
    lemma_log_mul(tabs, p, q);
    lemma_log_mul(tabs, r, s);
    lemma_log_mul(tabs, s, q);
    lemma_log_mul(tabs, r, p);
    lemma_mul_is_pow_sum(tabs, gf_mul_spec(p, q), gf_mul_spec(r, s));
    lemma_mul_is_pow_sum(tabs, gf_mul_spec(s, q), gf_mul_spec(r, p));
    lemma_pow_mod(tabs, ((lp + lq) % 255 + (lr + ls) % 255) as nat);
    lemma_pow_mod(tabs, ((ls + lq) % 255 + (lr + lp) % 255) as nat);
    lemma_add_mod_noop((lp + lq) as int, (lr + ls) as int, 255);
    lemma_add_mod_noop((ls + lq) as int, (lr + lp) as int, 255);
}

/// Interpolating, at zero, two shares of the polynomial a + b*x taken
/// at distinct nonzero points recovers the constant term a: the
/// secret-reconstruction round trip for a threshold of two. The same
/// round trip for higher degrees rests on the uniqueness of the
/// interpolating polynomial, which is not formalised here; the tests
/// exercise it on sampled polynomials of higher degree.
pub proof fn lemma_interpolate_affine(tabs: &Tables, a: u8, b: u8, x1: u8, x2: u8)
    requires
        tabs.wf(),
        x1 != 0,
        x2 != 0,
        x1 != x2,
    ensures
        ({
            let pts = seq![(x1, a ^ gf_mul_spec(b, x1)), (x2, a ^ gf_mul_spec(b, x2))];
            interpolate_spec(pts, 0) == a
        }),
{
    let m1 = gf_mul_spec(b, x1);
    let m2 = gf_mul_spec(b, x2);
    let y1 = a ^ m1;
    let y2 = a ^ m2;
    let pts = seq![(x1, y1), (x2, y2)];
    reveal_with_fuel(basis_upto, 4);
    reveal_with_fuel(interp_upto, 4);
    let d = x1 ^ x2;
    lemma_xor_eq_zero(x1, x2);
    assert(x2 ^ x1 == x1 ^ x2) by (bit_vector);
    assert(0u8 ^ x1 == x1 && 0u8 ^ x2 == x2) by (bit_vector);
    lemma_mul_one(tabs, x1);
    lemma_mul_one(tabs, x2);
    let b0 = gf_div_spec(x2, d);
    let b1 = gf_div_spec(x1, d);
    assert(basis_upto(pts, 0u8, 0, x1, 2) == b0);
    assert(basis_upto(pts, 0u8, 1, x2, 2) == b1);
    lemma_mul_distributes(tabs, b0, a, m1);
    lemma_mul_distributes(tabs, b1, a, m2);
    let u = gf_mul_spec(b0, a);
    let v = gf_mul_spec(b0, m1);
    let w = gf_mul_spec(b1, a);
    let z = gf_mul_spec(b1, m2);
    let t0 = gf_mul_spec(b0, y1);
    assert(0u8 ^ t0 == t0) by (bit_vector);
    assert(interp_upto(pts, 0u8, 2) == (u ^ v) ^ (w ^ z));
    assert((u ^ v) ^ (w ^ z) == (u ^ w) ^ (v ^ z)) by (bit_vector);
    // the terms carrying the constant: their basis values sum to 1
    lemma_div_is_mul_inverse(tabs, x2, d);
    lemma_div_is_mul_inverse(tabs, x1, d);
    let iv = gf_inv_spec(d);
    lemma_mul_commutative(tabs, b0, a);
    lemma_mul_commutative(tabs, b1, a);
    lemma_mul_distributes(tabs, a, b0, b1);
    lemma_mul_commutative(tabs, x2, iv);
    lemma_mul_commutative(tabs, x1, iv);
    lemma_mul_distributes(tabs, iv, x2, x1);
    assert(b0 ^ b1 == gf_mul_spec(iv, d));
    lemma_mul_commutative(tabs, iv, d);
    lemma_div_is_mul_inverse(tabs, d, d);
    lemma_div_self(tabs, d);
    lemma_mul_one(tabs, a);
    assert(u ^ w == a);
    // the terms carrying the slope cancel pairwise
    if b == 0 {
        assert(v == 0 && z == 0);
        assert(0u8 ^ 0u8 == 0u8) by (bit_vector);
    } else {
        lemma_mul_swap(tabs, x2, iv, b, x1);
        assert(v == z);
        let vv = v;
        assert(vv ^ vv == 0) by (bit_vector);
    }
    assert(a ^ 0u8 == a) by (bit_vector);
}

/// Without duplicates, any two distinct samples have distinct
/// x-coordinates.
proof fn lemma_nodes_distinct(pts: Seq<(u8, u8)>, p: int, q: int)
    requires
        !has_duplicate(pts),
        0 <= p < pts.len(),
        0 <= q < pts.len(),
        p != q,
    ensures
        pts[p].0 != pts[q].0,
{
    if pts[p].0 == pts[q].0 {
        if p < q {
            assert(0 <= p < q < pts.len() && (pts[p]).0 == (pts[q]).0);
        } else {
            assert(0 <= q < p < pts.len() && (pts[q]).0 == (pts[p]).0);
        }
    }
}

/// A basis product that has reached zero stays zero: zero absorbs both
/// the multiplication and the division of every later step.
proof fn lemma_basis_zero_stays(pts: Seq<(u8, u8)>, x: u8, i: int, xi: u8, k0: int, k: int)
    requires
        0 <= k0 <= k,
        basis_upto(pts, x, i, xi, k0) == 0,
    ensures
        basis_upto(pts, x, i, xi, k) == 0,
    decreases k,
{
    if k > k0 {
        lemma_basis_zero_stays(pts, x, i, xi, k0, k - 1);
    }
}

/// Evaluated at the x-coordinate of sample `i`, the basis value of any
/// other node `j` is zero: the factor for sample `i` has a zero
/// numerator.
proof fn lemma_basis_at_other(pts: Seq<(u8, u8)>, i: int, j: int)
    requires
        0 <= i < pts.len(),
        0 <= j < pts.len(),
        j != i,
    ensures
        basis_upto(pts, pts[i].0, j, pts[j].0, pts.len() as int) == 0,
{
    let x = pts[i].0;
    lemma_xor_eq_zero(x, pts[i].0);
    assert(basis_upto(pts, x, j, pts[j].0, i + 1) == gf_div_spec(
        gf_mul_spec(basis_upto(pts, x, j, pts[j].0, i), 0u8),
        pts[j].0 ^ pts[i].0,
    ));
    lemma_basis_zero_stays(pts, x, j, pts[j].0, i + 1, pts.len() as int);
}

/// Evaluated at its own node's x-coordinate, a basis value is one:
/// every factor is a nonzero value divided by itself.
proof fn lemma_basis_at_self(tabs: &Tables, pts: Seq<(u8, u8)>, i: int, k: int)
    requires
        tabs.wf(),
        !has_duplicate(pts),
        0 <= i < pts.len(),
        0 <= k <= pts.len(),
    ensures
        basis_upto(pts, pts[i].0, i, pts[i].0, k) == 1,
    decreases k,
{
    if k > 0 {
        lemma_basis_at_self(tabs, pts, i, k - 1);
        if k - 1 != i {
            let t = pts[i].0 ^ pts[k - 1].0;
            lemma_nodes_distinct(pts, i, k - 1);
            lemma_xor_eq_zero(pts[i].0, pts[k - 1].0);
            lemma_mul_one(tabs, t);
            lemma_div_self(tabs, t);
        }
    }
}

/// The partial Lagrange sums at the x-coordinate of sample `i`: zero
/// until the sum passes sample `i`, and that sample's y value from then
/// on, because every other node's basis value vanishes there.
proof fn lemma_interp_upto_at_node(tabs: &Tables, pts: Seq<(u8, u8)>, i: int, k: int)
    requires
        tabs.wf(),
        !has_duplicate(pts),
        0 <= i < pts.len(),
        0 <= k <= pts.len(),
    ensures
        interp_upto(pts, pts[i].0, k) == if k <= i {
            0u8
        } else {
            pts[i].1
        },
    decreases k,
{
    if k > 0 {
        lemma_interp_upto_at_node(tabs, pts, i, k - 1);
        let x = pts[i].0;
        if k - 1 == i {
            lemma_basis_at_self(tabs, pts, i, pts.len() as int);
            lemma_mul_one(tabs, pts[i].1);
            let y = pts[i].1;
            assert(0u8 ^ y == y) by (bit_vector);
        } else {
            lemma_basis_at_other(pts, i, k - 1);
            let prev = interp_upto(pts, x, k - 1);
            assert(prev ^ 0u8 == prev) by (bit_vector);
        }
    }
}

/// The interpolated polynomial passes through every sample: evaluated
/// at the x-coordinate of any sample of a duplicate-free input, the
/// Lagrange sum returns that sample's y value.
pub proof fn lemma_interpolate_at_node(tabs: &Tables, pts: Seq<(u8, u8)>, i: int)
    requires
        tabs.wf(),
        !has_duplicate(pts),
        0 <= i < pts.len(),
    ensures
        interpolate_spec(pts, pts[i].0) == pts[i].1,
{
    lemma_interp_upto_at_node(tabs, pts, i, pts.len() as int);
}

/// Interpolating through a single sample returns that sample's y value
/// at every evaluation point: the basis product is empty, so the sum is
/// the y value times 1.
pub proof fn lemma_interpolate_single(tabs: &Tables, pts: Seq<(u8, u8)>, x: u8)
    requires
        tabs.wf(),
        pts.len() == 1,
    ensures
        interpolate_spec(pts, x) == pts[0].1,
{
    reveal_with_fuel(basis_upto, 2);
    reveal_with_fuel(interp_upto, 2);
    assert(basis_upto(pts, x, 0, pts[0].0, 1) == 1);
    lemma_mul_one(tabs, pts[0].1);
    assert(interp_upto(pts, x, 1) == 0u8 ^ gf_mul_spec(basis_upto(pts, x, 0, pts[0].0, 1), pts[0].1));
    let y = pts[0].1;
    assert(0u8 ^ y == y) by (bit_vector);
}

} // verus!
