//! Exact rational arithmetic over 64-bit numerator and denominator.
//!
//! A value is a fraction `n / d` with `d >= 1`. Results are brought to a
//! smaller form with the greatest common divisor before they are stored;
//! an operation returns `None` exactly when even the reduced result does
//! not fit the 64-bit fields. The mathematical model of a value is the
//! pair [`Q`] of unbounded integers, compared with [`qeq`].

use vstd::arithmetic::div_mod::{
    lemma_add_mod_noop, lemma_fundamental_div_mod, lemma_fundamental_div_mod_converse,
    lemma_mod_multiples_basic, lemma_mod_self_0, lemma_small_mod,
};
use vstd::prelude::*;

verus! {

/// A rational number as a pair of unbounded integers (specification only).
pub struct Q {
    pub n: int,
    pub d: int,
}

/// A well-formed model has a positive denominator.
pub open spec fn qwf(q: Q) -> bool {
    q.d >= 1
}

/// Equality of the represented rational values.
pub open spec fn qeq(a: Q, b: Q) -> bool {
    a.n * b.d == b.n * a.d
}

/// `a <= b` on the represented values (valid for positive denominators).
pub open spec fn qle(a: Q, b: Q) -> bool {
    a.n * b.d <= b.n * a.d
}

/// `a < b` on the represented values (valid for positive denominators).
pub open spec fn qlt(a: Q, b: Q) -> bool {
    a.n * b.d < b.n * a.d
}

pub open spec fn qint(i: int) -> Q {
    Q { n: i, d: 1 }
}

pub open spec fn qzero() -> Q {
    qint(0)
}

pub open spec fn qadd(a: Q, b: Q) -> Q {
    Q { n: a.n * b.d + b.n * a.d, d: a.d * b.d }
}

pub open spec fn qsub(a: Q, b: Q) -> Q {
    Q { n: a.n * b.d - b.n * a.d, d: a.d * b.d }
}

pub open spec fn qmul(a: Q, b: Q) -> Q {
    Q { n: a.n * b.n, d: a.d * b.d }
}

pub open spec fn qneg(a: Q) -> Q {
    Q { n: -a.n, d: a.d }
}

/// The reciprocal, with the sign moved into the numerator.
pub open spec fn qrecip(b: Q) -> Q {
    if b.n >= 0 {
        Q { n: b.d, d: b.n }
    } else {
        Q { n: -b.d, d: -b.n }
    }
}

pub open spec fn qdiv(a: Q, b: Q) -> Q {
    qmul(a, qrecip(b))
}

pub open spec fn qmin(a: Q, b: Q) -> Q {
    if qle(a, b) {
        a
    } else {
        b
    }
}

pub open spec fn qmax(a: Q, b: Q) -> Q {
    if qle(a, b) {
        b
    } else {
        a
    }
}

pub open spec fn qabs(x: int) -> int {
    if x < 0 {
        -x
    } else {
        x
    }
}

/// Greatest common divisor of two natural numbers by Euclid's rule.
pub open spec fn gcdn(a: nat, b: nat) -> nat
    decreases b,
{
    if b == 0 {
        a
    } else {
        gcdn(b, a % b)
    }
}

/// The bound of the stored fields: `i64::MAX`.
pub open spec fn fit_bound() -> int {
    0x7fff_ffff_ffff_ffff
}

/// The pair fits the stored 64-bit fields as it stands.
pub open spec fn qfits(q: Q) -> bool {
    &&& -fit_bound() <= q.n <= fit_bound()
    &&& 1 <= q.d <= fit_bound()
}

/// The pair brought to a smaller form with the greatest common divisor.
pub open spec fn qreduce(q: Q) -> Q
    recommends
        qwf(q),
{
    let g = gcdn(qabs(q.n) as nat, q.d as nat) as int;
    Q { n: q.n / g, d: q.d / g }
}

/// The rational value of the pair can be stored: its reduced form fits.
pub open spec fn representable(q: Q) -> bool {
    qwf(q) && qfits(qreduce(q))
}

proof fn lemma_mod_of_zero(g: int)
    requires
        g >= 1,
    ensures
        0int % g == 0,
{
    lemma_small_mod(0, g as nat);
}

/// A multiple of a multiple of `g` is a multiple of `g`.
proof fn lemma_dvd_mul(x: int, y: int, g: int)
    requires
        g >= 1,
        x % g == 0,
    ensures
        (x * y) % g == 0,
{
    lemma_fundamental_div_mod(x, g);
    assert(x * y == ((x / g) * y) * g) by (nonlinear_arith)
        requires
            x == g * (x / g) + x % g,
            x % g == 0,
    ;
    lemma_mod_multiples_basic((x / g) * y, g);
}

proof fn lemma_dvd_sum(x: int, y: int, g: int)
    requires
        g >= 1,
        x % g == 0,
        y % g == 0,
    ensures
        (x + y) % g == 0,
{
    lemma_add_mod_noop(x, y, g);
    lemma_mod_of_zero(g);
}

/// Euclid's rule yields a positive common divisor of both arguments,
/// no larger than either positive argument.
proof fn lemma_gcdn_props(a: nat, b: nat)
    ensures
        a > 0 || b > 0 ==> gcdn(a, b) >= 1,
        gcdn(a, b) >= 1 ==> a % gcdn(a, b) == 0 && b % gcdn(a, b) == 0,
        b > 0 ==> gcdn(a, b) <= b,
        a > 0 && gcdn(a, b) >= 1 ==> gcdn(a, b) <= a,
    decreases b,
{
    if b == 0 {
        if a > 0 {
            lemma_mod_self_0(a as int);
            lemma_mod_of_zero(a as int);
        }
    } else {
        let r = a % b;
        lemma_gcdn_props(b, r);
        let g = gcdn(b, r);
        assert(g >= 1);
        assert(b % g == 0);
        assert(r % g == 0) by {
            if r > 0 {
            } else {
                lemma_mod_of_zero(g as int);
            }
        }
        lemma_fundamental_div_mod(a as int, b as int);
        lemma_dvd_mul(b as int, a as int / b as int, g as int);
        lemma_dvd_sum(b as int * (a as int / b as int), r as int, g as int);
        assert(a as int == b as int * (a as int / b as int) + r);
        if a > 0 {
            assert(g <= a) by {
                lemma_fundamental_div_mod(a as int, g as int);
                let k = a as int / g as int;
                assert(a as int == g * k);
                assert(k >= 1 && g * k >= g) by (nonlinear_arith)
                    requires
                        g >= 1,
                        a as int == g * k,
                        a > 0,
                ;
            }
        }
    }
}

/// Exact division: the quotient of a nonnegative multiple keeps its
/// bounds, and the quotient of its negation is the negated quotient.
proof fn lemma_exact_div_nonneg(x: int, g: int)
    requires
        g >= 1,
        x >= 0,
        x % g == 0,
    ensures
        0 <= x / g <= x,
        x == g * (x / g),
{
    lemma_fundamental_div_mod(x, g);
    assert(0 <= x / g <= x) by (nonlinear_arith)
        requires
            g >= 1,
            x >= 0,
            x == g * (x / g),
    ;
}

proof fn lemma_exact_div_neg(x: int, g: int)
    requires
        g >= 1,
        x >= 0,
        x % g == 0,
    ensures
        (-x) / g == -(x / g),
        (-x) % g == 0,
{
    lemma_exact_div_nonneg(x, g);
    assert(-x == g * (-(x / g)) + 0) by (nonlinear_arith)
        requires
            x == g * (x / g),
    ;
    lemma_fundamental_div_mod_converse(-x, g, -(x / g), 0);
}

/// Reduction keeps the value, keeps well-formedness, and never grows
/// numerator or denominator.
pub proof fn lemma_qreduce_props(q: Q)
    requires
        qwf(q),
    ensures
        qwf(qreduce(q)),
        qeq(qreduce(q), q),
        qeq(q, qreduce(q)),
        qreduce(q).d <= q.d,
        qabs(qreduce(q).n) <= qabs(q.n),
        q.n >= 0 ==> qreduce(q).n >= 0,
        q.n < 0 ==> qreduce(q).n < 0,
        q.n == 0 ==> qreduce(q).n == 0,
{
    let a = qabs(q.n);
    let g = gcdn(a as nat, q.d as nat) as int;
    lemma_gcdn_props(a as nat, q.d as nat);
    assert(g >= 1);
    lemma_exact_div_nonneg(q.d, g);
    let rd = q.d / g;
    assert(rd >= 1) by (nonlinear_arith)
        requires
            g >= 1,
            q.d >= 1,
            q.d == g * rd,
    ;
    lemma_exact_div_nonneg(a, g);
    let ra = a / g;
    if q.n < 0 {
        lemma_exact_div_neg(a, g);
        assert(qreduce(q).n == -ra);
        assert(ra >= 1) by (nonlinear_arith)
            requires
                g >= 1,
                a == g * ra,
                a >= 1,
        ;
        assert((-ra) * q.d == q.n * rd) by (nonlinear_arith)
            requires
                a == g * ra,
                q.d == g * rd,
                q.n == -a,
        ;
    } else {
        assert(ra * q.d == q.n * rd) by (nonlinear_arith)
            requires
                a == g * ra,
                q.d == g * rd,
                q.n == a,
        ;
    }
}

/// A pair that already fits stays fitting after reduction.
pub proof fn lemma_fits_representable(q: Q)
    requires
        qwf(q),
        qfits(q),
    ensures
        representable(q),
{
    lemma_qreduce_props(q);
}

/// Bound of a product from bounds of the factors.
pub proof fn lemma_mul_bound(x: int, y: int, bx: int, by: int)
    by (nonlinear_arith)
    requires
        -bx <= x <= bx,
        0 <= y <= by,
        0 <= bx,
    ensures
        -(bx * by) <= x * y <= bx * by,
{
}

/// The product of two positive factors is positive.
pub proof fn lemma_mul_pos(x: int, y: int)
    by (nonlinear_arith)
    requires
        x >= 1,
        y >= 1,
    ensures
        x * y >= 1,
{
}

/// The value order is transitive over well-formed pairs.
pub proof fn lemma_qle_trans(a: Q, b: Q, c: Q)
    by (nonlinear_arith)
    requires
        qwf(a),
        qwf(b),
        qwf(c),
        qle(a, b),
        qle(b, c),
    ensures
        qle(a, c),
{
}

/// Value equality composes through a well-formed middle pair.
pub proof fn lemma_qeq_trans_mid(a: Q, b: Q, c: Q)
    by (nonlinear_arith)
    requires
        qwf(b),
        qeq(a, b),
        qeq(b, c),
    ensures
        qeq(a, c),
{
}

/// Value equality is transitive over well-formed pairs.
pub proof fn lemma_qeq_trans(a: Q, b: Q, c: Q)
    by (nonlinear_arith)
    requires
        qwf(a),
        qwf(b),
        qwf(c),
        qeq(a, b),
        qeq(b, c),
    ensures
        qeq(a, c),
{
}

/// One-sided congruence of addition, the shared summand fixed.
#[verifier::rlimit(50)]
proof fn lemma_qadd_congr_left(a1: Q, a2: Q, b: Q)
    requires
        qwf(a1),
        qwf(a2),
        qwf(b),
        qeq(a1, a2),
    ensures
        qeq(qadd(a1, b), qadd(a2, b)),
{
    let x1 = a1.n;
    let d1 = a1.d;
    let x2 = a2.n;
    let d2 = a2.d;
    let y = b.n;
    let e = b.d;
    assert((x1 * d2) * (e * e) == (x2 * d1) * (e * e));
    assert((x1 * e + y * d1) * (d2 * e) == (x1 * e) * (d2 * e) + (y * d1) * (d2 * e))
        by (nonlinear_arith);
    assert((x1 * e) * (d2 * e) == (x1 * d2) * (e * e)) by (nonlinear_arith);
    assert((y * d1) * (d2 * e) == (y * e) * (d1 * d2)) by (nonlinear_arith);
    assert((x2 * e + y * d2) * (d1 * e) == (x2 * e) * (d1 * e) + (y * d2) * (d1 * e))
        by (nonlinear_arith);
    assert((x2 * e) * (d1 * e) == (x2 * d1) * (e * e)) by (nonlinear_arith);
    assert((y * d2) * (d1 * e) == (y * e) * (d1 * d2)) by (nonlinear_arith);
}

/// Negation respects value equality.
pub proof fn lemma_qneg_congr(a1: Q, a2: Q)
    by (nonlinear_arith)
    requires
        qeq(a1, a2),
    ensures
        qeq(qneg(a1), qneg(a2)),
{
}

/// Subtracting is adding the negation.
proof fn lemma_qsub_is_add_neg(a: Q, b: Q)
    by (nonlinear_arith)
    ensures
        qsub(a, b) == qadd(a, qneg(b)),
{
}

/// Addition respects value equality.
pub proof fn lemma_qadd_congr(a1: Q, a2: Q, b1: Q, b2: Q)
    requires
        qwf(a1),
        qwf(a2),
        qwf(b1),
        qwf(b2),
        qeq(a1, a2),
        qeq(b1, b2),
    ensures
        qeq(qadd(a1, b1), qadd(a2, b2)),
{
    lemma_qadd_congr_left(a1, a2, b1);
    lemma_qadd_congr_left(b1, b2, a2);
    lemma_mul_pos(a1.d, b1.d);
    lemma_mul_pos(a2.d, b1.d);
    lemma_mul_pos(a2.d, b2.d);
    lemma_qeq_trans(qadd(a1, b1), qadd(a2, b1), qadd(a2, b2));
}

/// Subtraction respects value equality.
pub proof fn lemma_qsub_congr(a1: Q, a2: Q, b1: Q, b2: Q)
    requires
        qwf(a1),
        qwf(a2),
        qwf(b1),
        qwf(b2),
        qeq(a1, a2),
        qeq(b1, b2),
    ensures
        qeq(qsub(a1, b1), qsub(a2, b2)),
{
    lemma_qsub_is_add_neg(a1, b1);
    lemma_qsub_is_add_neg(a2, b2);
    lemma_qneg_congr(b1, b2);
    lemma_qadd_congr(a1, a2, qneg(b1), qneg(b2));
}

/// Multiplication respects value equality.
#[verifier::rlimit(50)]
pub proof fn lemma_qmul_congr(a1: Q, a2: Q, b1: Q, b2: Q)
    requires
        qwf(a1),
        qwf(a2),
        qwf(b1),
        qwf(b2),
        qeq(a1, a2),
        qeq(b1, b2),
    ensures
        qeq(qmul(a1, b1), qmul(a2, b2)),
{
    assert((a1.n * a2.d) * (b1.n * b2.d) == (a2.n * a1.d) * (b2.n * b1.d)) by (nonlinear_arith)
        requires
            a1.n * a2.d == a2.n * a1.d,
            b1.n * b2.d == b2.n * b1.d,
    ;
    assert(qeq(qmul(a1, b1), qmul(a2, b2))) by (nonlinear_arith)
        requires
            (a1.n * a2.d) * (b1.n * b2.d) == (a2.n * a1.d) * (b2.n * b1.d),
    ;
}

/// The reciprocal respects value equality (for nonzero values).
pub proof fn lemma_qrecip_congr(b1: Q, b2: Q)
    by (nonlinear_arith)
    requires
        qwf(b1),
        qwf(b2),
        b1.n != 0,
        b2.n != 0,
        qeq(b1, b2),
    ensures
        qeq(qrecip(b1), qrecip(b2)),
        qwf(qrecip(b1)),
{
}

/// Division respects value equality (for nonzero divisors).
pub proof fn lemma_qdiv_congr(a1: Q, a2: Q, b1: Q, b2: Q)
    requires
        qwf(a1),
        qwf(a2),
        qwf(b1),
        qwf(b2),
        b1.n != 0,
        b2.n != 0,
        qeq(a1, a2),
        qeq(b1, b2),
    ensures
        qeq(qdiv(a1, b1), qdiv(a2, b2)),
{
    lemma_qrecip_congr(b1, b2);
    lemma_qmul_congr(a1, a2, qrecip(b1), qrecip(b2));
}

/// The order relations respect value equality.
pub proof fn lemma_qle_congr(a1: Q, a2: Q, b1: Q, b2: Q)
    by (nonlinear_arith)
    requires
        qwf(a1),
        qwf(a2),
        qwf(b1),
        qwf(b2),
        qeq(a1, a2),
        qeq(b1, b2),
    ensures
        qle(a1, b1) == qle(a2, b2),
        qlt(a1, b1) == qlt(a2, b2),
{
}

/// The arithmetic operations keep denominators positive.
pub proof fn lemma_qwf_ops(a: Q, b: Q)
    by (nonlinear_arith)
    requires
        qwf(a),
        qwf(b),
    ensures
        qwf(qadd(a, b)),
        qwf(qsub(a, b)),
        qwf(qmul(a, b)),
        qwf(qneg(a)),
        b.n != 0 ==> qwf(qdiv(a, b)),
{
}

/// A positive times a positive is positive.
pub proof fn lemma_qmul_pos_pos(a: Q, b: Q)
    by (nonlinear_arith)
    requires
        qwf(a),
        qwf(b),
        qlt(qzero(), a),
        qlt(qzero(), b),
    ensures
        qlt(qzero(), qmul(a, b)),
        qwf(qmul(a, b)),
{
}

/// The reciprocal of a positive is positive.
pub proof fn lemma_qrecip_pos(b: Q)
    by (nonlinear_arith)
    requires
        qwf(b),
        qlt(qzero(), b),
    ensures
        qwf(qrecip(b)),
        qlt(qzero(), qrecip(b)),
        qrecip(b).n >= 1,
{
}

/// Equal values have numerators of the same sign.
pub proof fn lemma_qeq_sign(a: Q, b: Q)
    by (nonlinear_arith)
    requires
        qwf(a),
        qwf(b),
        qeq(a, b),
    ensures
        (a.n > 0) == (b.n > 0),
        (a.n < 0) == (b.n < 0),
        (a.n == 0) == (b.n == 0),
{
}

/// Adding and then subtracting the same value cancels.
pub proof fn lemma_qadd_sub_cancel(m: Q, o: Q)
    requires
        qwf(m),
        qwf(o),
    ensures
        qeq(qsub(qadd(m, o), o), m),
{
    let a = qadd(m, o);
    let s = qsub(a, o);
    assert(s.n == (m.n * (o.d * o.d)) && s.d == (m.d * o.d) * o.d) by (nonlinear_arith)
        requires
            s.n == (m.n * o.d + o.n * m.d) * o.d - o.n * (m.d * o.d),
            s.d == (m.d * o.d) * o.d,
    ;
    assert(s.n * m.d == m.n * s.d) by (nonlinear_arith)
        requires
            s.n == m.n * (o.d * o.d),
            s.d == (m.d * o.d) * o.d,
    ;
}

/// Multiplying and then dividing by the same nonzero value cancels.
pub proof fn lemma_qmul_div_cancel(s: Q, x: Q)
    requires
        qwf(s),
        qwf(x),
        s.n != 0,
    ensures
        qeq(qdiv(qmul(s, x), s), x),
{
    let m = qmul(s, x);
    let r = qrecip(s);
    let d = qmul(m, r);
    assert(d.n * x.d == x.n * d.d) by (nonlinear_arith)
        requires
            d.n == (s.n * x.n) * r.n,
            d.d == (s.d * x.d) * r.d,
            (s.n >= 0 ==> r.n == s.d && r.d == s.n) && (s.n < 0 ==> r.n == -s.d && r.d == -s.n),
    ;
}

/// Adding a common term to both sides leaves the difference unchanged.
pub proof fn lemma_qsub_add_common(a: Q, b: Q, o: Q)
    requires
        qwf(a),
        qwf(b),
        qwf(o),
    ensures
        qeq(qsub(qadd(a, o), qadd(b, o)), qsub(a, b)),
{
    let x = qsub(qadd(a, o), qadd(b, o));
    let k = a.n * b.d - b.n * a.d;
    assert((a.n * o.d + o.n * a.d) * (b.d * o.d) == (a.n * o.d) * (b.d * o.d) + (o.n * a.d) * (b.d
        * o.d)) by (nonlinear_arith);
    assert((a.n * o.d) * (b.d * o.d) == (a.n * b.d) * (o.d * o.d)) by (nonlinear_arith);
    assert((o.n * a.d) * (b.d * o.d) == (o.n * o.d) * (a.d * b.d)) by (nonlinear_arith);
    assert((b.n * o.d + o.n * b.d) * (a.d * o.d) == (b.n * o.d) * (a.d * o.d) + (o.n * b.d) * (a.d
        * o.d)) by (nonlinear_arith);
    assert((b.n * o.d) * (a.d * o.d) == (b.n * a.d) * (o.d * o.d)) by (nonlinear_arith);
    assert((o.n * b.d) * (a.d * o.d) == (o.n * o.d) * (a.d * b.d)) by (nonlinear_arith);
    assert(x.n == (a.n * b.d) * (o.d * o.d) - (b.n * a.d) * (o.d * o.d));
    assert(x.n == (o.d * o.d) * k) by (nonlinear_arith)
        requires
            x.n == (a.n * b.d) * (o.d * o.d) - (b.n * a.d) * (o.d * o.d),
            k == a.n * b.d - b.n * a.d,
    ;
    assert(x.n * (a.d * b.d) == k * x.d) by (nonlinear_arith)
        requires
            x.n == (o.d * o.d) * k,
            x.d == (a.d * o.d) * (b.d * o.d),
    ;
}

/// A common factor distributes over a difference.
pub proof fn lemma_qmul_sub_dist(s: Q, a: Q, b: Q)
    requires
        qwf(s),
        qwf(a),
        qwf(b),
    ensures
        qeq(qsub(qmul(s, a), qmul(s, b)), qmul(s, qsub(a, b))),
{
    let x = qsub(qmul(s, a), qmul(s, b));
    let k = a.n * b.d - b.n * a.d;
    assert((s.n * a.n) * (s.d * b.d) == (s.n * s.d) * (a.n * b.d)) by (nonlinear_arith);
    assert((s.n * b.n) * (s.d * a.d) == (s.n * s.d) * (b.n * a.d)) by (nonlinear_arith);
    assert(x.n == (s.n * s.d) * (a.n * b.d) - (s.n * s.d) * (b.n * a.d));
    assert(x.n == (s.n * s.d) * k) by (nonlinear_arith)
        requires
            x.n == (s.n * s.d) * (a.n * b.d) - (s.n * s.d) * (b.n * a.d),
            k == a.n * b.d - b.n * a.d,
    ;
    assert(x.n * (s.d * (a.d * b.d)) == (s.n * k) * x.d) by (nonlinear_arith)
        requires
            x.n == (s.n * s.d) * k,
            x.d == (s.d * a.d) * (s.d * b.d),
    ;
}

/// Two sign flips cancel in a product.
pub proof fn lemma_qmul_neg_neg(s: Q, v: Q)
    by (nonlinear_arith)
    ensures
        qmul(qneg(s), qneg(v)) == qmul(s, v),
{
}

/// Negating the order of a difference negates its value.
pub proof fn lemma_qsub_flip(a: Q, b: Q)
    by (nonlinear_arith)
    ensures
        qsub(a, b) == qneg(qsub(b, a)),
{
}

/// A stored sum equals the ideal sum of values the operands stand for.
pub proof fn lemma_reduced_add_eq(x: Q, y: Q, gx: Q, gy: Q)
    requires
        qwf(x),
        qwf(y),
        qwf(gx),
        qwf(gy),
        qeq(x, gx),
        qeq(y, gy),
    ensures
        qwf(qadd(x, y)),
        qwf(qadd(gx, gy)),
        qwf(qreduce(qadd(x, y))),
        qeq(qreduce(qadd(x, y)), qadd(gx, gy)),
{
    lemma_mul_pos(x.d, y.d);
    lemma_mul_pos(gx.d, gy.d);
    lemma_qreduce_props(qadd(x, y));
    lemma_qadd_congr(x, gx, y, gy);
    lemma_qeq_trans(qreduce(qadd(x, y)), qadd(x, y), qadd(gx, gy));
}

/// A stored difference equals the ideal difference.
pub proof fn lemma_reduced_sub_eq(x: Q, y: Q, gx: Q, gy: Q)
    requires
        qwf(x),
        qwf(y),
        qwf(gx),
        qwf(gy),
        qeq(x, gx),
        qeq(y, gy),
    ensures
        qwf(qsub(x, y)),
        qwf(qsub(gx, gy)),
        qwf(qreduce(qsub(x, y))),
        qeq(qreduce(qsub(x, y)), qsub(gx, gy)),
{
    lemma_mul_pos(x.d, y.d);
    lemma_mul_pos(gx.d, gy.d);
    lemma_qreduce_props(qsub(x, y));
    lemma_qsub_congr(x, gx, y, gy);
    lemma_qeq_trans(qreduce(qsub(x, y)), qsub(x, y), qsub(gx, gy));
}

/// A stored product equals the ideal product.
pub proof fn lemma_reduced_mul_eq(x: Q, y: Q, gx: Q, gy: Q)
    requires
        qwf(x),
        qwf(y),
        qwf(gx),
        qwf(gy),
        qeq(x, gx),
        qeq(y, gy),
    ensures
        qwf(qmul(x, y)),
        qwf(qmul(gx, gy)),
        qwf(qreduce(qmul(x, y))),
        qeq(qreduce(qmul(x, y)), qmul(gx, gy)),
{
    lemma_mul_pos(x.d, y.d);
    lemma_mul_pos(gx.d, gy.d);
    lemma_qreduce_props(qmul(x, y));
    lemma_qmul_congr(x, gx, y, gy);
    lemma_qeq_trans(qreduce(qmul(x, y)), qmul(x, y), qmul(gx, gy));
}

/// A stored quotient equals the ideal quotient (nonzero divisors).
pub proof fn lemma_reduced_div_eq(x: Q, y: Q, gx: Q, gy: Q)
    requires
        qwf(x),
        qwf(y),
        qwf(gx),
        qwf(gy),
        y.n != 0,
        gy.n != 0,
        qeq(x, gx),
        qeq(y, gy),
    ensures
        qwf(qdiv(x, y)),
        qwf(qdiv(gx, gy)),
        qwf(qreduce(qdiv(x, y))),
        qeq(qreduce(qdiv(x, y)), qdiv(gx, gy)),
{
    lemma_qrecip_congr(y, gy);
    lemma_qrecip_congr(gy, y);
    lemma_mul_pos(x.d, qrecip(y).d);
    lemma_mul_pos(gx.d, qrecip(gy).d);
    lemma_qreduce_props(qdiv(x, y));
    lemma_qdiv_congr(x, gx, y, gy);
    lemma_qeq_trans(qreduce(qdiv(x, y)), qdiv(x, y), qdiv(gx, gy));
}

fn gcd_i128(a: i128, b: i128) -> (g: i128)
    requires
        0 <= a,
        0 <= b,
    ensures
        g == gcdn(a as nat, b as nat),
{
    let mut x = a;
    let mut y = b;
    while y != 0
        invariant
            0 <= x,
            0 <= y,
            gcdn(x as nat, y as nat) == gcdn(a as nat, b as nat),
        decreases y,
    {
        let r = x % y;
        x = y;
        y = r;
    }
    x
}

/// An exact rational number with 64-bit numerator and denominator.
#[derive(Clone, Copy, Debug)]
pub struct Rat {
    n: i64,
    d: i64,
}

impl View for Rat {
    type V = Q;

    closed spec fn view(&self) -> Q {
        Q { n: self.n as int, d: self.d as int }
    }
}

/// Reduce a wide intermediate result and store it if it fits.
fn reduce_i128(num: i128, den: i128) -> (r: Option<Rat>)
    requires
        1 <= den,
        -0x7fff_ffff_ffff_ffff_ffff_ffff_ffff_ffff <= num,
    ensures
        r matches Some(v) ==> v.wf() && v@ == qreduce(Q { n: num as int, d: den as int }),
        (r is Some) == qfits(qreduce(Q { n: num as int, d: den as int })),
{
    let ghost q = Q { n: num as int, d: den as int };
    proof {
        lemma_qreduce_props(q);
    }
    let a: i128 = if num < 0 {
        -num
    } else {
        num
    };
    let g = gcd_i128(a, den);
    proof {
        lemma_gcdn_props(a as nat, den as nat);
        lemma_exact_div_nonneg(a as int, g as int);
        lemma_exact_div_nonneg(den as int, g as int);
        if num < 0 {
            lemma_exact_div_neg(a as int, g as int);
        }
    }
    let ra = a / g;
    let rd = den / g;
    if ra <= 0x7fff_ffff_ffff_ffff && rd <= 0x7fff_ffff_ffff_ffff {
        let n64: i64 = if num < 0 {
            -(ra as i64)
        } else {
            ra as i64
        };
        Some(Rat { n: n64, d: rd as i64 })
    } else {
        None
    }
}

impl Rat {
    /// The stored fields are within the 64-bit bounds and the
    /// denominator is positive.
    pub open spec fn wf(&self) -> bool {
        qfits(self@)
    }

    /// Build `n / d` from integer parts.
    pub fn new(n: i64, d: i64) -> (r: Rat)
        requires
            1 <= d,
            n != i64::MIN,
        ensures
            r.wf(),
            r@ == qreduce(Q { n: n as int, d: d as int }),
            qeq(r@, Q { n: n as int, d: d as int }),
    {
        proof {
            let q = Q { n: n as int, d: d as int };
            lemma_fits_representable(q);
            lemma_qreduce_props(q);
        }
        reduce_i128(n as i128, d as i128).unwrap()
    }

    /// A whole number.
    pub fn from_int(n: i64) -> (r: Rat)
        requires
            n != i64::MIN,
        ensures
            r.wf(),
            r@ == qint(n as int),
    {
        Rat { n, d: 1 }
    }

    /// One tenth.
    pub fn tenth() -> (r: Rat)
        ensures
            r.wf(),
            r@ == (Q { n: 1, d: 10 }),
    {
        Rat { n: 1, d: 10 }
    }

    /// One half.
    pub fn half() -> (r: Rat)
        ensures
            r.wf(),
            r@ == (Q { n: 1, d: 2 }),
    {
        Rat { n: 1, d: 2 }
    }

    /// Zero.
    pub fn zero() -> (r: Rat)
        ensures
            r.wf(),
            r@ == qzero(),
    {
        Rat { n: 0, d: 1 }
    }

    /// The stored numerator (the value is `num / den`, reduced).
    pub fn num(&self) -> (r: i64)
        ensures
            r == self@.n,
    {
        self.n
    }

    /// The stored denominator.
    pub fn den(&self) -> (r: i64)
        ensures
            r == self@.d,
    {
        self.d
    }

    /// Exact sum, `None` when the reduced result does not fit.
    pub fn try_add(&self, other: &Rat) -> (r: Option<Rat>)
        requires
            self.wf(),
            other.wf(),
        ensures
            r matches Some(v) ==> v.wf() && v@ == qreduce(qadd(self@, other@)) && qeq(
                v@,
                qadd(self@, other@),
            ),
            (r is Some) == representable(qadd(self@, other@)),
    {
        proof {
            lemma_mul_bound(self@.n, other@.d, fit_bound(), fit_bound());
            lemma_mul_bound(other@.n, self@.d, fit_bound(), fit_bound());
            lemma_mul_bound(self@.d, other@.d, fit_bound(), fit_bound());
            lemma_mul_pos(self@.d, other@.d);
            lemma_qreduce_props(qadd(self@, other@));
        }
        let num: i128 = (self.n as i128) * (other.d as i128) + (other.n as i128) * (self.d
            as i128);
        let den: i128 = (self.d as i128) * (other.d as i128);
        reduce_i128(num, den)
    }

    /// Exact difference, `None` when the reduced result does not fit.
    pub fn try_sub(&self, other: &Rat) -> (r: Option<Rat>)
        requires
            self.wf(),
            other.wf(),
        ensures
            r matches Some(v) ==> v.wf() && v@ == qreduce(qsub(self@, other@)) && qeq(
                v@,
                qsub(self@, other@),
            ),
            (r is Some) == representable(qsub(self@, other@)),
    {
        proof {
            lemma_mul_bound(self@.n, other@.d, fit_bound(), fit_bound());
            lemma_mul_bound(other@.n, self@.d, fit_bound(), fit_bound());
            lemma_mul_bound(self@.d, other@.d, fit_bound(), fit_bound());
            lemma_mul_pos(self@.d, other@.d);
            lemma_qreduce_props(qsub(self@, other@));
        }
        let num: i128 = (self.n as i128) * (other.d as i128) - (other.n as i128) * (self.d
            as i128);
        let den: i128 = (self.d as i128) * (other.d as i128);
        reduce_i128(num, den)
    }

    /// Exact product, `None` when the reduced result does not fit.
    pub fn try_mul(&self, other: &Rat) -> (r: Option<Rat>)
        requires
            self.wf(),
            other.wf(),
        ensures
            r matches Some(v) ==> v.wf() && v@ == qreduce(qmul(self@, other@)) && qeq(
                v@,
                qmul(self@, other@),
            ),
            (r is Some) == representable(qmul(self@, other@)),
    {
        proof {
            lemma_mul_bound(self@.n, qabs(other@.n), fit_bound(), fit_bound());
            assert(self@.n * qabs(other@.n) == qabs(other@.n) * self@.n) by (nonlinear_arith);
            lemma_mul_bound(qabs(other@.n), qabs(self@.n), fit_bound(), fit_bound());
            assert(-(fit_bound() * fit_bound()) <= self@.n * other@.n <= fit_bound() * fit_bound())
                by (nonlinear_arith)
                requires
                    -fit_bound() <= self@.n <= fit_bound(),
                    -fit_bound() <= other@.n <= fit_bound(),
            ;
            lemma_mul_bound(self@.d, other@.d, fit_bound(), fit_bound());
            lemma_mul_pos(self@.d, other@.d);
            lemma_qreduce_props(qmul(self@, other@));
        }
        let num: i128 = (self.n as i128) * (other.n as i128);
        let den: i128 = (self.d as i128) * (other.d as i128);
        reduce_i128(num, den)
    }

    /// Exact quotient, `None` when the reduced result does not fit.
    pub fn try_div(&self, other: &Rat) -> (r: Option<Rat>)
        requires
            self.wf(),
            other.wf(),
            other@.n != 0,
        ensures
            r matches Some(v) ==> v.wf() && v@ == qreduce(qdiv(self@, other@)) && qeq(
                v@,
                qdiv(self@, other@),
            ),
            (r is Some) == representable(qdiv(self@, other@)),
    {
        proof {
            lemma_mul_bound(self@.n, other@.d, fit_bound(), fit_bound());
            lemma_mul_bound(self@.d, qabs(other@.n), fit_bound(), fit_bound());
            lemma_mul_pos(self@.d, qabs(other@.n));
            assert(qwf(qdiv(self@, other@)) && qdiv(self@, other@) == Q {
                n: if other@.n >= 0 {
                    self@.n * other@.d
                } else {
                    -(self@.n * other@.d)
                },
                d: self@.d * qabs(other@.n),
            }) by (nonlinear_arith)
                requires
                    qfits(self@),
                    qfits(other@),
                    other@.n != 0,
            ;
            lemma_qreduce_props(qdiv(self@, other@));
        }
        let num: i128 = if other.n >= 0 {
            (self.n as i128) * (other.d as i128)
        } else {
            -((self.n as i128) * (other.d as i128))
        };
        let den: i128 = if other.n >= 0 {
            (self.d as i128) * (other.n as i128)
        } else {
            (self.d as i128) * (-(other.n as i128))
        };
        reduce_i128(num, den)
    }

    /// Exact negation (always fits).
    pub fn neg(&self) -> (r: Rat)
        requires
            self.wf(),
        ensures
            r.wf(),
            r@ == qneg(self@),
    {
        Rat { n: -self.n, d: self.d }
    }

    /// Value comparison `self <= other`.
    pub fn le(&self, other: &Rat) -> (r: bool)
        requires
            self.wf(),
            other.wf(),
        ensures
            r == qle(self@, other@),
    {
        proof {
            lemma_mul_bound(self@.n, other@.d, fit_bound(), fit_bound());
            lemma_mul_bound(other@.n, self@.d, fit_bound(), fit_bound());
        }
        (self.n as i128) * (other.d as i128) <= (other.n as i128) * (self.d as i128)
    }

    /// Value comparison `self < other`.
    pub fn lt(&self, other: &Rat) -> (r: bool)
        requires
            self.wf(),
            other.wf(),
        ensures
            r == qlt(self@, other@),
    {
        proof {
            lemma_mul_bound(self@.n, other@.d, fit_bound(), fit_bound());
            lemma_mul_bound(other@.n, self@.d, fit_bound(), fit_bound());
        }
        (self.n as i128) * (other.d as i128) < (other.n as i128) * (self.d as i128)
    }

    /// Value equality.
    pub fn eq_rat(&self, other: &Rat) -> (r: bool)
        requires
            self.wf(),
            other.wf(),
        ensures
            r == qeq(self@, other@),
    {
        proof {
            lemma_mul_bound(self@.n, other@.d, fit_bound(), fit_bound());
            lemma_mul_bound(other@.n, self@.d, fit_bound(), fit_bound());
        }
        (self.n as i128) * (other.d as i128) == (other.n as i128) * (self.d as i128)
    }

    /// The value is zero.
    pub fn is_zero(&self) -> (r: bool)
        requires
            self.wf(),
        ensures
            r == (self@.n == 0),
            r == qeq(self@, qzero()),
    {
        proof {
            assert(qeq(self@, qzero()) == (self@.n == 0)) by (nonlinear_arith)
                requires
                    self@.d >= 1,
            ;
        }
        self.n == 0
    }

    /// The smaller of the two values.
    pub fn min(&self, other: &Rat) -> (r: Rat)
        requires
            self.wf(),
            other.wf(),
        ensures
            r.wf(),
            r@ == qmin(self@, other@),
    {
        if self.le(other) {
            *self
        } else {
            *other
        }
    }

    /// The larger of the two values.
    pub fn max(&self, other: &Rat) -> (r: Rat)
        requires
            self.wf(),
            other.wf(),
        ensures
            r.wf(),
            r@ == qmax(self@, other@),
    {
        if self.le(other) {
            *other
        } else {
            *self
        }
    }
}

} // verus!
