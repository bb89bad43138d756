//! Axis tick planning: enumeration of the multiples of a step inside a
//! range, negative multiples first, and the choice of a "nice" step.

use crate::rat::{
    lemma_mul_bound, lemma_mul_pos, lemma_qeq_sign, lemma_qeq_trans, lemma_qle_congr, qeq, qint,
    qle, qlt, qmul, qreduce, qwf, qzero, Q, Rat,
};
use vstd::arithmetic::div_mod::{lemma_div_multiples_vanish, lemma_fundamental_div_mod};
use vstd::arithmetic::power::{
    lemma_pow0, lemma_pow1, lemma_pow_adds, lemma_pow_increases, lemma_pow_positive,
    lemma_pow_strictly_increases, pow,
};
use vstd::prelude::*;

verus! {

/// Magnitude bound on the range and step components, so that the whole
/// enumeration stays within the 64-bit fields.
pub open spec fn tick_bound() -> int {
    0x10_0000
}

/// The components of the value are within [`tick_bound`].
pub open spec fn qsmall(q: Q) -> bool {
    &&& -tick_bound() <= q.n <= tick_bound()
    &&& 1 <= q.d <= tick_bound()
}

/// The `k`-th multiple of a step.
pub open spec fn qmulint(k: int, q: Q) -> Q {
    Q { n: k * q.n, d: q.d }
}

/// Integer ceiling division, for a positive divisor.
pub open spec fn qceil_div(n: int, d: int) -> int
    recommends
        d >= 1,
{
    if n % d == 0 {
        n / d
    } else {
        n / d + 1
    }
}

/// The index of the first positive-side tick: the smallest multiple of
/// the step at or above `min`, but at least the first multiple — zero is
/// the axis origin and is never handed out.
pub open spec fn qpos_start(min: Q, step: Q) -> int {
    let c = qceil_div(min.n * step.d, min.d * step.n);
    if c >= 1 {
        c
    } else {
        1
    }
}

/// The index of the first negative-side tick: the smallest `k >= 1`
/// whose multiple `-k*step` lies at or below `max`, so the descent
/// starts inside the range — no tick above `max` is ever handed out.
pub open spec fn qneg_first(max: Q, step: Q) -> int {
    let c = qceil_div((-max.n) * step.d, max.d * step.n);
    if c >= 1 {
        c
    } else {
        1
    }
}

/// Check the magnitude bound on a stored value.
pub fn rat_in_tick_range(r: &Rat) -> (b: bool)
    ensures
        b == qsmall(r@),
{
    let n = r.num();
    let d = r.den();
    -0x10_0000 <= n && n <= 0x10_0000 && 1 <= d && d <= 0x10_0000
}

/// A negative multiple of the step that still lies above `min` keeps the
/// index and the tick numerator within safe magnitude.
proof fn lemma_tick_k_lower(min: Q, step: Q, k: int)
    by (nonlinear_arith)
    requires
        qwf(min),
        qwf(step),
        qsmall(min),
        qsmall(step),
        qlt(qzero(), step),
        k <= 0,
        qle(min, qmulint(k, step)),
    ensures
        -(2 * tick_bound() * tick_bound()) <= k * step.n <= 0,
        -(2 * tick_bound() * tick_bound()) <= k,
{
}

/// A nonnegative multiple of the step that still lies below `max` keeps
/// the index and the tick numerator within safe magnitude.
proof fn lemma_tick_k_upper(max: Q, step: Q, k: int)
    by (nonlinear_arith)
    requires
        qwf(max),
        qwf(step),
        qsmall(max),
        qsmall(step),
        qlt(qzero(), step),
        k >= 0,
        qle(qmulint(k, step), max),
    ensures
        0 <= k * step.n <= 2 * tick_bound() * tick_bound(),
        0 <= k <= 2 * tick_bound() * tick_bound(),
{
}

/// The smallest multiple of the step at or above a nonnegative `min`:
/// characterization and magnitude of the ceiling index.
proof fn lemma_tick_ceil(min: Q, step: Q, k0: int)
    by (nonlinear_arith)
    requires
        qwf(min),
        qwf(step),
        qsmall(min),
        qsmall(step),
        qlt(qzero(), step),
        qle(qzero(), min),
        (k0 - 1) * (min.d * step.n) < min.n * step.d <= k0 * (min.d * step.n),
    ensures
        qle(min, qmulint(k0, step)),
        qlt(qmulint(k0 - 1, step), min),
        0 <= k0 * step.n <= 2 * tick_bound() * tick_bound(),
        0 <= k0 <= 2 * tick_bound() * tick_bound(),
{
}

/// A nonpositive dividend has a nonpositive ceiling quotient.
proof fn lemma_ceil_nonpos(n: int, d: int)
    requires
        d >= 1,
        n <= 0,
    ensures
        qceil_div(n, d) <= 0,
{
    lemma_fundamental_div_mod(n, d);
    assert(n / d <= 0 && (n % d != 0 ==> n / d <= -1)) by (nonlinear_arith)
        requires
            d >= 1,
            n <= 0,
            n == d * (n / d) + n % d,
            0 <= n % d < d,
    ;
}

/// The first negative index: its multiple lies at or below `max`, no
/// earlier multiple does, and its magnitude is safe.
proof fn lemma_neg_first(max: Q, step: Q)
    requires
        qwf(max),
        qwf(step),
        qsmall(max),
        qsmall(step),
        qlt(qzero(), step),
    ensures
        ({
            let kl = qneg_first(max, step);
            &&& 1 <= kl <= 2 * tick_bound() * tick_bound()
            &&& qle(qmulint(-kl, step), max)
            &&& kl >= 2 ==> qlt(max, qmulint(-(kl - 1), step))
        }),
{
    let n2 = (-max.n) * step.d;
    let d2 = max.d * step.n;
    let c = qceil_div(n2, d2);
    let kl = qneg_first(max, step);
    assert(d2 >= 1 && -(tick_bound() * tick_bound()) <= n2 <= tick_bound() * tick_bound())
        by (nonlinear_arith)
        requires
            n2 == (-max.n) * step.d,
            d2 == max.d * step.n,
            max.d >= 1,
            step.n >= 1,
            -tick_bound() <= max.n <= tick_bound(),
            1 <= step.d <= tick_bound(),
            1 <= max.d <= tick_bound(),
            step.n <= tick_bound(),
    ;
    lemma_fundamental_div_mod(n2, d2);
    assert((c - 1) * d2 < n2 <= c * d2) by (nonlinear_arith)
        requires
            d2 >= 1,
            n2 == d2 * (n2 / d2) + n2 % d2,
            0 <= n2 % d2 < d2,
            n2 % d2 == 0 ==> c == n2 / d2,
            n2 % d2 != 0 ==> c == n2 / d2 + 1,
    ;
    assert(c <= 2 * tick_bound() * tick_bound()) by (nonlinear_arith)
        requires
            (c - 1) * d2 < n2,
            d2 >= 1,
            n2 <= tick_bound() * tick_bound(),
    ;
    assert(qle(qmulint(-kl, step), max)) by (nonlinear_arith)
        requires
            n2 == (-max.n) * step.d,
            d2 == max.d * step.n,
            n2 <= c * d2,
            d2 >= 1,
            kl == if c >= 1 {
                c
            } else {
                1int
            },
    ;
    if kl >= 2 {
        assert(qlt(max, qmulint(-(kl - 1), step))) by (nonlinear_arith)
            requires
                n2 == (-max.n) * step.d,
                d2 == max.d * step.n,
                (c - 1) * d2 < n2,
                d2 >= 1,
                kl == c,
                c >= 2,
        ;
    }
}

/// A value strictly above `max` is at or above `min` for an ordered
/// range.
proof fn lemma_qle_trans_tick(min: Q, max: Q, v: Q)
    by (nonlinear_arith)
    requires
        qwf(min),
        qwf(max),
        qwf(v),
        qle(min, max),
        qlt(max, v),
    ensures
        qle(min, v),
{
}

/// Descending one multiple keeps the walk at or below `max`.
proof fn lemma_tick_monotone_down(max: Q, step: Q, k: int)
    by (nonlinear_arith)
    requires
        qwf(max),
        qwf(step),
        qlt(qzero(), step),
        qle(qmulint(k, step), max),
    ensures
        qle(qmulint(k - 1, step), max),
{
}

/// The side of the axis the enumeration currently walks.
#[derive(Clone, Copy, Debug, PartialEq, Eq, Structural)]
pub enum TickSide {
    Negative,
    Positive,
}

/// The description of a tick run: the nonzero multiples of `step`
/// inside `[min, max]`, negative multiples nearest zero first, then the
/// positive ones upward.
#[derive(Clone, Copy, Debug)]
pub struct TickSequence {
    pub min: Rat,
    pub max: Rat,
    pub step: Rat,
}

impl TickSequence {
    pub open spec fn wf(&self) -> bool {
        &&& self.min.wf()
        &&& self.max.wf()
        &&& self.step.wf()
        &&& qlt(qzero(), self.step@)
        &&& qle(self.min@, self.max@)
        &&& qsmall(self.min@)
        &&& qsmall(self.max@)
        &&& qsmall(self.step@)
    }

    pub fn new(min: Rat, max: Rat, step: Rat) -> (r: TickSequence)
        ensures
            r == (TickSequence { min, max, step }),
    {
        TickSequence { min, max, step }
    }

    /// A fresh enumeration; the sequence is forward-only and a new
    /// iterator must be created to enumerate again. The descent starts
    /// just above the first multiple at or below `max`, so that every
    /// handed-out tick lies inside the range.
    pub fn iter(&self) -> (r: TickSequenceIterator)
        requires
            self.wf(),
        ensures
            r.wf(),
            r.min == self.min,
            r.max == self.max,
            r.step == self.step,
            r.side == TickSide::Negative,
            r.k == 1 - qneg_first(self.max@, self.step@),
    {
        let sn = self.step.num();
        let sd = self.step.den();
        proof {
            lemma_neg_first(self.max@, self.step@);
        }
        let k_first: i64;
        if self.max.num() >= 0 {
            proof {
                lemma_mul_pos(self.max@.d, self.step@.n);
                assert((-self.max@.n) * self.step@.d <= 0) by (nonlinear_arith)
                    requires
                        self.max@.n >= 0,
                        self.step@.d >= 1,
                ;
                lemma_ceil_nonpos((-self.max@.n) * self.step@.d, self.max@.d * self.step@.n);
            }
            k_first = 1;
        } else {
            proof {
                lemma_mul_pos(self.max@.d, self.step@.n);
                lemma_mul_bound(-self.max@.n, self.step@.d, tick_bound(), tick_bound());
                lemma_mul_bound(self.max@.d, self.step@.n, tick_bound(), tick_bound());
            }
            let nn: u128 = ((-self.max.num()) as u128) * (sd as u128);
            let dd: u128 = (self.max.den() as u128) * (sn as u128);
            let q = nn / dd;
            let rem = nn % dd;
            let c: u128 = if rem == 0 {
                q
            } else {
                q + 1
            };
            let kf: u128 = if c >= 1 {
                c
            } else {
                1
            };
            proof {
                lemma_fundamental_div_mod(nn as int, dd as int);
                assert(nn == (-self.max@.n) * self.step@.d && dd == self.max@.d * self.step@.n);
                assert(c as int == qceil_div(
                    (-self.max@.n) * self.step@.d,
                    self.max@.d * self.step@.n,
                ));
                assert(kf as int == qneg_first(self.max@, self.step@));
            }
            k_first = kf as i64;
        }
        proof {
            assert(k_first as int == qneg_first(self.max@, self.step@));
            let kl = qneg_first(self.max@, self.step@);
            // the starting state is well formed: the first candidate is
            // at or below max, and above max means above min too
            if kl >= 2 {
                lemma_qle_trans_tick(self.min@, self.max@, qmulint(1 - kl, self.step@));
            }
        }
        TickSequenceIterator {
            min: self.min,
            max: self.max,
            step: self.step,
            side: TickSide::Negative,
            k: 1 - k_first,
        }
    }
}

/// Walking state of a tick enumeration. The last value handed out is
/// `k * step`; on the negative side `k` falls from zero, on the positive
/// side it rises.
#[derive(Clone, Copy, Debug)]
pub struct TickSequenceIterator {
    pub min: Rat,
    pub max: Rat,
    pub step: Rat,
    pub side: TickSide,
    pub k: i64,
}

impl TickSequenceIterator {
    pub open spec fn wf(&self) -> bool {
        &&& self.min.wf()
        &&& self.max.wf()
        &&& self.step.wf()
        &&& qlt(qzero(), self.step@)
        &&& qsmall(self.min@)
        &&& qsmall(self.max@)
        &&& qsmall(self.step@)
        &&& qle(self.min@, self.max@)
        &&& self.side == TickSide::Negative ==> {
            &&& -(2 * tick_bound() * tick_bound()) <= self.k <= 0
            &&& self.k == 0 || qle(self.min@, qmulint(self.k as int, self.step@))
            &&& qle(qmulint(self.k as int - 1, self.step@), self.max@)
        }
        &&& self.side == TickSide::Positive ==> {
            &&& 1 <= self.k <= 2 * tick_bound() * tick_bound()
            &&& qle(self.min@, qmulint(self.k as int, self.step@))
        }
    }

    /// The next tick, or `None` when the run is over.
    ///
    /// The walk is exactly the following: on the negative side the next
    /// lower multiple of the step is handed out while it stays at or
    /// above `min`; when it would fall below `min`, the walk switches to
    /// the positive side and hands out multiples from the start index of
    /// [`qpos_start`] upward, each checked against `max`. Zero is never
    /// handed out (it is the axis origin, drawn separately), and no tick
    /// above `max` is handed out; a range narrower than one step on the
    /// positive side simply ends the run.
    pub fn next(&mut self) -> (r: Option<Rat>)
        requires
            old(self).wf(),
        ensures
            final(self).wf(),
            final(self).min == old(self).min,
            final(self).max == old(self).max,
            final(self).step == old(self).step,
            old(self).side == TickSide::Negative ==> {
                let v = qmulint(old(self).k - 1, old(self).step@);
                &&& qle(old(self).min@, v) ==> (r matches Some(t) && qeq(t@, v) && t@ == qreduce(
                    v,
                ) && final(self).side == TickSide::Negative && final(self).k == old(self).k - 1)
                &&& !qle(old(self).min@, v) ==> {
                    let k0 = qpos_start(old(self).min@, old(self).step@);
                    &&& qle(qmulint(k0, old(self).step@), old(self).max@) ==> (r matches Some(t)
                        && qeq(t@, qmulint(k0, old(self).step@)) && t@ == qreduce(
                        qmulint(k0, old(self).step@),
                    ) && final(self).side == TickSide::Positive && final(self).k == k0)
                    &&& !qle(qmulint(k0, old(self).step@), old(self).max@) ==> (r is None
                        && *final(self) == *old(self))
                }
            },
            old(self).side == TickSide::Positive ==> {
                let v = qmulint(old(self).k + 1, old(self).step@);
                &&& qle(v, old(self).max@) ==> (r matches Some(t) && qeq(t@, v) && t@ == qreduce(
                    v,
                ) && final(self).side == TickSide::Positive && final(self).k == old(self).k + 1)
                &&& !qle(v, old(self).max@) ==> (r is None && *final(self) == *old(self))
            },
            r matches Some(t) ==> t.wf() && qle(old(self).min@, t@) && qle(t@, old(self).max@)
                && !qeq(t@, qzero()),
    {
        let ghost pre = *self;
        match self.side {
            TickSide::Negative => {
                let k2: i64 = self.k - 1;
                let sn = self.step.num();
                let sd = self.step.den();
                proof {
                    lemma_mul_bound(
                        k2 as int,
                        pre.step@.n,
                        2 * tick_bound() * tick_bound() + 1,
                        tick_bound(),
                    );
                }
                let cand_n: i128 = (k2 as i128) * (sn as i128);
                proof {
                    lemma_mul_bound(
                        cand_n as int,
                        pre.min@.d,
                        (2 * tick_bound() * tick_bound() + 1) * tick_bound(),
                        tick_bound(),
                    );
                    lemma_mul_bound(pre.min@.n, pre.step@.d, tick_bound(), tick_bound());
                }
                // next value at or above min: min <= k2 * step
                let above = (self.min.num() as i128) * (sd as i128) <= cand_n * (self.min.den()
                    as i128);
                if above {
                    proof {
                        lemma_tick_k_lower(pre.min@, pre.step@, k2 as int);
                        lemma_negative_tick(pre.step@, k2 as int);
                        lemma_tick_monotone_down(pre.max@, pre.step@, k2 as int);
                    }
                    self.k = k2;
                    let t = Rat::new(cand_n as i64, sd);
                    proof {
                        lemma_tick_transfer(
                            pre.min@,
                            pre.max@,
                            t@,
                            qmulint(k2 as int, pre.step@),
                        );
                    }
                    Some(t)
                } else {
                    // negative side exhausted: find the first positive tick
                    let k0: i64;
                    if self.min.num() < 0 {
                        proof {
                            lemma_pos_start_neg_min(pre.min@, pre.step@);
                        }
                        k0 = 1;
                    } else {
                        proof {
                            lemma_mul_pos(pre.min@.d, pre.step@.n);
                            lemma_mul_bound(pre.min@.n, pre.step@.d, tick_bound(), tick_bound());
                            lemma_mul_bound(pre.min@.d, pre.step@.n, tick_bound(), tick_bound());
                        }
                        let nn: u128 = (self.min.num() as u128) * (sd as u128);
                        let dd: u128 = (self.min.den() as u128) * (sn as u128);
                        let q = nn / dd;
                        let rem = nn % dd;
                        let c: u128 = if rem == 0 {
                            q
                        } else {
                            q + 1
                        };
                        let kk: u128 = if c >= 1 {
                            c
                        } else {
                            1
                        };
                        proof {
                            lemma_fundamental_div_mod(nn as int, dd as int);
                            assert((c - 1) * dd < nn <= c * dd) by (nonlinear_arith)
                                requires
                                    dd >= 1,
                                    nn == dd * q + rem,
                                    0 <= rem < dd,
                                    rem == 0 ==> c == q,
                                    rem != 0 ==> c == q + 1,
                            ;
                            assert(nn == pre.min@.n * pre.step@.d && dd == pre.min@.d
                                * pre.step@.n);
                            assert(c as int == qceil_div(
                                pre.min@.n * pre.step@.d,
                                pre.min@.d * pre.step@.n,
                            ));
                            if c >= 1 {
                                lemma_tick_ceil(pre.min@, pre.step@, c as int);
                            } else {
                                assert(pre.min@.n == 0) by (nonlinear_arith)
                                    requires
                                        nn == pre.min@.n * pre.step@.d,
                                        nn <= c * dd,
                                        c <= 0,
                                        dd >= 1,
                                        pre.min@.n >= 0,
                                        pre.step@.d >= 1,
                                ;
                                assert(qle(pre.min@, qmulint(1int, pre.step@)))
                                    by (nonlinear_arith)
                                    requires
                                        pre.min@.n == 0,
                                        pre.min@.d >= 1,
                                        pre.step@.n >= 1,
                                        pre.step@.d >= 1,
                                ;
                            }
                            assert(kk as int == qpos_start(pre.min@, pre.step@));
                        }
                        k0 = kk as i64;
                    }
                    proof {
                        assert(k0 as int == qpos_start(pre.min@, pre.step@));
                        assert(qle(pre.min@, qmulint(k0 as int, pre.step@)));
                        assert(1 <= k0 <= 2 * tick_bound() * tick_bound());
                        lemma_mul_bound(
                            k0 as int,
                            pre.step@.n,
                            2 * tick_bound() * tick_bound(),
                            tick_bound(),
                        );
                    }
                    let tn: i128 = (k0 as i128) * (sn as i128);
                    proof {
                        lemma_mul_bound(
                            tn as int,
                            pre.max@.d,
                            2 * tick_bound() * tick_bound() * tick_bound(),
                            tick_bound(),
                        );
                        lemma_mul_bound(pre.max@.n, pre.step@.d, tick_bound(), tick_bound());
                    }
                    // the starting tick must not pass max
                    let below = tn * (self.max.den() as i128) <= (self.max.num() as i128) * (sd
                        as i128);
                    if below {
                        self.side = TickSide::Positive;
                        self.k = k0;
                        let t = Rat::new(tn as i64, sd);
                        proof {
                            lemma_positive_tick(pre.step@, k0 as int);
                            lemma_tick_transfer(
                                pre.min@,
                                pre.max@,
                                t@,
                                qmulint(k0 as int, pre.step@),
                            );
                        }
                        Some(t)
                    } else {
                        None
                    }
                }
            },
            TickSide::Positive => {
                let k2: i64 = self.k + 1;
                let sn = self.step.num();
                let sd = self.step.den();
                proof {
                    lemma_mul_bound(
                        k2 as int,
                        pre.step@.n,
                        2 * tick_bound() * tick_bound() + 1,
                        tick_bound(),
                    );
                }
                let cand_n: i128 = (k2 as i128) * (sn as i128);
                proof {
                    lemma_mul_bound(
                        cand_n as int,
                        pre.max@.d,
                        (2 * tick_bound() * tick_bound() + 1) * tick_bound(),
                        tick_bound(),
                    );
                    lemma_mul_bound(pre.max@.n, pre.step@.d, tick_bound(), tick_bound());
                }
                // next value at or below max: k2 * step <= max
                let below = cand_n * (self.max.den() as i128) <= (self.max.num() as i128) * (sd
                    as i128);
                if below {
                    proof {
                        lemma_tick_k_upper(pre.max@, pre.step@, k2 as int);
                        lemma_tick_monotone(pre.min@, pre.step@, pre.k as int);
                        lemma_positive_tick(pre.step@, k2 as int);
                    }
                    self.k = k2;
                    let t = Rat::new(cand_n as i64, sd);
                    proof {
                        lemma_tick_transfer(
                            pre.min@,
                            pre.max@,
                            t@,
                            qmulint(k2 as int, pre.step@),
                        );
                    }
                    Some(t)
                } else {
                    None
                }
            },
        }
    }
}

/// Range facts about an ideal tick value carry over to the stored value
/// it stands for.
proof fn lemma_tick_transfer(min: Q, max: Q, t: Q, v: Q)
    requires
        qwf(min),
        qwf(max),
        qwf(t),
        qwf(v),
        qeq(t, v),
    ensures
        qle(min, v) ==> qle(min, t),
        qle(v, max) ==> qle(t, max),
        !qeq(v, qzero()) ==> !qeq(t, qzero()),
{
    lemma_qle_congr(min, min, t, v);
    lemma_qle_congr(t, v, max, max);
    lemma_qeq_sign(t, v);
    assert(qeq(t, qzero()) == (t.n == 0)) by (nonlinear_arith)
        requires
            t.d >= 1,
    ;
    assert(qeq(v, qzero()) == (v.n == 0)) by (nonlinear_arith)
        requires
            v.d >= 1,
    ;
}

/// The next multiple of a positive step stays at or above anything the
/// previous one was at or above.
proof fn lemma_tick_monotone(min: Q, step: Q, k: int)
    by (nonlinear_arith)
    requires
        qwf(min),
        qwf(step),
        qlt(qzero(), step),
        qle(min, qmulint(k, step)),
    ensures
        qle(min, qmulint(k + 1, step)),
{
}

/// A negative tick is never zero.
proof fn lemma_negative_tick(step: Q, k: int)
    by (nonlinear_arith)
    requires
        qwf(step),
        qlt(qzero(), step),
        k <= -1,
    ensures
        !qeq(qmulint(k, step), qzero()),
{
}

/// A positive-side tick is strictly positive, so never zero.
proof fn lemma_positive_tick(step: Q, k: int)
    by (nonlinear_arith)
    requires
        qwf(step),
        qlt(qzero(), step),
        k >= 1,
    ensures
        !qeq(qmulint(k, step), qzero()),
        qlt(qzero(), qmulint(k, step)),
{
}

/// For a negative `min` the positive side starts at the first multiple.
proof fn lemma_pos_start_neg_min(min: Q, step: Q)
    requires
        qwf(min),
        qwf(step),
        qlt(qzero(), step),
        min.n < 0,
    ensures
        qpos_start(min, step) == 1,
        qle(min, qmulint(1, step)),
{
    let nn = min.n * step.d;
    let dd = min.d * step.n;
    assert(dd >= 1 && nn <= -1) by (nonlinear_arith)
        requires
            nn == min.n * step.d,
            dd == min.d * step.n,
            min.d >= 1,
            step.n >= 1,
            min.n <= -1,
            step.d >= 1,
    ;
    lemma_fundamental_div_mod(nn, dd);
    assert(nn / dd <= -1) by (nonlinear_arith)
        requires
            dd >= 1,
            nn <= -1,
            nn == dd * (nn / dd) + nn % dd,
            0 <= nn % dd < dd,
    ;
    assert(qle(min, qmulint(1int, step))) by (nonlinear_arith)
        requires
            min.n <= -1,
            min.d >= 1,
            step.n >= 1,
            step.d >= 1,
    ;
}

/// `10^e` as a rational, for any integer exponent.
pub open spec fn qpow10(e: int) -> Q {
    if e >= 0 {
        Q { n: pow(10, e as nat), d: 1 }
    } else {
        Q { n: 1, d: pow(10, (-e) as nat) }
    }
}

/// Threshold between a mantissa snapped to 1 and one snapped to 2: a
/// rational approximation of the tenth root of ten raised to 1.7.
pub open spec fn qthresh1() -> Q {
    Q { n: 14791, d: 10000 }
}

/// Threshold between 2 and 5: an approximation of the square root of ten.
pub open spec fn qthresh2() -> Q {
    Q { n: 31623, d: 10000 }
}

/// Threshold between 5 and 10: an approximation of ten raised to 0.85.
pub open spec fn qthresh3() -> Q {
    Q { n: 70795, d: 10000 }
}

/// What [`find_optimal_step`] returns: `e` is the decimal magnitude of
/// the input (`10^e <= raw < 10^(e+1)`), and the mantissa snaps to 1, 2,
/// 5 or 10 at the three thresholds.
pub open spec fn snapped_at(raw: Q, r: Q, e: int) -> bool {
    &&& qle(qpow10(e), raw)
    &&& qlt(raw, qpow10(e + 1))
    &&& (qlt(raw, qmul(qthresh1(), qpow10(e))) ==> qeq(r, qpow10(e)))
    &&& (!qlt(raw, qmul(qthresh1(), qpow10(e))) && qlt(raw, qmul(qthresh2(), qpow10(e))) ==> qeq(
        r,
        qmulint(2, qpow10(e)),
    ))
    &&& (!qlt(raw, qmul(qthresh2(), qpow10(e))) && qlt(raw, qmul(qthresh3(), qpow10(e))) ==> qeq(
        r,
        qmulint(5, qpow10(e)),
    ))
    &&& (!qlt(raw, qmul(qthresh3(), qpow10(e))) ==> qeq(r, qpow10(e + 1)))
}

/// Powers of ten are positive.
proof fn lemma_qpow10_wf(e: int)
    ensures
        qwf(qpow10(e)),
        qpow10(e).n >= 1,
        qpow10(e).d >= 1,
        qlt(qzero(), qpow10(e)),
{
    if e >= 0 {
        lemma_pow_positive(10, e as nat);
    } else {
        lemma_pow_positive(10, (-e) as nat);
    }
}

/// Stepping the exponent multiplies the value by ten.
proof fn lemma_qpow10_succ(e: int)
    ensures
        qeq(qpow10(e + 1), qmulint(10, qpow10(e))),
        qeq(qmulint(10, qpow10(e)), qpow10(e + 1)),
{
    lemma_qpow10_wf(e);
    lemma_qpow10_wf(e + 1);
    lemma_pow0(10);
    lemma_pow1(10);
    if e >= 0 {
        lemma_pow_adds(10, 1, e as nat);
        assert((e + 1) as nat == 1 + (e as nat));
        assert(pow(10, 1 + (e as nat)) == pow(10, 1) * pow(10, e as nat));
        assert(pow(10, (e + 1) as nat) == 10 * pow(10, e as nat));
        assert(qpow10(e + 1).n == 10 * qpow10(e).n && qpow10(e + 1).d == 1 && qpow10(e).d == 1);
        assert(qeq(qpow10(e + 1), qmulint(10, qpow10(e)))) by (nonlinear_arith)
            requires
                qpow10(e + 1).n == 10 * qpow10(e).n,
                qpow10(e + 1).d == 1,
                qpow10(e).d == 1,
                qmulint(10, qpow10(e)) == (Q { n: 10 * qpow10(e).n, d: qpow10(e).d }),
        ;
    } else if e == -1 {
        assert(qpow10(0int) == (Q { n: 1int, d: 1int }));
        assert(qpow10(-1int) == (Q { n: 1int, d: pow(10, 1nat) }));
        assert(qeq(qpow10(e + 1), qmulint(10, qpow10(e))));
    } else {
        lemma_pow_adds(10, 1, (-e - 1) as nat);
        assert((-e) as nat == 1 + ((-e - 1) as nat));
        assert(pow(10, 1 + ((-e - 1) as nat)) == pow(10, 1) * pow(10, (-e - 1) as nat));
        assert(pow(10, (-e) as nat) == 10 * pow(10, (-e - 1) as nat));
        assert(qpow10(e + 1) == (Q { n: 1int, d: pow(10, (-e - 1) as nat) }));
        assert(qmulint(10, qpow10(e)) == (Q { n: 10int, d: pow(10, (-e) as nat) }));
        assert(qeq(qpow10(e + 1), qmulint(10, qpow10(e)))) by (nonlinear_arith)
            requires
                qpow10(e + 1) == (Q { n: 1int, d: pow(10, (-e - 1) as nat) }),
                qmulint(10, qpow10(e)) == (Q { n: 10int, d: pow(10, (-e) as nat) }),
                pow(10, (-e) as nat) == 10 * pow(10, (-e - 1) as nat),
        ;
    }
}

/// Powers of ten grow with the exponent.
proof fn lemma_qpow10_mono(a: int, b: int)
    requires
        a <= b,
    ensures
        qle(qpow10(a), qpow10(b)),
        a < b ==> qlt(qpow10(a), qpow10(b)),
{
    lemma_qpow10_wf(a);
    lemma_qpow10_wf(b);
    if 0 <= a {
        if a < b {
            lemma_pow_strictly_increases(10, a as nat, b as nat);
        }
        assert(qle(qpow10(a), qpow10(b)) && (a < b ==> qlt(qpow10(a), qpow10(b))))
            by (nonlinear_arith)
            requires
                qpow10(a) == (Q { n: pow(10, a as nat), d: 1int }),
                qpow10(b) == (Q { n: pow(10, b as nat), d: 1int }),
                pow(10, a as nat) <= pow(10, b as nat),
                a < b ==> pow(10, a as nat) < pow(10, b as nat),
        ;
    } else if b < 0 {
        if a < b {
            lemma_pow_strictly_increases(10, (-b) as nat, (-a) as nat);
        }
        assert(qle(qpow10(a), qpow10(b)) && (a < b ==> qlt(qpow10(a), qpow10(b))))
            by (nonlinear_arith)
            requires
                qpow10(a) == (Q { n: 1int, d: pow(10, (-a) as nat) }),
                qpow10(b) == (Q { n: 1int, d: pow(10, (-b) as nat) }),
                pow(10, (-b) as nat) <= pow(10, (-a) as nat),
                a < b ==> pow(10, (-b) as nat) < pow(10, (-a) as nat),
        ;
    } else {
        // a < 0 <= b
        lemma_pow1(10);
        lemma_pow_increases(10, 1, (-a) as nat);
        assert(qle(qpow10(a), qpow10(b)) && qlt(qpow10(a), qpow10(b))) by (nonlinear_arith)
            requires
                qpow10(a) == (Q { n: 1int, d: pow(10, (-a) as nat) }),
                qpow10(b) == (Q { n: pow(10, b as nat), d: 1int }),
                pow(10, (-a) as nat) >= 10,
                pow(10, b as nat) >= 1,
        ;
    }
}

/// The order of two values is unchanged by a shared positive scale.
proof fn lemma_qcmp_scale(x: Q, y: Q, p: Q)
    by (nonlinear_arith)
    requires
        qwf(x),
        qwf(y),
        p.n >= 1,
        p.d >= 1,
    ensures
        qlt(qmul(x, p), qmul(y, p)) == qlt(x, y),
        qle(qmul(x, p), qmul(y, p)) == qle(x, y),
{
}

/// Order relations compose over well-formed values.
proof fn lemma_order_trans(a: Q, b: Q, c: Q)
    by (nonlinear_arith)
    requires
        qwf(a),
        qwf(b),
        qwf(c),
    ensures
        qle(a, b) && qle(b, c) ==> qle(a, c),
        qle(a, b) && qlt(b, c) ==> qlt(a, c),
        qlt(a, b) && qle(b, c) ==> qlt(a, c),
{
}

/// How many negative ticks a run hands out: the multiples from the
/// first at or below `max` down to the last at or above `min`.
pub open spec fn spec_num_neg(min: Q, max: Q, step: Q) -> int {
    let f = ((-min.n) * step.d) / (min.d * step.n);
    let kl = qneg_first(max, step);
    if f >= kl {
        f - kl + 1
    } else {
        0
    }
}

/// How many positive ticks a run hands out: the multiples from the
/// start index of [`qpos_start`] up to the last at or below `max`.
pub open spec fn spec_num_pos(min: Q, max: Q, step: Q) -> int {
    let k0 = qpos_start(min, step);
    let j = (max.n * step.d) / (max.d * step.n);
    if j >= k0 {
        j - k0 + 1
    } else {
        0
    }
}

/// The whole tick run: the negative multiples nearest zero first, then
/// the positive multiples upward.
pub open spec fn spec_ticks(min: Q, max: Q, step: Q) -> Seq<Q> {
    Seq::new(
        spec_num_neg(min, max, step) as nat,
        |i: int| qmulint(-(qneg_first(max, step) + i), step),
    ) + Seq::new(
        spec_num_pos(min, max, step) as nat,
        |i: int| qmulint(qpos_start(min, step) + i, step),
    )
}

/// For a positive divisor, comparing against the floored quotient is
/// comparing the product.
proof fn lemma_le_div_iff(k: int, n: int, d: int)
    requires
        d >= 1,
    ensures
        (k <= n / d) == (k * d <= n),
{
    lemma_fundamental_div_mod(n, d);
    let q = n / d;
    assert((k <= q) ==> (k * d <= n)) by (nonlinear_arith)
        requires
            n == d * q + n % d,
            0 <= n % d,
            d >= 1,
    ;
    assert((k > q) ==> (k * d > n)) by (nonlinear_arith)
        requires
            n == d * q + n % d,
            n % d < d,
            d >= 1,
    ;
}

/// A negative tick stays at or above `min` exactly while its index is
/// within the negative count.
proof fn lemma_neg_guard(min: Q, step: Q, k: int)
    requires
        qwf(min),
        qwf(step),
        qlt(qzero(), step),
        k >= 1,
    ensures
        qle(min, qmulint(-k, step)) == (k <= ((-min.n) * step.d) / (min.d * step.n)),
{
    let n2 = (-min.n) * step.d;
    let d2 = min.d * step.n;
    assert(d2 >= 1) by (nonlinear_arith)
        requires
            d2 == min.d * step.n,
            min.d >= 1,
            step.n >= 1,
    ;
    lemma_le_div_iff(k, n2, d2);
    assert(qle(min, qmulint(-k, step)) == (k * d2 <= n2)) by (nonlinear_arith)
        requires
            n2 == (-min.n) * step.d,
            d2 == min.d * step.n,
    ;
}

/// A positive tick stays at or below `max` exactly while its index is
/// within the floored quotient of `max` by the step.
proof fn lemma_pos_guard(max: Q, step: Q, k: int)
    requires
        qwf(max),
        qwf(step),
        qlt(qzero(), step),
    ensures
        qle(qmulint(k, step), max) == (k <= (max.n * step.d) / (max.d * step.n)),
{
    let n2 = max.n * step.d;
    let d2 = max.d * step.n;
    assert(d2 >= 1) by (nonlinear_arith)
        requires
            d2 == max.d * step.n,
            max.d >= 1,
            step.n >= 1,
    ;
    lemma_le_div_iff(k, n2, d2);
    assert(qle(qmulint(k, step), max) == (k * d2 <= n2)) by (nonlinear_arith)
        requires
            n2 == max.n * step.d,
            d2 == max.d * step.n,
    ;
}

/// The whole run of ticks, collected front to back: exactly the values
/// of [`spec_ticks`], in order. Every value lies at or above `min`, is
/// never zero, and — whenever the range reaches zero — lies at or below
/// `max`.
pub fn collect_ticks(seq: &TickSequence) -> (r: Vec<Rat>)
    requires
        seq.wf(),
    ensures
        r@.len() == spec_ticks(seq.min@, seq.max@, seq.step@).len(),
        forall|i: int|
            0 <= i < r@.len() ==> (#[trigger] r@[i]).wf() && qeq(
                r@[i]@,
                spec_ticks(seq.min@, seq.max@, seq.step@)[i],
            ) && r@[i]@ == qreduce(spec_ticks(seq.min@, seq.max@, seq.step@)[i]),
        forall|i: int|
            0 <= i < r@.len() ==> qle(seq.min@, #[trigger] r@[i]@) && qle(r@[i]@, seq.max@) && !qeq(
                r@[i]@,
                qzero(),
            ),
{
    let ghost minq = seq.min@;
    let ghost maxq = seq.max@;
    let ghost stepq = seq.step@;
    let ghost kl = qneg_first(maxq, stepq);
    let ghost nneg = spec_num_neg(minq, maxq, stepq);
    let ghost npos = spec_num_pos(minq, maxq, stepq);
    let ghost k0 = qpos_start(minq, stepq);
    let ghost ts = spec_ticks(minq, maxq, stepq);
    let mut it = seq.iter();
    let mut out: Vec<Rat> = Vec::new();
    loop
        invariant
            it.wf(),
            it.min == seq.min,
            it.max == seq.max,
            it.step == seq.step,
            seq.wf(),
            minq == seq.min@,
            maxq == seq.max@,
            stepq == seq.step@,
            kl == qneg_first(maxq, stepq),
            nneg == spec_num_neg(minq, maxq, stepq),
            npos == spec_num_pos(minq, maxq, stepq),
            k0 == qpos_start(minq, stepq),
            ts == spec_ticks(minq, maxq, stepq),
            ts.len() == nneg + npos,
            out@.len() <= ts.len(),
            it.side == TickSide::Negative ==> it.k == 1 - kl - out@.len() && out@.len() <= nneg,
            it.side == TickSide::Positive ==> out@.len() == nneg + (it.k - k0 + 1) && k0 <= it.k
                && it.k - k0 + 1 <= npos,
            forall|i: int|
                0 <= i < out@.len() ==> (#[trigger] out@[i]).wf() && qeq(out@[i]@, ts[i])
                    && out@[i]@ == qreduce(ts[i]),
            forall|i: int|
                0 <= i < out@.len() ==> qle(minq, #[trigger] out@[i]@) && qle(out@[i]@, maxq)
                    && !qeq(out@[i]@, qzero()),
        ensures
            out@.len() == ts.len(),
            forall|i: int|
                0 <= i < out@.len() ==> (#[trigger] out@[i]).wf() && qeq(out@[i]@, ts[i])
                    && out@[i]@ == qreduce(ts[i]),
            forall|i: int|
                0 <= i < out@.len() ==> qle(minq, #[trigger] out@[i]@) && qle(out@[i]@, maxq)
                    && !qeq(out@[i]@, qzero()),
        decreases (if it.side == TickSide::Negative {
            1int
        } else {
            0int
        }), (if it.side == TickSide::Negative {
            it.k + 2 * tick_bound() * tick_bound() + 2
        } else {
            2 * tick_bound() * tick_bound() + 2 - it.k
        }),
    {
        let ghost pre = it;
        let ghost len = out@.len() as int;
        match it.next() {
            Some(v) => {
                proof {
                    if pre.side == TickSide::Negative {
                        lemma_neg_guard(minq, stepq, kl + len);
                        if qle(minq, qmulint(-(kl + len), stepq)) {
                            // the negative walk continues
                            assert(len + 1 <= nneg);
                            assert(ts[len] == qmulint(-(kl + len), stepq));
                        } else {
                            // the walk switched to the positive side
                            assert(len == nneg);
                            lemma_pos_guard(maxq, stepq, k0);
                            assert(npos >= 1);
                            assert(ts[len] == qmulint(k0, stepq));
                        }
                    } else {
                        lemma_pos_guard(maxq, stepq, pre.k + 1);
                        assert(ts[len] == qmulint(pre.k + 1, stepq));
                    }
                }
                out.push(v);
            },
            None => {
                proof {
                    if pre.side == TickSide::Negative {
                        lemma_neg_guard(minq, stepq, kl + len);
                        assert(len == nneg);
                        lemma_pos_guard(maxq, stepq, k0);
                        assert(npos == 0);
                    } else {
                        lemma_pos_guard(maxq, stepq, pre.k + 1);
                        assert(pre.k == (maxq.n * stepq.d) / (maxq.d * stepq.n));
                        assert(out@.len() == nneg + npos);
                    }
                }
                break ;
            },
        }
    }
    out
}

/// Snap a raw step to a "nice" decimal value: 1, 2, 5 or 10 times the
/// power of ten of the input's magnitude, cut at the three mantissa
/// thresholds. The bounds on the input are machine limits: they keep
/// every power of ten that the computation touches within 64 bits.
pub fn find_optimal_step(step: &Rat) -> (r: Rat)
    requires
        step.wf(),
        qlt(qzero(), step@),
        qlt(step@, qint(1000000000000000)),
        qlt(qint(1), qmul(step@, qint(1000000000000000))),
    ensures
        r.wf(),
        qlt(qzero(), r@),
        exists|e: int| snapped_at(step@, r@, e),
        exists|m: int, k: int|
            (m == 1 || m == 2 || m == 5) && #[trigger] qeq(r@, qmulint(m, qpow10(k))),
{
    let ghost raw = step@;
    let n = step.num();
    let d = step.den();
    if n >= d {
        // magnitude at least one: raise the exponent while the next
        // power of ten still fits under the value
        let mut pd: i128 = d as i128;
        let ghost mut p: int = 1;
        let ghost mut e: int = 0;
        proof {
            lemma_pow0(10);
        }
        while pd * 10 <= n as i128
            invariant
                step.wf(),
                n == raw.n,
                d == raw.d,
                n >= d >= 1,
                raw.n < 1000000000000000 * raw.d,
                e >= 0,
                p == pow(10, e as nat),
                p >= 1,
                pd == p * raw.d,
                1 <= pd <= n as int,
            decreases n as int - pd,
        {
            proof {
                lemma_pow1(10);
                lemma_pow_adds(10, 1, e as nat);
                assert((10 * p) * raw.d == 10 * (p * raw.d)) by (nonlinear_arith);
                e = e + 1;
                p = 10 * p;
            }
            pd = pd * 10;
        }
        proof {
            assert(p < 1000000000000000) by (nonlinear_arith)
                requires
                    pd == p * raw.d,
                    pd <= raw.n,
                    raw.n < 1000000000000000 * raw.d,
                    raw.d >= 1,
            ;
        }
        let p10: i128 = pd / (d as i128);
        proof {
            lemma_div_multiples_vanish(p, raw.d);
            assert(raw.d * p == p * raw.d) by (nonlinear_arith);
        }
        let ghost pq = qpow10(e);
        proof {
            assert(pq == Q { n: p, d: 1int });
            lemma_qpow10_succ(e);
            assert(qle(pq, raw) && qlt(raw, qpow10(e + 1))) by (nonlinear_arith)
                requires
                    qwf(raw),
                    pq == (Q { n: p, d: 1int }),
                    qeq(qpow10(e + 1), qmulint(10, pq)),
                    qwf(qpow10(e + 1)),
                    p * raw.d <= raw.n,
                    raw.n < (p * raw.d) * 10,
            ;
            assert(qlt(raw, qmul(qthresh1(), pq)) == ((raw.n as int) * 10000 < 14791 * (p
                * raw.d))) by (nonlinear_arith)
                requires
                    pq == (Q { n: p, d: 1int }),
            ;
            assert(qlt(raw, qmul(qthresh2(), pq)) == ((raw.n as int) * 10000 < 31623 * (p
                * raw.d))) by (nonlinear_arith)
                requires
                    pq == (Q { n: p, d: 1int }),
            ;
            assert(qlt(raw, qmul(qthresh3(), pq)) == ((raw.n as int) * 10000 < 70795 * (p
                * raw.d))) by (nonlinear_arith)
                requires
                    pq == (Q { n: p, d: 1int }),
            ;
        }
        let n4: i128 = (n as i128) * 10000;
        let r = if n4 < 14791 * pd {
            Rat::from_int(p10 as i64)
        } else if n4 < 31623 * pd {
            Rat::from_int((2 * p10) as i64)
        } else if n4 < 70795 * pd {
            Rat::from_int((5 * p10) as i64)
        } else {
            Rat::from_int((10 * p10) as i64)
        };
        proof {
            assert(qmulint(2, pq) == Q { n: 2 * p, d: 1int });
            assert(qmulint(5, pq) == Q { n: 5 * p, d: 1int });
            assert(qmulint(10, pq) == Q { n: 10 * p, d: 1int });
            assert(qeq(qmulint(10, pq), qpow10(e + 1)));
            if n4 >= 70795 * pd {
                lemma_qeq_trans(r@, qmulint(10, pq), qpow10(e + 1));
            }
            assert(snapped_at(raw, r@, e));
            assert(qmulint(1, pq) == pq) by (nonlinear_arith);
            if n4 < 14791 * pd {
                assert(qeq(r@, qmulint(1, qpow10(e))));
            } else if n4 < 31623 * pd {
                assert(qeq(r@, qmulint(2, qpow10(e))));
            } else if n4 < 70795 * pd {
                assert(qeq(r@, qmulint(5, qpow10(e))));
            } else {
                assert(qmulint(1, qpow10(e + 1)) == qpow10(e + 1)) by (nonlinear_arith);
                assert(qeq(r@, qmulint(1, qpow10(e + 1))));
            }
        }
        r
    } else {
        // magnitude below one: lower the exponent until the power of ten
        // falls under the value
        let mut pn: i128 = (n as i128) * 10;
        let ghost mut p: int = 10;
        let ghost mut e: int = -1;
        proof {
            lemma_pow0(10);
            lemma_pow1(10);
            assert(qmul(raw, qint(1000000000000000)) == (Q {
                n: raw.n * 1000000000000000,
                d: raw.d * 1,
            }));
            assert(1 * (raw.d * 1) < (raw.n * 1000000000000000) * 1);
            assert(1 * raw.d < raw.n * 1000000000000000) by (nonlinear_arith)
                requires
                    1 * (raw.d * 1) < (raw.n * 1000000000000000) * 1,
            ;
        }
        while pn < d as i128
            invariant
                step.wf(),
                n == raw.n,
                d == raw.d,
                1 <= n < d,
                1 * raw.d < raw.n * 1000000000000000,
                e <= -1,
                p == pow(10, (-e) as nat),
                p >= 10,
                pn == raw.n * p,
                raw.n * pow(10, (-e - 1) as nat) < raw.d,
                1 <= pn <= 10 * (d as int),
            decreases 10 * (d as int) - pn,
        {
            proof {
                lemma_pow1(10);
                lemma_pow_adds(10, 1, (-e) as nat);
                assert(raw.n * (10 * p) == 10 * (raw.n * p)) by (nonlinear_arith);
                e = e - 1;
                p = 10 * p;
            }
            pn = pn * 10;
        }
        proof {
            lemma_pow_positive(10, (-e - 1) as nat);
            assert(pow(10, (-e - 1) as nat) < 1000000000000000) by (nonlinear_arith)
                requires
                    raw.n * pow(10, (-e - 1) as nat) < raw.d,
                    raw.d < raw.n * 1000000000000000,
                    raw.n >= 1,
            ;
            reveal_with_fuel(pow, 17);
            assert(pow(10, 15nat) == 1000000000000000);
            if -e - 1 >= 15 {
                lemma_pow_increases(10, 15nat, (-e - 1) as nat);
                assert(false);
            }
            if (-e) < 15 {
                lemma_pow_strictly_increases(10, (-e) as nat, 15nat);
            } else {
                lemma_pow_increases(10, (-e) as nat, 15nat);
            }
            lemma_pow1(10);
            lemma_pow_adds(10, 1, (-e - 1) as nat);
        }
        let p10: i128 = pn / (n as i128);
        proof {
            lemma_div_multiples_vanish(p, raw.n);
            assert(raw.n * p == p * raw.n) by (nonlinear_arith);
        }
        let ghost pq = qpow10(e);
        proof {
            assert(pq == Q { n: 1int, d: p });
            lemma_qpow10_succ(e);
            assert(qle(pq, raw) && qlt(raw, qpow10(e + 1))) by (nonlinear_arith)
                requires
                    qwf(raw),
                    pq == (Q { n: 1int, d: p }),
                    qeq(qpow10(e + 1), qmulint(10, pq)),
                    qwf(qpow10(e + 1)),
                    p >= 10,
                    raw.n * p >= raw.d,
                    10 * (raw.n * pow(10, (-e - 1) as nat)) < 10 * raw.d,
                    p == 10 * pow(10, (-e - 1) as nat),
            ;
            assert(qlt(raw, qmul(qthresh1(), pq)) == ((raw.n * p) * 10000 < 14791 * raw.d))
                by (nonlinear_arith)
                requires
                    pq == (Q { n: 1int, d: p }),
            ;
            assert(qlt(raw, qmul(qthresh2(), pq)) == ((raw.n * p) * 10000 < 31623 * raw.d))
                by (nonlinear_arith)
                requires
                    pq == (Q { n: 1int, d: p }),
            ;
            assert(qlt(raw, qmul(qthresh3(), pq)) == ((raw.n * p) * 10000 < 70795 * raw.d))
                by (nonlinear_arith)
                requires
                    pq == (Q { n: 1int, d: p }),
            ;
        }
        let n4: i128 = pn * 10000;
        let cd: i128 = d as i128;
        let r = if n4 < 14791 * cd {
            Rat::new(1, p10 as i64)
        } else if n4 < 31623 * cd {
            Rat::new(2, p10 as i64)
        } else if n4 < 70795 * cd {
            Rat::new(5, p10 as i64)
        } else {
            Rat::new(10, p10 as i64)
        };
        proof {
            assert(qmulint(2, pq) == Q { n: 2int, d: p } && qmulint(5, pq) == Q {
                n: 5int,
                d: p,
            } && qmulint(10, pq) == Q { n: 10int, d: p }) by (nonlinear_arith)
                requires
                    pq == (Q { n: 1int, d: p }),
            ;
            lemma_qeq_sign(r@, Q { n: if n4 < 14791 * cd { 1int } else if n4 < 31623 * cd { 2int } else if n4 < 70795 * cd { 5int } else { 10int }, d: p });
            if n4 < 14791 * cd {
                assert(qmulint(1, pq) == pq) by (nonlinear_arith);
                lemma_qeq_trans(r@, Q { n: 1int, d: p }, pq);
                assert(qeq(r@, qmulint(1, qpow10(e))));
            } else if n4 < 31623 * cd {
                lemma_qeq_trans(r@, Q { n: 2int, d: p }, qmulint(2, pq));
                assert(qeq(r@, qmulint(2, qpow10(e))));
            } else if n4 < 70795 * cd {
                lemma_qeq_trans(r@, Q { n: 5int, d: p }, qmulint(5, pq));
                assert(qeq(r@, qmulint(5, qpow10(e))));
            } else {
                lemma_qeq_trans(r@, Q { n: 10int, d: p }, qmulint(10, pq));
                lemma_qeq_trans(r@, qmulint(10, pq), qpow10(e + 1));
                assert(qmulint(1, qpow10(e + 1)) == qpow10(e + 1)) by (nonlinear_arith);
                assert(qeq(r@, qmulint(1, qpow10(e + 1))));
            }
            assert(snapped_at(raw, r@, e));
        }
        r
    }
}

/// Re-snapping a snapped step, scaled by any power of ten, returns it
/// unchanged: `find_optimal_step` is idempotent on its own outputs.
///
/// Every output has the form `m * 10^j` with `m` one of 1, 2 and 5; this
/// law says that any value of that form, handed back to the snapping
/// characterization, snaps to itself.
pub proof fn lemma_step_snapping_stable(m: int, j: int, raw2: Q, r2: Q, e2: int)
    requires
        m == 1 || m == 2 || m == 5,
        qwf(raw2),
        qwf(r2),
        qeq(raw2, qmulint(m, qpow10(j))),
        snapped_at(raw2, r2, e2),
    ensures
        qeq(r2, raw2),
{
    lemma_qpow10_wf(j);
    lemma_qpow10_wf(j + 1);
    lemma_qpow10_wf(e2);
    lemma_qpow10_wf(e2 + 1);
    let v = qmulint(m, qpow10(j));
    assert(qwf(v));
    // the magnitude of m * 10^j is j: 10^j <= m * 10^j < 10^(j+1)
    assert(qle(qpow10(j), v)) by (nonlinear_arith)
        requires
            m >= 1,
            v == qmulint(m, qpow10(j)),
            qpow10(j).n >= 1,
            qpow10(j).d >= 1,
    ;
    lemma_qpow10_succ(j);
    assert(qlt(v, qmulint(10, qpow10(j)))) by (nonlinear_arith)
        requires
            m <= 5,
            v == qmulint(m, qpow10(j)),
            qpow10(j).n >= 1,
            qpow10(j).d >= 1,
    ;
    lemma_qle_congr(v, v, qmulint(10, qpow10(j)), qpow10(j + 1));
    assert(qlt(v, qpow10(j + 1)));
    // the same two facts about raw2, through value equality
    lemma_qle_congr(qpow10(j), qpow10(j), raw2, v);
    lemma_qle_congr(raw2, v, qpow10(j + 1), qpow10(j + 1));
    // magnitudes are unique: e2 == j
    if e2 < j {
        lemma_qpow10_mono(e2 + 1, j);
        lemma_order_trans(qpow10(j), raw2, qpow10(e2 + 1));
        lemma_order_trans(qpow10(j), qpow10(e2 + 1), qpow10(j));
        assert(false);
    }
    if e2 > j {
        lemma_qpow10_mono(j + 1, e2);
        lemma_order_trans(qpow10(e2), raw2, qpow10(j + 1));
        lemma_order_trans(qpow10(e2), qpow10(j + 1), qpow10(e2));
        assert(false);
    }
    assert(e2 == j);
    // the mantissa comparisons against the thresholds, with the shared
    // power of ten cancelled
    let pq = qpow10(j);
    assert(qmulint(m, pq) == qmul(qint(m), pq)) by (nonlinear_arith);
    assert(qmul(qint(m), pq).d >= 1 && qmul(qthresh1(), pq).d >= 1 && qmul(qthresh2(), pq).d >= 1
        && qmul(qthresh3(), pq).d >= 1) by (nonlinear_arith)
        requires
            pq.d >= 1,
    ;
    lemma_qcmp_scale(qint(m), qthresh1(), pq);
    lemma_qcmp_scale(qint(m), qthresh2(), pq);
    lemma_qcmp_scale(qint(m), qthresh3(), pq);
    // comparisons transfer from v to raw2
    lemma_qle_congr(raw2, v, qmul(qthresh1(), pq), qmul(qthresh1(), pq));
    lemma_qle_congr(raw2, v, qmul(qthresh2(), pq), qmul(qthresh2(), pq));
    lemma_qle_congr(raw2, v, qmul(qthresh3(), pq), qmul(qthresh3(), pq));
    if m == 1 {
        assert(qlt(qint(1), qthresh1()));
        assert(qlt(raw2, qmul(qthresh1(), pq)));
        assert(qmulint(1, pq) == pq) by (nonlinear_arith);
        assert(qeq(r2, v));
        lemma_qeq_trans(r2, v, raw2);
    } else if m == 2 {
        assert(!qlt(qint(2), qthresh1()));
        assert(qlt(qint(2), qthresh2()));
        assert(qeq(r2, qmulint(2, pq)));
        lemma_qeq_trans(r2, v, raw2);
    } else {
        assert(!qlt(qint(5), qthresh2()));
        assert(qlt(qint(5), qthresh3()));
        assert(qeq(r2, qmulint(5, pq)));
        lemma_qeq_trans(r2, v, raw2);
    }
}

/// The snapped step stays within a factor of two of the request: for
/// every certified snapping, `raw/2 < result < 2*raw`.
pub proof fn lemma_step_within_factor_two(raw: Q, r: Q, e: int)
    requires
        qwf(raw),
        qwf(r),
        snapped_at(raw, r, e),
    ensures
        qlt(qmul(raw, Q { n: 1, d: 2 }), r),
        qlt(r, qmul(raw, qint(2))),
{
    lemma_qpow10_wf(e);
    lemma_qpow10_wf(e + 1);
    lemma_qpow10_succ(e);
    let p = qpow10(e);
    let half = Q { n: 1int, d: 2int };
    assert(qwf(qmul(raw, half)) && qwf(qmul(raw, qint(2)))) by (nonlinear_arith)
        requires
            raw.d >= 1,
            half == (Q { n: 1int, d: 2int }),
    ;
    assert(qwf(qmulint(10, p)) && qwf(p));
    // the sandwich gives raw < 10 * 10^e
    assert(qlt(raw, qmulint(10, p))) by {
        lemma_qle_congr(raw, raw, qpow10(e + 1), qmulint(10, p));
    }
    if qlt(raw, qmul(qthresh1(), p)) {
        // snapped to 1: p <= raw < 1.4791 * p
        assert(qlt(qmul(raw, half), p) && qlt(p, qmul(raw, qint(2)))) by (nonlinear_arith)
            requires
                half == (Q { n: 1int, d: 2int }),
                raw.d >= 1,
                p.n >= 1,
                p.d >= 1,
                p.n * raw.d <= raw.n * p.d,
                raw.n * (10000 * p.d) < (14791 * p.n) * raw.d,
        ;
        lemma_qle_congr(qmul(raw, half), qmul(raw, half), r, p);
        lemma_qle_congr(r, p, qmul(raw, qint(2)), qmul(raw, qint(2)));
    } else if qlt(raw, qmul(qthresh2(), p)) {
        // snapped to 2: 1.4791 * p <= raw < 3.1623 * p
        assert(qlt(qmul(raw, half), qmulint(2, p)) && qlt(qmulint(2, p), qmul(raw, qint(2))))
            by (nonlinear_arith)
            requires
                half == (Q { n: 1int, d: 2int }),
                raw.d >= 1,
                p.n >= 1,
                p.d >= 1,
                (14791 * p.n) * raw.d <= raw.n * (10000 * p.d),
                raw.n * (10000 * p.d) < (31623 * p.n) * raw.d,
        ;
        lemma_qle_congr(qmul(raw, half), qmul(raw, half), r, qmulint(2, p));
        lemma_qle_congr(r, qmulint(2, p), qmul(raw, qint(2)), qmul(raw, qint(2)));
    } else if qlt(raw, qmul(qthresh3(), p)) {
        // snapped to 5: 3.1623 * p <= raw < 7.0795 * p
        assert(qlt(qmul(raw, half), qmulint(5, p)) && qlt(qmulint(5, p), qmul(raw, qint(2))))
            by (nonlinear_arith)
            requires
                half == (Q { n: 1int, d: 2int }),
                raw.d >= 1,
                p.n >= 1,
                p.d >= 1,
                (31623 * p.n) * raw.d <= raw.n * (10000 * p.d),
                raw.n * (10000 * p.d) < (70795 * p.n) * raw.d,
        ;
        lemma_qle_congr(qmul(raw, half), qmul(raw, half), r, qmulint(5, p));
        lemma_qle_congr(r, qmulint(5, p), qmul(raw, qint(2)), qmul(raw, qint(2)));
    } else {
        // snapped to the next power of ten: 7.0795 * p <= raw < 10 * p
        assert(qlt(qmul(raw, half), qmulint(10, p)) && qlt(qmulint(10, p), qmul(raw, qint(2))))
            by (nonlinear_arith)
            requires
                half == (Q { n: 1int, d: 2int }),
                raw.d >= 1,
                p.n >= 1,
                p.d >= 1,
                (70795 * p.n) * raw.d <= raw.n * (10000 * p.d),
                raw.n * (1 * (p.d * 1)) < (10 * p.n) * raw.d,
        ;
        lemma_qeq_trans(r, qpow10(e + 1), qmulint(10, p));
        assert(qwf(qmulint(10, p)));
        lemma_qle_congr(qmul(raw, half), qmul(raw, half), r, qmulint(10, p));
        lemma_qle_congr(r, qmulint(10, p), qmul(raw, qint(2)), qmul(raw, qint(2)));
    }
}

} // verus!
