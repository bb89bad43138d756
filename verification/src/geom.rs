//! Points, bounding boxes and triangles over exact rational coordinates.

use crate::rat::{
    lemma_qeq_trans, lemma_qle_trans, lemma_qreduce_props, lemma_reduced_add_eq,
    lemma_reduced_mul_eq, lemma_reduced_sub_eq, qadd, qeq, qle, qmax, qmin, qmul, qreduce, qsub,
    qwf, qzero, representable, Q, Rat,
};
use vstd::prelude::*;

verus! {

/// A point in model space (specification model).
pub struct QPoint {
    pub x: Q,
    pub y: Q,
}

pub open spec fn qpwf(p: QPoint) -> bool {
    qwf(p.x) && qwf(p.y)
}

/// Pointwise value equality.
pub open spec fn qpeq(a: QPoint, b: QPoint) -> bool {
    qeq(a.x, b.x) && qeq(a.y, b.y)
}

/// A point in model space.
#[derive(Clone, Copy, Debug)]
pub struct Point2d {
    pub x: Rat,
    pub y: Rat,
}

impl View for Point2d {
    type V = QPoint;

    open spec fn view(&self) -> QPoint {
        QPoint { x: self.x@, y: self.y@ }
    }
}

impl Point2d {
    pub open spec fn wf(&self) -> bool {
        self.x.wf() && self.y.wf()
    }

    pub fn new(x: Rat, y: Rat) -> (r: Point2d)
        ensures
            r == (Point2d { x, y }),
    {
        Point2d { x, y }
    }

    /// Pointwise value equality.
    pub fn eq_point(&self, other: &Point2d) -> (r: bool)
        requires
            self.wf(),
            other.wf(),
        ensures
            r == qpeq(self@, other@),
    {
        self.x.eq_rat(&other.x) && self.y.eq_rat(&other.y)
    }

    /// Squared distance between two points.
    pub fn dist_square(&self, other: &Point2d) -> (r: Option<Rat>)
        requires
            self.wf(),
            other.wf(),
        ensures
            r matches Some(v) ==> v.wf() && qeq(v@, qdistsq(self@, other@)) && qwf(
                qdistsq(self@, other@),
            ),
            (r is Some) == dist_square_ok(self@, other@),
    {
        let ghost a = self@;
        let ghost b = other@;
        let dx = match self.x.try_sub(&other.x) {
            Some(v) => v,
            None => {
                return None;
            },
        };
        let dy = match self.y.try_sub(&other.y) {
            Some(v) => v,
            None => {
                return None;
            },
        };
        let sx = match dx.try_mul(&dx) {
            Some(v) => v,
            None => {
                return None;
            },
        };
        let sy = match dy.try_mul(&dy) {
            Some(v) => v,
            None => {
                return None;
            },
        };
        let r = sx.try_add(&sy);
        proof {
            let gdx = qsub(a.x, b.x);
            let gdy = qsub(a.y, b.y);
            lemma_reduced_sub_eq(self.x@, other.x@, a.x, b.x);
            lemma_reduced_sub_eq(self.y@, other.y@, a.y, b.y);
            lemma_reduced_mul_eq(dx@, dx@, gdx, gdx);
            lemma_reduced_mul_eq(dy@, dy@, gdy, gdy);
            lemma_reduced_add_eq(sx@, sy@, qmul(gdx, gdx), qmul(gdy, gdy));
            if r is Some {
                lemma_qeq_trans(
                    r.unwrap()@,
                    qreduce(qadd(sx@, sy@)),
                    qadd(qmul(gdx, gdx), qmul(gdy, gdy)),
                );
                lemma_qreduce_props(qadd(sx@, sy@));
            }
        }
        r
    }
}

/// Ideal squared distance.
pub open spec fn qdistsq(a: QPoint, b: QPoint) -> Q {
    let dx = qsub(a.x, b.x);
    let dy = qsub(a.y, b.y);
    qadd(qmul(dx, dx), qmul(dy, dy))
}

/// The stepwise computation of [`Point2d::dist_square`] stays within the
/// 64-bit fields.
pub open spec fn dist_square_ok(a: QPoint, b: QPoint) -> bool {
    representable(qsub(a.x, b.x)) && representable(qsub(a.y, b.y)) && {
        let dx = qreduce(qsub(a.x, b.x));
        let dy = qreduce(qsub(a.y, b.y));
        representable(qmul(dx, dx)) && representable(qmul(dy, dy)) && representable(
            qadd(qreduce(qmul(dx, dx)), qreduce(qmul(dy, dy))),
        )
    }
}

/// Pointwise equality is reflexive.
pub proof fn lemma_qpeq_refl(p: QPoint)
    ensures
        qpeq(p, p),
{
}

/// A bounding box with its four extremes (specification model).
pub struct QBox {
    pub min_x: Q,
    pub min_y: Q,
    pub max_x: Q,
    pub max_y: Q,
}

pub open spec fn qbwf(b: QBox) -> bool {
    qwf(b.min_x) && qwf(b.min_y) && qwf(b.max_x) && qwf(b.max_y) && qle(b.min_x, b.max_x) && qle(
        b.min_y,
        b.max_y,
    )
}

/// Extend a box to cover a point.
pub open spec fn qbox_with_point(b: QBox, p: QPoint) -> QBox {
    QBox {
        min_x: qmin(b.min_x, p.x),
        min_y: qmin(b.min_y, p.y),
        max_x: qmax(b.max_x, p.x),
        max_y: qmax(b.max_y, p.y),
    }
}

/// The box of a single point.
pub open spec fn qbox_of_point(p: QPoint) -> QBox {
    QBox { min_x: p.x, min_y: p.y, max_x: p.x, max_y: p.y }
}

/// Union of two boxes.
pub open spec fn qbox_join(a: QBox, b: QBox) -> QBox {
    QBox {
        min_x: qmin(a.min_x, b.min_x),
        min_y: qmin(a.min_y, b.min_y),
        max_x: qmax(a.max_x, b.max_x),
        max_y: qmax(a.max_y, b.max_y),
    }
}

/// Union of an optional box (`None` is the empty box, the identity).
pub open spec fn qbb_join(a: Option<QBox>, b: Option<QBox>) -> Option<QBox> {
    match (a, b) {
        (Option::None, x) => x,
        (x, Option::None) => x,
        (Option::Some(x), Option::Some(y)) => Option::Some(qbox_join(x, y)),
    }
}

pub open spec fn qbb_with_point(a: Option<QBox>, p: QPoint) -> Option<QBox> {
    match a {
        Option::None => Option::Some(qbox_of_point(p)),
        Option::Some(x) => Option::Some(qbox_with_point(x, p)),
    }
}

/// A non-empty bounding box.
#[derive(Clone, Copy, Debug)]
pub struct BoundingBoxValues {
    pub min_x: Rat,
    pub min_y: Rat,
    pub max_x: Rat,
    pub max_y: Rat,
}

impl View for BoundingBoxValues {
    type V = QBox;

    open spec fn view(&self) -> QBox {
        QBox { min_x: self.min_x@, min_y: self.min_y@, max_x: self.max_x@, max_y: self.max_y@ }
    }
}

impl BoundingBoxValues {
    pub open spec fn wf(&self) -> bool {
        &&& self.min_x.wf()
        &&& self.min_y.wf()
        &&& self.max_x.wf()
        &&& self.max_y.wf()
        &&& qle(self.min_x@, self.max_x@)
        &&& qle(self.min_y@, self.max_y@)
    }

    pub fn of_point(p: &Point2d) -> (r: BoundingBoxValues)
        requires
            p.wf(),
        ensures
            r.wf(),
            r@ == qbox_of_point(p@),
    {
        BoundingBoxValues { min_x: p.x, min_y: p.y, max_x: p.x, max_y: p.y }
    }

    pub fn with_point(&self, p: &Point2d) -> (r: BoundingBoxValues)
        requires
            self.wf(),
            p.wf(),
        ensures
            r.wf(),
            r@ == qbox_with_point(self@, p@),
    {
        proof {
            if qle(self@.max_x, p@.x) {
                lemma_qle_trans(self@.min_x, self@.max_x, p@.x);
            }
            if qle(p@.x, self@.min_x) {
                lemma_qle_trans(p@.x, self@.min_x, self@.max_x);
            }
            if qle(self@.max_y, p@.y) {
                lemma_qle_trans(self@.min_y, self@.max_y, p@.y);
            }
            if qle(p@.y, self@.min_y) {
                lemma_qle_trans(p@.y, self@.min_y, self@.max_y);
            }
        }
        BoundingBoxValues {
            min_x: self.min_x.min(&p.x),
            min_y: self.min_y.min(&p.y),
            max_x: self.max_x.max(&p.x),
            max_y: self.max_y.max(&p.y),
        }
    }

    pub fn join(&self, other: &BoundingBoxValues) -> (r: BoundingBoxValues)
        requires
            self.wf(),
            other.wf(),
        ensures
            r.wf(),
            r@ == qbox_join(self@, other@),
    {
        proof {
            if qle(self@.max_x, other@.max_x) {
                lemma_qle_trans(self@.min_x, self@.max_x, other@.max_x);
            }
            if qle(other@.max_x, self@.max_x) {
                lemma_qle_trans(other@.min_x, other@.max_x, self@.max_x);
            }
            if qle(self@.max_y, other@.max_y) {
                lemma_qle_trans(self@.min_y, self@.max_y, other@.max_y);
            }
            if qle(other@.max_y, self@.max_y) {
                lemma_qle_trans(other@.min_y, other@.max_y, self@.max_y);
            }
        }
        BoundingBoxValues {
            min_x: self.min_x.min(&other.min_x),
            min_y: self.min_y.min(&other.min_y),
            max_x: self.max_x.max(&other.max_x),
            max_y: self.max_y.max(&other.max_y),
        }
    }
}

/// The margins of the expanded box: each side moves out by the fraction
/// `f` of the box's extent on that axis.
pub open spec fn qexpand(b: QBox, f: Q) -> QBox {
    let fw = qmul(f, qsub(b.max_x, b.min_x));
    let fh = qmul(f, qsub(b.max_y, b.min_y));
    QBox {
        min_x: qsub(b.min_x, fw),
        min_y: qsub(b.min_y, fh),
        max_x: qadd(b.max_x, fw),
        max_y: qadd(b.max_y, fh),
    }
}

/// The expanded box as it is stored: the reduced representative of each
/// coordinate.
pub open spec fn stored_expand(b: QBox, f: Q) -> QBox {
    let w = qreduce(qsub(b.max_x, b.min_x));
    let h = qreduce(qsub(b.max_y, b.min_y));
    let fw = qreduce(qmul(f, w));
    let fh = qreduce(qmul(f, h));
    QBox {
        min_x: qreduce(qsub(b.min_x, fw)),
        min_y: qreduce(qsub(b.min_y, fh)),
        max_x: qreduce(qadd(b.max_x, fw)),
        max_y: qreduce(qadd(b.max_y, fh)),
    }
}

/// The stepwise computation of [`BoundingBoxValues::expand`] stays within
/// the 64-bit fields.
pub open spec fn expand_ok(b: QBox, f: Q) -> bool {
    representable(qsub(b.max_x, b.min_x)) && representable(qsub(b.max_y, b.min_y)) && {
        let w = qreduce(qsub(b.max_x, b.min_x));
        let h = qreduce(qsub(b.max_y, b.min_y));
        representable(qmul(f, w)) && representable(qmul(f, h)) && {
            let fw = qreduce(qmul(f, w));
            let fh = qreduce(qmul(f, h));
            representable(qsub(b.min_x, fw)) && representable(qadd(b.max_x, fw)) && representable(
                qsub(b.min_y, fh),
            ) && representable(qadd(b.max_y, fh))
        }
    }
}

/// Moving out by a nonnegative margin keeps the box's order.
proof fn lemma_expand_order(lo: Q, hi: Q, fw: Q)
    by (nonlinear_arith)
    requires
        qwf(lo),
        qwf(hi),
        qwf(fw),
        qle(lo, hi),
        qle(qzero(), fw),
    ensures
        qle(qsub(lo, fw), qadd(hi, fw)),
        qwf(qsub(lo, fw)),
        qwf(qadd(hi, fw)),
{
}

impl BoundingBoxValues {
    /// Grow the box by the fraction `f` of its own extent on every side,
    /// as a margin so content never touches the viewport edge. `None`
    /// when an intermediate value leaves the 64-bit fields.
    pub fn expand(&self, f: &Rat) -> (r: Option<BoundingBoxValues>)
        requires
            self.wf(),
            f.wf(),
            qle(qzero(), f@),
        ensures
            r matches Some(b) ==> {
                &&& b.wf()
                &&& qeq(b@.min_x, qexpand(self@, f@).min_x)
                &&& qeq(b@.min_y, qexpand(self@, f@).min_y)
                &&& qeq(b@.max_x, qexpand(self@, f@).max_x)
                &&& qeq(b@.max_y, qexpand(self@, f@).max_y)
                &&& b@ == stored_expand(self@, f@)
            },
            (r is Some) == expand_ok(self@, f@),
    {
        let ghost bq = self@;
        let w = match self.max_x.try_sub(&self.min_x) {
            Some(v) => v,
            None => {
                return None;
            },
        };
        let h = match self.max_y.try_sub(&self.min_y) {
            Some(v) => v,
            None => {
                return None;
            },
        };
        let fw = match f.try_mul(&w) {
            Some(v) => v,
            None => {
                return None;
            },
        };
        let fh = match f.try_mul(&h) {
            Some(v) => v,
            None => {
                return None;
            },
        };
        let min_x = match self.min_x.try_sub(&fw) {
            Some(v) => v,
            None => {
                return None;
            },
        };
        let max_x = match self.max_x.try_add(&fw) {
            Some(v) => v,
            None => {
                return None;
            },
        };
        let min_y = match self.min_y.try_sub(&fh) {
            Some(v) => v,
            None => {
                return None;
            },
        };
        let max_y = match self.max_y.try_add(&fh) {
            Some(v) => v,
            None => {
                return None;
            },
        };
        proof {
            let gw = qsub(bq.max_x, bq.min_x);
            let gh = qsub(bq.max_y, bq.min_y);
            lemma_reduced_sub_eq(self.max_x@, self.min_x@, bq.max_x, bq.min_x);
            lemma_reduced_sub_eq(self.max_y@, self.min_y@, bq.max_y, bq.min_y);
            lemma_reduced_mul_eq(f@, w@, f@, gw);
            lemma_reduced_mul_eq(f@, h@, f@, gh);
            lemma_reduced_sub_eq(self.min_x@, fw@, bq.min_x, qmul(f@, gw));
            lemma_reduced_add_eq(self.max_x@, fw@, bq.max_x, qmul(f@, gw));
            lemma_reduced_sub_eq(self.min_y@, fh@, bq.min_y, qmul(f@, gh));
            lemma_reduced_add_eq(self.max_y@, fh@, bq.max_y, qmul(f@, gh));
            let gfw = qmul(f@, gw);
            let gfh = qmul(f@, gh);
            assert(qle(qzero(), gfw) && qle(qzero(), gfh)) by (nonlinear_arith)
                requires
                    qwf(f@),
                    qwf(bq.min_x),
                    qwf(bq.max_x),
                    qwf(bq.min_y),
                    qwf(bq.max_y),
                    qle(qzero(), f@),
                    qle(bq.min_x, bq.max_x),
                    qle(bq.min_y, bq.max_y),
                    gfw == qmul(f@, qsub(bq.max_x, bq.min_x)),
                    gfh == qmul(f@, qsub(bq.max_y, bq.min_y)),
            ;
            lemma_expand_order(bq.min_x, bq.max_x, gfw);
            lemma_expand_order(bq.min_y, bq.max_y, gfh);
            crate::rat::lemma_qle_congr(min_x@, qsub(bq.min_x, gfw), max_x@, qadd(bq.max_x, gfw));
            crate::rat::lemma_qle_congr(min_y@, qsub(bq.min_y, gfh), max_y@, qadd(bq.max_y, gfh));
        }
        Some(BoundingBoxValues { min_x, min_y, max_x, max_y })
    }
}

/// A bounding box that may be empty; the empty box is the identity of the
/// union.
#[derive(Clone, Copy, Debug)]
pub enum BoundingBox {
    Empty,
    Rect(BoundingBoxValues),
}

impl View for BoundingBox {
    type V = Option<QBox>;

    open spec fn view(&self) -> Option<QBox> {
        match self {
            BoundingBox::Empty => Option::None,
            BoundingBox::Rect(v) => Option::Some(v@),
        }
    }
}

impl BoundingBox {
    pub open spec fn wf(&self) -> bool {
        self matches BoundingBox::Rect(v) ==> v.wf()
    }

    pub fn empty() -> (r: BoundingBox)
        ensures
            r@ is None,
            r.wf(),
    {
        BoundingBox::Empty
    }

    /// Grow the box to cover one more point.
    pub fn with_point(self, p: &Point2d) -> (r: BoundingBox)
        requires
            self.wf(),
            p.wf(),
        ensures
            r.wf(),
            r@ == qbb_with_point(self@, p@),
    {
        match self {
            BoundingBox::Empty => BoundingBox::Rect(BoundingBoxValues::of_point(p)),
            BoundingBox::Rect(v) => BoundingBox::Rect(v.with_point(p)),
        }
    }

    /// Union with another box.
    pub fn join(self, other: &BoundingBox) -> (r: BoundingBox)
        requires
            self.wf(),
            other.wf(),
        ensures
            r.wf(),
            r@ == qbb_join(self@, other@),
    {
        match (self, other) {
            (BoundingBox::Empty, b) => *b,
            (a, BoundingBox::Empty) => a,
            (BoundingBox::Rect(a), BoundingBox::Rect(b)) => BoundingBox::Rect(a.join(b)),
        }
    }
}

/// A triangle given by its three corners.
pub struct QTriangle {
    pub p1: QPoint,
    pub p2: QPoint,
    pub p3: QPoint,
}

pub open spec fn qtwf(t: QTriangle) -> bool {
    qpwf(t.p1) && qpwf(t.p2) && qpwf(t.p3)
}

/// Twice the signed area: the cross product of the edges leaving `p1`.
/// Positive exactly when the corners run counter-clockwise.
pub open spec fn qarea2(t: QTriangle) -> Q {
    qsub(
        qmul(qsub(t.p2.x, t.p1.x), qsub(t.p3.y, t.p1.y)),
        qmul(qsub(t.p3.x, t.p1.x), qsub(t.p2.y, t.p1.y)),
    )
}

#[derive(Clone, Copy, Debug)]
pub struct Triangle2d {
    pub p1: Point2d,
    pub p2: Point2d,
    pub p3: Point2d,
}

impl View for Triangle2d {
    type V = QTriangle;

    open spec fn view(&self) -> QTriangle {
        QTriangle { p1: self.p1@, p2: self.p2@, p3: self.p3@ }
    }
}

impl Triangle2d {
    pub open spec fn wf(&self) -> bool {
        self.p1.wf() && self.p2.wf() && self.p3.wf()
    }

    pub fn new(p1: Point2d, p2: Point2d, p3: Point2d) -> (r: Triangle2d)
        ensures
            r == (Triangle2d { p1, p2, p3 }),
    {
        Triangle2d { p1, p2, p3 }
    }

    pub fn p1(&self) -> (r: &Point2d)
        ensures
            r == self.p1,
    {
        &self.p1
    }

    pub fn p2(&self) -> (r: &Point2d)
        ensures
            r == self.p2,
    {
        &self.p2
    }

    pub fn p3(&self) -> (r: &Point2d)
        ensures
            r == self.p3,
    {
        &self.p3
    }

    /// The corner of the given index, if there is one.
    pub fn get_point(&self, idx: usize) -> (r: Option<&Point2d>)
        ensures
            r == self.spec_get_point(idx as int),
    {
        match idx {
            0 => Some(&self.p1),
            1 => Some(&self.p2),
            2 => Some(&self.p3),
            _ => None,
        }
    }

    pub open spec fn spec_get_point(&self, idx: int) -> Option<&Point2d> {
        if idx == 0 {
            Option::Some(&self.p1)
        } else if idx == 1 {
            Option::Some(&self.p2)
        } else if idx == 2 {
            Option::Some(&self.p3)
        } else {
            Option::None
        }
    }

    /// Twice the signed area of the triangle; its sign is the sign of the
    /// area itself.
    pub fn double_signed_area(&self) -> (r: Option<Rat>)
        requires
            self.wf(),
        ensures
            r matches Some(v) ==> v.wf() && qeq(v@, qarea2(self@)) && qwf(qarea2(self@)),
            (r is Some) == area2_ok(self@),
    {
        let ghost t = self@;
        let ax = match self.p2.x.try_sub(&self.p1.x) {
            Some(v) => v,
            None => {
                return None;
            },
        };
        let ay = match self.p2.y.try_sub(&self.p1.y) {
            Some(v) => v,
            None => {
                return None;
            },
        };
        let bx = match self.p3.x.try_sub(&self.p1.x) {
            Some(v) => v,
            None => {
                return None;
            },
        };
        let by = match self.p3.y.try_sub(&self.p1.y) {
            Some(v) => v,
            None => {
                return None;
            },
        };
        let u = match ax.try_mul(&by) {
            Some(v) => v,
            None => {
                return None;
            },
        };
        let w = match bx.try_mul(&ay) {
            Some(v) => v,
            None => {
                return None;
            },
        };
        let r = u.try_sub(&w);
        proof {
            let gax = qsub(t.p2.x, t.p1.x);
            let gay = qsub(t.p2.y, t.p1.y);
            let gbx = qsub(t.p3.x, t.p1.x);
            let gby = qsub(t.p3.y, t.p1.y);
            lemma_reduced_sub_eq(self.p2.x@, self.p1.x@, t.p2.x, t.p1.x);
            lemma_reduced_sub_eq(self.p2.y@, self.p1.y@, t.p2.y, t.p1.y);
            lemma_reduced_sub_eq(self.p3.x@, self.p1.x@, t.p3.x, t.p1.x);
            lemma_reduced_sub_eq(self.p3.y@, self.p1.y@, t.p3.y, t.p1.y);
            lemma_reduced_mul_eq(ax@, by@, gax, gby);
            lemma_reduced_mul_eq(bx@, ay@, gbx, gay);
            lemma_reduced_sub_eq(u@, w@, qmul(gax, gby), qmul(gbx, gay));
            if r is Some {
                lemma_qeq_trans(r.unwrap()@, qreduce(qsub(u@, w@)), qarea2(t));
                lemma_qreduce_props(qsub(u@, w@));
            }
        }
        r
    }
}

/// The stepwise computation of [`Triangle2d::double_signed_area`] stays
/// within the 64-bit fields.
pub open spec fn area2_ok(t: QTriangle) -> bool {
    representable(qsub(t.p2.x, t.p1.x)) && representable(qsub(t.p2.y, t.p1.y)) && representable(
        qsub(t.p3.x, t.p1.x),
    ) && representable(qsub(t.p3.y, t.p1.y)) && {
        let ax = qreduce(qsub(t.p2.x, t.p1.x));
        let ay = qreduce(qsub(t.p2.y, t.p1.y));
        let bx = qreduce(qsub(t.p3.x, t.p1.x));
        let by = qreduce(qsub(t.p3.y, t.p1.y));
        representable(qmul(ax, by)) && representable(qmul(bx, ay)) && representable(
            qsub(qreduce(qmul(ax, by)), qreduce(qmul(bx, ay))),
        )
    }
}

} // verus!
