//! The uniform scale-and-offset mapping from a model-space bounding box to
//! a pixel viewport, and its exact inverse.

use crate::geom::{BoundingBoxValues, Point2d, QBox, QPoint};
use crate::rat::{
    lemma_qadd_sub_cancel, lemma_qdiv_congr, lemma_qeq_sign, lemma_qeq_trans, lemma_qle_congr,
    lemma_qmul_div_cancel, lemma_qmul_neg_neg, lemma_qmul_pos_pos, lemma_qmul_sub_dist,
    lemma_qrecip_pos, lemma_qsub_add_common, lemma_qsub_flip, lemma_qwf_ops,
    lemma_reduced_add_eq, lemma_reduced_div_eq, lemma_reduced_mul_eq, lemma_reduced_sub_eq, qadd,
    qdiv, qeq, qlt, qmin, qmul, qneg, qrecip, qreduce, qsub, qwf, qzero, representable, Q, Rat,
};
use vstd::prelude::*;

verus! {

/// A projection in model form: `screen = scale * model + offset`, with the
/// y axis flipped.
pub struct QProj {
    pub scale: Q,
    pub x_offset: Q,
    pub y_offset: Q,
}

pub open spec fn qprwf(pr: QProj) -> bool {
    qwf(pr.scale) && qwf(pr.x_offset) && qwf(pr.y_offset) && qlt(qzero(), pr.scale)
}

pub open spec fn qhalf() -> Q {
    Q { n: 1, d: 2 }
}

/// The uniform scale: the smaller of the two axis ratios, so the box fits
/// both ways.
pub open spec fn qscale_of(b: QBox, w: Q, h: Q) -> Q {
    qmin(qdiv(w, qsub(b.max_x, b.min_x)), qdiv(h, qsub(b.max_y, b.min_y)))
}

/// Horizontal offset: the fitted content centred in the viewport.
pub open spec fn qxoff_of(b: QBox, w: Q, s: Q) -> Q {
    qadd(qmul(qneg(b.min_x), s), qmul(qsub(w, qmul(qsub(b.max_x, b.min_x), s)), qhalf()))
}

/// Vertical offset: centred, with the model y axis flipped because screen
/// y grows downward.
pub open spec fn qyoff_of(b: QBox, h: Q, s: Q) -> Q {
    qadd(qmul(b.max_y, s), qmul(qsub(h, qmul(qsub(b.max_y, b.min_y), s)), qhalf()))
}

/// The projected screen x of a model point.
pub open spec fn qproj_x(pr: QProj, p: QPoint) -> Q {
    qadd(qmul(pr.scale, p.x), pr.x_offset)
}

/// The projected screen y of a model point (flipped).
pub open spec fn qproj_y(pr: QProj, p: QPoint) -> Q {
    qadd(qmul(qneg(pr.scale), p.y), pr.y_offset)
}

/// The model x a screen x maps back to.
pub open spec fn qinv_x(pr: QProj, x: Q) -> Q {
    qdiv(qsub(x, pr.x_offset), pr.scale)
}

/// The model y a screen y maps back to.
pub open spec fn qinv_y(pr: QProj, y: Q) -> Q {
    qdiv(qsub(y, pr.y_offset), qneg(pr.scale))
}

/// The stepwise computation of [`ScreenProject2d::from_bounding_box`]
/// stays within the 64-bit fields.
pub open spec fn from_bounding_box_ok(b: QBox, w: Q, h: Q) -> bool {
    let bw = qsub(b.max_x, b.min_x);
    let bh = qsub(b.max_y, b.min_y);
    representable(bw) && representable(bh) && {
        let bwr = qreduce(bw);
        let bhr = qreduce(bh);
        representable(qdiv(w, bwr)) && representable(qdiv(h, bhr)) && {
            let s = qmin(qreduce(qdiv(w, bwr)), qreduce(qdiv(h, bhr)));
            representable(qmul(bwr, s)) && representable(qmul(bhr, s)) && representable(
                qmul(qneg(b.min_x), s),
            ) && representable(qmul(b.max_y, s)) && {
                let t1 = qreduce(qmul(bwr, s));
                let u1 = qreduce(qmul(bhr, s));
                representable(qsub(w, t1)) && representable(qsub(h, u1)) && {
                    let t2 = qreduce(qsub(w, t1));
                    let u2 = qreduce(qsub(h, u1));
                    representable(qmul(t2, qhalf())) && representable(qmul(u2, qhalf())) && {
                        let t3 = qreduce(qmul(t2, qhalf()));
                        let u3 = qreduce(qmul(u2, qhalf()));
                        representable(qadd(qreduce(qmul(qneg(b.min_x), s)), t3)) && representable(
                            qadd(qreduce(qmul(b.max_y, s)), u3),
                        )
                    }
                }
            }
        }
    }
}

/// The scale as it is stored: the reduced representative of each step.
pub open spec fn stored_scale(b: QBox, w: Q, h: Q) -> Q {
    let bwr = qreduce(qsub(b.max_x, b.min_x));
    let bhr = qreduce(qsub(b.max_y, b.min_y));
    qmin(qreduce(qdiv(w, bwr)), qreduce(qdiv(h, bhr)))
}

/// The horizontal offset as it is stored.
pub open spec fn stored_x_offset(b: QBox, w: Q, h: Q) -> Q {
    let s = stored_scale(b, w, h);
    let bwr = qreduce(qsub(b.max_x, b.min_x));
    let t1 = qreduce(qmul(bwr, s));
    let t2 = qreduce(qsub(w, t1));
    let t3 = qreduce(qmul(t2, qhalf()));
    let t4 = qreduce(qmul(qneg(b.min_x), s));
    qreduce(qadd(t4, t3))
}

/// The vertical offset as it is stored.
pub open spec fn stored_y_offset(b: QBox, w: Q, h: Q) -> Q {
    let s = stored_scale(b, w, h);
    let bhr = qreduce(qsub(b.max_y, b.min_y));
    let u1 = qreduce(qmul(bhr, s));
    let u2 = qreduce(qsub(h, u1));
    let u3 = qreduce(qmul(u2, qhalf()));
    let u4 = qreduce(qmul(b.max_y, s));
    qreduce(qadd(u4, u3))
}

/// The stepwise computation of [`ScreenProject2d::project_point`] stays
/// within the 64-bit fields.
pub open spec fn project_point_ok(pr: QProj, p: QPoint) -> bool {
    representable(qmul(pr.scale, p.x)) && representable(
        qadd(qreduce(qmul(pr.scale, p.x)), pr.x_offset),
    ) && representable(qmul(qneg(pr.scale), p.y)) && representable(
        qadd(qreduce(qmul(qneg(pr.scale), p.y)), pr.y_offset),
    )
}

/// The projected x as it is stored: the reduced representative.
pub open spec fn stored_proj_x(pr: QProj, p: QPoint) -> Q {
    qreduce(qadd(qreduce(qmul(pr.scale, p.x)), pr.x_offset))
}

/// The projected y as it is stored.
pub open spec fn stored_proj_y(pr: QProj, p: QPoint) -> Q {
    qreduce(qadd(qreduce(qmul(qneg(pr.scale), p.y)), pr.y_offset))
}

/// The stepwise computation of [`ScreenProject2d::find_origin_point`]
/// stays within the 64-bit fields.
pub open spec fn find_origin_point_ok(pr: QProj, x: Q, y: Q) -> bool {
    representable(qsub(x, pr.x_offset)) && representable(
        qdiv(qreduce(qsub(x, pr.x_offset)), pr.scale),
    ) && representable(qsub(y, pr.y_offset)) && representable(
        qdiv(qreduce(qsub(y, pr.y_offset)), qneg(pr.scale)),
    )
}

/// A uniform scale-and-offset projection from model space to screen
/// space. The scale is positive; the vertical axis is flipped.
#[derive(Clone, Copy, Debug)]
pub struct ScreenProject2d {
    scale: Rat,
    x_offset: Rat,
    y_offset: Rat,
}

impl View for ScreenProject2d {
    type V = QProj;

    closed spec fn view(&self) -> QProj {
        QProj { scale: self.scale@, x_offset: self.x_offset@, y_offset: self.y_offset@ }
    }
}

impl ScreenProject2d {
    pub open spec fn wf(&self) -> bool {
        &&& qwf(self@.scale)
        &&& qwf(self@.x_offset)
        &&& qwf(self@.y_offset)
        &&& qlt(qzero(), self@.scale)
        &&& self@.scale.n <= 0x7fff_ffff_ffff_ffff
        &&& self@.scale.d <= 0x7fff_ffff_ffff_ffff
        &&& -0x7fff_ffff_ffff_ffff <= self@.x_offset.n <= 0x7fff_ffff_ffff_ffff
        &&& self@.x_offset.d <= 0x7fff_ffff_ffff_ffff
        &&& -0x7fff_ffff_ffff_ffff <= self@.y_offset.n <= 0x7fff_ffff_ffff_ffff
        &&& self@.y_offset.d <= 0x7fff_ffff_ffff_ffff
    }

    /// Fit the (already margin-expanded) box into the viewport: uniform
    /// scale, centred offsets. `None` only when an intermediate value
    /// leaves the 64-bit fields.
    pub fn from_bounding_box(bbox: &BoundingBoxValues, canvas_width: Rat, canvas_height: Rat) -> (r:
        Option<ScreenProject2d>)
        requires
            bbox.wf(),
            canvas_width.wf(),
            canvas_height.wf(),
            qlt(qzero(), canvas_width@),
            qlt(qzero(), canvas_height@),
            qlt(bbox@.min_x, bbox@.max_x),
            qlt(bbox@.min_y, bbox@.max_y),
        ensures
            r matches Some(p) ==> {
                let s = qscale_of(bbox@, canvas_width@, canvas_height@);
                &&& p.wf()
                &&& qeq(p@.scale, s)
                &&& qeq(p@.x_offset, qxoff_of(bbox@, canvas_width@, s))
                &&& qeq(p@.y_offset, qyoff_of(bbox@, canvas_height@, s))
                &&& p@.scale == stored_scale(bbox@, canvas_width@, canvas_height@)
                &&& p@.x_offset == stored_x_offset(bbox@, canvas_width@, canvas_height@)
                &&& p@.y_offset == stored_y_offset(bbox@, canvas_width@, canvas_height@)
            },
            (r is Some) == from_bounding_box_ok(bbox@, canvas_width@, canvas_height@),
    {
        let ghost b = bbox@;
        let ghost wq = canvas_width@;
        let ghost hq = canvas_height@;
        let ghost gbw = qsub(b.max_x, b.min_x);
        let ghost gbh = qsub(b.max_y, b.min_y);
        proof {
            lemma_reduced_sub_eq(bbox.max_x@, bbox.min_x@, b.max_x, b.min_x);
            lemma_reduced_sub_eq(bbox.max_y@, bbox.min_y@, b.max_y, b.min_y);
        }
        let bw = match bbox.max_x.try_sub(&bbox.min_x) {
            Some(v) => v,
            None => {
                return None;
            },
        };
        let bh = match bbox.max_y.try_sub(&bbox.min_y) {
            Some(v) => v,
            None => {
                return None;
            },
        };
        proof {
            lemma_qeq_sign(bw@, gbw);
            lemma_qeq_sign(bh@, gbh);
        }
        let sw = match canvas_width.try_div(&bw) {
            Some(v) => v,
            None => {
                return None;
            },
        };
        let sh = match canvas_height.try_div(&bh) {
            Some(v) => v,
            None => {
                return None;
            },
        };
        let ghost gsw = qdiv(wq, gbw);
        let ghost gsh = qdiv(hq, gbh);
        let ghost gs = qscale_of(b, wq, hq);
        proof {
            lemma_reduced_div_eq(wq, bw@, wq, gbw);
            lemma_reduced_div_eq(hq, bh@, hq, gbh);
            lemma_qle_congr(sw@, gsw, sh@, gsh);
            lemma_qrecip_pos(gbw);
            lemma_qrecip_pos(gbh);
            lemma_qmul_pos_pos(wq, qrecip(gbw));
            lemma_qmul_pos_pos(hq, qrecip(gbh));
        }
        let scale = sw.min(&sh);
        proof {
            lemma_qle_congr(qzero(), qzero(), scale@, gs);
        }
        let t1 = match bw.try_mul(&scale) {
            Some(v) => v,
            None => {
                return None;
            },
        };
        let u1 = match bh.try_mul(&scale) {
            Some(v) => v,
            None => {
                return None;
            },
        };
        let t4 = match bbox.min_x.neg().try_mul(&scale) {
            Some(v) => v,
            None => {
                return None;
            },
        };
        let u4 = match bbox.max_y.try_mul(&scale) {
            Some(v) => v,
            None => {
                return None;
            },
        };
        let t2 = match canvas_width.try_sub(&t1) {
            Some(v) => v,
            None => {
                return None;
            },
        };
        let u2 = match canvas_height.try_sub(&u1) {
            Some(v) => v,
            None => {
                return None;
            },
        };
        let half = Rat::half();
        let t3 = match t2.try_mul(&half) {
            Some(v) => v,
            None => {
                return None;
            },
        };
        let u3 = match u2.try_mul(&half) {
            Some(v) => v,
            None => {
                return None;
            },
        };
        let xoff = match t4.try_add(&t3) {
            Some(v) => v,
            None => {
                return None;
            },
        };
        let yoff = match u4.try_add(&u3) {
            Some(v) => v,
            None => {
                return None;
            },
        };
        proof {
            lemma_reduced_mul_eq(bw@, scale@, gbw, gs);
            lemma_reduced_mul_eq(bh@, scale@, gbh, gs);
            lemma_reduced_mul_eq(qneg(b.min_x), scale@, qneg(b.min_x), gs);
            lemma_reduced_mul_eq(b.max_y, scale@, b.max_y, gs);
            lemma_reduced_sub_eq(wq, t1@, wq, qmul(gbw, gs));
            lemma_reduced_sub_eq(hq, u1@, hq, qmul(gbh, gs));
            lemma_reduced_mul_eq(t2@, qhalf(), qsub(wq, qmul(gbw, gs)), qhalf());
            lemma_reduced_mul_eq(u2@, qhalf(), qsub(hq, qmul(gbh, gs)), qhalf());
            lemma_reduced_add_eq(
                t4@,
                t3@,
                qmul(qneg(b.min_x), gs),
                qmul(qsub(wq, qmul(gbw, gs)), qhalf()),
            );
            lemma_reduced_add_eq(
                u4@,
                u3@,
                qmul(b.max_y, gs),
                qmul(qsub(hq, qmul(gbh, gs)), qhalf()),
            );
        }
        Some(ScreenProject2d { scale, x_offset: xoff, y_offset: yoff })
    }

    /// Model point to screen point: `x' = s*x + ox`, `y' = -s*y + oy`.
    pub fn project_point(&self, p: &Point2d) -> (r: Option<(Rat, Rat)>)
        requires
            self.wf(),
            p.wf(),
        ensures
            r matches Some(v) ==> v.0.wf() && v.1.wf() && qeq(v.0@, qproj_x(self@, p@)) && qeq(
                v.1@,
                qproj_y(self@, p@),
            ) && v.0@ == stored_proj_x(self@, p@) && v.1@ == stored_proj_y(self@, p@),
            (r is Some) == project_point_ok(self@, p@),
    {
        let ghost pr = self@;
        let t = match self.scale.try_mul(&p.x) {
            Some(v) => v,
            None => {
                return None;
            },
        };
        let x = match t.try_add(&self.x_offset) {
            Some(v) => v,
            None => {
                return None;
            },
        };
        let nscale = self.scale.neg();
        let u = match nscale.try_mul(&p.y) {
            Some(v) => v,
            None => {
                return None;
            },
        };
        let y = match u.try_add(&self.y_offset) {
            Some(v) => v,
            None => {
                return None;
            },
        };
        proof {
            lemma_reduced_mul_eq(pr.scale, p@.x, pr.scale, p@.x);
            lemma_reduced_add_eq(t@, pr.x_offset, qmul(pr.scale, p@.x), pr.x_offset);
            lemma_reduced_mul_eq(qneg(pr.scale), p@.y, qneg(pr.scale), p@.y);
            lemma_reduced_add_eq(u@, pr.y_offset, qmul(qneg(pr.scale), p@.y), pr.y_offset);
        }
        Some((x, y))
    }

    /// Screen point back to model point: the exact algebraic inverse.
    pub fn find_origin_point(&self, x: &Rat, y: &Rat) -> (r: Option<(Rat, Rat)>)
        requires
            self.wf(),
            x.wf(),
            y.wf(),
        ensures
            r matches Some(v) ==> v.0.wf() && v.1.wf() && qeq(v.0@, qinv_x(self@, x@)) && qeq(
                v.1@,
                qinv_y(self@, y@),
            ),
            (r is Some) == find_origin_point_ok(self@, x@, y@),
    {
        let ghost pr = self@;
        let dx = match x.try_sub(&self.x_offset) {
            Some(v) => v,
            None => {
                return None;
            },
        };
        let mx = match dx.try_div(&self.scale) {
            Some(v) => v,
            None => {
                return None;
            },
        };
        let dy = match y.try_sub(&self.y_offset) {
            Some(v) => v,
            None => {
                return None;
            },
        };
        let nscale = self.scale.neg();
        let my = match dy.try_div(&nscale) {
            Some(v) => v,
            None => {
                return None;
            },
        };
        proof {
            lemma_reduced_sub_eq(x@, pr.x_offset, x@, pr.x_offset);
            lemma_reduced_div_eq(dx@, pr.scale, qsub(x@, pr.x_offset), pr.scale);
            lemma_reduced_sub_eq(y@, pr.y_offset, y@, pr.y_offset);
            lemma_reduced_div_eq(dy@, qneg(pr.scale), qsub(y@, pr.y_offset), qneg(pr.scale));
        }
        Some((mx, my))
    }

    /// The model-to-pixel factor.
    pub fn scale(&self) -> (r: Rat)
        ensures
            r@ == self@.scale,
    {
        self.scale
    }
}

/// Projection sends equal-valued points to equal-valued screen
/// coordinates.
pub proof fn lemma_qproj_congr(pr: QProj, p1: QPoint, p2: QPoint)
    requires
        qwf(pr.scale),
        qwf(pr.x_offset),
        qwf(pr.y_offset),
        qwf(p1.x),
        qwf(p1.y),
        qwf(p2.x),
        qwf(p2.y),
        qeq(p1.x, p2.x),
        qeq(p1.y, p2.y),
    ensures
        qeq(qproj_x(pr, p1), qproj_x(pr, p2)),
        qeq(qproj_y(pr, p1), qproj_y(pr, p2)),
{
    crate::rat::lemma_qmul_congr(pr.scale, pr.scale, p1.x, p2.x);
    lemma_qwf_ops(pr.scale, p1.x);
    lemma_qwf_ops(pr.scale, p2.x);
    crate::rat::lemma_qadd_congr(
        qmul(pr.scale, p1.x),
        qmul(pr.scale, p2.x),
        pr.x_offset,
        pr.x_offset,
    );
    lemma_qwf_ops(pr.scale, pr.scale);
    crate::rat::lemma_qmul_congr(qneg(pr.scale), qneg(pr.scale), p1.y, p2.y);
    lemma_qwf_ops(qneg(pr.scale), p1.y);
    lemma_qwf_ops(qneg(pr.scale), p2.y);
    crate::rat::lemma_qadd_congr(
        qmul(qneg(pr.scale), p1.y),
        qmul(qneg(pr.scale), p2.y),
        pr.y_offset,
        pr.y_offset,
    );
}

/// Projecting and then inverting gives the original point back, exactly.
///
/// For every well-formed projection with a positive scale and every model
/// point, the inverse mapping applied to the projected coordinates yields
/// values equal to the point's coordinates.
pub proof fn lemma_projection_round_trip(pr: QProj, p: QPoint)
    requires
        qprwf(pr),
        qwf(p.x),
        qwf(p.y),
    ensures
        qeq(qinv_x(pr, qproj_x(pr, p)), p.x),
        qeq(qinv_y(pr, qproj_y(pr, p)), p.y),
{
    let s = pr.scale;
    let mx = qmul(s, p.x);
    lemma_qwf_ops(s, p.x);
    lemma_qwf_ops(mx, pr.x_offset);
    let bx = qsub(qadd(mx, pr.x_offset), pr.x_offset);
    lemma_qwf_ops(qadd(mx, pr.x_offset), pr.x_offset);
    lemma_qwf_ops(bx, s);
    lemma_qwf_ops(mx, s);
    lemma_qadd_sub_cancel(mx, pr.x_offset);
    lemma_qmul_div_cancel(s, p.x);
    lemma_qdiv_congr(bx, mx, s, s);
    lemma_qeq_trans(qdiv(bx, s), qdiv(mx, s), p.x);
    let ns = qneg(s);
    let my = qmul(ns, p.y);
    lemma_qwf_ops(ns, p.y);
    lemma_qwf_ops(my, pr.y_offset);
    let by = qsub(qadd(my, pr.y_offset), pr.y_offset);
    lemma_qwf_ops(qadd(my, pr.y_offset), pr.y_offset);
    lemma_qwf_ops(by, ns);
    lemma_qwf_ops(my, ns);
    lemma_qadd_sub_cancel(my, pr.y_offset);
    lemma_qmul_div_cancel(ns, p.y);
    lemma_qdiv_congr(by, my, ns, ns);
    lemma_qeq_trans(qdiv(by, ns), qdiv(my, ns), p.y);
}

/// The projection never stretches the axes differently: along x and along
/// y, screen distances are the same multiple of model distances, with the
/// one positive scale.
pub proof fn lemma_projection_uniform_aspect(pr: QProj, p: QPoint, q: QPoint)
    requires
        qprwf(pr),
        qwf(p.x),
        qwf(p.y),
        qwf(q.x),
        qwf(q.y),
    ensures
        qeq(qsub(qproj_x(pr, p), qproj_x(pr, q)), qmul(pr.scale, qsub(p.x, q.x))),
        qeq(qsub(qproj_y(pr, q), qproj_y(pr, p)), qmul(pr.scale, qsub(p.y, q.y))),
{
    let s = pr.scale;
    lemma_qwf_ops(s, p.x);
    lemma_qwf_ops(s, q.x);
    lemma_qwf_ops(qmul(s, p.x), qmul(s, q.x));
    lemma_qwf_ops(p.x, q.x);
    lemma_qwf_ops(s, qsub(p.x, q.x));
    lemma_qwf_ops(qmul(s, p.x), pr.x_offset);
    lemma_qwf_ops(qmul(s, q.x), pr.x_offset);
    lemma_qwf_ops(qadd(qmul(s, p.x), pr.x_offset), qadd(qmul(s, q.x), pr.x_offset));
    lemma_qsub_add_common(qmul(s, p.x), qmul(s, q.x), pr.x_offset);
    lemma_qmul_sub_dist(s, p.x, q.x);
    lemma_qeq_trans(
        qsub(qproj_x(pr, p), qproj_x(pr, q)),
        qsub(qmul(s, p.x), qmul(s, q.x)),
        qmul(s, qsub(p.x, q.x)),
    );
    let ns = qneg(s);
    lemma_qwf_ops(ns, q.y);
    lemma_qwf_ops(ns, p.y);
    lemma_qwf_ops(qmul(ns, q.y), qmul(ns, p.y));
    lemma_qwf_ops(p.y, q.y);
    lemma_qwf_ops(s, qsub(p.y, q.y));
    lemma_qwf_ops(qmul(ns, q.y), pr.y_offset);
    lemma_qwf_ops(qmul(ns, p.y), pr.y_offset);
    lemma_qwf_ops(qadd(qmul(ns, q.y), pr.y_offset), qadd(qmul(ns, p.y), pr.y_offset));
    lemma_qsub_add_common(qmul(ns, q.y), qmul(ns, p.y), pr.y_offset);
    lemma_qmul_sub_dist(ns, q.y, p.y);
    lemma_qsub_flip(q.y, p.y);
    lemma_qmul_neg_neg(s, qsub(p.y, q.y));
    assert(qmul(ns, qsub(q.y, p.y)) == qmul(s, qsub(p.y, q.y)));
    lemma_qeq_trans(
        qsub(qproj_y(pr, q), qproj_y(pr, p)),
        qsub(qmul(ns, q.y), qmul(ns, p.y)),
        qmul(s, qsub(p.y, q.y)),
    );
}

} // verus!
