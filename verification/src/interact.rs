//! Pointer interaction: hit-testing of triangle corners at a
//! zoom-dependent radius, and the drag state machine that only accepts
//! moves keeping the triangle's signed area positive.

use crate::geom::{
    area2_ok, dist_square_ok, qarea2, qdistsq, Point2d, QPoint, QTriangle, Triangle2d,
};
use crate::projection::{find_origin_point_ok, qinv_x, qinv_y, ScreenProject2d};
use crate::rat::{
    lemma_qle_congr, lemma_qmul_congr, lemma_qreduce_props, lemma_qwf_ops, qdiv, qeq, qint, qle,
    qlt, qmul, qreduce, qwf, qzero, representable, Q, Rat,
};
use vstd::prelude::*;

verus! {

/// A pointer event already mapped to model space: position, button
/// mask, and the model size of one pixel.
#[derive(Clone, Copy, Debug)]
pub struct CanvasMouseEvent {
    x: Rat,
    y: Rat,
    buttons: u16,
    resolution: Rat,
}

/// The event's model (specification only).
pub struct QMouseEvent {
    pub x: Q,
    pub y: Q,
    pub buttons: u16,
    pub resolution: Q,
}

impl View for CanvasMouseEvent {
    type V = QMouseEvent;

    closed spec fn view(&self) -> QMouseEvent {
        QMouseEvent { x: self.x@, y: self.y@, buttons: self.buttons, resolution: self.resolution@ }
    }
}

impl CanvasMouseEvent {
    pub open spec fn wf(&self) -> bool {
        &&& crate::rat::qfits(self@.x)
        &&& crate::rat::qfits(self@.y)
        &&& crate::rat::qfits(self@.resolution)
    }

    pub fn new(x: Rat, y: Rat, buttons: u16, resolution: Rat) -> (r: CanvasMouseEvent)
        ensures
            r@.x == x@,
            r@.y == y@,
            r@.buttons == buttons,
            r@.resolution == resolution@,
    {
        CanvasMouseEvent { x, y, buttons, resolution }
    }

    /// Model-space x of the pointer.
    pub fn x(&self) -> (r: Rat)
        ensures
            r@ == self@.x,
    {
        self.x
    }

    /// Model-space y of the pointer.
    pub fn y(&self) -> (r: Rat)
        ensures
            r@ == self@.y,
    {
        self.y
    }

    /// The pressed-button mask of the event.
    pub fn buttons(&self) -> (r: u16)
        ensures
            r == self@.buttons,
    {
        self.buttons
    }

    /// Model units per pixel: the reciprocal of the projection scale.
    pub fn resolution(&self) -> (r: Rat)
        ensures
            r@ == self@.resolution,
    {
        self.resolution
    }

    /// Map a raw pixel event through the inverse projection, as the
    /// render layer does before handing the event on.
    pub fn from_pixel(p: &ScreenProject2d, pixel_x: i32, pixel_y: i32, buttons: u16) -> (r: Option<
        CanvasMouseEvent,
    >)
        requires
            p.wf(),
        ensures
            r matches Some(e) ==> {
                &&& e.wf()
                &&& qeq(e@.x, qinv_x(p@, qint(pixel_x as int)))
                &&& qeq(e@.y, qinv_y(p@, qint(pixel_y as int)))
                &&& e@.buttons == buttons
                &&& qeq(e@.resolution, qdiv(qint(1), p@.scale))
            },
            (r is Some) == (find_origin_point_ok(p@, qint(pixel_x as int), qint(pixel_y as int))
                && representable(qdiv(qint(1), p@.scale))),
    {
        let gx = Rat::from_int(pixel_x as i64);
        let gy = Rat::from_int(pixel_y as i64);
        let m = match p.find_origin_point(&gx, &gy) {
            Some(v) => v,
            None => {
                return None;
            },
        };
        let one = Rat::from_int(1);
        let res = match one.try_div(&p.scale()) {
            Some(v) => v,
            None => {
                return None;
            },
        };
        proof {
            lemma_qreduce_props(qdiv(qint(1), p@.scale));
        }
        Some(CanvasMouseEvent { x: m.0, y: m.1, buttons, resolution: res })
    }
}

/// The squared pick radius: 100 square pixels, scaled to model space.
pub open spec fn qhit_radius_sq(res: Q) -> Q {
    qmul(qmul(res, res), qint(100))
}

/// Corner `i` of the triangle.
pub open spec fn qcorner(t: QTriangle, i: int) -> QPoint {
    if i == 0 {
        t.p1
    } else if i == 1 {
        t.p2
    } else {
        t.p3
    }
}

/// The pointer hits corner `i`: its squared distance to the pointer is
/// within the squared pick radius.
pub open spec fn corner_hit(t: QTriangle, i: int, m: QPoint, res: Q) -> bool {
    qle(qdistsq(qcorner(t, i), m), qhit_radius_sq(res))
}

/// The stepwise hit-test arithmetic stays within the 64-bit fields.
pub open spec fn hover_ok(t: QTriangle, m: QPoint, res: Q) -> bool {
    &&& representable(qmul(res, res))
    &&& representable(qmul(qreduce(qmul(res, res)), qint(100)))
    &&& dist_square_ok(t.p1, m)
    &&& dist_square_ok(t.p2, m)
    &&& dist_square_ok(t.p3, m)
}

/// The corner under the pointer, if any: of the corners within the pick
/// radius, the one with the highest index wins. The outer `None` means
/// the arithmetic left the 64-bit fields.
pub fn find_hovered_corner(t: &Triangle2d, mouse: &Point2d, resolution: &Rat) -> (r: Option<
    Option<usize>,
>)
    requires
        t.wf(),
        mouse.wf(),
        resolution.wf(),
    ensures
        r matches Some(sel) ==> {
            &&& (sel matches Some(i) ==> 0 <= i < 3 && corner_hit(t@, i as int, mouse@, resolution@)
                && (forall|j: int| i < j < 3 ==> !corner_hit(t@, j, mouse@, resolution@)))
            &&& (sel is None ==> forall|i: int| 0 <= i < 3 ==> !corner_hit(t@, i, mouse@, resolution@))
        },
        (r is Some) == hover_ok(t@, mouse@, resolution@),
{
    let rr = match resolution.try_mul(resolution) {
        Some(v) => v,
        None => {
            return None;
        },
    };
    let hundred = Rat::from_int(100);
    let rsq = match rr.try_mul(&hundred) {
        Some(v) => v,
        None => {
            return None;
        },
    };
    let d1 = match t.p1().dist_square(mouse) {
        Some(v) => v,
        None => {
            return None;
        },
    };
    let d2 = match t.p2().dist_square(mouse) {
        Some(v) => v,
        None => {
            return None;
        },
    };
    let d3 = match t.p3().dist_square(mouse) {
        Some(v) => v,
        None => {
            return None;
        },
    };
    proof {
        let res = resolution@;
        lemma_qwf_ops(res, res);
        lemma_qreduce_props(qmul(res, res));
        lemma_qmul_congr(rr@, qmul(res, res), qint(100), qint(100));
        lemma_qreduce_props(qmul(rr@, qint(100)));
        lemma_qwf_ops(rr@, qint(100));
        lemma_qwf_ops(qmul(res, res), qint(100));
        crate::rat::lemma_qeq_trans(rsq@, qmul(rr@, qint(100)), qhit_radius_sq(res));
        lemma_qle_congr(d1@, qdistsq(t@.p1, mouse@), rsq@, qhit_radius_sq(res));
        lemma_qle_congr(d2@, qdistsq(t@.p2, mouse@), rsq@, qhit_radius_sq(res));
        lemma_qle_congr(d3@, qdistsq(t@.p3, mouse@), rsq@, qhit_radius_sq(res));
    }
    let mut found: Option<usize> = None;
    if d1.le(&rsq) {
        found = Some(0);
    }
    if d2.le(&rsq) {
        found = Some(1);
    }
    if d3.le(&rsq) {
        found = Some(2);
    }
    Some(found)
}

/// Halving the resolution (that is, doubling the projection scale)
/// quarters the squared pick radius: a pointer offset hits at the finer
/// resolution exactly when four times its squared distance hit at the
/// coarser one. The model-space pick radius halves as the scale doubles.
pub proof fn lemma_hit_radius_halves(res: Q, res2: Q, dsq: Q)
    requires
        qwf(res),
        qwf(res2),
        qwf(dsq),
        qeq(res2, qmul(res, Q { n: 1, d: 2 })),
    ensures
        qle(dsq, qhit_radius_sq(res2)) == qle(qmul(qint(4), dsq), qhit_radius_sq(res)),
{
    let half = Q { n: 1, d: 2 };
    lemma_qwf_ops(res, half);
    lemma_qmul_congr(res2, qmul(res, half), res2, qmul(res, half));
    lemma_qwf_ops(res2, res2);
    lemma_qwf_ops(qmul(res, half), qmul(res, half));
    lemma_qmul_congr(qmul(res2, res2), qmul(qmul(res, half), qmul(res, half)), qint(100), qint(
        100,
    ));
    lemma_qwf_ops(qmul(res2, res2), qint(100));
    lemma_qwf_ops(qmul(qmul(res, half), qmul(res, half)), qint(100));
    lemma_qle_congr(
        dsq,
        dsq,
        qhit_radius_sq(res2),
        qmul(qmul(qmul(res, half), qmul(res, half)), qint(100)),
    );
    assert(qle(dsq, qmul(qmul(qmul(res, half), qmul(res, half)), qint(100))) == qle(
        qmul(qint(4), dsq),
        qhit_radius_sq(res),
    )) by (nonlinear_arith)
        requires
            qwf(res),
            qwf(dsq),
            half == (Q { n: 1, d: 2 }),
    ;
}

/// Replace one corner of a triangle, holding the other two fixed.
pub open spec fn qreplace_corner(t: QTriangle, i: int, p: QPoint) -> QTriangle {
    if i == 0 {
        QTriangle { p1: p, p2: t.p2, p3: t.p3 }
    } else if i == 1 {
        QTriangle { p1: t.p1, p2: p, p3: t.p3 }
    } else {
        QTriangle { p1: t.p1, p2: t.p2, p3: p }
    }
}

/// Propose a corner move. The move is accepted exactly when the
/// candidate triangle's signed area is computable and strictly
/// positive; otherwise the proposal is discarded and the caller keeps
/// the old triangle.
pub fn try_move_corner(t: &Triangle2d, idx: usize, new_pt: &Point2d) -> (r: Option<Triangle2d>)
    requires
        t.wf(),
        new_pt.wf(),
        idx < 3,
    ensures
        r matches Some(t2) ==> {
            &&& t2.wf()
            &&& t2@ == qreplace_corner(t@, idx as int, new_pt@)
            &&& qlt(qzero(), qarea2(t2@))
        },
        (r is Some) == (area2_ok(qreplace_corner(t@, idx as int, new_pt@)) && qlt(
            qzero(),
            qarea2(qreplace_corner(t@, idx as int, new_pt@)),
        )),
{
    let cand = if idx == 0 {
        Triangle2d::new(*new_pt, *t.p2(), *t.p3())
    } else if idx == 1 {
        Triangle2d::new(*t.p1(), *new_pt, *t.p3())
    } else {
        Triangle2d::new(*t.p1(), *t.p2(), *new_pt)
    };
    let area = match cand.double_signed_area() {
        Some(v) => v,
        None => {
            return None;
        },
    };
    proof {
        lemma_qle_congr(qzero(), qzero(), area@, qarea2(cand@));
    }
    if Rat::zero().lt(&area) {
        Some(cand)
    } else {
        None
    }
}

/// The interactive session's state: the editable triangle and the
/// selected corner, if any. The signed area stays positive in every
/// observable state.
#[derive(Clone, Copy, Debug)]
pub struct InteractionState {
    pub triangle: Triangle2d,
    pub selection: Option<usize>,
}

impl InteractionState {
    pub open spec fn wf(&self) -> bool {
        &&& self.triangle.wf()
        &&& qlt(qzero(), qarea2(self.triangle@))
        &&& self.selection matches Some(i) ==> i < 3
    }

    /// Start a session; refused unless the triangle's signed area is
    /// computable and positive.
    pub fn new(triangle: Triangle2d) -> (r: Option<InteractionState>)
        requires
            triangle.wf(),
        ensures
            r matches Some(s) ==> s.wf() && s.triangle == triangle && s.selection is None,
            (r is Some) == (area2_ok(triangle@) && qlt(qzero(), qarea2(triangle@))),
    {
        let area = match triangle.double_signed_area() {
            Some(v) => v,
            None => {
                return None;
            },
        };
        proof {
            lemma_qle_congr(qzero(), qzero(), area@, qarea2(triangle@));
        }
        if Rat::zero().lt(&area) {
            Some(InteractionState { triangle, selection: None })
        } else {
            None
        }
    }

    /// One pointer event. While the primary button is held and a corner
    /// is selected, the event proposes a move of that corner, accepted
    /// only if the triangle stays non-degenerate; otherwise the nearest
    /// corner within the pick radius is hovered. The flag says whether
    /// anything observable changed (so a caller can skip a redraw).
    pub fn update(&self, event: &CanvasMouseEvent) -> (r: (InteractionState, bool))
        requires
            self.wf(),
            event.wf(),
        ensures
            r.0.wf(),
            qlt(qzero(), qarea2(r.0.triangle@)),
            (self.spec_has_drag(event)) ==> {
                let i = self.selection.unwrap() as int;
                let cand = qreplace_corner(
                    self.triangle@,
                    i,
                    QPoint { x: event@.x, y: event@.y },
                );
                &&& (area2_ok(cand) && qlt(qzero(), qarea2(cand))) ==> (r.0.triangle@ == cand
                    && r.0.selection == self.selection && r.1 == true)
                &&& !(area2_ok(cand) && qlt(qzero(), qarea2(cand))) ==> (r.0 == *self && r.1
                    == false)
            },
            !(self.spec_has_drag(event)) ==> {
                &&& r.0.triangle == self.triangle
                &&& hover_ok(
                    self.triangle@,
                    QPoint { x: event@.x, y: event@.y },
                    event@.resolution,
                ) ==> {
                    &&& (r.0.selection matches Some(i) ==> 0 <= i < 3 && corner_hit(
                        self.triangle@,
                        i as int,
                        QPoint { x: event@.x, y: event@.y },
                        event@.resolution,
                    ) && (forall|j: int|
                        i < j < 3 ==> !corner_hit(
                            self.triangle@,
                            j,
                            QPoint { x: event@.x, y: event@.y },
                            event@.resolution,
                        )))
                    &&& (r.0.selection is None ==> forall|i: int|
                        0 <= i < 3 ==> !corner_hit(
                            self.triangle@,
                            i,
                            QPoint { x: event@.x, y: event@.y },
                            event@.resolution,
                        ))
                    &&& r.1 == (r.0.selection != self.selection)
                }
                &&& !hover_ok(
                    self.triangle@,
                    QPoint { x: event@.x, y: event@.y },
                    event@.resolution,
                ) ==> (r.0 == *self && r.1 == false)
            },
    {
        let mouse = Point2d::new(event.x(), event.y());
        if (event.buttons() & 1) != 0 && self.selection.is_some() {
            let idx = match self.selection {
                Some(i) => i,
                None => 0,
            };
            match try_move_corner(&self.triangle, idx, &mouse) {
                Some(t2) => (InteractionState { triangle: t2, selection: self.selection }, true),
                None => (*self, false),
            }
        } else {
            match find_hovered_corner(&self.triangle, &mouse, &event.resolution()) {
                Some(found) => {
                    let changed = !same_selection(&found, &self.selection);
                    if changed {
                        (InteractionState { triangle: self.triangle, selection: found }, true)
                    } else {
                        (*self, false)
                    }
                },
                None => (*self, false),
            }
        }
    }

    /// The event continues a drag: the primary button is held and a
    /// corner is selected.
    pub open spec fn spec_has_drag(&self, event: &CanvasMouseEvent) -> bool {
        (event@.buttons & 1) != 0 && self.selection is Some
    }
}

fn same_selection(a: &Option<usize>, b: &Option<usize>) -> (r: bool)
    ensures
        r == (a == b),
{
    match (a, b) {
        (Some(x), Some(y)) => *x == *y,
        (None, None) => true,
        _ => false,
    }
}

} // verus!
