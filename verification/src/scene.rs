//! Scene construction: turning the tagged outcome of a polygon cut into
//! drawable figures, with unresolvable fragments dropped rather than
//! failing the whole scene.

use crate::display::{qpoints_of, AnyGeometry, CssColor, CssStyle, Figure};
use crate::geom::{qpeq, Point2d, QPoint, Triangle2d};
use crate::rat::{
    lemma_qeq_trans, lemma_qreduce_props, lemma_reduced_add_eq,
    lemma_reduced_mul_eq, lemma_reduced_sub_eq, qadd, qeq, qmul, qreduce, qsub, representable,
    Q, Rat,
};
use vstd::prelude::*;

verus! {

/// Where a cut enters or leaves the cut polygon: the edge it crosses and
/// the position along that edge, from 0 at its start to 1 at its end.
#[derive(Clone, Copy, Debug)]
pub struct CutCoordinate {
    pub start_pt_idx: usize,
    pub polygon_pos: Rat,
}

/// A cut coordinate in model form.
pub struct QCutCoordinate {
    pub start_pt_idx: int,
    pub polygon_pos: Q,
}

impl View for CutCoordinate {
    type V = QCutCoordinate;

    open spec fn view(&self) -> QCutCoordinate {
        QCutCoordinate { start_pt_idx: self.start_pt_idx as int, polygon_pos: self.polygon_pos@ }
    }
}

impl CutCoordinate {
    pub open spec fn wf(&self) -> bool {
        self.polygon_pos.wf()
    }

    pub fn new(start_pt_idx: usize, polygon_pos: Rat) -> (r: CutCoordinate)
        ensures
            r == (CutCoordinate { start_pt_idx, polygon_pos }),
    {
        CutCoordinate { start_pt_idx, polygon_pos }
    }

    pub fn start_pt_idx(&self) -> (r: usize)
        ensures
            r as int == self@.start_pt_idx,
    {
        self.start_pt_idx
    }

    pub fn polygon_pos(&self) -> (r: Rat)
        ensures
            r@ == self@.polygon_pos,
    {
        self.polygon_pos
    }
}

/// One fragment of the cut polygon's boundary between two cuts: where it
/// starts, where it ends, and the polygon corners copied in between.
#[derive(Clone, Debug)]
pub struct CutSegment {
    pub start_cut: CutCoordinate,
    pub end_cut: CutCoordinate,
    pub copy_points: Vec<usize>,
}

/// A cut segment in model form.
pub struct QCutSegment {
    pub start_cut: QCutCoordinate,
    pub end_cut: QCutCoordinate,
    pub copy_points: Seq<int>,
}

impl View for CutSegment {
    type V = QCutSegment;

    open spec fn view(&self) -> QCutSegment {
        QCutSegment {
            start_cut: self.start_cut@,
            end_cut: self.end_cut@,
            copy_points: self.copy_points@.map_values(|i: usize| i as int),
        }
    }
}

impl CutSegment {
    pub open spec fn wf(&self) -> bool {
        self.start_cut.wf() && self.end_cut.wf()
    }

    pub fn new(start_cut: CutCoordinate, end_cut: CutCoordinate, copy_points: Vec<usize>) -> (r:
        CutSegment)
        ensures
            r == (CutSegment { start_cut, end_cut, copy_points }),
    {
        CutSegment { start_cut, end_cut, copy_points }
    }

    pub fn start_cut(&self) -> (r: &CutCoordinate)
        ensures
            r == self.start_cut,
    {
        &self.start_cut
    }

    pub fn end_cut(&self) -> (r: &CutCoordinate)
        ensures
            r == self.end_cut,
    {
        &self.end_cut
    }
}

/// The outcome of cutting one polygon with another.
#[derive(Clone, Debug)]
pub enum PolygonPath {
    /// The cutting polygon lies fully inside.
    Enclosed,
    /// The boundary is cut into fragments.
    CutSegments(Vec<CutSegment>),
    /// The polygons do not intersect.
    Disjoint,
}

/// The point a fraction of the way from `a` to `b`.
pub open spec fn qalong(a: Q, b: Q, pos: Q) -> Q {
    qadd(a, qmul(pos, qsub(b, a)))
}

pub open spec fn qpt_along(a: QPoint, b: QPoint, pos: Q) -> QPoint {
    QPoint { x: qalong(a.x, b.x, pos), y: qalong(a.y, b.y, pos) }
}

/// The stepwise interpolation stays within the 64-bit fields.
pub open spec fn along_ok(a: Q, b: Q, pos: Q) -> bool {
    representable(qsub(b, a)) && representable(qmul(pos, qreduce(qsub(b, a))))
        && representable(qadd(a, qreduce(qmul(pos, qreduce(qsub(b, a))))))
}

pub open spec fn pt_along_ok(a: QPoint, b: QPoint, pos: Q) -> bool {
    along_ok(a.x, b.x, pos) && along_ok(a.y, b.y, pos)
}

fn along(a: &Rat, b: &Rat, pos: &Rat) -> (r: Option<Rat>)
    requires
        a.wf(),
        b.wf(),
        pos.wf(),
    ensures
        r matches Some(v) ==> v.wf() && qeq(v@, qalong(a@, b@, pos@)),
        (r is Some) == along_ok(a@, b@, pos@),
{
    let d = match b.try_sub(a) {
        Some(v) => v,
        None => {
            return None;
        },
    };
    let m = match pos.try_mul(&d) {
        Some(v) => v,
        None => {
            return None;
        },
    };
    let r = a.try_add(&m);
    proof {
        lemma_reduced_sub_eq(b@, a@, b@, a@);
        lemma_reduced_mul_eq(pos@, d@, pos@, qsub(b@, a@));
        lemma_reduced_add_eq(a@, m@, a@, qmul(pos@, qsub(b@, a@)));
        if r is Some {
            lemma_qeq_trans(r.unwrap()@, qreduce(qadd(a@, m@)), qalong(a@, b@, pos@));
            lemma_qreduce_props(qadd(a@, m@));
        }
    }
    r
}

/// The point a fraction of the way along the line from `a` to `b`.
pub fn pt_along(a: &Point2d, b: &Point2d, pos: &Rat) -> (r: Option<Point2d>)
    requires
        a.wf(),
        b.wf(),
        pos.wf(),
    ensures
        r matches Some(p) ==> p.wf() && qpeq(p@, qpt_along(a@, b@, pos@)),
        (r is Some) == pt_along_ok(a@, b@, pos@),
{
    let x = match along(&a.x, &b.x, pos) {
        Some(v) => v,
        None => {
            return None;
        },
    };
    let y = match along(&a.y, &b.y, pos) {
        Some(v) => v,
        None => {
            return None;
        },
    };
    Some(Point2d { x, y })
}

/// The fragment's boundary can be resolved against the polygon: the cut
/// edges and all copied corners exist, and the interpolation fits.
pub open spec fn segment_ok(pts: Seq<QPoint>, seg: QCutSegment) -> bool {
    let n = pts.len() as int;
    &&& n > 0
    &&& 0 <= seg.start_cut.start_pt_idx < n
    &&& 0 <= seg.end_cut.start_pt_idx < n
    &&& (forall|j: int| 0 <= j < seg.copy_points.len() ==> 0 <= #[trigger] seg.copy_points[j] < n)
    &&& pt_along_ok(
        pts[seg.start_cut.start_pt_idx],
        pts[(seg.start_cut.start_pt_idx + 1) % n],
        seg.start_cut.polygon_pos,
    )
    &&& pt_along_ok(
        pts[seg.end_cut.start_pt_idx],
        pts[(seg.end_cut.start_pt_idx + 1) % n],
        seg.end_cut.polygon_pos,
    )
}

/// The ideal point run of a resolved fragment: the entry point, the
/// copied corners, the exit point.
pub open spec fn spec_segment_points(pts: Seq<QPoint>, seg: QCutSegment) -> Seq<QPoint> {
    let n = pts.len() as int;
    Seq::new(
        (seg.copy_points.len() + 2) as nat,
        |k: int|
            if k == 0 {
                qpt_along(
                    pts[seg.start_cut.start_pt_idx],
                    pts[(seg.start_cut.start_pt_idx + 1) % n],
                    seg.start_cut.polygon_pos,
                )
            } else if k <= seg.copy_points.len() {
                pts[seg.copy_points[k - 1]]
            } else {
                qpt_along(
                    pts[seg.end_cut.start_pt_idx],
                    pts[(seg.end_cut.start_pt_idx + 1) % n],
                    seg.end_cut.polygon_pos,
                )
            },
    )
}

/// Resolve one cut fragment against the cut polygon, or report that it
/// cannot be resolved.
pub fn cut_segment_points(poly: &Vec<Point2d>, seg: &CutSegment) -> (r: Option<Vec<Point2d>>)
    requires
        forall|i: int| 0 <= i < poly@.len() ==> (#[trigger] poly@[i]).wf(),
        seg.wf(),
    ensures
        r matches Some(v) ==> {
            &&& forall|i: int| 0 <= i < v@.len() ==> (#[trigger] v@[i]).wf()
            &&& v@.len() == seg@.copy_points.len() + 2
            &&& forall|i: int|
                0 <= i < v@.len() ==> qpeq(
                    #[trigger] qpoints_of(v@)[i],
                    spec_segment_points(qpoints_of(poly@), seg@)[i],
                )
        },
        (r is Some) == segment_ok(qpoints_of(poly@), seg@),
{
    let n = poly.len();
    if n == 0 {
        return None;
    }
    let si = seg.start_cut.start_pt_idx;
    let ei = seg.end_cut.start_pt_idx;
    if si >= n || ei >= n {
        return None;
    }
    let mut ok = true;
    let mut j: usize = 0;
    while j < seg.copy_points.len()
        invariant
            0 <= j <= seg.copy_points@.len(),
            n == poly@.len(),
            ok ==> forall|k: int| 0 <= k < j ==> 0 <= #[trigger] seg.copy_points@[k] < n,
            !ok ==> exists|k: int| 0 <= k < j && !(0 <= #[trigger] seg.copy_points@[k] < n),
        decreases seg.copy_points@.len() - j,
    {
        if seg.copy_points[j] >= n {
            ok = false;
        }
        j = j + 1;
    }
    if !ok {
        proof {
            let k = choose|k: int|
                0 <= k < seg.copy_points@.len() && !(0 <= #[trigger] seg.copy_points@[k] < n);
            assert(seg@.copy_points[k] == seg.copy_points@[k]);
        }
        return None;
    }
    proof {
        assert(forall|k: int|
            0 <= k < seg.copy_points@.len() ==> seg@.copy_points[k] == #[trigger] (
            seg.copy_points@[k] as int));
        assert(forall|k: int|
            0 <= k < seg@.copy_points.len() ==> 0 <= #[trigger] seg@.copy_points[k] < n);
    }
    let start_pt = match pt_along(&poly[si], &poly[(si + 1) % n], &seg.start_cut.polygon_pos) {
        Some(v) => v,
        None => {
            return None;
        },
    };
    let end_pt = match pt_along(&poly[ei], &poly[(ei + 1) % n], &seg.end_cut.polygon_pos) {
        Some(v) => v,
        None => {
            return None;
        },
    };
    let ghost qpts = qpoints_of(poly@);
    let mut out: Vec<Point2d> = Vec::new();
    out.push(start_pt);
    let mut j: usize = 0;
    while j < seg.copy_points.len()
        invariant
            0 <= j <= seg.copy_points@.len(),
            n == poly@.len(),
            n > 0,
            forall|i: int| 0 <= i < poly@.len() ==> (#[trigger] poly@[i]).wf(),
            forall|k: int| 0 <= k < seg.copy_points@.len() ==> 0 <= #[trigger] seg.copy_points@[k] < n,
            qpts == qpoints_of(poly@),
            out@.len() == j + 1,
            forall|i: int| 0 <= i < out@.len() ==> (#[trigger] out@[i]).wf(),
            qpeq(out@[0]@, spec_segment_points(qpts, seg@)[0]),
            forall|k: int|
                1 <= k <= j ==> qpeq(
                    #[trigger] out@[k]@,
                    qpts[seg@.copy_points[k - 1]],
                ),
        decreases seg.copy_points@.len() - j,
    {
        let idx = seg.copy_points[j];
        out.push(poly[idx]);
        proof {
            assert(out@[j + 1]@ == poly@[idx as int]@);
            assert(qpts[idx as int] == poly@[idx as int]@);
            crate::geom::lemma_qpeq_refl(poly@[idx as int]@);
        }
        j = j + 1;
    }
    out.push(end_pt);
    proof {
        let sp = spec_segment_points(qpts, seg@);
        assert(out@.len() == seg@.copy_points.len() + 2);
        assert forall|i: int| 0 <= i < out@.len() implies qpeq(
            #[trigger] qpoints_of(out@)[i],
            sp[i],
        ) by {
            assert(qpoints_of(out@)[i] == out@[i]@);
            if i == 0 {
            } else if i <= seg@.copy_points.len() {
                assert(qpeq(out@[i]@, qpts[seg@.copy_points[i - 1]]));
            } else {
                assert(out@[i] == end_pt);
            }
        }
    }
    Some(out)
}

/// The resolved fragments of a cut, in order; unresolvable fragments are
/// dropped.
pub open spec fn spec_cut_lines(pts: Seq<QPoint>, segs: Seq<QCutSegment>) -> Seq<Seq<QPoint>>
    decreases segs.len(),
{
    if segs.len() == 0 {
        Seq::empty()
    } else {
        let rest = spec_cut_lines(pts, segs.drop_last());
        if segment_ok(pts, segs.last()) {
            rest.push(spec_segment_points(pts, segs.last()))
        } else {
            rest
        }
    }
}

pub open spec fn qsegs_of(v: Seq<CutSegment>) -> Seq<QCutSegment> {
    v.map_values(|s: CutSegment| s@)
}

/// A figure is a red polyline whose points stand for the given ideal
/// points.
pub open spec fn is_red_lines(f: crate::display::QFigure, pts: Seq<QPoint>) -> bool {
    &&& f.style == CssStyle::Color(CssColor::Red)
    &&& f.geometry matches crate::display::QGeometry::Lines(s) && s.len() == pts.len() && (forall|
        i: int,
    |
        0 <= i < s.len() ==> qpeq(#[trigger] s[i], pts[i]))
}

/// Figures for the outcome of a cut: the enclosed cutter as a red
/// outline, each resolvable fragment as a red polyline, or nothing.
pub fn cut_path_figures(cut_polygon: &Vec<Point2d>, path: &PolygonPath) -> (r: Vec<Figure>)
    requires
        forall|i: int| 0 <= i < cut_polygon@.len() ==> (#[trigger] cut_polygon@[i]).wf(),
        path matches PolygonPath::CutSegments(segs) ==> forall|i: int|
            0 <= i < segs@.len() ==> (#[trigger] segs@[i]).wf(),
    ensures
        forall|i: int| 0 <= i < r@.len() ==> (#[trigger] r@[i]).wf(),
        path is Enclosed ==> r@.len() == 1 && r@[0]@.style == CssStyle::Color(CssColor::Red)
            && r@[0]@.geometry == crate::display::QGeometry::Polygon(qpoints_of(cut_polygon@)),
        path matches PolygonPath::CutSegments(segs) ==> {
            let lines = spec_cut_lines(qpoints_of(cut_polygon@), qsegs_of(segs@));
            &&& r@.len() == lines.len()
            &&& forall|i: int| 0 <= i < r@.len() ==> is_red_lines(#[trigger] r@[i]@, lines[i])
        },
        path is Disjoint ==> r@.len() == 0,
{
    let red = CssStyle::Color(CssColor::Red);
    match path {
        PolygonPath::Enclosed => {
            let mut loop_pts: Vec<Point2d> = Vec::new();
            let mut i: usize = 0;
            while i < cut_polygon.len()
                invariant
                    0 <= i <= cut_polygon@.len(),
                    forall|k: int| 0 <= k < cut_polygon@.len() ==> (#[trigger] cut_polygon@[k]).wf(),
                    loop_pts@ == cut_polygon@.take(i as int),
                decreases cut_polygon@.len() - i,
            {
                loop_pts.push(cut_polygon[i]);
                i = i + 1;
            }
            proof {
                assert(cut_polygon@.take(cut_polygon@.len() as int) =~= cut_polygon@);
            }
            let fig = Figure::polygon(red, loop_pts);
            let mut out: Vec<Figure> = Vec::new();
            out.push(fig);
            out
        },
        PolygonPath::CutSegments(segs) => {
            let ghost qpts = qpoints_of(cut_polygon@);
            let mut out: Vec<Figure> = Vec::new();
            let mut i: usize = 0;
            while i < segs.len()
                invariant
                    0 <= i <= segs@.len(),
                    forall|k: int| 0 <= k < cut_polygon@.len() ==> (#[trigger] cut_polygon@[k]).wf(),
                    forall|k: int| 0 <= k < segs@.len() ==> (#[trigger] segs@[k]).wf(),
                    qpts == qpoints_of(cut_polygon@),
                    out@.len() == spec_cut_lines(qpts, qsegs_of(segs@).take(i as int)).len(),
                    forall|k: int|
                        0 <= k < out@.len() ==> (#[trigger] out@[k]).wf() && is_red_lines(
                            out@[k]@,
                            spec_cut_lines(qpts, qsegs_of(segs@).take(i as int))[k],
                        ),
                decreases segs@.len() - i,
            {
                let ghost pre = qsegs_of(segs@).take(i as int);
                let ghost post = qsegs_of(segs@).take(i + 1);
                proof {
                    assert(post.drop_last() =~= pre);
                    assert(post.last() == qsegs_of(segs@)[i as int]);
                    assert(qsegs_of(segs@)[i as int] == segs@[i as int]@);
                }
                match cut_segment_points(cut_polygon, &segs[i]) {
                    Some(pts) => {
                        out.push(Figure::lines(CssStyle::Color(CssColor::Red), pts));
                    },
                    None => {},
                }
                i = i + 1;
            }
            proof {
                assert(qsegs_of(segs@).take(segs@.len() as int) =~= qsegs_of(segs@));
            }
            out
        },
        PolygonPath::Disjoint => Vec::new(),
    }
}

/// The corner loop of a triangle, in order.
pub fn triangle_points(t: &Triangle2d) -> (r: Vec<Point2d>)
    ensures
        r@.len() == 3,
        r@[0] == t.p1,
        r@[1] == t.p2,
        r@[2] == t.p3,
{
    let mut v: Vec<Point2d> = Vec::new();
    v.push(*t.p1());
    v.push(*t.p2());
    v.push(*t.p3());
    v
}

/// One outlined figure per triangle, all in the given style.
pub fn triangle_figures(ts: &Vec<Triangle2d>, style: CssStyle) -> (r: Vec<Figure>)
    requires
        forall|i: int| 0 <= i < ts@.len() ==> (#[trigger] ts@[i]).wf(),
    ensures
        r@.len() == ts@.len(),
        forall|i: int|
            0 <= i < r@.len() ==> {
                &&& (#[trigger] r@[i]).wf()
                &&& r@[i]@.style == style
                &&& r@[i]@.geometry matches crate::display::QGeometry::Polygon(s) && s.len() == 3
                    && s[0] == ts@[i]@.p1 && s[1] == ts@[i]@.p2 && s[2] == ts@[i]@.p3
            },
    {
    let mut out: Vec<Figure> = Vec::new();
    let mut i: usize = 0;
    while i < ts.len()
        invariant
            0 <= i <= ts@.len(),
            forall|k: int| 0 <= k < ts@.len() ==> (#[trigger] ts@[k]).wf(),
            out@.len() == i,
            forall|k: int|
                0 <= k < i ==> {
                    &&& (#[trigger] out@[k]).wf()
                    &&& out@[k]@.style == style
                    &&& out@[k]@.geometry matches crate::display::QGeometry::Polygon(s) && s.len()
                        == 3 && s[0] == ts@[k]@.p1 && s[1] == ts@[k]@.p2 && s[2] == ts@[k]@.p3
                },
        decreases ts@.len() - i,
    {
        let pts = triangle_points(&ts[i]);
        out.push(Figure::polygon(style, pts));
        i = i + 1;
    }
    out
}

/// One marker per triangle corner, all in the given style.
pub fn corner_markers(t: &Triangle2d, style: CssStyle) -> (r: Vec<Figure>)
    requires
        t.wf(),
    ensures
        r@.len() == 3,
        forall|i: int|
            0 <= i < 3 ==> (#[trigger] r@[i]).wf() && r@[i]@.style == style && r@[i]@.geometry
                == crate::display::QGeometry::HoverMarker(crate::interact::qcorner(t@, i)),
{
    let mut out: Vec<Figure> = Vec::new();
    out.push(Figure::marker(style, *t.p1()));
    out.push(Figure::marker(style, *t.p2()));
    out.push(Figure::marker(style, *t.p3()));
    out
}

/// Append a green marker at the selected corner, if one is selected; the
/// figure run is otherwise unchanged.
pub fn with_selection_marker(figures: Vec<Figure>, t: &Triangle2d, selection: &Option<usize>) -> (r:
    Vec<Figure>)
    requires
        t.wf(),
    ensures
        selection matches Some(i) ==> (i < 3 ==> r@ == figures@.push(
            Figure {
                style: CssStyle::Color(CssColor::Green),
                geometry: AnyGeometry::HoverMarker(
                    if i == 0 {
                        t.p1
                    } else if i == 1 {
                        t.p2
                    } else {
                        t.p3
                    },
                ),
            },
        )) && (i >= 3 ==> r@ == figures@),
        selection is None ==> r@ == figures@,
{
    let mut figures = figures;
    match selection {
        Some(i) => {
            if *i < 3 {
                let corner = if *i == 0 {
                    *t.p1()
                } else if *i == 1 {
                    *t.p2()
                } else {
                    *t.p3()
                };
                figures.push(Figure::marker(CssStyle::Color(CssColor::Green), corner));
            }
        },
        None => {},
    }
    figures
}

/// A run of stored points, copied.
fn copy_points(v: &Vec<Point2d>) -> (r: Vec<Point2d>)
    ensures
        r@ == v@,
{
    let mut out: Vec<Point2d> = Vec::new();
    let mut i: usize = 0;
    while i < v.len()
        invariant
            0 <= i <= v@.len(),
            out@ == v@.take(i as int),
        decreases v@.len() - i,
    {
        out.push(v[i]);
        i = i + 1;
    }
    proof {
        assert(v@.take(v@.len() as int) =~= v@);
    }
    out
}

/// The interactive page's display list: the subject triangle outlined in
/// blue, the cutter in green, each resolvable cut fragment as a red
/// polyline, and — when a corner is selected — a green marker on it,
/// last, over everything else.
pub fn basic_scene(
    subject: &Triangle2d,
    cutter: &Vec<Point2d>,
    path: &PolygonPath,
    selection: &Option<usize>,
) -> (r: Vec<Figure>)
    requires
        subject.wf(),
        forall|i: int| 0 <= i < cutter@.len() ==> (#[trigger] cutter@[i]).wf(),
        path matches PolygonPath::CutSegments(segs) ==> forall|i: int|
            0 <= i < segs@.len() ==> (#[trigger] segs@[i]).wf(),
    ensures
        forall|i: int| 0 <= i < r@.len() ==> (#[trigger] r@[i]).wf(),
        ({
            let cut = cut_figure_models(qpoints_of(cutter@), path);
            let marked = selection matches Some(i) && i < 3;
            &&& r@.len() == 2 + cut.len() + if marked {
                1int
            } else {
                0int
            }
            &&& r@[0]@.style == CssStyle::Color(CssColor::Blue)
            &&& (r@[0]@.geometry matches crate::display::QGeometry::Polygon(ps) && ps.len() == 3
                && ps[0] == subject@.p1 && ps[1] == subject@.p2 && ps[2] == subject@.p3)
            &&& r@[1]@.style == CssStyle::Color(CssColor::Green)
            &&& r@[1]@.geometry == crate::display::QGeometry::Polygon(qpoints_of(cutter@))
            &&& (path is Enclosed ==> cut_matches_enclosed(qpoints_of(cutter@), r@[2]@))
            &&& (path matches PolygonPath::CutSegments(segs) ==> forall|i: int|
                0 <= i < cut.len() ==> is_red_lines(
                    #[trigger] r@[2 + i]@,
                    spec_cut_lines(qpoints_of(cutter@), qsegs_of(segs@))[i],
                ))
            &&& (marked ==> r@[r@.len() - 1]@.style == CssStyle::Color(CssColor::Green) && r@[
                r@.len() - 1]@.geometry == crate::display::QGeometry::HoverMarker(
                crate::interact::qcorner(subject@, selection.unwrap() as int),
            ))
        }),
{
    let mut out = triangle_figures(&vec![*subject], CssStyle::Color(CssColor::Blue));
    let loop_pts = copy_points(cutter);
    out.push(Figure::polygon(CssStyle::Color(CssColor::Green), loop_pts));
    let mut cut = cut_path_figures(cutter, path);
    out.append(&mut cut);
    with_selection_marker(out, subject, selection)
}

/// A figure of the enclosed cutter: a red outline of its point loop.
pub open spec fn cut_matches_enclosed(pts: Seq<QPoint>, f: crate::display::QFigure) -> bool {
    f.style == CssStyle::Color(CssColor::Red) && f.geometry == crate::display::QGeometry::Polygon(
        pts,
    )
}

/// The models of the cut figures a path contributes.
pub open spec fn cut_figure_models(pts: Seq<QPoint>, path: &PolygonPath) -> Seq<Seq<QPoint>> {
    match path {
        PolygonPath::Enclosed => seq![pts],
        PolygonPath::CutSegments(segs) => spec_cut_lines(pts, qsegs_of(segs@)),
        PolygonPath::Disjoint => Seq::empty(),
    }
}

} // verus!
