//! The renderer: turns a display list and a viewport into a
//! deterministic run of drawing commands — clear, axis guide lines, tick
//! marks with numeric labels, then each figure in order.

use crate::display::{CssColor, CssStyle, Figure, PolygonList, QFigure, QGeometry};
use crate::geom::{BoundingBox, Point2d, QBox, QPoint};
use crate::projection::{project_point_ok, qproj_x, qproj_y, QProj, ScreenProject2d};
use crate::rat::{
    lemma_qle_congr, lemma_qreduce_props, qadd, qeq, qint, qlt, qmul, qneg, qreduce, qsub, qwf,
    qzero, representable, Q, Rat,
};
use crate::ticks::{collect_ticks, find_optimal_step, rat_in_tick_range, TickSequence};
use vstd::prelude::*;

verus! {

/// Which side of a clamped vertical axis the y labels sit on.
#[derive(Clone, Copy, Debug, PartialEq, Eq, Structural)]
pub enum TickSideHorizontal {
    Left,
    Right,
}

/// Which side of a clamped horizontal axis the x labels sit on.
#[derive(Clone, Copy, Debug, PartialEq, Eq, Structural)]
pub enum TickSideVertical {
    Top,
    Bottom,
}

/// How a drawn label is anchored to its position.
#[derive(Clone, Copy, Debug, PartialEq, Eq, Structural)]
pub enum TextAnchor {
    Start,
    Middle,
    End,
}

/// One primitive operation on an abstract 2D drawing surface. All
/// coordinates are screen-space pixels, as exact rationals; a label
/// carries the numeric value to format and its anchor.
#[derive(Clone, Copy, Debug)]
pub enum DrawCmd {
    Clear,
    BeginPath,
    MoveTo(Rat, Rat),
    LineTo(Rat, Rat),
    ClosePath,
    Stroke,
    Fill,
    SetStrokeColor(CssColor),
    SetFillColor(CssColor),
    Arc(Rat, Rat, Rat),
    FillText(Rat, Rat, Rat, TextAnchor),
}

pub open spec fn style_color(s: CssStyle) -> CssColor {
    match s {
        CssStyle::Color(c) => c,
    }
}

/// The command moves the pen to the projection of `p`.
pub open spec fn is_move_to(c: DrawCmd, pr: QProj, p: QPoint) -> bool {
    c matches DrawCmd::MoveTo(x, y) && qeq(x@, qproj_x(pr, p)) && qeq(y@, qproj_y(pr, p))
}

/// The command draws a line to the projection of `p`.
pub open spec fn is_line_to(c: DrawCmd, pr: QProj, p: QPoint) -> bool {
    c matches DrawCmd::LineTo(x, y) && qeq(x@, qproj_x(pr, p)) && qeq(y@, qproj_y(pr, p))
}

/// The command draws a five-pixel circle at the projection of `p`.
pub open spec fn is_marker_arc(c: DrawCmd, pr: QProj, p: QPoint) -> bool {
    c matches DrawCmd::Arc(x, y, rad) && qeq(x@, qproj_x(pr, p)) && qeq(y@, qproj_y(pr, p)) && qeq(
        rad@,
        qint(5),
    )
}

/// The commands of one stroked path through the projected points, open
/// or closed.
pub open spec fn polyline_cmds_match(
    style: CssStyle,
    s: Seq<QPoint>,
    pr: QProj,
    closed: bool,
    cmds: Seq<DrawCmd>,
) -> bool {
    if s.len() == 0 {
        cmds.len() == 0
    } else {
        &&& cmds.len() == s.len() + if closed {
            4int
        } else {
            3int
        }
        &&& cmds[0] == DrawCmd::BeginPath
        &&& cmds[1] == DrawCmd::SetStrokeColor(style_color(style))
        &&& is_move_to(cmds[2], pr, s[0])
        &&& forall|i: int| 1 <= i < s.len() ==> #[trigger] is_line_to(cmds[2 + i], pr, s[i])
        &&& closed ==> cmds[s.len() + 2int] == DrawCmd::ClosePath && cmds[s.len() + 3int]
            == DrawCmd::Stroke
        &&& !closed ==> cmds[s.len() + 2int] == DrawCmd::Stroke
    }
}

/// The commands of a filled point marker of five pixels radius.
pub open spec fn marker_cmds_match(style: CssStyle, p: QPoint, pr: QProj, cmds: Seq<DrawCmd>) -> bool {
    &&& cmds.len() == 6
    &&& cmds[0] == DrawCmd::BeginPath
    &&& cmds[1] == DrawCmd::SetStrokeColor(style_color(style))
    &&& cmds[2] == DrawCmd::SetFillColor(style_color(style))
    &&& is_marker_arc(cmds[3], pr, p)
    &&& cmds[4] == DrawCmd::Fill
    &&& cmds[5] == DrawCmd::Stroke
}

/// The commands a figure draws, by its geometry.
pub open spec fn figure_cmds_match(f: QFigure, pr: QProj, cmds: Seq<DrawCmd>) -> bool {
    match f.geometry {
        QGeometry::Polygon(s) => polyline_cmds_match(f.style, s, pr, true, cmds),
        QGeometry::Lines(s) => polyline_cmds_match(f.style, s, pr, false, cmds),
        QGeometry::HoverMarker(p) => marker_cmds_match(f.style, p, pr, cmds),
    }
}

/// The command run splits into the runs of the figures, in list order.
pub open spec fn figs_cmds_match(figs: Seq<QFigure>, pr: QProj, cmds: Seq<DrawCmd>) -> bool
    decreases figs.len(),
{
    if figs.len() == 0 {
        cmds.len() == 0
    } else {
        exists|k: int|
            #![trigger cmds.take(k), cmds.skip(k)]
            0 <= k <= cmds.len() && figs_cmds_match(figs.drop_last(), pr, cmds.take(k))
                && figure_cmds_match(figs.last(), pr, cmds.skip(k))
    }
}

/// The projection is the one fitted to the scene's bounding box after
/// the ten percent margin: the box `eb` stands for the expanded box, and
/// the scale and offsets are derived from it exactly.
pub open spec fn render_fit(b: QBox, w: Q, h: Q, pr: QProj, eb: QBox) -> bool {
    let tenth = Q { n: 1, d: 10 };
    let s = crate::projection::qscale_of(eb, w, h);
    &&& qeq(eb.min_x, crate::geom::qexpand(b, tenth).min_x)
    &&& qeq(eb.min_y, crate::geom::qexpand(b, tenth).min_y)
    &&& qeq(eb.max_x, crate::geom::qexpand(b, tenth).max_x)
    &&& qeq(eb.max_y, crate::geom::qexpand(b, tenth).max_y)
    &&& qeq(pr.scale, s)
    &&& qeq(pr.x_offset, crate::projection::qxoff_of(eb, w, s))
    &&& qeq(pr.y_offset, crate::projection::qyoff_of(eb, h, s))
}

/// The model origin.
pub open spec fn qzero_pt() -> QPoint {
    QPoint { x: qzero(), y: qzero() }
}

/// The box corner of least coordinates.
pub open spec fn qmin_corner(eb: QBox) -> QPoint {
    QPoint { x: eb.min_x, y: eb.min_y }
}

/// The box corner of greatest coordinates.
pub open spec fn qmax_corner(eb: QBox) -> QPoint {
    QPoint { x: eb.max_x, y: eb.max_y }
}

/// Which side of the horizontal baseline the x labels take: below the
/// axis when it sits in the upper half of the viewport or off its top,
/// above it otherwise.
pub open spec fn vertical_side(pr: QProj, h: Q) -> TickSideVertical {
    let zy = qproj_y(pr, qzero_pt());
    if qlt(zy, qzero()) {
        TickSideVertical::Bottom
    } else if qlt(h, zy) {
        TickSideVertical::Top
    } else if qlt(qmul(h, crate::projection::qhalf()), zy) {
        TickSideVertical::Top
    } else {
        TickSideVertical::Bottom
    }
}

/// The pixel row of the horizontal baseline: the projected x axis,
/// clamped to the viewport edge when off screen.
pub open spec fn vertical_baseline(pr: QProj, h: Q) -> Q {
    let zy = qproj_y(pr, qzero_pt());
    if qlt(zy, qzero()) {
        qzero()
    } else if qlt(h, zy) {
        h
    } else {
        zy
    }
}

/// Which side of the vertical baseline the y labels take.
pub open spec fn horizontal_side(pr: QProj, w: Q) -> TickSideHorizontal {
    let zx = qproj_x(pr, qzero_pt());
    if qlt(zx, qzero()) {
        TickSideHorizontal::Right
    } else if qlt(w, zx) {
        TickSideHorizontal::Left
    } else if qlt(qmul(w, crate::projection::qhalf()), zx) {
        TickSideHorizontal::Left
    } else {
        TickSideHorizontal::Right
    }
}

/// The pixel column of the vertical baseline: the projected y axis,
/// clamped to the projected box edge when off screen.
pub open spec fn horizontal_baseline(pr: QProj, eb: QBox, w: Q) -> Q {
    let zx = qproj_x(pr, qzero_pt());
    if qlt(zx, qzero()) {
        qproj_x(pr, qmin_corner(eb))
    } else if qlt(w, zx) {
        qproj_x(pr, qmax_corner(eb))
    } else {
        zx
    }
}

/// The horizontal baseline's pixel row as it is stored.
pub open spec fn stored_vbase(pr: QProj, h: Q) -> Q {
    let zy = qproj_y(pr, qzero_pt());
    if qlt(zy, qzero()) {
        qzero()
    } else if qlt(h, zy) {
        h
    } else {
        crate::projection::stored_proj_y(pr, qzero_pt())
    }
}

/// The vertical baseline's pixel column as it is stored.
pub open spec fn stored_hbase(pr: QProj, eb: QBox, w: Q) -> Q {
    let zx = qproj_x(pr, qzero_pt());
    if qlt(zx, qzero()) {
        crate::projection::stored_proj_x(pr, qmin_corner(eb))
    } else if qlt(w, zx) {
        crate::projection::stored_proj_x(pr, qmax_corner(eb))
    } else {
        crate::projection::stored_proj_x(pr, qzero_pt())
    }
}

/// The horizontal guide line: stroked across the box exactly when the x
/// axis is on screen, nothing otherwise.
pub open spec fn haxis_match(pr: QProj, eb: QBox, h: Q, cmds: Seq<DrawCmd>) -> bool {
    let zy = qproj_y(pr, qzero_pt());
    if qlt(zy, qzero()) || qlt(h, zy) {
        cmds.len() == 0
    } else {
        &&& cmds.len() == 4
        &&& cmds[0] == DrawCmd::BeginPath
        &&& (cmds[1] matches DrawCmd::MoveTo(x, y) && qeq(x@, qproj_x(pr, qmin_corner(eb))) && qeq(
            y@,
            zy,
        ))
        &&& (cmds[2] matches DrawCmd::LineTo(x, y) && qeq(x@, qproj_x(pr, qmax_corner(eb))) && qeq(
            y@,
            zy,
        ))
        &&& cmds[3] == DrawCmd::Stroke
    }
}

/// The vertical guide line, clamped the same way.
pub open spec fn vaxis_match(pr: QProj, eb: QBox, w: Q, cmds: Seq<DrawCmd>) -> bool {
    let zx = qproj_x(pr, qzero_pt());
    if qlt(zx, qzero()) || qlt(w, zx) {
        cmds.len() == 0
    } else {
        &&& cmds.len() == 4
        &&& cmds[0] == DrawCmd::BeginPath
        &&& (cmds[1] matches DrawCmd::MoveTo(x, y) && qeq(x@, zx) && qeq(
            y@,
            qproj_y(pr, qmin_corner(eb)),
        ))
        &&& (cmds[2] matches DrawCmd::LineTo(x, y) && qeq(x@, zx) && qeq(
            y@,
            qproj_y(pr, qmax_corner(eb)),
        ))
        &&& cmds[3] == DrawCmd::Stroke
    }
}

/// One drawn y tick for the ideal value `tq`: the five commands of
/// [`draw_y_tick`] at the pinned baseline and side.
pub open spec fn ytick_block_match(pr: QProj, eb: QBox, w: Q, tq: Q, cmds: Seq<DrawCmd>) -> bool {
    let side = horizontal_side(pr, w);
    let bx = horizontal_baseline(pr, eb, w);
    let yq = qproj_y(pr, QPoint { x: qzero(), y: tq });
    &&& cmds.len() == 5
    &&& cmds[0] == DrawCmd::BeginPath
    &&& (cmds[1] matches DrawCmd::MoveTo(x, y) && qeq(x@, bx) && qeq(y@, yq))
    &&& (cmds[2] matches DrawCmd::LineTo(x, y) && qeq(
        x@,
        if side == TickSideHorizontal::Right {
            qadd(bx, qint(5))
        } else {
            qsub(bx, qint(5))
        },
    ) && qeq(y@, yq))
    &&& cmds[3] == DrawCmd::Stroke
    &&& (cmds[4] matches DrawCmd::FillText(v, x, y, anchor) && qeq(v@, tq) && qeq(
        x@,
        if side == TickSideHorizontal::Right {
            qadd(bx, qint(10))
        } else {
            qsub(bx, qint(10))
        },
    ) && qeq(y@, yq) && anchor == (if side == TickSideHorizontal::Right {
        TextAnchor::Start
    } else {
        TextAnchor::End
    }))
}

/// One drawn x tick for the ideal value `tq`: the five commands of
/// [`draw_x_tick`] at the pinned baseline and side.
pub open spec fn xtick_block_match(pr: QProj, h: Q, tq: Q, cmds: Seq<DrawCmd>) -> bool {
    let side = vertical_side(pr, h);
    let by = vertical_baseline(pr, h);
    let xq = qproj_x(pr, QPoint { x: tq, y: qzero() });
    &&& cmds.len() == 5
    &&& cmds[0] == DrawCmd::BeginPath
    &&& (cmds[1] matches DrawCmd::MoveTo(x, y) && qeq(x@, xq) && qeq(y@, by))
    &&& (cmds[2] matches DrawCmd::LineTo(x, y) && qeq(x@, xq) && qeq(
        y@,
        if side == TickSideVertical::Top {
            qsub(by, qint(5))
        } else {
            qadd(by, qint(5))
        },
    ))
    &&& cmds[3] == DrawCmd::Stroke
    &&& (cmds[4] matches DrawCmd::FillText(v, x, y, anchor) && qeq(v@, tq) && qeq(x@, xq) && qeq(
        y@,
        if side == TickSideVertical::Top {
            qsub(by, qint(10))
        } else {
            qadd(by, qint(20))
        },
    ) && anchor == TextAnchor::Middle)
}

/// The y-tick section: one block per tick of the run, in order. A block
/// is present exactly when the tick's stored pixel arithmetic fits the
/// 64-bit fields.
pub open spec fn ytick_runs_match(pr: QProj, eb: QBox, w: Q, vals: Seq<Q>, cmds: Seq<DrawCmd>) -> bool
    decreases vals.len(),
{
    if vals.len() == 0 {
        cmds.len() == 0
    } else {
        exists|k: int|
            #![trigger cmds.take(k), cmds.skip(k)]
            0 <= k <= cmds.len() && ytick_runs_match(pr, eb, w, vals.drop_last(), cmds.take(k)) && {
                let cond = draw_y_tick_ok(
                    pr,
                    horizontal_side(pr, w),
                    qreduce(vals.last()),
                    stored_hbase(pr, eb, w),
                );
                &&& cond ==> ytick_block_match(pr, eb, w, vals.last(), cmds.skip(k))
                &&& !cond ==> cmds.skip(k).len() == 0
            }
    }
}

/// The x-tick section, the same way.
pub open spec fn xtick_runs_match(pr: QProj, h: Q, vals: Seq<Q>, cmds: Seq<DrawCmd>) -> bool
    decreases vals.len(),
{
    if vals.len() == 0 {
        cmds.len() == 0
    } else {
        exists|k: int|
            #![trigger cmds.take(k), cmds.skip(k)]
            0 <= k <= cmds.len() && xtick_runs_match(pr, h, vals.drop_last(), cmds.take(k)) && {
                let cond = draw_x_tick_ok(
                    pr,
                    vertical_side(pr, h),
                    qreduce(vals.last()),
                    stored_vbase(pr, h),
                );
                &&& cond ==> xtick_block_match(pr, h, vals.last(), cmds.skip(k))
                &&& !cond ==> cmds.skip(k).len() == 0
            }
    }
}

/// The tick step is the snapped "forty pixels of model units": some
/// magnitude `e` certifies it against `40 / scale`.
pub open spec fn snapped_step_fit(pr: QProj, stepq: Q) -> bool {
    exists|rawq: Q, e: int|
        qeq(rawq, crate::rat::qdiv(qint(40), pr.scale)) && #[trigger] crate::ticks::snapped_at(
            rawq,
            stepq,
            e,
        )
}

/// The raw tick step, as it is stored before snapping.
pub open spec fn stored_raw_step(pr: QProj) -> Q {
    qreduce(crate::rat::qdiv(qint(40), pr.scale))
}

/// The preconditions of tick drawing that do not depend on the snapped
/// step: the raw step lies in the snapper's window and the expanded
/// box's coordinates are within the safe tick magnitude.
pub open spec fn ticks_enabled(pr: QProj, eb: QBox) -> bool {
    let rawd = stored_raw_step(pr);
    &&& qlt(qzero(), rawd)
    &&& qlt(rawd, qint(1000000000000000))
    &&& qlt(Q { n: 1, d: 1000000000000000 }, rawd)
    &&& crate::ticks::qsmall(eb.min_x)
    &&& crate::ticks::qsmall(eb.max_x)
    &&& crate::ticks::qsmall(eb.min_y)
    &&& crate::ticks::qsmall(eb.max_y)
}

/// The whole tick section: the y ticks then the x ticks, both runs of
/// the same snapped step over the expanded box's ranges. The section is
/// empty exactly when the raw step or the ranges fail the definite
/// gates, or the certified snapped step leaves the safe tick magnitude.
pub open spec fn ticks_cmds_match(pr: QProj, eb: QBox, w: Q, h: Q, cmds: Seq<DrawCmd>) -> bool {
    ||| (cmds.len() == 0 && !ticks_enabled(pr, eb))
    ||| exists|stepq: Q, j: int|
        #![trigger cmds.take(j), crate::ticks::spec_ticks(eb.min_y, eb.max_y, stepq)]
        {
            &&& snapped_step_fit(pr, stepq)
            &&& {
                ||| (cmds.len() == 0 && j == 0 && !(crate::ticks::qsmall(stepq) && qlt(
                    qzero(),
                    stepq,
                )))
                ||| {
                    &&& crate::ticks::qsmall(stepq)
                    &&& qlt(qzero(), stepq)
                    &&& 0 <= j <= cmds.len()
                    &&& ytick_runs_match(
                        pr,
                        eb,
                        w,
                        crate::ticks::spec_ticks(eb.min_y, eb.max_y, stepq),
                        cmds.take(j),
                    )
                    &&& xtick_runs_match(
                        pr,
                        h,
                        crate::ticks::spec_ticks(eb.min_x, eb.max_x, stepq),
                        cmds.skip(j),
                    )
                }
            }
        }
}

/// The middle of a rendered frame: the horizontal and vertical guide
/// lines, then the tick marks.
pub open spec fn middle_cmds_match(pr: QProj, eb: QBox, w: Q, h: Q, cmds: Seq<DrawCmd>) -> bool {
    exists|j1: int, j2: int|
        #![trigger cmds.take(j1), cmds.subrange(j1, j2)]
        {
            &&& 0 <= j1 <= j2 <= cmds.len()
            &&& haxis_match(pr, eb, h, cmds.take(j1))
            &&& vaxis_match(pr, eb, w, cmds.subrange(j1, j2))
            &&& ticks_cmds_match(pr, eb, w, h, cmds.skip(j2))
        }
}

/// Every point of the figure projects within the 64-bit fields.
pub open spec fn figure_cmds_ok(f: QFigure, pr: QProj) -> bool {
    match f.geometry {
        QGeometry::Polygon(s) => forall|i: int|
            0 <= i < s.len() ==> project_point_ok(pr, #[trigger] s[i]),
        QGeometry::Lines(s) => forall|i: int|
            0 <= i < s.len() ==> project_point_ok(pr, #[trigger] s[i]),
        QGeometry::HoverMarker(p) => project_point_ok(pr, p),
    }
}

fn polyline_commands(style: CssStyle, pts: &Vec<Point2d>, p: &ScreenProject2d, closed: bool) -> (r:
    Option<Vec<DrawCmd>>)
    requires
        p.wf(),
        forall|i: int| 0 <= i < pts@.len() ==> (#[trigger] pts@[i]).wf(),
    ensures
        r matches Some(cmds) ==> polyline_cmds_match(
            style,
            crate::display::qpoints_of(pts@),
            p@,
            closed,
            cmds@,
        ),
        (r is Some) == forall|i: int|
            0 <= i < pts@.len() ==> project_point_ok(p@, #[trigger] crate::display::qpoints_of(
                pts@,
            )[i]),
{
    let ghost s = crate::display::qpoints_of(pts@);
    let mut cmds: Vec<DrawCmd> = Vec::new();
    if pts.len() == 0 {
        return Some(cmds);
    }
    let first = match p.project_point(&pts[0]) {
        Some(v) => v,
        None => {
            proof {
                assert(s[0] == pts@[0]@);
            }
            return None;
        },
    };
    cmds.push(DrawCmd::BeginPath);
    cmds.push(DrawCmd::SetStrokeColor(match style {
        CssStyle::Color(c) => c,
    }));
    cmds.push(DrawCmd::MoveTo(first.0, first.1));
    proof {
        assert(s[0] == pts@[0]@);
    }
    let mut i: usize = 1;
    while i < pts.len()
        invariant
            p.wf(),
            forall|k: int| 0 <= k < pts@.len() ==> (#[trigger] pts@[k]).wf(),
            s == crate::display::qpoints_of(pts@),
            pts@.len() >= 1,
            1 <= i <= pts@.len(),
            cmds@.len() == i + 2,
            cmds@[0] == DrawCmd::BeginPath,
            cmds@[1] == DrawCmd::SetStrokeColor(style_color(style)),
            is_move_to(cmds@[2], p@, s[0]),
            forall|k: int| 1 <= k < i ==> #[trigger] is_line_to(cmds@[2 + k], p@, s[k]),
            forall|k: int| 0 <= k < i ==> project_point_ok(p@, #[trigger] s[k]),
        decreases pts@.len() - i,
    {
        proof {
            assert(s[i as int] == pts@[i as int]@);
        }
        let next = match p.project_point(&pts[i]) {
            Some(v) => v,
            None => {
                return None;
            },
        };
        let ghost prev = cmds@;
        cmds.push(DrawCmd::LineTo(next.0, next.1));
        proof {
            assert(cmds@[2 + i as int] == DrawCmd::LineTo(next.0, next.1));
            assert forall|k: int| 1 <= k < i + 1 implies #[trigger] is_line_to(
                cmds@[2 + k],
                p@,
                s[k],
            ) by {
                if k < i {
                    assert(cmds@[2 + k] == prev[2 + k]);
                    assert(is_line_to(prev[2 + k], p@, s[k]));
                } else {
                    assert(cmds@[2 + k] == DrawCmd::LineTo(next.0, next.1));
                }
            }
        }
        i = i + 1;
    }
    let ghost base = cmds@;
    if closed {
        cmds.push(DrawCmd::ClosePath);
        cmds.push(DrawCmd::Stroke);
    } else {
        cmds.push(DrawCmd::Stroke);
    }
    proof {
        assert(cmds@[0] == base[0] && cmds@[1] == base[1] && cmds@[2] == base[2]);
        assert forall|k: int| 1 <= k < s.len() implies #[trigger] is_line_to(
            cmds@[2 + k],
            p@,
            s[k],
        ) by {
            assert(cmds@[2 + k] == base[2 + k]);
            assert(is_line_to(base[2 + k], p@, s[k]));
        }
    }
    Some(cmds)
}

/// The commands one figure draws: its own stroke (and fill) style, then
/// its projected geometry. `None` exactly when a point's projection
/// leaves the 64-bit fields.
pub fn figure_commands(fig: &Figure, p: &ScreenProject2d) -> (r: Option<Vec<DrawCmd>>)
    requires
        fig.wf(),
        p.wf(),
    ensures
        r matches Some(cmds) ==> figure_cmds_match(fig@, p@, cmds@),
        (r is Some) == figure_cmds_ok(fig@, p@),
{
    match &fig.geometry {
        crate::display::AnyGeometry::Polygon(v) => {
            let r = polyline_commands(fig.style, v, p, true);
            proof {
                assert(fig@.geometry == QGeometry::Polygon(crate::display::qpoints_of(v@)));
                let s2 = fig@.geometry->Polygon_0;
                assert(s2 == crate::display::qpoints_of(v@));
                if r is Some {
                    assert forall|i: int| 0 <= i < s2.len() implies project_point_ok(
                        p@,
                        #[trigger] s2[i],
                    ) by {
                        assert(project_point_ok(p@, crate::display::qpoints_of(v@)[i]));
                    }
                    assert(figure_cmds_ok(fig@, p@));
                } else {
                    let w = choose|i: int|
                        0 <= i < v@.len() && !project_point_ok(
                            p@,
                            #[trigger] crate::display::qpoints_of(v@)[i],
                        );
                    assert(!project_point_ok(p@, s2[w]));
                    assert(!figure_cmds_ok(fig@, p@));
                }
            }
            r
        },
        crate::display::AnyGeometry::Lines(v) => {
            let r = polyline_commands(fig.style, v, p, false);
            proof {
                assert(fig@.geometry == QGeometry::Lines(crate::display::qpoints_of(v@)));
                let s2 = fig@.geometry->Lines_0;
                assert(s2 == crate::display::qpoints_of(v@));
                if r is Some {
                    assert forall|i: int| 0 <= i < s2.len() implies project_point_ok(
                        p@,
                        #[trigger] s2[i],
                    ) by {
                        assert(project_point_ok(p@, crate::display::qpoints_of(v@)[i]));
                    }
                    assert(figure_cmds_ok(fig@, p@));
                } else {
                    let w = choose|i: int|
                        0 <= i < v@.len() && !project_point_ok(
                            p@,
                            #[trigger] crate::display::qpoints_of(v@)[i],
                        );
                    assert(!project_point_ok(p@, s2[w]));
                    assert(!figure_cmds_ok(fig@, p@));
                }
            }
            r
        },
        crate::display::AnyGeometry::HoverMarker(pt) => {
            let c = match p.project_point(pt) {
                Some(v) => v,
                None => {
                    return None;
                },
            };
            let color = match fig.style {
                CssStyle::Color(c) => c,
            };
            let mut cmds: Vec<DrawCmd> = Vec::new();
            cmds.push(DrawCmd::BeginPath);
            cmds.push(DrawCmd::SetStrokeColor(color));
            cmds.push(DrawCmd::SetFillColor(color));
            cmds.push(DrawCmd::Arc(c.0, c.1, Rat::from_int(5)));
            cmds.push(DrawCmd::Fill);
            cmds.push(DrawCmd::Stroke);
            Some(cmds)
        },
    }
}

/// The tick's projection and the four label offsets stay within the
/// 64-bit fields.
pub open spec fn draw_x_tick_ok(pr: QProj, side: TickSideVertical, x_tick: Q, tick_y: Q) -> bool {
    &&& project_point_ok(pr, QPoint { x: x_tick, y: qzero() })
    &&& side == TickSideVertical::Top ==> representable(qsub(tick_y, qint(5))) && representable(
        qsub(tick_y, qint(10)),
    )
    &&& side == TickSideVertical::Bottom ==> representable(qadd(tick_y, qint(5))) && representable(
        qadd(tick_y, qint(20)),
    )
}

/// The commands of one tick on the horizontal axis: a five-pixel mark at
/// the baseline and the numeric label beside it, above or below so that
/// it stays inside the viewport.
pub fn draw_x_tick(p: &ScreenProject2d, side: TickSideVertical, x_tick: &Rat, tick_y: &Rat) -> (r:
    Option<Vec<DrawCmd>>)
    requires
        p.wf(),
        x_tick.wf(),
        tick_y.wf(),
    ensures
        (r is Some) == draw_x_tick_ok(p@, side, x_tick@, tick_y@),
        r matches Some(cmds) ==> {
            let xq = qproj_x(p@, QPoint { x: x_tick@, y: qzero() });
            &&& cmds@.len() == 5
            &&& cmds@[0] == DrawCmd::BeginPath
            &&& (cmds@[1] matches DrawCmd::MoveTo(x, y) && qeq(x@, xq) && y == *tick_y)
            &&& (cmds@[2] matches DrawCmd::LineTo(x, y) && qeq(x@, xq) && qeq(
                y@,
                if side == TickSideVertical::Top {
                    qsub(tick_y@, qint(5))
                } else {
                    qadd(tick_y@, qint(5))
                },
            ))
            &&& cmds@[3] == DrawCmd::Stroke
            &&& (cmds@[4] matches DrawCmd::FillText(v, x, y, anchor) && v == *x_tick && qeq(x@, xq)
                && qeq(
                y@,
                if side == TickSideVertical::Top {
                    qsub(tick_y@, qint(10))
                } else {
                    qadd(tick_y@, qint(20))
                },
            ) && anchor == TextAnchor::Middle)
        },
{
    let zero = Rat::zero();
    let origin = Point2d::new(*x_tick, zero);
    let c = match p.project_point(&origin) {
        Some(v) => v,
        None => {
            return None;
        },
    };
    let x = c.0;
    let (mark_y, label_y) = match side {
        TickSideVertical::Top => {
            let m = match tick_y.try_sub(&Rat::from_int(5)) {
                Some(v) => v,
                None => {
                    return None;
                },
            };
            let l = match tick_y.try_sub(&Rat::from_int(10)) {
                Some(v) => v,
                None => {
                    return None;
                },
            };
            (m, l)
        },
        TickSideVertical::Bottom => {
            let m = match tick_y.try_add(&Rat::from_int(5)) {
                Some(v) => v,
                None => {
                    return None;
                },
            };
            let l = match tick_y.try_add(&Rat::from_int(20)) {
                Some(v) => v,
                None => {
                    return None;
                },
            };
            (m, l)
        },
    };
    proof {
        lemma_qreduce_props(qsub(tick_y@, qint(5)));
        lemma_qreduce_props(qadd(tick_y@, qint(5)));
        lemma_qreduce_props(qsub(tick_y@, qint(10)));
        lemma_qreduce_props(qadd(tick_y@, qint(20)));
    }
    let mut cmds: Vec<DrawCmd> = Vec::new();
    cmds.push(DrawCmd::BeginPath);
    cmds.push(DrawCmd::MoveTo(x, *tick_y));
    cmds.push(DrawCmd::LineTo(x, mark_y));
    cmds.push(DrawCmd::Stroke);
    cmds.push(DrawCmd::FillText(*x_tick, x, label_y, TextAnchor::Middle));
    Some(cmds)
}

/// The tick's projection and the four label offsets stay within the
/// 64-bit fields.
pub open spec fn draw_y_tick_ok(pr: QProj, side: TickSideHorizontal, y_tick: Q, tick_x: Q) -> bool {
    &&& project_point_ok(pr, QPoint { x: qzero(), y: y_tick })
    &&& side == TickSideHorizontal::Right ==> representable(qadd(tick_x, qint(5)))
        && representable(qadd(tick_x, qint(10)))
    &&& side == TickSideHorizontal::Left ==> representable(qsub(tick_x, qint(5))) && representable(
        qsub(tick_x, qint(10)),
    )
}

/// The commands of one tick on the vertical axis: a five-pixel mark at
/// the baseline and the numeric label beside it, left or right so that
/// it stays inside the viewport.
pub fn draw_y_tick(p: &ScreenProject2d, side: TickSideHorizontal, y_tick: &Rat, tick_x: &Rat) -> (r:
    Option<Vec<DrawCmd>>)
    requires
        p.wf(),
        y_tick.wf(),
        tick_x.wf(),
    ensures
        (r is Some) == draw_y_tick_ok(p@, side, y_tick@, tick_x@),
        r matches Some(cmds) ==> {
            let yq = qproj_y(p@, QPoint { x: qzero(), y: y_tick@ });
            &&& cmds@.len() == 5
            &&& cmds@[0] == DrawCmd::BeginPath
            &&& (cmds@[1] matches DrawCmd::MoveTo(x, y) && x == *tick_x && qeq(y@, yq))
            &&& (cmds@[2] matches DrawCmd::LineTo(x, y) && qeq(
                x@,
                if side == TickSideHorizontal::Right {
                    qadd(tick_x@, qint(5))
                } else {
                    qsub(tick_x@, qint(5))
                },
            ) && qeq(y@, yq))
            &&& cmds@[3] == DrawCmd::Stroke
            &&& (cmds@[4] matches DrawCmd::FillText(v, x, y, anchor) && v == *y_tick && qeq(
                x@,
                if side == TickSideHorizontal::Right {
                    qadd(tick_x@, qint(10))
                } else {
                    qsub(tick_x@, qint(10))
                },
            ) && qeq(y@, yq) && anchor == (if side == TickSideHorizontal::Right {
                TextAnchor::Start
            } else {
                TextAnchor::End
            }))
        },
{
    let zero = Rat::zero();
    let origin = Point2d::new(zero, *y_tick);
    let c = match p.project_point(&origin) {
        Some(v) => v,
        None => {
            return None;
        },
    };
    let y = c.1;
    let (mark_x, label_x, anchor) = match side {
        TickSideHorizontal::Right => {
            let m = match tick_x.try_add(&Rat::from_int(5)) {
                Some(v) => v,
                None => {
                    return None;
                },
            };
            let l = match tick_x.try_add(&Rat::from_int(10)) {
                Some(v) => v,
                None => {
                    return None;
                },
            };
            (m, l, TextAnchor::Start)
        },
        TickSideHorizontal::Left => {
            let m = match tick_x.try_sub(&Rat::from_int(5)) {
                Some(v) => v,
                None => {
                    return None;
                },
            };
            let l = match tick_x.try_sub(&Rat::from_int(10)) {
                Some(v) => v,
                None => {
                    return None;
                },
            };
            (m, l, TextAnchor::End)
        },
    };
    proof {
        lemma_qreduce_props(qadd(tick_x@, qint(5)));
        lemma_qreduce_props(qsub(tick_x@, qint(5)));
        lemma_qreduce_props(qadd(tick_x@, qint(10)));
        lemma_qreduce_props(qsub(tick_x@, qint(10)));
    }
    let mut cmds: Vec<DrawCmd> = Vec::new();
    cmds.push(DrawCmd::BeginPath);
    cmds.push(DrawCmd::MoveTo(*tick_x, y));
    cmds.push(DrawCmd::LineTo(mark_x, y));
    cmds.push(DrawCmd::Stroke);
    cmds.push(DrawCmd::FillText(*y_tick, label_x, y, anchor));
    Some(cmds)
}

/// The baselines and projected points are well formed.
proof fn lemma_baseline_wf(pr: QProj, eb: QBox, w: Q, h: Q)
    requires
        qwf(pr.scale),
        qwf(pr.x_offset),
        qwf(pr.y_offset),
        qwf(eb.min_x),
        qwf(eb.min_y),
        qwf(eb.max_x),
        qwf(eb.max_y),
        qwf(w),
        qwf(h),
    ensures
        qwf(horizontal_baseline(pr, eb, w)),
        qwf(vertical_baseline(pr, h)),
        qwf(qproj_x(pr, qzero_pt())),
        qwf(qproj_y(pr, qzero_pt())),
        qwf(qproj_x(pr, qmin_corner(eb))),
        qwf(qproj_x(pr, qmax_corner(eb))),
        qwf(qproj_y(pr, qmin_corner(eb))),
        qwf(qproj_y(pr, qmax_corner(eb))),
{
    crate::rat::lemma_qwf_ops(pr.scale, qzero());
    crate::rat::lemma_qwf_ops(qneg(pr.scale), qzero());
    crate::rat::lemma_qwf_ops(qmul(pr.scale, qzero()), pr.x_offset);
    crate::rat::lemma_qwf_ops(qmul(qneg(pr.scale), qzero()), pr.y_offset);
    crate::rat::lemma_qwf_ops(pr.scale, eb.min_x);
    crate::rat::lemma_qwf_ops(qmul(pr.scale, eb.min_x), pr.x_offset);
    crate::rat::lemma_qwf_ops(pr.scale, eb.max_x);
    crate::rat::lemma_qwf_ops(qmul(pr.scale, eb.max_x), pr.x_offset);
    crate::rat::lemma_qwf_ops(qneg(pr.scale), eb.min_y);
    crate::rat::lemma_qwf_ops(qmul(qneg(pr.scale), eb.min_y), pr.y_offset);
    crate::rat::lemma_qwf_ops(qneg(pr.scale), eb.max_y);
    crate::rat::lemma_qwf_ops(qmul(qneg(pr.scale), eb.max_y), pr.y_offset);
}

/// The five commands of a drawn y tick, stated for the stored tick
/// value, stand for the ideal run value it equals.
proof fn lemma_ytick_transfer(
    pr: QProj,
    eb: QBox,
    w: Q,
    h: Q,
    tick_x: Rat,
    side: TickSideHorizontal,
    t: Rat,
    tq: Q,
    cmds: Seq<DrawCmd>,
)
    requires
        qwf(pr.scale),
        qwf(pr.x_offset),
        qwf(pr.y_offset),
        qwf(eb.min_x),
        qwf(eb.min_y),
        qwf(eb.max_x),
        qwf(eb.max_y),
        qwf(w),
        qwf(h),
        tick_x.wf(),
        t.wf(),
        qwf(tq),
        qeq(t@, tq),
        qeq(tick_x@, horizontal_baseline(pr, eb, w)),
        side == horizontal_side(pr, w),
        cmds.len() == 5,
        cmds[0] == DrawCmd::BeginPath,
        (cmds[1] matches DrawCmd::MoveTo(x, y) && x == tick_x && qeq(
            y@,
            qproj_y(pr, QPoint { x: qzero(), y: t@ }),
        )),
        (cmds[2] matches DrawCmd::LineTo(x, y) && qeq(
            x@,
            if side == TickSideHorizontal::Right {
                qadd(tick_x@, qint(5))
            } else {
                qsub(tick_x@, qint(5))
            },
        ) && qeq(y@, qproj_y(pr, QPoint { x: qzero(), y: t@ }))),
        cmds[3] == DrawCmd::Stroke,
        (cmds[4] matches DrawCmd::FillText(v, x, y, anchor) && v == t && qeq(
            x@,
            if side == TickSideHorizontal::Right {
                qadd(tick_x@, qint(10))
            } else {
                qsub(tick_x@, qint(10))
            },
        ) && qeq(y@, qproj_y(pr, QPoint { x: qzero(), y: t@ })) && anchor == (if side
            == TickSideHorizontal::Right {
            TextAnchor::Start
        } else {
            TextAnchor::End
        })),
    ensures
        ytick_block_match(pr, eb, w, tq, cmds),
{
    let bx = horizontal_baseline(pr, eb, w);
    lemma_baseline_wf(pr, eb, w, h);
    crate::projection::lemma_qproj_congr(
        pr,
        QPoint { x: qzero(), y: t@ },
        QPoint { x: qzero(), y: tq },
    );
    let ymid = qproj_y(pr, QPoint { x: qzero(), y: t@ });
    crate::rat::lemma_qwf_ops(qneg(pr.scale), t@);
    crate::rat::lemma_qwf_ops(qmul(qneg(pr.scale), t@), pr.y_offset);
    crate::rat::lemma_qadd_congr(tick_x@, bx, qint(5), qint(5));
    crate::rat::lemma_qadd_congr(tick_x@, bx, qint(10), qint(10));
    crate::rat::lemma_qsub_congr(tick_x@, bx, qint(5), qint(5));
    crate::rat::lemma_qsub_congr(tick_x@, bx, qint(10), qint(10));
    crate::rat::lemma_qwf_ops(tick_x@, qint(5));
    crate::rat::lemma_qwf_ops(tick_x@, qint(10));
    let yt = qproj_y(pr, QPoint { x: qzero(), y: tq });
    crate::rat::lemma_qeq_trans_mid((cmds[1]->MoveTo_1)@, ymid, yt);
    crate::rat::lemma_qeq_trans_mid((cmds[2]->LineTo_1)@, ymid, yt);
    crate::rat::lemma_qeq_trans_mid((cmds[4]->FillText_2)@, ymid, yt);
    if side == TickSideHorizontal::Right {
        crate::rat::lemma_qeq_trans_mid((cmds[2]->LineTo_0)@, qadd(tick_x@, qint(5)), qadd(bx, qint(5)));
        crate::rat::lemma_qeq_trans_mid((cmds[4]->FillText_1)@, qadd(tick_x@, qint(10)), qadd(bx, qint(10)));
    } else {
        crate::rat::lemma_qeq_trans_mid((cmds[2]->LineTo_0)@, qsub(tick_x@, qint(5)), qsub(bx, qint(5)));
        crate::rat::lemma_qeq_trans_mid((cmds[4]->FillText_1)@, qsub(tick_x@, qint(10)), qsub(bx, qint(10)));
    }
}

/// The five commands of a drawn x tick, the same way.
proof fn lemma_xtick_transfer(
    pr: QProj,
    eb: QBox,
    w: Q,
    h: Q,
    tick_y: Rat,
    side: TickSideVertical,
    t: Rat,
    tq: Q,
    cmds: Seq<DrawCmd>,
)
    requires
        qwf(pr.scale),
        qwf(pr.x_offset),
        qwf(pr.y_offset),
        qwf(eb.min_x),
        qwf(eb.min_y),
        qwf(eb.max_x),
        qwf(eb.max_y),
        qwf(w),
        qwf(h),
        tick_y.wf(),
        t.wf(),
        qwf(tq),
        qeq(t@, tq),
        qeq(tick_y@, vertical_baseline(pr, h)),
        side == vertical_side(pr, h),
        cmds.len() == 5,
        cmds[0] == DrawCmd::BeginPath,
        (cmds[1] matches DrawCmd::MoveTo(x, y) && qeq(
            x@,
            qproj_x(pr, QPoint { x: t@, y: qzero() }),
        ) && y == tick_y),
        (cmds[2] matches DrawCmd::LineTo(x, y) && qeq(
            x@,
            qproj_x(pr, QPoint { x: t@, y: qzero() }),
        ) && qeq(
            y@,
            if side == TickSideVertical::Top {
                qsub(tick_y@, qint(5))
            } else {
                qadd(tick_y@, qint(5))
            },
        )),
        cmds[3] == DrawCmd::Stroke,
        (cmds[4] matches DrawCmd::FillText(v, x, y, anchor) && v == t && qeq(
            x@,
            qproj_x(pr, QPoint { x: t@, y: qzero() }),
        ) && qeq(
            y@,
            if side == TickSideVertical::Top {
                qsub(tick_y@, qint(10))
            } else {
                qadd(tick_y@, qint(20))
            },
        ) && anchor == TextAnchor::Middle),
    ensures
        xtick_block_match(pr, h, tq, cmds),
{
    let by = vertical_baseline(pr, h);
    lemma_baseline_wf(pr, eb, w, h);
    crate::projection::lemma_qproj_congr(
        pr,
        QPoint { x: t@, y: qzero() },
        QPoint { x: tq, y: qzero() },
    );
    let xmid = qproj_x(pr, QPoint { x: t@, y: qzero() });
    crate::rat::lemma_qwf_ops(pr.scale, t@);
    crate::rat::lemma_qwf_ops(qmul(pr.scale, t@), pr.x_offset);
    crate::rat::lemma_qadd_congr(tick_y@, by, qint(5), qint(5));
    crate::rat::lemma_qadd_congr(tick_y@, by, qint(20), qint(20));
    crate::rat::lemma_qsub_congr(tick_y@, by, qint(5), qint(5));
    crate::rat::lemma_qsub_congr(tick_y@, by, qint(10), qint(10));
    crate::rat::lemma_qwf_ops(tick_y@, qint(5));
    crate::rat::lemma_qwf_ops(tick_y@, qint(10));
    crate::rat::lemma_qwf_ops(tick_y@, qint(20));
    let xt = qproj_x(pr, QPoint { x: tq, y: qzero() });
    crate::rat::lemma_qeq_trans_mid((cmds[1]->MoveTo_0)@, xmid, xt);
    crate::rat::lemma_qeq_trans_mid((cmds[2]->LineTo_0)@, xmid, xt);
    crate::rat::lemma_qeq_trans_mid((cmds[4]->FillText_1)@, xmid, xt);
    if side == TickSideVertical::Top {
        crate::rat::lemma_qeq_trans_mid((cmds[2]->LineTo_1)@, qsub(tick_y@, qint(5)), qsub(by, qint(5)));
        crate::rat::lemma_qeq_trans_mid((cmds[4]->FillText_2)@, qsub(tick_y@, qint(10)), qsub(by, qint(10)));
    } else {
        crate::rat::lemma_qeq_trans_mid((cmds[2]->LineTo_1)@, qadd(tick_y@, qint(5)), qadd(by, qint(5)));
        crate::rat::lemma_qeq_trans_mid((cmds[4]->FillText_2)@, qadd(tick_y@, qint(20)), qadd(by, qint(20)));
    }
}

fn push_all(dst: &mut Vec<DrawCmd>, src: Vec<DrawCmd>)
    ensures
        final(dst)@ == old(dst)@ + src@,
{
    let mut i: usize = 0;
    while i < src.len()
        invariant
            0 <= i <= src@.len(),
            dst@ == old(dst)@ + src@.take(i as int),
        decreases src@.len() - i,
    {
        dst.push(src[i]);
        proof {
            assert(old(dst)@ + src@.take(i + 1) =~= (old(dst)@ + src@.take(i as int)).push(
                src@[i as int],
            ));
        }
        i = i + 1;
    }
    proof {
        assert(src@.take(src@.len() as int) =~= src@);
    }
}

/// When a frame can be rendered: always for an empty scene; otherwise
/// the margin expansion must fit the 64-bit fields, and — unless the
/// expanded box is degenerate, which renders a blank surface — so must
/// the fitted projection, the three reference projections, the halved
/// viewport extents, the raw tick step, and every figure's points.
pub open spec fn render_ok(figs: Seq<QFigure>, w: Q, h: Q) -> bool {
    match crate::display::qfigs_bbox(figs) {
        Option::None => true,
        Option::Some(b) => {
            let tenth = Q { n: 1, d: 10 };
            crate::geom::expand_ok(b, tenth) && {
                let eb = crate::geom::stored_expand(b, tenth);
                !(qlt(eb.min_x, eb.max_x) && qlt(eb.min_y, eb.max_y)) || {
                    crate::projection::from_bounding_box_ok(eb, w, h) && {
                        let pr = QProj {
                            scale: crate::projection::stored_scale(eb, w, h),
                            x_offset: crate::projection::stored_x_offset(eb, w, h),
                            y_offset: crate::projection::stored_y_offset(eb, w, h),
                        };
                        &&& project_point_ok(pr, qzero_pt())
                        &&& project_point_ok(pr, qmin_corner(eb))
                        &&& project_point_ok(pr, qmax_corner(eb))
                        &&& representable(qmul(h, crate::projection::qhalf()))
                        &&& representable(qmul(w, crate::projection::qhalf()))
                        &&& representable(crate::rat::qdiv(qint(40), pr.scale))
                        &&& forall|i: int|
                            0 <= i < figs.len() ==> figure_cmds_ok(#[trigger] figs[i], pr)
                    }
                }
            }
        },
    }
}

/// Render a display list onto a `width` by `height` viewport: set the
/// stroke, clear, and — when the scene is non-empty and non-degenerate —
/// fit the margin-expanded bounding box, draw the axis guide lines,
/// tick marks with labels at a "nice" step, and every figure in order.
/// Ticks whose arithmetic leaves the 64-bit fields are dropped rather
/// than failing the frame; `None` is returned only when the projection
/// itself cannot be computed.
#[verifier::rlimit(100)]
pub fn render(list: &PolygonList, width: &Rat, height: &Rat) -> (r: Option<Vec<DrawCmd>>)
    requires
        list.wf(),
        width.wf(),
        height.wf(),
        qlt(qzero(), width@),
        qlt(qzero(), height@),
    ensures
        r matches Some(cmds) ==> cmds@.len() >= 2 && cmds@[0] == DrawCmd::SetStrokeColor(
            CssColor::Black,
        ) && cmds@[1] == DrawCmd::Clear,
        crate::display::qfigs_bbox(list@) is None ==> (r matches Some(cmds) && cmds@.len() == 2),
        r is None ==> crate::display::qfigs_bbox(list@) is Some,
        (r is Some) == render_ok(list@, width@, height@),
        r matches Some(cmds) ==> (crate::display::qfigs_bbox(list@) matches Some(b) ==> {
            let e = crate::geom::qexpand(b, Q { n: 1, d: 10 });
            &&& (!(qlt(e.min_x, e.max_x) && qlt(e.min_y, e.max_y)) ==> cmds@.len() == 2)
            &&& ((qlt(e.min_x, e.max_x) && qlt(e.min_y, e.max_y)) ==> exists|
                pr: QProj,
                eb: QBox,
                jf: int,
            |
                #![trigger render_fit(b, width@, height@, pr, eb), figs_cmds_match(
                    list@,
                    pr,
                    cmds@.skip(jf),
                )]
                {
                    &&& render_fit(b, width@, height@, pr, eb)
                    &&& 2 <= jf <= cmds@.len()
                    &&& middle_cmds_match(pr, eb, width@, height@, cmds@.subrange(2, jf))
                    &&& figs_cmds_match(list@, pr, cmds@.skip(jf))
                })
        }),
{
    let mut out: Vec<DrawCmd> = Vec::new();
    out.push(DrawCmd::SetStrokeColor(CssColor::Black));
    out.push(DrawCmd::Clear);
    let bbox_all = list.bounding_box();
    let bb = match bbox_all {
        BoundingBox::Empty => {
            return Some(out);
        },
        BoundingBox::Rect(v) => v,
    };
    proof {
        assert(crate::display::qfigs_bbox(list@) is Some);
    }
    let tenth = Rat::tenth();
    let expanded = match bb.expand(&tenth) {
        Some(v) => v,
        None => {
            return None;
        },
    };
    let ghost ebi = crate::geom::qexpand(bb@, Q { n: 1, d: 10 });
    proof {
        assert(expanded@ == crate::geom::stored_expand(bb@, Q { n: 1, d: 10 }));
        crate::rat::lemma_qwf_ops(bb@.max_x, bb@.min_x);
        crate::rat::lemma_qwf_ops(bb@.max_y, bb@.min_y);
        crate::rat::lemma_qwf_ops(Q { n: 1, d: 10 }, qsub(bb@.max_x, bb@.min_x));
        crate::rat::lemma_qwf_ops(Q { n: 1, d: 10 }, qsub(bb@.max_y, bb@.min_y));
        crate::rat::lemma_qwf_ops(bb@.min_x, qmul(Q { n: 1, d: 10 }, qsub(bb@.max_x, bb@.min_x)));
        crate::rat::lemma_qwf_ops(bb@.max_x, qmul(Q { n: 1, d: 10 }, qsub(bb@.max_x, bb@.min_x)));
        crate::rat::lemma_qwf_ops(bb@.min_y, qmul(Q { n: 1, d: 10 }, qsub(bb@.max_y, bb@.min_y)));
        crate::rat::lemma_qwf_ops(bb@.max_y, qmul(Q { n: 1, d: 10 }, qsub(bb@.max_y, bb@.min_y)));
        lemma_qle_congr(expanded@.min_x, ebi.min_x, expanded@.max_x, ebi.max_x);
        lemma_qle_congr(expanded@.min_y, ebi.min_y, expanded@.max_y, ebi.max_y);
    }
    if !expanded.min_x.lt(&expanded.max_x) || !expanded.min_y.lt(&expanded.max_y) {
        // a degenerate scene (a single point or a flat run) cannot be
        // fitted; draw a blank surface
        return Some(out);
    }
    let p = match ScreenProject2d::from_bounding_box(&expanded, *width, *height) {
        Some(v) => v,
        None => {
            return None;
        },
    };
    let ghost prq = QProj {
        scale: crate::projection::stored_scale(expanded@, width@, height@),
        x_offset: crate::projection::stored_x_offset(expanded@, width@, height@),
        y_offset: crate::projection::stored_y_offset(expanded@, width@, height@),
    };
    let zero_pt = Point2d::new(Rat::zero(), Rat::zero());
    let min_pt = Point2d::new(expanded.min_x, expanded.min_y);
    let max_pt = Point2d::new(expanded.max_x, expanded.max_y);
    proof {
        assert(p@ == prq);
        assert(zero_pt@ == qzero_pt());
        assert(min_pt@ == qmin_corner(expanded@));
        assert(max_pt@ == qmax_corner(expanded@));
    }
    let zero_px = match p.project_point(&zero_pt) {
        Some(v) => v,
        None => {
            return None;
        },
    };
    let min_px = match p.project_point(&min_pt) {
        Some(v) => v,
        None => {
            return None;
        },
    };
    let max_px = match p.project_point(&max_pt) {
        Some(v) => v,
        None => {
            return None;
        },
    };
    let half = Rat::half();
    proof {
        assert(half@ == crate::projection::qhalf());
    }
    let half_h = match height.try_mul(&half) {
        Some(v) => v,
        None => {
            return None;
        },
    };
    let half_w = match width.try_mul(&half) {
        Some(v) => v,
        None => {
            return None;
        },
    };
    let zero = Rat::zero();
    let ghost zyq = qproj_y(p@, qzero_pt());
    let ghost zxq = qproj_x(p@, qzero_pt());
    proof {
        assert(zero_pt@ == qzero_pt());
        assert(min_pt@ == qmin_corner(expanded@));
        assert(max_pt@ == qmax_corner(expanded@));
        lemma_baseline_wf(p@, expanded@, width@, height@);
        lemma_qle_congr(zero_px.1@, zyq, qzero(), qzero());
        lemma_qle_congr(height@, height@, zero_px.1@, zyq);
        assert(half@ == crate::projection::qhalf());
        crate::rat::lemma_qwf_ops(height@, crate::projection::qhalf());
        crate::rat::lemma_qwf_ops(width@, crate::projection::qhalf());
        lemma_qle_congr(half_h@, qmul(height@, crate::projection::qhalf()), zero_px.1@, zyq);
        lemma_qle_congr(zero_px.0@, zxq, qzero(), qzero());
        lemma_qle_congr(width@, width@, zero_px.0@, zxq);
        lemma_qle_congr(half_w@, qmul(width@, crate::projection::qhalf()), zero_px.0@, zxq);
    }
    let ghost out_pre_h = out@;
    // horizontal guide line: clamp the baseline to the viewport edge
    // when the x axis is off screen, and pick the label side
    let (tick_y, tick_side_vertical) = if zero_px.1.lt(&zero) {
        (zero, TickSideVertical::Bottom)
    } else if height.lt(&zero_px.1) {
        (*height, TickSideVertical::Top)
    } else {
        let mut axis: Vec<DrawCmd> = Vec::new();
        axis.push(DrawCmd::BeginPath);
        axis.push(DrawCmd::MoveTo(min_px.0, zero_px.1));
        axis.push(DrawCmd::LineTo(max_px.0, zero_px.1));
        axis.push(DrawCmd::Stroke);
        push_all(&mut out, axis);
        (
            zero_px.1,
            if half_h.lt(&zero_px.1) {
                TickSideVertical::Top
            } else {
                TickSideVertical::Bottom
            },
        )
    };
    let ghost jh = out@.len() as int;
    proof {
        if qlt(zyq, qzero()) || qlt(height@, zyq) {
            assert(out@.subrange(2, jh) =~= Seq::<DrawCmd>::empty());
        } else {
            assert(out@.subrange(2, jh) =~= seq![
                DrawCmd::BeginPath,
                DrawCmd::MoveTo(min_px.0, zero_px.1),
                DrawCmd::LineTo(max_px.0, zero_px.1),
                DrawCmd::Stroke,
            ]);
        }
        assert(haxis_match(p@, expanded@, height@, out@.subrange(2, jh)));
        assert(qeq(tick_y@, vertical_baseline(p@, height@)));
        assert(tick_y@ == stored_vbase(p@, height@));
        assert(tick_side_vertical == vertical_side(p@, height@));
        assert(out@.take(2) == out_pre_h.take(2));
    }
    let ghost out_pre_v = out@;
    // vertical guide line, clamped the same way
    let (tick_x, tick_side_horizontal) = if zero_px.0.lt(&zero) {
        (min_px.0, TickSideHorizontal::Right)
    } else if width.lt(&zero_px.0) {
        (max_px.0, TickSideHorizontal::Left)
    } else {
        let mut axis: Vec<DrawCmd> = Vec::new();
        axis.push(DrawCmd::BeginPath);
        axis.push(DrawCmd::MoveTo(zero_px.0, min_px.1));
        axis.push(DrawCmd::LineTo(zero_px.0, max_px.1));
        axis.push(DrawCmd::Stroke);
        push_all(&mut out, axis);
        (
            zero_px.0,
            if half_w.lt(&zero_px.0) {
                TickSideHorizontal::Left
            } else {
                TickSideHorizontal::Right
            },
        )
    };
    let ghost jv = out@.len() as int;
    proof {
        if qlt(zxq, qzero()) || qlt(width@, zxq) {
            assert(out@.subrange(jh, jv) =~= Seq::<DrawCmd>::empty());
        } else {
            assert(out@.subrange(jh, jv) =~= seq![
                DrawCmd::BeginPath,
                DrawCmd::MoveTo(zero_px.0, min_px.1),
                DrawCmd::LineTo(zero_px.0, max_px.1),
                DrawCmd::Stroke,
            ]);
        }
        assert(vaxis_match(p@, expanded@, width@, out@.subrange(jh, jv)));
        assert(qeq(tick_x@, horizontal_baseline(p@, expanded@, width@)));
        assert(tick_x@ == stored_hbase(p@, expanded@, width@));
        assert(tick_side_horizontal == horizontal_side(p@, width@));
        assert(out@.subrange(2, jh) == out_pre_v.subrange(2, jh));
    }
    let ghost mid_axis = out@;
    let ghost mut jt = jv;
    let ghost mut ticks_on = false;
    let ghost mut step_g = qzero();
    let ghost mut ts_y_g = Seq::<Q>::empty();
    let ghost mut ts_x_g = Seq::<Q>::empty();
    // the tick step: forty pixels worth of model units, snapped
    let forty = Rat::from_int(40);
    let scale = p.scale();
    let raw_step = match forty.try_div(&scale) {
        Some(v) => v,
        None => {
            return None;
        },
    };
    let big = Rat::from_int(1000000000000000);
    let small = Rat::new(1, 1000000000000000);
    proof {
        assert(raw_step@ == stored_raw_step(p@));
        crate::rat::lemma_qle_congr(
            small@,
            Q { n: 1, d: 1000000000000000 },
            raw_step@,
            raw_step@,
        );
    }
    let raw_in_window = zero.lt(&raw_step) && raw_step.lt(&big) && small.lt(&raw_step);
    if raw_in_window {
        proof {
            lemma_qreduce_props(Q { n: 1, d: 1000000000000000 });
            assert(qlt(qint(1), qmul(raw_step@, qint(1000000000000000)))) by (nonlinear_arith)
                requires
                    qwf(raw_step@),
                    qlt(Q { n: 1, d: 1000000000000000 }, raw_step@),
            ;
        }
        let step = find_optimal_step(&raw_step);
        // ranges or steps beyond the safe magnitude draw no ticks
        if rat_in_tick_range(&step) && rat_in_tick_range(&expanded.min_y) && rat_in_tick_range(
            &expanded.max_y,
        ) && rat_in_tick_range(&expanded.min_x) && rat_in_tick_range(&expanded.max_x) && zero.lt(
            &step,
        ) {
            proof {
                ticks_on = true;
                step_g = step@;
                ts_y_g = crate::ticks::spec_ticks(expanded@.min_y, expanded@.max_y, step@);
                ts_x_g = crate::ticks::spec_ticks(expanded@.min_x, expanded@.max_x, step@);
                assert(qeq(raw_step@, crate::rat::qdiv(qint(40), p@.scale)));
                assert(snapped_step_fit(p@, step@));
            }
            let y_ticks = collect_ticks(&TickSequence::new(expanded.min_y, expanded.max_y, step));
            let ghost yrun_start = out@.len() as int;
            proof {
                assert(out@.skip(yrun_start) =~= Seq::<DrawCmd>::empty());
                assert(ts_y_g.take(0) =~= Seq::<Q>::empty());
            }
            let mut i: usize = 0;
            while i < y_ticks.len()
                invariant
                    p.wf(),
                    tick_x.wf(),
                    width.wf(),
                    height.wf(),
                    expanded.wf(),
                    step.wf(),
                    qlt(qzero(), step@),
                    forall|k: int| 0 <= k < y_ticks@.len() ==> (#[trigger] y_ticks@[k]).wf(),
                    0 <= i <= y_ticks@.len(),
                    ts_y_g == crate::ticks::spec_ticks(expanded@.min_y, expanded@.max_y, step@),
                    y_ticks@.len() == ts_y_g.len(),
                    forall|k: int|
                        0 <= k < y_ticks@.len() ==> qeq(#[trigger] y_ticks@[k]@, ts_y_g[k])
                            && y_ticks@[k]@ == qreduce(ts_y_g[k]),
                    qeq(tick_x@, horizontal_baseline(p@, expanded@, width@)),
                    tick_x@ == stored_hbase(p@, expanded@, width@),
                    tick_side_horizontal == horizontal_side(p@, width@),
                    out@.len() >= yrun_start >= 0,
                    out@.take(yrun_start) == mid_axis,
                    ytick_runs_match(
                        p@,
                        expanded@,
                        width@,
                        ts_y_g.take(i as int),
                        out@.skip(yrun_start),
                    ),
                decreases y_ticks@.len() - i,
            {
                let ghost prev_out = out@;
                proof {
                    assert(ts_y_g.take(i + 1).drop_last() =~= ts_y_g.take(i as int));
                    assert(ts_y_g.take(i + 1).last() == ts_y_g[i as int]);
                    assert(qwf(ts_y_g[i as int]));
                }
                match draw_y_tick(&p, tick_side_horizontal, &y_ticks[i], &tick_x) {
                    Some(c) => {
                        let ghost cv = c@;
                        push_all(&mut out, c);
                        proof {
                            lemma_ytick_transfer(
                                p@,
                                expanded@,
                                width@,
                                height@,
                                tick_x,
                                tick_side_horizontal,
                                y_ticks@[i as int],
                                ts_y_g[i as int],
                                cv,
                            );
                            let suffix = out@.skip(yrun_start);
                            let k = prev_out.len() - yrun_start;
                            assert(suffix.take(k) =~= prev_out.skip(yrun_start));
                            assert(suffix.skip(k) =~= cv);
                            assert(out@.take(yrun_start) =~= prev_out.take(yrun_start));
                            assert(ytick_runs_match(
                                p@,
                                expanded@,
                                width@,
                                ts_y_g.take(i + 1),
                                suffix,
                            ));
                        }
                    },
                    None => {
                        proof {
                            let suffix = out@.skip(yrun_start);
                            let k = suffix.len() as int;
                            assert(suffix.take(k) =~= suffix);
                            assert(suffix.skip(k) =~= Seq::<DrawCmd>::empty());
                            assert(ytick_runs_match(
                                p@,
                                expanded@,
                                width@,
                                ts_y_g.take(i + 1),
                                suffix,
                            ));
                        }
                    },
                }
                i = i + 1;
            }
            proof {
                assert(ts_y_g.take(y_ticks@.len() as int) =~= ts_y_g);
                jt = out@.len() as int;
            }
            let ghost mid_y = out@;
            let x_ticks = collect_ticks(&TickSequence::new(expanded.min_x, expanded.max_x, step));
            let ghost xrun_start = out@.len() as int;
            proof {
                assert(out@.skip(xrun_start) =~= Seq::<DrawCmd>::empty());
                assert(ts_x_g.take(0) =~= Seq::<Q>::empty());
            }
            let mut i: usize = 0;
            while i < x_ticks.len()
                invariant
                    p.wf(),
                    tick_y.wf(),
                    width.wf(),
                    height.wf(),
                    expanded.wf(),
                    step.wf(),
                    qlt(qzero(), step@),
                    forall|k: int| 0 <= k < x_ticks@.len() ==> (#[trigger] x_ticks@[k]).wf(),
                    0 <= i <= x_ticks@.len(),
                    ts_x_g == crate::ticks::spec_ticks(expanded@.min_x, expanded@.max_x, step@),
                    x_ticks@.len() == ts_x_g.len(),
                    forall|k: int|
                        0 <= k < x_ticks@.len() ==> qeq(#[trigger] x_ticks@[k]@, ts_x_g[k])
                            && x_ticks@[k]@ == qreduce(ts_x_g[k]),
                    qeq(tick_y@, vertical_baseline(p@, height@)),
                    tick_y@ == stored_vbase(p@, height@),
                    tick_side_vertical == vertical_side(p@, height@),
                    out@.len() >= xrun_start >= 0,
                    out@.take(xrun_start) == mid_y,
                    xtick_runs_match(p@, height@, ts_x_g.take(i as int), out@.skip(xrun_start)),
                decreases x_ticks@.len() - i,
            {
                let ghost prev_out = out@;
                proof {
                    assert(ts_x_g.take(i + 1).drop_last() =~= ts_x_g.take(i as int));
                    assert(ts_x_g.take(i + 1).last() == ts_x_g[i as int]);
                    assert(qwf(ts_x_g[i as int]));
                }
                match draw_x_tick(&p, tick_side_vertical, &x_ticks[i], &tick_y) {
                    Some(c) => {
                        let ghost cv = c@;
                        push_all(&mut out, c);
                        proof {
                            lemma_xtick_transfer(
                                p@,
                                expanded@,
                                width@,
                                height@,
                                tick_y,
                                tick_side_vertical,
                                x_ticks@[i as int],
                                ts_x_g[i as int],
                                cv,
                            );
                            let suffix = out@.skip(xrun_start);
                            let k = prev_out.len() - xrun_start;
                            assert(suffix.take(k) =~= prev_out.skip(xrun_start));
                            assert(suffix.skip(k) =~= cv);
                            assert(out@.take(xrun_start) =~= prev_out.take(xrun_start));
                            assert(xtick_runs_match(p@, height@, ts_x_g.take(i + 1), suffix));
                        }
                    },
                    None => {
                        proof {
                            let suffix = out@.skip(xrun_start);
                            let k = suffix.len() as int;
                            assert(suffix.take(k) =~= suffix);
                            assert(suffix.skip(k) =~= Seq::<DrawCmd>::empty());
                            assert(xtick_runs_match(p@, height@, ts_x_g.take(i + 1), suffix));
                        }
                    },
                }
                i = i + 1;
            }
            proof {
                assert(ts_x_g.take(x_ticks@.len() as int) =~= ts_x_g);
                assert(out@.take(jv) =~= mid_axis);
                let section = out@.skip(jv);
                assert(section.take(jt - jv) =~= mid_y.skip(jv));
                assert(section.skip(jt - jv) =~= out@.skip(jt));
                assert(ticks_cmds_match(p@, expanded@, width@, height@, section));
            }
        } else {
            proof {
                assert(out@.skip(jv) =~= Seq::<DrawCmd>::empty());
                assert(qeq(raw_step@, crate::rat::qdiv(qint(40), p@.scale)));
                assert(snapped_step_fit(p@, step@));
                if crate::ticks::qsmall(expanded@.min_x) && crate::ticks::qsmall(expanded@.max_x)
                    && crate::ticks::qsmall(expanded@.min_y) && crate::ticks::qsmall(
                    expanded@.max_y,
                ) {
                    // the snapped step failed its own gate
                    assert(!(crate::ticks::qsmall(step@) && qlt(qzero(), step@)));
                    let section = out@.skip(jv);
                    assert(section.take(0) =~= Seq::<DrawCmd>::empty());
                    let tsw = crate::ticks::spec_ticks(expanded@.min_y, expanded@.max_y, step@);
                    assert(tsw == crate::ticks::spec_ticks(expanded@.min_y, expanded@.max_y, step@));
                    assert(ticks_cmds_match(p@, expanded@, width@, height@, out@.skip(jv)));
                } else {
                    assert(!ticks_enabled(p@, expanded@));
                    assert(ticks_cmds_match(p@, expanded@, width@, height@, out@.skip(jv)));
                }
            }
        }
    } else {
        proof {
            assert(out@.skip(jv) =~= Seq::<DrawCmd>::empty());
            assert(!ticks_enabled(p@, expanded@));
            assert(ticks_cmds_match(p@, expanded@, width@, height@, out@.skip(jv)));
        }
    }
    // every figure, in list order, with its own style
    proof {
        assert(render_fit(bb@, width@, height@, p@, expanded@));
    }
    let ghost fig_start = out@.len() as int;
    let ghost mid_all = out@;
    proof {
        assert(out@.skip(fig_start) =~= Seq::<DrawCmd>::empty());
        assert(list@.take(0) =~= Seq::<QFigure>::empty());
        assert(out@.take(jv) =~= mid_axis);
        assert(out@[0] == DrawCmd::SetStrokeColor(CssColor::Black) && out@[1] == DrawCmd::Clear)
            by {
            assert(out@.take(jv)[0] == out@[0] && out@.take(jv)[1] == out@[1]);
            assert(mid_axis[0] == DrawCmd::SetStrokeColor(CssColor::Black) && mid_axis[1]
                == DrawCmd::Clear);
        }
        assert(ticks_cmds_match(p@, expanded@, width@, height@, mid_all.skip(jv)));
        assert(mid_all.subrange(2, jh) =~= mid_axis.subrange(2, jh));
        assert(mid_all.subrange(jh, jv) =~= mid_axis.subrange(jh, jv));
        assert(haxis_match(p@, expanded@, height@, mid_all.subrange(2, jh)));
        assert(vaxis_match(p@, expanded@, width@, mid_all.subrange(jh, jv)));
    }
    let mut i: usize = 0;
    while i < list.0.len()
        invariant
            p.wf(),
            list.wf(),
            0 <= i <= list.0@.len(),
            crate::display::qfigs_bbox(list@) == Some(bb@),
            render_fit(bb@, width@, height@, p@, expanded@),
            crate::geom::expand_ok(bb@, Q { n: 1, d: 10 }),
            expanded@ == crate::geom::stored_expand(bb@, Q { n: 1, d: 10 }),
            qlt(expanded@.min_x, expanded@.max_x) && qlt(expanded@.min_y, expanded@.max_y),
            p@ == prq,
            prq == (QProj {
                scale: crate::projection::stored_scale(expanded@, width@, height@),
                x_offset: crate::projection::stored_x_offset(expanded@, width@, height@),
                y_offset: crate::projection::stored_y_offset(expanded@, width@, height@),
            }),
            forall|k: int| 0 <= k < i ==> figure_cmds_ok(#[trigger] list@[k], p@),
            out@.len() >= 2,
            out@[0] == DrawCmd::SetStrokeColor(CssColor::Black),
            out@[1] == DrawCmd::Clear,
            0 <= fig_start <= out@.len(),
            out@.take(fig_start) == mid_all,
            figs_cmds_match(list@.take(i as int), p@, out@.skip(fig_start)),
        decreases list.0@.len() - i,
    {
        let ghost prev_out = out@;
        match figure_commands(&list.0[i], &p) {
            Some(c) => {
                let ghost cmds_i = c@;
                push_all(&mut out, c);
                proof {
                    let suffix = out@.skip(fig_start);
                    let k = prev_out.len() - fig_start;
                    assert(suffix.take(k) =~= prev_out.skip(fig_start));
                    assert(suffix.skip(k) =~= cmds_i);
                    assert(out@.take(fig_start) =~= prev_out.take(fig_start));
                    assert(list@.take(i + 1).drop_last() =~= list@.take(i as int));
                    assert(list@.take(i + 1).last() == list@[i as int]);
                    assert(list@[i as int] == list.0@[i as int]@);
                    assert(figure_cmds_ok(list@[i as int], p@));
                    assert(0 <= k <= suffix.len());
                    assert(figs_cmds_match(list@.take(i + 1).drop_last(), p@, suffix.take(k)));
                    assert(figure_cmds_match(list@.take(i + 1).last(), p@, suffix.skip(k)));
                    assert(figs_cmds_match(list@.take(i + 1), p@, suffix));
                }
            },
            None => {
                proof {
                    assert(list@.len() == list.0@.len());
                    assert(list@[i as int] == list.0@[i as int]@);
                    assert(!figure_cmds_ok(list@[i as int], prq));
                    assert(!render_ok(list@, width@, height@));
                }
                return None;
            },
        }
        i = i + 1;
    }
    proof {
        assert(list@.take(list.0@.len() as int) =~= list@);
        assert(figs_cmds_match(list@, p@, out@.skip(fig_start)));
        let b2 = crate::display::qfigs_bbox(list@)->Some_0;
        assert(b2 == bb@);
        assert(render_fit(b2, width@, height@, p@, expanded@));
        assert(2 <= fig_start <= out@.len());
        let middle = out@.subrange(2, fig_start);
        assert(middle.take(jh - 2) =~= mid_all.subrange(2, jh));
        assert(middle.subrange(jh - 2, jv - 2) =~= mid_all.subrange(jh, jv));
        assert(middle.skip(jv - 2) =~= mid_all.skip(jv));
        assert(middle_cmds_match(p@, expanded@, width@, height@, middle));
        let ebt = crate::geom::stored_expand(b2, Q { n: 1, d: 10 });
        assert(ebt == expanded@);
        assert(crate::geom::expand_ok(b2, Q { n: 1, d: 10 }));
        assert(crate::projection::from_bounding_box_ok(ebt, width@, height@));
        let prt = QProj {
            scale: crate::projection::stored_scale(ebt, width@, height@),
            x_offset: crate::projection::stored_x_offset(ebt, width@, height@),
            y_offset: crate::projection::stored_y_offset(ebt, width@, height@),
        };
        assert(prt == p@);
        assert(project_point_ok(prt, qzero_pt()));
        assert(project_point_ok(prt, qmin_corner(ebt)));
        assert(project_point_ok(prt, qmax_corner(ebt)));
        assert(representable(qmul(height@, crate::projection::qhalf())));
        assert(representable(qmul(width@, crate::projection::qhalf())));
        assert(representable(crate::rat::qdiv(qint(40), prt.scale)));
        assert(list@.len() == list.0@.len());
        assert forall|i2: int| 0 <= i2 < list@.len() implies figure_cmds_ok(
            #[trigger] list@[i2],
            prt,
        ) by {
            assert(figure_cmds_ok(list@[i2], p@));
        }
        assert(render_ok(list@, width@, height@));
    }
    Some(out)
}

} // verus!
