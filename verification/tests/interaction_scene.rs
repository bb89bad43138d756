//! Tests of hit-testing, dragging, scene building and rendering.

use triview::display::{CssColor, CssStyle, PolygonList};
use triview::geom::{BoundingBox, Point2d, Triangle2d};
use triview::interact::{find_hovered_corner, try_move_corner, CanvasMouseEvent, InteractionState};
use triview::projection::ScreenProject2d;
use triview::rat::Rat;
use triview::render::{render, DrawCmd};
use triview::route::AppRoute;
use triview::scene::{
    cut_path_figures, pt_along, triangle_figures, with_selection_marker, CutCoordinate, CutSegment,
    PolygonPath,
};

fn whole(n: i64) -> Rat {
    Rat::from_int(n)
}

fn pt(x: i64, y: i64) -> Point2d {
    Point2d::new(whole(x), whole(y))
}

fn big_triangle() -> Triangle2d {
    Triangle2d::new(pt(-100, -50), pt(100, -50), pt(0, 50))
}

fn small_triangle_points() -> Vec<Point2d> {
    vec![pt(-50, 25), pt(0, -25), pt(50, 25)]
}

#[test]
fn rational_arithmetic_is_exact_and_reduced() {
    let third = Rat::new(1, 3);
    let sixth = Rat::new(1, 6);
    let half = third.try_add(&sixth).unwrap();
    assert!(half.eq_rat(&Rat::new(1, 2)));
    assert_eq!(half.num(), 1);
    assert_eq!(half.den(), 2);
    let q = Rat::new(2, 3).try_div(&Rat::new(4, 9)).unwrap();
    assert!(q.eq_rat(&Rat::new(3, 2)));
    assert!(Rat::new(2, 4).eq_rat(&Rat::new(1, 2)));
    assert!(Rat::new(-7, 14).num() == -1 && Rat::new(-7, 14).den() == 2);
}

#[test]
fn css_colors_and_defaults() {
    assert_eq!(CssColor::Black.value(), "black");
    assert_eq!(CssColor::Blue.value(), "blue");
    assert_eq!(CssColor::Green.value(), "green");
    assert_eq!(CssColor::Red.value(), "red");
    assert_eq!(CssStyle::default(), CssStyle::Color(CssColor::Black));
    assert_eq!(AppRoute::default(), AppRoute::Basic2d);
}

#[test]
fn hovered_corner_last_qualifying_wins() {
    // corners (0,0), (2,0), (1,10); the pointer at (1,0) is within the
    // pick radius of all three at resolution one — the highest index wins
    let t = Triangle2d::new(pt(0, 0), pt(2, 0), pt(1, 10));
    let sel = find_hovered_corner(&t, &pt(1, 0), &whole(1)).unwrap();
    assert_eq!(sel, Some(2));
    // at a finer resolution only the two near corners qualify
    let sel = find_hovered_corner(&t, &pt(1, 0), &Rat::new(1, 2)).unwrap();
    assert_eq!(sel, Some(1));
    // far away from all corners nothing qualifies
    let sel = find_hovered_corner(&t, &pt(500, 500), &whole(1)).unwrap();
    assert_eq!(sel, None);
}

#[test]
fn hit_radius_halves_when_scale_doubles() {
    // pick tolerance is ten pixels: at resolution one the model radius
    // is ten, at resolution one half it is five
    let t = Triangle2d::new(pt(0, 0), pt(1000, 0), pt(0, 1000));
    let probe = pt(10, 0);
    assert_eq!(find_hovered_corner(&t, &probe, &whole(1)).unwrap(), Some(0));
    assert_eq!(find_hovered_corner(&t, &probe, &Rat::new(1, 2)).unwrap(), None);
    let near = pt(5, 0);
    assert_eq!(find_hovered_corner(&t, &near, &Rat::new(1, 2)).unwrap(), Some(0));
}

#[test]
fn drag_keeps_area_positive() {
    let t = big_triangle();
    // moving the top corner below the base flips the winding: rejected
    assert!(try_move_corner(&t, 2, &pt(0, -200)).is_none());
    // moving it higher keeps a positive area: accepted
    let moved = try_move_corner(&t, 2, &pt(0, 80)).unwrap();
    assert!(moved.p3().eq_point(&pt(0, 80)));
    assert!(moved.p1().eq_point(&pt(-100, -50)));
    let area2 = moved.double_signed_area().unwrap();
    assert!(Rat::zero().lt(&area2));
}

#[test]
fn update_rejects_degenerate_and_accepts_valid_moves() {
    let state = InteractionState::new(big_triangle()).unwrap();
    assert_eq!(state.selection, None);
    // hover near the top corner selects it
    let hover = CanvasMouseEvent::new(whole(2), whole(48), 0, whole(1));
    let (state, changed) = state.update(&hover);
    assert!(changed);
    assert_eq!(state.selection, Some(2));
    // a drag to a degenerate position leaves the state unchanged
    let bad_drag = CanvasMouseEvent::new(whole(0), whole(-200), 1, whole(1));
    let (state2, changed) = state.update(&bad_drag);
    assert!(!changed);
    assert!(state2.triangle.p3().eq_point(&pt(0, 50)));
    // a valid drag moves the selected corner and keeps the selection
    let good_drag = CanvasMouseEvent::new(whole(5), whole(60), 1, whole(1));
    let (state3, changed) = state2.update(&good_drag);
    assert!(changed);
    assert_eq!(state3.selection, Some(2));
    assert!(state3.triangle.p3().eq_point(&pt(5, 60)));
    let area2 = state3.triangle.double_signed_area().unwrap();
    assert!(Rat::zero().lt(&area2));
}

#[test]
fn mouse_event_from_pixel_inverts_projection() {
    let b = triview::geom::BoundingBoxValues {
        min_x: whole(-10),
        min_y: whole(-30),
        max_x: whole(100),
        max_y: whole(150),
    };
    let p = ScreenProject2d::from_bounding_box(&b, whole(65), whole(90)).unwrap();
    let e = CanvasMouseEvent::from_pixel(&p, 31, 64, 1).unwrap();
    assert!(e.x().eq_rat(&whole(42)));
    assert!(e.y().eq_rat(&whole(22)));
    assert_eq!(e.buttons(), 1);
    // resolution is the reciprocal of the scale of one half
    assert!(e.resolution().eq_rat(&whole(2)));
}

#[test]
fn interpolation_along_an_edge() {
    let p = pt_along(&pt(-50, 25), &pt(0, -25), &Rat::new(1, 2)).unwrap();
    assert!(p.x.eq_rat(&whole(-25)));
    assert!(p.y.eq_rat(&whole(0)));
}

#[test]
fn cut_path_figures_enclosed_disjoint_and_skipped() {
    let poly = small_triangle_points();
    let enclosed = cut_path_figures(&poly, &PolygonPath::Enclosed);
    assert_eq!(enclosed.len(), 1);
    assert_eq!(enclosed[0].style, CssStyle::Color(CssColor::Red));
    let disjoint = cut_path_figures(&poly, &PolygonPath::Disjoint);
    assert_eq!(disjoint.len(), 0);
    // an unresolvable fragment (an edge index out of range) is dropped,
    // a resolvable one is kept
    let bad = CutSegment::new(
        CutCoordinate::new(9, Rat::new(1, 2)),
        CutCoordinate::new(0, Rat::new(1, 2)),
        vec![],
    );
    let good = CutSegment::new(
        CutCoordinate::new(0, Rat::new(1, 2)),
        CutCoordinate::new(1, Rat::new(1, 2)),
        vec![1],
    );
    let figs = cut_path_figures(&poly, &PolygonPath::CutSegments(vec![bad, good]));
    assert_eq!(figs.len(), 1);
    assert_eq!(figs[0].style, CssStyle::Color(CssColor::Red));
    match &figs[0].geometry {
        triview::display::AnyGeometry::Lines(pts) => {
            assert_eq!(pts.len(), 3);
            assert!(pts[0].eq_point(&pt(-25, 0)));
            assert!(pts[1].eq_point(&pt(0, -25)));
            assert!(pts[2].eq_point(&pt(25, 0)));
        },
        _ => panic!("expected a polyline"),
    }
}

#[test]
fn selection_marker_and_content_equality() {
    let t = big_triangle();
    let base = triangle_figures(&vec![t], CssStyle::Color(CssColor::Blue));
    let with = with_selection_marker(base.clone(), &t, &Some(2));
    assert_eq!(with.len(), 2);
    let same = with_selection_marker(base.clone(), &t, &None);
    assert_eq!(same.len(), 1);
    let a = PolygonList(base.clone());
    let b = PolygonList(base);
    assert!(a.content_eq(&b));
    assert!(!a.content_eq(&PolygonList(with)));
}

#[test]
fn scene_bbox_is_union_of_triangles_expanded() {
    // the end-to-end scene: the big triangle cut by the small one; the
    // figures' union bounding box is the union of both triangles' boxes,
    // and the renderer expands it by a tenth before fitting
    let big = big_triangle();
    let small = small_triangle_points();
    let mut figures = triangle_figures(&vec![big], CssStyle::Color(CssColor::Blue));
    figures.push(triview::display::Figure::polygon(
        CssStyle::Color(CssColor::Green),
        small.clone(),
    ));
    let seg = CutSegment::new(
        CutCoordinate::new(0, Rat::new(1, 2)),
        CutCoordinate::new(1, Rat::new(1, 2)),
        vec![1],
    );
    let mut cut = cut_path_figures(&small, &PolygonPath::CutSegments(vec![seg]));
    figures.append(&mut cut);
    let list = PolygonList(figures);
    let bb = match list.bounding_box() {
        BoundingBox::Rect(v) => v,
        BoundingBox::Empty => panic!("scene is not empty"),
    };
    assert!(bb.min_x.eq_rat(&whole(-100)));
    assert!(bb.max_x.eq_rat(&whole(100)));
    assert!(bb.min_y.eq_rat(&whole(-50)));
    assert!(bb.max_y.eq_rat(&whole(50)));
    let expanded = bb.expand(&Rat::new(1, 10)).unwrap();
    assert!(expanded.min_x.eq_rat(&whole(-120)));
    assert!(expanded.max_x.eq_rat(&whole(120)));
    assert!(expanded.min_y.eq_rat(&whole(-60)));
    assert!(expanded.max_y.eq_rat(&whole(60)));
}

#[test]
fn render_clears_first_and_draws_figures() {
    let empty = PolygonList(vec![]);
    let cmds = render(&empty, &whole(640), &whole(480)).unwrap();
    assert_eq!(cmds.len(), 2);
    assert!(matches!(cmds[0], DrawCmd::SetStrokeColor(CssColor::Black)));
    assert!(matches!(cmds[1], DrawCmd::Clear));
    let big = big_triangle();
    let mut figures = triangle_figures(&vec![big], CssStyle::Color(CssColor::Blue));
    figures.push(triview::display::Figure::polygon(
        CssStyle::Color(CssColor::Green),
        small_triangle_points(),
    ));
    let list = PolygonList(figures);
    let cmds = render(&list, &whole(640), &whole(480)).unwrap();
    assert!(matches!(cmds[0], DrawCmd::SetStrokeColor(CssColor::Black)));
    assert!(matches!(cmds[1], DrawCmd::Clear));
    // both axes lie inside the viewport, ticks are drawn and labelled,
    // and both polygons are stroked
    let labels = cmds.iter().filter(|c| matches!(c, DrawCmd::FillText(..))).count();
    assert!(labels > 0);
    let strokes = cmds.iter().filter(|c| matches!(c, DrawCmd::Stroke)).count();
    assert!(strokes >= 2);
    let closes = cmds.iter().filter(|c| matches!(c, DrawCmd::ClosePath)).count();
    assert_eq!(closes, 2);
}

#[test]
fn arithmetic_beyond_the_fields_reports_none() {
    // products whose reduced form cannot be stored are refused rather
    // than wrapped or rounded
    let big = whole(4_611_686_018_427_387_904);
    assert!(big.try_mul(&big).is_none());
    let far = Point2d::new(big, big);
    assert!(far.dist_square(&pt(0, 0)).is_none());
    // the same values pass once the result fits again
    assert!(big.try_mul(&Rat::new(1, 2)).is_some());
}

#[test]
fn basic_scene_order_and_marker() {
    let big = big_triangle();
    let small = small_triangle_points();
    let seg = CutSegment::new(
        CutCoordinate::new(0, Rat::new(1, 2)),
        CutCoordinate::new(1, Rat::new(1, 2)),
        vec![1],
    );
    let path = PolygonPath::CutSegments(vec![seg]);
    let scene = triview::scene::basic_scene(&big, &small, &path, &Some(2));
    // blue subject, green cutter, red fragment, green marker — in order
    assert_eq!(scene.len(), 4);
    assert_eq!(scene[0].style, CssStyle::Color(CssColor::Blue));
    assert_eq!(scene[1].style, CssStyle::Color(CssColor::Green));
    assert_eq!(scene[2].style, CssStyle::Color(CssColor::Red));
    assert_eq!(scene[3].style, CssStyle::Color(CssColor::Green));
    assert!(matches!(
        scene[3].geometry,
        triview::display::AnyGeometry::HoverMarker(_)
    ));
    let without = triview::scene::basic_scene(&big, &small, &path, &None);
    assert_eq!(without.len(), 3);
}
