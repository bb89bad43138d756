//! The display list: an ordered collection of styled geometric figures,
//! with bounding boxes and content equality.

use crate::geom::{qbb_join, qbb_with_point, qpeq, BoundingBox, Point2d, QBox, QPoint};
use vstd::prelude::*;

verus! {

/// The stroke and fill colors a figure can carry.
#[derive(Clone, Copy, Debug, PartialEq, Eq, Structural)]
pub enum CssColor {
    Black,
    Blue,
    Green,
    Red,
}

impl CssColor {
    /// The CSS name of the color.
    pub open spec fn spec_value(&self) -> Seq<char> {
        match self {
            CssColor::Black => "black"@,
            CssColor::Blue => "blue"@,
            CssColor::Green => "green"@,
            CssColor::Red => "red"@,
        }
    }

    /// The CSS name of the color, as handed to a drawing surface.
    pub fn value(&self) -> (r: &'static str)
        ensures
            r@ == self.spec_value(),
    {
        match self {
            CssColor::Black => "black",
            CssColor::Blue => "blue",
            CssColor::Green => "green",
            CssColor::Red => "red",
        }
    }
}

impl Default for CssColor {
    /// The default color is black.
    fn default() -> (r: Self)
        ensures
            r == CssColor::Black,
    {
        CssColor::Black
    }
}

/// The style of a figure; only a color at present.
#[derive(Clone, Copy, Debug, PartialEq, Eq, Structural)]
pub enum CssStyle {
    Color(CssColor),
}

impl CssStyle {
    /// The CSS value of the style.
    pub open spec fn spec_value(&self) -> Seq<char> {
        match self {
            CssStyle::Color(c) => c.spec_value(),
        }
    }

    pub fn value(&self) -> (r: &'static str)
        ensures
            r@ == self.spec_value(),
    {
        match self {
            CssStyle::Color(c) => c.value(),
        }
    }
}

impl Default for CssStyle {
    /// The default style is plain black.
    fn default() -> (r: Self)
        ensures
            r == CssStyle::Color(CssColor::Black),
    {
        CssStyle::Color(CssColor::Black)
    }
}

/// A drawable geometry (specification model).
pub enum QGeometry {
    Polygon(Seq<QPoint>),
    Lines(Seq<QPoint>),
    HoverMarker(QPoint),
}

/// A drawable geometry: a closed point loop, an open polyline, or a
/// point marker.
#[derive(Clone, Debug)]
pub enum AnyGeometry {
    Polygon(Vec<Point2d>),
    Lines(Vec<Point2d>),
    HoverMarker(Point2d),
}

impl View for AnyGeometry {
    type V = QGeometry;

    open spec fn view(&self) -> QGeometry {
        match self {
            AnyGeometry::Polygon(v) => QGeometry::Polygon(qpoints_of(v@)),
            AnyGeometry::Lines(v) => QGeometry::Lines(qpoints_of(v@)),
            AnyGeometry::HoverMarker(p) => QGeometry::HoverMarker(p@),
        }
    }
}

/// The models of a run of stored points.
pub open spec fn qpoints_of(v: Seq<Point2d>) -> Seq<QPoint> {
    v.map_values(|p: Point2d| p@)
}

/// The models of a run of stored figures.
pub open spec fn qfigs_of(v: Seq<Figure>) -> Seq<QFigure> {
    v.map_values(|f: Figure| f@)
}

/// The box of a point run, grown point by point; empty for no points.
pub open spec fn qbb_of_points(s: Seq<QPoint>) -> Option<QBox>
    decreases s.len(),
{
    if s.len() == 0 {
        Option::None
    } else {
        qbb_with_point(qbb_of_points(s.drop_last()), s.last())
    }
}

/// The bounding box of a geometry: its points, accumulated.
pub open spec fn qgeo_bbox(g: QGeometry) -> Option<QBox> {
    match g {
        QGeometry::Polygon(s) => qbb_of_points(s),
        QGeometry::Lines(s) => qbb_of_points(s),
        QGeometry::HoverMarker(p) => qbb_of_points(seq![p]),
    }
}

/// Pointwise value equality of two point runs.
pub open spec fn qpoints_eq(a: Seq<QPoint>, b: Seq<QPoint>) -> bool {
    a.len() == b.len() && (forall|i: int| 0 <= i < a.len() ==> qpeq(#[trigger] a[i], b[i]))
}

/// Value equality of two geometries: same variant, equal points.
pub open spec fn qgeo_eq(a: QGeometry, b: QGeometry) -> bool {
    match (a, b) {
        (QGeometry::Polygon(x), QGeometry::Polygon(y)) => qpoints_eq(x, y),
        (QGeometry::Lines(x), QGeometry::Lines(y)) => qpoints_eq(x, y),
        (QGeometry::HoverMarker(x), QGeometry::HoverMarker(y)) => qpeq(x, y),
        _ => false,
    }
}

fn points_bbox(v: &Vec<Point2d>) -> (r: BoundingBox)
    requires
        forall|i: int| 0 <= i < v@.len() ==> (#[trigger] v@[i]).wf(),
    ensures
        r.wf(),
        r@ == qbb_of_points(qpoints_of(v@)),
{
    let ghost s = qpoints_of(v@);
    let mut bb = BoundingBox::empty();
    let mut i: usize = 0;
    while i < v.len()
        invariant
            forall|j: int| 0 <= j < v@.len() ==> (#[trigger] v@[j]).wf(),
            s == qpoints_of(v@),
            0 <= i <= v@.len(),
            bb.wf(),
            bb@ == qbb_of_points(s.take(i as int)),
        decreases v@.len() - i,
    {
        bb = bb.with_point(&v[i]);
        proof {
            assert(s.take(i + 1).drop_last() =~= s.take(i as int));
            assert(s.take(i + 1).last() == s[i as int]);
        }
        i = i + 1;
    }
    proof {
        assert(s.take(v@.len() as int) =~= s);
    }
    bb
}

fn points_eq(a: &Vec<Point2d>, b: &Vec<Point2d>) -> (r: bool)
    requires
        forall|i: int| 0 <= i < a@.len() ==> (#[trigger] a@[i]).wf(),
        forall|i: int| 0 <= i < b@.len() ==> (#[trigger] b@[i]).wf(),
    ensures
        r == qpoints_eq(qpoints_of(a@), qpoints_of(b@)),
{
    let ghost sa = qpoints_of(a@);
    let ghost sb = qpoints_of(b@);
    if a.len() != b.len() {
        return false;
    }
    let mut i: usize = 0;
    while i < a.len()
        invariant
            forall|j: int| 0 <= j < a@.len() ==> (#[trigger] a@[j]).wf(),
            forall|j: int| 0 <= j < b@.len() ==> (#[trigger] b@[j]).wf(),
            sa == qpoints_of(a@),
            sb == qpoints_of(b@),
            a@.len() == b@.len(),
            0 <= i <= a@.len(),
            forall|j: int| 0 <= j < i ==> qpeq(#[trigger] sa[j], sb[j]),
        decreases a@.len() - i,
    {
        proof {
            assert(sa[i as int] == a@[i as int]@ && sb[i as int] == b@[i as int]@);
        }
        if !a[i].eq_point(&b[i]) {
            return false;
        }
        i = i + 1;
    }
    true
}

impl AnyGeometry {
    pub open spec fn wf(&self) -> bool {
        match self {
            AnyGeometry::Polygon(v) => forall|i: int|
                0 <= i < v@.len() ==> (#[trigger] v@[i]).wf(),
            AnyGeometry::Lines(v) => forall|i: int| 0 <= i < v@.len() ==> (#[trigger] v@[i]).wf(),
            AnyGeometry::HoverMarker(p) => p.wf(),
        }
    }

    /// The bounding box of the geometry's points.
    pub fn bounding_box(&self) -> (r: BoundingBox)
        requires
            self.wf(),
        ensures
            r.wf(),
            r@ == qgeo_bbox(self@),
    {
        match self {
            AnyGeometry::Polygon(v) => {
                let bb = points_bbox(v);
                proof {
                    assert(self@ == QGeometry::Polygon(qpoints_of(v@)));
                }
                bb
            },
            AnyGeometry::Lines(v) => {
                let bb = points_bbox(v);
                proof {
                    assert(self@ == QGeometry::Lines(qpoints_of(v@)));
                }
                bb
            },
            AnyGeometry::HoverMarker(p) => {
                let bb = BoundingBox::empty().with_point(p);
                proof {
                    assert(qbb_of_points(Seq::<QPoint>::empty()) == Option::<QBox>::None);
                    assert(seq![p@].drop_last() =~= Seq::<QPoint>::empty());
                    assert(seq![p@].last() == p@);
                    assert(seq![p@].len() == 1);
                }
                bb
            },
        }
    }

    /// Value equality of two geometries.
    pub fn eq_geometry(&self, other: &AnyGeometry) -> (r: bool)
        requires
            self.wf(),
            other.wf(),
        ensures
            r == qgeo_eq(self@, other@),
    {
        match (self, other) {
            (AnyGeometry::Polygon(x), AnyGeometry::Polygon(y)) => points_eq(x, y),
            (AnyGeometry::Lines(x), AnyGeometry::Lines(y)) => points_eq(x, y),
            (AnyGeometry::HoverMarker(x), AnyGeometry::HoverMarker(y)) => x.eq_point(y),
            _ => false,
        }
    }
}

/// A figure of the display list (specification model).
pub struct QFigure {
    pub style: CssStyle,
    pub geometry: QGeometry,
}

/// Value equality of two figures: same style, equal geometry.
pub open spec fn qfig_eq(a: QFigure, b: QFigure) -> bool {
    a.style == b.style && qgeo_eq(a.geometry, b.geometry)
}

/// A styled drawable figure.
#[derive(Clone, Debug)]
pub struct Figure {
    pub style: CssStyle,
    pub geometry: AnyGeometry,
}

impl View for Figure {
    type V = QFigure;

    open spec fn view(&self) -> QFigure {
        QFigure { style: self.style, geometry: self.geometry@ }
    }
}

impl Figure {
    pub open spec fn wf(&self) -> bool {
        self.geometry.wf()
    }

    /// A closed stroked point loop.
    pub fn polygon(style: CssStyle, polygon: Vec<Point2d>) -> (r: Figure)
        ensures
            r == (Figure { style, geometry: AnyGeometry::Polygon(polygon) }),
    {
        Figure { style, geometry: AnyGeometry::Polygon(polygon) }
    }

    /// An open stroked polyline.
    pub fn lines(style: CssStyle, lines: Vec<Point2d>) -> (r: Figure)
        ensures
            r == (Figure { style, geometry: AnyGeometry::Lines(lines) }),
    {
        Figure { style, geometry: AnyGeometry::Lines(lines) }
    }

    /// A filled point marker.
    pub fn marker(style: CssStyle, pt: Point2d) -> (r: Figure)
        ensures
            r == (Figure { style, geometry: AnyGeometry::HoverMarker(pt) }),
    {
        Figure { style, geometry: AnyGeometry::HoverMarker(pt) }
    }

    /// The bounding box of the figure's geometry.
    pub fn bbox(&self) -> (r: BoundingBox)
        requires
            self.wf(),
        ensures
            r.wf(),
            r@ == qgeo_bbox(self@.geometry),
    {
        self.geometry.bounding_box()
    }

    /// Value equality of two figures.
    pub fn eq_figure(&self, other: &Figure) -> (r: bool)
        requires
            self.wf(),
            other.wf(),
        ensures
            r == qfig_eq(self@, other@),
    {
        let style_eq = match (&self.style, &other.style) {
            (CssStyle::Color(a), CssStyle::Color(b)) => *a == *b,
        };
        style_eq && self.geometry.eq_geometry(&other.geometry)
    }
}

/// Pairwise value equality of two figure runs.
pub open spec fn qfigs_eq(a: Seq<QFigure>, b: Seq<QFigure>) -> bool {
    a.len() == b.len() && (forall|i: int| 0 <= i < a.len() ==> qfig_eq(#[trigger] a[i], b[i]))
}

/// The union of the bounding boxes of a figure run.
pub open spec fn qfigs_bbox(s: Seq<QFigure>) -> Option<QBox>
    decreases s.len(),
{
    if s.len() == 0 {
        Option::None
    } else {
        qbb_join(qfigs_bbox(s.drop_last()), qgeo_bbox(s.last().geometry))
    }
}

/// The display list: an ordered, read-only run of figures, equal by
/// content so a renderer can skip a redraw when nothing changed.
#[derive(Clone, Debug)]
pub struct PolygonList(pub Vec<Figure>);

impl View for PolygonList {
    type V = Seq<QFigure>;

    open spec fn view(&self) -> Seq<QFigure> {
        qfigs_of(self.0@)
    }
}

impl PolygonList {
    pub open spec fn wf(&self) -> bool {
        forall|i: int| 0 <= i < self.0@.len() ==> (#[trigger] self.0@[i]).wf()
    }

    /// Value equality by content.
    pub fn content_eq(&self, other: &PolygonList) -> (r: bool)
        requires
            self.wf(),
            other.wf(),
        ensures
            r == qfigs_eq(self@, other@),
    {
        if self.0.len() != other.0.len() {
            return false;
        }
        let mut i: usize = 0;
        while i < self.0.len()
            invariant
                self.wf(),
                other.wf(),
                self@.len() == other@.len(),
                0 <= i <= self@.len(),
                forall|j: int| 0 <= j < i ==> qfig_eq(#[trigger] self@[j], other@[j]),
            decreases self@.len() - i,
        {
            proof {
                assert(self@[i as int] == self.0@[i as int]@ && other@[i as int] == other.0@[
                    i as int]@);
            }
            if !self.0[i].eq_figure(&other.0[i]) {
                return false;
            }
            i = i + 1;
        }
        true
    }

    /// The union of all figures' bounding boxes.
    pub fn bounding_box(&self) -> (r: BoundingBox)
        requires
            self.wf(),
        ensures
            r.wf(),
            r@ == qfigs_bbox(self@),
    {
        let mut bb = BoundingBox::empty();
        let mut i: usize = 0;
        while i < self.0.len()
            invariant
                self.wf(),
                0 <= i <= self@.len(),
                bb.wf(),
                bb@ == qfigs_bbox(self@.take(i as int)),
            decreases self@.len() - i,
        {
            let fb = self.0[i].bbox();
            bb = bb.join(&fb);
            proof {
                assert(self@[i as int] == self.0@[i as int]@);
                assert(self@.take(i + 1).drop_last() =~= self@.take(i as int));
                assert(self@.take(i + 1).last() == self@[i as int]);
            }
            i = i + 1;
        }
        proof {
            assert(self@.take(self@.len() as int) =~= self@);
        }
        bb
    }
}

impl From<Vec<Figure>> for PolygonList {
    /// Wrap a figure run as a display list.
    fn from(value: Vec<Figure>) -> (r: PolygonList) {
        PolygonList(value)
    }
}

impl vstd::std_specs::convert::FromSpecImpl<Vec<Figure>> for PolygonList {
    open spec fn obeys_from_spec() -> bool {
        true
    }

    open spec fn from_spec(value: Vec<Figure>) -> PolygonList {
        PolygonList(value)
    }
}

} // verus!
