//! Import of GDSII libraries.

use vstd::prelude::*;

use crate::error::clone_stack;
use crate::error::result_view;
use crate::error::ImportContext;
use crate::error::ImportContextView;
use crate::error::ImportMessage;
use crate::error::ImportMessageView;
use crate::error::LayoutError;
use crate::error::LayoutErrorView;
use crate::error::LayoutResult;
use crate::gdsii::GdsArrayRef;
use crate::gdsii::GdsArrayRefView;
use crate::gdsii::GdsBoundary;
use crate::gdsii::GdsBoundaryView;
use crate::gdsii::GdsBox;
use crate::gdsii::GdsElement;
use crate::gdsii::GdsElementView;
use crate::gdsii::GdsLayerSpec;
use crate::gdsii::GdsPath;
use crate::gdsii::GdsPathView;
use crate::gdsii::GdsPoint;
use crate::gdsii::GdsStrans;
use crate::gdsii::GdsStructRef;
use crate::gdsii::GdsStructRefView;
use crate::gdsii::GdsUnits;
use crate::gdsii::HasLayer;
use crate::gdsii::Real;
use crate::geom::Point;
use crate::geom::Shape;
use crate::geom::ShapeView;
use crate::layers::layer_at;
use crate::layers::with_layer_purpose;
use crate::layers::LayerKey;
use crate::layers::LayerPurpose;
use crate::layers::LayerView;
use crate::layers::Layers;
use crate::layout::CellRef;
use crate::layout::Element;
use crate::layout::ElementView;
use crate::layout::Instance;
use crate::layout::InstanceView;
use crate::layout::Unit;
use crate::views::lemma_views_push;
use crate::views::views;
use vstd::string::StringExecFns;

verus! {

/// The doubles that lie within a thousandth of the size of an angstrom, a nanometer and a
/// micrometer, in meters: the bits of the least and of the greatest of each. The bits of positive
/// doubles are ordered as their values are.
pub const ANGSTROM_MIN: u64 = 0x3ddb_75d6_693d_ab5e;
pub const ANGSTROM_MAX: u64 = 0x3ddb_83e9_4a71_d018;
pub const NANO_MIN: u64 = 0x3e11_29a6_01c6_8b1b;
pub const NANO_MAX: u64 = 0x3e11_3271_ce87_220f;
pub const MICRO_MIN: u64 = 0x3eb0_c2ac_1dbb_e3d8;
pub const MICRO_MAX: u64 = 0x3eb0_cb43_23af_f742;

/// What an importer warns of.
#[derive(Clone, Copy, Debug, PartialEq, Eq, Structural)]
pub enum ImportWarning {
    /// An instance is magnified or rotated. The support for this is in progress.
    InstanceOrientation,
}

/// An importer of GDSII libraries.
#[derive(Debug)]
pub struct GdsImporter {
    /// The layers found so far.
    pub layers: Layers,
    /// What is being imported, outermost first.
    pub ctx_stack: Vec<ImportContext>,
    /// The elements that were left out.
    pub unsupported: Vec<GdsElement>,
    /// What has been warned of.
    pub warnings: Vec<ImportWarning>,
}

/// The mathematical value of a [`GdsImporter`].
pub struct GdsImporterView {
    pub layers: Seq<LayerView>,
    pub ctx_stack: Seq<ImportContextView>,
    pub unsupported: Seq<GdsElementView>,
    pub warnings: Seq<ImportWarning>,
}

impl View for GdsImporter {
    type V = GdsImporterView;

    open spec fn view(&self) -> GdsImporterView {
        GdsImporterView {
            layers: self.layers@,
            ctx_stack: views(self.ctx_stack@),
            unsupported: views(self.unsupported@),
            warnings: self.warnings@,
        }
    }
}

impl GdsImporterView {
    /// The importer with `context` entered.
    pub open spec fn entered(self, context: ImportContextView) -> GdsImporterView {
        GdsImporterView { ctx_stack: self.ctx_stack.push(context), ..self }
    }

    /// The importer with the innermost context left.
    pub open spec fn left(self) -> GdsImporterView {
        GdsImporterView { ctx_stack: self.ctx_stack.drop_last(), ..self }
    }

    /// The failure that says `message`, in the present contexts.
    pub open spec fn failure(self, message: ImportMessageView) -> LayoutErrorView {
        LayoutErrorView::Import { stack: self.ctx_stack, message }
    }

    /// The failure that says `text`, in the present contexts.
    pub open spec fn failure_text(self, text: Seq<char>) -> LayoutErrorView {
        self.failure(ImportMessageView::Text(text))
    }
}

/// The layout point at a GDSII point.
pub open spec fn point(p: GdsPoint) -> Point {
    Point { x: p.x as isize, y: p.y as isize }
}

/// The layout points at GDSII points.
pub open spec fn points(xy: Seq<GdsPoint>) -> Seq<Point> {
    xy.map_values(|p: GdsPoint| point(p))
}

/// The unit that a database unit of `size` meters is taken for.
pub open spec fn unit_of(size: Real) -> Option<Unit> {
    if ANGSTROM_MIN <= size.bits <= ANGSTROM_MAX {
        Some(Unit::Angstrom)
    } else if NANO_MIN <= size.bits <= NANO_MAX {
        Some(Unit::Nano)
    } else if MICRO_MIN <= size.bits <= MICRO_MAX {
        Some(Unit::Micro)
    } else {
        None
    }
}

/// The import of the units.
pub open spec fn import_units_spec(s: GdsImporterView, units: GdsUnits) -> (
    GdsImporterView,
    Result<Unit, LayoutErrorView>,
) {
    match unit_of(units.db) {
        Some(unit) => (s, Ok(unit)),
        None => {
            let inside = s.entered(ImportContextView::Units);
            (inside, Err(inside.failure(ImportMessageView::UnsupportedUnit(units.db))))
        },
    }
}

/// `s` with the layer and the purpose of `numbers`, and the unlabelled element there with the
/// shape `inner`.
pub open spec fn place(s: GdsImporterView, numbers: GdsLayerSpec, inner: ShapeView) -> (
    GdsImporterView,
    ElementView,
) {
    let (layers, layer, purpose) = with_layer_purpose(s.layers, numbers.layer, numbers.xtype);
    (GdsImporterView { layers, ..s }, ElementView { net: None, layer, purpose, inner })
}

/// The layer at `key` has the number `num`.
pub open spec fn is_on_layer(layers: Seq<LayerView>, key: LayerKey, num: i16) -> bool {
    layer_at(layers, key) matches Some(layer) && layer.layernum == num
}

/// Four corners that are those of an axis-parallel rectangle.
pub open spec fn is_rectangle(pts: Seq<Point>) -> bool {
    &&& pts.len() == 4
    &&& {
        // Starting along the y-axis, or along the x-axis.
        ||| pts[0].x == pts[1].x && pts[1].y == pts[2].y && pts[2].x == pts[3].x && pts[3].y
            == pts[0].y
        ||| pts[0].y == pts[1].y && pts[1].x == pts[2].x && pts[2].y == pts[3].y && pts[3].x
            == pts[0].x
    }
}

/// The shape with the corners `pts`.
pub open spec fn corner_shape(pts: Seq<Point>) -> ShapeView {
    if is_rectangle(pts) {
        ShapeView::Rect { p0: pts[0], p1: pts[2] }
    } else {
        ShapeView::Poly { pts }
    }
}

/// The import of a boundary.
pub open spec fn import_boundary_spec(s: GdsImporterView, x: GdsBoundaryView) -> (
    GdsImporterView,
    Result<ElementView, LayoutErrorView>,
) {
    if x.xy[0] != x.xy.last() {
        let inside = s.entered(ImportContextView::Geometry);
        (inside, Err(inside.failure_text("GDS Boundary must start and end at the same point"@)))
    } else {
        let (t, element) = place(
            s,
            GdsLayerSpec { layer: x.layer, xtype: x.datatype },
            corner_shape(points(x.xy).drop_last()),
        );
        (t, Ok(element))
    }
}

/// The import of a box.
pub open spec fn import_box_spec(s: GdsImporterView, x: GdsBox) -> (
    GdsImporterView,
    Result<ElementView, LayoutErrorView>,
) {
    let (t, element) = place(
        s,
        GdsLayerSpec { layer: x.layer, xtype: x.boxtype },
        ShapeView::Rect { p0: point(x.xy[0]), p1: point(x.xy[2]) },
    );
    (t, Ok(element))
}

/// The import of a path.
pub open spec fn import_path_spec(s: GdsImporterView, x: GdsPathView) -> (
    GdsImporterView,
    Result<ElementView, LayoutErrorView>,
) {
    match x.width {
        Some(width) => {
            let (t, element) = place(
                s,
                GdsLayerSpec { layer: x.layer, xtype: x.datatype },
                ShapeView::Path { width: width as usize, pts: points(x.xy) },
            );
            (t, Ok(element))
        },
        None => {
            let inside = s.entered(ImportContextView::Geometry);
            (inside, Err(inside.failure_text("Invalid nonspecifed GDS Path width "@)))
        },
    }
}

/// Magnification or rotation that does not follow that of the surrounding instances.
pub open spec fn is_absolute(strans: Option<GdsStrans>) -> bool {
    strans matches Some(t) && (t.abs_mag || t.abs_angle)
}

/// What is warned of for an instance with the settings `strans`.
pub open spec fn orientation_warnings(strans: Option<GdsStrans>) -> Seq<ImportWarning> {
    match strans {
        Some(t) if t.mag is Some || t.angle is Some => seq![ImportWarning::InstanceOrientation],
        _ => Seq::empty(),
    }
}

/// An unnamed instance of the cell `name` at `p0` with the settings `strans`.
pub open spec fn instance(name: Seq<char>, p0: Point, strans: Option<GdsStrans>) -> InstanceView {
    InstanceView {
        inst_name: Seq::empty(),
        cell_name: name,
        cell: name,
        p0,
        reflect: strans matches Some(t) && t.reflected,
        angle: match strans {
            Some(t) => t.angle,
            None => None,
        },
    }
}

/// The import of an instance.
pub open spec fn import_instance_spec(s: GdsImporterView, x: GdsStructRefView) -> (
    GdsImporterView,
    Result<InstanceView, LayoutErrorView>,
) {
    if is_absolute(x.strans) {
        let inside = s.entered(ImportContextView::Instance(x.name));
        (inside, Err(inside.failure_text("Unsupported GDSII Instance: Absolute"@)))
    } else {
        (
            GdsImporterView { warnings: s.warnings + orientation_warnings(x.strans), ..s },
            Ok(instance(x.name, point(x.xy), x.strans)),
        )
    }
}

/// The sides of an array run along the axes.
pub open spec fn is_rectangular(x: GdsArrayRefView) -> bool {
    x.xy[0].y == x.xy[1].y && x.xy[0].x == x.xy[2].x
}

/// `n` divided by `d`, rounded toward zero.
pub open spec fn quotient(n: int, d: int) -> int {
    if n >= 0 {
        n / d
    } else {
        -((-n) / d)
    }
}

/// Where the instance in column `col` and row `row` of an array lies.
pub open spec fn array_point(x: GdsArrayRefView, col: int, row: int) -> Point {
    Point {
        x: (x.xy[0].x + col * quotient(x.xy[1].x - x.xy[0].x, x.cols as int)) as isize,
        y: (x.xy[0].y + row * quotient(x.xy[2].y - x.xy[0].y, x.rows as int)) as isize,
    }
}

/// The number of instances in an array.
pub open spec fn array_len(x: GdsArrayRefView) -> nat {
    if x.cols > 0 && x.rows > 0 {
        (x.cols * x.rows) as nat
    } else {
        0
    }
}

/// The instances of an array, column by column.
pub open spec fn array_instances(x: GdsArrayRefView) -> Seq<InstanceView> {
    Seq::new(
        array_len(x),
        |k: int|
            instance(x.name, array_point(x, k / (x.rows as int), k % (x.rows as int)), x.strans),
    )
}

/// The import of an array has a result: a rectangular one has columns and rows, and unless it is
/// absolute, so many of them that their product is positive.
pub open spec fn array_ready(x: GdsArrayRefView) -> bool {
    is_rectangular(x) ==> x.cols != 0 && x.rows != 0 && (is_absolute(x.strans) || x.cols * x.rows
        > 0)
}

/// The import of an array of instances.
pub open spec fn import_instance_array_spec(s: GdsImporterView, x: GdsArrayRefView) -> (
    GdsImporterView,
    Result<Seq<InstanceView>, LayoutErrorView>,
) {
    let inside = s.entered(ImportContextView::Array(x.name));
    if !is_rectangular(x) {
        (inside, Err(inside.failure_text("Invalid Non-Rectangular GDS Array"@)))
    } else if is_absolute(x.strans) {
        (inside, Err(inside.failure_text("Unsupported GDSII Instance: Absolute"@)))
    } else {
        (
            GdsImporterView { warnings: s.warnings + orientation_warnings(x.strans), ..s },
            Ok(array_instances(x)),
        )
    }
}

/// A quotient is no larger than what is divided.
proof fn lemma_quotient_bound(n: int, d: int)
    requires
        d != 0,
    ensures
        -vstd::math::abs(n) <= quotient(n, d) <= vstd::math::abs(n),
{
    let m = if n >= 0 {
        n
    } else {
        -n
    };
    assert(-m <= m / d <= m) by (nonlinear_arith)
        requires
            0 <= m,
            d != 0,
    ;
}

/// The `i`th of `n` steps from 0 toward `w` lies between the two.
pub(crate) proof fn lemma_step(w: int, n: int, i: int)
    requires
        0 <= i < n,
    ensures
        w >= 0 ==> 0 <= i * quotient(w, n) <= w,
        w < 0 ==> w <= i * quotient(w, n) <= 0,
{
    let m = if w >= 0 {
        w
    } else {
        -w
    };
    let q = m / n;
    assert(0 <= i * q <= m) by (nonlinear_arith)
        requires
            0 <= i < n,
            0 <= m,
            q == m / n,
    ;
    assert(i * (-q) == -(i * q)) by (nonlinear_arith);
}

/// The place of column `col` and row `row` in an array that is walked column by column.
proof fn lemma_array_index(cols: int, rows: int, col: int, row: int)
    requires
        0 <= col < cols,
        0 <= row < rows,
    ensures
        0 <= col * rows + row < cols * rows,
        (col * rows + row) / rows == col,
        (col * rows + row) % rows == row,
{
    assert(0 <= col * rows + row < cols * rows) by (nonlinear_arith)
        requires
            0 <= col < cols,
            0 <= row < rows,
    ;
    vstd::arithmetic::div_mod::lemma_fundamental_div_mod_converse(
        col * rows + row,
        rows,
        col,
        row,
    );
}

impl GdsImporter {
    /// The failure that says `message`, in the present contexts.
    pub fn err<T>(&self, message: ImportMessage) -> (r: LayoutResult<T>)
        ensures
            r matches Err(e) && e@ == self@.failure(message@),
    {
        Err(LayoutError::Import { stack: clone_stack(&self.ctx_stack), message })
    }

    /// The failure that says `text`, in the present contexts.
    pub(crate) fn err_text<T>(&self, text: &str) -> (r: LayoutResult<T>)
        ensures
            r matches Err(e) && e@ == self@.failure_text(text@),
    {
        self.err(ImportMessage::Text(String::from_str(text)))
    }

    /// Enters `context`.
    pub(crate) fn enter(&mut self, context: ImportContext)
        ensures
            final(self)@ == old(self)@.entered(context@),
    {
        self.ctx_stack.push(context);
        assert(self@.ctx_stack =~= old(self)@.ctx_stack.push(context@));
    }

    /// Leaves the innermost context.
    pub(crate) fn leave(&mut self)
        requires
            old(self)@.ctx_stack.len() > 0,
        ensures
            final(self)@ == old(self)@.left(),
    {
        self.ctx_stack.pop();
        assert(self@.ctx_stack =~= old(self)@.ctx_stack.drop_last());
    }

    /// Imports a point.
    pub fn import_point(&self, pt: &GdsPoint) -> (r: LayoutResult<Point>)
        ensures
            r == Ok::<Point, LayoutError>(point(*pt)),
    {
        let x: isize = match isize::try_from(pt.x) {
            Ok(x) => x,
            Err(_) => return Err(LayoutError::Conversion),
        };
        let y: isize = match isize::try_from(pt.y) {
            Ok(y) => y,
            Err(_) => return Err(LayoutError::Conversion),
        };
        Ok(Point::new(x, y))
    }

    /// Imports points.
    pub fn import_point_vec(&self, pts: &Vec<GdsPoint>) -> (r: LayoutResult<Vec<Point>>)
        ensures
            r matches Ok(v) && v@ == points(pts@),
    {
        let mut imported: Vec<Point> = Vec::new();
        let mut i: usize = 0;
        while i < pts.len()
            invariant
                i <= pts@.len(),
                imported@ =~= points(pts@.take(i as int)),
            decreases pts.len() - i,
        {
            imported.push(self.import_point(&pts[i])?);
            i += 1;
        }
        assert(pts@.take(i as int) =~= pts@);
        Ok(imported)
    }

    /// Imports the units.
    pub fn import_units(&mut self, units: &GdsUnits) -> (r: LayoutResult<Unit>)
        ensures
            final(self)@ == import_units_spec(old(self)@, *units).0,
            match r {
                Ok(unit) => import_units_spec(old(self)@, *units).1 == Ok::<Unit, LayoutErrorView>(
                    unit,
                ),
                Err(e) => import_units_spec(old(self)@, *units).1 == Err::<Unit, LayoutErrorView>(
                    e@,
                ),
            },
    {
        self.enter(ImportContext::Units);
        let size = units.db.bits;
        let unit = if ANGSTROM_MIN <= size && size <= ANGSTROM_MAX {
            Unit::Angstrom
        } else if NANO_MIN <= size && size <= NANO_MAX {
            Unit::Nano
        } else if MICRO_MIN <= size && size <= MICRO_MAX {
            Unit::Micro
        } else {
            return self.err(ImportMessage::UnsupportedUnit(units.db));
        };
        self.leave();
        assert(self@.ctx_stack =~= old(self)@.ctx_stack);
        Ok(unit)
    }

    /// The layer and the purpose of an element. They are created if they do not exist.
    pub fn import_element_layer(&mut self, elem: &impl HasLayer) -> (r: LayoutResult<
        (LayerKey, LayerPurpose),
    >)
        ensures
            r matches Ok((layer, purpose)) && (final(self)@.layers, layer, purpose)
                == with_layer_purpose(
                old(self)@.layers,
                elem.numbers().layer,
                elem.numbers().xtype,
            ),
            final(self)@ == (GdsImporterView { layers: final(self)@.layers, ..old(self)@ }),
            r matches Ok((layer, _)) && is_on_layer(
                final(self)@.layers,
                layer,
                elem.numbers().layer,
            ),
    {
        let spec = elem.layerspec();
        Ok(self.layers.get_or_insert(spec.layer, spec.xtype))
    }

    /// Imports a boundary: as a rectangle where it is one, else as a polygon.
    pub fn import_boundary(&mut self, x: &GdsBoundary) -> (r: LayoutResult<Element>)
        requires
            x@.xy.len() > 0,
        ensures
            (final(self)@, result_view(r)) == import_boundary_spec(old(self)@, x@),
            r matches Ok(e) ==> e.net is None && is_on_layer(
                final(self)@.layers,
                e.layer,
                x.layer,
            ),
    {
        self.enter(ImportContext::Geometry);
        let mut pts = self.import_point_vec(&x.xy)?;
        assert(x@.xy[0] == x@.xy.last() <==> points(x@.xy)[0] == points(x@.xy).last());
        if pts[0] != pts[pts.len() - 1] {
            return self.err_text("GDS Boundary must start and end at the same point");
        }
        // The last entry repeats the first.
        pts.pop();
        let inner = if pts.len() == 4 && ((pts[0].x == pts[1].x && pts[1].y == pts[2].y && pts[2].x
            == pts[3].x && pts[3].y == pts[0].y) || (pts[0].y == pts[1].y && pts[1].x == pts[2].x
            && pts[2].y == pts[3].y && pts[3].x == pts[0].x)) {
            Shape::Rect { p0: pts[0], p1: pts[2] }
        } else {
            Shape::Poly { pts }
        };
        let (layer, purpose) = self.import_element_layer(x)?;
        self.leave();
        assert(self@.ctx_stack =~= old(self)@.ctx_stack);
        Ok(Element { net: None, layer, purpose, inner })
    }

    /// Imports a box, by the first and the third of its five points: in a valid box those are
    /// opposite corners.
    pub fn import_box(&mut self, x: &GdsBox) -> (r: LayoutResult<Element>)
        ensures
            (final(self)@, result_view(r)) == import_box_spec(old(self)@, *x),
            r matches Ok(e) ==> e.net is None && is_on_layer(
                final(self)@.layers,
                e.layer,
                x.layer,
            ),
    {
        self.enter(ImportContext::Geometry);
        let inner = Shape::Rect {
            p0: self.import_point(&x.xy[0])?,
            p1: self.import_point(&x.xy[2])?,
        };
        let (layer, purpose) = self.import_element_layer(x)?;
        self.leave();
        assert(self@.ctx_stack =~= old(self)@.ctx_stack);
        Ok(Element { net: None, layer, purpose, inner })
    }

    /// Imports a path.
    pub fn import_path(&mut self, x: &GdsPath) -> (r: LayoutResult<Element>)
        ensures
            (final(self)@, result_view(r)) == import_path_spec(old(self)@, x@),
            r matches Ok(e) ==> e.net is None && is_on_layer(
                final(self)@.layers,
                e.layer,
                x.layer,
            ),
    {
        self.enter(ImportContext::Geometry);
        let pts = self.import_point_vec(&x.xy)?;
        let width = match x.width {
            Some(width) => width as usize,
            None => return self.err_text("Invalid nonspecifed GDS Path width "),
        };
        let inner = Shape::Path { width, pts };
        let (layer, purpose) = self.import_element_layer(x)?;
        self.leave();
        assert(self@.ctx_stack =~= old(self)@.ctx_stack);
        Ok(Element { net: None, layer, purpose, inner })
    }

    /// Imports the reflection and the rotation of an instance. Absolute settings are not supported.
    fn import_orientation(&mut self, strans: &Option<GdsStrans>) -> (r: LayoutResult<
        (bool, Option<Real>),
    >)
        ensures
            match r {
                Ok((reflect, angle)) => {
                    &&& !is_absolute(*strans)
                    &&& final(self)@ == (GdsImporterView {
                        warnings: old(self)@.warnings + orientation_warnings(*strans),
                        ..old(self)@
                    })
                    &&& reflect == (strans matches Some(t) && t.reflected)
                    &&& angle == (match *strans {
                        Some(t) => t.angle,
                        None => None,
                    })
                },
                Err(e) => {
                    &&& is_absolute(*strans)
                    &&& final(self)@ == old(self)@
                    &&& e@ == old(self)@.failure_text("Unsupported GDSII Instance: Absolute"@)
                },
            },
    {
        let mut reflect = false;
        let mut angle = None;
        if let Some(t) = strans {
            if t.abs_mag || t.abs_angle {
                return self.err_text("Unsupported GDSII Instance: Absolute");
            }
            if t.mag.is_some() || t.angle.is_some() {
                self.warnings.push(ImportWarning::InstanceOrientation);
            }
            reflect = t.reflected;
            angle = t.angle;
        }
        assert(self@.warnings =~= old(self)@.warnings + orientation_warnings(*strans));
        Ok((reflect, angle))
    }

    /// Imports an instance.
    pub fn import_instance(&mut self, sref: &GdsStructRef) -> (r: LayoutResult<Instance>)
        ensures
            (final(self)@, result_view(r)) == import_instance_spec(old(self)@, sref@),
            r matches Ok(inst) ==> {
                &&& inst.cell_name@ == sref.name@
                &&& inst.p0.x == sref.xy.x && inst.p0.y == sref.xy.y
                &&& inst.reflect <==> sref.strans is Some && sref.strans->0.reflected
                &&& sref.strans is Some ==> inst.angle == sref.strans->0.angle
                &&& sref.strans is None ==> inst.angle is None
            },
    {
        self.enter(ImportContext::Instance(sref.name.clone()));
        let p0 = self.import_point(&sref.xy)?;
        let (reflect, angle) = self.import_orientation(&sref.strans)?;
        self.leave();
        assert(self@.ctx_stack =~= old(self)@.ctx_stack);
        Ok(
            Instance {
                inst_name: String::new(),
                cell_name: sref.name.clone(),
                cell: CellRef::Name(sref.name.clone()),
                p0,
                reflect,
                angle,
            },
        )
    }

    /// Imports a two-dimensional array of instances, column by column.
    pub fn import_instance_array(&mut self, aref: &GdsArrayRef) -> (r: LayoutResult<Vec<Instance>>)
        requires
            array_ready(aref@),
        ensures
            final(self)@ == import_instance_array_spec(old(self)@, aref@).0,
            match r {
                Ok(v) => import_instance_array_spec(old(self)@, aref@).1 == Ok::<
                    Seq<InstanceView>,
                    LayoutErrorView,
                >(views(v@)),
                Err(e) => import_instance_array_spec(old(self)@, aref@).1 == Err::<
                    Seq<InstanceView>,
                    LayoutErrorView,
                >(e@),
            },
            r matches Ok(v) ==> forall|k: int|
                #![trigger v@[k]]
                0 <= k < v@.len() ==> {
                    &&& v@[k].cell_name@ == aref.name@
                    &&& v@[k].reflect <==> aref.strans is Some && aref.strans->0.reflected
                    &&& aref.strans is Some ==> v@[k].angle == aref.strans->0.angle
                    &&& aref.strans is None ==> v@[k].angle is None
                },
    {
        self.enter(ImportContext::Array(aref.name.clone()));
        let p0 = self.import_point(&aref.xy[0])?;
        let p1 = self.import_point(&aref.xy[1])?;
        let p2 = self.import_point(&aref.xy[2])?;
        if p0.y != p1.y || p0.x != p2.x {
            return self.err_text("Invalid Non-Rectangular GDS Array");
        }
        let width: i64 = p1.x as i64 - p0.x as i64;
        let height: i64 = p2.y as i64 - p0.y as i64;
        let cols: i64 = aref.cols as i64;
        let rows: i64 = aref.rows as i64;
        proof {
            lemma_quotient_bound(width as int, cols as int);
            lemma_quotient_bound(height as int, rows as int);
        }
        let xstep: i64 = width / cols;
        let ystep: i64 = height / rows;
        assert(xstep == quotient(width as int, cols as int));
        assert(ystep == quotient(height as int, rows as int));
        let (reflect, angle) = self.import_orientation(&aref.strans)?;
        let mut insts: Vec<Instance> = Vec::new();
        let ghost all = array_instances(aref@);
        assert(views(insts@) =~= all.take(0));
        let mut col: i64 = 0;
        while col < cols
            invariant
                p0 == point(aref.xy[0]),
                cols == aref.cols,
                rows == aref.rows,
                cols * rows > 0,
                width == aref.xy[1].x - aref.xy[0].x,
                height == aref.xy[2].y - aref.xy[0].y,
                xstep == quotient(width as int, cols as int),
                ystep == quotient(height as int, rows as int),
                reflect == (aref.strans matches Some(t) && t.reflected),
                angle == (match aref.strans {
                    Some(t) => t.angle,
                    None => None,
                }),
                all == array_instances(aref@),
                0 <= col,
                cols > 0 ==> col <= cols,
                cols > 0 ==> views(insts@) == all.take(col * rows),
                cols <= 0 ==> views(insts@) == all.take(0),
            decreases cols - col,
        {
            proof {
                assert(rows > 0) by (nonlinear_arith)
                    requires
                        cols * rows > 0,
                        cols > 0,
                ;
                lemma_step(width as int, cols as int, col as int);
            }
            let x: isize = (p0.x as i64 + col * xstep) as isize;
            let mut row: i64 = 0;
            assert(col * rows + 0 == col * rows);
            while row < rows
                invariant
                    p0 == point(aref.xy[0]),
                    cols == aref.cols,
                    rows == aref.rows,
                    rows > 0,
                    height == aref.xy[2].y - aref.xy[0].y,
                    ystep == quotient(height as int, rows as int),
                    reflect == (aref.strans matches Some(t) && t.reflected),
                    angle == (match aref.strans {
                        Some(t) => t.angle,
                        None => None,
                    }),
                    all == array_instances(aref@),
                    0 <= col < cols,
                    0 <= row <= rows,
                    x == array_point(aref@, col as int, 0).x,
                    views(insts@) == all.take(col * rows + row),
                decreases rows - row,
            {
                proof {
                    lemma_step(height as int, rows as int, row as int);
                    lemma_array_index(cols as int, rows as int, col as int, row as int);
                }
                let y: isize = (p0.y as i64 + row * ystep) as isize;
                let inst = Instance {
                    inst_name: String::new(),
                    cell_name: aref.name.clone(),
                    cell: CellRef::Name(aref.name.clone()),
                    p0: Point::new(x, y),
                    reflect,
                    angle,
                };
                let ghost k = col * rows + row;
                assert(inst@.inst_name =~= Seq::<char>::empty());
                assert(inst@ == all[k]);
                proof {
                    lemma_views_push(insts@, inst);
                }
                assert(all.take(k + 1) =~= all.take(k).push(all[k]));
                insts.push(inst);
                row += 1;
            }
            assert((col + 1) * rows == col * rows + rows) by (nonlinear_arith);
            col += 1;
        }
        assert(cols > 0 ==> rows > 0) by (nonlinear_arith)
            requires
                cols * rows > 0,
        ;
        assert(views(insts@) == all.take(all.len() as int));
        assert(all.take(all.len() as int) =~= all);
        assert forall|k: int| #![trigger insts@[k]] 0 <= k < insts@.len() implies insts@[k]@
            == all[k] by {
            assert(views(insts@)[k] == insts@[k]@);
        }
        self.leave();
        assert(self@.ctx_stack =~= old(self)@.ctx_stack);
        Ok(insts)
    }
}

} // verus!
