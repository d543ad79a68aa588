//! Export to GDSII libraries.

use vstd::prelude::*;

use crate::error::result_view;
use crate::error::LayoutError;
use crate::error::LayoutErrorView;
use crate::error::LayoutResult;
use crate::gdsii::no_features;
use crate::gdsii::GdsBoundary;
use crate::gdsii::GdsBoundaryView;
use crate::gdsii::GdsElement;
use crate::gdsii::GdsElementView;
use crate::gdsii::GdsFeatures;
use crate::gdsii::GdsLibrary;
use crate::gdsii::GdsLibraryView;
use crate::gdsii::GdsPoint;
use crate::gdsii::GdsStrans;
use crate::gdsii::GdsStruct;
use crate::gdsii::GdsStructRef;
use crate::gdsii::GdsStructRefView;
use crate::gdsii::GdsStructView;
use crate::gdsii::GdsTextElem;
use crate::gdsii::GdsTextElemView;
use crate::gdsii::GdsUnits;
use crate::gdsii::Real;
use crate::geom::Dir;
use crate::geom::Point;
use crate::geom::Shape;
use crate::geom::ShapeView;
use crate::layers::layer_at;
use crate::layers::number_of;
use crate::layers::purpose_text;
use crate::layers::LayerPurpose;
use crate::layers::LayerView;
use crate::layout::Cell;
use crate::layout::CellView;
use crate::layout::Element;
use crate::layout::ElementView;
use crate::layout::Instance;
use crate::layout::InstanceView;
use crate::layout::Library;
use crate::layout::LibraryView;
use crate::layout::Unit;
use crate::text::append_decimal;
use crate::text::decimal;
use crate::views::lemma_views_add;
use crate::views::lemma_views_push;
use crate::views::views;
use vstd::string::StringExecFns;

verus! {

/// The bits of the doubles that stand in exported libraries.
pub const BITS_1: u64 = 0x3ff0_0000_0000_0000;
pub const BITS_1E_3: u64 = 0x3f50_624d_d2f1_a9fc;
pub const BITS_1E_4: u64 = 0x3f1a_36e2_eb1c_432d;
pub const BITS_1E_6: u64 = 0x3eb0_c6f7_a0b5_ed8d;
pub const BITS_1E_9: u64 = 0x3e11_2e0b_e826_d695;
pub const BITS_1E_10: u64 = 0x3ddb_7cdf_d9d7_bdbb;
pub const BITS_90: u64 = 0x4056_8000_0000_0000;

/// An exporter to GDSII libraries.
#[derive(Debug)]
pub struct GdsExporter {
    pub lib: Library,
}

/// The GDSII units for a library in the unit `unit`: a user unit is a micrometer in all cases.
pub open spec fn gds_units(unit: Unit) -> GdsUnits {
    match unit {
        Unit::Micro => GdsUnits { user: Real { bits: BITS_1 }, db: Real { bits: BITS_1E_6 } },
        Unit::Nano => GdsUnits { user: Real { bits: BITS_1E_3 }, db: Real { bits: BITS_1E_9 } },
        Unit::Angstrom => GdsUnits {
            user: Real { bits: BITS_1E_4 },
            db: Real { bits: BITS_1E_10 },
        },
    }
}

/// The coordinates of `p` fit those of a GDSII point.
pub open spec fn fits(p: Point) -> bool {
    i32::MIN <= p.x <= i32::MAX && i32::MIN <= p.y <= i32::MAX
}

/// The GDSII point at `p`.
pub open spec fn gds_point(p: Point) -> GdsPoint {
    GdsPoint { x: p.x as i32, y: p.y as i32 }
}

/// The export of a point.
pub open spec fn export_point_spec(p: Point) -> Result<GdsPoint, LayoutErrorView> {
    if fits(p) {
        Ok(gds_point(p))
    } else {
        Err(LayoutErrorView::Conversion)
    }
}

/// The closed outline of a shape: its corners in order, and the first of them once more.
pub open spec fn outline(inner: ShapeView) -> Seq<Point> {
    match inner {
        ShapeView::Rect { p0, p1 } => seq![
            p0,
            Point { x: p1.x, y: p0.y },
            p1,
            Point { x: p0.x, y: p1.y },
            p0,
        ],
        ShapeView::Poly { pts } => pts.push(pts[0]),
        ShapeView::Path { pts, .. } => pts,
    }
}

/// The export of points.
pub open spec fn export_points(pts: Seq<Point>) -> Result<Seq<GdsPoint>, LayoutErrorView> {
    if forall|i: int| 0 <= i < pts.len() ==> fits(#[trigger] pts[i]) {
        Ok(pts.map_values(|p: Point| gds_point(p)))
    } else {
        Err(LayoutErrorView::Conversion)
    }
}

/// The settings of the text on a shape that runs in the direction `dir`: the text runs with it.
pub open spec fn text_strans(dir: Dir) -> Option<GdsStrans> {
    match dir {
        Dir::Horiz => None,
        Dir::Vert => Some(
            GdsStrans {
                reflected: false,
                abs_mag: false,
                abs_angle: false,
                mag: None,
                angle: Some(Real { bits: BITS_90 }),
            },
        ),
    }
}

/// The export of an element that lies on `layer`, where its purpose has the number `datatype`.
pub open spec fn export_on_layer(layer: LayerView, datatype: i16, elem: ElementView) -> Result<
    Seq<GdsElementView>,
    LayoutErrorView,
> {
    match export_points(outline(elem.inner)) {
        Err(e) => Err(e),
        Ok(xy) => {
            let boundary = GdsElementView::GdsBoundary(
                GdsBoundaryView { layer: layer.layernum, datatype, xy },
            );
            match elem.net {
                None => Ok(seq![boundary]),
                Some(name) => match number_of(layer.purposes, LayerPurpose::Label) {
                    None => Err(LayoutErrorView::Message("Text Layer Not Defined"@)),
                    Some(texttype) => match export_point_spec(elem.inner.center()) {
                        Err(e) => Err(e),
                        Ok(xy) => Ok(
                            seq![
                                boundary,
                                GdsElementView::GdsTextElem(
                                    GdsTextElemView {
                                        string: name,
                                        layer: layer.layernum,
                                        texttype,
                                        xy,
                                        strans: text_strans(elem.inner.orientation()),
                                    },
                                ),
                            ],
                        ),
                    },
                },
            }
        },
    }
}

/// What is said of an element whose purpose has no number on its layer.
pub open spec fn no_purpose_text(layernum: i16, purpose: LayerPurpose) -> Seq<char> {
    "LayerPurpose Not Defined for "@ + decimal(layernum as int) + ", "@ + purpose_text(purpose)
}

/// The export of an element, among `layers`: its shape, and the name of its net, if it has one, as
/// a text of its own.
pub open spec fn export_element_spec(layers: Seq<LayerView>, elem: ElementView) -> Result<
    Seq<GdsElementView>,
    LayoutErrorView,
> {
    match layer_at(layers, elem.layer) {
        None => Err(LayoutErrorView::Message("Layer Not Defined"@)),
        Some(layer) => match number_of(layer.purposes, elem.purpose) {
            None => Err(LayoutErrorView::Message(no_purpose_text(layer.layernum, elem.purpose))),
            Some(datatype) => export_on_layer(layer, datatype, elem),
        },
    }
}

/// The shape can be exported: it is a rectangle, or a polygon that has corners.
pub open spec fn shape_exportable(inner: ShapeView) -> bool {
    match inner {
        ShapeView::Rect { .. } => true,
        ShapeView::Poly { pts } => pts.len() > 0,
        ShapeView::Path { .. } => false,
    }
}

/// The export of an element has a result: if its layer and purpose are defined, its shape can be
/// exported.
pub open spec fn element_ready(layers: Seq<LayerView>, elem: ElementView) -> bool {
    (layer_at(layers, elem.layer) matches Some(layer) && number_of(
        layer.purposes,
        elem.purpose,
    ) is Some) ==> shape_exportable(elem.inner)
}

/// The export of an instance. Its reflection and rotation are not exported.
pub open spec fn export_instance_spec(inst: InstanceView) -> Result<
    GdsStructRefView,
    LayoutErrorView,
> {
    match export_point_spec(inst.p0) {
        Err(e) => Err(e),
        Ok(xy) => Ok(GdsStructRefView { name: inst.cell_name, xy, strans: None }),
    }
}

/// All that `parts` hold, behind `done`, or the first error among them.
pub open spec fn gather<T>(
    done: Seq<T>,
    parts: Seq<Result<Seq<T>, LayoutErrorView>>,
) -> Result<Seq<T>, LayoutErrorView>
    decreases parts.len(),
{
    if parts.len() == 0 {
        Ok(done)
    } else {
        match parts[0] {
            Ok(part) => gather(done + part, parts.drop_first()),
            Err(e) => Err(e),
        }
    }
}

/// What an instance becomes in a struct.
pub open spec fn instance_part(inst: InstanceView) -> Result<
    Seq<GdsElementView>,
    LayoutErrorView,
> {
    match export_instance_spec(inst) {
        Ok(sref) => Ok(seq![GdsElementView::GdsStructRef(sref)]),
        Err(e) => Err(e),
    }
}

/// What the instances and then the elements of a cell become in a struct.
pub open spec fn cell_parts(layers: Seq<LayerView>, cell: CellView) -> Seq<
    Result<Seq<GdsElementView>, LayoutErrorView>,
> {
    cell.insts.map_values(|inst: InstanceView| instance_part(inst)) + cell.elems.map_values(
        |elem: ElementView| export_element_spec(layers, elem),
    )
}

/// The export of a cell.
pub open spec fn export_cell_spec(layers: Seq<LayerView>, cell: CellView) -> Result<
    GdsStructView,
    LayoutErrorView,
> {
    match gather(Seq::empty(), cell_parts(layers, cell)) {
        Ok(elems) => Ok(GdsStructView { name: cell.name, elems }),
        Err(e) => Err(e),
    }
}

/// The export of a cell has a result: that of each element that is reached before the first error
/// has.
pub open spec fn cell_ready(layers: Seq<LayerView>, cell: CellView) -> bool {
    forall|i: int|
        0 <= i < cell.elems.len() && (forall|j: int|
            0 <= j < cell.insts.len() + i ==> (#[trigger] cell_parts(layers, cell)[j]) is Ok)
            ==> element_ready(layers, #[trigger] cell.elems[i])
}

/// What the cells of a library become.
pub open spec fn library_parts(lib: LibraryView) -> Seq<
    Result<Seq<GdsStructView>, LayoutErrorView>,
> {
    lib.cells.map_values(
        |cell: CellView|
            match export_cell_spec(lib.layers, cell) {
                Ok(strukt) => Ok(seq![strukt]),
                Err(e) => Err(e),
            },
    )
}

/// The export of a library.
pub open spec fn export_spec(lib: LibraryView) -> Result<GdsLibraryView, LayoutErrorView> {
    if lib.libs > 0 {
        Err(LayoutErrorView::Export("No nested libraries to GDS (yet)"@))
    } else {
        match gather(Seq::empty(), library_parts(lib)) {
            Ok(structs) => Ok(
                GdsLibraryView {
                    name: lib.name,
                    features: no_features(),
                    units: gds_units(lib.units),
                    structs,
                },
            ),
            Err(e) => Err(e),
        }
    }
}

/// The export of a library has a result: that of each cell that is reached before the first error
/// has.
pub open spec fn library_ready(lib: LibraryView) -> bool {
    lib.libs == 0 ==> forall|i: int|
        0 <= i < lib.cells.len() && (forall|j: int|
            0 <= j < i ==> (#[trigger] library_parts(lib)[j]) is Ok) ==> cell_ready(
            lib.layers,
            #[trigger] lib.cells[i],
        )
}

impl GdsExporter {
    /// Exports a library.
    pub fn export(lib: Library) -> (r: LayoutResult<GdsLibrary>)
        requires
            library_ready(lib@),
        ensures
            result_view(r) == export_spec(lib@),
    {
        GdsExporter { lib }.export_all()
    }

    /// Whether [`GdsExporter::export`] can be called with the library: no shape that the export
    /// comes to is a path, or a polygon without corners.
    pub fn is_exportable(&self) -> (r: bool)
        ensures
            r == library_ready(self.lib@),
    {
        let ghost lib = self.lib@;
        let ghost parts = library_parts(lib);
        if self.lib.libs.len() > 0 {
            return true;
        }
        let mut i: usize = 0;
        while i < self.lib.cells.len()
            invariant
                i <= self.lib.cells@.len(),
                lib == self.lib@,
                lib.libs == 0,
                parts == library_parts(lib),
                forall|j: int| 0 <= j < i ==> (#[trigger] parts[j]) is Ok,
                forall|j: int| 0 <= j < i ==> cell_ready(lib.layers, #[trigger] lib.cells[j]),
            decreases self.lib.cells.len() - i,
        {
            let cell = &self.lib.cells[i];
            assert(lib.cells[i as int] == cell@);
            if !self.is_exportable_cell(cell) {
                assert(!library_ready(lib));
                return false;
            }
            if self.export_cell(cell).is_err() {
                assert(parts[i as int] is Err);
                return true;
            }
            assert(parts[i as int] is Ok);
            i += 1;
        }
        true
    }

    /// Whether the export of a cell has a result.
    fn is_exportable_cell(&self, cell: &Cell) -> (r: bool)
        ensures
            r == cell_ready(self.lib@.layers, cell@),
    {
        let ghost layers = self.lib@.layers;
        let ghost parts = cell_parts(layers, cell@);
        let mut i: usize = 0;
        while i < cell.insts.len()
            invariant
                i <= cell.insts@.len(),
                layers == self.lib@.layers,
                parts == cell_parts(layers, cell@),
                forall|j: int| 0 <= j < i ==> (#[trigger] parts[j]) is Ok,
            decreases cell.insts.len() - i,
        {
            assert(parts[i as int] == instance_part(cell.insts@[i as int]@));
            if self.export_instance(&cell.insts[i]).is_err() {
                assert(parts[i as int] is Err);
                return true;
            }
            i += 1;
        }
        let mut k: usize = 0;
        while k < cell.elems.len()
            invariant
                k <= cell.elems@.len(),
                layers == self.lib@.layers,
                parts == cell_parts(layers, cell@),
                forall|j: int| 0 <= j < cell.insts@.len() + k ==> (#[trigger] parts[j]) is Ok,
                forall|j: int| 0 <= j < k ==> element_ready(layers, #[trigger] cell@.elems[j]),
            decreases cell.elems.len() - k,
        {
            let ghost n = cell.insts@.len() + k;
            let elem = &cell.elems[k];
            assert(cell@.elems[k as int] == elem@);
            assert(parts[n] == export_element_spec(layers, cell@.elems[k as int]));
            if !self.is_exportable_element(elem) {
                assert(!cell_ready(layers, cell@));
                return false;
            }
            if self.export_element(elem).is_err() {
                assert(parts[n] is Err);
                return true;
            }
            k += 1;
        }
        true
    }

    /// Whether the export of an element has a result.
    pub fn is_exportable_element(&self, elem: &Element) -> (r: bool)
        ensures
            r == element_ready(self.lib@.layers, elem@),
    {
        let numbered = match self.lib.layers.get(elem.layer) {
            Some(layer) => layer.num(&elem.purpose).is_some(),
            None => false,
        };
        !numbered || match &elem.inner {
            Shape::Rect { .. } => true,
            Shape::Poly { pts } => pts.len() > 0,
            Shape::Path { .. } => false,
        }
    }

    /// Exports all of the library.
    fn export_all(self) -> (r: LayoutResult<GdsLibrary>)
        requires
            library_ready(self.lib@),
        ensures
            result_view(r) == export_spec(self.lib@),
    {
        if self.lib.libs.len() > 0 {
            return self.err("No nested libraries to GDS (yet)");
        }
        let units = match self.lib.units {
            Unit::Micro => GdsUnits { user: Real { bits: BITS_1 }, db: Real { bits: BITS_1E_6 } },
            Unit::Nano => GdsUnits { user: Real { bits: BITS_1E_3 }, db: Real { bits: BITS_1E_9 } },
            Unit::Angstrom => GdsUnits {
                user: Real { bits: BITS_1E_4 },
                db: Real { bits: BITS_1E_10 },
            },
        };
        let ghost lib = self.lib@;
        let ghost parts = library_parts(lib);
        let mut structs: Vec<GdsStruct> = Vec::new();
        assert(views(structs@) =~= Seq::<GdsStructView>::empty());
        assert(parts.skip(0) =~= parts);
        let mut i: usize = 0;
        while i < self.lib.cells.len()
            invariant
                i <= self.lib.cells@.len(),
                lib == self.lib@,
                lib.libs == 0,
                library_ready(lib),
                parts == library_parts(lib),
                forall|j: int| 0 <= j < i ==> (#[trigger] parts[j]) is Ok,
                gather(Seq::empty(), parts) == gather(views(structs@), parts.skip(i as int)),
            decreases self.lib.cells.len() - i,
        {
            let cell = &self.lib.cells[i];
            assert(lib.cells[i as int] == cell@);
            assert(parts.skip(i as int)[0] == parts[i as int]);
            assert(parts.skip(i as int).drop_first() =~= parts.skip(i + 1));
            let strukt = self.export_cell(cell)?;
            proof {
                lemma_views_push(structs@, strukt);
            }
            assert(views(structs@) + seq![strukt@] =~= views(structs@).push(strukt@));
            structs.push(strukt);
            i += 1;
        }
        assert(parts.skip(i as int).len() == 0);
        Ok(
            GdsLibrary {
                name: self.lib.name.clone(),
                features: GdsFeatures::none(),
                units,
                structs,
            },
        )
    }

    /// Exports a cell: its instances, then its elements.
    pub fn export_cell(&self, cell: &Cell) -> (r: LayoutResult<GdsStruct>)
        requires
            cell_ready(self.lib@.layers, cell@),
        ensures
            result_view(r) == export_cell_spec(self.lib@.layers, cell@),
    {
        let ghost layers = self.lib@.layers;
        let ghost parts = cell_parts(layers, cell@);
        let mut elems: Vec<GdsElement> = Vec::new();
        assert(views(elems@) =~= Seq::<GdsElementView>::empty());
        assert(parts.skip(0) =~= parts);
        let mut i: usize = 0;
        while i < cell.insts.len()
            invariant
                i <= cell.insts@.len(),
                layers == self.lib@.layers,
                parts == cell_parts(layers, cell@),
                forall|j: int| 0 <= j < i ==> (#[trigger] parts[j]) is Ok,
                gather(Seq::empty(), parts) == gather(views(elems@), parts.skip(i as int)),
            decreases cell.insts.len() - i,
        {
            assert(parts[i as int] == instance_part(cell.insts@[i as int]@));
            assert(parts.skip(i as int)[0] == parts[i as int]);
            assert(parts.skip(i as int).drop_first() =~= parts.skip(i + 1));
            let elem = GdsElement::GdsStructRef(self.export_instance(&cell.insts[i])?);
            proof {
                lemma_views_push(elems@, elem);
            }
            assert(views(elems@) + seq![elem@] =~= views(elems@).push(elem@));
            elems.push(elem);
            i += 1;
        }
        let mut k: usize = 0;
        while k < cell.elems.len()
            invariant
                k <= cell.elems@.len(),
                layers == self.lib@.layers,
                cell_ready(layers, cell@),
                parts == cell_parts(layers, cell@),
                forall|j: int| 0 <= j < cell.insts@.len() + k ==> (#[trigger] parts[j]) is Ok,
                gather(Seq::empty(), parts) == gather(
                    views(elems@),
                    parts.skip(cell.insts@.len() + k),
                ),
            decreases cell.elems.len() - k,
        {
            let ghost n = cell.insts@.len() + k;
            assert(cell@.elems[k as int] == cell.elems@[k as int]@);
            assert(parts[n] == export_element_spec(layers, cell@.elems[k as int]));
            assert(parts.skip(n)[0] == parts[n]);
            assert(parts.skip(n).drop_first() =~= parts.skip(n + 1));
            let mut exported = self.export_element(&cell.elems[k])?;
            proof {
                lemma_views_add(elems@, exported@);
            }
            elems.append(&mut exported);
            k += 1;
        }
        assert(parts.skip(cell.insts@.len() + k).len() == 0);
        Ok(GdsStruct { name: cell.name.clone(), elems })
    }

    /// Exports an instance.
    pub fn export_instance(&self, inst: &Instance) -> (r: LayoutResult<GdsStructRef>)
        ensures
            result_view(r) == export_instance_spec(inst@),
            r matches Ok(x) ==> x.name@ == inst.cell_name@ && x.xy.x == inst.p0.x && x.xy.y
                == inst.p0.y && x.strans is None,
    {
        Ok(
            GdsStructRef {
                name: inst.cell_name.clone(),
                xy: self.export_point(&inst.p0)?,
                strans: None,
            },
        )
    }

    /// The closed outline of a shape, as GDSII points.
    fn export_outline(&self, inner: &Shape) -> (r: LayoutResult<Vec<GdsPoint>>)
        requires
            shape_exportable(inner@),
        ensures
            match r {
                Ok(xy) => export_points(outline(inner@)) == Ok::<Seq<GdsPoint>, LayoutErrorView>(
                    xy@,
                ),
                Err(e) => export_points(outline(inner@)) == Err::<Seq<GdsPoint>, LayoutErrorView>(
                    e@,
                ),
            },
    {
        match inner {
            Shape::Rect { p0, p1 } => {
                let ghost pts = outline(inner@);
                assert(pts[0] == *p0 && pts[2] == *p1);
                let g0 = self.export_point(p0)?;
                let g1 = self.export_point(p1)?;
                let mut xy: Vec<GdsPoint> = Vec::new();
                xy.push(g0);
                xy.push(GdsPoint::new(g1.x, g0.y));
                xy.push(g1);
                xy.push(GdsPoint::new(g0.x, g1.y));
                xy.push(g0);
                assert(xy@ =~= pts.map_values(|p: Point| gds_point(p)));
                Ok(xy)
            },
            Shape::Poly { pts } => {
                let ghost closed = outline(inner@);
                let mut xy: Vec<GdsPoint> = Vec::new();
                let mut i: usize = 0;
                while i < pts.len()
                    invariant
                        i <= pts@.len(),
                        closed == pts@.push(pts@[0]),
                        closed == outline(inner@),
                        forall|j: int| 0 <= j < i ==> fits(#[trigger] closed[j]),
                        xy@ =~= closed.take(i as int).map_values(|p: Point| gds_point(p)),
                    decreases pts.len() - i,
                {
                    assert(closed[i as int] == pts@[i as int]);
                    xy.push(self.export_point(&pts[i])?);
                    i += 1;
                }
                // The first corner once more closes the polygon.
                assert(closed[i as int] == pts@[0]);
                xy.push(self.export_point(&pts[0])?);
                assert(xy@ =~= closed.map_values(|p: Point| gds_point(p)));
                Ok(xy)
            },
            Shape::Path { .. } => vstd::pervasive::unreached(),
        }
    }

    /// Exports an element: its shape, and the name of its net, if it has one, as a text of its own.
    pub fn export_element(&self, elem: &Element) -> (r: LayoutResult<Vec<GdsElement>>)
        requires
            element_ready(self.lib@.layers, elem@),
        ensures
            match r {
                Ok(v) => export_element_spec(self.lib@.layers, elem@) == Ok::<
                    Seq<GdsElementView>,
                    LayoutErrorView,
                >(views(v@)),
                Err(e) => export_element_spec(self.lib@.layers, elem@) == Err::<
                    Seq<GdsElementView>,
                    LayoutErrorView,
                >(e@),
            },
            r matches Ok(v) ==> v@.len() == (if elem.net is Some {
                2int
            } else {
                1
            }) && v@[0] is GdsBoundary && (elem.net is Some ==> v@[1] is GdsTextElem),
    {
        let layer = match self.lib.layers.get(elem.layer) {
            Some(layer) => layer,
            None => return Err(LayoutError::msg("Layer Not Defined")),
        };
        let datatype = match layer.num(&elem.purpose) {
            Some(num) => num,
            None => {
                let mut message = String::from_str("LayerPurpose Not Defined for ");
                append_decimal(&mut message, layer.layernum);
                message.append(", ");
                elem.purpose.append_text(&mut message);
                assert(message@ =~= no_purpose_text(layer.layernum, elem.purpose));
                return Err(LayoutError::Message(message));
            },
        };
        let xy = self.export_outline(&elem.inner)?;
        let boundary = GdsElement::GdsBoundary(
            GdsBoundary { layer: layer.layernum, datatype, xy },
        );
        let ghost shape = boundary@;
        let mut gds_elems: Vec<GdsElement> = Vec::new();
        gds_elems.push(boundary);
        assert(views(gds_elems@) =~= seq![shape]);
        // If there's an assigned net, create a corresponding text element.
        if let Some(name) = &elem.net {
            let texttype = match layer.num(&LayerPurpose::Label) {
                Some(num) => num,
                None => return Err(LayoutError::msg("Text Layer Not Defined")),
            };
            // Text is placed in the shape's (at least rough) centre, and turned for mostly vertical
            // shapes.
            let loc = elem.inner.center();
            let strans = match elem.inner.orientation() {
                Dir::Horiz => None,
                Dir::Vert => Some(
                    GdsStrans {
                        reflected: false,
                        abs_mag: false,
                        abs_angle: false,
                        mag: None,
                        angle: Some(Real { bits: BITS_90 }),
                    },
                ),
            };
            let text = GdsElement::GdsTextElem(
                GdsTextElem {
                    string: name.clone(),
                    layer: layer.layernum,
                    texttype,
                    xy: self.export_point(&loc)?,
                    strans,
                },
            );
            let ghost label = text@;
            gds_elems.push(text);
            assert(views(gds_elems@) =~= seq![shape, label]);
        }
        Ok(gds_elems)
    }

    /// Exports a point.
    pub fn export_point(&self, pt: &Point) -> (r: LayoutResult<GdsPoint>)
        ensures
            match r {
                Ok(p) => export_point_spec(*pt) == Ok::<GdsPoint, LayoutErrorView>(p),
                Err(e) => export_point_spec(*pt) == Err::<GdsPoint, LayoutErrorView>(e@),
            },
    {
        let x: i32 = match i32::try_from(pt.x) {
            Ok(x) => x,
            Err(_) => return Err(LayoutError::Conversion),
        };
        let y: i32 = match i32::try_from(pt.y) {
            Ok(y) => y,
            Err(_) => return Err(LayoutError::Conversion),
        };
        Ok(GdsPoint::new(x, y))
    }

    /// The failure to export that says `msg`.
    pub fn err<T>(&self, msg: &str) -> (r: LayoutResult<T>)
        ensures
            r matches Err(e) && e@ == LayoutErrorView::Export(msg@),
    {
        Err(LayoutError::Export(String::from_str(msg)))
    }
}

} // verus!
