//! Laws of the export, told by the fields of what is exported and of what comes out.

use vstd::prelude::*;

use crate::error::LayoutErrorView;
use crate::export::cell_parts;
use crate::export::export_cell_spec;
use crate::export::export_element_spec;
use crate::export::export_instance_spec;
use crate::export::export_point_spec;
use crate::export::export_points;
use crate::export::export_spec;
use crate::export::fits;
use crate::export::gds_point;
use crate::export::instance_part;
use crate::export::element_ready;
use crate::export::library_parts;
use crate::export::library_ready;
use crate::export::outline;
use crate::gdsii::GdsElementView;
use crate::gdsii::GdsPoint;
use crate::gdsii::GdsStructRefView;
use crate::gdsii::GdsStructView;
use crate::gdsii::GdsTextElemView;
use crate::geom::Point;
use crate::geom::ShapeView;
use crate::laws_elements::is_at;
use crate::laws_export::law_centre_fits;
use crate::laws_export::law_gather;
use crate::laws_layers::is_last_for;
use crate::laws_layers::law_number_of;
use crate::laws_shapes::is_taller;
use crate::laws_shapes::law_orientation;
use crate::laws_shapes::points_of;
use crate::layers::number_of;
use crate::layers::purpose_text;
use crate::layers::LayerPurpose;
use crate::layers::LayerView;
use crate::layout::CellView;
use crate::layout::ElementView;
use crate::layout::InstanceView;
use crate::layout::LibraryView;
use crate::text::decimal;
use crate::views::each;
use crate::views::lemma_each_add;
use crate::views::lemma_each_map;
use crate::views::lemma_each_one;

verus! {

/// The coordinates of `p` can be held in 32 bits.
pub open spec fn is_small(p: Point) -> bool {
    -0x8000_0000 <= p.x <= 0x7fff_ffff && -0x8000_0000 <= p.y <= 0x7fff_ffff
}

/// A point is exported if and only if its coordinates can be held in 32 bits, and with these
/// coordinates.
pub proof fn law_export_point(p: Point)
    ensures
        export_point_spec(p) is Ok <==> is_small(p),
        export_point_spec(p) matches Ok(q) ==> is_at(p, q),
        export_point_spec(p) matches Err(e) ==> e is Conversion,
{
}

/// An instance is exported if and only if it lies where 32 bits can say: as a plain reference to the
/// cell that it names, where it lies.
pub proof fn law_export_instance(inst: InstanceView)
    ensures
        export_instance_spec(inst) is Ok <==> is_small(inst.p0),
        export_instance_spec(inst) matches Ok(x) ==> x.name == inst.cell_name && is_at(
            inst.p0,
            x.xy,
        ) && x.strans is None,
        export_instance_spec(inst) matches Err(e) ==> e is Conversion,
{
}

/// `num` is the number that `purpose` was last given on `layer`.
pub open spec fn is_numbered(layer: LayerView, purpose: LayerPurpose, num: i16) -> bool {
    exists|i: int| #[trigger] is_last_for(layer.purposes, purpose, i) && layer.purposes[i].0 == num
}

/// `purpose` was given a number on `layer`.
pub open spec fn has_number(layer: LayerView, purpose: LayerPurpose) -> bool {
    exists|i: int| 0 <= i < layer.purposes.len() && (#[trigger] layer.purposes[i]).1 == purpose
}

/// What [`law_number_of`] says of a layer.
proof fn lemma_numbered(layer: LayerView, purpose: LayerPurpose)
    ensures
        number_of(layer.purposes, purpose) is Some <==> has_number(layer, purpose),
        number_of(layer.purposes, purpose) matches Some(num) ==> is_numbered(layer, purpose, num),
{
    law_number_of(layer.purposes, purpose);
    if let Some(num) = number_of(layer.purposes, purpose) {
        let i = choose|i: int|
            #[trigger] is_last_for(layer.purposes, purpose, i) && layer.purposes[i].0 == num;
        assert(layer.purposes[i].1 == purpose);
    }
}

/// `xy` goes around `inner` and ends where it starts: over the four corners of a rectangle, from the
/// first given one along the x-axis, or over the corners of a polygon in order.
pub open spec fn goes_around(inner: ShapeView, xy: Seq<GdsPoint>) -> bool {
    match inner {
        ShapeView::Rect { p0, p1 } => {
            &&& xy.len() == 5
            &&& xy[0].x == p0.x && xy[0].y == p0.y
            &&& xy[1].x == p1.x && xy[1].y == p0.y
            &&& xy[2].x == p1.x && xy[2].y == p1.y
            &&& xy[3].x == p0.x && xy[3].y == p1.y
            &&& xy[4].x == p0.x && xy[4].y == p0.y
        },
        ShapeView::Poly { pts } => {
            &&& xy.len() == pts.len() + 1
            &&& forall|i: int| 0 <= i < pts.len() ==> is_at(pts[i], #[trigger] xy[i])
            &&& is_at(pts[0], xy[pts.len() as int])
        },
        ShapeView::Path { .. } => false,
    }
}

/// The shape is a rectangle, or a polygon that has corners.
pub open spec fn has_outline(inner: ShapeView) -> bool {
    inner is Rect || (inner matches ShapeView::Poly { pts } && pts.len() > 0)
}

/// All points of the shape can be held in 32 bits.
pub open spec fn is_small_shape(inner: ShapeView) -> bool {
    forall|i: int| 0 <= i < points_of(inner).len() ==> is_small(#[trigger] points_of(inner)[i])
}

/// The outline of a shape is exported if and only if its points can be.
proof fn lemma_outline(inner: ShapeView)
    requires
        has_outline(inner),
    ensures
        export_points(outline(inner)) is Ok <==> is_small_shape(inner),
        export_points(outline(inner)) matches Ok(xy) ==> goes_around(inner, xy),
        export_points(outline(inner)) matches Err(e) ==> e is Conversion,
{
    let out = outline(inner);
    let pts = points_of(inner);
    match inner {
        ShapeView::Rect { p0, p1 } => {
            assert(pts[0] == p0 && pts[1] == p1);
            assert(out[0] == p0 && out[2] == p1);
            if is_small_shape(inner) {
                assert(is_small(pts[0]) && is_small(pts[1]));
                assert forall|i: int| 0 <= i < out.len() implies fits(#[trigger] out[i]) by {}
            } else {
                let i = choose|i: int| 0 <= i < pts.len() && !is_small(#[trigger] pts[i]);
                assert(!fits(out[2 * i]));
            }
        },
        ShapeView::Poly { pts: corners } => {
            if is_small_shape(inner) {
                assert forall|i: int| 0 <= i < out.len() implies fits(#[trigger] out[i]) by {
                    if i < corners.len() {
                        assert(is_small(pts[i]));
                    } else {
                        assert(is_small(pts[0]));
                    }
                }
                let xy = out.map_values(|p: Point| gds_point(p));
                assert forall|i: int| 0 <= i < corners.len() implies is_at(
                    corners[i],
                    #[trigger] xy[i],
                ) by {
                    assert(is_small(pts[i]));
                }
                assert(is_small(pts[0]));
            } else {
                let i = choose|i: int| 0 <= i < pts.len() && !is_small(#[trigger] pts[i]);
                assert(!fits(out[i]));
            }
        },
        ShapeView::Path { .. } => {},
    }
}

/// `text` is the text for the net `name` of a shape on `layer`: in the middle of the shape, with the
/// number that labels have on the layer, and turned by a right angle if and only if the shape is
/// taller than it is wide.
pub open spec fn is_label(
    layer: LayerView,
    name: Seq<char>,
    inner: ShapeView,
    text: GdsTextElemView,
) -> bool {
    &&& text.string == name
    &&& text.layer == layer.layernum
    &&& is_numbered(layer, LayerPurpose::Label, text.texttype)
    &&& is_at(inner.center(), text.xy)
    &&& text.strans is Some <==> is_taller(points_of(inner))
    &&& text.strans matches Some(t) ==> {
        &&& !t.reflected && !t.abs_mag && !t.abs_angle
        &&& t.mag is None
        // 90.0.
        &&& t.angle matches Some(angle) && angle.bits == 0x4056_8000_0000_0000
    }
}

/// What an element is exported as. Where its layer is not there, its purpose has no number on it, its
/// shape is too far out, or it has a net and labels have no number on the layer, that is the error,
/// in this order. Else it becomes a boundary with the numbers of its layer and of its very purpose
/// there, around its shape, and behind it the text for its net, if it has one.
pub proof fn law_export_element(layers: Seq<LayerView>, elem: ElementView)
    requires
        has_outline(elem.inner),
    ensures
        ({
            let r = export_element_spec(layers, elem);
            let layer = layers[elem.layer.index as int];
            if elem.layer.index >= layers.len() {
                r == Err::<Seq<GdsElementView>, LayoutErrorView>(
                    LayoutErrorView::Message("Layer Not Defined"@),
                )
            } else if !has_number(layer, elem.purpose) {
                r == Err::<Seq<GdsElementView>, LayoutErrorView>(
                    LayoutErrorView::Message(
                        "LayerPurpose Not Defined for "@ + decimal(layer.layernum as int) + ", "@
                            + purpose_text(elem.purpose),
                    ),
                )
            } else if !is_small_shape(elem.inner) {
                r == Err::<Seq<GdsElementView>, LayoutErrorView>(LayoutErrorView::Conversion)
            } else if elem.net is Some && !has_number(layer, LayerPurpose::Label) {
                r == Err::<Seq<GdsElementView>, LayoutErrorView>(
                    LayoutErrorView::Message("Text Layer Not Defined"@),
                )
            } else {
                &&& r is Ok
                &&& r->Ok_0.len() == (if elem.net is Some {
                    2int
                } else {
                    1
                })
                &&& r->Ok_0[0] matches GdsElementView::GdsBoundary(x) && x.layer == layer.layernum
                    && is_numbered(layer, elem.purpose, x.datatype) && goes_around(elem.inner, x.xy)
                &&& elem.net matches Some(name) ==> (r->Ok_0[1] matches GdsElementView::GdsTextElem(
                    text,
                ) && is_label(layer, name, elem.inner, text))
            }
        }),
{
    let layer = layers[elem.layer.index as int];
    lemma_numbered(layer, elem.purpose);
    lemma_numbered(layer, LayerPurpose::Label);
    lemma_outline(elem.inner);
    law_orientation(elem.inner);
    if export_points(outline(elem.inner)) is Ok {
        law_centre_fits(elem.inner);
    }
}

/// The reference that `inst` is exported as.
pub open spec fn reference_to(inst: InstanceView) -> GdsElementView {
    GdsElementView::GdsStructRef(
        GdsStructRefView {
            name: inst.cell_name,
            xy: GdsPoint { x: inst.p0.x as i32, y: inst.p0.y as i32 },
            strans: None,
        },
    )
}

/// A cell is exported under its name, as a reference for each of its instances, in order, and then
/// what each of its elements is exported as, in order; and nothing else.
pub proof fn law_export_cell(layers: Seq<LayerView>, cell: CellView)
    ensures
        export_cell_spec(layers, cell) matches Ok(strukt) ==> {
            &&& strukt.name == cell.name
            &&& forall|i: int| 0 <= i < cell.insts.len() ==> is_small((#[trigger] cell.insts[i]).p0)
            &&& forall|i: int|
                0 <= i < cell.elems.len() ==> export_element_spec(
                    layers,
                    #[trigger] cell.elems[i],
                ) is Ok
            &&& strukt.elems == cell.insts.map_values(|inst: InstanceView| reference_to(inst))
                + each(cell.elems, |elem: ElementView| export_element_spec(layers, elem)->Ok_0)
        },
{
    if let Ok(strukt) = export_cell_spec(layers, cell) {
        let mi = |inst: InstanceView| instance_part(inst);
        let me = |elem: ElementView| export_element_spec(layers, elem);
        let left = cell.insts.map_values(mi);
        let right = cell.elems.map_values(me);
        let parts = cell_parts(layers, cell);
        let f = |part: Result<Seq<GdsElementView>, LayoutErrorView>| part->Ok_0;
        let one = |inst: InstanceView| seq![reference_to(inst)];
        let held = |elem: ElementView| export_element_spec(layers, elem)->Ok_0;
        let none = Seq::<GdsElementView>::empty();
        assert(parts =~= left + right);
        law_gather(none, parts);
        assert(strukt.elems =~= each(parts, f));
        lemma_each_add(left, right, f);
        assert forall|i: int| 0 <= i < cell.insts.len() implies f(mi(#[trigger] cell.insts[i]))
            == one(cell.insts[i]) && is_small(cell.insts[i].p0) by {
            assert(parts[i] == mi(cell.insts[i]));
            assert(parts[i] is Ok);
        }
        assert forall|i: int| 0 <= i < cell.elems.len() implies export_element_spec(
            layers,
            #[trigger] cell.elems[i],
        ) is Ok by {
            assert(parts[cell.insts.len() + i] == me(cell.elems[i]));
            assert(parts[cell.insts.len() + i] is Ok);
        }
        lemma_each_map(cell.insts, mi, f, one);
        lemma_each_one(cell.insts, one, |inst: InstanceView| reference_to(inst));
        lemma_each_map(cell.elems, me, f, held);
    }
}

/// A cell is not exported where an instance lies too far out, or else where an element cannot be: it
/// is the first of these that is reported.
pub proof fn law_export_cell_error(layers: Seq<LayerView>, cell: CellView)
    ensures
        export_cell_spec(layers, cell) matches Err(e) ==> {
            ||| e is Conversion && exists|i: int|
                0 <= i < cell.insts.len() && !is_small((#[trigger] cell.insts[i]).p0)
            ||| (forall|i: int| 0 <= i < cell.insts.len() ==> is_small((#[trigger] cell.insts[i]).p0))
                && exists|i: int|
                0 <= i < cell.elems.len() && export_element_spec(layers, #[trigger] cell.elems[i])
                    == Err::<Seq<GdsElementView>, LayoutErrorView>(e) && forall|j: int|
                    0 <= j < i ==> export_element_spec(layers, #[trigger] cell.elems[j]) is Ok
        },
{
    let parts = cell_parts(layers, cell);
    let n = cell.insts.len();
    law_gather(Seq::<GdsElementView>::empty(), parts);
    if let Err(e) = export_cell_spec(layers, cell) {
        let i = choose|i: int|
            0 <= i < parts.len() && #[trigger] parts[i] == Err::<
                Seq<GdsElementView>,
                LayoutErrorView,
            >(e) && (forall|j: int| 0 <= j < i ==> (#[trigger] parts[j]) is Ok);
        if i < n {
            assert(parts[i] == instance_part(cell.insts[i]));
            assert(!is_small(cell.insts[i].p0));
        } else {
            assert forall|j: int| 0 <= j < n implies is_small((#[trigger] cell.insts[j]).p0) by {
                assert(parts[j] == instance_part(cell.insts[j]));
            }
            assert(parts[i] == export_element_spec(layers, cell.elems[i - n]));
            assert forall|j: int| 0 <= j < i - n implies export_element_spec(
                layers,
                #[trigger] cell.elems[j],
            ) is Ok by {
                assert(parts[n + j] == export_element_spec(layers, cell.elems[j]));
            }
            assert(export_element_spec(layers, cell.elems[i - n]) is Err);
        }
    }
}

/// A library is not exported where one of its cells cannot be: it is the first of these that is
/// reported.
pub proof fn law_export_library_error(lib: LibraryView)
    requires
        lib.libs == 0,
    ensures
        export_spec(lib) matches Err(e) ==> exists|i: int|
            0 <= i < lib.cells.len() && export_cell_spec(lib.layers, #[trigger] lib.cells[i]) == Err::<
                GdsStructView,
                LayoutErrorView,
            >(e) && forall|j: int|
                0 <= j < i ==> export_cell_spec(lib.layers, #[trigger] lib.cells[j]) is Ok,
{
    let parts = library_parts(lib);
    law_gather(Seq::<GdsStructView>::empty(), parts);
    if let Err(e) = export_spec(lib) {
        let i = choose|i: int|
            0 <= i < parts.len() && #[trigger] parts[i] == Err::<
                Seq<GdsStructView>,
                LayoutErrorView,
            >(e) && (forall|j: int| 0 <= j < i ==> (#[trigger] parts[j]) is Ok);
        assert forall|j: int| 0 <= j < i implies export_cell_spec(
            lib.layers,
            #[trigger] lib.cells[j],
        ) is Ok by {
            assert(parts[j] is Ok);
        }
        assert(export_cell_spec(lib.layers, lib.cells[i]) is Err);
    }
}

/// A library with others nested in it is refused, whatever else it holds.
pub proof fn law_export_nested(lib: LibraryView)
    requires
        lib.libs > 0,
    ensures
        export_spec(lib) matches Err(e) && e == LayoutErrorView::Export(
            "No nested libraries to GDS (yet)"@,
        ),
{
}

/// A library whose shapes are rectangles, and polygons that have corners, can be exported, or there
/// is an error to say why not.
pub proof fn law_exportable(lib: LibraryView)
    requires
        forall|i: int, j: int|
            #![trigger lib.cells[i].elems[j]]
            0 <= i < lib.cells.len() && 0 <= j < lib.cells[i].elems.len() ==> has_outline(
                lib.cells[i].elems[j].inner,
            ),
    ensures
        library_ready(lib),
{
    assert forall|i: int, j: int|
        #![trigger lib.cells[i].elems[j]]
        0 <= i < lib.cells.len() && 0 <= j < lib.cells[i].elems.len() implies
        element_ready(lib.layers, lib.cells[i].elems[j]) by {
        assert(has_outline(lib.cells[i].elems[j].inner));
    }
}

} // verus!
