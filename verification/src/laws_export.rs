//! Laws of the export: when it succeeds, what comes out, and what is still there when the outcome
//! is imported again.

use vstd::prelude::*;

use crate::error::LayoutErrorView;
use crate::export::cell_parts;
use crate::export::export_cell_spec;
use crate::export::export_element_spec;
use crate::export::export_point_spec;
use crate::export::export_points;
use crate::export::export_spec;
use crate::export::fits;
use crate::export::gather;
use crate::export::gds_point;
use crate::export::gds_units;
use crate::export::instance_part;
use crate::export::library_parts;
use crate::export::outline;
use crate::export::shape_exportable;
use crate::export::text_strans;
use crate::gdsii::GdsBoundaryView;
use crate::gdsii::GdsElementView;
use crate::gdsii::GdsLayerSpec;
use crate::gdsii::GdsPoint;
use crate::gdsii::GdsStructView;
use crate::gdsii::GdsTextElemView;
use crate::geom::bounds;
use crate::geom::Point;
use crate::geom::ShapeView;
use crate::import::point;
use crate::import::unit_of;
use crate::layers::layer_at;
use crate::layers::number_of;
use crate::layers::LayerPurpose;
use crate::layers::LayerView;
use crate::layout::CellView;
use crate::layout::ElementView;
use crate::layout::LibraryView;
use crate::layout::Unit;
use crate::views::each;

verus! {

/// A point that is exported and imported again is the same point, and so is one that is imported
/// and exported again. Every GDSII point can be imported and exported.
pub proof fn law_point_round_trip(p: Point, q: GdsPoint)
    ensures
        export_point_spec(p) matches Ok(r) ==> point(r) == p,
        export_point_spec(point(q)) == Ok::<GdsPoint, LayoutErrorView>(q),
{
}

/// A library's unit is recognised by the size that it is exported with.
pub proof fn law_unit_round_trip(unit: Unit)
    ensures
        unit_of(gds_units(unit).db) == Some(unit),
{
}

/// The outline of a polygon of N corners has N + 1 points, and so has that of a rectangle: the
/// corners, and the first of them once more.
pub proof fn law_outline_closed(inner: ShapeView)
    requires
        shape_exportable(inner),
    ensures
        outline(inner)[0] == outline(inner).last(),
        inner matches ShapeView::Poly { pts } ==> outline(inner).len() == pts.len() + 1
            && outline(inner).drop_last() == pts,
        inner is Rect ==> outline(inner).len() == 5,
{
    if let ShapeView::Poly { pts } = inner {
        assert(outline(inner).drop_last() =~= pts);
    }
}

/// The box around points that fit GDSII has corners that fit.
proof fn lemma_bounds_fit(pts: Seq<Point>)
    requires
        pts.len() > 0,
        forall|i: int| 0 <= i < pts.len() ==> fits(#[trigger] pts[i]),
    ensures
        fits(bounds(pts).0),
        fits(bounds(pts).1),
    decreases pts.len(),
{
    assert(fits(pts[0]));
    if pts.len() > 1 {
        assert forall|i: int| 0 <= i < pts.len() - 1 implies fits(#[trigger] pts.drop_last()[i]) by {
            assert(fits(pts[i]));
        }
        lemma_bounds_fit(pts.drop_last());
        assert(fits(pts[pts.len() - 1]));
    }
}

/// Where the outline of a shape fits GDSII, so does its centre: no label is out of reach.
pub proof fn law_centre_fits(inner: ShapeView)
    requires
        shape_exportable(inner),
        export_points(outline(inner)) is Ok,
    ensures
        fits(inner.center()),
{
    let pts = outline(inner);
    match inner {
        ShapeView::Rect { p0, p1 } => {
            assert(fits(pts[0]) && fits(pts[2]));
        },
        ShapeView::Poly { pts: corners } => {
            assert forall|i: int| 0 <= i < corners.len() implies fits(#[trigger] corners[i]) by {
                assert(fits(pts[i]));
            }
            lemma_bounds_fit(corners);
        },
        ShapeView::Path { .. } => {},
    }
}

/// A rectangle covers its centre.
pub proof fn law_rect_covers_centre(p0: Point, p1: Point)
    ensures
        (ShapeView::Rect { p0, p1 }).contains((ShapeView::Rect { p0, p1 }).center()),
{
}

/// The layer that `elem` lies on, where its purpose has a number there.
pub open spec fn has_numbers(layers: Seq<LayerView>, elem: ElementView) -> bool {
    layer_at(layers, elem.layer) matches Some(layer) && number_of(
        layer.purposes,
        elem.purpose,
    ) is Some
}

/// The numbers of the layer that `elem` lies on and of its purpose there.
pub open spec fn numbers(layers: Seq<LayerView>, elem: ElementView) -> GdsLayerSpec {
    let layer = layer_at(layers, elem.layer).unwrap();
    GdsLayerSpec {
        layer: layer.layernum,
        xtype: number_of(layer.purposes, elem.purpose).unwrap(),
    }
}

/// The boundary that `elem` becomes.
pub open spec fn boundary_of(layers: Seq<LayerView>, elem: ElementView) -> GdsElementView {
    GdsElementView::GdsBoundary(
        GdsBoundaryView {
            layer: numbers(layers, elem).layer,
            datatype: numbers(layers, elem).xtype,
            xy: outline(elem.inner).map_values(|p: Point| gds_point(p)),
        },
    )
}

/// The text that the net of `elem` becomes, if it has one: in the shape's centre, and along it.
pub open spec fn labels_of(layers: Seq<LayerView>, elem: ElementView) -> Seq<GdsTextElemView> {
    match elem.net {
        Some(name) => seq![
            GdsTextElemView {
                string: name,
                layer: numbers(layers, elem).layer,
                texttype: number_of(
                    layer_at(layers, elem.layer).unwrap().purposes,
                    LayerPurpose::Label,
                ).unwrap(),
                xy: gds_point(elem.inner.center()),
                strans: text_strans(elem.inner.orientation()),
            },
        ],
        None => Seq::empty(),
    }
}

/// `elem` can be exported: its layer and its purpose are defined, its outline fits GDSII, and if it
/// has a net, its layer has a purpose for labels.
pub open spec fn is_exportable(layers: Seq<LayerView>, elem: ElementView) -> bool {
    &&& has_numbers(layers, elem)
    &&& forall|i: int| 0 <= i < outline(elem.inner).len() ==> fits(#[trigger] outline(elem.inner)[i])
    &&& elem.net is Some ==> number_of(
        layer_at(layers, elem.layer).unwrap().purposes,
        LayerPurpose::Label,
    ) is Some
}

/// An element is exported if and only if its layer and its purpose are defined, its outline fits,
/// and, if it has a net, its layer has a purpose for labels. It becomes its boundary, and the text
/// that its net becomes.
pub proof fn law_element_export(layers: Seq<LayerView>, elem: ElementView)
    requires
        shape_exportable(elem.inner),
    ensures
        export_element_spec(layers, elem) is Ok <==> is_exportable(layers, elem),
        export_element_spec(layers, elem) matches Ok(elems) ==> elems == seq![
            boundary_of(layers, elem),
        ] + labels_of(layers, elem).map_values(
            |text: GdsTextElemView| GdsElementView::GdsTextElem(text),
        ),
        export_element_spec(layers, elem) matches Err(e) ==> e is Conversion || e is Message,
{
    if export_points(outline(elem.inner)) is Ok {
        law_centre_fits(elem.inner);
    }
    if let Ok(elems) = export_element_spec(layers, elem) {
        let labels = labels_of(layers, elem).map_values(
            |text: GdsTextElemView| GdsElementView::GdsTextElem(text),
        );
        assert(elems =~= seq![boundary_of(layers, elem)] + labels);
    }
}

/// Gathering succeeds if and only if all parts have, and gives what they hold, in order; else it
/// fails as the first of them that has failed.
pub proof fn law_gather<T>(done: Seq<T>, parts: Seq<Result<Seq<T>, LayoutErrorView>>)
    ensures
        gather(done, parts) is Ok <==> (forall|i: int|
            0 <= i < parts.len() ==> (#[trigger] parts[i]) is Ok),
        gather(done, parts) matches Ok(all) ==> all == done + each(
            parts,
            |part: Result<Seq<T>, LayoutErrorView>| part->Ok_0,
        ),
        gather(done, parts) matches Err(e) ==> exists|i: int|
            0 <= i < parts.len() && #[trigger] parts[i] == Err::<Seq<T>, LayoutErrorView>(e) && (
            forall|j: int| 0 <= j < i ==> (#[trigger] parts[j]) is Ok),
    decreases parts.len(),
{
    let f = |part: Result<Seq<T>, LayoutErrorView>| part->Ok_0;
    if parts.len() == 0 {
        assert(done + each(parts, f) =~= done);
    } else {
        let rest = parts.drop_first();
        match parts[0] {
            Ok(part) => {
                law_gather(done + part, rest);
                assert((done + part) + each(rest, f) =~= done + each(parts, f));
                if gather(done, parts) is Ok {
                    assert forall|i: int| 0 <= i < parts.len() implies (
                    #[trigger] parts[i]) is Ok by {
                        if i > 0 {
                            assert(rest[i - 1] is Ok);
                        }
                    }
                } else {
                    let e = gather(done, parts)->Err_0;
                    let i = choose|i: int|
                        0 <= i < rest.len() && #[trigger] rest[i] == Err::<Seq<T>, LayoutErrorView>(
                            e,
                        ) && (forall|j: int| 0 <= j < i ==> (#[trigger] rest[j]) is Ok);
                    assert(parts[i + 1] == rest[i]);
                    assert forall|j: int| 0 <= j < i + 1 implies (#[trigger] parts[j]) is Ok by {
                        if j > 0 {
                            assert(rest[j - 1] is Ok);
                        }
                    }
                }
            },
            Err(e) => {
                assert(parts[0] is Err);
            },
        }
    }
}

/// A cell is exported if and only if its instances lie where GDSII can place them, and each of its
/// elements can be exported.
pub proof fn law_cell_export(layers: Seq<LayerView>, cell: CellView)
    requires
        forall|i: int| 0 <= i < cell.elems.len() ==> shape_exportable(
            (#[trigger] cell.elems[i]).inner,
        ),
    ensures
        export_cell_spec(layers, cell) is Ok <==> {
            &&& forall|i: int| 0 <= i < cell.insts.len() ==> fits((#[trigger] cell.insts[i]).p0)
            &&& forall|i: int|
                0 <= i < cell.elems.len() ==> is_exportable(layers, #[trigger] cell.elems[i])
        },
{
    let parts = cell_parts(layers, cell);
    let n = cell.insts.len();
    law_gather(Seq::<GdsElementView>::empty(), parts);
    if export_cell_spec(layers, cell) is Ok {
        assert forall|i: int| 0 <= i < n implies fits((#[trigger] cell.insts[i]).p0) by {
            assert(parts[i] == instance_part(cell.insts[i]));
        }
        assert forall|i: int| 0 <= i < cell.elems.len() implies is_exportable(
            layers,
            #[trigger] cell.elems[i],
        ) by {
            assert(parts[n + i] == export_element_spec(layers, cell.elems[i]));
            law_element_export(layers, cell.elems[i]);
        }
    } else {
        let i = choose|i: int| 0 <= i < parts.len() && (#[trigger] parts[i]) is Err;
        if i < n {
            assert(parts[i] == instance_part(cell.insts[i]));
            assert(!fits(cell.insts[i].p0));
        } else {
            assert(parts[i] == export_element_spec(layers, cell.elems[i - n]));
            law_element_export(layers, cell.elems[i - n]);
            assert(!is_exportable(layers, cell.elems[i - n]));
        }
    }
}

/// A library is exported if and only if it has no nested libraries and each of its cells can be
/// exported. It keeps its name, and its cells, in order, as structs.
pub proof fn law_library_export(lib: LibraryView)
    ensures
        export_spec(lib) is Ok <==> lib.libs == 0 && (forall|i: int|
            0 <= i < lib.cells.len() ==> export_cell_spec(
                lib.layers,
                #[trigger] lib.cells[i],
            ) is Ok),
        export_spec(lib) matches Ok(gds) ==> {
            &&& gds.name == lib.name
            &&& gds.units == gds_units(lib.units)
            &&& !gds.features.any()
            &&& gds.structs.len() == lib.cells.len()
            &&& forall|i: int|
                0 <= i < lib.cells.len() ==> export_cell_spec(lib.layers, lib.cells[i]) == Ok::<
                    GdsStructView,
                    LayoutErrorView,
                >(#[trigger] gds.structs[i])
        },
{
    let parts = library_parts(lib);
    law_gather(Seq::<GdsStructView>::empty(), parts);
    if lib.libs == 0 {
        match gather(Seq::<GdsStructView>::empty(), parts) {
            Ok(structs) => {
                assert forall|i: int| 0 <= i < lib.cells.len() implies export_cell_spec(
                    lib.layers,
                    #[trigger] lib.cells[i],
                ) is Ok by {
                    assert(parts[i] is Ok);
                }
                lemma_singles(parts);
                let f = |part: Result<Seq<GdsStructView>, LayoutErrorView>| part->Ok_0;
                assert(structs =~= each(parts, f));
                assert forall|i: int| 0 <= i < lib.cells.len() implies export_cell_spec(
                    lib.layers,
                    lib.cells[i],
                ) == Ok::<GdsStructView, LayoutErrorView>(#[trigger] structs[i]) by {
                    assert(parts[i]->Ok_0 =~= seq![structs[i]]);
                    assert(parts[i]->Ok_0[0] == structs[i]);
                }
            },
            Err(e) => {
                let i = choose|i: int| 0 <= i < parts.len() && (#[trigger] parts[i]) is Err;
                assert(export_cell_spec(lib.layers, lib.cells[i]) is Err);
            },
        }
    }
}

/// Parts of one member each give one member each.
proof fn lemma_singles(parts: Seq<Result<Seq<GdsStructView>, LayoutErrorView>>)
    requires
        forall|i: int|
            0 <= i < parts.len() ==> (#[trigger] parts[i]) is Ok && parts[i]->Ok_0.len() == 1,
    ensures
        ({
            let all = each(
                parts,
                |part: Result<Seq<GdsStructView>, LayoutErrorView>| part->Ok_0,
            );
            &&& all.len() == parts.len()
            &&& forall|i: int| 0 <= i < parts.len() ==> #[trigger] all[i] == parts[i]->Ok_0[0]
        }),
    decreases parts.len(),
{
    if parts.len() > 0 {
        let f = |part: Result<Seq<GdsStructView>, LayoutErrorView>| part->Ok_0;
        let rest = parts.drop_first();
        assert forall|i: int| 0 <= i < rest.len() implies (#[trigger] rest[i]) is Ok
            && rest[i]->Ok_0.len() == 1 by {
            assert(parts[i + 1] is Ok);
        }
        lemma_singles(rest);
        let all = each(parts, f);
        let tail = each(rest, f);
        assert(parts[0]->Ok_0.len() == 1);
        assert forall|i: int| 0 <= i < parts.len() implies #[trigger] all[i]
            == parts[i]->Ok_0[0] by {
            if i > 0 {
                assert(all[i] == tail[i - 1]);
                assert(rest[i - 1] == parts[i]);
            }
        }
    }
}

} // verus!
