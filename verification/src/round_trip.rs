//! Laws of the round trip: what is still there when a library is exported and imported again, or a
//! boundary imported and exported again.

use vstd::prelude::*;

use crate::error::LayoutErrorView;
use crate::export::cell_parts;
use crate::export::export_cell_spec;
use crate::export::export_element_spec;
use crate::export::export_instance_spec;
use crate::export::export_spec;
use crate::export::fits;
use crate::export::gds_point;
use crate::export::instance_part;
use crate::export::outline;
use crate::export::shape_exportable;
use crate::gdsii::GdsBoundaryView;
use crate::gdsii::GdsElementView;
use crate::gdsii::GdsLayerSpec;
use crate::gdsii::GdsStructView;
use crate::gdsii::GdsTextElemView;
use crate::geom::edge_end;
use crate::geom::edge_winding;
use crate::geom::in_box;
use crate::geom::on_border;
use crate::geom::on_segment;
use crate::geom::turn;
use crate::geom::winding;
use crate::geom::Point;
use crate::geom::ShapeView;
use crate::import::array_instances;
use crate::import::corner_shape;
use crate::import::import_boundary_spec;
use crate::import::instance;
use crate::import::is_rectangle;
use crate::import::point;
use crate::import::points;
use crate::import::GdsImporterView;
use crate::import_cell::import_cell_spec;
use crate::import_cell::unicode_lowercase;
use crate::import_lib::element_importable;
use crate::import_lib::import_spec;
use crate::import_lib::struct_importable;
use crate::laws_export::boundary_of;
use crate::laws_export::is_exportable;
use crate::laws_export::labels_of;
use crate::laws_export::law_cell_export;
use crate::laws_export::law_centre_fits;
use crate::laws_export::law_element_export;
use crate::laws_export::law_gather;
use crate::laws_export::law_library_export;
use crate::laws_export::law_unit_round_trip;
use crate::laws_export::numbers;
use crate::laws_import::all_instances;
use crate::laws_import::all_shapes;
use crate::laws_import::all_texts;
use crate::laws_import::annotation_of;
use crate::laws_import::has_short;
use crate::laws_import::instances_of;
use crate::laws_import::is_import_of;
use crate::laws_import::is_sound;
use crate::laws_import::is_sound_struct;
use crate::laws_import::law_array_inside;
use crate::laws_import::law_cell;
use crate::laws_import::law_library;
use crate::laws_import::lies_inside;
use crate::laws_import::lies_on;
use crate::laws_import::shapes_of;
use crate::laws_import::texts_of;
use crate::laws_labels::net_name;
use crate::laws_layers::distinct;
use crate::laws_layers::law_layer_found;
use crate::laws_layers::law_layers_distinct;
use crate::laws_layers::law_purpose_number;
use crate::laws_layers::law_purposes_by_number;
use crate::laws_layers::lemma_distinct_len;
use crate::laws_layers::purposes_by_number;
use crate::layers::layer_at;
use crate::layers::number_of;
use crate::layers::LayerPurpose;
use crate::layers::LayerView;
use crate::layout::CellView;
use crate::layout::ElementView;
use crate::layout::InstanceView;
use crate::layout::LibraryView;
use crate::views::each;
use crate::views::lemma_each_add;
use crate::views::lemma_each_each;
use crate::views::lemma_each_map;
use crate::views::lemma_each_members;
use crate::views::lemma_each_none;
use crate::views::lemma_each_one;

verus! {

/// The turn at `p` from a vertical edge.
proof fn lemma_vertical_turn(a: Point, b: Point, p: Point)
    requires
        a.x == b.x,
    ensures
        a.y < b.y ==> (turn(a, b, p) > 0 <==> p.x < a.x) && (turn(a, b, p) < 0 <==> p.x > a.x),
        a.y > b.y ==> (turn(a, b, p) > 0 <==> p.x > a.x) && (turn(a, b, p) < 0 <==> p.x < a.x),
        p.x == a.x ==> turn(a, b, p) == 0,
{
    let dx = p.x - a.x;
    let dy = b.y - a.y;
    assert(turn(a, b, p) == 0 * (p.y - a.y) - dx * dy);
    assert(0 * (p.y - a.y) == 0) by (nonlinear_arith);
    assert(dx * dy > 0 <==> (dx > 0 && dy > 0) || (dx < 0 && dy < 0)) by (nonlinear_arith);
    assert(dx * dy == 0 <==> dx == 0 || dy == 0) by (nonlinear_arith);
}

/// The turn at `p` from a horizontal edge is none where `p` is level with it.
proof fn lemma_level_turn(a: Point, b: Point, p: Point)
    requires
        a.y == b.y,
        p.y == a.y,
    ensures
        turn(a, b, p) == 0,
{
    assert((b.x - a.x) * 0 == 0) by (nonlinear_arith);
    assert((p.x - a.x) * 0 == 0) by (nonlinear_arith);
}

/// Four corners of a rectangle cover the same points as the rectangle does.
pub proof fn law_rectangle_covers(pts: Seq<Point>, p: Point)
    requires
        is_rectangle(pts),
    ensures
        (ShapeView::Poly { pts }).contains(p) == corner_shape(pts).contains(p),
{
    let (a, b, c, d) = (pts[0], pts[1], pts[2], pts[3]);
    assert(edge_end(pts, 0) == b && edge_end(pts, 1) == c && edge_end(pts, 2) == d && edge_end(
        pts,
        3,
    ) == a);
    reveal_with_fuel(winding, 5);
    assert(winding(pts, p, 4) == edge_winding(a, b, p) + edge_winding(b, c, p) + edge_winding(
        c,
        d,
        p,
    ) + edge_winding(d, a, p));
    if on_border(pts, p) {
        let i = choose|i: int|
            0 <= i < pts.len() && on_segment(#[trigger] pts[i], edge_end(pts, i), p);
        assert(i == 0 || i == 1 || i == 2 || i == 3);
        assert(in_box(a, c, p));
    } else {
        assert(!on_segment(pts[0], b, p));
        assert(!on_segment(pts[1], c, p));
        assert(!on_segment(pts[2], d, p));
        assert(!on_segment(pts[3], a, p));
        if a.x == b.x && b.y == c.y && c.x == d.x && d.y == a.y {
            lemma_vertical_turn(a, b, p);
            lemma_vertical_turn(c, d, p);
            if p.y == b.y {
                lemma_level_turn(b, c, p);
            }
            if p.y == d.y {
                lemma_level_turn(d, a, p);
            }
        } else {
            lemma_vertical_turn(b, c, p);
            lemma_vertical_turn(d, a, p);
            if p.y == a.y {
                lemma_level_turn(a, b, p);
            }
            if p.y == c.y {
                lemma_level_turn(c, d, p);
            }
        }
    }
}

/// The shape that `inner` is imported as: a rectangle that is given by its corners is recognised.
pub open spec fn plain_shape(inner: ShapeView) -> ShapeView {
    match inner {
        ShapeView::Poly { pts } => corner_shape(pts),
        _ => inner,
    }
}

/// The instance that `inst` is imported as: its name, its reflection and its rotation are lost.
pub open spec fn plain_instance(inst: InstanceView) -> InstanceView {
    instance(inst.cell_name, inst.p0, None)
}

/// The shape that `elem` is exported and imported as, with its numbers.
pub open spec fn plain_element(layers: Seq<LayerView>, elem: ElementView) -> (
    GdsLayerSpec,
    ShapeView,
) {
    (numbers(layers, elem), plain_shape(elem.inner))
}

/// What is found in the elements that `elem` is exported as.
proof fn lemma_element_found(layers: Seq<LayerView>, elem: ElementView)
    requires
        shape_exportable(elem.inner),
        export_element_spec(layers, elem) is Ok,
    ensures
        ({
            let elems = export_element_spec(layers, elem)->Ok_0;
            &&& forall|i: int| 0 <= i < elems.len() ==> is_sound(#[trigger] elems[i])
            &&& all_shapes(elems) == seq![plain_element(layers, elem)]
            &&& all_instances(elems) == Seq::<InstanceView>::empty()
            &&& all_texts(elems) == labels_of(layers, elem)
        }),
{
    law_element_export(layers, elem);
    let boundary = boundary_of(layers, elem);
    let pts = outline(elem.inner);
    let xy = pts.map_values(|p: Point| gds_point(p));
    assert forall|i: int| 0 <= i < pts.len() implies point(#[trigger] xy[i]) == pts[i] by {
        assert(fits(pts[i]));
    }
    assert(points(xy) =~= pts);
    if let ShapeView::Poly { pts: corners } = elem.inner {
        assert(pts.drop_last() =~= corners);
    }
    assert(shapes_of(boundary) =~= seq![plain_element(layers, elem)]);
    let head = seq![boundary];
    let texts = labels_of(layers, elem);
    let labels = texts.map_values(|text: GdsTextElemView| GdsElementView::GdsTextElem(text));
    let elems = head + labels;
    assert(head.drop_first() =~= Seq::<GdsElementView>::empty());
    let fs = |elem: GdsElementView| shapes_of(elem);
    lemma_each_add(head, labels, fs);
    lemma_each_none(labels, fs);
    assert(each(head.drop_first(), fs) =~= Seq::empty());
    assert(all_shapes(elems) =~= seq![plain_element(layers, elem)]);
    let fi = |elem: GdsElementView| instances_of(elem);
    lemma_each_none(elems, fi);
    let ft = |elem: GdsElementView| texts_of(elem);
    let m = |text: GdsTextElemView| GdsElementView::GdsTextElem(text);
    let one = |text: GdsTextElemView| seq![text];
    let same = |text: GdsTextElemView| text;
    lemma_each_add(head, labels, ft);
    lemma_each_none(head, ft);
    lemma_each_map(texts, m, ft, one);
    lemma_each_one(texts, one, same);
    assert(texts.map_values(same) =~= texts);
    assert(all_texts(elems) =~= texts);
    assert forall|i: int| 0 <= i < elems.len() implies is_sound(#[trigger] elems[i]) by {
        if i == 0 {
            assert(elems[0] == boundary);
            assert(xy[0] == xy.last());
        } else {
            assert(elems[i] == labels[i - 1]);
        }
    }
}

/// What is found in the elements that all parts hold, is found in the parts.
proof fn lemma_parts_found(parts: Seq<Result<Seq<GdsElementView>, LayoutErrorView>>)
    ensures
        ({
            let elems = each(
                parts,
                |part: Result<Seq<GdsElementView>, LayoutErrorView>| part->Ok_0,
            );
            &&& all_shapes(elems) == each(
                parts,
                |part: Result<Seq<GdsElementView>, LayoutErrorView>| all_shapes(part->Ok_0),
            )
            &&& all_instances(elems) == each(
                parts,
                |part: Result<Seq<GdsElementView>, LayoutErrorView>| all_instances(part->Ok_0),
            )
            &&& all_texts(elems) == each(
                parts,
                |part: Result<Seq<GdsElementView>, LayoutErrorView>| all_texts(part->Ok_0),
            )
        }),
{
    let g = |part: Result<Seq<GdsElementView>, LayoutErrorView>| part->Ok_0;
    let fs = |elem: GdsElementView| shapes_of(elem);
    let fi = |elem: GdsElementView| instances_of(elem);
    let ft = |elem: GdsElementView| texts_of(elem);
    lemma_each_each(parts, g, fs);
    lemma_each_each(parts, g, fi);
    lemma_each_each(parts, g, ft);
    let hs = |part: Result<Seq<GdsElementView>, LayoutErrorView>| all_shapes(part->Ok_0);
    let hi = |part: Result<Seq<GdsElementView>, LayoutErrorView>| all_instances(part->Ok_0);
    let ht = |part: Result<Seq<GdsElementView>, LayoutErrorView>| all_texts(part->Ok_0);
    assert((|part: Result<Seq<GdsElementView>, LayoutErrorView>| each(g(part), fs)) =~= hs);
    assert((|part: Result<Seq<GdsElementView>, LayoutErrorView>| each(g(part), fi)) =~= hi);
    assert((|part: Result<Seq<GdsElementView>, LayoutErrorView>| each(g(part), ft)) =~= ht);
}

/// In the struct that a cell is exported as, there are found the shapes of the cell, its instances,
/// and one text for each net, in order; and each element can be imported.
pub proof fn law_exported_struct(layers: Seq<LayerView>, cell: CellView)
    requires
        forall|i: int| 0 <= i < cell.elems.len() ==> shape_exportable(
            (#[trigger] cell.elems[i]).inner,
        ),
    ensures
        export_cell_spec(layers, cell) matches Ok(strukt) ==> {
            &&& strukt.name == cell.name
            &&& forall|i: int| 0 <= i < strukt.elems.len() ==> is_sound(#[trigger] strukt.elems[i])
            &&& all_shapes(strukt.elems) == cell.elems.map_values(
                |elem: ElementView| plain_element(layers, elem),
            )
            &&& all_instances(strukt.elems) == cell.insts.map_values(
                |inst: InstanceView| plain_instance(inst),
            )
            &&& all_texts(strukt.elems) == each(
                cell.elems,
                |elem: ElementView| labels_of(layers, elem),
            )
        },
{
    if export_cell_spec(layers, cell) is Ok {
        let none = Seq::<GdsElementView>::empty();
        let mi = |inst: InstanceView| instance_part(inst);
        let me = |elem: ElementView| export_element_spec(layers, elem);
        let left = cell.insts.map_values(mi);
        let right = cell.elems.map_values(me);
        let parts = cell_parts(layers, cell);
        let g = |part: Result<Seq<GdsElementView>, LayoutErrorView>| part->Ok_0;
        let strukt = export_cell_spec(layers, cell)->Ok_0;
        law_gather(none, parts);
        assert(strukt.elems =~= each(parts, g));
        lemma_parts_found(parts);
        let hs = |part: Result<Seq<GdsElementView>, LayoutErrorView>| all_shapes(part->Ok_0);
        let hi = |part: Result<Seq<GdsElementView>, LayoutErrorView>| all_instances(part->Ok_0);
        let ht = |part: Result<Seq<GdsElementView>, LayoutErrorView>| all_texts(part->Ok_0);
        lemma_each_add(left, right, hs);
        lemma_each_add(left, right, hi);
        lemma_each_add(left, right, ht);
        assert forall|i: int| 0 <= i < cell.insts.len() implies {
            let part = #[trigger] left[i];
            &&& hs(part).len() == 0
            &&& hi(part) == seq![plain_instance(cell.insts[i])]
            &&& ht(part).len() == 0
            &&& forall|j: int| 0 <= j < part->Ok_0.len() ==> is_sound(#[trigger] part->Ok_0[j])
        } by {
            assert(parts[i] == left[i]);
            lemma_instance_found(cell.insts[i]);
        }
        assert forall|i: int| 0 <= i < cell.elems.len() implies {
            let part = #[trigger] right[i];
            &&& hs(part) == seq![plain_element(layers, cell.elems[i])]
            &&& hi(part).len() == 0
            &&& ht(part) == labels_of(layers, cell.elems[i])
            &&& forall|j: int| 0 <= j < part->Ok_0.len() ==> is_sound(#[trigger] part->Ok_0[j])
        } by {
            assert(parts[cell.insts.len() + i] == right[i]);
            lemma_element_found(layers, cell.elems[i]);
        }
        lemma_each_none(left, hs);
        lemma_each_none(left, ht);
        lemma_each_none(right, hi);
        let one_inst = |inst: InstanceView| seq![plain_instance(inst)];
        let one_elem = |elem: ElementView| seq![plain_element(layers, elem)];
        let labels = |elem: ElementView| labels_of(layers, elem);
        assert forall|i: int| 0 <= i < cell.insts.len() implies hi(mi(#[trigger] cell.insts[i]))
            == one_inst(cell.insts[i]) by {
            assert(left[i] == mi(cell.insts[i]));
        }
        assert forall|i: int| 0 <= i < cell.elems.len() implies hs(me(#[trigger] cell.elems[i]))
            == one_elem(cell.elems[i]) && ht(me(cell.elems[i])) == labels(cell.elems[i]) by {
            assert(right[i] == me(cell.elems[i]));
        }
        lemma_each_map(cell.insts, mi, hi, one_inst);
        lemma_each_one(cell.insts, one_inst, |inst: InstanceView| plain_instance(inst));
        lemma_each_map(cell.elems, me, hs, one_elem);
        lemma_each_one(cell.elems, one_elem, |elem: ElementView| plain_element(layers, elem));
        lemma_each_map(cell.elems, me, ht, labels);
        assert(all_shapes(strukt.elems) =~= each(right, hs));
        assert(all_instances(strukt.elems) =~= each(left, hi));
        assert(all_texts(strukt.elems) =~= each(right, ht));
        lemma_each_members(parts, g);
        assert forall|n: int| 0 <= n < strukt.elems.len() implies is_sound(
            #[trigger] strukt.elems[n],
        ) by {
            let k = choose|k: int|
                0 <= k < parts.len() && g(#[trigger] parts[k]).contains(each(parts, g)[n]);
            if k < cell.insts.len() {
                assert(parts[k] == left[k]);
            } else {
                assert(parts[k] == right[k - cell.insts.len()]);
            }
        }
    }
}

/// What is found in the reference that `inst` is exported as.
proof fn lemma_instance_found(inst: InstanceView)
    requires
        instance_part(inst) is Ok,
    ensures
        ({
            let elems = instance_part(inst)->Ok_0;
            &&& forall|i: int| 0 <= i < elems.len() ==> is_sound(#[trigger] elems[i])
            &&& all_shapes(elems) == Seq::<(GdsLayerSpec, ShapeView)>::empty()
            &&& all_instances(elems) == seq![plain_instance(inst)]
            &&& all_texts(elems) == Seq::<GdsTextElemView>::empty()
        }),
{
    let elems = instance_part(inst)->Ok_0;
    let rest = elems.drop_first();
    let fs = |elem: GdsElementView| shapes_of(elem);
    let fi = |elem: GdsElementView| instances_of(elem);
    let ft = |elem: GdsElementView| texts_of(elem);
    lemma_each_none(elems, fs);
    lemma_each_none(elems, ft);
    lemma_each_none(rest, fi);
    assert(instances_of(elems[0]) =~= seq![plain_instance(inst)]);
    assert(all_instances(elems) =~= seq![plain_instance(inst)]);
}

/// The label of the `k`th element of `cell` comes to lie inside the `i`th, on the same layer.
pub open spec fn carries(layers: Seq<LayerView>, cell: CellView, k: int, i: int) -> bool {
    &&& cell.elems[k].net is Some
    &&& numbers(layers, cell.elems[k]).layer == numbers(layers, cell.elems[i]).layer
    &&& cell.elems[i].inner.contains(cell.elems[k].inner.center())
}

/// The net of the `k`th element of `cell`, in lower case.
pub open spec fn lower_net(cell: CellView, k: int) -> Seq<char> {
    unicode_lowercase(cell.elems[k].net.unwrap())
}

/// Inside some element of `cell` there come to lie two labels that differ by more than case.
pub open spec fn labels_short(layers: Seq<LayerView>, cell: CellView) -> bool {
    exists|i: int, j: int, k: int|
        0 <= i < cell.elems.len() && 0 <= j < cell.elems.len() && 0 <= k < cell.elems.len()
            && #[trigger] carries(layers, cell, j, i) && #[trigger] carries(layers, cell, k, i)
            && lower_net(cell, j) != lower_net(cell, k)
}

/// Inside each element of `cell` that has a net there come to lie labels, all of which name that
/// net, in whatever case; inside the others there come to lie none.
pub open spec fn labels_return(layers: Seq<LayerView>, cell: CellView) -> bool {
    &&& forall|i: int|
        0 <= i < cell.elems.len() && (#[trigger] cell.elems[i]).net is Some ==> exists|k: int|
            0 <= k < cell.elems.len() && #[trigger] carries(layers, cell, k, i)
    &&& forall|i: int, k: int|
        0 <= i < cell.elems.len() && 0 <= k < cell.elems.len() && #[trigger] carries(
            layers,
            cell,
            k,
            i,
        ) ==> cell.elems[i].net is Some && lower_net(cell, k) == lower_net(cell, i)
}

/// Each label of `cell` comes to lie inside some shape.
pub open spec fn labels_land(layers: Seq<LayerView>, cell: CellView) -> bool {
    forall|k: int|
        0 <= k < cell.elems.len() && (#[trigger] cell.elems[k]).net is Some ==> exists|i: int|
            0 <= i < cell.elems.len() && #[trigger] carries(layers, cell, k, i)
}

/// `back` has the name, the instances and the shapes of `cell`, in order, each shape on a layer and
/// with a purpose of the same numbers.
pub open spec fn is_kept(
    layers: Seq<LayerView>,
    cell: CellView,
    back_layers: Seq<LayerView>,
    back: CellView,
) -> bool {
    &&& back.name == cell.name
    &&& back.insts == cell.insts.map_values(|inst: InstanceView| plain_instance(inst))
    &&& back.elems.len() == cell.elems.len()
    &&& forall|i: int|
        #![trigger back.elems[i]]
        0 <= i < cell.elems.len() ==> back.elems[i].inner == plain_shape(cell.elems[i].inner)
            && lies_on(back_layers, back.elems[i], numbers(layers, cell.elems[i]))
}

/// `back` has the nets of `cell`, in lower case.
pub open spec fn nets_kept(cell: CellView, back: CellView) -> bool {
    forall|i: int|
        #![trigger back.elems[i]]
        0 <= i < cell.elems.len() ==> back.elems[i].net == (if cell.elems[i].net is Some {
            Some(lower_net(cell, i))
        } else {
            None
        })
}

/// The shapes of `cell` can be exported, as far as they go.
pub open spec fn shapes_exportable(cell: CellView) -> bool {
    forall|i: int| 0 <= i < cell.elems.len() ==> shape_exportable((#[trigger] cell.elems[i]).inner)
}

/// The text that the net of the `k`th element becomes lies inside the `i`th shape if the label
/// comes to lie there.
proof fn lemma_label_lies(layers: Seq<LayerView>, cell: CellView, k: int, i: int)
    requires
        shapes_exportable(cell),
        export_cell_spec(layers, cell) is Ok,
        0 <= k < cell.elems.len(),
        0 <= i < cell.elems.len(),
        cell.elems[k].net is Some,
    ensures
        labels_of(layers, cell.elems[k]).len() == 1,
        lies_inside(
            labels_of(layers, cell.elems[k])[0],
            plain_element(layers, cell.elems[i]),
        ) == carries(layers, cell, k, i),
        net_name(labels_of(layers, cell.elems[k])[0]) == lower_net(cell, k),
{
    let elem = cell.elems[k];
    law_cell_export(layers, cell);
    assert(is_exportable(layers, elem));
    assert(shape_exportable(elem.inner));
    law_centre_fits(elem.inner);
    if let ShapeView::Poly { pts } = cell.elems[i].inner {
        if is_rectangle(pts) {
            law_rectangle_covers(pts, elem.inner.center());
        }
    }
}

/// Each text in an exported struct is the label of one of the cell's elements.
proof fn lemma_text_from(
    layers: Seq<LayerView>,
    cell: CellView,
    texts: Seq<GdsTextElemView>,
    n: int,
) -> (k: int)
    requires
        texts == each(cell.elems, |elem: ElementView| labels_of(layers, elem)),
        0 <= n < texts.len(),
    ensures
        0 <= k < cell.elems.len(),
        cell.elems[k].net is Some,
        texts[n] == labels_of(layers, cell.elems[k])[0],
{
    let f = |elem: ElementView| labels_of(layers, elem);
    lemma_each_members(cell.elems, f);
    let k = choose|k: int|
        0 <= k < cell.elems.len() && f(#[trigger] cell.elems[k]).contains(texts[n]);
    k
}

/// The label of each element that has a net is a text in the exported struct.
proof fn lemma_text_for(
    layers: Seq<LayerView>,
    cell: CellView,
    texts: Seq<GdsTextElemView>,
    k: int,
) -> (n: int)
    requires
        texts == each(cell.elems, |elem: ElementView| labels_of(layers, elem)),
        0 <= k < cell.elems.len(),
        cell.elems[k].net is Some,
    ensures
        0 <= n < texts.len(),
        texts[n] == labels_of(layers, cell.elems[k])[0],
{
    let f = |elem: ElementView| labels_of(layers, elem);
    let text = labels_of(layers, cell.elems[k])[0];
    lemma_each_members(cell.elems, f);
    assert(f(cell.elems[k])[0] == text);
    assert(f(cell.elems[k]).contains(text));
    assert(texts.contains(text));
    choose|n: int| 0 <= n < texts.len() && texts[n] == text
}

/// An exported struct can be imported if and only if no two labels that differ by more than case
/// come to lie inside one shape.
proof fn lemma_exported_sound(layers: Seq<LayerView>, cell: CellView)
    requires
        shapes_exportable(cell),
        export_cell_spec(layers, cell) is Ok,
    ensures
        is_sound_struct(export_cell_spec(layers, cell)->Ok_0) <==> !labels_short(layers, cell),
{
    let strukt = export_cell_spec(layers, cell)->Ok_0;
    law_exported_struct(layers, cell);
    let shapes = all_shapes(strukt.elems);
    let texts = all_texts(strukt.elems);
    if has_short(shapes, texts) {
        let (i, m, n) = choose|i: int, m: int, n: int|
            #![trigger shapes[i], texts[m], texts[n]]
            0 <= i < shapes.len() && 0 <= m < n < texts.len() && lies_inside(texts[m], shapes[i])
                && lies_inside(texts[n], shapes[i]) && net_name(texts[m]) != net_name(texts[n]);
        let j = lemma_text_from(layers, cell, texts, m);
        let k = lemma_text_from(layers, cell, texts, n);
        lemma_label_lies(layers, cell, j, i);
        lemma_label_lies(layers, cell, k, i);
        assert(carries(layers, cell, j, i) && carries(layers, cell, k, i));
    }
    if labels_short(layers, cell) {
        let (i, j, k) = choose|i: int, j: int, k: int|
            0 <= i < cell.elems.len() && 0 <= j < cell.elems.len() && 0 <= k < cell.elems.len()
                && #[trigger] carries(layers, cell, j, i) && #[trigger] carries(layers, cell, k, i)
                && lower_net(cell, j) != lower_net(cell, k);
        let m = lemma_text_for(layers, cell, texts, j);
        let n = lemma_text_for(layers, cell, texts, k);
        lemma_label_lies(layers, cell, j, i);
        lemma_label_lies(layers, cell, k, i);
        assert(lies_inside(texts[m], shapes[i]) && lies_inside(texts[n], shapes[i]));
        assert(has_short(shapes, texts));
    }
}

/// An import of an exported struct has the instances and the shapes that the cell had.
proof fn lemma_exported_kept(
    layers: Seq<LayerView>,
    cell: CellView,
    back_layers: Seq<LayerView>,
    back: CellView,
)
    requires
        shapes_exportable(cell),
        export_cell_spec(layers, cell) is Ok,
        is_import_of(export_cell_spec(layers, cell)->Ok_0, back_layers, back),
    ensures
        is_kept(layers, cell, back_layers, back),
{
    let strukt = export_cell_spec(layers, cell)->Ok_0;
    law_exported_struct(layers, cell);
    let shapes = all_shapes(strukt.elems);
    assert forall|i: int|
        #![trigger back.elems[i]]
        0 <= i < cell.elems.len() implies back.elems[i].inner == plain_shape(cell.elems[i].inner)
        && lies_on(back_layers, back.elems[i], numbers(layers, cell.elems[i])) by {
        assert(shapes[i] == plain_element(layers, cell.elems[i]));
    }
}

/// An import of an exported struct has the nets that the cell had if the labels return to them.
proof fn lemma_exported_nets(
    layers: Seq<LayerView>,
    cell: CellView,
    back_layers: Seq<LayerView>,
    back: CellView,
)
    requires
        shapes_exportable(cell),
        export_cell_spec(layers, cell) is Ok,
        is_import_of(export_cell_spec(layers, cell)->Ok_0, back_layers, back),
    ensures
        nets_kept(cell, back) <==> labels_return(layers, cell),
{
    let strukt = export_cell_spec(layers, cell)->Ok_0;
    law_exported_struct(layers, cell);
    let shapes = all_shapes(strukt.elems);
    let texts = all_texts(strukt.elems);
    assert forall|i: int, k: int|
        0 <= i < cell.elems.len() && 0 <= k < cell.elems.len() && #[trigger] carries(
            layers,
            cell,
            k,
            i,
        ) implies back.elems[i].net == Some(lower_net(cell, k)) by {
        let n = lemma_text_for(layers, cell, texts, k);
        lemma_label_lies(layers, cell, k, i);
        assert(lies_inside(texts[n], shapes[i]));
    }
    assert forall|i: int|
        #![trigger back.elems[i]]
        0 <= i < cell.elems.len() && (forall|k: int|
            0 <= k < cell.elems.len() ==> !(#[trigger] carries(layers, cell, k, i))) implies
        back.elems[i].net is None by {
        assert forall|n: int| 0 <= n < texts.len() implies !lies_inside(
            #[trigger] texts[n],
            shapes[i],
        ) by {
            let k = lemma_text_from(layers, cell, texts, n);
            lemma_label_lies(layers, cell, k, i);
            assert(!carries(layers, cell, k, i));
        }
    }
    if nets_kept(cell, back) {
        assert forall|i: int|
            0 <= i < cell.elems.len() && (#[trigger] cell.elems[i]).net is Some implies exists|
            k: int,
        |
            0 <= k < cell.elems.len() && #[trigger] carries(layers, cell, k, i) by {
            assert(back.elems[i].net is Some);
        }
        assert forall|i: int, k: int|
            0 <= i < cell.elems.len() && 0 <= k < cell.elems.len() && #[trigger] carries(
                layers,
                cell,
                k,
                i,
            ) implies cell.elems[i].net is Some && lower_net(cell, k) == lower_net(cell, i) by {
            assert(back.elems[i].net == Some(lower_net(cell, k)));
        }
    }
    if labels_return(layers, cell) {
        assert forall|i: int|
            #![trigger back.elems[i]]
            0 <= i < cell.elems.len() implies back.elems[i].net == (if cell.elems[i].net is Some {
            Some(lower_net(cell, i))
        } else {
            None
        }) by {
            if cell.elems[i].net is Some {
                let k = choose|k: int|
                    0 <= k < cell.elems.len() && #[trigger] carries(layers, cell, k, i);
                assert(back.elems[i].net == Some(lower_net(cell, k)));
            }
        }
    }
}

/// An import of an exported struct has no annotations if the labels land inside shapes.
proof fn lemma_exported_annotations(
    layers: Seq<LayerView>,
    cell: CellView,
    back_layers: Seq<LayerView>,
    back: CellView,
)
    requires
        shapes_exportable(cell),
        export_cell_spec(layers, cell) is Ok,
        is_import_of(export_cell_spec(layers, cell)->Ok_0, back_layers, back),
    ensures
        back.annotations.len() == 0 <==> labels_land(layers, cell),
{
    let strukt = export_cell_spec(layers, cell)->Ok_0;
    law_exported_struct(layers, cell);
    let shapes = all_shapes(strukt.elems);
    let texts = all_texts(strukt.elems);
    let f = |text: GdsTextElemView| annotation_of(text, shapes);
    if labels_land(layers, cell) {
        assert forall|n: int| 0 <= n < texts.len() implies f(#[trigger] texts[n]).len() == 0 by {
            let k = lemma_text_from(layers, cell, texts, n);
            let i = choose|i: int|
                0 <= i < cell.elems.len() && #[trigger] carries(layers, cell, k, i);
            lemma_label_lies(layers, cell, k, i);
            assert(lies_inside(texts[n], shapes[i]));
        }
        lemma_each_none(texts, f);
    } else {
        let k = choose|k: int|
            0 <= k < cell.elems.len() && (#[trigger] cell.elems[k]).net is Some && !(exists|i: int|
                0 <= i < cell.elems.len() && #[trigger] carries(layers, cell, k, i));
        let n = lemma_text_for(layers, cell, texts, k);
        assert forall|i: int| 0 <= i < shapes.len() implies !lies_inside(
            texts[n],
            #[trigger] shapes[i],
        ) by {
            lemma_label_lies(layers, cell, k, i);
            assert(!carries(layers, cell, k, i));
        }
        lemma_each_members(texts, f);
        let annotation = f(texts[n])[0];
        assert(f(texts[n]).contains(annotation));
        assert(back.annotations.contains(annotation));
    }
}

/// A cell that is exported can be imported again if and only if no two labels that differ by more
/// than case come to lie inside one shape. What comes back has the cell's name, its instances and
/// its shapes, in order, on layers and with purposes of the same numbers. The nets come back in
/// lower case if and only if each shape with a net has a label of that net inside it, and no shape
/// has one of another net. No annotation comes back if and only if all labels lie inside shapes.
pub proof fn law_cell_round_trip(layers: Seq<LayerView>, cell: CellView, s: GdsImporterView)
    requires
        shapes_exportable(cell),
        distinct(s.layers),
    ensures
        export_cell_spec(layers, cell) matches Ok(strukt) ==> {
            &&& import_cell_spec(s, strukt).1 is Ok <==> !labels_short(layers, cell)
            &&& import_cell_spec(s, strukt) matches (t, Ok(back)) ==> {
                &&& is_kept(layers, cell, t.layers, back)
                &&& nets_kept(cell, back) <==> labels_return(layers, cell)
                &&& back.annotations.len() == 0 <==> labels_land(layers, cell)
            }
        },
{
    if let Ok(strukt) = export_cell_spec(layers, cell) {
        law_cell(s, strukt);
        lemma_exported_sound(layers, cell);
        if let (t, Ok(back)) = import_cell_spec(s, strukt) {
            lemma_exported_kept(layers, cell, t.layers, back);
            lemma_exported_nets(layers, cell, t.layers, back);
            lemma_exported_annotations(layers, cell, t.layers, back);
        }
    }
}

/// A library that is exported can be imported again if and only if in none of its cells two labels
/// that differ by more than case come to lie inside one shape. What comes back has the library's
/// name and unit, and its cells, in order, each as [`law_cell_round_trip`] says of it.
pub proof fn law_library_round_trip(lib: LibraryView)
    requires
        forall|i: int| 0 <= i < lib.cells.len() ==> shapes_exportable(#[trigger] lib.cells[i]),
    ensures
        export_spec(lib) matches Ok(gds) ==> {
            &&& import_spec(gds).1 is Ok <==> (forall|i: int|
                0 <= i < lib.cells.len() ==> !labels_short(lib.layers, #[trigger] lib.cells[i]))
            &&& import_spec(gds).1 matches Ok(back) ==> {
                &&& back.name == lib.name
                &&& back.units == lib.units
                &&& back.cells.len() == lib.cells.len()
                &&& forall|i: int|
                    #![trigger back.cells[i]]
                    0 <= i < lib.cells.len() ==> {
                        &&& is_kept(lib.layers, lib.cells[i], back.layers, back.cells[i])
                        &&& nets_kept(lib.cells[i], back.cells[i]) <==> labels_return(
                            lib.layers,
                            lib.cells[i],
                        )
                        &&& back.cells[i].annotations.len() == 0 <==> labels_land(
                            lib.layers,
                            lib.cells[i],
                        )
                    }
            }
        },
{
    law_library_export(lib);
    if let Ok(gds) = export_spec(lib) {
        law_unit_round_trip(lib.units);
        law_library(gds);
        assert forall|i: int| 0 <= i < lib.cells.len() implies is_sound_struct(
            #[trigger] gds.structs[i],
        ) == !labels_short(lib.layers, lib.cells[i]) by {
            assert(shapes_exportable(lib.cells[i]));
            lemma_exported_sound(lib.layers, lib.cells[i]);
        }
        if forall|i: int| 0 <= i < gds.structs.len() ==> is_sound_struct(#[trigger] gds.structs[i]) {
            assert forall|i: int| 0 <= i < lib.cells.len() implies !labels_short(
                lib.layers,
                #[trigger] lib.cells[i],
            ) by {
                assert(is_sound_struct(gds.structs[i]));
            }
        } else {
            let i = choose|i: int|
                0 <= i < gds.structs.len() && !is_sound_struct(#[trigger] gds.structs[i]);
            assert(labels_short(lib.layers, lib.cells[i]));
        }
        if let Ok(back) = import_spec(gds).1 {
            assert forall|i: int|
                #![trigger back.cells[i]]
                0 <= i < lib.cells.len() implies {
                &&& is_kept(lib.layers, lib.cells[i], back.layers, back.cells[i])
                &&& nets_kept(lib.cells[i], back.cells[i]) <==> labels_return(
                    lib.layers,
                    lib.cells[i],
                )
                &&& back.cells[i].annotations.len() == 0 <==> labels_land(
                    lib.layers,
                    lib.cells[i],
                )
            } by {
                assert(shapes_exportable(lib.cells[i]));
                assert(is_import_of(gds.structs[i], back.layers, back.cells[i]));
                lemma_exported_kept(lib.layers, lib.cells[i], back.layers, back.cells[i]);
                lemma_exported_nets(lib.layers, lib.cells[i], back.layers, back.cells[i]);
                lemma_exported_annotations(lib.layers, lib.cells[i], back.layers, back.cells[i]);
            }
        }
    }
}

/// A closed boundary that is imported and exported again lies on the same layer, with the same data
/// type, and has the same points; only where it is a rectangle whose first side is vertical, they
/// come in the reverse order.
pub proof fn law_boundary_round_trip(s: GdsImporterView, x: GdsBoundaryView)
    requires
        x.xy.len() > 1,
        x.xy[0] == x.xy.last(),
        distinct(s.layers),
        purposes_by_number(s.layers),
    ensures
        ({
            &&& import_boundary_spec(s, x) matches (t, Ok(elem))
            &&& export_element_spec(t.layers, elem) matches Ok(elems)
            &&& elems.len() == 1
            &&& elems[0] matches GdsElementView::GdsBoundary(y)
            &&& y.layer == x.layer
            &&& y.datatype == x.datatype
            &&& y.xy == x.xy || (is_rectangle(points(x.xy).drop_last()) && x.xy[0].x == x.xy[1].x
                && y.xy == x.xy.reverse())
        }),
{
    let (t, r) = import_boundary_spec(s, x);
    let elem = r->Ok_0;
    let spec = GdsLayerSpec { layer: x.layer, xtype: x.datatype };
    law_layers_distinct(s.layers, x.layer, x.datatype);
    law_purposes_by_number(s.layers, x.layer, x.datatype);
    lemma_distinct_len(s.layers);
    law_layer_found(s.layers, x.layer, x.datatype);
    let layer = layer_at(t.layers, elem.layer)->0;
    assert forall|j: int| 0 <= j < layer.purposes.len() implies (#[trigger] layer.purposes[j]).1
        == LayerPurpose::Other(layer.purposes[j].0) by {
        assert(t.layers[elem.layer.index as int].purposes[j] == layer.purposes[j]);
    }
    law_purpose_number(layer.purposes, x.datatype);
    assert(numbers(t.layers, elem) == spec);
    let pts = points(x.xy).drop_last();
    let out = outline(elem.inner);
    let xy = out.map_values(|p: Point| gds_point(p));
    assert forall|i: int| 0 <= i < pts.len() implies gds_point(#[trigger] pts[i]) == x.xy[i]
        && fits(pts[i]) by {
        assert(pts[i] == point(x.xy[i]));
    }
    if is_rectangle(pts) {
        assert(fits(pts[0]) && fits(pts[1]) && fits(pts[2]) && fits(pts[3]));
        assert(x.xy[4] == x.xy[0]);
        if pts[0].y == pts[1].y && pts[1].x == pts[2].x && pts[2].y == pts[3].y && pts[3].x
            == pts[0].x {
            assert(xy =~= x.xy);
        } else {
            assert(xy =~= x.xy.reverse());
        }
    } else {
        assert(xy =~= x.xy);
    }
    assert forall|i: int| 0 <= i < out.len() implies fits(#[trigger] out[i]) by {
        if !is_rectangle(pts) && i < pts.len() {
            assert(out[i] == pts[i]);
        }
    }
    assert(is_exportable(t.layers, elem));
    law_element_export(t.layers, elem);
    let labels = labels_of(t.layers, elem).map_values(
        |text: GdsTextElemView| GdsElementView::GdsTextElem(text),
    );
    assert(labels.len() == 0);
}

/// Where every purpose is known by its number alone, there is none for labels.
proof fn lemma_no_label(pairs: Seq<(i16, LayerPurpose)>)
    requires
        forall|j: int|
            0 <= j < pairs.len() ==> (#[trigger] pairs[j]).1 == LayerPurpose::Other(pairs[j].0),
    ensures
        number_of(pairs, LayerPurpose::Label) is None,
    decreases pairs.len(),
{
    if pairs.len() > 0 {
        assert(pairs[pairs.len() - 1].1 == LayerPurpose::Other(pairs[pairs.len() - 1].0));
        assert forall|j: int| 0 <= j < pairs.len() - 1 implies (#[trigger] pairs.drop_last()[j]).1
            == LayerPurpose::Other(pairs.drop_last()[j].0) by {
            assert(pairs[j].1 == LayerPurpose::Other(pairs[j].0));
        }
        lemma_no_label(pairs.drop_last());
    }
}

/// The outline of an imported shape fits GDSII.
proof fn lemma_imported_fits(elem: GdsElementView, shape: (GdsLayerSpec, ShapeView))
    requires
        element_importable(elem),
        shapes_of(elem).contains(shape),
        shape_exportable(shape.1),
    ensures
        forall|i: int| 0 <= i < outline(shape.1).len() ==> fits(#[trigger] outline(shape.1)[i]),
{
    assert(shape == shapes_of(elem)[0]);
    let out = outline(shape.1);
    if let GdsElementView::GdsBoundary(x) = elem {
        let pts = points(x.xy).drop_last();
        assert forall|i: int| 0 <= i < pts.len() implies fits(#[trigger] pts[i]) by {
            assert(pts[i] == point(x.xy[i]));
        }
        if is_rectangle(pts) {
            assert(fits(pts[0]) && fits(pts[2]));
        } else {
            assert forall|i: int| 0 <= i < out.len() implies fits(#[trigger] out[i]) by {
                if i < pts.len() {
                    assert(out[i] == pts[i]);
                } else {
                    assert(out[i] == pts[0]);
                }
            }
        }
    }
}

/// Everything that was imported lies where GDSII can place it again: the instances can be exported,
/// and so can the shapes without a net that are no paths. A shape with a net cannot, since no layer
/// that was imported has a purpose for labels.
pub proof fn law_import_exportable(
    strukt: GdsStructView,
    layers: Seq<LayerView>,
    cell: CellView,
)
    requires
        struct_importable(strukt),
        is_import_of(strukt, layers, cell),
        purposes_by_number(layers),
    ensures
        forall|i: int|
            0 <= i < cell.insts.len() ==> export_instance_spec(#[trigger] cell.insts[i]) is Ok,
        forall|i: int|
            0 <= i < cell.elems.len() && shape_exportable((#[trigger] cell.elems[i]).inner) ==> (
            export_element_spec(layers, cell.elems[i]) is Ok <==> cell.elems[i].net is None),
{
    let shapes = all_shapes(strukt.elems);
    let fi = |elem: GdsElementView| instances_of(elem);
    let fs = |elem: GdsElementView| shapes_of(elem);
    lemma_each_members(strukt.elems, fi);
    lemma_each_members(strukt.elems, fs);
    assert forall|i: int| 0 <= i < cell.insts.len() implies export_instance_spec(
        #[trigger] cell.insts[i],
    ) is Ok by {
        assert(cell.insts[i] == each(strukt.elems, fi)[i]);
        let k = choose|k: int|
            0 <= k < strukt.elems.len() && fi(#[trigger] strukt.elems[k]).contains(cell.insts[i]);
        if let GdsElementView::GdsArrayRef(x) = strukt.elems[k] {
            let n = choose|n: int|
                0 <= n < array_instances(x).len() && array_instances(x)[n] == cell.insts[i];
            law_array_inside(x, n);
        }
    }
    assert forall|i: int|
        0 <= i < cell.elems.len() && shape_exportable((#[trigger] cell.elems[i]).inner) implies (
    export_element_spec(layers, cell.elems[i]) is Ok <==> cell.elems[i].net is None) by {
        let elem = cell.elems[i];
        let layer = layer_at(layers, elem.layer)->0;
        assert(lies_on(layers, elem, shapes[i].0));
        assert forall|j: int| 0 <= j < layer.purposes.len() implies (#[trigger] layer.purposes[j]).1
            == LayerPurpose::Other(layer.purposes[j].0) by {
            assert(layers[elem.layer.index as int].purposes[j] == layer.purposes[j]);
        }
        law_purpose_number(layer.purposes, shapes[i].0.xtype);
        lemma_no_label(layer.purposes);
        assert(shapes[i] == each(strukt.elems, fs)[i]);
        let k = choose|k: int|
            0 <= k < strukt.elems.len() && fs(#[trigger] strukt.elems[k]).contains(shapes[i]);
        assert(element_importable(strukt.elems[k]));
        lemma_imported_fits(strukt.elems[k], shapes[i]);
        law_element_export(layers, elem);
    }
}

} // verus!
