//! Laws of the import: what comes out of which elements, and what an import keeps.

use vstd::prelude::*;

use crate::error::ImportContextView;
use crate::error::LayoutErrorView;
use crate::gdsii::GdsArrayRefView;
use crate::gdsii::GdsElementView;
use crate::gdsii::GdsLayerSpec;
use crate::gdsii::GdsLibraryView;
use crate::gdsii::GdsStructView;
use crate::gdsii::GdsTextElemView;
use crate::geom::between;
use crate::geom::ShapeView;
use crate::import::array_instances;
use crate::import::corner_shape;
use crate::import::instance;
use crate::import::is_absolute;
use crate::import::is_rectangular;
use crate::import::lemma_step;
use crate::import::orientation_warnings;
use crate::import::place;
use crate::import::point;
use crate::import::points;
use crate::import::unit_of;
use crate::import::GdsImporterView;
use crate::import::ImportWarning;
use crate::import_cell::hits;
use crate::import_cell::import_cell_spec;
use crate::import_cell::label_all;
use crate::import_cell::scan;
use crate::import_cell::scan_step;
use crate::import_cell::ScanView;
use crate::import_lib::import_cells;
use crate::import_lib::import_spec;
use crate::import_lib::new_importer;
use crate::laws_labels::annotations_of;
use crate::laws_labels::hits_none;
use crate::laws_labels::law_label_conflict;
use crate::laws_labels::law_labels;
use crate::laws_labels::named;
use crate::laws_labels::net_name;
use crate::laws_labels::no_conflict;
use crate::laws_layers::distinct;
use crate::laws_layers::extends;
use crate::laws_layers::law_layer_found;
use crate::laws_layers::law_layers_distinct;
use crate::laws_layers::law_layers_kept;
use crate::laws_layers::law_purposes_by_number;
use crate::laws_layers::lemma_distinct_len;
use crate::laws_layers::lemma_extends_self;
use crate::laws_layers::lemma_extends_trans;
use crate::laws_layers::purposes_by_number;
use crate::layers::layer_at;
use crate::layers::purpose_of;
use crate::layers::LayerView;
use crate::layout::CellView;
use crate::layout::ElementView;
use crate::layout::InstanceView;
use crate::layout::TextElementView;
use crate::views::each;

verus! {

/// The shape that an element is imported as, if it is geometric, with its layer and type numbers.
pub open spec fn shapes_of(elem: GdsElementView) -> Seq<(GdsLayerSpec, ShapeView)> {
    match elem {
        GdsElementView::GdsBoundary(x) => seq![
            (
                GdsLayerSpec { layer: x.layer, xtype: x.datatype },
                corner_shape(points(x.xy).drop_last()),
            ),
        ],
        GdsElementView::GdsPath(x) => match x.width {
            Some(width) => seq![
                (
                    GdsLayerSpec { layer: x.layer, xtype: x.datatype },
                    ShapeView::Path { width: width as usize, pts: points(x.xy) },
                ),
            ],
            None => Seq::empty(),
        },
        GdsElementView::GdsBox(x) => seq![
            (
                GdsLayerSpec { layer: x.layer, xtype: x.boxtype },
                ShapeView::Rect { p0: point(x.xy[0]), p1: point(x.xy[2]) },
            ),
        ],
        _ => Seq::empty(),
    }
}

/// The instances that an element is imported as, if it is a reference or an array of references.
pub open spec fn instances_of(elem: GdsElementView) -> Seq<InstanceView> {
    match elem {
        GdsElementView::GdsStructRef(x) => seq![instance(x.name, point(x.xy), x.strans)],
        GdsElementView::GdsArrayRef(x) => array_instances(x),
        _ => Seq::empty(),
    }
}

/// The element as a text, if it is one.
pub open spec fn texts_of(elem: GdsElementView) -> Seq<GdsTextElemView> {
    match elem {
        GdsElementView::GdsTextElem(x) => seq![x],
        _ => Seq::empty(),
    }
}

/// The element, if it is left out.
pub open spec fn unsupported_of(elem: GdsElementView) -> Seq<GdsElementView> {
    match elem {
        GdsElementView::GdsNode(_) => seq![elem],
        _ => Seq::empty(),
    }
}

/// What is warned of for an element.
pub open spec fn warnings_of(elem: GdsElementView) -> Seq<ImportWarning> {
    match elem {
        GdsElementView::GdsStructRef(x) => orientation_warnings(x.strans),
        GdsElementView::GdsArrayRef(x) => orientation_warnings(x.strans),
        _ => Seq::empty(),
    }
}

/// The shapes in `elems`, in order.
pub open spec fn all_shapes(elems: Seq<GdsElementView>) -> Seq<(GdsLayerSpec, ShapeView)> {
    each(elems, |elem: GdsElementView| shapes_of(elem))
}

/// The instances in `elems`, in order.
pub open spec fn all_instances(elems: Seq<GdsElementView>) -> Seq<InstanceView> {
    each(elems, |elem: GdsElementView| instances_of(elem))
}

/// The texts in `elems`, in order.
pub open spec fn all_texts(elems: Seq<GdsElementView>) -> Seq<GdsTextElemView> {
    each(elems, |elem: GdsElementView| texts_of(elem))
}

/// The elements in `elems` that are left out, in order.
pub open spec fn all_unsupported(elems: Seq<GdsElementView>) -> Seq<GdsElementView> {
    each(elems, |elem: GdsElementView| unsupported_of(elem))
}

/// What is warned of for `elems`.
pub open spec fn all_warnings(elems: Seq<GdsElementView>) -> Seq<ImportWarning> {
    each(elems, |elem: GdsElementView| warnings_of(elem))
}

/// `elem` by itself can be imported, or is left out: a boundary is closed, a path has a width, an
/// instance is not absolute, and an array is rectangular besides.
pub open spec fn is_sound(elem: GdsElementView) -> bool {
    match elem {
        GdsElementView::GdsBoundary(x) => x.xy[0] == x.xy.last(),
        GdsElementView::GdsPath(x) => x.width is Some,
        GdsElementView::GdsStructRef(x) => !is_absolute(x.strans),
        GdsElementView::GdsArrayRef(x) => is_rectangular(x) && !is_absolute(x.strans),
        _ => true,
    }
}

/// `text` lies inside `shape`, on the same layer.
pub open spec fn lies_inside(text: GdsTextElemView, shape: (GdsLayerSpec, ShapeView)) -> bool {
    shape.0.layer == text.layer && shape.1.contains(point(text.xy))
}

/// Inside some shape there are two texts that name different nets.
pub open spec fn has_short(
    shapes: Seq<(GdsLayerSpec, ShapeView)>,
    texts: Seq<GdsTextElemView>,
) -> bool {
    exists|i: int, j: int, k: int|
        #![trigger shapes[i], texts[j], texts[k]]
        0 <= i < shapes.len() && 0 <= j < k < texts.len() && lies_inside(texts[j], shapes[i])
            && lies_inside(texts[k], shapes[i]) && net_name(texts[j]) != net_name(texts[k])
}

/// The annotation that `text` becomes if it lies inside none of `shapes`.
pub open spec fn annotation_of(
    text: GdsTextElemView,
    shapes: Seq<(GdsLayerSpec, ShapeView)>,
) -> Seq<TextElementView> {
    if forall|i: int| 0 <= i < shapes.len() ==> !lies_inside(text, #[trigger] shapes[i]) {
        seq![TextElementView { string: text.string, loc: point(text.xy) }]
    } else {
        Seq::empty()
    }
}

/// `strukt` can be imported: each of its elements can, and no two labels are in conflict.
pub open spec fn is_sound_struct(strukt: GdsStructView) -> bool {
    &&& forall|i: int| 0 <= i < strukt.elems.len() ==> is_sound(#[trigger] strukt.elems[i])
    &&& !has_short(all_shapes(strukt.elems), all_texts(strukt.elems))
}

/// `cell` is what becomes of `strukt`, among `layers`: its name, its instances in order, its shapes
/// in order, each on its layer and with the net that the texts inside it name, and the texts
/// inside no shape.
pub open spec fn is_import_of(
    strukt: GdsStructView,
    layers: Seq<LayerView>,
    cell: CellView,
) -> bool {
    let shapes = all_shapes(strukt.elems);
    let texts = all_texts(strukt.elems);
    &&& cell.name == strukt.name
    &&& cell.insts == all_instances(strukt.elems)
    &&& cell.elems.len() == shapes.len()
    &&& forall|i: int|
        #![trigger cell.elems[i]]
        0 <= i < shapes.len() ==> cell.elems[i].inner == shapes[i].1 && lies_on(
            layers,
            cell.elems[i],
            shapes[i].0,
        )
    &&& forall|i: int, k: int|
        #![trigger cell.elems[i], texts[k]]
        0 <= i < shapes.len() && 0 <= k < texts.len() && lies_inside(texts[k], shapes[i])
            ==> cell.elems[i].net == Some(net_name(texts[k]))
    &&& forall|i: int|
        #![trigger cell.elems[i]]
        0 <= i < shapes.len() && (forall|k: int|
            0 <= k < texts.len() ==> !lies_inside(#[trigger] texts[k], shapes[i]))
            ==> cell.elems[i].net is None
    &&& cell.annotations == each(texts, |text: GdsTextElemView| annotation_of(text, shapes))
}

/// `elem` lies on a layer that has the layer number of `numbers`, with the purpose that has there
/// the type number of `numbers`.
pub open spec fn lies_on(
    layers: Seq<LayerView>,
    elem: ElementView,
    numbers: GdsLayerSpec,
) -> bool {
    layer_at(layers, elem.layer) matches Some(layer) && layer.layernum == numbers.layer
        && purpose_of(layer.purposes, numbers.xtype) == Some(elem.purpose)
}

/// An element stays where it is when layers are added.
pub proof fn lemma_lies_on_extends(
    old: Seq<LayerView>,
    new: Seq<LayerView>,
    elem: ElementView,
    numbers: GdsLayerSpec,
)
    requires
        extends(old, new),
        lies_on(old, elem, numbers),
    ensures
        lies_on(new, elem, numbers),
{
    let i = elem.layer.index as int;
    assert(new[i].layernum == old[i].layernum);
    assert(purpose_of(new[i].purposes, numbers.xtype) == purpose_of(
        old[i].purposes,
        numbers.xtype,
    ));
}

/// `t` is what the importer `s` has become by importing: it is in the same contexts, it has lost
/// no layer, and it still has no two layers of the same number, or purposes other than by number,
/// if it had none.
pub open spec fn carried_on(s: GdsImporterView, t: GdsImporterView) -> bool {
    &&& t.ctx_stack == s.ctx_stack
    &&& extends(s.layers, t.layers)
    &&& distinct(s.layers) ==> distinct(t.layers)
    &&& purposes_by_number(s.layers) ==> purposes_by_number(t.layers)
}

/// Importers carry on from one import to the next.
pub proof fn lemma_carried_on_trans(a: GdsImporterView, b: GdsImporterView, c: GdsImporterView)
    requires
        carried_on(a, b),
        carried_on(b, c),
    ensures
        carried_on(a, c),
{
    lemma_extends_trans(a.layers, b.layers, c.layers);
}

/// `e` is a failure to import that arose in the contexts of `t`, which are those of `s` or lie
/// inside them.
pub open spec fn failed_inside(
    s: GdsImporterView,
    t: GdsImporterView,
    e: LayoutErrorView,
) -> bool {
    &&& e matches LayoutErrorView::Import { stack, .. } && stack == t.ctx_stack
    &&& s.ctx_stack.is_prefix_of(t.ctx_stack)
}

/// Placing a shape carries the importer on, and places the shape by its numbers.
proof fn lemma_place(s: GdsImporterView, numbers: GdsLayerSpec, inner: ShapeView)
    ensures
        ({
            let (t, elem) = place(s, numbers, inner);
            &&& carried_on(s, t)
            &&& distinct(s.layers) ==> lies_on(t.layers, elem, numbers)
        }),
{
    law_layers_kept(s.layers, numbers.layer, numbers.xtype);
    if distinct(s.layers) {
        law_layers_distinct(s.layers, numbers.layer, numbers.xtype);
        lemma_distinct_len(s.layers);
        law_layer_found(s.layers, numbers.layer, numbers.xtype);
    }
    if purposes_by_number(s.layers) {
        law_purposes_by_number(s.layers, numbers.layer, numbers.xtype);
    }
}

/// `to` is what the first pass makes of `elems`, from `from` on.
pub open spec fn found(from: ScanView, elems: Seq<GdsElementView>, to: ScanView) -> bool {
    let shapes = all_shapes(elems);
    &&& carried_on(from.importer, to.importer)
    &&& to.insts == from.insts + all_instances(elems)
    &&& to.texts == from.texts + all_texts(elems)
    &&& to.importer.unsupported == from.importer.unsupported + all_unsupported(
        elems,
    )
    &&& to.importer.warnings == from.importer.warnings + all_warnings(elems)
    &&& to.shapes.len() == from.shapes.len() + shapes.len()
    &&& forall|i: int|
        0 <= i < from.shapes.len() ==> #[trigger] to.shapes[i] == from.shapes[i]
    &&& forall|i: int|
        #![trigger shapes[i]]
        0 <= i < shapes.len() ==> {
            let shape = to.shapes[from.shapes.len() + i];
            &&& shape.0 == shapes[i].0.layer
            &&& shape.1.inner == shapes[i].1
            &&& shape.1.net is None
            &&& distinct(from.importer.layers) ==> lies_on(
                to.importer.layers,
                shape.1,
                shapes[i].0,
            )
        }
}

/// The first pass succeeds if and only if each element can be imported. Then it finds in `elems`
/// what is in each of them, in order; if it fails, it says in which contexts.
pub proof fn law_scan(st: ScanView, elems: Seq<GdsElementView>)
    ensures
        scan(st, elems).1 is None <==> (forall|i: int|
            0 <= i < elems.len() ==> is_sound(#[trigger] elems[i])),
        match scan(st, elems) {
            (to, None) => found(st, elems, to),
            (to, Some(e)) => failed_inside(st.importer, to.importer, e),
        },
    decreases elems.len(),
{
    if elems.len() == 0 {
        lemma_extends_self(st.importer.layers);
        assert(st.insts + all_instances(elems) =~= st.insts);
        assert(st.texts + all_texts(elems) =~= st.texts);
        assert(st.importer.unsupported + all_unsupported(elems) =~= st.importer.unsupported);
        assert(st.importer.warnings + all_warnings(elems) =~= st.importer.warnings);
    } else {
        let elem = elems[0];
        let rest = elems.drop_first();
        let (next, error) = scan_step(st, elem);
        law_scan_step(st, elem);
        if error is None {
            law_scan(next, rest);
            let (to, failure) = scan(next, rest);
            if failure is None {
                assert forall|i: int| 0 <= i < elems.len() implies is_sound(
                    #[trigger] elems[i],
                ) by {
                    if i > 0 {
                        assert(is_sound(rest[i - 1]));
                    }
                }
                lemma_found_step(st, elems, next, to);
            } else {
                let i = choose|i: int| 0 <= i < rest.len() && !is_sound(#[trigger] rest[i]);
                assert(!is_sound(elems[i + 1]));
            }
        }
    }
}

/// To find what is in the first of `elems`, and then what is in the others, is to find it all.
proof fn lemma_found_step(
    st: ScanView,
    elems: Seq<GdsElementView>,
    next: ScanView,
    to: ScanView,
)
    requires
        elems.len() > 0,
        scan_step(st, elems[0]) == (next, None::<LayoutErrorView>),
        found(next, elems.drop_first(), to),
    ensures
        found(st, elems, to),
{
    let elem = elems[0];
    let rest = elems.drop_first();
    law_scan_step(st, elem);
    lemma_carried_on_trans(st.importer, next.importer, to.importer);
    assert(all_instances(elems) == instances_of(elem) + all_instances(rest));
    assert(to.insts =~= st.insts + all_instances(elems));
    assert(all_texts(elems) == texts_of(elem) + all_texts(rest));
    assert(to.texts =~= st.texts + all_texts(elems));
    assert(all_unsupported(elems) == unsupported_of(elem) + all_unsupported(rest));
    assert(to.importer.unsupported =~= st.importer.unsupported + all_unsupported(elems));
    assert(all_warnings(elems) == warnings_of(elem) + all_warnings(rest));
    assert(to.importer.warnings =~= st.importer.warnings + all_warnings(elems));
    let head = shapes_of(elem);
    let tail = all_shapes(rest);
    let all = all_shapes(elems);
    assert(all == head + tail);
    assert forall|i: int| 0 <= i < st.shapes.len() implies #[trigger] to.shapes[i]
        == st.shapes[i] by {
        assert(next.shapes[i] == st.shapes[i]);
    }
    assert forall|i: int|
        #![trigger all[i]]
        0 <= i < all.len() implies {
        let shape = to.shapes[st.shapes.len() + i];
        &&& shape.0 == all[i].0.layer
        &&& shape.1.inner == all[i].1
        &&& shape.1.net is None
        &&& distinct(st.importer.layers) ==> lies_on(to.importer.layers, shape.1, all[i].0)
    } by {
        if i < head.len() {
            assert(to.shapes[st.shapes.len() + i] == next.shapes[st.shapes.len() + i]);
            if distinct(st.importer.layers) {
                lemma_lies_on_extends(
                    next.importer.layers,
                    to.importer.layers,
                    next.shapes[st.shapes.len() + i].1,
                    all[i].0,
                );
            }
        } else {
            assert(tail[i - head.len()] == all[i]);
        }
    }
}

/// [`law_scan`] of one element.
pub proof fn law_scan_step(st: ScanView, elem: GdsElementView)
    ensures
        scan_step(st, elem).1 is None <==> is_sound(elem),
        match scan_step(st, elem) {
            (next, None) => {
                let shapes = shapes_of(elem);
                &&& carried_on(st.importer, next.importer)
                &&& next.insts == st.insts + instances_of(elem)
                &&& next.texts == st.texts + texts_of(elem)
                &&& next.importer.unsupported == st.importer.unsupported + unsupported_of(elem)
                &&& next.importer.warnings == st.importer.warnings + warnings_of(elem)
                &&& next.shapes.len() == st.shapes.len() + shapes.len()
                &&& shapes.len() <= 1
                &&& forall|i: int|
                    0 <= i < st.shapes.len() ==> #[trigger] next.shapes[i] == st.shapes[i]
                &&& shapes.len() == 1 ==> {
                    let shape = next.shapes[st.shapes.len() as int];
                    &&& shape.0 == shapes[0].0.layer
                    &&& shape.1.inner == shapes[0].1
                    &&& shape.1.net is None
                    &&& distinct(st.importer.layers) ==> lies_on(
                        next.importer.layers,
                        shape.1,
                        shapes[0].0,
                    )
                }
            },
            (next, Some(e)) => failed_inside(st.importer, next.importer, e),
        },
{
    let (next, error) = scan_step(st, elem);
    let shapes = shapes_of(elem);
    lemma_extends_self(st.importer.layers);
    if shapes.len() == 1 {
        lemma_place(st.importer, shapes[0].0, shapes[0].1);
    }
    if error is None {
        assert(next.insts =~= st.insts + instances_of(elem));
        assert(next.texts =~= st.texts + texts_of(elem));
        assert(next.importer.unsupported =~= st.importer.unsupported + unsupported_of(elem));
        assert(next.importer.warnings =~= st.importer.warnings + warnings_of(elem));
    }
}

/// Shapes found by the first pass are hit where they lie.
proof fn lemma_hits_found(
    from: ScanView,
    elems: Seq<GdsElementView>,
    to: ScanView,
    text: GdsTextElemView,
    i: int,
)
    requires
        found(from, elems, to),
        from.shapes.len() == 0,
        0 <= i < to.shapes.len(),
    ensures
        hits(text, to.shapes[i]) == lies_inside(text, all_shapes(elems)[i]),
{
    assert(all_shapes(elems)[i].0.layer == to.shapes[0 + i].0);
}

/// Labels are in conflict where two texts inside one shape name different nets.
proof fn lemma_conflict_found(from: ScanView, elems: Seq<GdsElementView>, to: ScanView)
    requires
        found(from, elems, to),
        from.shapes.len() == 0,
        from.texts.len() == 0,
    ensures
        no_conflict(to.shapes, to.texts) <==> !has_short(all_shapes(elems), all_texts(elems)),
{
    let shapes = all_shapes(elems);
    let texts = all_texts(elems);
    assert(to.texts =~= texts);
    if has_short(shapes, texts) {
        let (i, j, k) = choose|i: int, j: int, k: int|
            #![trigger shapes[i], texts[j], texts[k]]
            0 <= i < shapes.len() && 0 <= j < k < texts.len() && lies_inside(texts[j], shapes[i])
                && lies_inside(texts[k], shapes[i]) && net_name(texts[j]) != net_name(texts[k]);
        lemma_hits_found(from, elems, to, texts[j], i);
        lemma_hits_found(from, elems, to, texts[k], i);
        assert(hits(to.texts[j], to.shapes[i]) && hits(to.texts[k], to.shapes[i]));
        assert(!no_conflict(to.shapes, to.texts));
    } else {
        assert forall|i: int, k: int|
            #![trigger to.shapes[i], to.texts[k]]
            0 <= i < to.shapes.len() && 0 <= k < to.texts.len() && hits(
                to.texts[k],
                to.shapes[i],
            ) implies (to.shapes[i].1.net matches Some(net) ==> net == net_name(to.texts[k])) by {
            assert(shapes[i].1 == to.shapes[0 + i].1.inner);
        }
        assert forall|i: int, j: int, k: int|
            #![trigger to.shapes[i], to.texts[j], to.texts[k]]
            0 <= i < to.shapes.len() && 0 <= j < k < to.texts.len() && hits(
                to.texts[j],
                to.shapes[i],
            ) && hits(to.texts[k], to.shapes[i]) implies net_name(to.texts[j]) == net_name(
            to.texts[k],
        ) by {
            lemma_hits_found(from, elems, to, texts[j], i);
            lemma_hits_found(from, elems, to, texts[k], i);
            assert(!has_short(shapes, texts));
        }
    }
}

/// What the two passes make of a struct is an import of it.
proof fn lemma_is_import_of(
    from: ScanView,
    strukt: GdsStructView,
    to: ScanView,
    after: Seq<(i16, ElementView)>,
    annotations: Seq<TextElementView>,
)
    requires
        found(from, strukt.elems, to),
        from.insts.len() == 0,
        from.shapes.len() == 0,
        from.texts.len() == 0,
        distinct(from.importer.layers),
        named(to.shapes, to.texts, after),
        annotations == each(
            to.texts,
            |text: GdsTextElemView| annotations_of(text, to.shapes),
        ),
    ensures
        is_import_of(
            strukt,
            to.importer.layers,
            (CellView {
                name: strukt.name,
                insts: to.insts,
                elems: after.map_values(|shape: (i16, ElementView)| shape.1),
                annotations,
            }),
        ),
{
    let elems = after.map_values(|shape: (i16, ElementView)| shape.1);
    let shapes = all_shapes(strukt.elems);
    let texts = all_texts(strukt.elems);
    assert(to.texts =~= texts);
    assert(to.insts =~= all_instances(strukt.elems));
    assert forall|i: int|
        #![trigger elems[i]]
        0 <= i < shapes.len() implies elems[i].inner == shapes[i].1 && lies_on(
        to.importer.layers,
        elems[i],
        shapes[i].0,
    ) by {
        assert(after[i].1.inner == to.shapes[0 + i].1.inner);
        assert(lies_on(to.importer.layers, to.shapes[0 + i].1, shapes[i].0));
    }
    assert forall|i: int, k: int|
        #![trigger elems[i], texts[k]]
        0 <= i < shapes.len() && 0 <= k < texts.len() && lies_inside(
            texts[k],
            shapes[i],
        ) implies elems[i].net == Some(net_name(texts[k])) by {
        lemma_hits_found(from, strukt.elems, to, texts[k], i);
        assert(after[i].1.net == Some(net_name(to.texts[k])));
    }
    assert forall|i: int|
        #![trigger elems[i]]
        0 <= i < shapes.len() && (forall|k: int|
            0 <= k < texts.len() ==> !lies_inside(#[trigger] texts[k], shapes[i])) implies
        elems[i].net is None by {
        assert forall|k: int| 0 <= k < to.texts.len() implies !hits(
            #[trigger] to.texts[k],
            to.shapes[i],
        ) by {
            lemma_hits_found(from, strukt.elems, to, texts[k], i);
            assert(!lies_inside(texts[k], shapes[i]));
        }
        assert(after[i] == to.shapes[i]);
        assert(shapes[i].1 == to.shapes[0 + i].1.inner);
    }
    let f = |text: GdsTextElemView| annotations_of(text, to.shapes);
    let g = |text: GdsTextElemView| annotation_of(text, shapes);
    assert forall|text: GdsTextElemView| #[trigger] f(text) == g(text) by {
        assert forall|i: int| 0 <= i < shapes.len() implies hits(text, #[trigger] to.shapes[i])
            == lies_inside(text, shapes[i]) by {
            lemma_hits_found(from, strukt.elems, to, text, i);
        }
        if hits_none(text, to.shapes) {
            assert forall|i: int| 0 <= i < shapes.len() implies !lies_inside(
                text,
                #[trigger] shapes[i],
            ) by {
                assert(!hits(text, to.shapes[i]));
            }
        } else {
            let i = choose|i: int| 0 <= i < to.shapes.len() && hits(text, #[trigger] to.shapes[i]);
            assert(lies_inside(text, shapes[i]));
        }
    }
    assert(f =~= g);
}

/// A struct is imported if and only if each of its elements can be, and no shape has two labels
/// that name different nets: whatever was imported before is of no account. It becomes the cell
/// that [`is_import_of`] describes, and what is left out or warned of is added to the importer.
/// A failure says that it arose in that cell, or in contexts inside it.
pub proof fn law_cell(s: GdsImporterView, strukt: GdsStructView)
    requires
        distinct(s.layers),
    ensures
        import_cell_spec(s, strukt).1 is Ok <==> is_sound_struct(strukt),
        match import_cell_spec(s, strukt) {
            (t, Ok(cell)) => {
                &&& carried_on(s, t)
                &&& is_import_of(strukt, t.layers, cell)
                &&& t.unsupported == s.unsupported + all_unsupported(strukt.elems)
                &&& t.warnings == s.warnings + all_warnings(strukt.elems)
            },
            (t, Err(e)) => failed_inside(s.entered(ImportContextView::Cell(strukt.name)), t, e),
        },
{
    let inside = s.entered(ImportContextView::Cell(strukt.name));
    let from = ScanView::start(inside);
    let (to, error) = scan(from, strukt.elems);
    law_scan(from, strukt.elems);
    if error is None {
        law_labels(to.importer, to.shapes, Seq::empty(), to.texts);
        law_label_conflict(to.importer, to.shapes, Seq::empty(), to.texts);
        lemma_conflict_found(from, strukt.elems, to);
        match label_all(to.importer, to.shapes, Seq::empty(), to.texts) {
            Ok((after, annotations)) => {
                let f = |text: GdsTextElemView| annotations_of(text, to.shapes);
                assert(annotations =~= each(to.texts, f));
                lemma_is_import_of(from, strukt, to, after, annotations);
                assert(to.importer.left().ctx_stack =~= s.ctx_stack);
            },
            Err(e) => {},
        }
    }
}

/// A cell stays what it is when layers are added.
pub proof fn lemma_import_extends(
    strukt: GdsStructView,
    old: Seq<LayerView>,
    new: Seq<LayerView>,
    cell: CellView,
)
    requires
        extends(old, new),
        is_import_of(strukt, old, cell),
    ensures
        is_import_of(strukt, new, cell),
{
    let shapes = all_shapes(strukt.elems);
    assert forall|i: int|
        #![trigger cell.elems[i]]
        0 <= i < shapes.len() implies cell.elems[i].inner == shapes[i].1 && lies_on(
        new,
        cell.elems[i],
        shapes[i].0,
    ) by {
        lemma_lies_on_extends(old, new, cell.elems[i], shapes[i].0);
    }
}

/// What is left out of `structs`, in order.
pub open spec fn unsupported_in(structs: Seq<GdsStructView>) -> Seq<GdsElementView> {
    each(structs, |strukt: GdsStructView| all_unsupported(strukt.elems))
}

/// What is warned of for `structs`.
pub open spec fn warnings_in(structs: Seq<GdsStructView>) -> Seq<ImportWarning> {
    each(structs, |strukt: GdsStructView| all_warnings(strukt.elems))
}

/// [`law_cell`] of several structs, one after the other.
proof fn lemma_cells(s: GdsImporterView, done: Seq<CellView>, structs: Seq<GdsStructView>)
    requires
        distinct(s.layers),
    ensures
        import_cells(s, done, structs).1 is Ok <==> (forall|i: int|
            0 <= i < structs.len() ==> is_sound_struct(#[trigger] structs[i])),
        match import_cells(s, done, structs) {
            (t, Ok(cells)) => {
                &&& carried_on(s, t)
                &&& cells.len() == done.len() + structs.len()
                &&& forall|i: int| 0 <= i < done.len() ==> #[trigger] cells[i] == done[i]
                &&& forall|i: int|
                    #![trigger structs[i]]
                    0 <= i < structs.len() ==> is_import_of(
                        structs[i],
                        t.layers,
                        cells[done.len() + i],
                    )
                &&& t.unsupported == s.unsupported + unsupported_in(structs)
                &&& t.warnings == s.warnings + warnings_in(structs)
            },
            (t, Err(e)) => failed_inside(s, t, e),
        },
    decreases structs.len(),
{
    if structs.len() == 0 {
        lemma_extends_self(s.layers);
        assert(s.unsupported + unsupported_in(structs) =~= s.unsupported);
        assert(s.warnings + warnings_in(structs) =~= s.warnings);
    } else {
        let strukt = structs[0];
        let rest = structs.drop_first();
        law_cell(s, strukt);
        match import_cell_spec(s, strukt) {
            (next, Ok(cell)) => {
                lemma_cells(next, done.push(cell), rest);
                match import_cells(next, done.push(cell), rest) {
                    (t, Ok(cells)) => {
                        lemma_carried_on_trans(s, next, t);
                        assert forall|i: int| 0 <= i < structs.len() implies is_sound_struct(
                            #[trigger] structs[i],
                        ) by {
                            if i > 0 {
                                assert(is_sound_struct(rest[i - 1]));
                            }
                        }
                        assert forall|i: int|
                            #![trigger structs[i]]
                            0 <= i < structs.len() implies is_import_of(
                            structs[i],
                            t.layers,
                            cells[done.len() + i],
                        ) by {
                            if i == 0 {
                                assert(cells[done.len() as int] == done.push(
                                    cell,
                                )[done.len() as int]);
                                lemma_import_extends(strukt, next.layers, t.layers, cell);
                            } else {
                                assert(rest[i - 1] == structs[i]);
                            }
                        }
                        assert forall|i: int| 0 <= i < done.len() implies #[trigger] cells[i]
                            == done[i] by {
                            assert(cells[i] == done.push(cell)[i]);
                        }
                        assert(unsupported_in(structs) == all_unsupported(strukt.elems)
                            + unsupported_in(rest));
                        assert(t.unsupported =~= s.unsupported + unsupported_in(structs));
                        assert(warnings_in(structs) == all_warnings(strukt.elems) + warnings_in(
                            rest,
                        ));
                        assert(t.warnings =~= s.warnings + warnings_in(structs));
                    },
                    (t, Err(e)) => {
                        let i = choose|i: int|
                            0 <= i < rest.len() && !is_sound_struct(#[trigger] rest[i]);
                        assert(!is_sound_struct(structs[i + 1]));
                    },
                }
            },
            (next, Err(e)) => {
                assert(!is_sound_struct(structs[0]));
            },
        }
    }
}

/// A library is imported if and only if it has none of the rarer records, its database unit is a
/// supported one, and each of its structs can be imported. It keeps its name, its unit, and its
/// structs, in order, as cells; its layers, no two of which have the same number, and which know
/// every purpose by its number, are those that the shapes of the cells lie on. The elements that
/// are left out are all reported. A failure says that it arose in that library, or in contexts
/// inside it.
pub proof fn law_library(lib: GdsLibraryView)
    ensures
        import_spec(lib).1 is Ok <==> {
            &&& !lib.features.any()
            &&& unit_of(lib.units.db) is Some
            &&& forall|i: int|
                0 <= i < lib.structs.len() ==> is_sound_struct(#[trigger] lib.structs[i])
        },
        match import_spec(lib) {
            (t, Ok(r)) => {
                &&& r.name == lib.name
                &&& unit_of(lib.units.db) == Some(r.units)
                &&& r.libs == 0
                &&& distinct(r.layers)
                &&& purposes_by_number(r.layers)
                &&& r.cells.len() == lib.structs.len()
                &&& forall|i: int|
                    0 <= i < lib.structs.len() ==> is_import_of(
                        lib.structs[i],
                        r.layers,
                        #[trigger] r.cells[i],
                    )
                &&& t.ctx_stack == new_importer(lib.name).ctx_stack
                &&& t.unsupported == unsupported_in(lib.structs)
                &&& t.warnings == warnings_in(lib.structs)
            },
            (t, Err(e)) => failed_inside(new_importer(lib.name), t, e),
        },
{
    let s = new_importer(lib.name);
    lemma_cells(s, Seq::empty(), lib.structs);
    match import_cells(s, Seq::empty(), lib.structs) {
        (t, Ok(cells)) => {
            assert(s.unsupported + unsupported_in(lib.structs) =~= unsupported_in(lib.structs));
            assert(s.warnings + warnings_in(lib.structs) =~= warnings_in(lib.structs));
            assert forall|i: int| 0 <= i < lib.structs.len() implies is_import_of(
                lib.structs[i],
                t.layers,
                #[trigger] cells[i],
            ) by {
                assert(is_import_of(lib.structs[i], t.layers, cells[0 + i]));
            }
        },
        (t, Err(e)) => {},
    }
}

/// All instances of an array lie inside the array: between its origin, the end of its columns and
/// the end of its rows.
pub proof fn law_array_inside(x: GdsArrayRefView, k: int)
    requires
        0 <= k < array_instances(x).len(),
    ensures
        ({
            let p = array_instances(x)[k].p0;
            &&& between(x.xy[0].x as int, x.xy[1].x as int, p.x as int)
            &&& between(x.xy[0].y as int, x.xy[2].y as int, p.y as int)
        }),
{
    let cols = x.cols as int;
    let rows = x.rows as int;
    let col = k / rows;
    let row = k % rows;
    assert(0 <= col < cols && 0 <= row < rows) by (nonlinear_arith)
        requires
            0 <= k < cols * rows,
            0 < rows,
            col == k / rows,
            row == k % rows,
    ;
    lemma_step(x.xy[1].x - x.xy[0].x, cols, col);
    lemma_step(x.xy[2].y - x.xy[0].y, rows, row);
}

} // verus!
