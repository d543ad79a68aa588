//! Laws of the import of cells, told by the elements that go in and what comes out.

use vstd::prelude::*;

use crate::error::ImportContextView;
use crate::error::ImportMessageView;
use crate::error::LayoutErrorView;
use crate::gdsii::GdsElementView;
use crate::gdsii::GdsLibraryView;
use crate::gdsii::GdsStructView;
use crate::gdsii::GdsTextElemView;
use crate::geom::Point;
use crate::geom::ShapeView;
use crate::import::import_instance_array_spec;
use crate::import::point;
use crate::import::points;
use crate::import::GdsImporterView;
use crate::import_cell::import_cell_spec;
use crate::import_cell::scan;
use crate::import_cell::scan_step;
use crate::import_cell::short_text;
use crate::import_cell::unicode_lowercase;
use crate::import_cell::ScanView;
use crate::import_lib::element_importable;
use crate::import_lib::import_cells;
use crate::import_lib::import_spec;
use crate::import_lib::new_importer;
use crate::import_lib::struct_importable;
use crate::laws_elements::asks_absolute;
use crate::laws_elements::fails_in;
use crate::laws_elements::is_at;
use crate::laws_elements::is_boundary_shape;
use crate::laws_elements::is_instance_of;
use crate::laws_elements::law_array_ready;
use crate::laws_elements::lies_at;
use crate::laws_import::all_instances;
use crate::laws_import::all_shapes;
use crate::laws_import::all_texts;
use crate::laws_import::all_unsupported;
use crate::laws_import::annotation_of;
use crate::laws_import::instances_of;
use crate::laws_import::is_sound;
use crate::laws_import::law_cell;
use crate::laws_import::law_library;
use crate::laws_import::law_scan;
use crate::laws_import::law_scan_step;
use crate::laws_import::lies_inside;
use crate::laws_import::shapes_of;
use crate::laws_import::texts_of;
use crate::laws_import::unsupported_of;
use crate::laws_labels::law_label_conflict;
use crate::laws_layers::distinct;
use crate::laws_layers::law_layer_asked;
use crate::laws_layers::law_purpose_of;
use crate::laws_layers::lemma_distinct_len;
use crate::layers::LayerView;
use crate::layout::CellView;
use crate::layout::ElementView;
use crate::layout::LibraryView;
use crate::layout::TextElementView;
use crate::text::decimal;
use crate::views::each;
use crate::views::lemma_each_at;
use crate::views::lemma_each_each;
use crate::views::lemma_each_members;
use crate::views::lemma_each_single;

verus! {

/// How many of the first `k` elements are boundaries, paths or boxes.
pub open spec fn shapes_before(elems: Seq<GdsElementView>, k: int) -> int
    decreases k,
{
    if k <= 0 {
        0
    } else {
        shapes_before(elems, k - 1) + (if elems[k - 1] is GdsBoundary || elems[k - 1] is GdsPath
            || elems[k - 1] is GdsBox {
            1int
        } else {
            0
        })
    }
}

/// How many instances the first `k` elements stand for: a reference for one, and an array for one in
/// each column and row.
pub open spec fn instances_before(elems: Seq<GdsElementView>, k: int) -> int
    decreases k,
{
    if k <= 0 {
        0
    } else {
        instances_before(elems, k - 1) + (match elems[k - 1] {
            GdsElementView::GdsStructRef(_) => 1int,
            GdsElementView::GdsArrayRef(x) => if x.cols > 0 && x.rows > 0 {
                x.cols * x.rows
            } else {
                0
            },
            _ => 0,
        })
    }
}

/// How many of the first `k` elements are nodes.
pub open spec fn nodes_before(elems: Seq<GdsElementView>, k: int) -> int
    decreases k,
{
    if k <= 0 {
        0
    } else {
        nodes_before(elems, k - 1) + (if elems[k - 1] is GdsNode {
            1int
        } else {
            0
        })
    }
}

/// The first `k` elements hold as many shapes, instances and nodes as there are counted.
proof fn lemma_counts(elems: Seq<GdsElementView>, k: int)
    requires
        0 <= k <= elems.len(),
        forall|i: int| 0 <= i < elems.len() ==> is_sound(#[trigger] elems[i]),
    ensures
        all_shapes(elems.take(k)).len() == shapes_before(elems, k),
        all_instances(elems.take(k)).len() == instances_before(elems, k),
        all_unsupported(elems.take(k)).len() == nodes_before(elems, k),
    decreases k,
{
    if k > 0 {
        lemma_counts(elems, k - 1);
        assert(is_sound(elems[k - 1]));
        lemma_each_at(elems, |elem: GdsElementView| shapes_of(elem), k - 1);
        lemma_each_at(elems, |elem: GdsElementView| instances_of(elem), k - 1);
        lemma_each_at(elems, |elem: GdsElementView| unsupported_of(elem), k - 1);
        if let GdsElementView::GdsArrayRef(x) = elems[k - 1] {
            let (cols, rows) = (x.cols as int, x.rows as int);
            assert(cols > 0 && rows > 0 ==> cols * rows > 0) by (nonlinear_arith);
        }
    } else {
        assert(elems.take(0) =~= Seq::<GdsElementView>::empty());
    }
}

/// Each boundary, path and box of an imported struct is a shape of the cell, in order; each reference
/// is an instance, and each array so many of them, in order; each node is left out, and reported;
/// and there is nothing else.
pub proof fn law_cell_elements(s: GdsImporterView, strukt: GdsStructView, k: int)
    requires
        distinct(s.layers),
        struct_importable(strukt),
        import_cell_spec(s, strukt).1 is Ok,
        0 <= k < strukt.elems.len(),
    ensures
        ({
            let (t, r) = import_cell_spec(s, strukt);
            let cell = r->Ok_0;
            let i = shapes_before(strukt.elems, k);
            let n = instances_before(strukt.elems, k);
            let m = s.unsupported.len() + nodes_before(strukt.elems, k);
            &&& cell.name == strukt.name
            &&& cell.elems.len() == shapes_before(strukt.elems, strukt.elems.len() as int)
            &&& cell.insts.len() == instances_before(strukt.elems, strukt.elems.len() as int)
            &&& t.unsupported.len() == s.unsupported.len() + nodes_before(
                strukt.elems,
                strukt.elems.len() as int,
            )
            &&& match strukt.elems[k] {
                GdsElementView::GdsBoundary(x) => {
                    &&& 0 <= i < cell.elems.len()
                    &&& is_boundary_shape(x.xy, cell.elems[i].inner)
                    &&& lies_at(t.layers, cell.elems[i], x.layer, x.datatype)
                },
                GdsElementView::GdsPath(x) => {
                    &&& 0 <= i < cell.elems.len()
                    &&& cell.elems[i].inner matches ShapeView::Path { width, pts } && pts.len()
                        == x.xy.len() && (forall|j: int|
                        0 <= j < pts.len() ==> is_at(#[trigger] pts[j], x.xy[j])) && (x.width->0
                        >= 0 ==> width == x.width->0)
                    &&& lies_at(t.layers, cell.elems[i], x.layer, x.datatype)
                },
                GdsElementView::GdsBox(x) => {
                    &&& 0 <= i < cell.elems.len()
                    &&& cell.elems[i].inner matches ShapeView::Rect { p0, p1 } && is_at(p0, x.xy[0])
                        && is_at(p1, x.xy[2])
                    &&& lies_at(t.layers, cell.elems[i], x.layer, x.boxtype)
                },
                GdsElementView::GdsStructRef(x) => {
                    &&& 0 <= n < cell.insts.len()
                    &&& is_instance_of(cell.insts[n], x.name, x.strans)
                    &&& is_at(cell.insts[n].p0, x.xy)
                },
                GdsElementView::GdsArrayRef(x) => {
                    let insts = import_instance_array_spec(s, x).1->Ok_0;
                    &&& import_instance_array_spec(s, x).1 is Ok
                    &&& 0 <= n <= n + insts.len() <= cell.insts.len()
                    &&& forall|j: int|
                        0 <= j < insts.len() ==> cell.insts[n + j] == #[trigger] insts[j]
                },
                GdsElementView::GdsTextElem(_) => true,
                GdsElementView::GdsNode(_) => {
                    &&& s.unsupported.len() <= m < t.unsupported.len()
                    &&& t.unsupported[m] == strukt.elems[k]
                },
            }
        }),
{
    let (t, r) = import_cell_spec(s, strukt);
    let cell = r->Ok_0;
    let elems = strukt.elems;
    law_cell(s, strukt);
    assert(is_sound(elems[k]));
    assert(element_importable(elems[k]));
    lemma_counts(elems, k);
    lemma_counts(elems, elems.len() as int);
    assert(elems.take(elems.len() as int) =~= elems);
    let fs = |elem: GdsElementView| shapes_of(elem);
    let fi = |elem: GdsElementView| instances_of(elem);
    let fu = |elem: GdsElementView| unsupported_of(elem);
    let shapes = all_shapes(elems);
    let i = shapes_before(elems, k);
    let n = instances_before(elems, k);
    if shapes_of(elems[k]).len() == 1 {
        lemma_each_at(elems, fs, k);
        assert(shapes[i + 0] == fs(elems[k])[0]);
        assert(cell.elems[i].inner == shapes[i].1);
        lemma_lies_at(t.layers, cell.elems[i], shapes[i].0);
    }
    match elems[k] {
        GdsElementView::GdsBoundary(x) => {
            let pts = points(x.xy).drop_last();
            assert forall|j: int| 0 <= j < pts.len() implies is_at(#[trigger] pts[j], x.xy[j]) by {}
            if pts.len() == 4 {
                assert(is_at(pts[0], x.xy[0]) && is_at(pts[1], x.xy[1]) && is_at(pts[2], x.xy[2])
                    && is_at(pts[3], x.xy[3]));
            }
        },
        GdsElementView::GdsStructRef(x) => {
            lemma_each_at(elems, fi, k);
            assert(all_instances(elems)[n + 0] == fi(elems[k])[0]);
        },
        GdsElementView::GdsArrayRef(x) => {
            lemma_each_at(elems, fi, k);
            let insts = import_instance_array_spec(s, x).1->Ok_0;
            assert forall|j: int| 0 <= j < insts.len() implies cell.insts[n + j]
                == #[trigger] insts[j] by {
                assert(fi(elems[k])[j] == insts[j]);
            }
        },
        GdsElementView::GdsNode(_) => {
            lemma_each_at(elems, fu, k);
            let u = nodes_before(elems, k);
            assert(all_unsupported(elems)[u + 0] == fu(elems[k])[0]);
        },
        _ => {},
    }
}

/// What lies on a layer by its numbers, lies there.
proof fn lemma_lies_at(
    layers: Seq<LayerView>,
    elem: ElementView,
    numbers: crate::gdsii::GdsLayerSpec,
)
    requires
        crate::laws_import::lies_on(layers, elem, numbers),
    ensures
        lies_at(layers, elem, numbers.layer, numbers.xtype),
{
    law_purpose_of(layers[elem.layer.index as int].purposes, numbers.xtype);
}

/// `text` lies inside the shape of `elem`, and names the layer that `elem` lies on.
pub open spec fn touches(
    layers: Seq<LayerView>,
    text: GdsTextElemView,
    elem: ElementView,
) -> bool {
    layers[elem.layer.index as int].layernum == text.layer && elem.inner.contains(
        Point { x: text.xy.x as isize, y: text.xy.y as isize },
    )
}

/// The note that a text becomes if it lies inside no shape of its layer in `cell`.
pub open spec fn notes_of(
    elem: GdsElementView,
    layers: Seq<LayerView>,
    cell: CellView,
) -> Seq<TextElementView> {
    match elem {
        GdsElementView::GdsTextElem(text) => if exists|i: int|
            0 <= i < cell.elems.len() && touches(layers, text, #[trigger] cell.elems[i]) {
            Seq::empty()
        } else {
            seq![
                TextElementView {
                    string: text.string,
                    loc: Point { x: text.xy.x as isize, y: text.xy.y as isize },
                },
            ]
        },
        _ => Seq::empty(),
    }
}

/// The shapes of an imported cell have the nets, in lower case, that the texts name which lie inside
/// them, on the layer of the text. A shape that has a net has it from such a text. The texts that lie
/// inside no shape of their layer are the annotations of the cell, in order, and there are no others.
pub proof fn law_cell_labels(s: GdsImporterView, strukt: GdsStructView)
    requires
        distinct(s.layers),
        import_cell_spec(s, strukt).1 is Ok,
    ensures
        ({
            let (t, r) = import_cell_spec(s, strukt);
            let cell = r->Ok_0;
            &&& forall|i: int, k: int|
                #![trigger cell.elems[i], strukt.elems[k]]
                0 <= i < cell.elems.len() && 0 <= k < strukt.elems.len() ==> (
                strukt.elems[k] matches GdsElementView::GdsTextElem(text) ==> (touches(
                    t.layers,
                    text,
                    cell.elems[i],
                ) ==> cell.elems[i].net == Some(unicode_lowercase(text.string))))
            &&& forall|i: int|
                0 <= i < cell.elems.len() && (#[trigger] cell.elems[i]).net is Some ==> exists|
                    k: int,
                |
                    0 <= k < strukt.elems.len() && (
                    #[trigger] strukt.elems[k] matches GdsElementView::GdsTextElem(text)
                        && touches(t.layers, text, cell.elems[i]))
            &&& cell.annotations == each(
                strukt.elems,
                |elem: GdsElementView| notes_of(elem, t.layers, cell),
            )
        }),
{
    let (t, r) = import_cell_spec(s, strukt);
    let cell = r->Ok_0;
    let elems = strukt.elems;
    law_cell(s, strukt);
    let shapes = all_shapes(elems);
    let texts = all_texts(elems);
    let ft = |elem: GdsElementView| texts_of(elem);
    lemma_each_members(elems, ft);
    assert forall|i: int, text: GdsTextElemView|
        0 <= i < cell.elems.len() implies #[trigger] touches(t.layers, text, cell.elems[i])
        == lies_inside(text, shapes[i]) by {
        assert(cell.elems[i].inner == shapes[i].1);
    }
    assert forall|i: int, k: int|
        #![trigger cell.elems[i], elems[k]]
        0 <= i < cell.elems.len() && 0 <= k < elems.len() implies (
    elems[k] matches GdsElementView::GdsTextElem(text) ==> (touches(t.layers, text, cell.elems[i])
        ==> cell.elems[i].net == Some(unicode_lowercase(text.string)))) by {
        if let GdsElementView::GdsTextElem(text) = elems[k] {
            if touches(t.layers, text, cell.elems[i]) {
                assert(ft(elems[k])[0] == text);
                assert(ft(elems[k]).contains(text));
                assert(texts.contains(text));
                let n = choose|n: int| 0 <= n < texts.len() && texts[n] == text;
                assert(lies_inside(texts[n], shapes[i]));
            }
        }
    }
    assert forall|i: int|
        0 <= i < cell.elems.len() && (#[trigger] cell.elems[i]).net is Some implies exists|k: int|
        0 <= k < elems.len() && (#[trigger] elems[k] matches GdsElementView::GdsTextElem(text)
            && touches(t.layers, text, cell.elems[i])) by {
        let n = choose|n: int| 0 <= n < texts.len() && lies_inside(#[trigger] texts[n], shapes[i]);
        let k = choose|k: int| 0 <= k < elems.len() && ft(#[trigger] elems[k]).contains(texts[n]);
        assert(elems[k] is GdsTextElem && elems[k]->GdsTextElem_0 == texts[n]);
        assert(touches(t.layers, texts[n], cell.elems[i]));
    }
    let fa = |text: GdsTextElemView| annotation_of(text, shapes);
    let notes = |elem: GdsElementView| notes_of(elem, t.layers, cell);
    let both = |elem: GdsElementView| each(ft(elem), fa);
    lemma_each_each(elems, ft, fa);
    assert forall|elem: GdsElementView| #[trigger] both(elem) == notes(elem) by {
        if let GdsElementView::GdsTextElem(text) = elem {
            assert(ft(elem) == seq![text]);
            lemma_each_single(text, fa);
            if exists|i: int|
                0 <= i < cell.elems.len() && touches(t.layers, text, #[trigger] cell.elems[i]) {
                let i = choose|i: int|
                    0 <= i < cell.elems.len() && touches(t.layers, text, #[trigger] cell.elems[i]);
                assert(lies_inside(text, shapes[i]));
            } else {
                assert forall|i: int| 0 <= i < shapes.len() implies !lies_inside(
                    text,
                    #[trigger] shapes[i],
                ) by {
                    assert(!touches(t.layers, text, cell.elems[i]));
                }
            }
        } else {
            assert(both(elem) =~= notes(elem));
        }
    }
    assert(both =~= notes);
}

/// `elem` is a boundary that is closed, a path that has a width, a reference that is not absolute, an
/// array that is not either and runs along the axes, or of another kind.
pub open spec fn is_proper(elem: GdsElementView) -> bool {
    match elem {
        GdsElementView::GdsBoundary(x) => x.xy[0] == x.xy[x.xy.len() - 1],
        GdsElementView::GdsPath(x) => x.width is Some,
        GdsElementView::GdsStructRef(x) => !asks_absolute(x.strans),
        GdsElementView::GdsArrayRef(x) => !asks_absolute(x.strans) && x.xy[0].y == x.xy[1].y
            && x.xy[0].x == x.xy[2].x,
        _ => true,
    }
}

/// A struct with at most one text is imported if and only if its elements are proper. With more
/// texts, it is imported only if they are.
pub proof fn law_cell_proper(s: GdsImporterView, strukt: GdsStructView)
    requires
        distinct(s.layers),
    ensures
        import_cell_spec(s, strukt).1 is Ok ==> forall|k: int|
            0 <= k < strukt.elems.len() ==> is_proper(#[trigger] strukt.elems[k]),
        (forall|k: int| 0 <= k < strukt.elems.len() ==> is_proper(#[trigger] strukt.elems[k]))
            && all_texts(strukt.elems).len() <= 1 ==> import_cell_spec(s, strukt).1 is Ok,
{
    law_cell(s, strukt);
    if import_cell_spec(s, strukt).1 is Ok {
        assert forall|k: int| 0 <= k < strukt.elems.len() implies is_proper(
            #[trigger] strukt.elems[k],
        ) by {
            assert(is_sound(strukt.elems[k]));
        }
    } else if forall|k: int|
        0 <= k < strukt.elems.len() ==> is_proper(#[trigger] strukt.elems[k]) {
        assert forall|k: int| 0 <= k < strukt.elems.len() implies is_sound(
            #[trigger] strukt.elems[k],
        ) by {
            assert(is_proper(strukt.elems[k]));
        }
    }
}

/// The error for an element that is not proper, in the contexts of `s`.
pub open spec fn failure_of(s: GdsImporterView, elem: GdsElementView) -> LayoutErrorView {
    match elem {
        GdsElementView::GdsBoundary(_) => fails_in(
            s,
            ImportContextView::Geometry,
            "GDS Boundary must start and end at the same point"@,
        ),
        GdsElementView::GdsPath(_) => fails_in(
            s,
            ImportContextView::Geometry,
            "Invalid nonspecifed GDS Path width "@,
        ),
        GdsElementView::GdsArrayRef(x) => fails_in(
            s,
            ImportContextView::Array(x.name),
            if x.xy[0].y != x.xy[1].y || x.xy[0].x != x.xy[2].x {
                "Invalid Non-Rectangular GDS Array"@
            } else {
                "Unsupported GDSII Instance: Absolute"@
            },
        ),
        GdsElementView::GdsStructRef(x) => fails_in(
            s,
            ImportContextView::Instance(x.name),
            "Unsupported GDSII Instance: Absolute"@,
        ),
        _ => fails_in(s, ImportContextView::Geometry, Seq::empty()),
    }
}

/// Of several elements that are not proper, the first is reported.
proof fn lemma_scan_failure(st: ScanView, elems: Seq<GdsElementView>)
    ensures
        scan(st, elems).1 matches Some(e) ==> exists|k: int|
            0 <= k < elems.len() && !is_proper(#[trigger] elems[k]) && (forall|j: int|
                0 <= j < k ==> is_proper(#[trigger] elems[j])) && e == failure_of(
                st.importer,
                elems[k],
            ),
        scan(st, elems).1 is None ==> scan(st, elems).0.importer.ctx_stack
            == st.importer.ctx_stack,
    decreases elems.len(),
{
    if elems.len() > 0 {
        let (next, error) = scan_step(st, elems[0]);
        lemma_scan_one(st, elems[0]);
        if error is Some {
            assert(!is_proper(elems[0]));
        } else {
            let rest = elems.drop_first();
            lemma_scan_failure(next, rest);
            if let Some(e) = scan(next, rest).1 {
                let k = choose|k: int|
                    0 <= k < rest.len() && !is_proper(#[trigger] rest[k]) && (forall|j: int|
                        0 <= j < k ==> is_proper(#[trigger] rest[j])) && e == failure_of(
                        next.importer,
                        rest[k],
                    );
                assert(!is_proper(elems[k + 1]));
                assert forall|j: int| 0 <= j < k + 1 implies is_proper(#[trigger] elems[j]) by {
                    if j > 0 {
                        assert(is_proper(rest[j - 1]));
                    }
                }
            }
        }
    }
}

/// One element fails as it does by itself.
proof fn lemma_scan_one(st: ScanView, elem: GdsElementView)
    ensures
        scan_step(st, elem).1 matches Some(e) ==> !is_proper(elem) && e == failure_of(
            st.importer,
            elem,
        ),
        scan_step(st, elem).1 is None ==> is_proper(elem) && scan_step(st, elem).0.importer.ctx_stack
            == st.importer.ctx_stack,
{
}

/// A struct that cannot be imported is refused for the first of its elements that is not proper, in
/// the contexts of the importer and of the struct, and if there is none, for labels in conflict.
pub proof fn law_cell_failure(s: GdsImporterView, strukt: GdsStructView)
    requires
        distinct(s.layers),
    ensures
        import_cell_spec(s, strukt).1 matches Err(e) ==> {
            let inside = s.entered(ImportContextView::Cell(strukt.name));
            ||| exists|k: int|
                0 <= k < strukt.elems.len() && !is_proper(#[trigger] strukt.elems[k]) && (forall|
                    j: int,
                | 0 <= j < k ==> is_proper(#[trigger] strukt.elems[j])) && e == failure_of(
                    inside,
                    strukt.elems[k],
                )
            ||| (forall|k: int|
                0 <= k < strukt.elems.len() ==> is_proper(#[trigger] strukt.elems[k]))
                && (e matches LayoutErrorView::Import { stack, .. } && stack == s.ctx_stack.push(
                ImportContextView::Cell(strukt.name),
            ))
        },
{
    let inside = s.entered(ImportContextView::Cell(strukt.name));
    let st = ScanView::start(inside);
    lemma_scan_failure(st, strukt.elems);
    law_scan(st, strukt.elems);
    let (to, error) = scan(st, strukt.elems);
    if error is None {
        law_label_conflict(to.importer, to.shapes, Seq::empty(), to.texts);
        assert forall|k: int| 0 <= k < strukt.elems.len() implies is_proper(
            #[trigger] strukt.elems[k],
        ) by {
            assert(is_sound(strukt.elems[k]));
        }
    }
}

/// The layer and type numbers of a boundary, a path or a box.
pub open spec fn has_numbers(elem: GdsElementView, layernum: i16, xtype: i16) -> bool {
    match elem {
        GdsElementView::GdsBoundary(x) => x.layer == layernum && x.datatype == xtype,
        GdsElementView::GdsPath(x) => x.layer == layernum && x.datatype == xtype,
        GdsElementView::GdsBox(x) => x.layer == layernum && x.boxtype == xtype,
        _ => false,
    }
}

/// The `j`th purpose of the `i`th layer of `new` was there in `old`, or is that of one of `elems`.
pub open spec fn is_called_for(
    old: Seq<LayerView>,
    elems: Seq<GdsElementView>,
    new: Seq<LayerView>,
    i: int,
    j: int,
) -> bool {
    ||| i < old.len() && j < old[i].purposes.len() && old[i].purposes[j] == new[i].purposes[j]
    ||| exists|k: int|
        0 <= k < elems.len() && has_numbers(
            #[trigger] elems[k],
            new[i].layernum,
            new[i].purposes[j].0,
        )
}

/// All layers and purposes of `new` were there in `old`, or are those of `elems`.
pub open spec fn is_accounted(
    old: Seq<LayerView>,
    elems: Seq<GdsElementView>,
    new: Seq<LayerView>,
) -> bool {
    &&& old.len() <= new.len()
    &&& forall|i: int|
        0 <= i < old.len() ==> (#[trigger] new[i]).layernum == old[i].layernum
            && old[i].purposes.is_prefix_of(new[i].purposes)
    &&& forall|i: int| old.len() <= i < new.len() ==> (#[trigger] new[i]).purposes.len() > 0
    &&& forall|i: int, j: int|
        0 <= i < new.len() && 0 <= j < new[i].purposes.len() ==> #[trigger] is_called_for(
            old,
            elems,
            new,
            i,
            j,
        )
}

/// [`is_accounted`] of one element.
proof fn lemma_accounted_one(st: ScanView, elem: GdsElementView)
    requires
        st.importer.layers.len() <= usize::MAX,
        scan_step(st, elem).1 is None,
    ensures
        is_accounted(
            st.importer.layers,
            seq![elem],
            scan_step(st, elem).0.importer.layers,
        ),
{
    let old = st.importer.layers;
    let new = scan_step(st, elem).0.importer.layers;
    let elems = seq![elem];
    match elem {
        GdsElementView::GdsBoundary(x) => law_layer_asked(old, x.layer, x.datatype),
        GdsElementView::GdsPath(x) => law_layer_asked(old, x.layer, x.datatype),
        GdsElementView::GdsBox(x) => law_layer_asked(old, x.layer, x.boxtype),
        _ => {},
    }
    assert forall|i: int, j: int|
        0 <= i < new.len() && 0 <= j < new[i].purposes.len() implies #[trigger] is_called_for(
        old,
        elems,
        new,
        i,
        j,
    ) by {
        if !(i < old.len() && j < old[i].purposes.len() && old[i].purposes[j]
            == new[i].purposes[j]) {
            assert(has_numbers(elems[0], new[i].layernum, new[i].purposes[j].0));
        }
    }
}

/// [`is_accounted`] of the first of `elems`, and then of the others.
proof fn lemma_accounted_step(
    old: Seq<LayerView>,
    mid: Seq<LayerView>,
    new: Seq<LayerView>,
    elems: Seq<GdsElementView>,
)
    requires
        elems.len() > 0,
        is_accounted(old, seq![elems[0]], mid),
        is_accounted(mid, elems.drop_first(), new),
    ensures
        is_accounted(old, elems, new),
{
    let rest = elems.drop_first();
    let first = seq![elems[0]];
    assert forall|i: int| 0 <= i < old.len() implies (#[trigger] new[i]).layernum
        == old[i].layernum && old[i].purposes.is_prefix_of(new[i].purposes) by {
        assert(mid[i].layernum == old[i].layernum);
    }
    assert forall|i: int| old.len() <= i < new.len() implies (
    #[trigger] new[i]).purposes.len() > 0 by {
        if i < mid.len() {
            assert(mid[i].purposes.len() > 0);
            assert(mid[i].purposes.is_prefix_of(new[i].purposes));
        }
    }
    assert forall|i: int, j: int|
        0 <= i < new.len() && 0 <= j < new[i].purposes.len() implies #[trigger] is_called_for(
        old,
        elems,
        new,
        i,
        j,
    ) by {
        assert(is_called_for(mid, rest, new, i, j));
        if i < mid.len() && j < mid[i].purposes.len() && mid[i].purposes[j] == new[i].purposes[j] {
            assert(is_called_for(old, first, mid, i, j));
            assert(new[i].layernum == mid[i].layernum);
            if !(i < old.len() && j < old[i].purposes.len() && old[i].purposes[j]
                == mid[i].purposes[j]) {
                let k = choose|k: int|
                    0 <= k < first.len() && has_numbers(
                        #[trigger] first[k],
                        mid[i].layernum,
                        mid[i].purposes[j].0,
                    );
                assert(has_numbers(elems[0], new[i].layernum, new[i].purposes[j].0));
            }
        } else {
            let k = choose|k: int|
                0 <= k < rest.len() && has_numbers(
                    #[trigger] rest[k],
                    new[i].layernum,
                    new[i].purposes[j].0,
                );
            assert(has_numbers(elems[k + 1], new[i].layernum, new[i].purposes[j].0));
        }
    }
}

/// The first pass adds the layers and purposes of shapes, and no others.
proof fn lemma_accounted(st: ScanView, elems: Seq<GdsElementView>)
    requires
        distinct(st.importer.layers),
        scan(st, elems).1 is None,
    ensures
        is_accounted(st.importer.layers, elems, scan(st, elems).0.importer.layers),
    decreases elems.len(),
{
    if elems.len() > 0 {
        let (next, error) = scan_step(st, elems[0]);
        lemma_distinct_len(st.importer.layers);
        lemma_accounted_one(st, elems[0]);
        law_scan_step(st, elems[0]);
        lemma_accounted(next, elems.drop_first());
        lemma_accounted_step(
            st.importer.layers,
            next.importer.layers,
            scan(st, elems).0.importer.layers,
            elems,
        );
    } else {
        let layers = st.importer.layers;
        assert forall|i: int, j: int|
            0 <= i < layers.len() && 0 <= j < layers[i].purposes.len() implies
            #[trigger] is_called_for(layers, elems, layers, i, j) by {}
    }
}

/// The import of a cell adds the layers and the purposes of its boundaries, paths and boxes, and no
/// others; those that were there stay as they are.
pub proof fn law_cell_layers(s: GdsImporterView, strukt: GdsStructView)
    requires
        distinct(s.layers),
        import_cell_spec(s, strukt).1 is Ok,
    ensures
        is_accounted(s.layers, strukt.elems, import_cell_spec(s, strukt).0.layers),
{
    let st = ScanView::start(s.entered(ImportContextView::Cell(strukt.name)));
    lemma_accounted(st, strukt.elems);
}

/// A library that has any of the rarer records is refused, whatever else it holds.
pub proof fn law_library_records(lib: GdsLibraryView)
    ensures
        (lib.features.libdirsize || lib.features.srfname || lib.features.libsecur
            || lib.features.reflibs || lib.features.fonts || lib.features.attrtable
            || lib.features.generations || lib.features.format_type) <==> import_spec(lib).1 == Err::<
            LibraryView,
            LayoutErrorView,
        >(
            LayoutErrorView::Import {
                stack: seq![ImportContextView::Library(lib.name)],
                message: ImportMessageView::Text("Unsupported GDSII Feature"@),
            },
        ),
{
    law_library(lib);
    if !lib.features.any() {
        lemma_cell_contexts(new_importer(lib.name), Seq::empty(), lib.structs);
    }
}

/// A failure to import one of several structs arises deeper than where their import starts.
proof fn lemma_cell_contexts(
    s: GdsImporterView,
    done: Seq<CellView>,
    structs: Seq<GdsStructView>,
)
    requires
        distinct(s.layers),
    ensures
        import_cells(s, done, structs).1 matches Err(e) ==> (
        e matches LayoutErrorView::Import { stack, .. } && stack.len() > s.ctx_stack.len()),
    decreases structs.len(),
{
    if structs.len() > 0 {
        law_cell(s, structs[0]);
        if let (next, Ok(cell)) = import_cell_spec(s, structs[0]) {
            lemma_cell_contexts(next, done.push(cell), structs.drop_first());
        }
    }
}

/// The message about two labels in conflict names the net that the shape has, the text as it is
/// written, and the layer.
pub proof fn law_short_text(net: Seq<char>, text: GdsTextElemView)
    ensures
        short_text(net, text) == "GDSII labels shorting nets "@ + net + " and "@ + text.string
            + " on layer "@ + decimal(text.layer as int),
{
}

/// A struct of at most 4294967294 elements, each of which has a result when it is imported, has one
/// itself.
pub proof fn law_struct_importable(strukt: GdsStructView)
    requires
        strukt.elems.len() <= 4294967294,
        forall|i: int| 0 <= i < strukt.elems.len() ==> element_importable(#[trigger] strukt.elems[i]),
    ensures
        struct_importable(strukt),
{
}

/// Which elements have a result when they are imported, whatever comes before them: all but
/// boundaries without points, and arrays without columns or rows.
pub proof fn law_element_importable(elem: GdsElementView)
    ensures
        match elem {
            GdsElementView::GdsBoundary(x) => element_importable(elem) <==> x.xy.len() > 0,
            GdsElementView::GdsArrayRef(x) => x.cols > 0 && x.rows > 0 ==> element_importable(elem),
            _ => element_importable(elem),
        },
{
    if let GdsElementView::GdsArrayRef(x) = elem {
        law_array_ready(x);
    }
}

} // verus!
