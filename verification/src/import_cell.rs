//! Import of GDSII cells.
//!
//! A cell is imported in two passes over its elements. The first collects instances and shapes,
//! and puts texts aside. The second sorts out which texts are net labels: a text that lies inside
//! shapes of its layer names the net of each of them, any other text becomes an annotation.

use std::collections::HashMap;
use vstd::prelude::*;

use crate::error::ImportContext;
use crate::error::ImportContextView;
use crate::error::ImportMessage;
use crate::error::LayoutErrorView;
use crate::error::LayoutResult;
use crate::error::result_view;
use crate::gdsii::GdsElement;
use crate::gdsii::GdsElementView;
use crate::gdsii::GdsStruct;
use crate::gdsii::GdsStructView;
use crate::gdsii::GdsTextElem;
use crate::gdsii::GdsTextElemView;
use crate::geom::Point;
use crate::import::array_ready;
use crate::import::import_boundary_spec;
use crate::import::import_box_spec;
use crate::import::import_instance_array_spec;
use crate::import::import_instance_spec;
use crate::import::import_path_spec;
use crate::import::point;
use crate::import::GdsImporter;
use crate::import::GdsImporterView;
use crate::layout::Cell;
use crate::layout::CellView;
use crate::layout::Element;
use crate::layout::ElementView;
use crate::layout::Instance;
use crate::layout::InstanceView;
use crate::layout::TextElement;
use crate::layout::TextElementView;
use crate::slots::slot_entries;
use crate::slots::ElementSlots;
use crate::slots::MAX_ELEMENTS;
use crate::text::append_decimal;
use crate::text::decimal;
use crate::views::lemma_views_add;
use crate::views::lemma_views_push;
use crate::views::views;
use vstd::string::StringExecFns;

verus! {

/// What the first pass has found.
pub struct ScanView {
    pub importer: GdsImporterView,
    pub insts: Seq<InstanceView>,
    /// The shapes, each with the number of its layer.
    pub shapes: Seq<(i16, ElementView)>,
    pub texts: Seq<GdsTextElemView>,
}

impl ScanView {
    /// Nothing has been found yet.
    pub open spec fn start(importer: GdsImporterView) -> ScanView {
        ScanView { importer, insts: Seq::empty(), shapes: Seq::empty(), texts: Seq::empty() }
    }

    /// Another shape, or an error in its place.
    pub open spec fn with_shape(
        self,
        layernum: i16,
        outcome: (GdsImporterView, Result<ElementView, LayoutErrorView>),
    ) -> (ScanView, Option<LayoutErrorView>) {
        match outcome.1 {
            Ok(e) => (
                ScanView { importer: outcome.0, shapes: self.shapes.push((layernum, e)), ..self },
                None,
            ),
            Err(e) => (ScanView { importer: outcome.0, ..self }, Some(e)),
        }
    }

    /// Another instance, or an error in its place.
    pub open spec fn with_instance(
        self,
        outcome: (GdsImporterView, Result<InstanceView, LayoutErrorView>),
    ) -> (ScanView, Option<LayoutErrorView>) {
        match outcome.1 {
            Ok(inst) => (
                ScanView { importer: outcome.0, insts: self.insts.push(inst), ..self },
                None,
            ),
            Err(e) => (ScanView { importer: outcome.0, ..self }, Some(e)),
        }
    }

    /// More instances, or an error in their place.
    pub open spec fn with_instances(
        self,
        outcome: (GdsImporterView, Result<Seq<InstanceView>, LayoutErrorView>),
    ) -> (ScanView, Option<LayoutErrorView>) {
        match outcome.1 {
            Ok(insts) => (
                ScanView { importer: outcome.0, insts: self.insts + insts, ..self },
                None,
            ),
            Err(e) => (ScanView { importer: outcome.0, ..self }, Some(e)),
        }
    }

    /// Another element that is left out.
    pub open spec fn with_unsupported(self, elem: GdsElementView) -> ScanView {
        ScanView {
            importer: GdsImporterView {
                unsupported: self.importer.unsupported.push(elem),
                ..self.importer
            },
            ..self
        }
    }
}

/// The first pass over one element.
pub open spec fn scan_step(st: ScanView, elem: GdsElementView) -> (
    ScanView,
    Option<LayoutErrorView>,
) {
    match elem {
        GdsElementView::GdsBoundary(x) => st.with_shape(
            x.layer,
            import_boundary_spec(st.importer, x),
        ),
        GdsElementView::GdsPath(x) => st.with_shape(x.layer, import_path_spec(st.importer, x)),
        GdsElementView::GdsBox(x) => st.with_shape(x.layer, import_box_spec(st.importer, x)),
        GdsElementView::GdsArrayRef(x) => st.with_instances(
            import_instance_array_spec(st.importer, x),
        ),
        GdsElementView::GdsStructRef(x) => st.with_instance(import_instance_spec(st.importer, x)),
        GdsElementView::GdsTextElem(x) => (ScanView { texts: st.texts.push(x), ..st }, None),
        GdsElementView::GdsNode(_) => (st.with_unsupported(elem), None),
    }
}

/// The first pass over `elems`, up to the first error.
pub open spec fn scan(st: ScanView, elems: Seq<GdsElementView>) -> (
    ScanView,
    Option<LayoutErrorView>,
)
    decreases elems.len(),
{
    if elems.len() == 0 {
        (st, None)
    } else {
        let (next, error) = scan_step(st, elems[0]);
        if error is Some {
            (next, error)
        } else {
            scan(next, elems.drop_first())
        }
    }
}

/// The first pass over one element has a result: a boundary has points, an array has columns and
/// rows, and another shape can be held.
pub open spec fn step_ready(st: ScanView, elem: GdsElementView) -> bool {
    match elem {
        GdsElementView::GdsBoundary(x) => x.xy.len() > 0 && (x.xy[0] == x.xy.last()
            ==> st.shapes.len() < MAX_ELEMENTS),
        GdsElementView::GdsPath(x) => x.width is Some ==> st.shapes.len() < MAX_ELEMENTS,
        GdsElementView::GdsBox(_) => st.shapes.len() < MAX_ELEMENTS,
        GdsElementView::GdsArrayRef(x) => array_ready(x),
        _ => true,
    }
}

/// The first pass over `elems` has a result: each element up to the first error has.
pub open spec fn scan_ready(st: ScanView, elems: Seq<GdsElementView>) -> bool
    decreases elems.len(),
{
    elems.len() == 0 || {
        let (next, error) = scan_step(st, elems[0]);
        step_ready(st, elems[0]) && (error is None ==> scan_ready(next, elems.drop_first()))
    }
}

/// `text` lies inside `shape`, on the same layer.
pub open spec fn hits(text: GdsTextElemView, shape: (i16, ElementView)) -> bool {
    shape.0 == text.layer && shape.1.inner.contains(point(text.xy))
}

/// `text`, which names the net `name`, lies inside `shape`, which belongs to another net.
pub open spec fn shorts(text: GdsTextElemView, name: Seq<char>, shape: (i16, ElementView)) -> bool {
    hits(text, shape) && (shape.1.net matches Some(net) && net != name)
}

/// The first of `shapes` that `text` shorts to the net `name` is the `i`th.
pub open spec fn first_short(
    text: GdsTextElemView,
    name: Seq<char>,
    shapes: Seq<(i16, ElementView)>,
    i: int,
) -> bool {
    &&& 0 <= i < shapes.len()
    &&& shorts(text, name, shapes[i])
    &&& forall|j: int| 0 <= j < i ==> !shorts(text, name, #[trigger] shapes[j])
}

/// What is said of a text that shorts the net `net`.
pub open spec fn short_text(net: Seq<char>, text: GdsTextElemView) -> Seq<char> {
    "GDSII labels shorting nets "@ + net + " and "@ + text.string + " on layer "@ + decimal(
        text.layer as int,
    )
}

/// `shape` with the net `name` if `text` lies inside it.
pub open spec fn labelled(text: GdsTextElemView, name: Seq<char>, shape: (i16, ElementView)) -> (
    i16,
    ElementView,
) {
    if hits(text, shape) {
        (shape.0, ElementView { net: Some(name), ..shape.1 })
    } else {
        shape
    }
}

/// The second pass over one text, which names the net `name`: the shapes and the annotations after
/// it.
pub open spec fn label_step(
    importer: GdsImporterView,
    shapes: Seq<(i16, ElementView)>,
    annotations: Seq<TextElementView>,
    text: GdsTextElemView,
    name: Seq<char>,
) -> Result<(Seq<(i16, ElementView)>, Seq<TextElementView>), LayoutErrorView> {
    if exists|i: int| first_short(text, name, shapes, i) {
        let i = choose|i: int| first_short(text, name, shapes, i);
        Err(importer.failure_text(short_text(shapes[i].1.net.unwrap(), text)))
    } else if exists|i: int| 0 <= i < shapes.len() && hits(text, #[trigger] shapes[i]) {
        Ok((shapes.map_values(|shape: (i16, ElementView)| labelled(text, name, shape)), annotations))
    } else {
        Ok(
            (
                shapes,
                annotations.push(TextElementView { string: text.string, loc: point(text.xy) }),
            ),
        )
    }
}

/// The lower-case equivalent of a text, by Unicode's derived core property Lowercase.
pub uninterp spec fn unicode_lowercase(text: Seq<char>) -> Seq<char>;

/// `str::to_lowercase` gives the lower-case equivalent of a text.
pub assume_specification[ str::to_lowercase ](text: &str) -> (r: String)
    ensures
        r@ == unicode_lowercase(text@),
;

/// The second pass over `texts`, up to the first error. Net names are lower case.
pub open spec fn label_all(
    importer: GdsImporterView,
    shapes: Seq<(i16, ElementView)>,
    annotations: Seq<TextElementView>,
    texts: Seq<GdsTextElemView>,
) -> Result<(Seq<(i16, ElementView)>, Seq<TextElementView>), LayoutErrorView>
    decreases texts.len(),
{
    if texts.len() == 0 {
        Ok((shapes, annotations))
    } else {
        match label_step(
            importer,
            shapes,
            annotations,
            texts[0],
            unicode_lowercase(texts[0].string),
        ) {
            Ok((shapes, annotations)) => label_all(
                importer,
                shapes,
                annotations,
                texts.drop_first(),
            ),
            Err(e) => Err(e),
        }
    }
}

/// The import of a cell.
pub open spec fn import_cell_spec(s: GdsImporterView, strukt: GdsStructView) -> (
    GdsImporterView,
    Result<CellView, LayoutErrorView>,
) {
    let (st, error) = scan(
        ScanView::start(s.entered(ImportContextView::Cell(strukt.name))),
        strukt.elems,
    );
    match error {
        Some(e) => (st.importer, Err(e)),
        None => match label_all(st.importer, st.shapes, Seq::empty(), st.texts) {
            Err(e) => (st.importer, Err(e)),
            Ok((shapes, annotations)) => (
                st.importer.left(),
                Ok(
                    CellView {
                        name: strukt.name,
                        insts: st.insts,
                        elems: shapes.map_values(|shape: (i16, ElementView)| shape.1),
                        annotations,
                    },
                ),
            ),
        },
    }
}

/// The import of a cell has a result.
pub open spec fn cell_ready(s: GdsImporterView, strukt: GdsStructView) -> bool {
    scan_ready(
        ScanView::start(s.entered(ImportContextView::Cell(strukt.name))),
        strukt.elems,
    )
}

/// The places of the shapes on layer `num`, in order.
spec fn positions(shapes: Seq<(i16, ElementView)>, num: i16) -> Seq<int>
    decreases shapes.len(),
{
    if shapes.len() == 0 {
        Seq::empty()
    } else if shapes.last().0 == num {
        positions(shapes.drop_last(), num).push(shapes.len() - 1)
    } else {
        positions(shapes.drop_last(), num)
    }
}

/// `bucket` holds the keys of the entries at the places `at`.
spec fn bucket_holds(bucket: Seq<u64>, entries: Seq<(u64, Element)>, at: Seq<int>) -> bool {
    &&& bucket.len() == at.len()
    &&& forall|j: int| 0 <= j < at.len() ==> #[trigger] bucket[j] == entries[at[j]].0
}

/// `entries` holds `shapes`, and `buckets` the keys of the shapes of each layer.
spec fn table_holds(
    entries: Seq<(u64, Element)>,
    buckets: Map<i16, Vec<u64>>,
    shapes: Seq<(i16, ElementView)>,
) -> bool {
    &&& entries.len() == shapes.len()
    &&& forall|i: int| 0 <= i < shapes.len() ==> (#[trigger] entries[i]).1@ == shapes[i].1
    &&& forall|i: int, j: int|
        0 <= i < j < entries.len() ==> (#[trigger] entries[i]).0 != (#[trigger] entries[j]).0
    &&& forall|num: i16|
        #![trigger buckets.contains_key(num)]
        buckets.contains_key(num) <==> positions(shapes, num).len() > 0
    &&& forall|num: i16|
        #![trigger buckets[num]]
        buckets.contains_key(num) ==> bucket_holds(
            buckets[num]@,
            entries,
            positions(shapes, num),
        )
}

/// The places that [`positions`] gives are in order, and are all the places there are.
proof fn lemma_positions(shapes: Seq<(i16, ElementView)>, num: i16)
    ensures
        forall|j: int|
            0 <= j < positions(shapes, num).len() ==> 0 <= #[trigger] positions(shapes, num)[j]
                < shapes.len() && shapes[positions(shapes, num)[j]].0 == num,
        forall|j: int, k: int|
            0 <= j < k < positions(shapes, num).len() ==> #[trigger] positions(shapes, num)[j]
                < #[trigger] positions(shapes, num)[k],
        forall|i: int|
            0 <= i < shapes.len() && (#[trigger] shapes[i]).0 == num ==> positions(
                shapes,
                num,
            ).contains(i),
    decreases shapes.len(),
{
    if shapes.len() > 0 {
        let rest = shapes.drop_last();
        lemma_positions(rest, num);
        let before = positions(rest, num);
        let after = positions(shapes, num);
        assert forall|i: int| 0 <= i < shapes.len() && (#[trigger] shapes[i]).0 == num implies
            after.contains(i) by {
            if i < rest.len() {
                assert(rest[i].0 == num);
                let j = choose|j: int| 0 <= j < before.len() && before[j] == i;
                assert(after[j] == i);
            } else {
                assert(after[after.len() - 1] == i);
            }
        }
        assert forall|j: int| 0 <= j < after.len() implies 0 <= #[trigger] after[j] < shapes.len()
            && shapes[after[j]].0 == num by {
            if j < before.len() {
                assert(after[j] == before[j]);
                assert(rest[before[j]].0 == num);
            }
        }
        assert forall|j: int, k: int| 0 <= j < k < after.len() implies #[trigger] after[j]
            < #[trigger] after[k] by {
            assert(after[j] == before[j]);
            if k < before.len() {
                assert(after[k] == before[k]);
            }
        }
    }
}

/// Between two neighbouring places of [`positions`] there is no shape on that layer.
proof fn lemma_gap(shapes: Seq<(i16, ElementView)>, num: i16, j: int)
    requires
        0 <= j < positions(shapes, num).len(),
    ensures
        forall|i: int|
            0 <= i < shapes.len() && (#[trigger] shapes[i]).0 == num && (j + 1 >= positions(
                shapes,
                num,
            ).len() || i < positions(shapes, num)[j + 1]) ==> i <= positions(shapes, num)[j],
{
    lemma_positions(shapes, num);
    let at = positions(shapes, num);
    assert forall|i: int|
        0 <= i < shapes.len() && (#[trigger] shapes[i]).0 == num && (j + 1 >= at.len() || i < at[j
            + 1]) implies i <= at[j] by {
        let k = choose|k: int| 0 <= k < at.len() && at[k] == i;
        if k > j + 1 {
            assert(at[j + 1] < at[k]);
        }
        if k < j {
            assert(at[k] < at[j]);
        }
    }
}

/// Shapes on the same layers have the same places.
proof fn lemma_positions_same(
    shapes: Seq<(i16, ElementView)>,
    others: Seq<(i16, ElementView)>,
    num: i16,
)
    requires
        shapes.len() == others.len(),
        forall|i: int| 0 <= i < shapes.len() ==> (#[trigger] shapes[i]).0 == others[i].0,
    ensures
        positions(shapes, num) == positions(others, num),
    decreases shapes.len(),
{
    if shapes.len() > 0 {
        assert forall|i: int| 0 <= i < shapes.len() - 1 implies (#[trigger] shapes.drop_last()[i]).0
            == others.drop_last()[i].0 by {
            assert(shapes[i].0 == others[i].0);
        }
        assert(shapes[shapes.len() - 1].0 == others[shapes.len() - 1].0);
        lemma_positions_same(shapes.drop_last(), others.drop_last(), num);
    }
}

/// There is one first short at most.
proof fn lemma_first_short(
    text: GdsTextElemView,
    name: Seq<char>,
    shapes: Seq<(i16, ElementView)>,
    i: int,
)
    requires
        first_short(text, name, shapes, i),
    ensures
        (choose|i: int| first_short(text, name, shapes, i)) == i,
{
    let k = choose|i: int| first_short(text, name, shapes, i);
    assert(first_short(text, name, shapes, k));
    if k < i {
        assert(!shorts(text, name, shapes[k]));
    }
    if i < k {
        assert(!shorts(text, name, shapes[i]));
    }
}

/// What the first pass has found.
struct Scan<'a> {
    insts: Vec<Instance>,
    texts: Vec<&'a GdsTextElem>,
    slots: ElementSlots,
    /// The keys of the shapes of each layer.
    buckets: HashMap<i16, Vec<u64>>,
}

impl<'a> Scan<'a> {
    spec fn holds(self, st: ScanView) -> bool {
        &&& views(self.insts@) == st.insts
        &&& views(self.texts@) == st.texts
        &&& table_holds(slot_entries(self.slots), self.buckets@, st.shapes)
    }

    fn new(Ghost(importer): Ghost<GdsImporterView>) -> (r: Self)
        ensures
            r.holds(ScanView::start(importer)),
    {
        broadcast use vstd::std_specs::hash::group_hash_axioms;

        let r = Scan {
            insts: Vec::new(),
            texts: Vec::new(),
            slots: ElementSlots::new(),
            buckets: HashMap::new(),
        };
        assert(views(r.insts@) =~= Seq::<InstanceView>::empty());
        assert(views(r.texts@) =~= Seq::<GdsTextElemView>::empty());
        r
    }

    /// Adds the shape `element`, which lies on layer `layernum`.
    fn add_shape(&mut self, layernum: i16, element: Element, Ghost(st): Ghost<ScanView>)
        requires
            old(self).holds(st),
            st.shapes.len() < MAX_ELEMENTS,
        ensures
            final(self).holds(
                ScanView { shapes: st.shapes.push((layernum, element@)), ..st },
            ),
    {
        broadcast use vstd::std_specs::hash::group_hash_axioms;

        let ghost before = slot_entries(self.slots);
        let ghost buckets = self.buckets@;
        let ghost shapes = st.shapes.push((layernum, element@));
        let key = self.slots.insert(element);
        let ghost after = slot_entries(self.slots);
        self.buckets.entry(layernum).or_insert(Vec::new()).push(key);
        proof {
            assert(shapes.drop_last() =~= st.shapes);
            assert forall|num: i16|
                #![trigger self.buckets@[num]]
                self.buckets@.contains_key(num) implies bucket_holds(
                self.buckets@[num]@,
                after,
                positions(shapes, num),
            ) by {
                lemma_positions(st.shapes, num);
                let at = positions(st.shapes, num);
                if buckets.contains_key(num) {
                    assert(bucket_holds(buckets[num]@, before, at));
                    assert forall|j: int| 0 <= j < at.len() implies after[#[trigger] at[j]].0
                        == before[at[j]].0 by {}
                }
            }
            assert forall|num: i16|
                #![trigger self.buckets@.contains_key(num)]
                self.buckets@.contains_key(num) <==> positions(shapes, num).len() > 0 by {
                assert(buckets.contains_key(num) <==> positions(st.shapes, num).len() > 0);
            }
        }
    }
}

impl GdsImporter {
    /// The first pass over one element.
    fn scan_element<'a>(
        &mut self,
        found: &mut Scan<'a>,
        elem: &'a GdsElement,
        Ghost(st): Ghost<ScanView>,
    ) -> (r: LayoutResult<()>)
        requires
            old(found).holds(st),
            st.importer == old(self)@,
            step_ready(st, elem@),
        ensures
            final(self)@ == scan_step(st, elem@).0.importer,
            match r {
                Ok(_) => scan_step(st, elem@).1 is None && final(found).holds(
                    scan_step(st, elem@).0,
                ),
                Err(e) => scan_step(st, elem@).1 == Some(e@),
            },
    {
        let added = match elem {
            GdsElement::GdsBoundary(x) => Some(self.import_boundary(x)?),
            GdsElement::GdsPath(x) => Some(self.import_path(x)?),
            GdsElement::GdsBox(x) => Some(self.import_box(x)?),
            GdsElement::GdsArrayRef(x) => {
                let mut insts = self.import_instance_array(x)?;
                proof {
                    lemma_views_add(found.insts@, insts@);
                }
                found.insts.append(&mut insts);
                None
            },
            GdsElement::GdsStructRef(x) => {
                let inst = self.import_instance(x)?;
                proof {
                    lemma_views_push(found.insts@, inst);
                }
                found.insts.push(inst);
                None
            },
            GdsElement::GdsTextElem(x) => {
                proof {
                    lemma_views_push(found.texts@, x);
                }
                found.texts.push(x);
                None
            },
            // Nodes are fairly rare, and are not supported.
            GdsElement::GdsNode(x) => {
                let node = GdsElement::GdsNode(x.clone());
                proof {
                    lemma_views_push(self.unsupported@, node);
                }
                self.unsupported.push(node);
                None
            },
        };
        if let Some(element) = added {
            let layernum = match self.layers.get(element.layer) {
                Some(layer) => layer.layernum,
                None => {
                    return self.err_text("Internal error: element added to invalid layer");
                },
            };
            found.add_shape(layernum, element, Ghost(st));
        }
        Ok(())
    }

    /// Makes `elem` part of the net that `text` names, which in lower case is `lower_case_name`.
    /// An element that is part of another net already would short the two.
    pub fn assign_net(
        &self,
        elem: &mut Element,
        text: &GdsTextElem,
        lower_case_name: String,
    ) -> (r: LayoutResult<()>)
        ensures
            match old(elem)@.net {
                Some(net) if net != lower_case_name@ => {
                    &&& r matches Err(e) && e@ == self@.failure_text(short_text(net, text@))
                    &&& *final(elem) == *old(elem)
                },
                _ => {
                    &&& r is Ok
                    &&& final(elem)@ == (ElementView {
                        net: Some(lower_case_name@),
                        ..old(elem)@
                    })
                },
            },
    {
        if let Some(net) = &elem.net {
            if !(*net == lower_case_name) {
                let mut message = String::from_str("GDSII labels shorting nets ");
                message.append(net.as_str());
                message.append(" and ");
                message.append(text.string.as_str());
                message.append(" on layer ");
                append_decimal(&mut message, text.layer);
                assert(message@ =~= short_text(net@, text@));
                return self.err(ImportMessage::Text(message));
            }
        }
        elem.net = Some(lower_case_name);
        Ok(())
    }

    /// The second pass over one text, on the shapes of its layer, whose keys `bucket` holds.
    /// Whether the text lies inside any of them.
    fn label_shapes(
        &self,
        slots: &mut ElementSlots,
        bucket: &Vec<u64>,
        text: &GdsTextElem,
        loc: Point,
        Ghost(buckets): Ghost<Map<i16, Vec<u64>>>,
        Ghost(shapes): Ghost<Seq<(i16, ElementView)>>,
    ) -> (r: LayoutResult<bool>)
        requires
            table_holds(slot_entries(*old(slots)), buckets, shapes),
            buckets.contains_key(text.layer),
            *bucket == buckets[text.layer],
            loc == point(text.xy),
        ensures
            match r {
                Ok(hit) => {
                    let name = unicode_lowercase(text.string@);
                    &&& !exists|i: int| first_short(text@, name, shapes, i)
                    &&& hit == exists|i: int|
                        0 <= i < shapes.len() && hits(text@, #[trigger] shapes[i])
                    &&& table_holds(
                        slot_entries(*final(slots)),
                        buckets,
                        shapes.map_values(
                            |shape: (i16, ElementView)| labelled(text@, name, shape),
                        ),
                    )
                },
                Err(e) => exists|i: int|
                    first_short(text@, unicode_lowercase(text.string@), shapes, i) && e@
                        == self@.failure_text(
                        short_text(#[trigger] shapes[i].1.net.unwrap(), text@),
                    ),
            },
    {
        let ghost entries = slot_entries(*slots);
        let ghost name = unicode_lowercase(text.string@);
        let ghost at = positions(shapes, text.layer);
        proof {
            lemma_positions(shapes, text.layer);
        }
        let mut hit = false;
        let mut j: usize = 0;
        while j < bucket.len()
            invariant
                j <= bucket@.len(),
                table_holds(entries, buckets, shapes),
                bucket_holds(bucket@, entries, at),
                at == positions(shapes, text.layer),
                name == unicode_lowercase(text.string@),
                loc == point(text.xy),
                slot_entries(*slots).len() == entries.len(),
                forall|i: int|
                    0 <= i < entries.len() ==> (#[trigger] slot_entries(*slots)[i]).0
                        == entries[i].0,
                forall|i: int|
                    0 <= i < entries.len() ==> (#[trigger] slot_entries(*slots)[i]).1@ == (
                    if j >= at.len() || i < at[j as int] {
                        labelled(text@, name, shapes[i]).1
                    } else {
                        shapes[i].1
                    }),
                forall|i: int|
                    0 <= i < shapes.len() && (j >= at.len() || i < at[j as int]) ==> !shorts(
                        text@,
                        name,
                        #[trigger] shapes[i],
                    ),
                hit == exists|i: int|
                    0 <= i < shapes.len() && (j >= at.len() || i < at[j as int]) && hits(
                        text@,
                        #[trigger] shapes[i],
                    ),
            decreases bucket.len() - j,
        {
            let ghost i0 = at[j as int];
            let ghost now = slot_entries(*slots);
            proof {
                lemma_positions(shapes, text.layer);
                assert(now[i0].0 == bucket@[j as int]);
                lemma_gap(shapes, text.layer, j as int);
            }
            let elem = slots.get_mut(bucket[j]).unwrap();
            assert(elem@ == shapes[i0].1);
            if elem.inner.contains(&loc) {
                assert(hits(text@, shapes[i0]));
                let lower_case_name = text.string.as_str().to_lowercase();
                self.assign_net(elem, text, lower_case_name)?;
                hit = true;
            }
            j += 1;
        }
        proof {
            let after = shapes.map_values(
                |shape: (i16, ElementView)| labelled(text@, name, shape),
            );
            assert forall|num: i16| positions(after, num) == #[trigger] positions(shapes, num) by {
                lemma_positions_same(shapes, after, num);
            }
            assert forall|num: i16|
                #![trigger buckets[num]]
                buckets.contains_key(num) implies bucket_holds(
                buckets[num]@,
                slot_entries(*slots),
                positions(after, num),
            ) by {
                lemma_positions(shapes, num);
                assert(bucket_holds(buckets[num]@, entries, positions(shapes, num)));
            }
        }
        Ok(hit)
    }

    /// The second pass: assigns `texts` to the shapes they lie inside, and gives back the
    /// annotations that the others become.
    fn assign_labels(
        &self,
        slots: &mut ElementSlots,
        buckets: &HashMap<i16, Vec<u64>>,
        texts: &Vec<&GdsTextElem>,
        Ghost(shapes): Ghost<Seq<(i16, ElementView)>>,
    ) -> (r: LayoutResult<Vec<TextElement>>)
        requires
            table_holds(slot_entries(*old(slots)), buckets@, shapes),
        ensures
            match label_all(self@, shapes, Seq::empty(), views(texts@)) {
                Ok((after, annotations)) => {
                    &&& r matches Ok(v) && views(v@) == annotations
                    &&& table_holds(slot_entries(*final(slots)), buckets@, after)
                },
                Err(error) => r matches Err(e) && e@ == error,
            },
    {
        broadcast use vstd::std_specs::hash::group_hash_axioms;

        let ghost all = label_all(self@, shapes, Seq::empty(), views(texts@));
        let ghost mut current = shapes;
        let mut annotations: Vec<TextElement> = Vec::new();
        assert(views(annotations@) =~= Seq::<TextElementView>::empty());
        assert(views(texts@).skip(0) =~= views(texts@));
        let mut k: usize = 0;
        while k < texts.len()
            invariant
                k <= texts@.len(),
                table_holds(slot_entries(*slots), buckets@, current),
                all == label_all(self@, shapes, Seq::empty(), views(texts@)),
                all == label_all(
                    self@,
                    current,
                    views(annotations@),
                    views(texts@).skip(k as int),
                ),
            decreases texts.len() - k,
        {
            let text = texts[k];
            let loc = self.import_point(&text.xy)?;
            let ghost rest = views(texts@).skip(k as int);
            let ghost name = unicode_lowercase(text.string@);
            let ghost before = current;
            assert(rest[0] == text@);
            assert(rest.drop_first() =~= views(texts@).skip(k + 1));
            let mut hit = false;
            if let Some(bucket) = buckets.get(&text.layer) {
                match self.label_shapes(
                    slots,
                    bucket,
                    text,
                    loc,
                    Ghost(buckets@),
                    Ghost(current),
                ) {
                    Ok(h) => {
                        hit = h;
                    },
                    Err(e) => {
                        proof {
                            let i = choose|i: int|
                                first_short(text@, name, current, i) && e@ == self@.failure_text(
                                    short_text(#[trigger] current[i].1.net.unwrap(), text@),
                                );
                            lemma_first_short(text@, name, current, i);
                        }
                        return Err(e);
                    },
                }
                proof {
                    current = current.map_values(
                        |shape: (i16, ElementView)| labelled(text@, name, shape),
                    );
                }
            } else {
                proof {
                    lemma_positions(current, text.layer);
                    assert(positions(current, text.layer).len() == 0);
                    assert forall|i: int| 0 <= i < current.len() implies !hits(
                        text@,
                        #[trigger] current[i],
                    ) by {
                        if current[i].0 == text.layer {
                            assert(positions(current, text.layer).contains(i));
                        }
                    }
                }
            }
            assert(!exists|i: int| first_short(text@, name, before, i));
            if !hit {
                // No hits, or a layer without shapes: the text becomes an annotation.
                assert(current =~= before);
                let annotation = TextElement { string: text.string.clone(), loc };
                proof {
                    lemma_views_push(annotations@, annotation);
                }
                annotations.push(annotation);
            }
            k += 1;
        }
        assert(views(texts@).skip(k as int).len() == 0);
        Ok(annotations)
    }

    /// Imports a cell.
    pub fn import_cell(&mut self, strukt: &GdsStruct) -> (r: LayoutResult<Cell>)
        requires
            cell_ready(old(self)@, strukt@),
        ensures
            (final(self)@, result_view(r)) == import_cell_spec(old(self)@, strukt@),
    {
        self.enter(ImportContext::Cell(strukt.name.clone()));
        let mut found = Scan::new(Ghost(self@));
        let ghost mut st = ScanView::start(self@);
        let ghost all = scan(st, strukt@.elems);
        assert(strukt@.elems.skip(0) =~= strukt@.elems);
        let mut i: usize = 0;
        while i < strukt.elems.len()
            invariant
                i <= strukt.elems@.len(),
                found.holds(st),
                st.importer == self@,
                self@.ctx_stack.len() > 0,
                all == scan(st, strukt@.elems.skip(i as int)),
                scan_ready(st, strukt@.elems.skip(i as int)),
                all == scan(
                    ScanView::start(
                        old(self)@.entered(ImportContextView::Cell(strukt@.name)),
                    ),
                    strukt@.elems,
                ),
            decreases strukt.elems.len() - i,
        {
            let elem = &strukt.elems[i];
            let ghost rest = strukt@.elems.skip(i as int);
            assert(rest[0] == elem@);
            assert(rest.drop_first() =~= strukt@.elems.skip(i + 1));
            self.scan_element(&mut found, elem, Ghost(st))?;
            proof {
                st = scan_step(st, elem@).0;
            }
            i += 1;
        }
        assert(strukt@.elems.skip(i as int).len() == 0);
        let Scan { insts, texts, mut slots, buckets } = found;
        let annotations = self.assign_labels(&mut slots, &buckets, &texts, Ghost(st.shapes))?;
        let ghost shapes = label_all(self@, st.shapes, Seq::empty(), st.texts)->Ok_0.0;
        let elems = slots.into_elements();
        assert(views(elems@) =~= shapes.map_values(|shape: (i16, ElementView)| shape.1));
        self.leave();
        Ok(Cell { name: strukt.name.clone(), insts, elems, annotations })
    }
}

} // verus!
