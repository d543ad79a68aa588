//! Laws of net labels: which texts name which nets, and when two of them are in conflict.

use vstd::prelude::*;

use crate::gdsii::GdsTextElemView;
use crate::import::point;
use crate::import::GdsImporterView;
use crate::import_cell::first_short;
use crate::import_cell::hits;
use crate::import_cell::label_all;
use crate::import_cell::label_step;
use crate::import_cell::labelled;
use crate::import_cell::short_text;
use crate::import_cell::shorts;
use crate::import_cell::unicode_lowercase;
use crate::layout::ElementView;
use crate::layout::TextElementView;
use crate::views::each;

verus! {

/// The net that a text names.
pub open spec fn net_name(text: GdsTextElemView) -> Seq<char> {
    unicode_lowercase(text.string)
}

/// `text` lies inside none of `shapes`.
pub open spec fn hits_none(text: GdsTextElemView, shapes: Seq<(i16, ElementView)>) -> bool {
    forall|i: int| 0 <= i < shapes.len() ==> !hits(text, #[trigger] shapes[i])
}

/// The annotation that `text` becomes if it lies inside none of `shapes`.
pub open spec fn annotations_of(text: GdsTextElemView, shapes: Seq<(i16, ElementView)>) -> Seq<
    TextElementView,
> {
    if hits_none(text, shapes) {
        seq![TextElementView { string: text.string, loc: point(text.xy) }]
    } else {
        Seq::empty()
    }
}

/// Inside no shape is there a text that names another net than the shape has, nor are there two
/// that name different nets.
pub open spec fn no_conflict(
    shapes: Seq<(i16, ElementView)>,
    texts: Seq<GdsTextElemView>,
) -> bool {
    &&& forall|i: int, k: int|
        #![trigger shapes[i], texts[k]]
        0 <= i < shapes.len() && 0 <= k < texts.len() && hits(texts[k], shapes[i]) ==> (
        shapes[i].1.net matches Some(net) ==> net == net_name(texts[k]))
    &&& forall|i: int, j: int, k: int|
        #![trigger shapes[i], texts[j], texts[k]]
        0 <= i < shapes.len() && 0 <= j < k < texts.len() && hits(texts[j], shapes[i]) && hits(
            texts[k],
            shapes[i],
        ) ==> net_name(texts[j]) == net_name(texts[k])
}

/// `after` is `shapes` with the nets that `texts` name.
pub open spec fn named(
    shapes: Seq<(i16, ElementView)>,
    texts: Seq<GdsTextElemView>,
    after: Seq<(i16, ElementView)>,
) -> bool {
    &&& after.len() == shapes.len()
    &&& forall|i: int|
        0 <= i < shapes.len() ==> #[trigger] after[i] == (
            shapes[i].0,
            ElementView { net: after[i].1.net, ..shapes[i].1 },
        )
    &&& forall|i: int, k: int|
        #![trigger after[i], texts[k]]
        0 <= i < shapes.len() && 0 <= k < texts.len() && hits(texts[k], shapes[i])
            ==> after[i].1.net == Some(net_name(texts[k]))
    &&& forall|i: int|
        #![trigger after[i]]
        0 <= i < shapes.len() && (forall|k: int|
            0 <= k < texts.len() ==> !hits(#[trigger] texts[k], shapes[i])) ==> after[i]
            == shapes[i]
}

/// Where there is a short, there is a first one.
proof fn lemma_some_first_short(
    text: GdsTextElemView,
    name: Seq<char>,
    shapes: Seq<(i16, ElementView)>,
    i: int,
)
    requires
        0 <= i < shapes.len(),
        shorts(text, name, shapes[i]),
    ensures
        exists|k: int| first_short(text, name, shapes, k),
    decreases i,
{
    if exists|j: int| 0 <= j < i && shorts(text, name, #[trigger] shapes[j]) {
        let j = choose|j: int| 0 <= j < i && shorts(text, name, #[trigger] shapes[j]);
        lemma_some_first_short(text, name, shapes, j);
    } else {
        assert(first_short(text, name, shapes, i));
    }
}

/// What one text does: without a short, it names the nets of the shapes that it lies inside, or
/// becomes an annotation.
proof fn lemma_label_step(
    importer: GdsImporterView,
    shapes: Seq<(i16, ElementView)>,
    annotations: Seq<TextElementView>,
    text: GdsTextElemView,
)
    ensures
        match label_step(importer, shapes, annotations, text, net_name(text)) {
            Ok((after, more)) => {
                &&& forall|i: int|
                    0 <= i < shapes.len() ==> !shorts(text, net_name(text), #[trigger] shapes[i])
                &&& after.len() == shapes.len()
                &&& forall|i: int|
                    0 <= i < shapes.len() ==> #[trigger] after[i] == labelled(
                        text,
                        net_name(text),
                        shapes[i],
                    )
                &&& more == annotations + annotations_of(text, shapes)
            },
            Err(e) => exists|i: int|
                0 <= i < shapes.len() && shorts(text, net_name(text), #[trigger] shapes[i]) && e
                    == importer.failure_text(short_text(shapes[i].1.net.unwrap(), text)),
        },
{
    let name = net_name(text);
    if exists|i: int| first_short(text, name, shapes, i) {
        let i = choose|i: int| first_short(text, name, shapes, i);
        assert(first_short(text, name, shapes, i));
        assert(shorts(text, name, shapes[i]));
    } else {
        assert forall|i: int| 0 <= i < shapes.len() implies !shorts(
            text,
            name,
            #[trigger] shapes[i],
        ) by {
            if shorts(text, name, shapes[i]) {
                lemma_some_first_short(text, name, shapes, i);
            }
        }
        assert(annotations + Seq::<TextElementView>::empty() =~= annotations);
        let annotation = TextElementView { string: text.string, loc: point(text.xy) };
        assert(annotations + seq![annotation] =~= annotations.push(annotation));
        if !hits_none(text, shapes) {
            let i = choose|i: int| 0 <= i < shapes.len() && hits(text, #[trigger] shapes[i]);
            assert(hits(text, shapes[i]));
        }
    }
}

/// Labels are assigned if and only if they are not in conflict. Then every shape has the net that
/// the texts inside it name, in lower case; a shape without a text inside it is left as it is; and
/// the texts that lie inside no shape become annotations, in order. Nothing but nets changes.
pub proof fn law_labels(
    importer: GdsImporterView,
    shapes: Seq<(i16, ElementView)>,
    annotations: Seq<TextElementView>,
    texts: Seq<GdsTextElemView>,
)
    ensures
        label_all(importer, shapes, annotations, texts) is Ok <==> no_conflict(shapes, texts),
        label_all(importer, shapes, annotations, texts) matches Ok((after, all)) ==> {
            &&& named(shapes, texts, after)
            &&& all == annotations + each(
                texts,
                |text: GdsTextElemView| annotations_of(text, shapes),
            )
        },
    decreases texts.len(),
{
    let f = |text: GdsTextElemView| annotations_of(text, shapes);
    if texts.len() == 0 {
        assert(annotations + each(texts, f) =~= annotations);
    } else {
        let text = texts[0];
        let rest = texts.drop_first();
        lemma_label_step(importer, shapes, annotations, text);
        match label_step(importer, shapes, annotations, text, net_name(text)) {
            Err(e) => {
                let i = choose|i: int|
                    0 <= i < shapes.len() && shorts(text, net_name(text), #[trigger] shapes[i]);
                assert(hits(texts[0], shapes[i]));
                assert(!no_conflict(shapes, texts));
            },
            Ok((next, more)) => {
                law_labels(importer, next, more, rest);
                let g = |text: GdsTextElemView| annotations_of(text, next);
                assert forall|t: GdsTextElemView| #[trigger] f(t) == g(t) by {
                    lemma_same_places(shapes, next, t);
                }
                assert(f =~= g);
                assert((annotations + f(text)) + each(rest, f) =~= annotations + each(texts, f));
                lemma_no_conflict_step(shapes, texts, next);
                if no_conflict(shapes, texts) {
                    let after = label_all(importer, shapes, annotations, texts)->Ok_0.0;
                    lemma_named_step(shapes, texts, next, after);
                }
            },
        }
    }
}

/// Whether a text lies inside shapes does not depend on their nets.
proof fn lemma_same_places(
    shapes: Seq<(i16, ElementView)>,
    others: Seq<(i16, ElementView)>,
    text: GdsTextElemView,
)
    requires
        shapes.len() == others.len(),
        forall|i: int|
            0 <= i < shapes.len() ==> (#[trigger] others[i]).0 == shapes[i].0 && others[i].1.inner
                == shapes[i].1.inner,
    ensures
        annotations_of(text, others) == annotations_of(text, shapes),
{
    if hits_none(text, others) {
        assert forall|i: int| 0 <= i < shapes.len() implies !hits(text, #[trigger] shapes[i]) by {
            assert(!hits(text, others[i]));
        }
    }
    if hits_none(text, shapes) {
        assert forall|i: int| 0 <= i < others.len() implies !hits(text, #[trigger] others[i]) by {
            assert(!hits(text, shapes[i]));
        }
    }
}

/// After the first of `texts` was assigned, the others are in conflict if and only if they were
/// before.
proof fn lemma_no_conflict_step(
    shapes: Seq<(i16, ElementView)>,
    texts: Seq<GdsTextElemView>,
    next: Seq<(i16, ElementView)>,
)
    requires
        texts.len() > 0,
        forall|i: int|
            0 <= i < shapes.len() ==> !shorts(
                texts[0],
                net_name(texts[0]),
                #[trigger] shapes[i],
            ),
        next.len() == shapes.len(),
        forall|i: int|
            0 <= i < shapes.len() ==> #[trigger] next[i] == labelled(
                texts[0],
                net_name(texts[0]),
                shapes[i],
            ),
    ensures
        no_conflict(shapes, texts) <==> no_conflict(next, texts.drop_first()),
{
    let rest = texts.drop_first();
    if no_conflict(shapes, texts) {
        assert forall|i: int, k: int|
            #![trigger next[i], rest[k]]
            0 <= i < next.len() && 0 <= k < rest.len() && hits(rest[k], next[i]) implies (
        next[i].1.net matches Some(net) ==> net == net_name(rest[k])) by {
            assert(rest[k] == texts[k + 1]);
            assert(hits(texts[k + 1], shapes[i]));
            if hits(texts[0], shapes[i]) {
                assert(net_name(texts[0]) == net_name(texts[k + 1]));
            }
        }
        assert forall|i: int, j: int, k: int|
            #![trigger next[i], rest[j], rest[k]]
            0 <= i < next.len() && 0 <= j < k < rest.len() && hits(rest[j], next[i]) && hits(
                rest[k],
                next[i],
            ) implies net_name(rest[j]) == net_name(rest[k]) by {
            assert(rest[j] == texts[j + 1] && rest[k] == texts[k + 1]);
            assert(hits(texts[j + 1], shapes[i]) && hits(texts[k + 1], shapes[i]));
        }
    }
    if no_conflict(next, rest) {
        assert forall|i: int, k: int|
            #![trigger shapes[i], texts[k]]
            0 <= i < shapes.len() && 0 <= k < texts.len() && hits(texts[k], shapes[i]) implies (
        shapes[i].1.net matches Some(net) ==> net == net_name(texts[k])) by {
            assert(!shorts(texts[0], net_name(texts[0]), shapes[i]));
            if k > 0 {
                assert(rest[k - 1] == texts[k]);
                assert(hits(rest[k - 1], next[i]));
            }
        }
        assert forall|i: int, j: int, k: int|
            #![trigger shapes[i], texts[j], texts[k]]
            0 <= i < shapes.len() && 0 <= j < k < texts.len() && hits(texts[j], shapes[i]) && hits(
                texts[k],
                shapes[i],
            ) implies net_name(texts[j]) == net_name(texts[k]) by {
            assert(rest[k - 1] == texts[k]);
            assert(hits(rest[k - 1], next[i]));
            if j > 0 {
                assert(rest[j - 1] == texts[j]);
                assert(hits(rest[j - 1], next[i]));
            }
        }
    }
}

/// To assign the first of `texts` and then the others is to assign them all.
proof fn lemma_named_step(
    shapes: Seq<(i16, ElementView)>,
    texts: Seq<GdsTextElemView>,
    next: Seq<(i16, ElementView)>,
    after: Seq<(i16, ElementView)>,
)
    requires
        texts.len() > 0,
        no_conflict(shapes, texts),
        next.len() == shapes.len(),
        forall|i: int|
            0 <= i < shapes.len() ==> #[trigger] next[i] == labelled(
                texts[0],
                net_name(texts[0]),
                shapes[i],
            ),
        named(next, texts.drop_first(), after),
    ensures
        named(shapes, texts, after),
{
    let rest = texts.drop_first();
    assert forall|i: int| 0 <= i < shapes.len() implies #[trigger] after[i] == (
        shapes[i].0,
        ElementView { net: after[i].1.net, ..shapes[i].1 },
    ) by {
        assert(next[i] == labelled(texts[0], net_name(texts[0]), shapes[i]));
    }
    assert forall|i: int, k: int|
        #![trigger after[i], texts[k]]
        0 <= i < shapes.len() && 0 <= k < texts.len() && hits(texts[k], shapes[i]) implies
        after[i].1.net == Some(net_name(texts[k])) by {
        assert(next[i] == labelled(texts[0], net_name(texts[0]), shapes[i]));
        if k > 0 {
            assert(rest[k - 1] == texts[k]);
            assert(hits(rest[k - 1], next[i]));
        } else if exists|j: int| 0 <= j < rest.len() && hits(#[trigger] rest[j], next[i]) {
            let j = choose|j: int| 0 <= j < rest.len() && hits(#[trigger] rest[j], next[i]);
            assert(rest[j] == texts[j + 1]);
            assert(hits(texts[0], shapes[i]) && hits(texts[j + 1], shapes[i]));
        } else {
            assert(after[i] == next[i]);
        }
    }
    assert forall|i: int|
        #![trigger after[i]]
        0 <= i < shapes.len() && (forall|k: int|
            0 <= k < texts.len() ==> !hits(#[trigger] texts[k], shapes[i])) implies after[i]
        == shapes[i] by {
        assert(!hits(texts[0], shapes[i]));
        assert(next[i] == labelled(texts[0], net_name(texts[0]), shapes[i]));
        assert forall|j: int| 0 <= j < rest.len() implies !hits(#[trigger] rest[j], next[i]) by {
            assert(rest[j] == texts[j + 1]);
        }
    }
}

/// A conflict is reported in the contexts of the importer, for a text inside a shape that has
/// another net, be it from before or from an earlier text.
pub proof fn law_label_conflict(
    importer: GdsImporterView,
    shapes: Seq<(i16, ElementView)>,
    annotations: Seq<TextElementView>,
    texts: Seq<GdsTextElemView>,
)
    ensures
        label_all(importer, shapes, annotations, texts) matches Err(e) ==> exists|
            i: int,
            k: int,
            net: Seq<char>,
        |
            #![trigger shapes[i], short_text(net, texts[k])]
            {
                &&& 0 <= i < shapes.len()
                &&& 0 <= k < texts.len()
                &&& hits(texts[k], shapes[i])
                &&& net != net_name(texts[k])
                &&& shapes[i].1.net == Some(net) || exists|j: int|
                    0 <= j < k && hits(#[trigger] texts[j], shapes[i]) && net_name(texts[j]) == net
                &&& e == importer.failure_text(short_text(net, texts[k]))
            },
    decreases texts.len(),
{
    if texts.len() > 0 {
        let text = texts[0];
        let rest = texts.drop_first();
        lemma_label_step(importer, shapes, annotations, text);
        match label_step(importer, shapes, annotations, text, net_name(text)) {
            Err(e) => {
                let i = choose|i: int|
                    0 <= i < shapes.len() && shorts(text, net_name(text), #[trigger] shapes[i]) && e
                        == importer.failure_text(short_text(shapes[i].1.net.unwrap(), text));
                let net = shapes[i].1.net.unwrap();
                assert(e == importer.failure_text(short_text(net, texts[0])));
            },
            Ok((next, more)) => {
                law_label_conflict(importer, next, more, rest);
                if label_all(importer, next, more, rest) is Err {
                    let e = label_all(importer, next, more, rest)->Err_0;
                    let (i, k, net) = choose|i: int, k: int, net: Seq<char>|
                        #![trigger next[i], short_text(net, rest[k])]
                        {
                            &&& 0 <= i < next.len()
                            &&& 0 <= k < rest.len()
                            &&& hits(rest[k], next[i])
                            &&& net != net_name(rest[k])
                            &&& next[i].1.net == Some(net) || exists|j: int|
                                0 <= j < k && hits(#[trigger] rest[j], next[i]) && net_name(rest[j])
                                    == net
                            &&& e == importer.failure_text(short_text(net, rest[k]))
                        };
                    assert(next[i] == labelled(text, net_name(text), shapes[i]));
                    assert(rest[k] == texts[k + 1]);
                    assert(e == importer.failure_text(short_text(net, texts[k + 1])));
                    assert(hits(texts[k + 1], shapes[i]));
                    if next[i].1.net == Some(net) {
                        if hits(text, shapes[i]) {
                            assert(hits(texts[0], shapes[i]) && net_name(texts[0]) == net);
                        }
                    } else {
                        let j = choose|j: int|
                            0 <= j < k && hits(#[trigger] rest[j], next[i]) && net_name(rest[j])
                                == net;
                        assert(rest[j] == texts[j + 1]);
                        assert(hits(texts[j + 1], shapes[i]) && net_name(texts[j + 1]) == net);
                    }
                }
            },
        }
    }
}

/// Inside the `i`th shape there is the `k`th text, which names another net than the shape has, or than
/// an earlier text inside the shape names.
pub open spec fn conflicts_at(
    shapes: Seq<(i16, ElementView)>,
    texts: Seq<GdsTextElemView>,
    i: int,
    k: int,
) -> bool {
    &&& hits(texts[k], shapes[i])
    &&& (shapes[i].1.net is Some && shapes[i].1.net->0 != net_name(texts[k])) || exists|j: int|
        0 <= j < k && hits(#[trigger] texts[j], shapes[i]) && net_name(texts[j]) != net_name(
            texts[k],
        )
}

/// `net` is the net that the `i`th shape has, or that a text before the `k`th inside it names.
pub open spec fn is_net_before(
    shapes: Seq<(i16, ElementView)>,
    texts: Seq<GdsTextElemView>,
    i: int,
    k: int,
    net: Seq<char>,
) -> bool {
    shapes[i].1.net == Some(net) || exists|j: int|
        0 <= j < k && hits(#[trigger] texts[j], shapes[i]) && net_name(texts[j]) == net
}

/// Of several conflicts, that of the first text is reported, and of that the one in the first shape,
/// with the net that this shape had until then.
pub proof fn law_label_first(
    importer: GdsImporterView,
    shapes: Seq<(i16, ElementView)>,
    annotations: Seq<TextElementView>,
    texts: Seq<GdsTextElemView>,
)
    ensures
        label_all(importer, shapes, annotations, texts) matches Err(e) ==> exists|
            i: int,
            k: int,
            net: Seq<char>,
        |
            #![trigger conflicts_at(shapes, texts, i, k), short_text(net, texts[k])]
            {
                &&& 0 <= i < shapes.len()
                &&& 0 <= k < texts.len()
                &&& conflicts_at(shapes, texts, i, k)
                &&& is_net_before(shapes, texts, i, k, net)
                &&& net != net_name(texts[k])
                &&& forall|g: int, h: int|
                    0 <= g < shapes.len() && 0 <= h < k ==> !(#[trigger] conflicts_at(
                        shapes,
                        texts,
                        g,
                        h,
                    ))
                &&& forall|g: int|
                    0 <= g < i ==> !(#[trigger] conflicts_at(shapes, texts, g, k))
                &&& e == importer.failure_text(short_text(net, texts[k]))
            },
    decreases texts.len(),
{
    if texts.len() > 0 && label_all(importer, shapes, annotations, texts) is Err {
        let e = label_all(importer, shapes, annotations, texts)->Err_0;
        let text = texts[0];
        let name = net_name(text);
        let rest = texts.drop_first();
        lemma_label_step(importer, shapes, annotations, text);
        match label_step(importer, shapes, annotations, text, name) {
            Err(_) => {
                let i = choose|i: int| first_short(text, name, shapes, i);
                assert(first_short(text, name, shapes, i)) by {
                    let j = choose|j: int|
                        0 <= j < shapes.len() && shorts(text, name, #[trigger] shapes[j]);
                    lemma_some_first_short(text, name, shapes, j);
                }
                let net = shapes[i].1.net.unwrap();
                assert(conflicts_at(shapes, texts, i, 0));
                assert forall|g: int| 0 <= g < i implies !(#[trigger] conflicts_at(
                    shapes,
                    texts,
                    g,
                    0,
                )) by {
                    assert(!shorts(text, name, shapes[g]));
                }
                assert(e == importer.failure_text(short_text(net, texts[0])));
            },
            Ok((next, more)) => {
                law_label_first(importer, next, more, rest);
                let (i, k, net) = choose|i: int, k: int, net: Seq<char>|
                    #![trigger conflicts_at(next, rest, i, k), short_text(net, rest[k])]
                    {
                        &&& 0 <= i < next.len()
                        &&& 0 <= k < rest.len()
                        &&& conflicts_at(next, rest, i, k)
                        &&& is_net_before(next, rest, i, k, net)
                        &&& net != net_name(rest[k])
                        &&& forall|g: int, h: int|
                            0 <= g < next.len() && 0 <= h < k ==> !(#[trigger] conflicts_at(
                                next,
                                rest,
                                g,
                                h,
                            ))
                        &&& forall|g: int|
                            0 <= g < i ==> !(#[trigger] conflicts_at(next, rest, g, k))
                        &&& e == importer.failure_text(short_text(net, rest[k]))
                    };
                assert forall|g: int, h: int|
                    0 <= g < shapes.len() && 0 <= h < rest.len() implies #[trigger] conflicts_at(
                    next,
                    rest,
                    g,
                    h,
                ) == conflicts_at(shapes, texts, g, h + 1) by {
                    lemma_conflict_later(shapes, texts, next, g, h);
                }
                assert(conflicts_at(next, rest, i, k));
                assert(conflicts_at(shapes, texts, i, k + 1));
                assert(is_net_before(shapes, texts, i, k + 1, net)) by {
                    assert(next[i] == labelled(text, name, shapes[i]));
                    if next[i].1.net == Some(net) {
                        if hits(text, shapes[i]) {
                            assert(hits(texts[0], shapes[i]) && net_name(texts[0]) == net);
                        }
                    } else {
                        let j = choose|j: int|
                            0 <= j < k && hits(#[trigger] rest[j], next[i]) && net_name(rest[j])
                                == net;
                        assert(rest[j] == texts[j + 1]);
                        assert(hits(texts[j + 1], shapes[i]));
                    }
                }
                assert(rest[k] == texts[k + 1]);
                assert forall|g: int, h: int|
                    0 <= g < shapes.len() && 0 <= h < k + 1 implies !(#[trigger] conflicts_at(
                    shapes,
                    texts,
                    g,
                    h,
                )) by {
                    if h > 0 {
                        assert(!conflicts_at(next, rest, g, h - 1));
                    } else {
                        assert(!shorts(text, name, shapes[g]));
                    }
                }
                assert forall|g: int| 0 <= g < i implies !(#[trigger] conflicts_at(
                    shapes,
                    texts,
                    g,
                    k + 1,
                )) by {
                    assert(!conflicts_at(next, rest, g, k));
                }
                assert(e == importer.failure_text(short_text(net, texts[k + 1])));
            },
        }
    }
}

/// After the first text was assigned, the others are in conflict where they were.
proof fn lemma_conflict_later(
    shapes: Seq<(i16, ElementView)>,
    texts: Seq<GdsTextElemView>,
    next: Seq<(i16, ElementView)>,
    g: int,
    h: int,
)
    requires
        texts.len() > 0,
        0 <= g < shapes.len(),
        0 <= h < texts.len() - 1,
        !shorts(texts[0], net_name(texts[0]), shapes[g]),
        next[g] == labelled(texts[0], net_name(texts[0]), shapes[g]),
    ensures
        conflicts_at(next, texts.drop_first(), g, h) == conflicts_at(shapes, texts, g, h + 1),
{
    let rest = texts.drop_first();
    assert(rest[h] == texts[h + 1]);
    assert(hits(rest[h], next[g]) == hits(texts[h + 1], shapes[g]));
    if conflicts_at(next, rest, g, h) {
        if next[g].1.net is Some && next[g].1.net->0 != net_name(rest[h]) {
            if hits(texts[0], shapes[g]) {
                assert(net_name(texts[0]) != net_name(texts[h + 1]));
            }
        } else {
            let j = choose|j: int|
                0 <= j < h && hits(#[trigger] rest[j], next[g]) && net_name(rest[j]) != net_name(
                    rest[h],
                );
            assert(rest[j] == texts[j + 1]);
            assert(hits(texts[j + 1], shapes[g]));
        }
    }
    if conflicts_at(shapes, texts, g, h + 1) {
        if shapes[g].1.net is Some && shapes[g].1.net->0 != net_name(texts[h + 1]) {
        } else {
            let j = choose|j: int|
                0 <= j < h + 1 && hits(#[trigger] texts[j], shapes[g]) && net_name(texts[j])
                    != net_name(texts[h + 1]);
            if j > 0 {
                assert(rest[j - 1] == texts[j]);
                assert(hits(rest[j - 1], next[g]));
            }
        }
    }
}

} // verus!
