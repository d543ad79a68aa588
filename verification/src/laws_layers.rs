//! Laws of the layer table: what finding or creating a layer keeps.

use vstd::prelude::*;

use crate::layers::layer_at;
use crate::layers::layer_index;
use crate::layers::lemma_layer_index;
use crate::layers::number_of;
use crate::layers::purpose_of;
use crate::layers::with_layer_purpose;
use crate::layers::LayerKey;
use crate::layers::LayerPurpose;
use crate::layers::LayerView;

verus! {

/// Whatever number or purpose can be looked up in `old`, can be looked up in `new` under the same
/// key, with the same answer.
pub open spec fn extends(old: Seq<LayerView>, new: Seq<LayerView>) -> bool {
    &&& old.len() <= new.len()
    &&& forall|i: int|
        0 <= i < old.len() ==> (#[trigger] new[i]).layernum == old[i].layernum && new_purposes_only(
            old[i].purposes,
            new[i].purposes,
        )
}

/// `new` gives the numbers that `old` knows the purposes that they have in `old`.
pub open spec fn new_purposes_only(
    old: Seq<(i16, LayerPurpose)>,
    new: Seq<(i16, LayerPurpose)>,
) -> bool {
    forall|num: i16|
        #![trigger purpose_of(new, num)]
        purpose_of(old, num) is Some ==> purpose_of(new, num) == purpose_of(old, num)
}

/// No two layers have the same number.
pub open spec fn distinct(layers: Seq<LayerView>) -> bool {
    forall|i: int, j: int|
        0 <= i < j < layers.len() ==> (#[trigger] layers[i]).layernum != (
        #[trigger] layers[j]).layernum
}

/// Every purpose is known by its number alone, and by that of its own.
pub open spec fn purposes_by_number(layers: Seq<LayerView>) -> bool {
    forall|i: int, j: int|
        #![trigger layers[i].purposes[j]]
        0 <= i < layers.len() && 0 <= j < layers[i].purposes.len()
            ==> layers[i].purposes[j].1 == LayerPurpose::Other(layers[i].purposes[j].0)
}

/// Layers are created if they do not already exist: asked for a layer and a purpose by their
/// numbers, the table has that layer under the key it gives, and there that purpose under that
/// number.
pub proof fn law_layer_found(layers: Seq<LayerView>, layernum: i16, xtype: i16)
    requires
        layers.len() <= usize::MAX,
    ensures
        ({
            let (after, key, purpose) = with_layer_purpose(layers, layernum, xtype);
            layer_at(after, key) matches Some(layer) && layer.layernum == layernum && purpose_of(
                layer.purposes,
                xtype,
            ) == Some(purpose)
        }),
{
    lemma_layer_index(layers, layernum);
}

/// Nothing that was in the table is lost or changed by asking for a layer.
pub proof fn law_layers_kept(layers: Seq<LayerView>, layernum: i16, xtype: i16)
    ensures
        extends(layers, with_layer_purpose(layers, layernum, xtype).0),
{
    lemma_layer_index(layers, layernum);
    let after = with_layer_purpose(layers, layernum, xtype).0;
    assert forall|i: int| 0 <= i < layers.len() implies (#[trigger] after[i]).layernum
        == layers[i].layernum && new_purposes_only(layers[i].purposes, after[i].purposes) by {
        let old = layers[i].purposes;
        let pushed = old.push((xtype, LayerPurpose::Other(xtype)));
        assert(pushed.drop_last() =~= old);
    }
}

/// Asking again for the same layer and purpose gives the same answer, and changes nothing.
pub proof fn law_layer_stable(layers: Seq<LayerView>, layernum: i16, xtype: i16)
    requires
        layers.len() <= usize::MAX,
    ensures
        ({
            let (after, key, purpose) = with_layer_purpose(layers, layernum, xtype);
            with_layer_purpose(after, layernum, xtype) == (after, key, purpose)
        }),
{
    let (after, key, purpose) = with_layer_purpose(layers, layernum, xtype);
    law_layer_found(layers, layernum, xtype);
    lemma_layer_index(layers, layernum);
    lemma_layer_index(after, layernum);
    lemma_same_index(layers, layernum, xtype);
    let layer = after[key.index as int];
    assert(after.update(key.index as int, layer) =~= after);
}

/// After a layer was asked for, its number is found where it was put.
proof fn lemma_same_index(layers: Seq<LayerView>, layernum: i16, xtype: i16)
    requires
        layers.len() <= usize::MAX,
    ensures
        ({
            let (after, key, purpose) = with_layer_purpose(layers, layernum, xtype);
            layer_index(after, layernum) == Some(key.index as int)
        }),
{
    let (after, key, purpose) = with_layer_purpose(layers, layernum, xtype);
    lemma_layer_index(layers, layernum);
    match layer_index(layers, layernum) {
        Some(i) => {
            lemma_index_by_number(layers, after, layernum);
        },
        None => {
            assert(after.last().layernum == layernum);
        },
    }
}

/// What place a number has depends on the numbers alone.
proof fn lemma_index_by_number(layers: Seq<LayerView>, others: Seq<LayerView>, num: i16)
    requires
        layers.len() == others.len(),
        forall|i: int|
            0 <= i < layers.len() ==> (#[trigger] layers[i]).layernum == others[i].layernum,
    ensures
        layer_index(layers, num) == layer_index(others, num),
    decreases layers.len(),
{
    if layers.len() > 0 {
        assert(layers[layers.len() - 1].layernum == others[layers.len() - 1].layernum);
        assert forall|i: int| 0 <= i < layers.len() - 1 implies (
        #[trigger] layers.drop_last()[i]).layernum == others.drop_last()[i].layernum by {
            assert(layers[i].layernum == others[i].layernum);
        }
        lemma_index_by_number(layers.drop_last(), others.drop_last(), num);
    }
}

/// As long as layers are only asked for, no two have the same number.
pub proof fn law_layers_distinct(layers: Seq<LayerView>, layernum: i16, xtype: i16)
    requires
        distinct(layers),
    ensures
        distinct(with_layer_purpose(layers, layernum, xtype).0),
{
    lemma_layer_index(layers, layernum);
}

/// As long as layers are only asked for, every purpose is known by its number alone.
pub proof fn law_purposes_by_number(layers: Seq<LayerView>, layernum: i16, xtype: i16)
    requires
        purposes_by_number(layers),
    ensures
        purposes_by_number(with_layer_purpose(layers, layernum, xtype).0),
{
    lemma_layer_index(layers, layernum);
    let after = with_layer_purpose(layers, layernum, xtype).0;
    assert forall|i: int, j: int|
        #![trigger after[i].purposes[j]]
        0 <= i < after.len() && 0 <= j < after[i].purposes.len() implies after[i].purposes[j].1
        == LayerPurpose::Other(after[i].purposes[j].0) by {
        if i < layers.len() && j < layers[i].purposes.len() {
            assert(after[i].purposes[j] == layers[i].purposes[j]);
        }
    }
}

/// Where every purpose is known by its number alone, a purpose that is found by its number has that
/// number.
pub proof fn law_purpose_number(pairs: Seq<(i16, LayerPurpose)>, num: i16)
    requires
        forall|j: int|
            0 <= j < pairs.len() ==> (#[trigger] pairs[j]).1 == LayerPurpose::Other(pairs[j].0),
    ensures
        purpose_of(pairs, num) matches Some(purpose) ==> purpose == LayerPurpose::Other(num)
            && number_of(pairs, purpose) == Some(num),
    decreases pairs.len(),
{
    if pairs.len() > 0 {
        assert(pairs[pairs.len() - 1].1 == LayerPurpose::Other(pairs[pairs.len() - 1].0));
        assert forall|j: int| 0 <= j < pairs.len() - 1 implies (#[trigger] pairs.drop_last()[j]).1
            == LayerPurpose::Other(pairs.drop_last()[j].0) by {
            assert(pairs[j].1 == LayerPurpose::Other(pairs[j].0));
        }
        law_purpose_number(pairs.drop_last(), num);
    }
}

/// There are no more layers than there are layer numbers.
pub proof fn lemma_distinct_len(layers: Seq<LayerView>)
    requires
        distinct(layers),
    ensures
        layers.len() <= 0x1_0000,
{
    let nums = layers.map_values(|layer: LayerView| layer.layernum as int);
    assert(nums.no_duplicates()) by {
        assert forall|i: int, j: int|
            0 <= i < nums.len() && 0 <= j < nums.len() && i != j implies nums[i] != nums[j] by {
            if i < j {
                assert(layers[i].layernum != layers[j].layernum);
            } else {
                assert(layers[j].layernum != layers[i].layernum);
            }
        }
    }
    nums.unique_seq_to_set();
    let all = vstd::set_lib::set_int_range(-0x8000, 0x8000);
    vstd::set_lib::lemma_int_range(-0x8000, 0x8000);
    assert(nums.to_set().subset_of(all)) by {
        assert forall|n: int| nums.to_set().contains(n) implies all.contains(n) by {
            let i = choose|i: int| 0 <= i < nums.len() && nums[i] == n;
            assert(nums[i] == layers[i].layernum);
        }
    }
    vstd::set_lib::lemma_len_subset(nums.to_set(), all);
}

/// A table extends itself.
pub proof fn lemma_extends_self(layers: Seq<LayerView>)
    ensures
        extends(layers, layers),
{
}

/// Extending is transitive.
pub proof fn lemma_extends_trans(a: Seq<LayerView>, b: Seq<LayerView>, c: Seq<LayerView>)
    requires
        extends(a, b),
        extends(b, c),
    ensures
        extends(a, c),
{
    assert forall|i: int| 0 <= i < a.len() implies (#[trigger] c[i]).layernum == a[i].layernum
        && new_purposes_only(a[i].purposes, c[i].purposes) by {
        assert(b[i].layernum == a[i].layernum);
        assert forall|num: i16|
            #![trigger purpose_of(c[i].purposes, num)]
            purpose_of(a[i].purposes, num) is Some implies purpose_of(c[i].purposes, num)
            == purpose_of(a[i].purposes, num) by {
            assert(purpose_of(b[i].purposes, num) == purpose_of(a[i].purposes, num));
        }
    }
}

/// The `i`th of `pairs` is the last one for `purpose`.
pub open spec fn is_last_for(pairs: Seq<(i16, LayerPurpose)>, purpose: LayerPurpose, i: int) -> bool {
    &&& 0 <= i < pairs.len()
    &&& pairs[i].1 == purpose
    &&& forall|j: int| i < j < pairs.len() ==> (#[trigger] pairs[j]).1 != purpose
}

/// The `i`th of `pairs` is the last one with the number `num`.
pub open spec fn is_last_with(pairs: Seq<(i16, LayerPurpose)>, num: i16, i: int) -> bool {
    &&& 0 <= i < pairs.len()
    &&& pairs[i].0 == num
    &&& forall|j: int| i < j < pairs.len() ==> (#[trigger] pairs[j]).0 != num
}

/// The `i`th of `layers` is the last one with the number `num`.
pub open spec fn is_last_layer(layers: Seq<LayerView>, num: i16, i: int) -> bool {
    &&& 0 <= i < layers.len()
    &&& layers[i].layernum == num
    &&& forall|j: int| i < j < layers.len() ==> (#[trigger] layers[j]).layernum != num
}

/// The number of a purpose, whichever it is, is the one that this very purpose was last given. It
/// has none if and only if it was never given one.
pub proof fn law_number_of(pairs: Seq<(i16, LayerPurpose)>, purpose: LayerPurpose)
    ensures
        match number_of(pairs, purpose) {
            Some(num) => exists|i: int|
                #[trigger] is_last_for(pairs, purpose, i) && pairs[i].0 == num,
            None => forall|i: int| 0 <= i < pairs.len() ==> (#[trigger] pairs[i]).1 != purpose,
        },
    decreases pairs.len(),
{
    if pairs.len() > 0 {
        let n = pairs.len() as int;
        if pairs.last().1 == purpose {
            assert(is_last_for(pairs, purpose, n - 1));
        } else {
            let short = pairs.drop_last();
            law_number_of(short, purpose);
            match number_of(short, purpose) {
                Some(num) => {
                    let i = choose|i: int|
                        #[trigger] is_last_for(short, purpose, i) && short[i].0 == num;
                    assert forall|j: int| i < j < n implies (#[trigger] pairs[j]).1 != purpose by {
                        if j < n - 1 {
                            assert(short[j].1 != purpose);
                        }
                    }
                    assert(is_last_for(pairs, purpose, i));
                },
                None => {
                    assert forall|i: int| 0 <= i < n implies (#[trigger] pairs[i]).1 != purpose by {
                        if i < n - 1 {
                            assert(short[i].1 != purpose);
                        }
                    }
                },
            }
        }
    }
}

/// The purpose of a number is the one that was last given this very number. There is none if and
/// only if the number was never given.
pub proof fn law_purpose_of(pairs: Seq<(i16, LayerPurpose)>, num: i16)
    ensures
        match purpose_of(pairs, num) {
            Some(purpose) => exists|i: int|
                #[trigger] is_last_with(pairs, num, i) && pairs[i].1 == purpose,
            None => forall|i: int| 0 <= i < pairs.len() ==> (#[trigger] pairs[i]).0 != num,
        },
    decreases pairs.len(),
{
    if pairs.len() > 0 {
        let n = pairs.len() as int;
        if pairs.last().0 == num {
            assert(is_last_with(pairs, num, n - 1));
        } else {
            let short = pairs.drop_last();
            law_purpose_of(short, num);
            match purpose_of(short, num) {
                Some(purpose) => {
                    let i = choose|i: int|
                        #[trigger] is_last_with(short, num, i) && short[i].1 == purpose;
                    assert forall|j: int| i < j < n implies (#[trigger] pairs[j]).0 != num by {
                        if j < n - 1 {
                            assert(short[j].0 != num);
                        }
                    }
                    assert(is_last_with(pairs, num, i));
                },
                None => {
                    assert forall|i: int| 0 <= i < n implies (#[trigger] pairs[i]).0 != num by {
                        if i < n - 1 {
                            assert(short[i].0 != num);
                        }
                    }
                },
            }
        }
    }
}

/// The layer of a number is the last one that has it. There is none if and only if no layer has.
pub proof fn law_layer_index(layers: Seq<LayerView>, num: i16)
    ensures
        match layer_index(layers, num) {
            Some(i) => is_last_layer(layers, num, i),
            None => forall|i: int| 0 <= i < layers.len() ==> (#[trigger] layers[i]).layernum != num,
        },
    decreases layers.len(),
{
    if layers.len() > 0 && layers.last().layernum != num {
        let n = layers.len() as int;
        let short = layers.drop_last();
        law_layer_index(short, num);
        assert forall|j: int| 0 <= j < n && (j == n - 1 || short[j].layernum != num) implies (
        #[trigger] layers[j]).layernum != num by {}
        if let Some(i) = layer_index(short, num) {
            assert forall|j: int| i < j < n implies (#[trigger] layers[j]).layernum != num by {
                if j < n - 1 {
                    assert(short[j].layernum != num);
                }
            }
        } else {
            assert forall|j: int| 0 <= j < n implies (#[trigger] layers[j]).layernum != num by {
                if j < n - 1 {
                    assert(short[j].layernum != num);
                }
            }
        }
    }
}

/// A key stands for the layer at its place, and for none where there is no such place.
pub proof fn law_layer_at(layers: Seq<LayerView>, key: LayerKey)
    ensures
        layer_at(layers, key) is Some <==> key.index < layers.len(),
        key.index < layers.len() ==> layer_at(layers, key) == Some(layers[key.index as int]),
{
}

/// What asking for a layer and a purpose by their numbers does. A layer that there is not yet is
/// added behind the others, with that one purpose. Of a layer that there is, the last one with the
/// number is taken; a purpose that it knows is given as it is, and one that it does not know is
/// added behind its others. A purpose that is added is known by its number. Nothing else changes.
pub proof fn law_layer_asked(layers: Seq<LayerView>, layernum: i16, xtype: i16)
    requires
        layers.len() <= usize::MAX,
    ensures
        ({
            let (after, key, purpose) = with_layer_purpose(layers, layernum, xtype);
            let k = key.index as int;
            let new = (xtype, LayerPurpose::Other(xtype));
            &&& forall|i: int|
                0 <= i < layers.len() && i != k ==> #[trigger] after[i] == layers[i]
            &&& (forall|i: int| 0 <= i < layers.len() ==> (#[trigger] layers[i]).layernum != layernum)
                ==> {
                &&& k == layers.len()
                &&& after.len() == layers.len() + 1
                &&& after[k].layernum == layernum
                &&& after[k].purposes == seq![new]
                &&& purpose == LayerPurpose::Other(xtype)
            }
            &&& (exists|i: int| 0 <= i < layers.len() && (#[trigger] layers[i]).layernum == layernum)
                ==> {
                &&& after.len() == layers.len()
                &&& is_last_layer(layers, layernum, k)
                &&& after[k].layernum == layernum
                &&& (exists|j: int|
                    #[trigger] is_last_with(layers[k].purposes, xtype, j)
                        && layers[k].purposes[j].1 == purpose && after[k] == layers[k]) || (
                purpose == LayerPurpose::Other(xtype) && after[k].purposes == layers[k].purposes.push(
                    new,
                ) && forall|j: int|
                    0 <= j < layers[k].purposes.len() ==> (#[trigger] layers[k].purposes[j]).0
                        != xtype)
            }
        }),
{
    law_layer_index(layers, layernum);
    let (after, key, purpose) = with_layer_purpose(layers, layernum, xtype);
    match layer_index(layers, layernum) {
        Some(i) => {
            law_purpose_of(layers[i].purposes, xtype);
            assert(layers[i].layernum == layernum);
            if purpose_of(layers[i].purposes, xtype) is Some {
                assert(after[i] == layers[i]);
            }
        },
        None => {
            law_purpose_of(Seq::<(i16, LayerPurpose)>::empty(), xtype);
            assert(after[layers.len() as int].purposes =~= seq![
                (xtype, LayerPurpose::Other(xtype)),
            ]);
        },
    }
}

} // verus!
