//! Layers, their purposes, and the numbers by which GDSII knows both.

use vstd::prelude::*;

use crate::text::append_decimal;
use crate::text::decimal;
use crate::views::lemma_views_push;
use crate::views::views;
use vstd::string::StringExecFns;

verus! {

/// What the shapes of a layer are there for.
#[derive(Clone, Copy, Debug, PartialEq, Eq, Structural)]
pub enum LayerPurpose {
    Drawing,
    Pin,
    Label,
    Obstruction,
    Outline,
    /// A purpose known by its number alone.
    Other(i16),
}

/// A layer, with the purposes it has been given and the number of each.
#[derive(Debug)]
pub struct Layer {
    pub layernum: i16,
    /// The purposes in the order in which they were added. Where a number or a purpose occurs more
    /// than once, the later pair counts.
    pub purposes: Vec<(i16, LayerPurpose)>,
}

/// The mathematical value of a [`Layer`].
pub struct LayerView {
    pub layernum: i16,
    pub purposes: Seq<(i16, LayerPurpose)>,
}

/// The place of a layer in its [`Layers`].
#[derive(Clone, Copy, Debug, PartialEq, Eq, Structural)]
pub struct LayerKey {
    pub index: usize,
}

/// A set of layers.
#[derive(Debug)]
pub struct Layers {
    /// The layers in the order in which they were added. Where a layer number occurs more than
    /// once, the later layer counts.
    pub layers: Vec<Layer>,
}

impl View for Layer {
    type V = LayerView;

    open spec fn view(&self) -> LayerView {
        LayerView { layernum: self.layernum, purposes: self.purposes@ }
    }
}

impl View for Layers {
    type V = Seq<LayerView>;

    open spec fn view(&self) -> Seq<LayerView> {
        views(self.layers@)
    }
}

/// The number last given to `purpose`.
pub open spec fn number_of(pairs: Seq<(i16, LayerPurpose)>, purpose: LayerPurpose) -> Option<i16>
    decreases pairs.len(),
{
    if pairs.len() == 0 {
        None
    } else if pairs.last().1 == purpose {
        Some(pairs.last().0)
    } else {
        number_of(pairs.drop_last(), purpose)
    }
}

/// The purpose last given the number `num`.
pub open spec fn purpose_of(pairs: Seq<(i16, LayerPurpose)>, num: i16) -> Option<LayerPurpose>
    decreases pairs.len(),
{
    if pairs.len() == 0 {
        None
    } else if pairs.last().0 == num {
        Some(pairs.last().1)
    } else {
        purpose_of(pairs.drop_last(), num)
    }
}

/// The place of the layer last added with the number `num`.
pub open spec fn layer_index(layers: Seq<LayerView>, num: i16) -> Option<int>
    decreases layers.len(),
{
    if layers.len() == 0 {
        None
    } else if layers.last().layernum == num {
        Some(layers.len() - 1)
    } else {
        layer_index(layers.drop_last(), num)
    }
}

/// The layer at `key`.
pub open spec fn layer_at(layers: Seq<LayerView>, key: LayerKey) -> Option<LayerView> {
    if key.index < layers.len() {
        Some(layers[key.index as int])
    } else {
        None
    }
}

/// `layer` with a purpose numbered `num`, which it is given if it has none, and that purpose.
pub open spec fn with_purpose(layer: LayerView, num: i16) -> (LayerView, LayerPurpose) {
    match purpose_of(layer.purposes, num) {
        Some(purpose) => (layer, purpose),
        None => (
            LayerView {
                layernum: layer.layernum,
                purposes: layer.purposes.push((num, LayerPurpose::Other(num))),
            },
            LayerPurpose::Other(num),
        ),
    }
}

/// `layers` with a layer numbered `num`, which is added if there is none, and that layer's place.
pub open spec fn with_layer(layers: Seq<LayerView>, num: i16) -> (Seq<LayerView>, int) {
    match layer_index(layers, num) {
        Some(i) => (layers, i),
        None => (
            layers.push(LayerView { layernum: num, purposes: Seq::empty() }),
            layers.len() as int,
        ),
    }
}

/// `layers` with a layer numbered `layernum` that has a purpose numbered `xtype`, that layer's key
/// and that purpose. What is missing is added.
pub open spec fn with_layer_purpose(layers: Seq<LayerView>, layernum: i16, xtype: i16) -> (
    Seq<LayerView>,
    LayerKey,
    LayerPurpose,
) {
    let (grown, i) = with_layer(layers, layernum);
    let (layer, purpose) = with_purpose(grown[i], xtype);
    (grown.update(i, layer), LayerKey { index: i as usize }, purpose)
}

/// The layer that [`layer_index`] finds is there and has the number asked for.
pub proof fn lemma_layer_index(layers: Seq<LayerView>, num: i16)
    ensures
        layer_index(layers, num) matches Some(i) ==> 0 <= i < layers.len() && layers[i].layernum
            == num,
        layer_index(layers, num) is None <==> (forall|i: int|
            0 <= i < layers.len() ==> (#[trigger] layers[i]).layernum != num),
    decreases layers.len(),
{
    if layers.len() > 0 && layers.last().layernum != num {
        lemma_layer_index(layers.drop_last(), num);
        assert forall|i: int|
            layer_index(layers, num) is None && 0 <= i < layers.len() implies (
        #[trigger] layers[i]).layernum != num by {
            if i < layers.len() - 1 {
                assert(layers.drop_last()[i].layernum != num);
            }
        }
        if layer_index(layers, num) is Some {
            let i = layer_index(layers, num).unwrap();
            assert(layers.drop_last()[i].layernum == num);
        }
    }
}

/// The text for `purpose` in messages.
pub open spec fn purpose_text(purpose: LayerPurpose) -> Seq<char> {
    match purpose {
        LayerPurpose::Drawing => "Drawing"@,
        LayerPurpose::Pin => "Pin"@,
        LayerPurpose::Label => "Label"@,
        LayerPurpose::Obstruction => "Obstruction"@,
        LayerPurpose::Outline => "Outline"@,
        LayerPurpose::Other(num) => "Other("@ + decimal(num as int) + ")"@,
    }
}

impl LayerPurpose {
    /// Appends the text for this purpose to `out`.
    pub fn append_text(&self, out: &mut String)
        ensures
            final(out)@ == old(out)@ + purpose_text(*self),
    {
        match *self {
            LayerPurpose::Drawing => out.append("Drawing"),
            LayerPurpose::Pin => out.append("Pin"),
            LayerPurpose::Label => out.append("Label"),
            LayerPurpose::Obstruction => out.append("Obstruction"),
            LayerPurpose::Outline => out.append("Outline"),
            LayerPurpose::Other(num) => {
                out.append("Other(");
                append_decimal(out, num);
                out.append(")");
            },
        }
        assert(out@ =~= old(out)@ + purpose_text(*self));
    }
}

impl Layer {
    /// A layer numbered `layernum`, without purposes.
    pub fn from_num(layernum: i16) -> (layer: Layer)
        ensures
            layer@ == (LayerView { layernum, purposes: Seq::empty() }),
    {
        Layer { layernum, purposes: Vec::new() }
    }

    /// Gives `purpose` the number `num`.
    pub fn add_purpose(&mut self, num: i16, purpose: LayerPurpose)
        ensures
            final(self)@ == (LayerView {
                layernum: old(self)@.layernum,
                purposes: old(self)@.purposes.push((num, purpose)),
            }),
    {
        self.purposes.push((num, purpose));
    }

    /// The number of `purpose` on this layer.
    pub fn num(&self, purpose: &LayerPurpose) -> (num: Option<i16>)
        ensures
            num == number_of(self@.purposes, *purpose),
    {
        let mut n = self.purposes.len();
        assert(self.purposes@.take(n as int) =~= self.purposes@);
        while n > 0
            invariant
                n <= self.purposes@.len(),
                number_of(self@.purposes, *purpose) == number_of(
                    self.purposes@.take(n as int),
                    *purpose,
                ),
            decreases n,
        {
            n -= 1;
            assert(self.purposes@.take(n + 1).drop_last() =~= self.purposes@.take(n as int));
            let (num, candidate) = self.purposes[n];
            if candidate == *purpose {
                return Some(num);
            }
        }
        None
    }

    /// The purpose numbered `num` on this layer.
    pub fn purpose(&self, num: i16) -> (purpose: Option<LayerPurpose>)
        ensures
            purpose == purpose_of(self@.purposes, num),
    {
        let mut n = self.purposes.len();
        assert(self.purposes@.take(n as int) =~= self.purposes@);
        while n > 0
            invariant
                n <= self.purposes@.len(),
                purpose_of(self@.purposes, num) == purpose_of(
                    self.purposes@.take(n as int),
                    num,
                ),
            decreases n,
        {
            n -= 1;
            assert(self.purposes@.take(n + 1).drop_last() =~= self.purposes@.take(n as int));
            let (candidate, purpose) = self.purposes[n];
            if candidate == num {
                return Some(purpose);
            }
        }
        None
    }
}

impl Layers {
    /// An empty set of layers.
    pub fn new() -> (layers: Layers)
        ensures
            layers@ == Seq::<LayerView>::empty(),
    {
        let layers = Layers { layers: Vec::new() };
        assert(layers@ =~= Seq::<LayerView>::empty());
        layers
    }

    /// The layer at `key`.
    pub fn get(&self, key: LayerKey) -> (layer: Option<&Layer>)
        ensures
            match layer {
                Some(l) => layer_at(self@, key) == Some(l@),
                None => layer_at(self@, key) is None,
            },
    {
        if key.index < self.layers.len() {
            Some(&self.layers[key.index])
        } else {
            None
        }
    }

    /// The key of the layer numbered `num`.
    pub fn keynum(&self, num: i16) -> (key: Option<LayerKey>)
        ensures
            match key {
                Some(k) => layer_index(self@, num) == Some(k.index as int),
                None => layer_index(self@, num) is None,
            },
    {
        let mut n = self.layers.len();
        assert(self@.take(n as int) =~= self@);
        while n > 0
            invariant
                n <= self.layers@.len(),
                layer_index(self@, num) == layer_index(self@.take(n as int), num),
            decreases n,
        {
            n -= 1;
            assert(self@.take(n + 1).drop_last() =~= self@.take(n as int));
            assert(self@[n as int] == self.layers@[n as int]@);
            if self.layers[n].layernum == num {
                return Some(LayerKey { index: n });
            }
        }
        None
    }

    /// Adds `layer`.
    pub fn add(&mut self, layer: Layer) -> (key: LayerKey)
        ensures
            final(self)@ == old(self)@.push(layer@),
            key.index == old(self)@.len(),
    {
        broadcast use lemma_views_push;

        let key = LayerKey { index: self.layers.len() };
        self.layers.push(layer);
        key
    }

    /// The key of the layer numbered `layernum` and its purpose numbered `xtype`. Both are created
    /// if they do not exist.
    pub fn get_or_insert(&mut self, layernum: i16, xtype: i16) -> (r: (LayerKey, LayerPurpose))
        ensures
            (final(self)@, r.0, r.1) == with_layer_purpose(old(self)@, layernum, xtype),
            layer_at(final(self)@, r.0) matches Some(layer) && layer.layernum == layernum,
    {
        proof {
            lemma_layer_index(self@, layernum);
        }
        let key = match self.keynum(layernum) {
            Some(key) => key,
            None => self.add(Layer::from_num(layernum)),
        };
        let ghost grown = self@;
        assert(grown == with_layer(old(self)@, layernum).0);
        assert(key.index < self.layers@.len());
        assert(grown[key.index as int] == self.layers@[key.index as int]@);
        let purpose = match self.layers[key.index].purpose(xtype) {
            Some(purpose) => purpose,
            None => {
                let purpose = LayerPurpose::Other(xtype);
                let layer = &mut self.layers[key.index];
                layer.add_purpose(xtype, purpose);
                purpose
            },
        };
        assert(self@ =~= grown.update(
            key.index as int,
            with_purpose(grown[key.index as int], xtype).0,
        ));
        (key, purpose)
    }
}

} // verus!
