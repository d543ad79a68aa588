use layout21_gds::layers::{Layer, LayerKey, LayerPurpose, Layers};

#[test]
fn layers_are_created_once() {
    let mut layers = Layers::new();
    let (k0, p0) = layers.get_or_insert(5, 20);
    let (k1, p1) = layers.get_or_insert(7, 20);
    let (k2, p2) = layers.get_or_insert(5, 21);
    let (k3, p3) = layers.get_or_insert(5, 20);
    assert_eq!(k0, LayerKey { index: 0 });
    assert_eq!(k1, LayerKey { index: 1 });
    assert_eq!(k2, k0);
    assert_eq!(k3, k0);
    assert_eq!((p0, p1), (LayerPurpose::Other(20), LayerPurpose::Other(20)));
    assert_eq!((p2, p3), (LayerPurpose::Other(21), LayerPurpose::Other(20)));
    assert_eq!(layers.layers.len(), 2);
    assert_eq!(layers.layers[0].purposes.len(), 2);
    assert_eq!(layers.layers[1].purposes.len(), 1);
}

#[test]
fn defined_purposes_are_found() {
    let mut layers = Layers::new();
    let mut metal = Layer::from_num(68);
    metal.add_purpose(20, LayerPurpose::Drawing);
    metal.add_purpose(5, LayerPurpose::Label);
    let key = layers.add(metal);
    assert_eq!(layers.get_or_insert(68, 5), (key, LayerPurpose::Label));
    assert_eq!(layers.get_or_insert(68, 20), (key, LayerPurpose::Drawing));
    assert_eq!(layers.get_or_insert(68, 16), (key, LayerPurpose::Other(16)));
    let layer = layers.get(key).unwrap();
    assert_eq!(layer.layernum, 68);
    assert_eq!(layer.num(&LayerPurpose::Label), Some(5));
    assert_eq!(layer.num(&LayerPurpose::Other(16)), Some(16));
    assert_eq!(layer.num(&LayerPurpose::Pin), None);
    assert_eq!(layer.purpose(20), Some(LayerPurpose::Drawing));
    assert_eq!(layer.purpose(21), None);
    assert!(layers.get(LayerKey { index: 1 }).is_none());
    assert_eq!(layers.keynum(68), Some(key));
    assert_eq!(layers.keynum(69), None);
}

#[test]
fn later_pairs_count() {
    let mut layer = Layer::from_num(1);
    layer.add_purpose(3, LayerPurpose::Pin);
    layer.add_purpose(3, LayerPurpose::Outline);
    layer.add_purpose(4, LayerPurpose::Pin);
    assert_eq!(layer.purpose(3), Some(LayerPurpose::Outline));
    assert_eq!(layer.num(&LayerPurpose::Pin), Some(4));
    let mut layers = Layers::new();
    layers.add(Layer::from_num(9));
    let second = layers.add(Layer::from_num(9));
    assert_eq!(layers.keynum(9), Some(second));
}

#[test]
fn purpose_texts_are_the_debug_texts() {
    for purpose in [
        LayerPurpose::Drawing,
        LayerPurpose::Pin,
        LayerPurpose::Label,
        LayerPurpose::Obstruction,
        LayerPurpose::Outline,
        LayerPurpose::Other(0),
        LayerPurpose::Other(-32768),
        LayerPurpose::Other(32767),
        LayerPurpose::Other(-7),
        LayerPurpose::Other(1090),
    ] {
        let mut text = String::from("> ");
        purpose.append_text(&mut text);
        assert_eq!(text, format!("> {:?}", purpose));
    }
}

#[test]
fn decimals_are_written_as_std_writes_them() {
    for n in [0i16, 1, 9, 10, 99, 100, 12345, 32767, -1, -10, -999, -32768] {
        let mut text = String::new();
        layout21_gds::text::append_decimal(&mut text, n);
        assert_eq!(text, n.to_string());
    }
}
