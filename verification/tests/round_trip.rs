use layout21_gds::error::LayoutError;
use layout21_gds::export::GdsExporter;
use layout21_gds::gdsii::{GdsArrayRef, GdsBoundary, GdsElement, GdsPoint};
use layout21_gds::geom::{Point, Shape};
use layout21_gds::import::GdsImporter;
use layout21_gds::layers::{Layer, LayerKey, LayerPurpose, Layers};
use layout21_gds::layout::{Cell, CellRef, Element, Instance, Library, Unit};

fn layers() -> Layers {
    let mut layers = Layers::new();
    for num in [68, 69] {
        let mut layer = Layer::from_num(num);
        layer.add_purpose(20, LayerPurpose::Drawing);
        layer.add_purpose(16, LayerPurpose::Pin);
        layer.add_purpose(5, LayerPurpose::Label);
        layers.add(layer);
    }
    layers
}

fn element(layer: usize, purpose: LayerPurpose, net: Option<&str>, inner: Shape) -> Element {
    Element { net: net.map(|n| n.to_string()), layer: LayerKey { index: layer }, purpose, inner }
}

fn rect(x0: isize, y0: isize, x1: isize, y1: isize) -> Shape {
    Shape::Rect { p0: Point::new(x0, y0), p1: Point::new(x1, y1) }
}

fn poly(xy: &[(isize, isize)]) -> Shape {
    Shape::Poly { pts: xy.iter().map(|p| Point::new(p.0, p.1)).collect() }
}

fn library(unit: Unit, elems: Vec<Element>) -> Library {
    let inst = Instance {
        inst_name: "i0".to_string(),
        cell_name: "leaf".to_string(),
        cell: CellRef::Name("leaf".to_string()),
        p0: Point::new(-8, 9),
        reflect: true,
        angle: None,
    };
    Library {
        name: "lib".to_string(),
        units: unit,
        layers: layers(),
        cells: vec![
            Cell {
                name: "leaf".to_string(),
                insts: Vec::new(),
                elems,
                annotations: Vec::new(),
            },
            Cell {
                name: "top".to_string(),
                insts: vec![inst],
                elems: Vec::new(),
                annotations: Vec::new(),
            },
        ],
        libs: Vec::new(),
    }
}

fn there_and_back(lib: Library) -> Result<Library, LayoutError> {
    let e = GdsExporter { lib };
    assert!(e.is_exportable());
    let gds = GdsExporter::export(e.lib)?;
    assert!(gds.is_importable());
    GdsImporter::import(gds)
}

fn numbers(lib: &Library, e: &Element) -> (i16, i16) {
    let layer = lib.layers.get(e.layer).unwrap();
    (layer.layernum, layer.num(&e.purpose).unwrap())
}

#[test]
fn library_comes_back() {
    for unit in [Unit::Micro, Unit::Nano, Unit::Angstrom] {
        let lib = library(
            unit,
            vec![
                element(1, LayerPurpose::Drawing, Some("VDD"), rect(0, 0, 10, 4)),
                element(0, LayerPurpose::Pin, None, poly(&[(0, 0), (4, 0), (2, 3)])),
                element(0, LayerPurpose::Drawing, Some("Out"), rect(20, 0, 22, 9)),
            ],
        );
        let back = there_and_back(lib).unwrap();
        assert_eq!(back.name, "lib");
        assert_eq!(back.units, unit);
        assert_eq!(back.cells.len(), 2);
        let leaf = &back.cells[0];
        assert_eq!(leaf.name, "leaf");
        let nets: Vec<Option<&str>> = leaf.elems.iter().map(|e| e.net.as_deref()).collect();
        assert_eq!(nets, vec![Some("vdd"), None, Some("out")]);
        let nums: Vec<(i16, i16)> = leaf.elems.iter().map(|e| numbers(&back, e)).collect();
        assert_eq!(nums, vec![(69, 20), (68, 16), (68, 20)]);
        assert_eq!(
            format!("{:?}", leaf.elems[0].inner),
            format!("{:?}", rect(0, 0, 10, 4))
        );
        assert_eq!(
            format!("{:?}", leaf.elems[1].inner),
            format!("{:?}", poly(&[(0, 0), (4, 0), (2, 3)]))
        );
        assert_eq!(leaf.annotations.len(), 0);
        let top = &back.cells[1];
        assert_eq!(top.insts.len(), 1);
        assert_eq!(top.insts[0].cell_name, "leaf");
        assert_eq!(top.insts[0].inst_name, "");
        assert_eq!(top.insts[0].p0, Point::new(-8, 9));
        assert!(!top.insts[0].reflect);
    }
}

#[test]
fn rectangular_polygon_comes_back_as_rectangle() {
    let corners = poly(&[(0, 0), (0, 4), (6, 4), (6, 0)]);
    let lib = library(Unit::Nano, vec![element(0, LayerPurpose::Drawing, Some("a"), corners)]);
    let back = there_and_back(lib).unwrap();
    let e = &back.cells[0].elems[0];
    assert_eq!(format!("{:?}", e.inner), format!("{:?}", rect(0, 0, 6, 4)));
    assert_eq!(e.net.as_deref(), Some("a"));
}

#[test]
fn label_outside_its_shape_is_lost_to_an_annotation() {
    // The centre of the box around this shape lies outside of it.
    let l = poly(&[(0, 0), (10, 0), (10, 2), (2, 2), (2, 10), (0, 10)]);
    let lib = library(Unit::Nano, vec![element(0, LayerPurpose::Drawing, Some("Bent"), l)]);
    let back = there_and_back(lib).unwrap();
    assert!(back.cells[0].elems[0].net.is_none());
    assert_eq!(back.cells[0].annotations.len(), 1);
    assert_eq!(back.cells[0].annotations[0].string, "Bent");
    assert_eq!(back.cells[0].annotations[0].loc, Point::new(5, 5));
}

#[test]
fn overlapping_labels_short_on_the_way_back() {
    let lib = library(
        Unit::Nano,
        vec![
            element(0, LayerPurpose::Drawing, Some("a"), rect(0, 0, 10, 10)),
            element(0, LayerPurpose::Pin, Some("b"), rect(4, 4, 6, 6)),
        ],
    );
    assert!(matches!(there_and_back(lib), Err(LayoutError::Import { .. })));
}

#[test]
fn boundary_comes_back() {
    let gds = |xy: &[(i32, i32)]| -> Vec<GdsPoint> {
        xy.iter().map(|p| GdsPoint::new(p.0, p.1)).collect()
    };
    let back = |xy: Vec<GdsPoint>| {
        let mut i = GdsImporter::new(&"lib".to_string());
        let elem = i.import_boundary(&GdsBoundary { layer: 3, datatype: 4, xy }).unwrap();
        let mut lib = library(Unit::Nano, Vec::new());
        lib.layers = i.layers;
        let e = GdsExporter { lib };
        assert!(e.is_exportable_element(&elem));
        let mut elems = e.export_element(&elem).unwrap();
        assert_eq!(elems.len(), 1);
        match elems.pop() {
            Some(GdsElement::GdsBoundary(b)) => {
                assert_eq!((b.layer, b.datatype), (3, 4));
                b.xy
            }
            other => panic!("{:?}", other),
        }
    };
    let triangle = [(0, 0), (i32::MAX, 0), (7, i32::MIN), (0, 0)];
    assert_eq!(back(gds(&triangle)), gds(&triangle));
    let along_x = [(1, 2), (5, 2), (5, 9), (1, 9), (1, 2)];
    assert_eq!(back(gds(&along_x)), gds(&along_x));
    let along_y = [(1, 2), (1, 9), (5, 9), (5, 2), (1, 2)];
    assert_eq!(back(gds(&along_y)), gds(&along_x));
}

#[test]
fn imported_label_cannot_be_exported() {
    let lib = library(
        Unit::Nano,
        vec![
            element(0, LayerPurpose::Drawing, Some("a"), rect(0, 0, 10, 10)),
            element(0, LayerPurpose::Drawing, None, rect(20, 0, 30, 10)),
        ],
    );
    let back = there_and_back(lib).unwrap();
    let e = GdsExporter { lib: back };
    let elems = &e.lib.cells[0].elems;
    assert!(e.export_element(&elems[1]).is_ok());
    match e.export_element(&elems[0]) {
        Err(LayoutError::Message(text)) => assert_eq!(text, "Text Layer Not Defined"),
        other => panic!("{:?}", other),
    }
}

#[test]
fn imported_instances_can_be_exported() {
    let mut i = GdsImporter::new(&"lib".to_string());
    let array = GdsArrayRef {
        name: "bit".to_string(),
        xy: [
            GdsPoint::new(i32::MIN, i32::MAX),
            GdsPoint::new(i32::MAX, i32::MAX),
            GdsPoint::new(i32::MIN, i32::MIN),
        ],
        cols: 7,
        rows: 3,
        strans: None,
    };
    let insts = i.import_instance_array(&array).unwrap();
    assert_eq!(insts.len(), 21);
    let e = GdsExporter { lib: library(Unit::Nano, Vec::new()) };
    for inst in &insts {
        let sref = e.export_instance(inst).unwrap();
        assert_eq!(sref.name, "bit");
        assert_eq!(i.import_point(&sref.xy).unwrap(), inst.p0);
    }
}
