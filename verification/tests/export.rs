use layout21_gds::error::LayoutError;
use layout21_gds::export::GdsExporter;
use layout21_gds::gdsii::{GdsElement, GdsPoint};
use layout21_gds::geom::{Point, Shape};
use layout21_gds::layers::{Layer, LayerKey, LayerPurpose, Layers};
use layout21_gds::layout::{Cell, CellRef, Element, Instance, Library, TextElement, Unit};

fn layers() -> Layers {
    let mut layers = Layers::new();
    let mut metal = Layer::from_num(68);
    metal.add_purpose(20, LayerPurpose::Drawing);
    metal.add_purpose(5, LayerPurpose::Label);
    layers.add(metal);
    let mut well = Layer::from_num(-3);
    well.add_purpose(44, LayerPurpose::Drawing);
    layers.add(well);
    layers
}

fn library(cells: Vec<Cell>) -> Library {
    Library { name: "lib".to_string(), units: Unit::Nano, layers: layers(), cells, libs: Vec::new() }
}

fn exporter() -> GdsExporter {
    GdsExporter { lib: library(Vec::new()) }
}

fn element(layer: usize, net: Option<&str>, inner: Shape) -> Element {
    Element {
        net: net.map(|n| n.to_string()),
        layer: LayerKey { index: layer },
        purpose: LayerPurpose::Drawing,
        inner,
    }
}

fn rect(x0: isize, y0: isize, x1: isize, y1: isize) -> Shape {
    Shape::Rect { p0: Point::new(x0, y0), p1: Point::new(x1, y1) }
}

fn poly(xy: &[(isize, isize)]) -> Shape {
    Shape::Poly { pts: xy.iter().map(|p| Point::new(p.0, p.1)).collect() }
}

fn cell(name: &str, insts: Vec<Instance>, elems: Vec<Element>) -> Cell {
    Cell { name: name.to_string(), insts, elems, annotations: Vec::new() }
}

fn inst(cell: &str, x: isize, y: isize) -> Instance {
    Instance {
        inst_name: "i0".to_string(),
        cell_name: cell.to_string(),
        cell: CellRef::Name(cell.to_string()),
        p0: Point::new(x, y),
        reflect: true,
        angle: None,
    }
}

fn gds(xy: &[(i32, i32)]) -> Vec<GdsPoint> {
    xy.iter().map(|p| GdsPoint::new(p.0, p.1)).collect()
}

#[test]
fn points_fit_thirty_two_bits() {
    let e = exporter();
    let p = e.export_point(&Point::new(5, -7)).unwrap();
    assert_eq!(p, GdsPoint::new(5, -7));
    let far = Point::new(i32::MAX as isize, i32::MIN as isize);
    assert_eq!(e.export_point(&far).unwrap(), GdsPoint::new(i32::MAX, i32::MIN));
    for p in [
        Point::new(i32::MAX as isize + 1, 0),
        Point::new(0, i32::MIN as isize - 1),
        Point::new(isize::MIN, isize::MAX),
    ] {
        assert!(matches!(e.export_point(&p), Err(LayoutError::Conversion)));
    }
}

#[test]
fn rectangle_becomes_a_closed_boundary() {
    let elems = exporter().export_element(&element(0, None, rect(1, 2, 5, 9))).unwrap();
    assert_eq!(elems.len(), 1);
    match &elems[0] {
        GdsElement::GdsBoundary(b) => {
            assert_eq!((b.layer, b.datatype), (68, 20));
            assert_eq!(b.xy, gds(&[(1, 2), (5, 2), (5, 9), (1, 9), (1, 2)]));
        }
        other => panic!("{:?}", other),
    }
}

#[test]
fn polygon_of_n_corners_has_n_plus_one_points() {
    let shape = poly(&[(0, 0), (4, 0), (2, 3)]);
    let elems = exporter().export_element(&element(1, None, shape)).unwrap();
    match &elems[0] {
        GdsElement::GdsBoundary(b) => {
            assert_eq!((b.layer, b.datatype), (-3, 44));
            assert_eq!(b.xy, gds(&[(0, 0), (4, 0), (2, 3), (0, 0)]));
        }
        other => panic!("{:?}", other),
    }
}

#[test]
fn net_becomes_a_text_in_the_centre() {
    let elems = exporter().export_element(&element(0, Some("VDD"), rect(0, 0, 11, 4))).unwrap();
    assert_eq!(elems.len(), 2);
    match &elems[1] {
        GdsElement::GdsTextElem(t) => {
            assert_eq!(t.string, "VDD");
            assert_eq!((t.layer, t.texttype), (68, 5));
            assert_eq!(t.xy, GdsPoint::new(5, 2));
            assert!(t.strans.is_none());
        }
        other => panic!("{:?}", other),
    }
}

#[test]
fn text_on_a_vertical_shape_is_turned() {
    let elems = exporter().export_element(&element(0, Some("a"), rect(0, 0, -3, 10))).unwrap();
    match &elems[1] {
        GdsElement::GdsTextElem(t) => {
            let strans = t.strans.unwrap();
            assert_eq!(f64::from_bits(strans.angle.unwrap().bits), 90.0);
            assert!(strans.mag.is_none());
            assert!(!strans.reflected && !strans.abs_mag && !strans.abs_angle);
            assert_eq!(t.xy, GdsPoint::new(-1, 5));
        }
        other => panic!("{:?}", other),
    }
}

#[test]
fn undefined_layers_and_purposes_are_refused() {
    let e = exporter();
    match e.export_element(&element(2, None, rect(0, 0, 1, 1))) {
        Err(LayoutError::Message(text)) => assert_eq!(text, "Layer Not Defined"),
        other => panic!("{:?}", other),
    }
    let mut pin = element(1, None, rect(0, 0, 1, 1));
    pin.purpose = LayerPurpose::Pin;
    match e.export_element(&pin) {
        Err(LayoutError::Message(text)) => {
            assert_eq!(text, "LayerPurpose Not Defined for -3, Pin")
        }
        other => panic!("{:?}", other),
    }
    pin.purpose = LayerPurpose::Other(-12);
    match e.export_element(&pin) {
        Err(LayoutError::Message(text)) => {
            assert_eq!(text, "LayerPurpose Not Defined for -3, Other(-12)")
        }
        other => panic!("{:?}", other),
    }
    match e.export_element(&element(1, Some("vss"), rect(0, 0, 1, 1))) {
        Err(LayoutError::Message(text)) => assert_eq!(text, "Text Layer Not Defined"),
        other => panic!("{:?}", other),
    }
}

#[test]
fn coordinates_that_do_not_fit_are_refused() {
    let far = i32::MAX as isize + 1;
    let e = exporter();
    assert!(matches!(
        e.export_element(&element(0, None, rect(0, 0, far, 1))),
        Err(LayoutError::Conversion)
    ));
    assert!(matches!(
        e.export_element(&element(0, None, poly(&[(0, 0), (0, far), (1, 1)]))),
        Err(LayoutError::Conversion)
    ));
    assert!(matches!(e.export_instance(&inst("x", far, 0)), Err(LayoutError::Conversion)));
}

#[test]
fn instance_loses_its_orientation() {
    let sref = exporter().export_instance(&inst("nand2", 30, -40)).unwrap();
    assert_eq!(sref.name, "nand2");
    assert_eq!(sref.xy, GdsPoint::new(30, -40));
    assert!(sref.strans.is_none());
}

#[test]
fn cell_becomes_instances_and_then_elements() {
    let mut c = cell(
        "top",
        vec![inst("a", 1, 1), inst("b", 2, 2)],
        vec![element(0, Some("n"), rect(0, 0, 2, 2)), element(1, None, rect(0, 0, 3, 3))],
    );
    c.annotations.push(TextElement { string: "note".to_string(), loc: Point::new(0, 0) });
    let strukt = exporter().export_cell(&c).unwrap();
    assert_eq!(strukt.name, "top");
    let kinds: Vec<&str> = strukt
        .elems
        .iter()
        .map(|e| match e {
            GdsElement::GdsStructRef(x) if x.name == "a" => "a",
            GdsElement::GdsStructRef(_) => "b",
            GdsElement::GdsBoundary(x) if x.layer == 68 => "metal",
            GdsElement::GdsBoundary(_) => "well",
            GdsElement::GdsTextElem(_) => "text",
            _ => "other",
        })
        .collect();
    assert_eq!(kinds, vec!["a", "b", "metal", "text", "well"]);
}

#[test]
fn first_error_in_a_cell_is_reported() {
    let far = i32::MAX as isize + 1;
    let c = cell(
        "top",
        Vec::new(),
        vec![
            element(0, None, rect(0, 0, 1, 1)),
            element(7, None, rect(0, 0, 1, 1)),
            element(0, None, rect(0, 0, far, 1)),
        ],
    );
    match exporter().export_cell(&c) {
        Err(LayoutError::Message(text)) => assert_eq!(text, "Layer Not Defined"),
        other => panic!("{:?}", other),
    }
}

#[test]
fn library_keeps_name_units_and_cells() {
    for (unit, user, db) in
        [(Unit::Micro, 1.0, 1e-6), (Unit::Nano, 1e-3, 1e-9), (Unit::Angstrom, 1e-4, 1e-10)]
    {
        let mut lib = library(vec![
            cell("one", Vec::new(), Vec::new()),
            cell("two", vec![inst("one", 0, 0)], Vec::new()),
        ]);
        lib.units = unit;
        let e = GdsExporter { lib };
        assert!(e.is_exportable());
        let out = GdsExporter::export(e.lib).unwrap();
        assert_eq!(out.name, "lib");
        assert_eq!(f64::from_bits(out.units.user.bits), user);
        assert_eq!(f64::from_bits(out.units.db.bits), db);
        // In all cases the user unit is a micrometer.
        assert!((db / user - 1e-6f64).abs() < 1e-18);
        assert!(!out.features.has_any());
        let names: Vec<&str> = out.structs.iter().map(|s| s.name.as_str()).collect();
        assert_eq!(names, vec!["one", "two"]);
        assert_eq!(out.structs[1].elems.len(), 1);
    }
}

#[test]
fn nested_libraries_are_refused() {
    let mut lib = library(Vec::new());
    lib.libs.push(library(Vec::new()));
    let e = GdsExporter { lib };
    assert!(e.is_exportable());
    match GdsExporter::export(e.lib) {
        Err(LayoutError::Export(text)) => assert_eq!(text, "No nested libraries to GDS (yet)"),
        other => panic!("{:?}", other),
    }
}

#[test]
fn export_failures_say_what_they_are_told() {
    match exporter().err::<()>("out of ink") {
        Err(LayoutError::Export(text)) => assert_eq!(text, "out of ink"),
        other => panic!("{:?}", other),
    }
}

#[test]
fn paths_and_empty_polygons_are_out_of_reach() {
    let path = Shape::Path { width: 2, pts: vec![Point::new(0, 0), Point::new(1, 0)] };
    let e = exporter();
    assert!(!e.is_exportable_element(&element(0, None, path)));
    assert!(!e.is_exportable_element(&element(0, None, poly(&[]))));
    assert!(e.is_exportable_element(&element(0, None, poly(&[(0, 0)]))));
    // Without its layer it comes to an error before its shape is looked at.
    assert!(e.is_exportable_element(&element(9, None, poly(&[]))));

    let bad = || cell("bad", Vec::new(), vec![element(0, None, poly(&[]))]);
    let e = GdsExporter { lib: library(vec![bad()]) };
    assert!(!e.is_exportable());
    let failing = cell("failing", vec![inst("x", isize::MAX, 0)], Vec::new());
    let e = GdsExporter { lib: library(vec![failing, bad()]) };
    assert!(e.is_exportable());
    assert!(matches!(GdsExporter::export(e.lib), Err(LayoutError::Conversion)));
    let failing = cell(
        "failing",
        Vec::new(),
        vec![element(9, None, rect(0, 0, 1, 1)), element(0, None, poly(&[]))],
    );
    assert!(GdsExporter { lib: library(vec![failing]) }.is_exportable());
}

#[test]
fn centre_of_what_fits_fits() {
    let (lo, hi) = (i32::MIN as isize, i32::MAX as isize);
    for shape in [
        rect(lo, lo, lo, lo),
        rect(hi, hi, hi, hi),
        rect(lo, hi, hi, lo),
        rect(hi, hi, hi - 1, hi - 1),
        poly(&[(lo, lo), (lo, lo + 1), (lo + 1, lo)]),
        poly(&[(hi, hi), (lo, hi), (hi, lo)]),
    ] {
        let elems = exporter().export_element(&element(0, Some("n"), shape)).unwrap();
        assert_eq!(elems.len(), 2);
    }
}
