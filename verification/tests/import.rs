use layout21_gds::error::{ImportContext, ImportMessage, LayoutError};
use layout21_gds::gdsii::{
    GdsArrayRef, GdsBoundary, GdsBox, GdsElement, GdsFeatures, GdsLibrary, GdsNode, GdsPath,
    GdsPoint, GdsStrans, GdsStruct, GdsStructRef, GdsUnits, Real,
};
use layout21_gds::geom::{Point, Shape};
use layout21_gds::import::{GdsImporter, ImportWarning};
use layout21_gds::layers::LayerPurpose;
use layout21_gds::layout::{CellRef, Unit};

fn double(x: f64) -> Real {
    Real { bits: x.to_bits() }
}

fn units(db: f64) -> GdsUnits {
    GdsUnits { user: double(1e-3), db: double(db) }
}

fn importer() -> GdsImporter {
    GdsImporter::new(&"lib".to_string())
}

fn gds(xy: &[(i32, i32)]) -> Vec<GdsPoint> {
    xy.iter().map(|p| GdsPoint::new(p.0, p.1)).collect()
}

fn boundary(layer: i16, datatype: i16, xy: &[(i32, i32)]) -> GdsBoundary {
    GdsBoundary { layer, datatype, xy: gds(xy) }
}

fn strans(mag: Option<f64>, angle: Option<f64>) -> GdsStrans {
    GdsStrans {
        reflected: true,
        abs_mag: false,
        abs_angle: false,
        mag: mag.map(double),
        angle: angle.map(double),
    }
}

fn sref(name: &str, x: i32, y: i32, strans: Option<GdsStrans>) -> GdsStructRef {
    GdsStructRef { name: name.to_string(), xy: GdsPoint::new(x, y), strans }
}

fn aref(xy: [(i32, i32); 3], cols: i16, rows: i16, strans: Option<GdsStrans>) -> GdsArrayRef {
    GdsArrayRef {
        name: "bit".to_string(),
        xy: [
            GdsPoint::new(xy[0].0, xy[0].1),
            GdsPoint::new(xy[1].0, xy[1].1),
            GdsPoint::new(xy[2].0, xy[2].1),
        ],
        cols,
        rows,
        strans,
    }
}

fn strukt(name: &str, elems: Vec<GdsElement>) -> GdsStruct {
    GdsStruct { name: name.to_string(), elems }
}

fn library(structs: Vec<GdsStruct>) -> GdsLibrary {
    GdsLibrary {
        name: "lib".to_string(),
        features: GdsFeatures::none(),
        units: units(1e-9),
        structs,
    }
}

fn text_of<T: std::fmt::Debug>(r: Result<T, LayoutError>) -> (String, String) {
    match r {
        Err(LayoutError::Import { stack, message: ImportMessage::Text(text) }) => {
            (format!("{:?}", stack), text)
        }
        other => panic!("{:?}", other),
    }
}

#[test]
fn units_by_tolerance() {
    let by_floats = |x: f64| {
        if (x - 1e-10).abs() < 1e-13 {
            Some(Unit::Angstrom)
        } else if (x - 1e-9).abs() < 1e-12 {
            Some(Unit::Nano)
        } else if (x - 1e-6).abs() < 1e-9 {
            Some(Unit::Micro)
        } else {
            None
        }
    };
    let mut samples = vec![
        0.0, -0.0, 1.0, -1e-9, -1e-10, -1e-6, 1e-3, 1e-12, 5e-10, 1e-7, f64::NAN, f64::INFINITY,
        f64::NEG_INFINITY, f64::MIN_POSITIVE, f64::MAX, 2e-9, 2.5e-10,
    ];
    // Around each unit, and around the ends of each interval, neighbour by neighbour.
    for centre in [1e-10f64, 1e-9, 1e-6] {
        for end in [centre, centre - centre / 1000.0, centre + centre / 1000.0] {
            for step in 0..2000u64 {
                samples.push(f64::from_bits(end.to_bits() + step));
                samples.push(f64::from_bits(end.to_bits() - step));
            }
        }
    }
    for x in samples {
        let mut i = importer();
        match (i.import_units(&units(x)), by_floats(x)) {
            (Ok(unit), Some(expected)) => {
                assert_eq!(unit, expected, "{:e}", x);
                assert_eq!(i.ctx_stack.len(), 1);
            }
            (Err(LayoutError::Import { stack, message }), None) => {
                assert!(matches!(stack[..], [ImportContext::Library(_), ImportContext::Units]));
                match message {
                    ImportMessage::UnsupportedUnit(size) => assert_eq!(size.bits, x.to_bits()),
                    other => panic!("{:?}", other),
                }
            }
            (got, expected) => panic!("{:e}: {:?}, not {:?}", x, got, expected),
        }
    }
}

#[test]
fn number_next_to_a_nanometer_is_one() {
    for bits in [1e-9f64.to_bits() - 1, 1e-9f64.to_bits() + 1] {
        let unit = importer().import_units(&units(f64::from_bits(bits))).unwrap();
        assert_eq!(unit, Unit::Nano);
    }
}

#[test]
fn rectangles_are_recognised() {
    let mut i = importer();
    for xy in [
        [(1, 2), (1, 9), (5, 9), (5, 2), (1, 2)],
        [(1, 2), (5, 2), (5, 9), (1, 9), (1, 2)],
    ] {
        let e = i.import_boundary(&boundary(68, 20, &xy)).unwrap();
        match e.inner {
            Shape::Rect { p0, p1 } => {
                assert_eq!((p0, p1), (Point::new(1, 2), Point::new(5, 9)));
            }
            other => panic!("{:?}", other),
        }
        assert!(e.net.is_none());
        assert_eq!(e.layer.index, 0);
        assert_eq!(e.purpose, LayerPurpose::Other(20));
    }
    assert_eq!(i.layers.layers.len(), 1);
    assert_eq!(i.layers.layers[0].layernum, 68);
    assert_eq!(i.ctx_stack.len(), 1);
}

#[test]
fn other_boundaries_are_polygons() {
    let mut i = importer();
    for xy in [
        vec![(0, 0), (4, 0), (2, 3), (0, 0)],
        vec![(0, 0), (4, 0), (5, 3), (0, 3), (0, 0)],
        vec![(0, 0), (4, 0), (4, 2), (4, 3), (0, 3), (0, 0)],
        vec![(7, 7)],
    ] {
        let e = i.import_boundary(&boundary(1, 2, &xy)).unwrap();
        match e.inner {
            Shape::Poly { pts } => {
                let expected: Vec<Point> = xy[..xy.len() - 1]
                    .iter()
                    .map(|p| Point::new(p.0 as isize, p.1 as isize))
                    .collect();
                assert_eq!(pts, expected);
            }
            other => panic!("{:?}", other),
        }
    }
}

#[test]
fn open_boundary_is_refused() {
    let mut i = importer();
    let (stack, text) = text_of(i.import_boundary(&boundary(1, 2, &[(0, 0), (4, 0), (2, 3)])));
    assert_eq!(text, "GDS Boundary must start and end at the same point");
    assert_eq!(stack, "[Library(\"lib\"), Geometry]");
}

#[test]
fn box_is_imported_by_its_first_and_third_points() {
    let xy = [
        GdsPoint::new(3, 4),
        GdsPoint::new(99, 99),
        GdsPoint::new(-8, 11),
        GdsPoint::new(98, 98),
        GdsPoint::new(97, 97),
    ];
    let mut i = importer();
    let e = i.import_box(&GdsBox { layer: 7, boxtype: -1, xy }).unwrap();
    match e.inner {
        Shape::Rect { p0, p1 } => {
            assert_eq!((p0, p1), (Point::new(3, 4), Point::new(-8, 11)));
        }
        other => panic!("{:?}", other),
    }
    assert_eq!(e.purpose, LayerPurpose::Other(-1));
}

#[test]
fn path_needs_a_width() {
    let mut i = importer();
    let path = |width| GdsPath { layer: 2, datatype: 3, xy: gds(&[(0, 0), (5, 0)]), width };
    let e = i.import_path(&path(Some(12))).unwrap();
    match e.inner {
        Shape::Path { width, pts } => {
            assert_eq!(width, 12);
            assert_eq!(pts, vec![Point::new(0, 0), Point::new(5, 0)]);
        }
        other => panic!("{:?}", other),
    }
    match i.import_path(&path(Some(-1))).unwrap().inner {
        Shape::Path { width, .. } => assert_eq!(width, usize::MAX),
        other => panic!("{:?}", other),
    }
    let (stack, text) = text_of(i.import_path(&path(None)));
    assert_eq!(text, "Invalid nonspecifed GDS Path width ");
    assert_eq!(stack, "[Library(\"lib\"), Geometry]");
}

#[test]
fn instance_with_and_without_settings() {
    let mut i = importer();
    let plain = i.import_instance(&sref("inv", 4, -5, None)).unwrap();
    assert_eq!(plain.inst_name, "");
    assert_eq!(plain.cell_name, "inv");
    assert!(matches!(&plain.cell, CellRef::Name(name) if name == "inv"));
    assert_eq!(plain.p0, Point::new(4, -5));
    assert!(!plain.reflect && plain.angle.is_none());
    assert_eq!(i.warnings.len(), 0);

    let reflected = i.import_instance(&sref("inv", 0, 0, Some(strans(None, None)))).unwrap();
    assert!(reflected.reflect && reflected.angle.is_none());
    assert_eq!(i.warnings.len(), 0);

    let turned = i.import_instance(&sref("inv", 0, 0, Some(strans(None, Some(90.0))))).unwrap();
    assert_eq!(turned.angle, Some(double(90.0)));
    assert_eq!(i.warnings, vec![ImportWarning::InstanceOrientation]);
    i.import_instance(&sref("inv", 0, 0, Some(strans(Some(2.0), None)))).unwrap();
    assert_eq!(i.warnings.len(), 2);
    assert_eq!(i.ctx_stack.len(), 1);
}

#[test]
fn absolute_instances_are_refused() {
    let mut mag = strans(None, None);
    mag.abs_mag = true;
    let mut angle = strans(None, Some(1.0));
    angle.abs_angle = true;
    for settings in [mag, angle] {
        let mut i = importer();
        let (stack, text) = text_of(i.import_instance(&sref("inv", 0, 0, Some(settings))));
        assert_eq!(text, "Unsupported GDSII Instance: Absolute");
        assert_eq!(stack, "[Library(\"lib\"), Instance(\"inv\")]");
        assert_eq!(i.warnings.len(), 0);
        let mut i = importer();
        let x = aref([(0, 0), (4, 0), (0, 4)], 2, 2, Some(settings));
        let (stack, text) = text_of(i.import_instance_array(&x));
        assert_eq!(text, "Unsupported GDSII Instance: Absolute");
        assert_eq!(stack, "[Library(\"lib\"), Array(\"bit\")]");
    }
}

#[test]
fn array_is_walked_column_by_column() {
    let mut i = importer();
    let x = aref([(10, 20), (41, 20), (10, -1)], 3, 2, Some(strans(None, Some(180.0))));
    let insts = i.import_instance_array(&x).unwrap();
    let places: Vec<(isize, isize)> = insts.iter().map(|n| (n.p0.x, n.p0.y)).collect();
    // Steps of 31 / 3 and -21 / 2, rounded toward zero.
    assert_eq!(places, vec![(10, 20), (10, 10), (20, 20), (20, 10), (30, 20), (30, 10)]);
    for n in &insts {
        assert_eq!((n.inst_name.as_str(), n.cell_name.as_str()), ("", "bit"));
        assert!(n.reflect);
        assert_eq!(n.angle, Some(double(180.0)));
        assert!(matches!(&n.cell, CellRef::Name(name) if name == "bit"));
    }
    assert_eq!(i.warnings.len(), 1);
    assert_eq!(i.ctx_stack.len(), 1);
}

#[test]
fn array_stays_inside_its_box() {
    let mut i = importer();
    for (dx, dy) in [(100, 50), (-100, 50), (7, -9), (0, 0), (-1, -1)] {
        let x = aref([(3, 4), (3 + dx, 4), (3, 4 + dy)], 6, 5, None);
        let insts = i.import_instance_array(&x).unwrap();
        assert_eq!(insts.len(), 30);
        for n in &insts {
            let (x, y) = (n.p0.x - 3, n.p0.y - 4);
            assert!(x * (dx as isize) >= 0 && x.abs() <= dx.abs() as isize);
            assert!(y * (dy as isize) >= 0 && y.abs() <= dy.abs() as isize);
        }
    }
}

#[test]
fn array_of_extreme_width() {
    let mut i = importer();
    let x = aref([(i32::MIN, 0), (i32::MAX, 0), (i32::MIN, 0)], 2, 1, None);
    let insts = i.import_instance_array(&x).unwrap();
    assert_eq!(insts[0].p0.x, i32::MIN as isize);
    assert_eq!(insts[1].p0.x, -1);
}

#[test]
fn large_and_backward_arrays() {
    let mut i = importer();
    let x = aref([(0, 0), (256, 0), (0, 256)], 256, 256, None);
    assert_eq!(i.import_instance_array(&x).unwrap().len(), 65536);
    let x = aref([(0, 0), (10, 0), (0, 10)], -2, -3, None);
    assert_eq!(i.import_instance_array(&x).unwrap().len(), 0);
}

#[test]
fn slanted_array_is_refused() {
    for xy in [[(0, 0), (4, 1), (0, 4)], [(0, 0), (4, 0), (1, 4)]] {
        let mut i = importer();
        let (stack, text) = text_of(i.import_instance_array(&aref(xy, 2, 2, None)));
        assert_eq!(text, "Invalid Non-Rectangular GDS Array");
        assert_eq!(stack, "[Library(\"lib\"), Array(\"bit\")]");
    }
}

#[test]
fn points_and_point_vectors() {
    let i = importer();
    assert_eq!(i.import_point(&GdsPoint::new(-1, 2)).unwrap(), Point::new(-1, 2));
    let pts = i.import_point_vec(&gds(&[(0, 1), (i32::MIN, i32::MAX)])).unwrap();
    assert_eq!(pts[0], Point::new(0, 1));
    assert_eq!(pts[1], Point::new(i32::MIN as isize, i32::MAX as isize));
    assert_eq!(pts.len(), 2);
}

#[test]
fn cell_keeps_the_order_of_its_elements() {
    let mut i = importer();
    let s = strukt(
        "top",
        vec![
            GdsElement::GdsBoundary(boundary(5, 0, &[(0, 0), (4, 0), (2, 3), (0, 0)])),
            GdsElement::GdsStructRef(sref("a", 0, 0, None)),
            GdsElement::GdsNode(GdsNode { layer: 1, nodetype: 2, xy: gds(&[(8, 9)]) }),
            GdsElement::GdsPath(GdsPath {
                layer: 6,
                datatype: 0,
                xy: gds(&[(0, 0), (5, 0)]),
                width: Some(2),
            }),
            GdsElement::GdsArrayRef(aref([(0, 0), (2, 0), (0, 2)], 2, 1, None)),
            GdsElement::GdsBox(GdsBox {
                layer: 5,
                boxtype: 1,
                xy: [GdsPoint::new(0, 0); 5],
            }),
            GdsElement::GdsStructRef(sref("b", 1, 1, None)),
        ],
    );
    let cell = i.import_cell(&s).unwrap();
    assert_eq!(cell.name, "top");
    let insts: Vec<&str> = cell.insts.iter().map(|n| n.cell_name.as_str()).collect();
    assert_eq!(insts, vec!["a", "bit", "bit", "b"]);
    assert!(matches!(cell.elems[0].inner, Shape::Poly { .. }));
    assert!(matches!(cell.elems[1].inner, Shape::Path { .. }));
    assert!(matches!(cell.elems[2].inner, Shape::Rect { .. }));
    assert_eq!(cell.elems.len(), 3);
    let keys: Vec<usize> = cell.elems.iter().map(|e| e.layer.index).collect();
    assert_eq!(keys, vec![0, 1, 0]);
    assert_eq!(cell.annotations.len(), 0);
    assert_eq!(i.unsupported.len(), 1);
    match &i.unsupported[0] {
        GdsElement::GdsNode(n) => {
            assert_eq!((n.layer, n.nodetype), (1, 2));
            assert_eq!(n.xy, gds(&[(8, 9)]));
        }
        other => panic!("{:?}", other),
    }
    assert_eq!(i.ctx_stack.len(), 1);
}

#[test]
fn many_elements_keep_their_order() {
    let mut i = importer();
    let elems: Vec<GdsElement> = (0..500)
        .map(|n| {
            let xy = [(n, 0), (n + 1, 0), (n, 3), (n, 0)];
            GdsElement::GdsBoundary(boundary((n % 7) as i16, 0, &xy))
        })
        .collect();
    let cell = i.import_cell(&strukt("many", elems)).unwrap();
    assert_eq!(cell.elems.len(), 500);
    for (n, e) in cell.elems.iter().enumerate() {
        match &e.inner {
            Shape::Poly { pts } => assert_eq!(pts[0], Point::new(n as isize, 0)),
            other => panic!("{:?}", other),
        }
        assert_eq!(i.layers.get(e.layer).unwrap().layernum, (n % 7) as i16);
    }
}

#[test]
fn errors_say_where_they_arose() {
    let mut i = importer();
    let s = strukt("top", vec![GdsElement::GdsBoundary(boundary(1, 1, &[(0, 0), (1, 1)]))]);
    let (stack, _) = text_of(i.import_cell(&s));
    assert_eq!(stack, "[Library(\"lib\"), Cell(\"top\"), Geometry]");
}

#[test]
fn library_is_imported() {
    let lib = library(vec![
        strukt("one", vec![GdsElement::GdsBoundary(boundary(5, 7, &[(0, 0), (1, 1), (0, 0)]))]),
        strukt("two", vec![GdsElement::GdsBoundary(boundary(9, 7, &[(0, 0), (1, 1), (0, 0)]))]),
        strukt("three", vec![GdsElement::GdsBoundary(boundary(5, 8, &[(0, 0), (1, 1), (0, 0)]))]),
    ]);
    assert!(lib.is_importable());
    let r = GdsImporter::import(lib).unwrap();
    assert_eq!(r.name, "lib");
    assert_eq!(r.units, Unit::Nano);
    assert_eq!(r.libs.len(), 0);
    let names: Vec<&str> = r.cells.iter().map(|c| c.name.as_str()).collect();
    assert_eq!(names, vec!["one", "two", "three"]);
    let layers: Vec<i16> = r.layers.layers.iter().map(|l| l.layernum).collect();
    assert_eq!(layers, vec![5, 9]);
    assert_eq!(r.layers.layers[0].purposes.len(), 2);
    assert_eq!(r.cells[2].elems[0].layer.index, 0);
    assert_eq!(r.cells[2].elems[0].purpose, LayerPurpose::Other(8));
}

#[test]
fn report_holds_warnings_and_what_was_left_out() {
    let node = || GdsElement::GdsNode(GdsNode { layer: 1, nodetype: 2, xy: Vec::new() });
    let lib = library(vec![
        strukt("one", vec![node(), GdsElement::GdsStructRef(sref("x", 0, 0, None))]),
        strukt(
            "two",
            vec![
                GdsElement::GdsStructRef(sref("x", 0, 0, Some(strans(Some(1.0), None)))),
                node(),
            ],
        ),
    ]);
    assert!(lib.is_importable());
    let report = GdsImporter::import_report(lib);
    assert!(report.result.is_ok());
    assert_eq!(report.warnings, vec![ImportWarning::InstanceOrientation]);
    assert_eq!(report.unsupported.len(), 2);
}

#[test]
fn rarer_records_are_refused() {
    for n in 0..8 {
        let mut lib = library(Vec::new());
        let f = &mut lib.features;
        let flags = [
            &mut f.libdirsize,
            &mut f.srfname,
            &mut f.libsecur,
            &mut f.reflibs,
            &mut f.fonts,
            &mut f.attrtable,
            &mut f.generations,
            &mut f.format_type,
        ];
        for (k, flag) in flags.into_iter().enumerate() {
            *flag = k == n;
        }
        assert!(lib.is_importable());
        let (stack, text) = text_of(GdsImporter::import(lib));
        assert_eq!(text, "Unsupported GDSII Feature");
        assert_eq!(stack, "[Library(\"lib\")]");
    }
}

#[test]
fn unsupported_unit_fails_the_import() {
    let mut lib = library(Vec::new());
    lib.units = units(1e-3);
    assert!(lib.is_importable());
    match GdsImporter::import(lib) {
        Err(LayoutError::Import { message: ImportMessage::UnsupportedUnit(size), .. }) => {
            assert_eq!(f64::from_bits(size.bits), 1e-3)
        }
        other => panic!("{:?}", other),
    }
}

#[test]
fn what_cannot_be_imported_is_told() {
    let empty = || GdsElement::GdsBoundary(boundary(0, 0, &[]));
    let open = || GdsElement::GdsBoundary(boundary(0, 0, &[(0, 0), (1, 1)]));
    let array = |cols, rows| {
        GdsElement::GdsArrayRef(aref([(0, 0), (2, 0), (0, 2)], cols, rows, None))
    };
    assert!(!library(vec![strukt("a", vec![empty()])]).is_importable());
    assert!(!library(vec![strukt("a", vec![array(0, 1)])]).is_importable());
    assert!(!library(vec![strukt("a", vec![array(1, 0)])]).is_importable());
    assert!(!library(vec![strukt("a", vec![array(-1, 1)])]).is_importable());
    assert!(library(vec![strukt("a", vec![array(-1, -1)])]).is_importable());
    assert!(library(vec![strukt("a", vec![array(3, 4)])]).is_importable());
    // Behind an error it is not come to.
    assert!(library(vec![strukt("a", vec![open(), empty()])]).is_importable());
    let lib = library(vec![strukt("a", vec![open()]), strukt("b", vec![empty()])]);
    assert!(lib.is_importable());
    assert!(GdsImporter::import(lib).is_err());
    let mut lib = library(vec![strukt("a", vec![empty()])]);
    lib.units = units(1.0);
    assert!(lib.is_importable());
}
