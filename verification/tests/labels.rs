use layout21_gds::error::{ImportMessage, LayoutError};
use layout21_gds::gdsii::{GdsBox, GdsElement, GdsPoint, GdsStruct, GdsTextElem};
use layout21_gds::geom::{Point, Shape};
use layout21_gds::import::GdsImporter;
use layout21_gds::layers::{LayerKey, LayerPurpose};
use layout21_gds::layout::{Cell, Element};

fn importer() -> GdsImporter {
    GdsImporter::new(&"lib".to_string())
}

fn rect(layer: i16, x0: i32, y0: i32, x1: i32, y1: i32) -> GdsElement {
    let (a, b) = (GdsPoint::new(x0, y0), GdsPoint::new(x1, y1));
    let xy = [a, GdsPoint::new(x1, y0), b, GdsPoint::new(x0, y1), a];
    GdsElement::GdsBox(GdsBox { layer, boxtype: 0, xy })
}

fn text_elem(layer: i16, string: &str, x: i32, y: i32) -> GdsTextElem {
    GdsTextElem {
        string: string.to_string(),
        layer,
        texttype: 5,
        xy: GdsPoint::new(x, y),
        strans: None,
    }
}

fn text(layer: i16, string: &str, x: i32, y: i32) -> GdsElement {
    GdsElement::GdsTextElem(text_elem(layer, string, x, y))
}

fn import(elems: Vec<GdsElement>) -> Result<Cell, LayoutError> {
    importer().import_cell(&GdsStruct { name: "c".to_string(), elems })
}

fn nets(cell: &Cell) -> Vec<Option<&str>> {
    cell.elems.iter().map(|e| e.net.as_deref()).collect()
}

#[test]
fn labels_name_nets_in_lower_case() {
    let cell = import(vec![
        text(1, "VDD!", 1, 1),
        rect(1, 0, 0, 4, 4),
        rect(1, 10, 0, 14, 4),
        text(1, "\u{c4}b\u{130}", 12, 2),
    ])
    .unwrap();
    assert_eq!(nets(&cell), vec![Some("vdd!"), Some("\u{e4}bi\u{307}")]);
    assert_eq!(cell.annotations.len(), 0);
}

#[test]
fn label_names_every_shape_that_it_lies_in() {
    let cell = import(vec![
        rect(1, 0, 0, 4, 4),
        rect(1, 4, 4, 8, 8),
        rect(1, 5, 5, 8, 8),
        rect(2, 0, 0, 8, 8),
        text(1, "A", 4, 4),
    ])
    .unwrap();
    assert_eq!(nets(&cell), vec![Some("a"), Some("a"), None, None]);
}

#[test]
fn text_outside_shapes_of_its_layer_is_an_annotation() {
    let cell = import(vec![
        rect(1, 0, 0, 4, 4),
        text(1, "Outside", 9, 9),
        text(2, "No Such Layer", 1, 1),
        text(1, "in", 1, 1),
        text(1, "Far", -9, -9),
    ])
    .unwrap();
    assert_eq!(nets(&cell), vec![Some("in")]);
    let notes: Vec<(&str, Point)> =
        cell.annotations.iter().map(|a| (a.string.as_str(), a.loc)).collect();
    assert_eq!(
        notes,
        vec![
            ("Outside", Point::new(9, 9)),
            ("No Such Layer", Point::new(1, 1)),
            ("Far", Point::new(-9, -9)),
        ]
    );
}

#[test]
fn labels_that_differ_by_case_agree() {
    let cell = import(vec![
        rect(1, 0, 0, 4, 4),
        text(1, "Clk", 1, 1),
        text(1, "CLK", 2, 2),
        text(1, "clk", 3, 3),
    ])
    .unwrap();
    assert_eq!(nets(&cell), vec![Some("clk")]);
}

#[test]
fn labels_of_two_nets_short_them() {
    let r = import(vec![
        rect(-4, 0, 0, 4, 4),
        text(-4, "VDD", 1, 1),
        text(-4, "Vss", 2, 2),
    ]);
    match r {
        Err(LayoutError::Import { stack, message: ImportMessage::Text(message) }) => {
            assert_eq!(message, "GDSII labels shorting nets vdd and Vss on layer -4");
            assert_eq!(format!("{:?}", stack), "[Library(\"lib\"), Cell(\"c\")]");
        }
        other => panic!("{:?}", other),
    }
}

#[test]
fn first_shorted_shape_is_reported() {
    let r = import(vec![
        rect(1, 0, 0, 2, 2),
        rect(1, 10, 0, 12, 2),
        rect(1, 0, 0, 12, 1),
        text(1, "x", 0, 2),
        text(1, "y", 12, 2),
        text(1, "z", 5, 0),
        text(1, "w", 1, 1),
    ]);
    match r {
        Err(LayoutError::Import { message: ImportMessage::Text(message), .. }) => {
            assert_eq!(message, "GDSII labels shorting nets x and w on layer 1");
        }
        other => panic!("{:?}", other),
    }
}

#[test]
fn nets_are_assigned_one_by_one() {
    let i = importer();
    let mut elem = Element {
        net: None,
        layer: LayerKey { index: 0 },
        purpose: LayerPurpose::Drawing,
        inner: Shape::Rect { p0: Point::new(0, 0), p1: Point::new(1, 1) },
    };
    let text = text_elem(12, "NET", 0, 0);
    i.assign_net(&mut elem, &text, "net".to_string()).unwrap();
    assert_eq!(elem.net.as_deref(), Some("net"));
    i.assign_net(&mut elem, &text, "net".to_string()).unwrap();
    match i.assign_net(&mut elem, &text_elem(12, "Other", 0, 0), "other".to_string()) {
        Err(LayoutError::Import { message: ImportMessage::Text(message), .. }) => {
            assert_eq!(message, "GDSII labels shorting nets net and Other on layer 12");
        }
        other => panic!("{:?}", other),
    }
    assert_eq!(elem.net.as_deref(), Some("net"));
}
