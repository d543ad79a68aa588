//! The raw-layout data model: libraries, cells, and what cells hold.

use vstd::prelude::*;

use crate::gdsii::Real;
use crate::geom::Point;
use crate::geom::Shape;
use crate::geom::ShapeView;
use crate::layers::LayerKey;
use crate::layers::LayerPurpose;
use crate::layers::LayerView;
use crate::layers::Layers;
use crate::views::option_view;
use crate::views::views;

verus! {

/// A library's distance unit.
#[derive(Clone, Copy, Debug, PartialEq, Eq, Structural)]
pub enum Unit {
    Micro,
    Nano,
    Angstrom,
}

/// A shape on a layer.
#[derive(Debug)]
pub struct Element {
    /// The name of the net that the shape belongs to.
    pub net: Option<String>,
    pub layer: LayerKey,
    pub purpose: LayerPurpose,
    pub inner: Shape,
}

/// The mathematical value of an [`Element`].
pub struct ElementView {
    pub net: Option<Seq<char>>,
    pub layer: LayerKey,
    pub purpose: LayerPurpose,
    pub inner: ShapeView,
}

impl View for Element {
    type V = ElementView;

    open spec fn view(&self) -> ElementView {
        ElementView {
            net: option_view(self.net),
            layer: self.layer,
            purpose: self.purpose,
            inner: self.inner@,
        }
    }
}

/// A text that labels no shape.
#[derive(Debug)]
pub struct TextElement {
    pub string: String,
    pub loc: Point,
}

/// The mathematical value of a [`TextElement`].
pub struct TextElementView {
    pub string: Seq<char>,
    pub loc: Point,
}

impl View for TextElement {
    type V = TextElementView;

    open spec fn view(&self) -> TextElementView {
        TextElementView { string: self.string@, loc: self.loc }
    }
}

/// A reference to a cell.
#[derive(Debug)]
pub enum CellRef {
    /// By the cell's name.
    Name(String),
}

impl View for CellRef {
    type V = Seq<char>;

    open spec fn view(&self) -> Seq<char> {
        match *self {
            CellRef::Name(name) => name@,
        }
    }
}

/// An instance of a cell.
#[derive(Debug)]
pub struct Instance {
    pub inst_name: String,
    pub cell_name: String,
    pub cell: CellRef,
    pub p0: Point,
    pub reflect: bool,
    pub angle: Option<Real>,
}

/// The mathematical value of an [`Instance`].
pub struct InstanceView {
    pub inst_name: Seq<char>,
    pub cell_name: Seq<char>,
    pub cell: Seq<char>,
    pub p0: Point,
    pub reflect: bool,
    pub angle: Option<Real>,
}

impl View for Instance {
    type V = InstanceView;

    open spec fn view(&self) -> InstanceView {
        InstanceView {
            inst_name: self.inst_name@,
            cell_name: self.cell_name@,
            cell: self.cell@,
            p0: self.p0,
            reflect: self.reflect,
            angle: self.angle,
        }
    }
}

/// A cell definition.
#[derive(Debug)]
pub struct Cell {
    pub name: String,
    pub insts: Vec<Instance>,
    pub elems: Vec<Element>,
    pub annotations: Vec<TextElement>,
}

/// The mathematical value of a [`Cell`].
pub struct CellView {
    pub name: Seq<char>,
    pub insts: Seq<InstanceView>,
    pub elems: Seq<ElementView>,
    pub annotations: Seq<TextElementView>,
}

impl View for Cell {
    type V = CellView;

    open spec fn view(&self) -> CellView {
        CellView {
            name: self.name@,
            insts: views(self.insts@),
            elems: views(self.elems@),
            annotations: views(self.annotations@),
        }
    }
}

/// A library of cells.
#[derive(Debug)]
pub struct Library {
    pub name: String,
    pub units: Unit,
    pub layers: Layers,
    pub cells: Vec<Cell>,
    /// Libraries nested in this one.
    pub libs: Vec<Library>,
}

/// The mathematical value of a [`Library`]. Of the nested libraries it holds the number.
pub struct LibraryView {
    pub name: Seq<char>,
    pub units: Unit,
    pub layers: Seq<LayerView>,
    pub cells: Seq<CellView>,
    pub libs: nat,
}

impl View for Library {
    type V = LibraryView;

    open spec fn view(&self) -> LibraryView {
        LibraryView {
            name: self.name@,
            units: self.units,
            layers: self.layers@,
            cells: views(self.cells@),
            libs: self.libs@.len(),
        }
    }
}

} // verus!
