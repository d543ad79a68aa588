//! The GDSII data model: libraries, structs and elements as a GDSII stream holds them.

use vstd::prelude::*;

use crate::views::views;

verus! {

/// A double-precision number, by its IEEE 754 bits.
#[derive(Clone, Copy, Debug, PartialEq, Eq, Structural)]
pub struct Real {
    pub bits: u64,
}

/// A location, in database units.
#[derive(Clone, Copy, Debug, PartialEq, Eq, Structural)]
pub struct GdsPoint {
    pub x: i32,
    pub y: i32,
}

impl GdsPoint {
    pub fn new(x: i32, y: i32) -> (p: GdsPoint)
        ensures
            p == (GdsPoint { x, y }),
    {
        GdsPoint { x, y }
    }
}

/// Reflection, rotation and magnification of a text or a reference.
#[derive(Clone, Copy, Debug, PartialEq, Eq, Structural)]
pub struct GdsStrans {
    /// Reflection about the x-axis, before rotation.
    pub reflected: bool,
    pub abs_mag: bool,
    pub abs_angle: bool,
    pub mag: Option<Real>,
    /// Degrees, counter-clockwise.
    pub angle: Option<Real>,
}

/// A layer number, and the number of the data type, text type or other type that goes with it.
#[derive(Clone, Copy, Debug, PartialEq, Eq, Structural)]
pub struct GdsLayerSpec {
    pub layer: i16,
    pub xtype: i16,
}

/// A polygon. Its last point repeats its first.
#[derive(Debug)]
pub struct GdsBoundary {
    pub layer: i16,
    pub datatype: i16,
    pub xy: Vec<GdsPoint>,
}

/// The mathematical value of a [`GdsBoundary`].
pub struct GdsBoundaryView {
    pub layer: i16,
    pub datatype: i16,
    pub xy: Seq<GdsPoint>,
}

/// A path along a centre line.
#[derive(Debug)]
pub struct GdsPath {
    pub layer: i16,
    pub datatype: i16,
    pub xy: Vec<GdsPoint>,
    pub width: Option<i32>,
}

/// The mathematical value of a [`GdsPath`].
pub struct GdsPathView {
    pub layer: i16,
    pub datatype: i16,
    pub xy: Seq<GdsPoint>,
    pub width: Option<i32>,
}

/// A rectangle, by its four corners and a repetition of the first.
#[derive(Clone, Copy, Debug)]
pub struct GdsBox {
    pub layer: i16,
    pub boxtype: i16,
    pub xy: [GdsPoint; 5],
}

/// An instance of another struct.
#[derive(Debug)]
pub struct GdsStructRef {
    pub name: String,
    pub xy: GdsPoint,
    pub strans: Option<GdsStrans>,
}

/// The mathematical value of a [`GdsStructRef`].
pub struct GdsStructRefView {
    pub name: Seq<char>,
    pub xy: GdsPoint,
    pub strans: Option<GdsStrans>,
}

/// A two-dimensional array of instances of another struct.
#[derive(Debug)]
pub struct GdsArrayRef {
    pub name: String,
    /// The array's origin, the origin displaced by the width of all columns, and the origin
    /// displaced by the height of all rows.
    pub xy: [GdsPoint; 3],
    pub cols: i16,
    pub rows: i16,
    pub strans: Option<GdsStrans>,
}

/// The mathematical value of a [`GdsArrayRef`].
pub struct GdsArrayRefView {
    pub name: Seq<char>,
    pub xy: [GdsPoint; 3],
    pub cols: i16,
    pub rows: i16,
    pub strans: Option<GdsStrans>,
}

/// A text.
#[derive(Debug)]
pub struct GdsTextElem {
    pub string: String,
    pub layer: i16,
    pub texttype: i16,
    pub xy: GdsPoint,
    pub strans: Option<GdsStrans>,
}

/// The mathematical value of a [`GdsTextElem`].
pub struct GdsTextElemView {
    pub string: Seq<char>,
    pub layer: i16,
    pub texttype: i16,
    pub xy: GdsPoint,
    pub strans: Option<GdsStrans>,
}

/// A node.
#[derive(Debug)]
pub struct GdsNode {
    pub layer: i16,
    pub nodetype: i16,
    pub xy: Vec<GdsPoint>,
}

/// The mathematical value of a [`GdsNode`].
pub struct GdsNodeView {
    pub layer: i16,
    pub nodetype: i16,
    pub xy: Seq<GdsPoint>,
}

/// An element of a struct.
#[derive(Debug)]
pub enum GdsElement {
    GdsBoundary(GdsBoundary),
    GdsPath(GdsPath),
    GdsStructRef(GdsStructRef),
    GdsArrayRef(GdsArrayRef),
    GdsTextElem(GdsTextElem),
    GdsNode(GdsNode),
    GdsBox(GdsBox),
}

/// The mathematical value of a [`GdsElement`].
pub enum GdsElementView {
    GdsBoundary(GdsBoundaryView),
    GdsPath(GdsPathView),
    GdsStructRef(GdsStructRefView),
    GdsArrayRef(GdsArrayRefView),
    GdsTextElem(GdsTextElemView),
    GdsNode(GdsNodeView),
    GdsBox(GdsBox),
}

/// A cell definition.
#[derive(Debug)]
pub struct GdsStruct {
    pub name: String,
    pub elems: Vec<GdsElement>,
}

/// The mathematical value of a [`GdsStruct`].
pub struct GdsStructView {
    pub name: Seq<char>,
    pub elems: Seq<GdsElementView>,
}

/// The sizes of a library's units.
#[derive(Clone, Copy, Debug, PartialEq, Eq, Structural)]
pub struct GdsUnits {
    /// The size of a database unit in user units.
    pub user: Real,
    /// The size of a database unit in meters.
    pub db: Real,
}

/// Which of the rarer library-level records a library has.
#[derive(Clone, Copy, Debug, PartialEq, Eq, Structural)]
pub struct GdsFeatures {
    pub libdirsize: bool,
    pub srfname: bool,
    pub libsecur: bool,
    pub reflibs: bool,
    pub fonts: bool,
    pub attrtable: bool,
    pub generations: bool,
    pub format_type: bool,
}

/// None of the rarer records.
pub open spec fn no_features() -> GdsFeatures {
    GdsFeatures {
        libdirsize: false,
        srfname: false,
        libsecur: false,
        reflibs: false,
        fonts: false,
        attrtable: false,
        generations: false,
        format_type: false,
    }
}

impl GdsFeatures {
    /// None of the records.
    pub fn none() -> (f: GdsFeatures)
        ensures
            f == no_features(),
    {
        GdsFeatures {
            libdirsize: false,
            srfname: false,
            libsecur: false,
            reflibs: false,
            fonts: false,
            attrtable: false,
            generations: false,
            format_type: false,
        }
    }

    /// Whether there is at least one of the records.
    pub fn has_any(&self) -> (r: bool)
        ensures
            r == self.any(),
    {
        self.libdirsize || self.srfname || self.libsecur || self.reflibs || self.fonts
            || self.attrtable || self.generations || self.format_type
    }

    /// There is at least one of the records.
    pub open spec fn any(self) -> bool {
        ||| self.libdirsize
        ||| self.srfname
        ||| self.libsecur
        ||| self.reflibs
        ||| self.fonts
        ||| self.attrtable
        ||| self.generations
        ||| self.format_type
    }
}

/// A GDSII library.
#[derive(Debug)]
pub struct GdsLibrary {
    pub name: String,
    pub features: GdsFeatures,
    pub units: GdsUnits,
    pub structs: Vec<GdsStruct>,
}

/// The mathematical value of a [`GdsLibrary`].
pub struct GdsLibraryView {
    pub name: Seq<char>,
    pub features: GdsFeatures,
    pub units: GdsUnits,
    pub structs: Seq<GdsStructView>,
}

impl View for GdsBoundary {
    type V = GdsBoundaryView;

    open spec fn view(&self) -> GdsBoundaryView {
        GdsBoundaryView { layer: self.layer, datatype: self.datatype, xy: self.xy@ }
    }
}

impl View for GdsPath {
    type V = GdsPathView;

    open spec fn view(&self) -> GdsPathView {
        GdsPathView {
            layer: self.layer,
            datatype: self.datatype,
            xy: self.xy@,
            width: self.width,
        }
    }
}

impl View for GdsStructRef {
    type V = GdsStructRefView;

    open spec fn view(&self) -> GdsStructRefView {
        GdsStructRefView { name: self.name@, xy: self.xy, strans: self.strans }
    }
}

impl View for GdsArrayRef {
    type V = GdsArrayRefView;

    open spec fn view(&self) -> GdsArrayRefView {
        GdsArrayRefView {
            name: self.name@,
            xy: self.xy,
            cols: self.cols,
            rows: self.rows,
            strans: self.strans,
        }
    }
}

impl View for GdsTextElem {
    type V = GdsTextElemView;

    open spec fn view(&self) -> GdsTextElemView {
        GdsTextElemView {
            string: self.string@,
            layer: self.layer,
            texttype: self.texttype,
            xy: self.xy,
            strans: self.strans,
        }
    }
}

impl View for GdsNode {
    type V = GdsNodeView;

    open spec fn view(&self) -> GdsNodeView {
        GdsNodeView { layer: self.layer, nodetype: self.nodetype, xy: self.xy@ }
    }
}

impl Clone for GdsNode {
    fn clone(&self) -> (r: Self)
        ensures
            r@ == self@,
    {
        let xy = self.xy.clone();
        assert(xy@ =~= self.xy@);
        GdsNode { layer: self.layer, nodetype: self.nodetype, xy }
    }
}

impl View for GdsElement {
    type V = GdsElementView;

    open spec fn view(&self) -> GdsElementView {
        match *self {
            GdsElement::GdsBoundary(x) => GdsElementView::GdsBoundary(x@),
            GdsElement::GdsPath(x) => GdsElementView::GdsPath(x@),
            GdsElement::GdsStructRef(x) => GdsElementView::GdsStructRef(x@),
            GdsElement::GdsArrayRef(x) => GdsElementView::GdsArrayRef(x@),
            GdsElement::GdsTextElem(x) => GdsElementView::GdsTextElem(x@),
            GdsElement::GdsNode(x) => GdsElementView::GdsNode(x@),
            GdsElement::GdsBox(x) => GdsElementView::GdsBox(x),
        }
    }
}

impl View for GdsStruct {
    type V = GdsStructView;

    open spec fn view(&self) -> GdsStructView {
        GdsStructView { name: self.name@, elems: views(self.elems@) }
    }
}

impl View for GdsLibrary {
    type V = GdsLibraryView;

    open spec fn view(&self) -> GdsLibraryView {
        GdsLibraryView {
            name: self.name@,
            features: self.features,
            units: self.units,
            structs: views(self.structs@),
        }
    }
}

/// An element that lies on a layer.
pub trait HasLayer {
    /// The layer and type numbers of the element.
    spec fn numbers(&self) -> GdsLayerSpec;

    /// The layer and type numbers of the element.
    fn layerspec(&self) -> (r: GdsLayerSpec)
        ensures
            r == self.numbers(),
    ;
}

impl HasLayer for GdsBoundary {
    open spec fn numbers(&self) -> GdsLayerSpec {
        GdsLayerSpec { layer: self.layer, xtype: self.datatype }
    }

    fn layerspec(&self) -> GdsLayerSpec {
        GdsLayerSpec { layer: self.layer, xtype: self.datatype }
    }
}

impl HasLayer for GdsPath {
    open spec fn numbers(&self) -> GdsLayerSpec {
        GdsLayerSpec { layer: self.layer, xtype: self.datatype }
    }

    fn layerspec(&self) -> GdsLayerSpec {
        GdsLayerSpec { layer: self.layer, xtype: self.datatype }
    }
}

impl HasLayer for GdsBox {
    open spec fn numbers(&self) -> GdsLayerSpec {
        GdsLayerSpec { layer: self.layer, xtype: self.boxtype }
    }

    fn layerspec(&self) -> GdsLayerSpec {
        GdsLayerSpec { layer: self.layer, xtype: self.boxtype }
    }
}

} // verus!
