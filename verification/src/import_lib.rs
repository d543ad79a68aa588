//! Import of whole GDSII libraries.

use vstd::prelude::*;

use crate::error::result_view;
use crate::error::ImportContext;
use crate::error::ImportContextView;
use crate::error::LayoutErrorView;
use crate::error::LayoutResult;
use crate::gdsii::GdsArrayRef;
use crate::gdsii::GdsElement;
use crate::gdsii::GdsElementView;
use crate::gdsii::GdsLibrary;
use crate::gdsii::GdsLibraryView;
use crate::gdsii::GdsStrans;
use crate::gdsii::GdsStruct;
use crate::gdsii::GdsStructView;
use crate::import::array_ready;
use crate::import::import_units_spec;
use crate::import::is_absolute;
use crate::import::is_rectangular;
use crate::import::unit_of;
use crate::import::GdsImporter;
use crate::import::GdsImporterView;
use crate::import::ImportWarning;
use crate::import_cell::cell_ready;
use crate::import_cell::import_cell_spec;
use crate::import_cell::scan_ready;
use crate::import_cell::scan_step;
use crate::import_cell::step_ready;
use crate::import_cell::ScanView;
use crate::layers::Layers;
use crate::layout::Cell;
use crate::layout::CellView;
use crate::layout::Library;
use crate::layout::LibraryView;
use crate::slots::MAX_ELEMENTS;
use crate::views::lemma_views_push;
use crate::views::views;

verus! {

/// The import of the cells `structs`, up to the first error, behind the cells `done`.
pub open spec fn import_cells(
    s: GdsImporterView,
    done: Seq<CellView>,
    structs: Seq<GdsStructView>,
) -> (GdsImporterView, Result<Seq<CellView>, LayoutErrorView>)
    decreases structs.len(),
{
    if structs.len() == 0 {
        (s, Ok(done))
    } else {
        match import_cell_spec(s, structs[0]) {
            (next, Ok(cell)) => import_cells(next, done.push(cell), structs.drop_first()),
            (next, Err(e)) => (next, Err(e)),
        }
    }
}

/// The import of the cells `structs` has a result: that of each cell up to the first error has.
pub open spec fn cells_ready(s: GdsImporterView, structs: Seq<GdsStructView>) -> bool
    decreases structs.len(),
{
    structs.len() == 0 || {
        let (next, r) = import_cell_spec(s, structs[0]);
        cell_ready(s, structs[0]) && (r is Ok ==> cells_ready(next, structs.drop_first()))
    }
}

/// The import of a library, but for its layers, which remain with the importer.
pub open spec fn import_lib_spec(s: GdsImporterView, lib: GdsLibraryView) -> (
    GdsImporterView,
    Result<LibraryView, LayoutErrorView>,
) {
    if lib.features.any() {
        (s, Err(s.failure_text("Unsupported GDSII Feature"@)))
    } else {
        match import_units_spec(s, lib.units) {
            (t, Err(e)) => (t, Err(e)),
            (t, Ok(units)) => match import_cells(t, Seq::empty(), lib.structs) {
                (u, Err(e)) => (u, Err(e)),
                (u, Ok(cells)) => (
                    u,
                    Ok(LibraryView { name: lib.name, units, layers: Seq::empty(), cells, libs: 0 }),
                ),
            },
        }
    }
}

/// The import of a library has a result.
pub open spec fn lib_ready(s: GdsImporterView, lib: GdsLibraryView) -> bool {
    !lib.features.any() && unit_of(lib.units.db) is Some ==> cells_ready(s, lib.structs)
}

/// The importer of the library `name`, before it has imported anything.
pub open spec fn new_importer(name: Seq<char>) -> GdsImporterView {
    GdsImporterView {
        layers: Seq::empty(),
        ctx_stack: seq![ImportContextView::Library(name)],
        unsupported: Seq::empty(),
        warnings: Seq::empty(),
    }
}

/// The import of a library, with its layers, and the importer afterwards.
pub open spec fn import_spec(lib: GdsLibraryView) -> (
    GdsImporterView,
    Result<LibraryView, LayoutErrorView>,
) {
    match import_lib_spec(new_importer(lib.name), lib) {
        (s, Ok(r)) => (s, Ok(LibraryView { layers: s.layers, ..r })),
        (s, Err(e)) => (s, Err(e)),
    }
}

/// Whatever comes before it, the import of `elem` has a result.
pub open spec fn element_importable(elem: GdsElementView) -> bool {
    match elem {
        GdsElementView::GdsBoundary(x) => x.xy.len() > 0,
        GdsElementView::GdsArrayRef(x) => array_ready(x),
        _ => true,
    }
}

/// Whatever comes before it, the import of `strukt` has a result.
pub open spec fn struct_importable(strukt: GdsStructView) -> bool {
    &&& strukt.elems.len() <= MAX_ELEMENTS
    &&& forall|i: int|
        0 <= i < strukt.elems.len() ==> element_importable(#[trigger] strukt.elems[i])
}

/// Whichever of them is reached, the import of each of the library's structs has a result.
pub open spec fn library_importable(lib: GdsLibraryView) -> bool {
    forall|i: int| 0 <= i < lib.structs.len() ==> struct_importable(#[trigger] lib.structs[i])
}

/// Importable elements can be imported one after the other.
proof fn lemma_scan_ready(st: ScanView, elems: Seq<GdsElementView>)
    requires
        st.shapes.len() + elems.len() <= MAX_ELEMENTS,
        forall|i: int| 0 <= i < elems.len() ==> element_importable(#[trigger] elems[i]),
    ensures
        scan_ready(st, elems),
    decreases elems.len(),
{
    if elems.len() > 0 {
        assert(element_importable(elems[0]));
        let (next, error) = scan_step(st, elems[0]);
        if error is None {
            assert forall|i: int| 0 <= i < elems.len() - 1 implies element_importable(
                #[trigger] elems.drop_first()[i],
            ) by {
                assert(element_importable(elems[i + 1]));
            }
            lemma_scan_ready(next, elems.drop_first());
        }
    }
}

/// Importable structs can be imported one after the other.
proof fn lemma_cells_ready(s: GdsImporterView, structs: Seq<GdsStructView>)
    requires
        forall|i: int| 0 <= i < structs.len() ==> struct_importable(#[trigger] structs[i]),
    ensures
        cells_ready(s, structs),
    decreases structs.len(),
{
    if structs.len() > 0 {
        assert(struct_importable(structs[0]));
        lemma_scan_ready(
            ScanView::start(s.entered(ImportContextView::Cell(structs[0].name))),
            structs[0].elems,
        );
        let (next, _) = import_cell_spec(s, structs[0]);
        assert forall|i: int| 0 <= i < structs.len() - 1 implies struct_importable(
            #[trigger] structs.drop_first()[i],
        ) by {
            assert(struct_importable(structs[i + 1]));
        }
        lemma_cells_ready(next, structs.drop_first());
    }
}

/// A library in which every boundary has points, every array has columns and rows, and no struct
/// has too many elements, can be imported, or there is an error to say why not.
pub proof fn law_importable(s: GdsImporterView, lib: GdsLibraryView)
    requires
        library_importable(lib),
    ensures
        lib_ready(s, lib),
{
    lemma_cells_ready(s, lib.structs);
}

/// What an import gives: its result, what was warned of, and the elements that were left out.
#[derive(Debug)]
pub struct ImportReport {
    pub result: LayoutResult<Library>,
    pub warnings: Vec<ImportWarning>,
    pub unsupported: Vec<GdsElement>,
}

impl GdsArrayRef {
    /// Whether the import of this array has a result.
    fn is_ready(&self) -> (r: bool)
        ensures
            r == array_ready(self@),
    {
        if !self.is_straight() {
            return true;
        }
        let cols: i32 = self.cols as i32;
        let rows: i32 = self.rows as i32;
        assert(cols * rows > 0 <==> (cols > 0 && rows > 0) || (cols < 0 && rows < 0))
            by (nonlinear_arith);
        cols != 0 && rows != 0 && (is_absolute_setting(&self.strans) || ((cols > 0) == (rows > 0)))
    }

    /// Whether the sides of this array run along the axes.
    fn is_straight(&self) -> (r: bool)
        ensures
            r == is_rectangular(self@),
    {
        self.xy[0].y == self.xy[1].y && self.xy[0].x == self.xy[2].x
    }
}

/// Whether magnification or rotation do not follow those of the surrounding instances.
fn is_absolute_setting(strans: &Option<GdsStrans>) -> (r: bool)
    ensures
        r == is_absolute(*strans),
{
    match strans {
        Some(t) => t.abs_mag || t.abs_angle,
        None => false,
    }
}

impl GdsElement {
    /// Whether the first pass over this element, behind `shapes` shapes, has a result.
    fn is_ready(&self, shapes: usize, Ghost(st): Ghost<ScanView>) -> (r: bool)
        requires
            shapes == st.shapes.len(),
        ensures
            r == step_ready(st, self@),
    {
        match self {
            GdsElement::GdsBoundary(x) => x.xy.len() > 0 && (x.xy[0] != x.xy[x.xy.len() - 1]
                || shapes < MAX_ELEMENTS),
            GdsElement::GdsPath(x) => x.width.is_none() || shapes < MAX_ELEMENTS,
            GdsElement::GdsBox(_) => shapes < MAX_ELEMENTS,
            GdsElement::GdsArrayRef(x) => x.is_ready(),
            _ => true,
        }
    }

    /// Whether the first pass over this element succeeds, and with how many shapes.
    fn shapes_if_sound(&self, Ghost(st): Ghost<ScanView>) -> (r: Option<usize>)
        requires
            step_ready(st, self@),
        ensures
            match r {
                Some(n) => {
                    &&& scan_step(st, self@).1 is None
                    &&& scan_step(st, self@).0.shapes.len() == st.shapes.len() + n
                    &&& n <= 1
                },
                None => scan_step(st, self@).1 is Some,
            },
    {
        let (sound, shapes): (bool, usize) = match self {
            GdsElement::GdsBoundary(x) => (x.xy[0] == x.xy[x.xy.len() - 1], 1),
            GdsElement::GdsPath(x) => (x.width.is_some(), 1),
            GdsElement::GdsBox(_) => (true, 1),
            GdsElement::GdsArrayRef(x) => (
                x.is_straight() && !is_absolute_setting(&x.strans),
                0,
            ),
            GdsElement::GdsStructRef(x) => (!is_absolute_setting(&x.strans), 0),
            _ => (true, 0),
        };
        if sound {
            Some(shapes)
        } else {
            None
        }
    }
}

impl GdsStruct {
    /// Whether the import of this struct, by the importer `s`, has a result.
    fn is_ready(&self, Ghost(s): Ghost<GdsImporterView>) -> (r: bool)
        ensures
            r == cell_ready(s, self@),
    {
        let ghost mut st = ScanView::start(s.entered(ImportContextView::Cell(self@.name)));
        assert(self@.elems.skip(0) =~= self@.elems);
        let mut shapes: usize = 0;
        let mut i: usize = 0;
        while i < self.elems.len()
            invariant
                i <= self.elems@.len(),
                shapes <= i,
                shapes == st.shapes.len(),
                cell_ready(s, self@) == scan_ready(st, self@.elems.skip(i as int)),
            decreases self.elems.len() - i,
        {
            let elem = &self.elems[i];
            let ghost rest = self@.elems.skip(i as int);
            assert(rest[0] == elem@);
            assert(rest.drop_first() =~= self@.elems.skip(i + 1));
            if !elem.is_ready(shapes, Ghost(st)) {
                return false;
            }
            match elem.shapes_if_sound(Ghost(st)) {
                Some(n) => {
                    shapes += n;
                },
                None => return true,
            }
            proof {
                st = scan_step(st, elem@).0;
            }
            i += 1;
        }
        assert(self@.elems.skip(i as int).len() == 0);
        true
    }
}

impl GdsLibrary {
    /// Whether [`GdsImporter::import`] can be called: no element that the import comes to is one
    /// that it has neither a result nor an error for, such as a boundary without points, or an
    /// array without columns or rows.
    pub fn is_importable(&self) -> (r: bool)
        ensures
            r == lib_ready(new_importer(self@.name), self@),
    {
        let mut importer = GdsImporter::new(&self.name);
        if self.features.has_any() || importer.import_units(&self.units).is_err() {
            return true;
        }
        assert(self@.structs.skip(0) =~= self@.structs);
        let mut i: usize = 0;
        while i < self.structs.len()
            invariant
                i <= self.structs@.len(),
                lib_ready(new_importer(self@.name), self@) == cells_ready(
                    importer@,
                    self@.structs.skip(i as int),
                ),
            decreases self.structs.len() - i,
        {
            let strukt = &self.structs[i];
            let ghost rest = self@.structs.skip(i as int);
            assert(rest[0] == strukt@);
            assert(rest.drop_first() =~= self@.structs.skip(i + 1));
            if !strukt.is_ready(Ghost(importer@)) {
                return false;
            }
            if importer.import_cell(strukt).is_err() {
                return true;
            }
            i += 1;
        }
        assert(self@.structs.skip(i as int).len() == 0);
        true
    }
}

impl GdsImporter {
    /// The importer of the library `name`, before it has imported anything.
    pub fn new(name: &String) -> (r: GdsImporter)
        ensures
            r@ == new_importer(name@),
    {
        let mut ctx_stack: Vec<ImportContext> = Vec::new();
        ctx_stack.push(ImportContext::Library(name.clone()));
        let importer = GdsImporter {
            layers: Layers::new(),
            ctx_stack,
            unsupported: Vec::new(),
            warnings: Vec::new(),
        };
        assert(importer@.ctx_stack =~= new_importer(name@).ctx_stack);
        assert(importer@.unsupported =~= Seq::<GdsElementView>::empty());
        importer
    }

    /// Imports a library: everything but its layers, which remain in `layers`.
    pub fn import_lib(&mut self, gdslib: &GdsLibrary) -> (r: LayoutResult<Library>)
        requires
            lib_ready(old(self)@, gdslib@),
        ensures
            (final(self)@, result_view(r)) == import_lib_spec(old(self)@, gdslib@),
    {
        if gdslib.features.has_any() {
            return self.err_text("Unsupported GDSII Feature");
        }
        let units = self.import_units(&gdslib.units)?;
        let ghost all = import_cells(self@, Seq::empty(), gdslib@.structs);
        let mut cells: Vec<Cell> = Vec::new();
        assert(views(cells@) =~= Seq::<CellView>::empty());
        assert(gdslib@.structs.skip(0) =~= gdslib@.structs);
        let mut i: usize = 0;
        while i < gdslib.structs.len()
            invariant
                i <= gdslib.structs@.len(),
                all == import_cells(self@, views(cells@), gdslib@.structs.skip(i as int)),
                cells_ready(self@, gdslib@.structs.skip(i as int)),
                import_lib_spec(old(self)@, gdslib@) == (match all {
                    (u, Err(e)) => (u, Err::<LibraryView, LayoutErrorView>(e)),
                    (u, Ok(cells)) => (
                        u,
                        Ok::<LibraryView, LayoutErrorView>(
                            LibraryView {
                                name: gdslib@.name,
                                units,
                                layers: Seq::empty(),
                                cells,
                                libs: 0,
                            },
                        ),
                    ),
                }),
            decreases gdslib.structs.len() - i,
        {
            let ghost rest = gdslib@.structs.skip(i as int);
            assert(rest[0] == gdslib.structs@[i as int]@);
            assert(rest.drop_first() =~= gdslib@.structs.skip(i + 1));
            let cell = self.import_cell(&gdslib.structs[i])?;
            proof {
                lemma_views_push(cells@, cell);
            }
            cells.push(cell);
            i += 1;
        }
        assert(gdslib@.structs.skip(i as int).len() == 0);
        Ok(
            Library {
                name: gdslib.name.clone(),
                units,
                layers: Layers::new(),
                cells,
                libs: Vec::new(),
            },
        )
    }

    /// Imports a library, and reports what was warned of and what was left out.
    pub fn import_report(lib: GdsLibrary) -> (r: ImportReport)
        requires
            lib_ready(new_importer(lib@.name), lib@),
        ensures
            result_view(r.result) == import_spec(lib@).1,
            r.warnings@ == import_spec(lib@).0.warnings,
            views(r.unsupported@) == import_spec(lib@).0.unsupported,
    {
        let mut importer = GdsImporter::new(&lib.name);
        let imported = importer.import_lib(&lib);
        let GdsImporter { layers, ctx_stack: _, unsupported, warnings } = importer;
        let result = match imported {
            Ok(library) => {
                let Library { name, units, layers: _, cells, libs } = library;
                Ok(Library { name, units, layers, cells, libs })
            },
            Err(e) => Err(e),
        };
        ImportReport { result, warnings, unsupported }
    }

    /// Imports a library.
    pub fn import(lib: GdsLibrary) -> (r: LayoutResult<Library>)
        requires
            lib_ready(new_importer(lib@.name), lib@),
        ensures
            result_view(r) == import_spec(lib@).1,
    {
        GdsImporter::import_report(lib).result
    }
}

} // verus!
