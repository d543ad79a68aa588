//! Laws of the import of single elements, told by the fields of what is imported and of what comes
//! out.

use vstd::prelude::*;

use crate::error::ImportContextView;
use crate::error::ImportMessageView;
use crate::error::LayoutErrorView;
use crate::gdsii::GdsArrayRefView;
use crate::gdsii::GdsBoundaryView;
use crate::gdsii::GdsBox;
use crate::gdsii::GdsPathView;
use crate::gdsii::GdsPoint;
use crate::gdsii::GdsStrans;
use crate::gdsii::GdsStructRefView;
use crate::gdsii::GdsUnits;
use crate::geom::Point;
use crate::geom::ShapeView;
use crate::import::array_ready;
use crate::import::import_boundary_spec;
use crate::import::import_box_spec;
use crate::import::import_instance_array_spec;
use crate::import::import_instance_spec;
use crate::import::import_path_spec;
use crate::import::import_units_spec;
use crate::import::lemma_step;
use crate::import::point;
use crate::import::points;
use crate::import::quotient;
use crate::import::GdsImporterView;
use crate::laws_layers::is_last_with;
use crate::laws_layers::law_layer_asked;
use crate::layers::LayerView;
use crate::layout::ElementView;
use crate::layout::InstanceView;
use crate::layout::Unit;

verus! {

/// `p` lies where `q` does.
pub open spec fn is_at(p: Point, q: GdsPoint) -> bool {
    p.x == q.x && p.y == q.y
}

/// A point is imported with its coordinates.
pub proof fn law_import_point(q: GdsPoint)
    ensures
        is_at(point(q), q),
{
}

/// The failure that says `text`, in the contexts of `s` and in `context` inside them.
pub open spec fn fails_in(
    s: GdsImporterView,
    context: ImportContextView,
    text: Seq<char>,
) -> LayoutErrorView {
    LayoutErrorView::Import {
        stack: s.ctx_stack.push(context),
        message: ImportMessageView::Text(text),
    }
}

/// `bits` lie so close to those of `unit`, in steps from one double to the next, that the distance
/// of the two doubles is less than the double whose digits are `tolerance` and whose steps are 1024
/// times as small.
pub open spec fn is_near(bits: u64, unit: int, tolerance: int) -> bool {
    1024 * (bits - unit) < tolerance && 1024 * (unit - bits) < tolerance
}

/// A database unit is taken for an angstrom, a nanometer or a micrometer if and only if it differs
/// from it, as a double, by less than the double closest to a thousandth of it. Any other is
/// refused, and named in the error. Nothing else about the importer changes.
pub proof fn law_import_units(s: GdsImporterView, units: GdsUnits)
    ensures
        ({
            let bits = units.db.bits;
            let (t, r) = import_units_spec(s, units);
            // 1e-10 and 1e-13, 1e-9 and 1e-12, 1e-6 and 1e-9.
            let angstrom = is_near(bits, 0x3ddb_7cdf_d9d7_bdbb, 0x1c_25c2_6849_7682);
            let nano = is_near(bits, 0x3e11_2e0b_e826_d695, 0x11_9799_812d_ea11);
            let micro = is_near(bits, 0x3eb0_c6f7_a0b5_ed8d, 0x11_2e0b_e826_d695);
            &&& angstrom <==> r == Ok::<Unit, LayoutErrorView>(Unit::Angstrom)
            &&& nano <==> r == Ok::<Unit, LayoutErrorView>(Unit::Nano)
            &&& micro <==> r == Ok::<Unit, LayoutErrorView>(Unit::Micro)
            &&& r is Ok ==> t == s
            &&& r is Err ==> r->Err_0 == (LayoutErrorView::Import {
                stack: s.ctx_stack.push(ImportContextView::Units),
                message: ImportMessageView::UnsupportedUnit(units.db),
            })
        }),
{
}

/// The settings of a reference ask for absolute magnification or rotation.
pub open spec fn asks_absolute(strans: Option<GdsStrans>) -> bool {
    strans is Some && (strans->0.abs_mag || strans->0.abs_angle)
}

/// `inst` is an unnamed instance of the cell `name`, reflected if and only if the settings say so,
/// and turned as they say.
pub open spec fn is_instance_of(
    inst: InstanceView,
    name: Seq<char>,
    strans: Option<GdsStrans>,
) -> bool {
    &&& inst.inst_name.len() == 0
    &&& inst.cell_name == name
    &&& inst.cell == name
    &&& inst.reflect <==> strans is Some && strans->0.reflected
    &&& strans is Some ==> inst.angle == strans->0.angle
    &&& strans is None ==> inst.angle is None
}

/// `t` is `s`, but that it has warned once more if the settings magnify or turn.
pub open spec fn has_warned(
    s: GdsImporterView,
    t: GdsImporterView,
    strans: Option<GdsStrans>,
) -> bool {
    &&& t.layers == s.layers
    &&& t.ctx_stack == s.ctx_stack
    &&& t.unsupported == s.unsupported
    &&& s.warnings.is_prefix_of(t.warnings)
    &&& t.warnings.len() == s.warnings.len() + (if strans is Some && (strans->0.mag is Some
        || strans->0.angle is Some) {
        1int
    } else {
        0
    })
}

/// A reference is imported unless its settings are absolute: as an instance of the cell that it
/// names, where it lies, reflected if and only if its settings say so, and turned as they say.
pub proof fn law_import_instance(s: GdsImporterView, x: GdsStructRefView)
    ensures
        ({
            let (t, r) = import_instance_spec(s, x);
            &&& r is Err <==> asks_absolute(x.strans)
            &&& r matches Ok(inst) ==> is_instance_of(inst, x.name, x.strans) && is_at(
                inst.p0,
                x.xy,
            ) && has_warned(s, t, x.strans)
            &&& r matches Err(e) ==> e == fails_in(
                s,
                ImportContextView::Instance(x.name),
                "Unsupported GDSII Instance: Absolute"@,
            )
        }),
{
    let (t, r) = import_instance_spec(s, x);
    if r is Ok {
        assert(s.warnings.is_prefix_of(t.warnings));
    }
}

/// An array is imported if and only if its sides run along the axes and its settings are not
/// absolute: as one instance for each column and row, of the cell that it names, reflected if and
/// only if its settings say so, and turned as they say.
pub proof fn law_import_array(s: GdsImporterView, x: GdsArrayRefView)
    ensures
        ({
            let (t, r) = import_instance_array_spec(s, x);
            let slanted = x.xy[0].y != x.xy[1].y || x.xy[0].x != x.xy[2].x;
            &&& r is Err <==> slanted || asks_absolute(x.strans)
            &&& r matches Ok(insts) ==> {
                &&& x.cols > 0 && x.rows > 0 ==> insts.len() == x.cols * x.rows
                &&& x.cols <= 0 || x.rows <= 0 ==> insts.len() == 0
                &&& forall|k: int|
                    0 <= k < insts.len() ==> is_instance_of(#[trigger] insts[k], x.name, x.strans)
                &&& has_warned(s, t, x.strans)
            }
            &&& r matches Err(e) ==> e == fails_in(
                s,
                ImportContextView::Array(x.name),
                if slanted {
                    "Invalid Non-Rectangular GDS Array"@
                } else {
                    "Unsupported GDSII Instance: Absolute"@
                },
            )
        }),
{
    let (t, r) = import_instance_array_spec(s, x);
    if r is Ok {
        assert(s.warnings.is_prefix_of(t.warnings));
    }
    assert(x.cols > 0 && x.rows > 0 ==> x.cols * x.rows > 0) by (nonlinear_arith);
}

/// `step` is the `n`th part of `total`, rounded toward zero.
pub open spec fn is_part(total: int, n: int, step: int) -> bool {
    &&& total >= 0 ==> 0 <= step * n <= total < step * n + n
    &&& total < 0 ==> step * n - n < total <= step * n <= 0
}

/// The part that [`quotient`] gives.
proof fn lemma_part(total: int, n: int)
    requires
        n > 0,
    ensures
        is_part(total, n, quotient(total, n)),
{
    let m = if total >= 0 {
        total
    } else {
        -total
    };
    let q = m / n;
    assert(q * n <= m < q * n + n && 0 <= q * n) by (nonlinear_arith)
        requires
            0 <= m,
            n > 0,
            q == m / n,
    ;
    assert((-q) * n == -(q * n)) by (nonlinear_arith);
}

/// Where the instance in column `col` and row `row` of an array stands among the others.
pub open spec fn array_place(x: GdsArrayRefView, col: int, row: int) -> int {
    col * x.rows + row
}

/// Where the instance in column `col` and row `row` lies.
proof fn lemma_array_at(s: GdsImporterView, x: GdsArrayRefView, col: int, row: int)
    requires
        import_instance_array_spec(s, x).1 is Ok,
        0 <= col < x.cols,
        0 <= row < x.rows,
    ensures
        ({
            let insts = import_instance_array_spec(s, x).1->Ok_0;
            let k = array_place(x, col, row);
            &&& 0 <= k < insts.len()
            &&& insts[k].p0.x == x.xy[0].x + col * quotient(x.xy[1].x - x.xy[0].x, x.cols as int)
            &&& insts[k].p0.y == x.xy[0].y + row * quotient(x.xy[2].y - x.xy[0].y, x.rows as int)
        }),
{
    let (cols, rows) = (x.cols as int, x.rows as int);
    assert(0 <= col * rows + row < cols * rows) by (nonlinear_arith)
        requires
            0 <= col < cols,
            0 <= row < rows,
    ;
    vstd::arithmetic::div_mod::lemma_fundamental_div_mod_converse(
        col * rows + row,
        rows,
        col,
        row,
    );
    lemma_step(x.xy[1].x - x.xy[0].x, cols, col);
    lemma_step(x.xy[2].y - x.xy[0].y, rows, row);
}

/// The instances of an array come column by column, from the array's origin on, and neighbours are
/// one step apart: from a row to the next by the part of the height that falls to a row, and from a
/// column to the next by the part of the width that falls to a column.
pub proof fn law_array_steps(s: GdsImporterView, x: GdsArrayRefView, col: int, row: int)
    requires
        import_instance_array_spec(s, x).1 is Ok,
        0 <= col < x.cols,
        0 <= row < x.rows,
    ensures
        ({
            let insts = import_instance_array_spec(s, x).1->Ok_0;
            let at = insts[col * x.rows + row].p0;
            &&& 0 <= col * x.rows + row < insts.len()
            &&& col == 0 ==> at.x == x.xy[0].x
            &&& row == 0 ==> at.y == x.xy[0].y
            &&& row + 1 < x.rows ==> {
                let above = insts[col * x.rows + (row + 1)].p0;
                above.x == at.x && is_part(x.xy[2].y - x.xy[0].y, x.rows as int, above.y - at.y)
            }
            &&& col + 1 < x.cols ==> {
                let beside = insts[(col + 1) * x.rows + row].p0;
                beside.y == at.y && is_part(x.xy[1].x - x.xy[0].x, x.cols as int, beside.x - at.x)
            }
        }),
{
    let (cols, rows) = (x.cols as int, x.rows as int);
    let (dx, dy) = (
        quotient(x.xy[1].x - x.xy[0].x, cols),
        quotient(x.xy[2].y - x.xy[0].y, rows),
    );
    lemma_array_at(s, x, col, row);
    lemma_part(x.xy[1].x - x.xy[0].x, cols);
    lemma_part(x.xy[2].y - x.xy[0].y, rows);
    assert((col + 1) * dx == col * dx + dx) by (nonlinear_arith);
    assert((row + 1) * dy == row * dy + dy) by (nonlinear_arith);
    assert(0 * dx == 0 && 0 * dy == 0);
    if row + 1 < rows {
        lemma_array_at(s, x, col, row + 1);
    }
    if col + 1 < cols {
        lemma_array_at(s, x, col + 1, row);
    }
}

/// Where the columns and the rows of an array are apart, no two of its instances lie in the same
/// place.
pub proof fn law_array_apart(
    s: GdsImporterView,
    x: GdsArrayRefView,
    col: int,
    row: int,
    other_col: int,
    other_row: int,
)
    requires
        import_instance_array_spec(s, x).1 is Ok,
        0 <= col < x.cols,
        0 <= row < x.rows,
        0 <= other_col < x.cols,
        0 <= other_row < x.rows,
        col != other_col || row != other_row,
        x.xy[1].x - x.xy[0].x >= x.cols || x.xy[0].x - x.xy[1].x >= x.cols,
        x.xy[2].y - x.xy[0].y >= x.rows || x.xy[0].y - x.xy[2].y >= x.rows,
    ensures
        ({
            let insts = import_instance_array_spec(s, x).1->Ok_0;
            insts[col * x.rows + row].p0 != insts[other_col * x.rows + other_row].p0
        }),
{
    let (cols, rows) = (x.cols as int, x.rows as int);
    let (width, height) = (x.xy[1].x - x.xy[0].x, x.xy[2].y - x.xy[0].y);
    let (dx, dy) = (quotient(width, cols), quotient(height, rows));
    lemma_array_at(s, x, col, row);
    lemma_array_at(s, x, other_col, other_row);
    lemma_part(width, cols);
    lemma_part(height, rows);
    assert(dx != 0) by (nonlinear_arith)
        requires
            width >= cols || -width >= cols,
            cols > 0,
            is_part(width, cols, dx),
    ;
    assert(dy != 0) by (nonlinear_arith)
        requires
            height >= rows || -height >= rows,
            rows > 0,
            is_part(height, rows, dy),
    ;
    if col != other_col {
        assert(col * dx != other_col * dx) by (nonlinear_arith)
            requires
                col != other_col,
                dx != 0,
        ;
    } else {
        assert(row * dy != other_row * dy) by (nonlinear_arith)
            requires
                row != other_row,
                dy != 0,
        ;
    }
}

/// The import of an array has a result if and only if it is slanted, or it has columns and rows, and
/// unless it is absolute, both run forward or both backward.
pub proof fn law_array_ready(x: GdsArrayRefView)
    ensures
        array_ready(x) <==> {
            ||| x.xy[0].y != x.xy[1].y
            ||| x.xy[0].x != x.xy[2].x
            ||| asks_absolute(x.strans) && x.cols != 0 && x.rows != 0
            ||| x.cols > 0 && x.rows > 0
            ||| x.cols < 0 && x.rows < 0
        },
{
    let (cols, rows) = (x.cols as int, x.rows as int);
    assert(cols * rows > 0 <==> (cols > 0 && rows > 0) || (cols < 0 && rows < 0))
        by (nonlinear_arith);
}

/// `elem` lies on a layer with the number `layernum`, and has the purpose that was last given the
/// number `xtype` there.
pub open spec fn lies_at(
    layers: Seq<LayerView>,
    elem: ElementView,
    layernum: i16,
    xtype: i16,
) -> bool {
    &&& elem.layer.index < layers.len()
    &&& layers[elem.layer.index as int].layernum == layernum
    &&& exists|j: int|
        #[trigger] is_last_with(layers[elem.layer.index as int].purposes, xtype, j)
            && layers[elem.layer.index as int].purposes[j].1 == elem.purpose
}

/// `t` is `s`, but for its layers, none of which is lost.
pub open spec fn has_grown(s: GdsImporterView, t: GdsImporterView) -> bool {
    &&& t.ctx_stack == s.ctx_stack
    &&& t.unsupported == s.unsupported
    &&& t.warnings == s.warnings
    &&& s.layers.len() <= t.layers.len() <= s.layers.len() + 1
    &&& forall|i: int|
        0 <= i < s.layers.len() ==> (#[trigger] t.layers[i]).layernum == s.layers[i].layernum
}

/// What is imported on a layer that was asked for lies there.
proof fn lemma_placed(s: GdsImporterView, t: GdsImporterView, e: ElementView, num: i16, xtype: i16)
    requires
        s.layers.len() <= usize::MAX,
        (t.layers, e.layer, e.purpose) == crate::layers::with_layer_purpose(s.layers, num, xtype),
        t == (GdsImporterView { layers: t.layers, ..s }),
    ensures
        lies_at(t.layers, e, num, xtype),
        has_grown(s, t),
{
    law_layer_asked(s.layers, num, xtype);
    let k = e.layer.index as int;
    let pairs = t.layers[k].purposes;
    if exists|i: int| 0 <= i < s.layers.len() && (#[trigger] s.layers[i]).layernum == num {
        if !(exists|j: int|
            #[trigger] is_last_with(s.layers[k].purposes, xtype, j) && s.layers[k].purposes[j].1
                == e.purpose && t.layers[k] == s.layers[k]) {
            assert(is_last_with(pairs, xtype, pairs.len() - 1));
        }
    } else {
        assert(is_last_with(pairs, xtype, 0));
    }
}

/// The corners of a boundary, but for the repetition of the first, are those of a rectangle along
/// the axes: there are four of them, and on the way around one coordinate changes at a time.
pub open spec fn is_upright_box(xy: Seq<GdsPoint>) -> bool {
    xy.len() == 5 && ((xy[0].x == xy[1].x && xy[1].y == xy[2].y && xy[2].x == xy[3].x && xy[3].y
        == xy[0].y) || (xy[0].y == xy[1].y && xy[1].x == xy[2].x && xy[2].y == xy[3].y && xy[3].x
        == xy[0].x))
}

/// `inner` is the shape of a boundary with the points `xy`: a rectangle by the first and the third
/// of them if they are those of one, else the polygon of all of them but the last.
pub open spec fn is_boundary_shape(xy: Seq<GdsPoint>, inner: ShapeView) -> bool {
    match inner {
        ShapeView::Rect { p0, p1 } => is_upright_box(xy) && is_at(p0, xy[0]) && is_at(p1, xy[2]),
        ShapeView::Poly { pts } => {
            &&& !is_upright_box(xy)
            &&& pts.len() == xy.len() - 1
            &&& forall|i: int| 0 <= i < pts.len() ==> is_at(#[trigger] pts[i], xy[i])
        },
        ShapeView::Path { .. } => false,
    }
}

/// A boundary is imported if and only if it ends where it starts: on its layer, without a net, as
/// the rectangle or the polygon that it is.
pub proof fn law_import_boundary(s: GdsImporterView, x: GdsBoundaryView)
    requires
        x.xy.len() > 0,
        s.layers.len() <= usize::MAX,
    ensures
        ({
            let (t, r) = import_boundary_spec(s, x);
            let n = x.xy.len() - 1;
            &&& r is Ok <==> x.xy[0].x == x.xy[n].x && x.xy[0].y == x.xy[n].y
            &&& r matches Ok(e) ==> {
                &&& e.net is None
                &&& is_boundary_shape(x.xy, e.inner)
                &&& lies_at(t.layers, e, x.layer, x.datatype)
                &&& has_grown(s, t)
            }
            &&& r matches Err(e) ==> e == fails_in(
                s,
                ImportContextView::Geometry,
                "GDS Boundary must start and end at the same point"@,
            )
        }),
{
    let (t, r) = import_boundary_spec(s, x);
    if let Ok(e) = r {
        lemma_placed(s, t, e, x.layer, x.datatype);
        let pts = points(x.xy).drop_last();
        assert forall|i: int| 0 <= i < pts.len() implies is_at(#[trigger] pts[i], x.xy[i]) by {}
        if pts.len() == 4 {
            assert(is_at(pts[0], x.xy[0]) && is_at(pts[1], x.xy[1]) && is_at(pts[2], x.xy[2])
                && is_at(pts[3], x.xy[3]));
        }
    }
}

/// A box is imported on its layer, without a net, as the rectangle between its first and its third
/// point.
pub proof fn law_import_box(s: GdsImporterView, x: GdsBox)
    requires
        s.layers.len() <= usize::MAX,
    ensures
        ({
            let (t, r) = import_box_spec(s, x);
            &&& r matches Ok(e) && e.net is None && (e.inner matches ShapeView::Rect { p0, p1 }
                && is_at(p0, x.xy[0]) && is_at(p1, x.xy[2])) && lies_at(
                t.layers,
                e,
                x.layer,
                x.boxtype,
            )
            &&& has_grown(s, t)
        }),
{
    let (t, r) = import_box_spec(s, x);
    lemma_placed(s, t, r->Ok_0, x.layer, x.boxtype);
}

/// A path is imported if and only if it has a width: on its layer, without a net, with that width
/// and along its points. A negative width wraps around.
pub proof fn law_import_path(s: GdsImporterView, x: GdsPathView)
    requires
        s.layers.len() <= usize::MAX,
    ensures
        ({
            let (t, r) = import_path_spec(s, x);
            &&& r is Ok <==> x.width is Some
            &&& r matches Ok(e) ==> {
                &&& e.net is None
                &&& e.inner matches ShapeView::Path { width, pts } && (x.width->0 >= 0 ==> width
                    == x.width->0) && (x.width->0 < 0 ==> width == usize::MAX + 1 + x.width->0)
                    && pts.len() == x.xy.len() && (forall|i: int|
                    0 <= i < pts.len() ==> is_at(#[trigger] pts[i], x.xy[i]))
                &&& lies_at(t.layers, e, x.layer, x.datatype)
                &&& has_grown(s, t)
            }
            &&& r matches Err(e) ==> e == fails_in(
                s,
                ImportContextView::Geometry,
                "Invalid nonspecifed GDS Path width "@,
            )
        }),
{
    let (t, r) = import_path_spec(s, x);
    if let Ok(e) = r {
        let w = x.width->0;
        assert(w < 0 && usize::BITS == 64 ==> w as usize == 0x1_0000_0000_0000_0000 + w)
            by (bit_vector);
        assert(w < 0 && usize::BITS == 32 ==> w as usize == 0x1_0000_0000 + w) by (bit_vector);
        lemma_placed(s, t, e, x.layer, x.datatype);
    }
}

} // verus!
