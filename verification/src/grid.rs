//! Counting cells on the finite playing field.
//!
//! The engine's placement guarantees rest on two facts: a family of
//! distinct in-bounds cells can never outnumber the field, and a family
//! that touches every in-bounds cell is at least as large as the field.
//! Both are proved here by exhibiting the field as an explicit sequence of
//! cells, column by column.

use vstd::prelude::*;
use vstd::seq_lib::lemma_no_dup_in_concat;
use vstd::set_lib::lemma_len_subset;
use crate::types::Point;

verus! {

/// Whether `p` lies in the `w` by `h` grid anchored at the origin.
pub open spec fn cell_in(p: Point, w: int, h: int) -> bool {
    0 <= p.x < w && 0 <= p.y < h
}

/// The cells of column `x`, ordered by `y`.
spec fn column_cells(x: int, h: int) -> Seq<Point> {
    Seq::new(
        if h >= 0 {
            h as nat
        } else {
            0
        },
        |y: int| Point { x: x as isize, y: y as isize },
    )
}

/// Every cell of the `w` by `h` grid, column by column.
spec fn all_cells(w: int, h: int) -> Seq<Point>
    decreases w,
{
    if w <= 0 {
        Seq::empty()
    } else {
        all_cells(w - 1, h) + column_cells(w - 1, h)
    }
}

/// The grid sequence enumerates exactly the in-bounds cells, each once.
proof fn lemma_all_cells(w: int, h: int)
    requires
        0 <= w <= isize::MAX,
        0 <= h <= isize::MAX,
    ensures
        all_cells(w, h).len() == w * h,
        all_cells(w, h).no_duplicates(),
        forall|p: Point| all_cells(w, h).contains(p) <==> cell_in(p, w, h),
    decreases w,
{
    if w <= 0 {
        assert(w * h == 0) by (nonlinear_arith)
            requires w == 0;
        assert(forall|p: Point| !cell_in(p, w, h));
        assert(forall|p: Point| !all_cells(w, h).contains(p));
    } else {
        lemma_all_cells(w - 1, h);
        let rest = all_cells(w - 1, h);
        let col = column_cells(w - 1, h);
        assert(col.len() == h);
        assert((w - 1) * h + h == w * h) by (nonlinear_arith);

        assert(col.no_duplicates()) by {
            assert(forall|i: int, j: int|
                0 <= i < j < col.len() ==> col[i].y == i && col[j].y == j);
        }
        assert(forall|i: int, j: int|
            0 <= i < rest.len() && 0 <= j < col.len() ==> rest[i] != col[j]) by {
            assert(forall|i: int| 0 <= i < rest.len() ==> rest[i].x < w - 1) by {
                assert(forall|i: int|
                    0 <= i < rest.len() ==> rest.contains(rest[i]) && cell_in(rest[i], w - 1, h));
            }
            assert(forall|j: int| 0 <= j < col.len() ==> col[j].x == w - 1);
        }
        lemma_no_dup_in_concat(rest, col);

        assert forall|p: Point| cell_in(p, w, h) implies all_cells(w, h).contains(p) by {
            if p.x < w - 1 {
                assert(cell_in(p, w - 1, h));
                assert(rest.contains(p));
                let i = choose|i: int| 0 <= i < rest.len() && rest[i] == p;
                assert((rest + col)[i] == p);
            } else {
                assert(col[p.y as int] == p);
                assert((rest + col)[rest.len() + p.y as int] == p);
            }
        }
        assert(all_cells(w, h) == rest + col);
        assert forall|p: Point| all_cells(w, h).contains(p) implies cell_in(p, w, h) by {
            let i = choose|i: int|
                0 <= i < (rest + col).len() && (rest + col)[i] == p;
            if i < rest.len() {
                assert(rest[i] == p);
                assert(rest.contains(p));
                assert(cell_in(p, w - 1, h));
            } else {
                let j = i - rest.len();
                assert(col[j] == p);
                assert(0 <= j < h);
                assert(p.x == (w - 1) as isize && p.y == j as isize);
                assert(p.x == w - 1 && p.y == j);
            }
        }
    }
}

/// Distinct in-bounds cells can never outnumber the field.
pub proof fn lemma_occupied_bounded(cells: Seq<Point>, w: int, h: int)
    requires
        cells.no_duplicates(),
        forall|i: int| 0 <= i < cells.len() ==> cell_in(#[trigger] cells[i], w, h),
        0 <= w <= isize::MAX,
        0 <= h <= isize::MAX,
    ensures
        cells.len() <= w * h,
{
    broadcast use vstd::seq_lib::seq_to_set_is_finite;

    lemma_all_cells(w, h);
    cells.unique_seq_to_set();
    all_cells(w, h).unique_seq_to_set();
    assert forall|p: Point|
        cells.to_set().contains(p) implies all_cells(w, h).to_set().contains(p) by {
        assert(cells.contains(p));
        let i = choose|i: int| 0 <= i < cells.len() && cells[i] == p;
        assert(cell_in(cells[i], w, h));
        assert(all_cells(w, h).contains(p));
    }
    lemma_len_subset(cells.to_set(), all_cells(w, h).to_set());
}

/// A family of cells that touches every in-bounds cell is at least as
/// large as the field.
pub proof fn lemma_grid_covered(cells: Seq<Point>, w: int, h: int)
    requires
        cells.no_duplicates(),
        forall|p: Point| cell_in(p, w, h) ==> cells.contains(p),
        0 <= w <= isize::MAX,
        0 <= h <= isize::MAX,
    ensures
        cells.len() >= w * h,
{
    broadcast use vstd::seq_lib::seq_to_set_is_finite;

    lemma_all_cells(w, h);
    cells.unique_seq_to_set();
    all_cells(w, h).unique_seq_to_set();
    assert forall|p: Point|
        all_cells(w, h).to_set().contains(p) implies cells.to_set().contains(p) by {
        assert(all_cells(w, h).contains(p));
        assert(cell_in(p, w, h));
        assert(cells.contains(p));
    }
    lemma_len_subset(all_cells(w, h).to_set(), cells.to_set());
}

} // verus!
