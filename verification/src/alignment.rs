//! Laws of the bounding box and of corner alignment.

use crate::shape::in_frame;
use crate::shape::ProcessedShape;
use crate::shape::RawShape;
use vstd::prelude::*;

verus! {

/// The bounding box has no extent exactly when it has no corner, and that is
/// exactly when the grid is empty.
pub proof fn lemma_extent_zero_iff_no_origin(g: RawShape)
    ensures
        g.extent() == (0int, 0int) <==> g.origin() is None,
        g.origin() is None <==> g.is_empty(),
{
}

/// On a grid that is not empty the four projections are present and span the
/// least rectangle that holds every occupied cell: each occupied cell lies
/// within them, and each of the four sides holds an occupied cell.
pub proof fn lemma_bounding_box(g: RawShape)
    requires
        !g.is_empty(),
    ensures
        g.top() is Some,
        g.bottom() is Some,
        g.left() is Some,
        g.right() is Some,
        0 <= g.top()->0 <= g.bottom()->0 < 3,
        0 <= g.left()->0 <= g.right()->0 < 3,
        forall|r: int, c: int| #[trigger]
            g.occupied(r, c) ==> g.top()->0 <= r <= g.bottom()->0 && g.left()->0 <= c
                <= g.right()->0,
        g.row_used(g.top()->0),
        g.row_used(g.bottom()->0),
        g.col_used(g.left()->0),
        g.col_used(g.right()->0),
{
    g.lemma_occupied_in_frame();
}

/// The cells of the corner-aligned grid.
pub proof fn lemma_aligned_cells(g: RawShape)
    ensures
        g.origin() is None ==> g.aligned() == g,
        g.origin() matches Some((t, l)) ==> forall|r: int, c: int| #[trigger]
            g.aligned().occupied(r, c) == (in_frame(r, c) && g.occupied(r + t, c + l)),
{
    match g.origin() {
        Some((t, l)) => {
            g.lemma_shifted_cells(-t, -l);
        },
        None => {},
    }
}

/// Corner alignment keeps the bounding box's dimensions and puts its corner
/// at the frame's origin.
pub proof fn lemma_aligned_box(g: RawShape)
    ensures
        g.aligned().extent() == g.extent(),
        g.aligned().origin() == if g.is_empty() {
            None
        } else {
            Some((0int, 0int))
        },
{
    lemma_aligned_cells(g);
    if !g.is_empty() {
        lemma_bounding_box(g);
    }
}

/// Corner-aligning a corner-aligned grid changes nothing.
pub proof fn lemma_align_idempotent(g: RawShape)
    ensures
        g.aligned().aligned() == g.aligned(),
{
    let a = g.aligned();
    lemma_aligned_box(g);
    lemma_aligned_cells(a);
    RawShape::lemma_cells_determine_grid(a.aligned(), a);
}

/// Whether `b` is `a` moved down by `dr` rows and right by `dc` columns, with
/// every occupied cell of `a` still within the frame.
pub open spec fn is_translation(a: RawShape, b: RawShape, dr: int, dc: int) -> bool {
    forall|r: int, c: int| #[trigger] b.occupied(r, c) == a.occupied(r - dr, c - dc)
}

/// A translation read from the grid that was moved: each of its cells is
/// found again `dr` rows down and `dc` columns to the right.
pub proof fn lemma_translation_cells(a: RawShape, b: RawShape, dr: int, dc: int)
    requires
        is_translation(a, b, dr, dc),
    ensures
        forall|r: int, c: int| #[trigger] a.occupied(r, c) == b.occupied(r + dr, c + dc),
{
    assert forall|r: int, c: int| #[trigger] a.occupied(r, c) == b.occupied(r + dr, c + dc) by {
        assert(b.occupied(r + dr, c + dc) == a.occupied(r + dr - dr, c + dc - dc));
    }
}

/// A translation moves the bounding box along with the cells.
pub proof fn lemma_translation_box(a: RawShape, b: RawShape, dr: int, dc: int)
    requires
        is_translation(a, b, dr, dc),
    ensures
        a.is_empty() == b.is_empty(),
        a.extent() == b.extent(),
        !a.is_empty() ==> b.origin() == Some((a.top()->0 + dr, a.left()->0 + dc)),
{
    lemma_translation_cells(a, b, dr, dc);
    a.lemma_occupied_in_frame();
    b.lemma_occupied_in_frame();
}

/// Two grids whose occupied cells differ only by a translation have the same
/// canonical shape.
pub proof fn lemma_translation_invariant(a: RawShape, b: RawShape, dr: int, dc: int)
    requires
        is_translation(a, b, dr, dc),
    ensures
        a.canonical() == b.canonical(),
{
    lemma_translation_box(a, b, dr, dc);
    lemma_aligned_cells(a);
    lemma_aligned_cells(b);
    if a.is_empty() {
        RawShape::lemma_cells_determine_grid(a, b);
    } else {
        let (tb, lb) = b.origin()->0;
        assert forall|r: int, c: int| in_frame(r, c) implies a.aligned().occupied(r, c)
            == b.aligned().occupied(r, c) by {
            assert(b.occupied(r + tb, c + lb) == a.occupied(r + tb - dr, c + lb - dc));
        }
        RawShape::lemma_cells_determine_grid(a.aligned(), b.aligned());
    }
    a.lemma_canonical();
    b.lemma_canonical();
    ProcessedShape::lemma_parts_determine_shape(a.canonical(), b.canonical());
}

} // verus!
