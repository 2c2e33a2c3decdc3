//! Laws of the quarter turn and of the shapes that a grid presents under it.

use crate::alignment::is_translation;
use crate::alignment::lemma_aligned_cells;
use crate::alignment::lemma_bounding_box;
use crate::alignment::lemma_translation_invariant;
use crate::shape::ProcessedShape;
use crate::shape::RawShape;
use vstd::prelude::*;

verus! {

/// Four quarter turns bring every grid back to itself.
pub proof fn lemma_four_turns(g: RawShape)
    ensures
        g.rotated().rotated().rotated().rotated() == g,
        g.turned(4) == g,
{
    let a = g.rotated();
    let b = a.rotated();
    let c = b.rotated();
    let d = c.rotated();
    g.lemma_rotated_cells();
    a.lemma_rotated_cells();
    b.lemma_rotated_cells();
    c.lemma_rotated_cells();
    RawShape::lemma_cells_determine_grid(d, g);
    reveal_with_fuel(RawShape::turned, 5);
}

/// A quarter turn of a translated grid is a translation of the turned grid:
/// a move by `(dr, dc)` becomes a move by `(dc, -dr)`.
pub proof fn lemma_rotation_of_translation(a: RawShape, b: RawShape, dr: int, dc: int)
    requires
        is_translation(a, b, dr, dc),
    ensures
        is_translation(a.rotated(), b.rotated(), dc, -dr),
{
    a.lemma_rotated_cells();
    b.lemma_rotated_cells();
    a.lemma_occupied_in_frame();
    b.lemma_occupied_in_frame();
    assert forall|r: int, c: int| #[trigger]
        b.rotated().occupied(r, c) == a.rotated().occupied(r - dc, c + dr) by {
        assert(b.occupied(2 - c, r) == a.occupied(2 - c - dr, r - dc));
    }
}

/// Every grid is its corner-aligned grid, moved back to where the bounding
/// box's corner was.
pub proof fn lemma_aligned_is_translation(g: RawShape) -> (d: (int, int))
    ensures
        is_translation(g.aligned(), g, d.0, d.1),
        d == if g.origin() is Some {
            g.origin()->0
        } else {
            (0int, 0int)
        },
{
    lemma_aligned_cells(g);
    match g.origin() {
        Some((t, l)) => {
            lemma_bounding_box(g);
            assert forall|r: int, c: int| #[trigger]
                g.occupied(r, c) == g.aligned().occupied(r - t, c - l) by {
                assert(g.occupied(r - t + t, c - l + l) == g.occupied(r, c));
            }
            (t, l)
        },
        None => (0, 0),
    }
}

/// Grids with the same canonical shape differ only by a translation.
pub proof fn lemma_same_shape_is_translation(a: RawShape, b: RawShape) -> (d: (int, int))
    requires
        a.canonical() == b.canonical(),
    ensures
        is_translation(a, b, d.0, d.1),
{
    a.lemma_canonical();
    b.lemma_canonical();
    let s = a.aligned();
    let da = lemma_aligned_is_translation(a);
    let db = lemma_aligned_is_translation(b);
    let d = (db.0 - da.0, db.1 - da.1);
    assert forall|r: int, c: int| #[trigger]
        b.occupied(r, c) == a.occupied(r - d.0, c - d.1) by {
        assert(b.occupied(r, c) == s.occupied(r - db.0, c - db.1));
        assert(a.occupied(r - d.0, c - d.1) == s.occupied(r - d.0 - da.0, c - d.1 - da.1));
    }
    d
}

/// The canonical shape of a turned grid depends only on the canonical shape
/// of the grid.
pub proof fn lemma_rotation_respects_shape(a: RawShape, b: RawShape)
    requires
        a.canonical() == b.canonical(),
    ensures
        a.rotated().canonical() == b.rotated().canonical(),
{
    let d = lemma_same_shape_is_translation(a, b);
    lemma_rotation_of_translation(a, b, d.0, d.1);
    lemma_translation_invariant(a.rotated(), b.rotated(), d.1, -d.0);
}

/// How the four canonical shapes of a grid can coincide: a shape that comes
/// back after one quarter turn or after three comes back after each, and one
/// that comes back after two does so whichever turn it starts from.
pub proof fn lemma_variant_symmetry(g: RawShape)
    ensures
        g.variant(0) == g.variant(1) || g.variant(1) == g.variant(2) || g.variant(2) == g.variant(3)
            || g.variant(3) == g.variant(0) ==> g.variant(0) == g.variant(1) && g.variant(1)
            == g.variant(2) && g.variant(2) == g.variant(3),
        g.variant(0) == g.variant(2) <==> g.variant(1) == g.variant(3),
{
    lemma_four_turns(g);
    let t0 = g.turned(0);
    let t1 = g.turned(1);
    let t2 = g.turned(2);
    let t3 = g.turned(3);
    if t0.canonical() == t1.canonical() {
        lemma_rotation_respects_shape(t0, t1);
    }
    if t1.canonical() == t2.canonical() {
        lemma_rotation_respects_shape(t1, t2);
    }
    if t2.canonical() == t3.canonical() {
        lemma_rotation_respects_shape(t2, t3);
    }
    if t3.canonical() == t0.canonical() {
        lemma_rotation_respects_shape(t3, t0);
    }
    if t0.canonical() == t2.canonical() {
        lemma_rotation_respects_shape(t0, t2);
    }
    if t1.canonical() == t3.canonical() {
        lemma_rotation_respects_shape(t1, t3);
    }
}

/// The variant list of a grid holds each canonical shape of its four
/// rotations exactly once, and so holds 1, 2 or 4 shapes: never 3, never
/// none.
pub proof fn lemma_variants(g: RawShape)
    ensures
        g.variants() == if g.variant(0) == g.variant(1) {
            seq![g.variant(0)]
        } else if g.variant(0) == g.variant(2) {
            seq![g.variant(0), g.variant(1)]
        } else {
            seq![g.variant(0), g.variant(1), g.variant(2), g.variant(3)]
        },
        g.variants()[0] == g.canonical(),
        g.variants().no_duplicates(),
        forall|p: ProcessedShape|
            g.variants().contains(p) <==> exists|k: nat| k < 4 && p == #[trigger] g.variant(k),
        g.variants().len() == 1 || g.variants().len() == 2 || g.variants().len() == 4,
{
    lemma_variant_symmetry(g);
    reveal_with_fuel(RawShape::variants_among, 5);
    let v0 = g.variant(0);
    let v1 = g.variant(1);
    let v2 = g.variant(2);
    let v3 = g.variant(3);
    let s1 = g.variants_among(1);
    let s2 = g.variants_among(2);
    let s3 = g.variants_among(3);
    let s = g.variants();
    assert(s1 =~= seq![v0]);
    if v0 == v1 {
        assert(s1[0] == v1 && s1[0] == v2 && s1[0] == v3);
        assert(s2 == s1 && s3 == s1 && s == s1);
    } else {
        assert(s2 =~= seq![v0, v1]);
        if v0 == v2 {
            assert(s2[0] == v2 && s2[1] == v3);
            assert(s3 == s2 && s == s2);
        } else {
            assert(s3 =~= seq![v0, v1, v2]);
            assert(s =~= seq![v0, v1, v2, v3]);
        }
    }
    assert forall|p: ProcessedShape| s.contains(p) implies exists|k: nat|
        k < 4 && p == #[trigger] g.variant(k) by {
        let i = choose|i: int| 0 <= i < s.len() && s[i] == p;
        assert(p == g.variant(i as nat));
    }
    assert forall|k: nat| k < 4 implies s.contains(#[trigger] g.variant(k)) by {
        let i: int = if v0 == v1 {
            0
        } else if v0 == v2 {
            k as int % 2
        } else {
            k as int
        };
        assert(s[i] == g.variant(k));
    }
}

} // verus!
