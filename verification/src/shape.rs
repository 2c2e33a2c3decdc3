//! Occupancy grids of game pieces and their canonical shapes.
//!
//! A [`RawShape`] is a 3x3 occupancy grid. Its mathematical model is the
//! predicate [`RawShape::occupied`]: which cells of the frame the piece covers;
//! its view is the set of those cells. Every contract below is stated over that
//! predicate and over spec functions built from it (`top`, `left`, `extent`,
//! `aligned`, `rotated`, `canonical`, `variants`).
//!
//! A [`ProcessedShape`] is what a grid is compared by: the dimensions of its
//! bounding box and its pattern, moved to the frame's origin. Two of them are
//! equal exactly when they occupy the same cells.

use crate::alignment::lemma_align_idempotent;
use crate::alignment::lemma_aligned_box;
use crate::rotation::lemma_variants;
use std::hash::Hash;
use std::hash::Hasher;
use vstd::prelude::*;
use vstd::std_specs::cmp::PartialEqSpecImpl;
use vstd::std_specs::convert::FromSpecImpl;
use vstd::std_specs::convert::IntoSpecImpl;

verus! {

/// Whether `(r, c)` names a cell of the 3x3 frame.
pub open spec fn in_frame(r: int, c: int) -> bool {
    0 <= r < 3 && 0 <= c < 3
}

/// The least index in `0..3` whose flag is set, if there is one.
pub open spec fn first_set(a: bool, b: bool, c: bool) -> Option<int> {
    if a {
        Some(0)
    } else if b {
        Some(1)
    } else if c {
        Some(2)
    } else {
        None
    }
}

/// The greatest index in `0..3` whose flag is set, if there is one.
pub open spec fn last_set(a: bool, b: bool, c: bool) -> Option<int> {
    if c {
        Some(2)
    } else if b {
        Some(1)
    } else if a {
        Some(0)
    } else {
        None
    }
}

/// Whether cell `(i, j)` comes before cell `(r, c)` in row-major order.
spec fn scanned(i: int, j: int, r: int, c: int) -> bool {
    in_frame(i, j) && (i < r || (i == r && j < c))
}

/// The sequence `s`, with `p` at its end unless `s` holds it already.
pub open spec fn with_new(s: Seq<ProcessedShape>, p: ProcessedShape) -> Seq<ProcessedShape> {
    if s.contains(p) {
        s
    } else {
        s.push(p)
    }
}

/// A fixed 3x3 occupancy grid, indexed by (row, column).
#[derive(Copy, Clone, Debug)]
pub struct RawShape([[bool; 3]; 3]);

impl View for RawShape {
    type V = Set<(int, int)>;

    /// The set of occupied cells.
    open spec fn view(&self) -> Set<(int, int)> {
        Set::new(|p: (int, int)| self.occupied(p.0, p.1))
    }
}

impl RawShape {
    /// Whether the cell in row `r` and column `c` is occupied. No cell outside
    /// the frame is.
    pub closed spec fn occupied(self, r: int, c: int) -> bool {
        in_frame(r, c) && self.0[r][c]
    }

    /// Whether some cell of row `r` is occupied.
    pub open spec fn row_used(self, r: int) -> bool {
        self.occupied(r, 0) || self.occupied(r, 1) || self.occupied(r, 2)
    }

    /// Whether some cell of column `c` is occupied.
    pub open spec fn col_used(self, c: int) -> bool {
        self.occupied(0, c) || self.occupied(1, c) || self.occupied(2, c)
    }

    /// Whether no cell is occupied.
    pub open spec fn is_empty(self) -> bool {
        !self.row_used(0) && !self.row_used(1) && !self.row_used(2)
    }

    /// The topmost occupied row.
    pub open spec fn top(self) -> Option<int> {
        first_set(self.row_used(0), self.row_used(1), self.row_used(2))
    }

    /// The bottommost occupied row.
    pub open spec fn bottom(self) -> Option<int> {
        last_set(self.row_used(0), self.row_used(1), self.row_used(2))
    }

    /// The leftmost occupied column.
    pub open spec fn left(self) -> Option<int> {
        first_set(self.col_used(0), self.col_used(1), self.col_used(2))
    }

    /// The rightmost occupied column.
    pub open spec fn right(self) -> Option<int> {
        last_set(self.col_used(0), self.col_used(1), self.col_used(2))
    }

    /// The top-left corner `(row, column)` of the bounding box, present only
    /// when both of its coordinates are.
    pub open spec fn origin(self) -> Option<(int, int)> {
        match (self.top(), self.left()) {
            (Some(t), Some(l)) => Some((t, l)),
            _ => None,
        }
    }

    /// The number of columns that the bounding box spans, 0 where it has none.
    pub open spec fn width(self) -> int {
        match (self.right(), self.left()) {
            (Some(r), Some(l)) => r - l + 1,
            _ => 0,
        }
    }

    /// The number of rows that the bounding box spans, 0 where it has none.
    pub open spec fn height(self) -> int {
        match (self.bottom(), self.top()) {
            (Some(b), Some(t)) => b - t + 1,
            _ => 0,
        }
    }

    /// The bounding box's dimensions as `(width, height)`.
    pub open spec fn extent(self) -> (int, int) {
        (self.width(), self.height())
    }

    /// The grid whose occupied cells are the cells of the frame that `cells`
    /// holds.
    pub closed spec fn of_cells(cells: Set<(int, int)>) -> RawShape {
        RawShape(
            [
                [cells.contains((0, 0)), cells.contains((0, 1)), cells.contains((0, 2))],
                [cells.contains((1, 0)), cells.contains((1, 1)), cells.contains((1, 2))],
                [cells.contains((2, 0)), cells.contains((2, 1)), cells.contains((2, 2))],
            ],
        )
    }

    /// The grid as a matrix of flags, indexed by row and then by column.
    pub open spec fn rows(self) -> [[bool; 3]; 3] {
        [
            [self.occupied(0, 0), self.occupied(0, 1), self.occupied(0, 2)],
            [self.occupied(1, 0), self.occupied(1, 1), self.occupied(1, 2)],
            [self.occupied(2, 0), self.occupied(2, 1), self.occupied(2, 2)],
        ]
    }

    /// The grid that the matrix of flags `rows` describes.
    pub open spec fn of_rows(rows: [[bool; 3]; 3]) -> RawShape {
        Self::of_cells(Set::new(|p: (int, int)| in_frame(p.0, p.1) && rows[p.0][p.1]))
    }

    /// The grid moved down by `dr` rows and right by `dc` columns. Cells that
    /// would leave the frame are dropped.
    pub open spec fn shifted(self, dr: int, dc: int) -> RawShape {
        Self::of_cells(Set::new(|p: (int, int)| self.occupied(p.0 - dr, p.1 - dc)))
    }

    /// The grid with its bounding box moved to the frame's origin; the empty
    /// grid as it is.
    pub open spec fn aligned(self) -> RawShape {
        match self.origin() {
            Some((t, l)) => self.shifted(-t, -l),
            None => self,
        }
    }

    /// The grid turned clockwise by a quarter turn about the frame's centre:
    /// the cell in row `r` and column `c` goes to row `c` and column `2 - r`.
    pub open spec fn rotated(self) -> RawShape {
        Self::of_cells(Set::new(|p: (int, int)| self.occupied(2 - p.1, p.0)))
    }

    /// The grid after `k` clockwise quarter turns.
    pub open spec fn turned(self, k: nat) -> RawShape
        decreases k,
    {
        if k == 0 {
            self
        } else {
            self.turned((k - 1) as nat).rotated()
        }
    }

    /// The canonical shape of the grid: its bounding box's dimensions and its
    /// corner-aligned occupancy pattern.
    pub closed spec fn canonical(self) -> ProcessedShape {
        ProcessedShape {
            size: (self.width() as usize, self.height() as usize),
            shape: self.aligned(),
        }
    }

    /// The canonical shape that the grid presents after `k` quarter turns.
    pub open spec fn variant(self, k: nat) -> ProcessedShape {
        self.turned(k).canonical()
    }

    /// The distinct canonical shapes among the first `k` rotations of the
    /// grid, each where it first appears.
    pub open spec fn variants_among(self, k: nat) -> Seq<ProcessedShape>
        decreases k,
    {
        if k == 0 {
            Seq::empty()
        } else {
            with_new(self.variants_among((k - 1) as nat), self.variant((k - 1) as nat))
        }
    }

    /// The distinct canonical shapes that the grid presents under its four
    /// quarter-turn rotations.
    pub open spec fn variants(self) -> Seq<ProcessedShape> {
        self.variants_among(4)
    }

    /// No cell outside the frame is occupied.
    pub proof fn lemma_occupied_in_frame(self)
        ensures
            forall|r: int, c: int| #[trigger] self.occupied(r, c) ==> in_frame(r, c),
    {
    }

    /// A grid is determined by which cells of the frame it occupies.
    pub proof fn lemma_cells_determine_grid(a: RawShape, b: RawShape)
        requires
            forall|r: int, c: int| in_frame(r, c) ==> a.occupied(r, c) == b.occupied(r, c),
        ensures
            a == b,
    {
        assert forall|i: int| 0 <= i < 3 implies a.0[i] == b.0[i] by {
            assert forall|j: int| 0 <= j < 3 implies a.0[i][j] == b.0[i][j] by {
                assert(a.occupied(i, j) == b.occupied(i, j));
            }
            assert(a.0[i] =~= b.0[i]);
        }
        assert(a.0 =~= b.0);
    }

    /// The parts of a canonical shape: the aligned grid and the grid's
    /// dimensions.
    pub proof fn lemma_canonical(self)
        ensures
            self.canonical().grid() == self.aligned(),
            self.canonical().dims() == self.extent(),
            self.canonical().wf(),
    {
        lemma_aligned_box(self);
        lemma_align_idempotent(self);
    }

    /// Two grids are the same grid exactly when they occupy the same set of
    /// cells.
    pub proof fn lemma_view_determines_grid(a: RawShape, b: RawShape)
        ensures
            a@ == b@ <==> a == b,
    {
        if a@ == b@ {
            assert forall|r: int, c: int| in_frame(r, c) implies a.occupied(r, c) == b.occupied(
                r,
                c,
            ) by {
                assert(a@.contains((r, c)) == b@.contains((r, c)));
            }
            Self::lemma_cells_determine_grid(a, b);
        }
    }

    /// The cells of a grid built from a set of cells.
    pub proof fn lemma_of_cells(cells: Set<(int, int)>)
        ensures
            forall|r: int, c: int| #[trigger]
                Self::of_cells(cells).occupied(r, c) == (in_frame(r, c) && cells.contains((r, c))),
    {
    }

    /// The cells of a shifted grid.
    pub proof fn lemma_shifted_cells(self, dr: int, dc: int)
        ensures
            forall|r: int, c: int| #[trigger]
                self.shifted(dr, dc).occupied(r, c) == (in_frame(r, c) && self.occupied(
                    r - dr,
                    c - dc,
                )),
    {
    }

    /// The cells of a rotated grid.
    pub proof fn lemma_rotated_cells(self)
        ensures
            forall|r: int, c: int| #[trigger]
                self.rotated().occupied(r, c) == (in_frame(r, c) && self.occupied(2 - c, r)),
    {
    }

    /// Loop invariant of the row projections: `acc` is the least (or, with
    /// `least` unset, the greatest) row of an occupied cell among the cells
    /// that come before `(r, c)`, and `w` is the column of one such cell.
    spec fn row_bound_of_scanned(
        self,
        acc: Option<usize>,
        w: int,
        r: int,
        c: int,
        least: bool,
    ) -> bool {
        match acc {
            None => forall|i: int, j: int|
                scanned(i, j, r, c) ==> !(#[trigger] self.occupied(i, j)),
            Some(v) => {
                &&& scanned(v as int, w, r, c)
                &&& self.occupied(v as int, w)
                &&& forall|i: int, j: int|
                    scanned(i, j, r, c) && #[trigger] self.occupied(i, j) ==> if least {
                        v <= i
                    } else {
                        i <= v
                    }
            },
        }
    }

    /// Loop invariant of the column projections: `acc` is the least (or, with
    /// `least` unset, the greatest) column of an occupied cell among the cells
    /// that come before `(r, c)`, and `w` is the row of one such cell.
    spec fn col_bound_of_scanned(
        self,
        acc: Option<usize>,
        w: int,
        r: int,
        c: int,
        least: bool,
    ) -> bool {
        match acc {
            None => forall|i: int, j: int|
                scanned(i, j, r, c) ==> !(#[trigger] self.occupied(i, j)),
            Some(v) => {
                &&& scanned(w, v as int, r, c)
                &&& self.occupied(w, v as int)
                &&& forall|i: int, j: int|
                    scanned(i, j, r, c) && #[trigger] self.occupied(i, j) ==> if least {
                        v <= j
                    } else {
                        j <= v
                    }
            },
        }
    }

    /// The leftmost occupied column, absent on the empty grid.
    pub fn box_left(&self) -> (res: Option<usize>)
        ensures
            res matches Some(l) ==> self.left() == Some(l as int),
            res is None ==> self.left() is None,
    {
        let mut ret: Option<usize> = None;
        let ghost mut w: int = 0;
        for r in 0..3usize
            invariant
                self.col_bound_of_scanned(ret, w, r as int, 0, true),
        {
            for c in 0..3usize
                invariant
                    r < 3,
                    self.col_bound_of_scanned(ret, w, r as int, c as int, true),
            {
                if self.0[r][c] {
                    let better = match ret {
                        Some(v) => c < v,
                        None => true,
                    };
                    if better {
                        ret = Some(c);
                        proof {
                            w = r as int;
                        }
                    }
                }
            }
        }
        ret
    }

    /// The rightmost occupied column, absent on the empty grid.
    pub fn box_right(&self) -> (res: Option<usize>)
        ensures
            res matches Some(x) ==> self.right() == Some(x as int),
            res is None ==> self.right() is None,
    {
        let mut ret: Option<usize> = None;
        let ghost mut w: int = 0;
        for r in 0..3usize
            invariant
                self.col_bound_of_scanned(ret, w, r as int, 0, false),
        {
            for c in 0..3usize
                invariant
                    r < 3,
                    self.col_bound_of_scanned(ret, w, r as int, c as int, false),
            {
                if self.0[r][c] {
                    let better = match ret {
                        Some(v) => v < c,
                        None => true,
                    };
                    if better {
                        ret = Some(c);
                        proof {
                            w = r as int;
                        }
                    }
                }
            }
        }
        ret
    }

    /// The topmost occupied row, absent on the empty grid.
    pub fn box_top(&self) -> (res: Option<usize>)
        ensures
            res matches Some(t) ==> self.top() == Some(t as int),
            res is None ==> self.top() is None,
    {
        let mut ret: Option<usize> = None;
        let ghost mut w: int = 0;
        for r in 0..3usize
            invariant
                self.row_bound_of_scanned(ret, w, r as int, 0, true),
        {
            for c in 0..3usize
                invariant
                    r < 3,
                    self.row_bound_of_scanned(ret, w, r as int, c as int, true),
            {
                if self.0[r][c] {
                    let better = match ret {
                        Some(v) => r < v,
                        None => true,
                    };
                    if better {
                        ret = Some(r);
                        proof {
                            w = c as int;
                        }
                    }
                }
            }
        }
        ret
    }

    /// The bottommost occupied row, absent on the empty grid.
    pub fn box_bottom(&self) -> (res: Option<usize>)
        ensures
            res matches Some(b) ==> self.bottom() == Some(b as int),
            res is None ==> self.bottom() is None,
    {
        let mut ret: Option<usize> = None;
        let ghost mut w: int = 0;
        for r in 0..3usize
            invariant
                self.row_bound_of_scanned(ret, w, r as int, 0, false),
        {
            for c in 0..3usize
                invariant
                    r < 3,
                    self.row_bound_of_scanned(ret, w, r as int, c as int, false),
            {
                if self.0[r][c] {
                    let better = match ret {
                        Some(v) => v < r,
                        None => true,
                    };
                    if better {
                        ret = Some(r);
                        proof {
                            w = c as int;
                        }
                    }
                }
            }
        }
        ret
    }

    /// The bounding box's top-left corner as `(row, column)`: present if and
    /// only if both the top and the left projection are.
    pub fn corner(&self) -> (res: Option<(usize, usize)>)
        ensures
            res matches Some((t, l)) ==> self.origin() == Some((t as int, l as int)),
            res is None ==> self.origin() is None,
    {
        match self.box_top() {
            Some(t) => match self.box_left() {
                Some(l) => Some((t, l)),
                None => None,
            },
            None => None,
        }
    }

    /// The bounding box's dimensions as `(width, height)`. An axis whose
    /// projections are absent contributes 0.
    pub fn size(&self) -> (res: (usize, usize))
        ensures
            (res.0 as int, res.1 as int) == self.extent(),
    {
        let width = match self.box_right() {
            Some(r) => match self.box_left() {
                Some(l) => r - l + 1,
                None => 0,
            },
            None => 0,
        };
        let height = match self.box_bottom() {
            Some(b) => match self.box_top() {
                Some(t) => b - t + 1,
                None => 0,
            },
            None => 0,
        };
        (width, height)
    }

    /// Moves the occupied region so that its bounding box's top-left corner
    /// sits at the frame's origin. The empty grid is returned as it is.
    pub fn move_to_corner(&self) -> (res: Self)
        ensures
            res == self.aligned(),
    {
        let mut ret = [[false; 3]; 3];
        let (corner_r, corner_c) = match self.corner() {
            Some(x) => x,
            None => return *self,
        };
        for r in corner_r..3
            invariant
                corner_r < 3,
                corner_c < 3,
                forall|i: int, j: int|
                    in_frame(i, j) ==> ret[i][j] == (scanned(
                        i + corner_r,
                        j + corner_c,
                        r as int,
                        corner_c as int,
                    ) && self.occupied(i + corner_r, j + corner_c)),
        {
            for c in corner_c..3
                invariant
                    corner_r <= r < 3,
                    corner_c < 3,
                    forall|i: int, j: int|
                        in_frame(i, j) ==> ret[i][j] == (scanned(
                            i + corner_r,
                            j + corner_c,
                            r as int,
                            c as int,
                        ) && self.occupied(i + corner_r, j + corner_c)),
            {
                ret[r - corner_r][c - corner_c] = self.0[r][c];
            }
        }
        let res = RawShape(ret);
        proof {
            Self::lemma_cells_determine_grid(res, self.aligned());
        }
        res
    }

    /// Turns the grid clockwise by a quarter turn within the frame.
    pub fn rotate_right(&self) -> (res: Self)
        ensures
            res == self.rotated(),
    {
        let mut ret = [[false; 3]; 3];
        for r in 0..3usize
            invariant
                forall|i: int, j: int|
                    in_frame(i, j) ==> ret[i][j] == (scanned(i, j, r as int, 0) && self.occupied(
                        2 - j,
                        i,
                    )),
        {
            for c in 0..3usize
                invariant
                    r < 3,
                    forall|i: int, j: int|
                        in_frame(i, j) ==> ret[i][j] == (scanned(i, j, r as int, c as int)
                            && self.occupied(2 - j, i)),
            {
                ret[r][c] = self.0[2 - c][r];
            }
        }
        let res = RawShape(ret);
        proof {
            Self::lemma_cells_determine_grid(res, self.rotated());
        }
        res
    }

    /// The distinct canonical shapes that the grid presents under its four
    /// quarter-turn rotations, each where it first appears, starting with the
    /// grid as it is. There are 1, 2 or 4 of them.
    pub fn available_shapes(self) -> (res: Vec<ProcessedShape>)
        ensures
            res@ == self.variants(),
            res@[0] == self.canonical(),
            res@.no_duplicates(),
            forall|p: ProcessedShape|
                res@.contains(p) <==> exists|k: nat| k < 4 && p == #[trigger] self.variant(k),
            res.len() == 1 || res.len() == 2 || res.len() == 4,
    {
        let mut ret: Vec<ProcessedShape> = Vec::new();
        let mut shape = self;
        for k in 0..4usize
            invariant
                shape == self.turned(k as nat),
                ret@ == self.variants_among(k as nat),
        {
            let canonical: ProcessedShape = shape.into();
            insert_new(&mut ret, canonical);
            shape = shape.rotate_right();
        }
        proof {
            lemma_variants(self);
        }
        ret
    }

    /// Whether the two grids occupy the same cells.
    fn same_grid(&self, other: &RawShape) -> (res: bool)
        ensures
            res == (*self == *other),
    {
        let mut same = true;
        for r in 0..3usize
            invariant
                same == (forall|i: int, j: int|
                    scanned(i, j, r as int, 0) ==> self.occupied(i, j) == other.occupied(i, j)),
        {
            for c in 0..3usize
                invariant
                    r < 3,
                    same == (forall|i: int, j: int|
                        scanned(i, j, r as int, c as int) ==> self.occupied(i, j) == other.occupied(
                            i,
                            j,
                        )),
            {
                if self.0[r][c] != other.0[r][c] {
                    same = false;
                    assert(self.occupied(r as int, c as int) != other.occupied(r as int, c as int));
                }
            }
        }
        proof {
            if same {
                Self::lemma_cells_determine_grid(*self, *other);
            }
        }
        same
    }
}

/// Adds `p` at the end of `set` unless `set` holds it already.
fn insert_new(set: &mut Vec<ProcessedShape>, p: ProcessedShape)
    ensures
        final(set)@ == with_new(old(set)@, p),
{
    let mut i: usize = 0;
    while i < set.len()
        invariant
            i <= set.len(),
            set@ == old(set)@,
            forall|j: int| 0 <= j < i ==> set@[j] != p,
        decreases set.len() - i,
    {
        let held = set[i];
        proof {
            use_type_invariant(&held);
            use_type_invariant(&p);
            ProcessedShape::lemma_eq_is_identity(held, p);
        }
        if held == p {
            return;
        }
        i += 1;
    }
    set.push(p);
}

impl From<[[bool; 3]; 3]> for RawShape {
    /// The grid that the matrix of flags describes.
    fn from(val: [[bool; 3]; 3]) -> (res: Self)
        ensures
            forall|r: int, c: int| #[trigger] res.occupied(r, c) == (in_frame(r, c) && val[r][c]),
    {
        let res = RawShape(val);
        proof {
            RawShape::lemma_cells_determine_grid(res, RawShape::of_rows(val));
        }
        res
    }
}

impl FromSpecImpl<[[bool; 3]; 3]> for RawShape {
    open spec fn obeys_from_spec() -> bool {
        true
    }

    open spec fn from_spec(val: [[bool; 3]; 3]) -> Self {
        RawShape::of_rows(val)
    }
}

impl Into<[[bool; 3]; 3]> for RawShape {
    /// The grid as a matrix of flags.
    fn into(self) -> (res: [[bool; 3]; 3]) {
        proof {
            let rows = self.rows();
            assert forall|i: int| 0 <= i < 3 implies self.0[i] == rows[i] by {
                assert(self.0[i] =~= rows[i]);
            }
        }
        self.0
    }
}

impl IntoSpecImpl<[[bool; 3]; 3]> for RawShape {
    open spec fn obeys_into_spec() -> bool {
        true
    }

    open spec fn into_spec(self) -> [[bool; 3]; 3] {
        self.rows()
    }
}

impl Into<ProcessedShape> for RawShape {
    /// The canonical shape of the grid: the dimensions of its bounding box
    /// and its corner-aligned pattern.
    fn into(self) -> (res: ProcessedShape) {
        let size = self.size();
        let shape = self.move_to_corner();
        proof {
            self.lemma_canonical();
        }
        ProcessedShape { size, shape }
    }
}

impl IntoSpecImpl<ProcessedShape> for RawShape {
    open spec fn obeys_into_spec() -> bool {
        true
    }

    open spec fn into_spec(self) -> ProcessedShape {
        self.canonical()
    }
}

/// A shape normalised for comparison: the dimensions of its bounding box and
/// its occupancy pattern, aligned to the frame's origin.
///
/// Every value satisfies [`ProcessedShape::wf`]: the stored dimensions are
/// those of the stored pattern, and the pattern is corner-aligned.
#[derive(Copy, Clone, Debug)]
pub struct ProcessedShape {
    size: (usize, usize),
    shape: RawShape,
}

impl View for ProcessedShape {
    type V = Set<(int, int)>;

    /// The set of cells that the aligned pattern occupies.
    open spec fn view(&self) -> Set<(int, int)> {
        self.grid()@
    }
}

impl ProcessedShape {
    /// The corner-aligned occupancy pattern.
    pub closed spec fn grid(self) -> RawShape {
        self.shape
    }

    /// The stored dimensions as `(width, height)`.
    pub closed spec fn dims(self) -> (int, int) {
        (self.size.0 as int, self.size.1 as int)
    }

    /// The stored dimensions are those of the pattern's bounding box, and the
    /// pattern is corner-aligned.
    pub open spec fn wf(self) -> bool {
        &&& self.dims() == self.grid().extent()
        &&& self.grid().aligned() == self.grid()
    }

    #[verifier::type_invariant]
    spec fn inv(self) -> bool {
        self.wf()
    }

    /// The cells of row `r` that lie within the bounding box, left to right.
    pub open spec fn row_cells(self, r: int) -> Seq<bool> {
        Seq::new(self.dims().0 as nat, |c: int| self.grid().occupied(r, c))
    }

    /// The dimensions of the bounding box as `(width, height)`.
    pub fn size(&self) -> (res: (usize, usize))
        ensures
            (res.0 as int, res.1 as int) == self.dims(),
            self.dims() == self.grid().extent(),
    {
        proof {
            use_type_invariant(self);
        }
        self.size
    }

    /// The cells of row `r` that lie within the bounding box.
    fn boxed_row(&self, r: usize) -> (res: &[bool])
        requires
            r < self.dims().1,
        ensures
            res@ == self.row_cells(r as int),
    {
        proof {
            use_type_invariant(self);
        }
        &self.shape.0[r][0..self.size.0]
    }

    /// Well-formed shapes that occupy the same cells, which is what `==`
    /// compares, are identical: they also agree in their stored dimensions,
    /// and in the cells of every row that a hasher is fed.
    pub proof fn lemma_eq_is_identity(a: ProcessedShape, b: ProcessedShape)
        requires
            a.wf(),
            b.wf(),
        ensures
            a@ == b@ <==> a == b,
            a@ == b@ ==> a.dims() == b.dims(),
            a@ == b@ ==> forall|r: int| a.row_cells(r) == b.row_cells(r),
    {
        RawShape::lemma_view_determines_grid(a.grid(), b.grid());
    }

    /// A shape is determined by its pattern and its stored dimensions.
    pub proof fn lemma_parts_determine_shape(a: ProcessedShape, b: ProcessedShape)
        requires
            a.grid() == b.grid(),
            a.dims() == b.dims(),
        ensures
            a == b,
    {
    }
}

/// Feeds `cells` to `state` by `<[bool] as Hash>::hash`. The hasher is any
/// implementation of `Hasher`, so nothing is claimed of its state afterwards.
#[verifier::external_body]
fn feed_cells<H: Hasher>(cells: &[bool], state: &mut H) {
    cells.hash(state);
}

impl Hash for ProcessedShape {
    /// Feeds the hasher the rows of the bounding box, top to bottom, and of
    /// each row only the cells within the box: see
    /// [`ProcessedShape::row_cells`].
    fn hash<H: Hasher>(&self, state: &mut H) {
        proof {
            use_type_invariant(self);
        }
        let height = self.size.1;
        for r in 0..height
            invariant
                height == self.dims().1,
        {
            feed_cells(self.boxed_row(r), state);
        }
    }
}

impl PartialEq for ProcessedShape {
    /// Whether the two aligned patterns occupy the same cells.
    fn eq(&self, other: &Self) -> (res: bool) {
        proof {
            RawShape::lemma_view_determines_grid(self.shape, other.shape);
        }
        self.shape.same_grid(&other.shape)
    }
}

impl PartialEqSpecImpl for ProcessedShape {
    open spec fn obeys_eq_spec() -> bool {
        true
    }

    open spec fn eq_spec(&self, other: &Self) -> bool {
        self@ == other@
    }
}

impl Eq for ProcessedShape {}

impl Into<RawShape> for ProcessedShape {
    /// The corner-aligned pattern.
    fn into(self) -> (res: RawShape) {
        self.shape
    }
}

impl IntoSpecImpl<RawShape> for ProcessedShape {
    open spec fn obeys_into_spec() -> bool {
        true
    }

    open spec fn into_spec(self) -> RawShape {
        self.grid()
    }
}

} // verus!
