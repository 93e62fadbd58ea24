//! Procedural maze generation for gym levels, a row-by-row variant of
//! Eller's algorithm: each row's cells carry a disjoint-set label; a
//! scan walls off or merges adjacent cells at random, random bottom
//! openings keep every set connected into the next row, and the last
//! row merges whatever remains.
//!
//! Passages are read from the owning cell's flags: the passage to the
//! right of `(r, c)` is open when that cell's `right_wall` is false,
//! the passage below it when its `bottom_wall` is false. Top walls are
//! drawn only for the first row and left walls only for the first
//! column; the generator sets those flags accordingly on every row.

use vstd::prelude::*;
use crate::rng::rand_below;

verus! {

/// Cells per side are bounded so that a cell index `r * width + c`
/// always fits a `usize` during flood fill.
pub const MAX_MAZE_SIDE: usize = 16384;

/// One maze cell: four wall flags and the disjoint-set label used
/// during generation.
#[derive(Clone, Copy, PartialEq, Eq, Structural, Debug)]
pub struct Container {
    pub left_wall: bool,
    pub right_wall: bool,
    pub bottom_wall: bool,
    pub top_wall: bool,
    pub set: usize,
}

/// A generated maze: `maze_height` rows of `maze_width` cells each.
pub struct Maze {
    pub maze: Vec<Vec<Container>>,
    pub maze_width: usize,
    pub maze_height: usize,
}

impl Maze {
    /// A rectangular grid of the stated dimensions.
    pub open spec fn wf(&self) -> bool {
        &&& 1 <= self.maze_width <= MAX_MAZE_SIDE
        &&& 1 <= self.maze_height <= MAX_MAZE_SIDE
        &&& self.maze@.len() == self.maze_height
        &&& forall|r: int|
            0 <= r < self.maze@.len() ==> (#[trigger] self.maze@[r])@.len() == self.maze_width
    }

    /// The cell at row `r`, column `c`.
    pub open spec fn cell(&self, r: int, c: int) -> Container {
        self.maze@[r]@[c]
    }
}

/// Two cells agreeing on every wall flag (the set label may differ).
pub open spec fn same_walls(a: Container, b: Container) -> bool {
    &&& a.left_wall == b.left_wall
    &&& a.right_wall == b.right_wall
    &&& a.bottom_wall == b.bottom_wall
    &&& a.top_wall == b.top_wall
}

/// Every set label at most `width` (0 marks a cell not yet in a set).
pub open spec fn row_sets_bounded(row: Seq<Container>, width: int) -> bool {
    forall|c: int| 0 <= c < row.len() ==> (#[trigger] row[c]).set <= width
}

/// No left wall anywhere but the first column.
pub open spec fn row_left_only_first(row: Seq<Container>, width: int) -> bool {
    forall|c: int| 1 <= c < row.len() ==> !(#[trigger] row[c]).left_wall
}

/// A fresh row: every flag clear, every cell outside any set.
fn new_row(width: usize) -> (r: Vec<Container>)
    ensures
        r@.len() == width,
        forall|c: int|
            0 <= c < width ==> #[trigger] r@[c] == (Container {
                left_wall: false,
                right_wall: false,
                bottom_wall: false,
                top_wall: false,
                set: 0,
            }),
{
    let mut r: Vec<Container> = Vec::new();
    let mut i: usize = 0;
    while i < width
        invariant
            i <= width,
            r@.len() == i,
            forall|c: int|
                0 <= c < i ==> #[trigger] r@[c] == (Container {
                    left_wall: false,
                    right_wall: false,
                    bottom_wall: false,
                    top_wall: false,
                    set: 0,
                }),
        decreases width - i,
    {
        r.push(
            Container {
                left_wall: false,
                right_wall: false,
                bottom_wall: false,
                top_wall: false,
                set: 0,
            },
        );
        i = i + 1;
    }
    r
}

/// An element-wise copy of a row.
fn copy_row(v: &Vec<Container>) -> (r: Vec<Container>)
    ensures
        r@ == v@,
{
    let mut r: Vec<Container> = Vec::new();
    let mut i: usize = 0;
    while i < v.len()
        invariant
            i <= v.len(),
            r@ == v@.take(i as int),
        decreases v.len() - i,
    {
        r.push(v[i]);
        proof {
            assert(v@.take(i + 1 as int) =~= v@.take(i as int).push(v@[i as int]));
        }
        i = i + 1;
    }
    proof {
        assert(v@.take(v@.len() as int) =~= v@);
    }
    r
}

/// Gives every cell of a starting row a set: cells left over from the
/// previous row keep their grouping under fresh labels, and each cell
/// not yet in a set becomes a singleton. The labels are canonical
/// (leftmost member's column plus one), which keeps them within
/// `1..=width`; which cells share a set is all that later steps read.
fn relabel_row(row: &mut Vec<Container>, width: usize)
    requires
        old(row)@.len() == width,
        1 <= width < MAX_MAZE_SIDE + 1,
        row_sets_bounded(old(row)@, width as int),
    ensures
        final(row)@.len() == width,
        forall|c: int| 0 <= c < width ==> 1 <= (#[trigger] final(row)@[c]).set <= width,
        forall|c: int| 0 <= c < width ==> same_walls(old(row)@[c], #[trigger] final(row)@[c]),
        forall|c1: int, c2: int|
            0 <= c1 < width && 0 <= c2 < width ==> (((#[trigger] final(row)@[c1]).set == (
            #[trigger] final(row)@[c2]).set) <==> ((old(row)@[c1].set == old(row)@[c2].set && old(
                row,
            )@[c1].set != 0) || c1 == c2)),
{
    let mut remap: Vec<usize> = Vec::new();
    let mut i: usize = 0;
    while i < width + 1
        invariant
            width < MAX_MAZE_SIDE + 1,
            i <= width + 1,
            remap@.len() == i,
            forall|k: int| 0 <= k < i ==> #[trigger] remap@[k] == 0,
        decreases width + 1 - i,
    {
        remap.push(0);
        i = i + 1;
    }
    let ghost orig = old(row)@;
    let mut c: usize = 0;
    while c < width
        invariant
            1 <= width,
            row@.len() == width,
            orig.len() == width,
            remap@.len() == width + 1,
            row_sets_bounded(orig, width as int),
            forall|j: int| c <= j < width ==> #[trigger] row@[j] == orig[j],
            forall|j: int| 0 <= j < c ==> 1 <= (#[trigger] row@[j]).set <= width,
            forall|j: int| 0 <= j < c ==> same_walls(orig[j], #[trigger] row@[j]),
            forall|k: int| 0 <= k < remap@.len() ==> #[trigger] remap@[k] <= width,
            // a remap entry points at the leftmost processed member of
            // the old set it renames
            forall|k: int|
                1 <= k <= width && #[trigger] remap@[k] != 0 ==> (exists|j: int|
                    0 <= j < c && (#[trigger] orig[j]).set == k && row@[j].set == remap@[k]),
            // processed cells carry the remap of their old set, or a
            // fresh singleton label
            forall|j: int|
                0 <= j < c ==> (#[trigger] row@[j]).set == (if orig[j].set != 0 {
                    remap@[orig[j].set as int] as int
                } else {
                    j + 1
                }),
            // fresh labels never collide: a label j + 1 marks either
            // the singleton at j or a set first seen at j
            forall|j: int|
                0 <= j < c ==> (#[trigger] row@[j]).set != 0 && ((row@[j].set == j + 1) || (0
                    <= row@[j].set - 1 < j && row@[row@[j].set - 1].set == row@[j].set && orig[
                    row@[j].set - 1].set == orig[j].set && orig[j].set != 0)),
            // an unseen old set has no processed member
            forall|k: int, j: int|
                #![trigger remap@[k], orig[j]]
                1 <= k <= width && remap@[k] == 0 && 0 <= j < c ==> orig[j].set != k,
        decreases width - c,
    {
        proof {
            assert(orig[c as int].set <= width);
        }
        let old_set = row[c].set;
        let mut cc = row[c];
        if old_set == 0 {
            cc.set = c + 1;
        } else if remap[old_set] == 0 {
            remap[old_set] = c + 1;
            cc.set = c + 1;
        } else {
            cc.set = remap[old_set];
        }
        row[c] = cc;
        c = c + 1;
    }
    proof {
        assert forall|c1: int, c2: int|
            0 <= c1 < width && 0 <= c2 < width implies ((row@[c1].set == row@[c2].set) <==> (
        orig[c1].set == orig[c2].set && orig[c1].set != 0) || c1 == c2) by {
            if c1 != c2 {
                if orig[c1].set == orig[c2].set && orig[c1].set != 0 {
                    assert(row@[c1].set == remap@[orig[c1].set as int]);
                    assert(row@[c2].set == remap@[orig[c2].set as int]);
                }
                if row@[c1].set == row@[c2].set {
                    let l = row@[c1].set as int;
                    if orig[c1].set == 0 && orig[c2].set == 0 {
                        assert(row@[c1].set == c1 + 1 && row@[c2].set == c2 + 1);
                    } else if orig[c1].set == 0 {
                        assert(row@[c1].set == c1 + 1);
                        assert(row@[c2].set == c1 + 1);
                        assert(orig[l - 1].set == orig[c2].set && orig[l - 1].set != 0);
                        assert(orig[c1].set != 0);
                    } else if orig[c2].set == 0 {
                        assert(row@[c2].set == c2 + 1);
                        assert(row@[c1].set == c2 + 1);
                        assert(orig[l - 1].set == orig[c1].set && orig[l - 1].set != 0);
                        assert(orig[c2].set != 0);
                    } else {
                        assert(row@[c1].set == remap@[orig[c1].set as int]);
                        assert(row@[c2].set == remap@[orig[c2].set as int]);
                        if orig[c1].set != orig[c2].set {
                            let k1 = orig[c1].set as int;
                            let k2 = orig[c2].set as int;
                            assert(remap@[k1] != 0 && remap@[k2] != 0);
                            let j1 = choose|j: int|
                                0 <= j < width && (#[trigger] orig[j]).set == k1 && row@[j].set
                                    == remap@[k1];
                            let j2 = choose|j: int|
                                0 <= j < width && (#[trigger] orig[j]).set == k2 && row@[j].set
                                    == remap@[k2];
                            assert(row@[j1].set == row@[j2].set);
                            assert((row@[j1].set == j1 + 1) || (orig[row@[j1].set - 1].set
                                == orig[j1].set));
                            assert((row@[j2].set == j2 + 1) || (orig[row@[j2].set - 1].set
                                == orig[j2].set));
                            assert(orig[l - 1].set == k1 && orig[l - 1].set == k2);
                        }
                    }
                }
            }
        }
    }
}

/// Relabels every member of set `from` into set `to`; the union step
/// of a merge. Walls are untouched.
fn merge_sets(row: &mut Vec<Container>, from: usize, to: usize)
    ensures
        final(row)@.len() == old(row)@.len(),
        forall|c: int|
            0 <= c < final(row)@.len() ==> (#[trigger] final(row)@[c]).set == (if old(row)@[c].set == from {
                to
            } else {
                old(row)@[c].set
            }),
        forall|c: int| 0 <= c < final(row)@.len() ==> same_walls(old(row)@[c], #[trigger] final(row)@[c]),
{
    let mut c: usize = 0;
    while c < row.len()
        invariant
            row@.len() == old(row)@.len(),
            c <= row@.len(),
            forall|j: int| c <= j < row@.len() ==> #[trigger] row@[j] == old(row)@[j],
            forall|j: int|
                0 <= j < c ==> (#[trigger] row@[j]).set == (if old(row)@[j].set == from {
                    to
                } else {
                    old(row)@[j].set
                }),
            forall|j: int| 0 <= j < c ==> same_walls(old(row)@[j], #[trigger] row@[j]),
        decreases row@.len() - c,
    {
        if row[c].set == from {
            let mut cc = row[c];
            cc.set = to;
            row[c] = cc;
        }
        c = c + 1;
    }
}

/// The right-wall scan: adjacent cells of one set are walled apart (no
/// cycle within a row); adjacent cells of different sets are walled
/// with probability 3 in 10, else merged. The last column's right
/// wall is left as it stands.
fn right_walls_phase(row: &mut Vec<Container>, width: usize)
    requires
        old(row)@.len() == width,
        1 <= width,
        forall|c: int| 0 <= c < width ==> 1 <= (#[trigger] old(row)@[c]).set <= width,
    ensures
        final(row)@.len() == width,
        forall|c: int| 0 <= c < width ==> 1 <= (#[trigger] final(row)@[c]).set <= width,
        forall|c: int|
            0 <= c < width ==> {
                let a = old(row)@[c];
                let b = #[trigger] final(row)@[c];
                a.left_wall == b.left_wall && a.bottom_wall == b.bottom_wall && a.top_wall
                    == b.top_wall
            },
        final(row)@[width - 1].right_wall == old(row)@[width - 1].right_wall,
{
    let mut c: usize = 0;
    while c + 1 < width
        invariant
            row@.len() == width,
            old(row)@.len() == width,
            c < width,
            forall|j: int| 0 <= j < width ==> 1 <= (#[trigger] row@[j]).set <= width,
            forall|j: int|
                0 <= j < width ==> {
                    let a = old(row)@[j];
                    let b = #[trigger] row@[j];
                    a.left_wall == b.left_wall && a.bottom_wall == b.bottom_wall && a.top_wall
                        == b.top_wall
                },
            row@[width - 1].right_wall == old(row)@[width - 1].right_wall,
        decreases width - c,
    {
        if row[c].set == row[c + 1].set {
            let mut cc = row[c];
            cc.right_wall = true;
            row[c] = cc;
        } else {
            let n1 = rand_below(10);
            if n1 == 3 || n1 == 8 || n1 == 5 {
                let mut cc = row[c];
                cc.right_wall = true;
                row[c] = cc;
            } else {
                let keep = row[c].set;
                let gone = row[c + 1].set;
                merge_sets(row, gone, keep);
            }
        }
        c = c + 1;
    }
}

/// Whether the set of cell `c` still has a member besides `c` that can
/// keep an opening into the next row: one to the right (not yet
/// decided) or one to the left without a bottom wall.
fn has_other_open(row: &Vec<Container>, c: usize) -> (r: bool)
    requires
        c < row@.len(),
    ensures
        r == exists|j: int|
            0 <= j < row@.len() && j != c && (#[trigger] row@[j]).set == row@[c as int].set && (j
                > c || !row@[j].bottom_wall),
{
    let mut j: usize = 0;
    while j < row.len()
        invariant
            j <= row@.len(),
            c < row@.len(),
            forall|l: int|
                0 <= l < j ==> !(l != c && (#[trigger] row@[l]).set == row@[c as int].set && (l > c
                    || !row@[l].bottom_wall)),
        decreases row@.len() - j,
    {
        if j != c && row[j].set == row[c].set && (j > c || !row[j].bottom_wall) {
            return true;
        }
        j = j + 1;
    }
    false
}

/// The bottom-wall scan: each cell draws, and on 3, 8 or 5 takes a
/// bottom wall unless it is its set's last chance of an opening into
/// the next row.
fn bottom_walls_phase(row: &mut Vec<Container>, width: usize)
    requires
        old(row)@.len() == width,
    ensures
        final(row)@.len() == width,
        forall|c: int|
            0 <= c < width ==> {
                let a = old(row)@[c];
                let b = #[trigger] final(row)@[c];
                a.set == b.set && a.left_wall == b.left_wall && a.right_wall == b.right_wall
                    && a.top_wall == b.top_wall
            },
{
    let mut c: usize = 0;
    while c < width
        invariant
            row@.len() == width,
            old(row)@.len() == width,
            c <= width,
            forall|j: int|
                0 <= j < width ==> {
                    let a = old(row)@[j];
                    let b = #[trigger] row@[j];
                    a.set == b.set && a.left_wall == b.left_wall && a.right_wall == b.right_wall
                        && a.top_wall == b.top_wall
                },
        decreases width - c,
    {
        let n1 = rand_below(10);
        if n1 == 3 || n1 == 8 || n1 == 5 {
            if has_other_open(row, c) {
                let mut cc = row[c];
                cc.bottom_wall = true;
                row[c] = cc;
            }
        }
        c = c + 1;
    }
}

/// Marks the border the renderer draws for every row: a top wall on
/// each cell and a left wall on the first. (The first row introduces
/// the top flags; reusing the row buffer keeps them set on every later
/// row, so each row is marked alike.)
fn set_top_left(row: &mut Vec<Container>, width: usize)
    requires
        old(row)@.len() == width,
        1 <= width,
    ensures
        final(row)@.len() == width,
        forall|c: int| 0 <= c < width ==> (#[trigger] final(row)@[c]).top_wall,
        final(row)@[0].left_wall,
        forall|c: int|
            1 <= c < width ==> ((#[trigger] final(row)@[c]).left_wall == old(row)@[c].left_wall),
        forall|c: int|
            0 <= c < width ==> {
                let a = old(row)@[c];
                let b = #[trigger] final(row)@[c];
                a.set == b.set && a.right_wall == b.right_wall && a.bottom_wall == b.bottom_wall
            },
{
    let mut c: usize = 0;
    while c < width
        invariant
            row@.len() == width,
            old(row)@.len() == width,
            c <= width,
            forall|j: int| 0 <= j < c ==> (#[trigger] row@[j]).top_wall,
            forall|j: int| c <= j < width ==> #[trigger] row@[j] == old(row)@[j],
            forall|j: int|
                0 <= j < c ==> {
                    let a = old(row)@[j];
                    let b = #[trigger] row@[j];
                    a.set == b.set && a.right_wall == b.right_wall && a.bottom_wall == b.bottom_wall
                        && a.left_wall == b.left_wall
                },
        decreases width - c,
    {
        let mut cc = row[c];
        cc.top_wall = true;
        row[c] = cc;
        c = c + 1;
    }
    let mut c0 = row[0];
    c0.left_wall = true;
    row[0] = c0;
}

/// Readies the buffer for the next row: right walls cleared except the
/// last column's (its wall stands on every row but the first), cells
/// with a bottom wall dropped from their sets, bottom walls cleared.
fn prepare_next_row(row: &mut Vec<Container>, width: usize)
    requires
        old(row)@.len() == width,
        1 <= width,
        row_sets_bounded(old(row)@, width as int),
    ensures
        final(row)@.len() == width,
        row_sets_bounded(final(row)@, width as int),
        forall|c: int|
            0 <= c < width ==> {
                let a = old(row)@[c];
                let b = #[trigger] final(row)@[c];
                a.left_wall == b.left_wall && a.top_wall == b.top_wall && !b.bottom_wall
                    && b.right_wall == (c == width - 1)
            },
{
    let mut c: usize = 0;
    while c < width
        invariant
            row@.len() == width,
            old(row)@.len() == width,
            c <= width,
            row_sets_bounded(old(row)@, width as int),
            forall|j: int| c <= j < width ==> #[trigger] row@[j] == old(row)@[j],
            forall|j: int| 0 <= j < c ==> (#[trigger] row@[j]).set <= width,
            forall|j: int|
                0 <= j < c ==> {
                    let a = old(row)@[j];
                    let b = #[trigger] row@[j];
                    a.left_wall == b.left_wall && a.top_wall == b.top_wall && !b.bottom_wall
                        && !b.right_wall
                },
        decreases width - c,
    {
        proof {
            assert(old(row)@[c as int].set <= width);
        }
        let mut cc = row[c];
        cc.right_wall = false;
        if cc.bottom_wall {
            cc.set = 0;
            cc.bottom_wall = false;
        }
        row[c] = cc;
        c = c + 1;
    }
    let mut last = row[width - 1];
    last.right_wall = true;
    row[width - 1] = last;
}

/// The last row's fixups: a bottom wall on every cell, and any two
/// adjacent cells still in different sets merged through an opened
/// right wall, so the final row leaves no region cut off.
fn finalize_last_row(row: &mut Vec<Container>, width: usize)
    requires
        old(row)@.len() == width,
        1 <= width,
        row_sets_bounded(old(row)@, width as int),
    ensures
        final(row)@.len() == width,
        forall|c: int| 0 <= c < width ==> (#[trigger] final(row)@[c]).bottom_wall,
        forall|c: int|
            0 <= c < width ==> {
                let a = old(row)@[c];
                let b = #[trigger] final(row)@[c];
                a.left_wall == b.left_wall && a.top_wall == b.top_wall
            },
        final(row)@[width - 1].right_wall == old(row)@[width - 1].right_wall,
{
    let mut c: usize = 0;
    while c + 1 < width
        invariant
            row@.len() == width,
            old(row)@.len() == width,
            c < width,
            forall|j: int| 0 <= j < c ==> (#[trigger] row@[j]).bottom_wall,
            forall|j: int|
                0 <= j < width ==> {
                    let a = old(row)@[j];
                    let b = #[trigger] row@[j];
                    a.left_wall == b.left_wall && a.top_wall == b.top_wall
                },
            row@[width - 1].right_wall == old(row)@[width - 1].right_wall,
        decreases width - c,
    {
        let mut cc = row[c];
        cc.bottom_wall = true;
        row[c] = cc;
        if row[c].set != row[c + 1].set {
            let mut cc2 = row[c];
            cc2.right_wall = false;
            row[c] = cc2;
            let keep = row[c].set;
            let gone = row[c + 1].set;
            merge_sets(row, gone, keep);
        }
        c = c + 1;
    }
    let mut last = row[width - 1];
    last.bottom_wall = true;
    row[width - 1] = last;
}

/// A pushed row of the finished maze: full width, a top-wall flag on
/// every cell, a left wall exactly on the first column, and a right
/// wall on the last column of every row but the first.
pub open spec fn finished_row(rowseq: Seq<Container>, width: int, r: int) -> bool {
    &&& rowseq.len() == width
    &&& forall|c: int| 0 <= c < width ==> (#[trigger] rowseq[c]).top_wall
    &&& forall|c: int| 0 <= c < width ==> ((#[trigger] rowseq[c]).left_wall <==> c == 0)
    &&& rowseq[width - 1].right_wall == (r >= 1)
}

impl Maze {
    /// Generates a random `height x width` maze by the row-by-row
    /// merging procedure: singleton sets per new row, random right
    /// walls between distinct sets (3 in 10) or merges, random bottom
    /// walls that never close a set's last opening, then a fully
    /// walled bottom row with all remaining sets merged.
    pub fn create_random_maze(height: usize, width: usize) -> (m: Maze)
        requires
            1 <= height <= MAX_MAZE_SIDE,
            1 <= width <= MAX_MAZE_SIDE,
        ensures
            m.wf(),
            m.maze_height == height,
            m.maze_width == width,
            forall|r: int, c: int|
                0 <= r < height && 0 <= c < width ==> (#[trigger] m.cell(r, c)).top_wall,
            forall|r: int, c: int|
                0 <= r < height && 0 <= c < width ==> ((#[trigger] m.cell(r, c)).left_wall <==> c
                    == 0),
            forall|c: int| 0 <= c < width ==> (#[trigger] m.cell(height - 1, c)).bottom_wall,
            forall|r: int|
                0 <= r < height ==> ((#[trigger] m.cell(r, width - 1)).right_wall <==> r >= 1),
    {
        let mut maze_rows: Vec<Vec<Container>> = Vec::new();
        let mut row = new_row(width);
        let mut r: usize = 0;
        while r + 1 < height
            invariant
                1 <= width <= MAX_MAZE_SIDE,
                1 <= height <= MAX_MAZE_SIDE,
                r < height,
                row@.len() == width,
                row_sets_bounded(row@, width as int),
                row_left_only_first(row@, width as int),
                maze_rows@.len() == r,
                forall|rr: int|
                    0 <= rr < r ==> finished_row(
                        (#[trigger] maze_rows@[rr])@,
                        width as int,
                        rr,
                    ),
                row@[width - 1].right_wall == (r >= 1),
            decreases height - r,
        {
            relabel_row(&mut row, width);
            right_walls_phase(&mut row, width);
            bottom_walls_phase(&mut row, width);
            set_top_left(&mut row, width);
            let done = copy_row(&row);
            maze_rows.push(done);
            prepare_next_row(&mut row, width);
            r = r + 1;
        }
        relabel_row(&mut row, width);
        right_walls_phase(&mut row, width);
        bottom_walls_phase(&mut row, width);
        set_top_left(&mut row, width);
        finalize_last_row(&mut row, width);
        proof {
            assert(finished_row(row@, width as int, height - 1));
        }
        maze_rows.push(row);
        Maze { maze: maze_rows, maze_width: width, maze_height: height }
    }
}

/// A cell within the grid.
pub open spec fn valid_cell(m: Maze, r: int, c: int) -> bool {
    0 <= r < m.maze_height && 0 <= c < m.maze_width
}

/// An open passage between two adjacent cells. Horizontal passages are
/// read from the left cell's right-wall flag, vertical passages from
/// the upper cell's bottom-wall flag, matching how walls are drawn.
pub open spec fn passage(m: Maze, r1: int, c1: int, r2: int, c2: int) -> bool {
    ||| (r2 == r1 && c2 == c1 + 1 && !m.cell(r1, c1).right_wall)
    ||| (r2 == r1 && c1 == c2 + 1 && !m.cell(r2, c2).right_wall)
    ||| (c2 == c1 && r2 == r1 + 1 && !m.cell(r1, c1).bottom_wall)
    ||| (c2 == c1 && r1 == r2 + 1 && !m.cell(r2, c2).bottom_wall)
}

/// A walk through open passages from the top-left cell.
pub open spec fn is_path(m: Maze, p: Seq<(int, int)>) -> bool {
    &&& p.len() >= 1
    &&& p[0] == (0int, 0int)
    &&& forall|i: int| 0 <= i < p.len() ==> valid_cell(m, (#[trigger] p[i]).0, p[i].1)
    &&& forall|i: int|
        0 <= i < p.len() - 1 ==> passage(m, (#[trigger] p[i]).0, p[i].1, p[i + 1].0, p[i + 1].1)
}

/// A cell reachable from the top-left cell through open passages.
pub open spec fn reachable(m: Maze, r: int, c: int) -> bool {
    exists|p: Seq<(int, int)>| is_path(m, p) && p.last() == (r, c)
}

/// One open passage extends a path by one cell.
proof fn lemma_reach_step(m: Maze, r1: int, c1: int, r2: int, c2: int)
    requires
        reachable(m, r1, c1),
        valid_cell(m, r2, c2),
        passage(m, r1, c1, r2, c2),
    ensures
        reachable(m, r2, c2),
{
    let p = choose|p: Seq<(int, int)>| is_path(m, p) && p.last() == (r1, c1);
    let q = p.push((r2, c2));
    assert(is_path(m, q)) by {
        assert(forall|i: int| 0 <= i < p.len() ==> q[i] == #[trigger] p[i]);
        assert(q[q.len() - 1] == (r2, c2));
        assert(q[p.len() - 1] == (r1, c1));
    }
    assert(q.last() == (r2, c2));
}

/// The top-left cell reaches itself.
proof fn lemma_reach_origin(m: Maze)
    requires
        m.wf(),
    ensures
        reachable(m, 0, 0),
{
    let p = seq![(0int, 0int)];
    assert(is_path(m, p));
    assert(p.last() == (0int, 0int));
}

/// How many entries of a flag sequence are set.
spec fn count_trues(s: Seq<bool>) -> int
    decreases s.len(),
{
    if s.len() == 0 {
        0
    } else {
        count_trues(s.drop_last()) + if s.last() {
            1int
        } else {
            0int
        }
    }
}

proof fn lemma_count_trues_bound(s: Seq<bool>)
    ensures
        0 <= count_trues(s) <= s.len(),
    decreases s.len(),
{
    if s.len() > 0 {
        lemma_count_trues_bound(s.drop_last());
    }
}

proof fn lemma_count_trues_update(s: Seq<bool>, i: int)
    requires
        0 <= i < s.len(),
        !s[i],
    ensures
        count_trues(s.update(i, true)) == count_trues(s) + 1,
    decreases s.len(),
{
    let t = s.update(i, true);
    if i == s.len() - 1 {
        assert(t.drop_last() =~= s.drop_last());
    } else {
        assert(t.drop_last() =~= s.drop_last().update(i, true));
        lemma_count_trues_update(s.drop_last(), i);
    }
}

/// The flag of the cell at row `r`, column `c` in a row-major flag
/// sequence of rows of width `w`.
pub open spec fn marked(visited: Seq<bool>, w: int, r: int, c: int) -> bool {
    visited[r * w + c]
}

/// Whether a cell index still waits on the flood-fill stack.
spec fn on_stack(stack: Seq<usize>, idx: int) -> bool {
    exists|k: int| 0 <= k < stack.len() && stack[k] == idx
}

/// The flood-fill invariant: every open passage out of a marked cell
/// that is no longer waiting on the stack leads to a marked cell.
spec fn frontier_closed(m: Maze, visited: Seq<bool>, stack: Seq<usize>) -> bool {
    forall|r1: int, c1: int, r2: int, c2: int|
        #![trigger marked(visited, m.maze_width as int, r1, c1), passage(m, r1, c1, r2, c2)]
        valid_cell(m, r1, c1) && valid_cell(m, r2, c2) && marked(
            visited,
            m.maze_width as int,
            r1,
            c1,
        ) && !on_stack(stack, r1 * (m.maze_width as int) + c1) && passage(m, r1, c1, r2, c2)
            ==> marked(visited, m.maze_width as int, r2, c2)
}

/// With an empty stack, a closed marking that holds the top-left cell
/// holds every cell a path reaches.
proof fn lemma_closed_visits_path(m: Maze, visited: Seq<bool>, stack: Seq<usize>, p: Seq<
    (int, int),
>)
    requires
        m.wf(),
        frontier_closed(m, visited, stack),
        stack.len() == 0,
        marked(visited, m.maze_width as int, 0, 0),
        is_path(m, p),
    ensures
        marked(visited, m.maze_width as int, p.last().0, p.last().1),
    decreases p.len(),
{
    let w = m.maze_width as int;
    if p.len() == 1 {
        assert(p.last() == (0int, 0int));
    } else {
        let q = p.drop_last();
        assert(is_path(m, q)) by {
            assert(forall|i: int| 0 <= i < q.len() ==> q[i] == #[trigger] p[i]);
        }
        lemma_closed_visits_path(m, visited, stack, q);
        let a = q.last();
        let b = p.last();
        assert(a == p[p.len() - 2] && b == p[p.len() - 1]);
        assert(passage(m, a.0, a.1, b.0, b.1));
        assert(!on_stack(stack, a.0 * w + a.1));
        assert(marked(visited, w, b.0, b.1));
    }
}

/// Two valid cells with the same row-major index are the same cell.
proof fn lemma_cell_index_injective(h: int, w: int, r1: int, c1: int, r2: int, c2: int)
    requires
        1 <= w,
        0 <= r1 < h,
        0 <= c1 < w,
        0 <= r2 < h,
        0 <= c2 < w,
        r1 * w + c1 == r2 * w + c2,
    ensures
        r1 == r2 && c1 == c2,
{
    vstd::arithmetic::div_mod::lemma_fundamental_div_mod_converse(r1 * w + c1, w, r1, c1);
    vstd::arithmetic::div_mod::lemma_fundamental_div_mod_converse(r2 * w + c2, w, r2, c2);
}

/// Re-establishes the frontier invariant after one flood-fill round:
/// marks only grew, every newly marked cell waits on the stack, every
/// open neighbor of the popped cell is marked, and every other waiting
/// cell still waits.
proof fn lemma_frontier_restore(
    m: Maze,
    head_visited: Seq<bool>,
    head_stack: Seq<usize>,
    visited: Seq<bool>,
    stack: Seq<usize>,
    ri: int,
    ci: int,
)
    requires
        m.wf(),
        valid_cell(m, ri, ci),
        frontier_closed(m, head_visited, head_stack),
        forall|j: int|
            0 <= j < m.maze_height * m.maze_width && head_visited[j] ==> #[trigger] visited[j],
        forall|j: int|
            0 <= j < m.maze_height * m.maze_width && !head_visited[j] && #[trigger] visited[j]
                ==> on_stack(stack, j),
        forall|r2: int, c2: int|
            valid_cell(m, r2, c2) && #[trigger] passage(m, ri, ci, r2, c2) ==> marked(
                visited,
                m.maze_width as int,
                r2,
                c2,
            ),
        forall|idx: int|
            #[trigger] on_stack(head_stack, idx) && idx != ri * (m.maze_width as int) + ci
                ==> on_stack(stack, idx),
    ensures
        frontier_closed(m, visited, stack),
{
    let h = m.maze_height as int;
    let wi = m.maze_width as int;
    assert forall|r1: int, c1: int, r2: int, c2: int|
        valid_cell(m, r1, c1) && valid_cell(m, r2, c2) && marked(visited, wi, r1, c1)
            && !on_stack(stack, r1 * wi + c1) && passage(m, r1, c1, r2, c2) implies marked(
        visited,
        wi,
        r2,
        c2,
    ) by {
        let idx1 = r1 * wi + c1;
        assert(0 <= idx1 < h * wi) by (nonlinear_arith)
            requires
                idx1 == r1 * wi + c1,
                0 <= r1 < h,
                0 <= c1 < wi,
                1 <= wi,
        ;
        let idx2 = r2 * wi + c2;
        assert(0 <= idx2 < h * wi) by (nonlinear_arith)
            requires
                idx2 == r2 * wi + c2,
                0 <= r2 < h,
                0 <= c2 < wi,
                1 <= wi,
        ;
        if r1 == ri && c1 == ci {
            assert(marked(visited, wi, r2, c2));
        } else {
            assert(idx1 != ri * wi + ci) by {
                if idx1 == ri * wi + ci {
                    lemma_cell_index_injective(h, wi, r1, c1, ri, ci);
                }
            }
            if head_visited[idx1] {
                assert(marked(head_visited, wi, r1, c1));
                assert(!on_stack(head_stack, idx1));
                assert(marked(head_visited, wi, r2, c2));
            }
        }
    }
}

impl Maze {
    /// Flood fill over open passages from the top-left cell: decides
    /// whether every cell of the grid is reachable from the top-left
    /// cell, the connectivity guarantee of a well-built maze.
    #[verifier::spinoff_prover]
    #[verifier::rlimit(100)]
    pub fn is_connected(&self) -> (b: bool)
        requires
            self.wf(),
        ensures
            b <==> forall|r: int, c: int|
                valid_cell(*self, r, c) ==> reachable(*self, r, c),
    {
        let h = self.maze_height;
        let w = self.maze_width;
        proof {
            assert(1 <= h * w <= MAX_MAZE_SIDE * MAX_MAZE_SIDE) by (nonlinear_arith)
                requires
                    1 <= h <= MAX_MAZE_SIDE,
                    1 <= w <= MAX_MAZE_SIDE,
            ;
        }
        let total = h * w;
        let mut visited: Vec<bool> = Vec::new();
        let mut i: usize = 0;
        while i < total
            invariant
                i <= total,
                visited@.len() == i,
                forall|k: int| 0 <= k < i ==> !(#[trigger] visited@[k]),
                count_trues(visited@) == 0,
            decreases total - i,
        {
            let ghost prev = visited@;
            visited.push(false);
            proof {
                assert(visited@.drop_last() =~= prev);
            }
            i = i + 1;
        }
        proof {
            lemma_count_trues_bound(visited@);
            lemma_reach_origin(*self);
            lemma_count_trues_update(visited@, 0);
        }
        let ghost m = *self;
        let mut count: usize = 1;
        visited[0] = true;
        let mut stack: Vec<usize> = Vec::new();
        stack.push(0);
        proof {
            assert(stack@[0] == 0);
            assert(on_stack(stack@, 0));
            assert(frontier_closed(m, visited@, stack@)) by {
                assert forall|r1: int, c1: int, r2: int, c2: int|
                    valid_cell(m, r1, c1) && valid_cell(m, r2, c2) && marked(
                        visited@,
                        w as int,
                        r1,
                        c1,
                    ) && !on_stack(stack@, r1 * (w as int) + c1) && passage(m, r1, c1, r2, c2)
                    implies marked(visited@, w as int, r2, c2) by {
                    let idx1 = r1 * (w as int) + c1;
                    assert(0 <= idx1 < total) by (nonlinear_arith)
                        requires
                            idx1 == r1 * (w as int) + c1,
                            0 <= r1 < h,
                            0 <= c1 < w,
                            total == h * w,
                            1 <= w,
                    ;
                    if idx1 != 0 {
                        assert(!visited@[idx1]);
                    }
                }
            }
        }
        loop
            invariant
                m == *self,
                m.wf(),
                h == m.maze_height,
                w == m.maze_width,
                total == h * w,
                1 <= total <= MAX_MAZE_SIDE * MAX_MAZE_SIDE,
                visited@.len() == total,
                count == count_trues(visited@),
                count <= total,
                visited@[0],
                forall|k: int| 0 <= k < stack@.len() ==> (#[trigger] stack@[k]) < total,
                forall|k: int|
                    0 <= k < stack@.len() ==> visited@[(#[trigger] stack@[k]) as int],
                forall|idx: int|
                    0 <= idx < total && #[trigger] visited@[idx] ==> reachable(
                        m,
                        idx / (w as int),
                        idx % (w as int),
                    ),
                frontier_closed(m, visited@, stack@),
            ensures
                stack@.len() == 0,
                visited@.len() == total,
                visited@[0],
                frontier_closed(m, visited@, stack@),
                forall|idx: int|
                    0 <= idx < total && #[trigger] visited@[idx] ==> reachable(
                        m,
                        idx / (w as int),
                        idx % (w as int),
                    ),
            decreases 5 * (total - count) + stack@.len(),
        {
            let ghost head_visited = visited@;
            let ghost head_stack = stack@;
            let u = match stack.pop() {
                Some(u) => u,
                None => { break },
            };
            let r = u / w;
            let c = u % w;
            let ghost ui = u as int;
            let ghost wi = w as int;
            proof {
                vstd::arithmetic::div_mod::lemma_fundamental_div_mod(ui, wi);
                assert(r < h) by (nonlinear_arith)
                    requires
                        ui < h * wi,
                        1 <= wi,
                        r == ui / wi,
                        ui == wi * (ui / wi) + (ui % wi),
                        0 <= ui % wi < wi,
                ;
                assert(u == r * w + c) by (nonlinear_arith)
                    requires
                        ui == u,
                        wi == w,
                        r == ui / wi,
                        c == ui % wi,
                        1 <= wi,
                        ui == wi * (ui / wi) + (ui % wi),
                ;
                assert((r + 1) * w + c == u + w && (r - 1) * w + c == u - w)
                    by (nonlinear_arith)
                    requires
                        u == r * w + c,
                ;
            }
            let ghost ri = r as int;
            let ghost ci = c as int;
            proof {
                assert(visited@[u as int]);
                assert(reachable(m, ri, ci));
            }
            if c + 1 < w && !self.maze[r][c].right_wall {
                let v = u + 1;
                proof {
                    assert(v < total) by (nonlinear_arith)
                        requires
                            v == ri * w + ci + 1,
                            ci + 1 < w,
                            ri < h,
                            total == h * w,
                            1 <= w,
                    ;
                }
                if !visited[v] {
                    proof {
                        lemma_reach_step(m, ri, ci, ri, ci + 1);
                        lemma_count_trues_update(visited@, v as int);
                        lemma_count_trues_bound(visited@.update(v as int, true));
                        vstd::arithmetic::div_mod::lemma_fundamental_div_mod_converse(
                            v as int,
                            wi,
                            ri,
                            ci + 1,
                        );
                    }
                    visited[v] = true;
                    count = count + 1;
                    stack.push(v);
                    proof {
                        assert(stack@[stack@.len() - 1] == v);
                    }
                }
                proof {
                    assert(visited@[ri * wi + ci + 1]);
                }
            }
            proof {
                assert forall|j: int|
                    0 <= j < total && !head_visited[j] && #[trigger] visited@[j] implies on_stack(
                    stack@,
                    j,
                ) by {}
            }
            let ghost vis1 = visited@;
            let ghost st1 = stack@;
            if c >= 1 && !self.maze[r][c - 1].right_wall {
                let v = u - 1;
                if !visited[v] {
                    proof {
                        lemma_reach_step(m, ri, ci, ri, ci - 1);
                        lemma_count_trues_update(visited@, v as int);
                        lemma_count_trues_bound(visited@.update(v as int, true));
                        vstd::arithmetic::div_mod::lemma_fundamental_div_mod_converse(
                            v as int,
                            wi,
                            ri,
                            ci - 1,
                        );
                    }
                    visited[v] = true;
                    count = count + 1;
                    stack.push(v);
                    proof {
                        assert(stack@[stack@.len() - 1] == v);
                    }
                }
                proof {
                    assert(visited@[ri * wi + ci - 1]);
                }
            }
            proof {
                assert forall|j: int|
                    0 <= j < total && !head_visited[j] && #[trigger] visited@[j] implies on_stack(
                    stack@,
                    j,
                ) by {
                    if vis1[j] {
                        let k = choose|k: int| 0 <= k < st1.len() && st1[k] == j;
                        assert(stack@[k] == j);
                    }
                }
            }
            let ghost vis2 = visited@;
            let ghost st2 = stack@;
            if r + 1 < h && !self.maze[r][c].bottom_wall {
                let v = u + w;
                proof {
                    assert(v < total) by (nonlinear_arith)
                        requires
                            v == (ri + 1) * w + ci,
                            ri + 1 < h,
                            0 <= ci < w,
                            total == h * w,
                            1 <= w,
                    ;
                }
                if !visited[v] {
                    proof {
                        lemma_reach_step(m, ri, ci, ri + 1, ci);
                        lemma_count_trues_update(visited@, v as int);
                        lemma_count_trues_bound(visited@.update(v as int, true));
                        vstd::arithmetic::div_mod::lemma_fundamental_div_mod_converse(
                            v as int,
                            wi,
                            ri + 1,
                            ci,
                        );
                    }
                    visited[v] = true;
                    count = count + 1;
                    stack.push(v);
                    proof {
                        assert(stack@[stack@.len() - 1] == v);
                    }
                }
                proof {
                    assert(visited@[(ri + 1) * wi + ci]);
                }
            }
            proof {
                assert forall|j: int|
                    0 <= j < total && !head_visited[j] && #[trigger] visited@[j] implies on_stack(
                    stack@,
                    j,
                ) by {
                    if vis2[j] {
                        let k = choose|k: int| 0 <= k < st2.len() && st2[k] == j;
                        assert(stack@[k] == j);
                    }
                }
            }
            let ghost vis3 = visited@;
            let ghost st3 = stack@;
            if r >= 1 && !self.maze[r - 1][c].bottom_wall {
                proof {
                    assert(u >= w) by (nonlinear_arith)
                        requires
                            u == ri * w + ci,
                            ri >= 1,
                            ci >= 0,
                            1 <= w,
                    ;
                }
                let v = u - w;
                if !visited[v] {
                    proof {
                        lemma_reach_step(m, ri, ci, ri - 1, ci);
                        lemma_count_trues_update(visited@, v as int);
                        lemma_count_trues_bound(visited@.update(v as int, true));
                        vstd::arithmetic::div_mod::lemma_fundamental_div_mod_converse(
                            v as int,
                            wi,
                            ri - 1,
                            ci,
                        );
                    }
                    visited[v] = true;
                    count = count + 1;
                    stack.push(v);
                    proof {
                        assert(stack@[stack@.len() - 1] == v);
                    }
                }
                proof {
                    assert(visited@[(ri - 1) * wi + ci]);
                }
            }
            proof {
                // every cell marked during this round waits on the stack
                assert forall|j: int|
                    0 <= j < total && !head_visited[j] && #[trigger] visited@[j] implies on_stack(
                    stack@,
                    j,
                ) by {
                    if vis3[j] {
                        let k = choose|k: int| 0 <= k < st3.len() && st3[k] == j;
                        assert(stack@[k] == j);
                    }
                }
                // every cell marked at the loop head is still marked
                assert(forall|j: int| 0 <= j < total && head_visited[j] ==> #[trigger] visited@[j]);
                // every open neighbor of the popped cell is now marked
                assert forall|r2: int, c2: int|
                    valid_cell(m, r2, c2) && passage(m, ri, ci, r2, c2) implies marked(
                    visited@,
                    wi,
                    r2,
                    c2,
                ) by {
                    if r2 == ri && c2 == ci + 1 {
                        assert(r2 * wi + c2 == ri * wi + ci + 1) by (nonlinear_arith)
                            requires
                                r2 == ri && c2 == ci + 1,
                        ;
                    } else if r2 == ri && ci == c2 + 1 {
                        assert(r2 * wi + c2 == ri * wi + ci - 1) by (nonlinear_arith)
                            requires
                                r2 == ri && ci == c2 + 1,
                        ;
                    } else if c2 == ci && r2 == ri + 1 {
                        assert(r2 * wi + c2 == (ri + 1) * wi + ci);
                    } else {
                        assert(c2 == ci && ri == r2 + 1);
                        assert(r2 * wi + c2 == (ri - 1) * wi + ci);
                    }
                }
                // a waiting cell other than the popped one still waits
                assert forall|idx: int|
                    on_stack(head_stack, idx) && idx != ui implies on_stack(stack@, idx) by {
                    let k = choose|k: int| 0 <= k < head_stack.len() && head_stack[k] == idx;
                    assert(k < head_stack.len() - 1);
                    assert(st1[k] == head_stack[k]);
                    assert(st2[k] == st1[k]);
                    assert(st3[k] == st2[k]);
                    assert(stack@[k] == st3[k]);
                }
                lemma_frontier_restore(m, head_visited, head_stack, visited@, stack@, ri, ci);
            }
        }
        proof {
            assert(stack@ =~= Seq::<usize>::empty());
            assert(frontier_closed(m, visited@, Seq::<usize>::empty()));
        }
        let mut idx: usize = 0;
        while idx < total
            invariant
                m == *self,
                m.wf(),
                h == m.maze_height,
                w == m.maze_width,
                total == h * w,
                idx <= total,
                visited@.len() == total,
                visited@[0],
                frontier_closed(m, visited@, Seq::<usize>::empty()),
                forall|k: int|
                    0 <= k < total && #[trigger] visited@[k] ==> reachable(
                        m,
                        k / (w as int),
                        k % (w as int),
                    ),
                forall|k: int| 0 <= k < idx ==> #[trigger] visited@[k],
            decreases total - idx,
        {
            if !visited[idx] {
                proof {
                    let ri = idx as int / w as int;
                    let ci = idx as int % w as int;
                    vstd::arithmetic::div_mod::lemma_fundamental_div_mod(idx as int, w as int);
                    assert(ri < h && 0 <= ci < w) by (nonlinear_arith)
                        requires
                            idx < h * (w as int),
                            1 <= w,
                            ri == idx as int / w as int,
                            ci == idx as int % w as int,
                            idx as int == (w as int) * ri + ci,
                            0 <= ci < w,
                    ;
                    assert(idx == ri * (w as int) + ci) by (nonlinear_arith)
                        requires
                            idx as int == (w as int) * ri + ci,
                    ;
                    if reachable(m, ri, ci) {
                        let p = choose|p: Seq<(int, int)>|
                            is_path(m, p) && p.last() == (ri, ci);
                        lemma_closed_visits_path(m, visited@, Seq::<usize>::empty(), p);
                        assert(marked(visited@, w as int, ri, ci));
                        assert(false);
                    }
                }
                return false;
            }
            idx = idx + 1;
        }
        proof {
            assert forall|r: int, c: int| valid_cell(m, r, c) implies reachable(m, r, c) by {
                let k = r * (w as int) + c;
                assert(0 <= k < total) by (nonlinear_arith)
                    requires
                        k == r * (w as int) + c,
                        0 <= r < h,
                        0 <= c < w,
                        total == h * w,
                        1 <= w,
                ;
                vstd::arithmetic::div_mod::lemma_fundamental_div_mod_converse(
                    k,
                    w as int,
                    r,
                    c,
                );
                assert(visited@[k]);
            }
        }
        true
    }
}

} // verus!
