//! The cell graph: a dense arena of cells with index-based adjacency.
//!
//! Cells are stored in one ordered sequence; every neighbor reference is an
//! index into that sequence. A well-formed graph has in-bounds positions,
//! in-bounds and duplicate-free neighbor lists, no self-loops, pairwise
//! distinct positions, and symmetric adjacency.

use vstd::prelude::*;

verus! {

/// One node of the automaton: a pixel position (used only for rendering),
/// a liveness flag, and the indices of its neighbors.
#[derive(Debug, PartialEq, Eq)]
pub struct Cell {
    pub x: usize,
    pub y: usize,
    pub alive: bool,
    pub neighbors: Vec<usize>,
}

/// The automaton topology: the source canvas dimensions, the toroidal-wrap
/// flag the graph was extracted with, and the cell arena.
#[derive(Debug, PartialEq, Eq)]
pub struct CellGraph {
    pub width: usize,
    pub height: usize,
    pub wrap: bool,
    pub cells: Vec<Cell>,
}

impl CellGraph {
    /// Cell `i` on its own: position inside the canvas, neighbor list no
    /// longer than the arena, every entry an in-bounds index other than `i`
    /// (no self-loops), and no entry repeated.
    pub open spec fn cell_ok(self, i: int) -> bool {
        let c = self.cells@[i];
        &&& c.x < self.width
        &&& c.y < self.height
        &&& c.neighbors@.len() <= self.cells@.len()
        &&& forall|k: int|
            0 <= k < c.neighbors@.len() ==> (#[trigger] c.neighbors@[k]) < self.cells@.len()
                && c.neighbors@[k] != i
        &&& forall|k1: int, k2: int|
            0 <= k1 < k2 < c.neighbors@.len() ==> c.neighbors@[k1] != c.neighbors@[k2]
    }

    /// Every neighbor of cell `i` lists `i` back.
    pub open spec fn sym_ok(self, i: int) -> bool {
        let c = self.cells@[i];
        forall|k: int|
            0 <= k < c.neighbors@.len() ==> #[trigger] self.cells@[c.neighbors@[k] as int]
                .neighbors@
                .contains(i as usize)
    }

    /// No two cells share a pixel position.
    pub open spec fn positions_distinct(self) -> bool {
        forall|i: int, j: int|
            0 <= i < j < self.cells@.len() ==> !(#[trigger] self.cells@[i].x == #[trigger] self
                .cells@[j].x && self.cells@[i].y == self.cells@[j].y)
    }

    /// The whole graph invariant. The two size caps are machine limits: they
    /// keep influence sums inside `u64` and the rendered buffer inside
    /// `usize`.
    pub open spec fn wf(self) -> bool {
        &&& self.cells@.len() < 0x1_0000_0000
        &&& self.width * self.height < 0x1_0000_0000
        &&& forall|i: int| 0 <= i < self.cells@.len() ==> self.cell_ok(i)
        &&& forall|i: int| 0 <= i < self.cells@.len() ==> self.sym_ok(i)
        &&& self.positions_distinct()
    }

    /// Checks the per-cell part of the invariant for one cell.
    fn check_cell(&self, i: usize) -> (r: bool)
        requires
            i < self.cells@.len(),
        ensures
            r == (self.cell_ok(i as int) && self.sym_ok(i as int)),
    {
        let arena_len = self.cells.len();
        let c = &self.cells[i];
        if c.x >= self.width || c.y >= self.height {
            return false;
        }
        let deg = c.neighbors.len();
        if deg > arena_len {
            return false;
        }
        for k in 0..deg
            invariant
                deg == c.neighbors@.len(),
                arena_len == self.cells@.len(),
                i < arena_len,
                c == self.cells@[i as int],
                forall|k0: int|
                    0 <= k0 < k ==> (#[trigger] c.neighbors@[k0]) < arena_len
                        && c.neighbors@[k0] != i,
                forall|k1: int, k2: int|
                    0 <= k1 < k2 < k ==> c.neighbors@[k1] != c.neighbors@[k2],
                forall|k0: int|
                    0 <= k0 < k ==> #[trigger] self.cells@[c.neighbors@[k0] as int]
                        .neighbors@
                        .contains(i),
        {
            let j = c.neighbors[k];
            if j >= arena_len || j == i {
                return false;
            }
            for k2 in 0..k
                invariant
                    i < arena_len,
                    arena_len == self.cells@.len(),
                    c == self.cells@[i as int],
                    k < deg,
                    deg == c.neighbors@.len(),
                    j == c.neighbors@[k as int],
                    forall|k0: int| 0 <= k0 < k2 ==> c.neighbors@[k0] != c.neighbors@[k as int],
            {
                if c.neighbors[k2] == j {
                    proof {
                        assert(c.neighbors@[k2 as int] == c.neighbors@[k as int]);
                        assert(!self.cell_ok(i as int));
                    }
                    return false;
                }
            }
            if !contains_index(&self.cells[j].neighbors, i) {
                proof {
                    if self.sym_ok(i as int) {
                        let ii: int = i as int;
                        assert(self.cells@[self.cells@[ii].neighbors@[k as int] as int]
                            .neighbors@
                            .contains(ii as usize));
                        assert(self.cells@[c.neighbors@[k as int] as int].neighbors@.contains(i));
                    }
                }
                return false;
            }
        }
        true
    }

    /// Checks that no two cells share a position.
    fn check_positions(&self) -> (r: bool)
        ensures
            r == self.positions_distinct(),
    {
        let arena_len = self.cells.len();
        for i in 0..arena_len
            invariant
                arena_len == self.cells@.len(),
                forall|i0: int, j0: int|
                    0 <= i0 < j0 < arena_len && i0 < i ==> !(#[trigger] self.cells@[i0].x
                        == #[trigger] self.cells@[j0].x && self.cells@[i0].y == self.cells@[j0].y),
        {
            let ci = &self.cells[i];
            for j in (i + 1)..arena_len
                invariant
                    i < arena_len,
                    arena_len == self.cells@.len(),
                    ci == self.cells@[i as int],
                    forall|j0: int|
                        i < j0 < j ==> !(#[trigger] self.cells@[j0].x == ci.x && self.cells@[j0].y
                            == ci.y),
            {
                let cj = &self.cells[j];
                if ci.x == cj.x && ci.y == cj.y {
                    return false;
                }
            }
        }
        true
    }

    /// Decides the whole graph invariant.
    pub fn validate(&self) -> (r: bool)
        ensures
            r == self.wf(),
    {
        if (self.cells.len() as u64) >= 0x1_0000_0000u64 {
            return false;
        }
        let w128: u128 = self.width as u128;
        let h128: u128 = self.height as u128;
        proof {
            assert(w128 * h128 <= 0xFFFF_FFFF_FFFF_FFFFu128 * 0xFFFF_FFFF_FFFF_FFFFu128)
                by (nonlinear_arith)
                requires
                    w128 <= 0xFFFF_FFFF_FFFF_FFFFu128,
                    h128 <= 0xFFFF_FFFF_FFFF_FFFFu128,
            ;
        }
        if w128 * h128 >= 0x1_0000_0000u128 {
            return false;
        }
        let arena_len = self.cells.len();
        for i in 0..arena_len
            invariant
                arena_len == self.cells@.len(),
                self.cells@.len() < 0x1_0000_0000,
                self.width * self.height < 0x1_0000_0000,
                forall|i0: int| 0 <= i0 < i ==> self.cell_ok(i0),
                forall|i0: int| 0 <= i0 < i ==> self.sym_ok(i0),
        {
            if !self.check_cell(i) {
                return false;
            }
        }
        self.check_positions()
    }
}

/// Linear membership test on an index list.
pub fn contains_index(v: &Vec<usize>, target: usize) -> (r: bool)
    ensures
        r == v@.contains(target),
{
    let len = v.len();
    for k in 0..len
        invariant
            len == v@.len(),
            forall|k0: int| 0 <= k0 < k ==> v@[k0] != target,
    {
        if v[k] == target {
            return true;
        }
    }
    false
}

/// Adjacency in a well-formed graph is symmetric: cell `j` appears in cell
/// `i`'s neighbor list exactly when `i` appears in `j`'s.
pub proof fn lemma_adjacency_symmetric(g: CellGraph)
    requires
        g.wf(),
    ensures
        forall|i: int, j: int|
            0 <= i < g.cells@.len() && 0 <= j < g.cells@.len() ==> (#[trigger] g.cells@[i]
                .neighbors@
                .contains(j as usize) <==> #[trigger] g.cells@[j].neighbors@.contains(i as usize)),
{
    assert forall|i: int, j: int|
        0 <= i < g.cells@.len() && 0 <= j < g.cells@.len() && #[trigger] g.cells@[i]
            .neighbors@
            .contains(j as usize) implies #[trigger] g.cells@[j].neighbors@.contains(
        i as usize,
    ) by {
        let k = choose|k: int|
            0 <= k < g.cells@[i].neighbors@.len() && g.cells@[i].neighbors@[k] == j as usize;
        assert(g.sym_ok(i));
        assert(g.cells@[g.cells@[i].neighbors@[k] as int].neighbors@.contains(i as usize));
    }
}

/// A well-formed graph has no self-loops: no cell lists itself as a neighbor.
pub proof fn lemma_no_self_loops(g: CellGraph)
    requires
        g.wf(),
    ensures
        forall|i: int|
            0 <= i < g.cells@.len() ==> !(#[trigger] g.cells@[i].neighbors@.contains(i as usize)),
{
    assert forall|i: int| 0 <= i < g.cells@.len() implies !(#[trigger] g.cells@[i]
        .neighbors@
        .contains(i as usize)) by {
        assert(g.cell_ok(i));
        if g.cells@[i].neighbors@.contains(i as usize) {
            let k = choose|k: int|
                0 <= k < g.cells@[i].neighbors@.len() && g.cells@[i].neighbors@[k] == i as usize;
            assert(g.cells@[i].neighbors@[k] != i);
        }
    }
}

} // verus!
