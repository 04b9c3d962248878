//! The automaton engine: owns a well-formed cell graph plus the rule
//! thresholds, and evolves a double-buffered liveness array one generation
//! at a time. Every next-generation value is computed from the previous
//! generation's snapshot alone (simultaneous update semantics); the new
//! array replaces the old one in a single swap at the end of a step.

use vstd::prelude::*;

use crate::canvas::{Canvas, CODE_BACKGROUND, CODE_DEAD, CODE_LIVE, lemma_row_major_in_range};
use crate::graph::{Cell, CellGraph};
use crate::rules::RuleConfig;
use vstd::arithmetic::div_mod::lemma_fundamental_div_mod_converse;

verus! {

/// How many entries of `neighbor_list` point at a live cell.
pub open spec fn count_live(neighbor_list: Seq<usize>, alive: Seq<bool>) -> nat
    decreases neighbor_list.len(),
{
    if neighbor_list.len() == 0 {
        0
    } else {
        count_live(neighbor_list.drop_last(), alive) + if alive[neighbor_list.last() as int] {
            1nat
        } else {
            0nat
        }
    }
}

/// The proportional score: each live entry of `neighbor_list` contributes
/// its own live-neighbor count instead of 1.
pub open spec fn weighted_live(neighbor_list: Seq<usize>, cells: Seq<Cell>, alive: Seq<bool>) -> nat
    decreases neighbor_list.len(),
{
    if neighbor_list.len() == 0 {
        0
    } else {
        weighted_live(neighbor_list.drop_last(), cells, alive)
            + if alive[neighbor_list.last() as int] {
            count_live(cells[neighbor_list.last() as int].neighbors@, alive)
        } else {
            0nat
        }
    }
}

/// The influence score of cell `i` under the chosen scoring mode.
pub open spec fn influence(cells: Seq<Cell>, alive: Seq<bool>, proportional: bool, i: int) -> nat {
    if proportional {
        weighted_live(cells[i].neighbors@, cells, alive)
    } else {
        count_live(cells[i].neighbors@, alive)
    }
}

/// Construction-time failure: the graph handed to the engine violates the
/// topology invariants.
#[derive(Clone, Copy, Debug, PartialEq, Eq, Structural)]
pub enum EngineError {
    InvalidGraph,
}

/// The simulation engine. `alive[i]` is the current liveness of cell `i`;
/// the topology in `graph` never changes after construction (the `alive`
/// flags stored inside its cells keep the extraction-time generation 0).
pub struct Engine {
    pub graph: CellGraph,
    pub alive: Vec<bool>,
    pub config: RuleConfig,
}

impl Engine {
    /// The engine invariant: a well-formed graph and one liveness flag per cell.
    pub open spec fn wf(self) -> bool {
        &&& self.graph.wf()
        &&& self.alive@.len() == self.graph.cells@.len()
    }

    /// The influence score of cell `i` in the current generation.
    pub open spec fn influence_of(self, i: int) -> nat {
        influence(self.graph.cells@, self.alive@, self.config.proportional, i)
    }

    /// Builds an engine over `graph`, rejecting any graph that violates the
    /// topology invariants. On success, generation 0 is the liveness the
    /// graph's cells carry.
    pub fn new(graph: CellGraph, config: RuleConfig) -> (r: Result<Engine, EngineError>)
        ensures
            graph.wf() ==> (r matches Ok(e) && e.graph == graph && e.config == config && e.wf()
                && forall|i: int|
                0 <= i < graph.cells@.len() ==> e.alive@[i] == graph.cells@[i].alive),
            !graph.wf() ==> (r matches Err(err) && err == EngineError::InvalidGraph),
    {
        if !graph.validate() {
            return Err(EngineError::InvalidGraph);
        }
        let arena_len = graph.cells.len();
        let mut alive: Vec<bool> = Vec::new();
        for i in 0..arena_len
            invariant
                arena_len == graph.cells@.len(),
                alive@.len() == i,
                forall|i0: int| 0 <= i0 < i ==> alive@[i0] == graph.cells@[i0].alive,
        {
            alive.push(graph.cells[i].alive);
        }
        Ok(Engine { graph, alive, config })
    }

    /// Number of cells in the graph.
    pub fn num_cells(&self) -> (r: usize)
        ensures
            r == self.graph.cells@.len(),
    {
        self.graph.cells.len()
    }

    /// Current liveness of cell `i`.
    pub fn is_alive(&self, i: usize) -> (r: bool)
        requires
            self.wf(),
            i < self.graph.cells@.len(),
        ensures
            r == self.alive@[i as int],
    {
        self.alive[i]
    }

    /// Counts the live neighbors of cell `i` in the current generation.
    pub fn count_live_neighbors(&self, i: usize) -> (r: u64)
        requires
            self.wf(),
            i < self.graph.cells@.len(),
        ensures
            r as nat == count_live(self.graph.cells@[i as int].neighbors@, self.alive@),
            r <= self.graph.cells@[i as int].neighbors@.len(),
    {
        let deg = self.graph.cells[i].neighbors.len();
        let mut cnt: u64 = 0;
        for k in 0..deg
            invariant
                self.wf(),
                i < self.graph.cells@.len(),
                deg == self.graph.cells@[i as int].neighbors@.len(),
                cnt as nat == count_live(
                    self.graph.cells@[i as int].neighbors@.take(k as int),
                    self.alive@,
                ),
                cnt <= k,
        {
            let ghost neighbor_list = self.graph.cells@[i as int].neighbors@;
            let j = self.graph.cells[i].neighbors[k];
            proof {
                assert(self.graph.cell_ok(i as int));
                assert(neighbor_list[k as int] < self.graph.cells@.len());
                assert(neighbor_list.take(k + 1).drop_last() =~= neighbor_list.take(k as int));
                assert(neighbor_list.take(k + 1).last() == neighbor_list[k as int]);
            }
            if self.alive[j] {
                cnt = cnt + 1;
            }
        }
        proof {
            assert(self.graph.cells@[i as int].neighbors@.take(deg as int) =~= self.graph.cells@[i
                as int].neighbors@);
        }
        cnt
    }

    /// Computes cell `i`'s influence score for the current generation:
    /// the plain live-neighbor count, or, in proportional mode, the sum over
    /// live neighbors of each one's own live-neighbor count.
    pub fn influence_score(&self, i: usize) -> (r: u64)
        requires
            self.wf(),
            i < self.graph.cells@.len(),
        ensures
            r as nat == self.influence_of(i as int),
    {
        if !self.config.proportional {
            return self.count_live_neighbors(i);
        }
        let arena_len = self.graph.cells.len();
        let deg = self.graph.cells[i].neighbors.len();
        let mut acc: u64 = 0;
        proof {
            assert(self.graph.cell_ok(i as int));
        }
        for k in 0..deg
            invariant
                self.wf(),
                i < arena_len,
                arena_len == self.graph.cells@.len(),
                arena_len < 0x1_0000_0000,
                deg == self.graph.cells@[i as int].neighbors@.len(),
                deg <= arena_len,
                acc as nat == weighted_live(
                    self.graph.cells@[i as int].neighbors@.take(k as int),
                    self.graph.cells@,
                    self.alive@,
                ),
                acc as int <= (k as int) * (arena_len as int),
        {
            let ghost neighbor_list = self.graph.cells@[i as int].neighbors@;
            let ghost big: int = arena_len as int;
            let j = self.graph.cells[i].neighbors[k];
            proof {
                assert(self.graph.cell_ok(i as int));
                assert(neighbor_list[k as int] < self.graph.cells@.len());
            }
            let contribution: u64 = if self.alive[j] {
                self.count_live_neighbors(j)
            } else {
                0
            };
            proof {
                assert(self.graph.cell_ok(j as int));
                assert(contribution as int <= big);
                assert((k as int + 1) * big == (k as int) * big + big) by (nonlinear_arith);
                assert((k as int + 1) * big <= big * big) by (nonlinear_arith)
                    requires 0 <= k as int + 1 <= big, 0 <= big,
                ;
                assert(big * big < 0x1_0000_0000_0000_0000) by (nonlinear_arith)
                    requires 0 <= big < 0x1_0000_0000,
                ;
                assert(neighbor_list.take(k + 1).drop_last() =~= neighbor_list.take(k as int));
                assert(neighbor_list.take(k + 1).last() == neighbor_list[k as int]);
            }
            acc = acc + contribution;
        }
        proof {
            assert(self.graph.cells@[i as int].neighbors@.take(deg as int) =~= self.graph.cells@[i
                as int].neighbors@);
        }
        acc
    }

    /// Advances the automaton by exactly one generation. Every new liveness
    /// value is a function of the previous generation's snapshot alone: the
    /// whole next-generation array is computed first and swapped in at once,
    /// so no cell's update can observe another cell's already-updated state.
    pub fn step(&mut self)
        requires
            old(self).wf(),
        ensures
            final(self).wf(),
            final(self).graph == old(self).graph,
            final(self).config == old(self).config,
            final(self).alive@.len() == old(self).alive@.len(),
            forall|i: int|
                0 <= i < old(self).graph.cells@.len() ==> final(self).alive@[i] == old(
                    self,
                ).config.next_state(old(self).alive@[i], old(self).influence_of(i)),
    {
        let arena_len = self.graph.cells.len();
        let mut next: Vec<bool> = Vec::new();
        for i in 0..arena_len
            invariant
                self.wf(),
                *self == *old(self),
                arena_len == self.graph.cells@.len(),
                next@.len() == i,
                forall|i0: int|
                    0 <= i0 < i ==> next@[i0] == self.config.next_state(
                        self.alive@[i0],
                        self.influence_of(i0),
                    ),
        {
            let score = self.influence_score(i);
            let currently_alive = self.alive[i];
            let decision = if currently_alive {
                (self.config.survive_min as u64) <= score && score <= (self.config.survive_max
                    as u64)
            } else {
                (self.config.birth_min as u64) <= score && score <= (self.config.birth_max as u64)
            };
            next.push(decision);
        }
        self.alive = next;
    }

    /// The color code rendering paints at pixel `(x, y)`: the live or dead
    /// color of the cell positioned there, or background where no cell sits.
    pub open spec fn pixel_code(self, x: int, y: int) -> u8 {
        if exists|i: int|
            0 <= i < self.graph.cells@.len() && self.graph.cells@[i].x == x
                && self.graph.cells@[i].y == y {
            let i = choose|i: int|
                0 <= i < self.graph.cells@.len() && self.graph.cells@[i].x == x
                    && self.graph.cells@[i].y == y;
            if self.alive@[i] {
                CODE_LIVE
            } else {
                CODE_DEAD
            }
        } else {
            CODE_BACKGROUND
        }
    }

    /// What `render` promises of its output canvas.
    pub open spec fn render_rel(self, out: Canvas) -> bool {
        &&& out.width == self.graph.width
        &&& out.height == self.graph.height
        &&& out.wf()
        &&& forall|x: int, y: int|
            0 <= x < self.graph.width && 0 <= y < self.graph.height
                ==> out.pixels@[y * self.graph.width + x] == self.pixel_code(x, y)
    }

    /// Finds the color code for pixel `(x, y)` by scanning the arena.
    fn code_at_position(&self, x: usize, y: usize) -> (code: u8)
        requires
            self.wf(),
        ensures
            code == self.pixel_code(x as int, y as int),
    {
        let arena_len = self.graph.cells.len();
        for i in 0..arena_len
            invariant
                self.wf(),
                arena_len == self.graph.cells@.len(),
                forall|i0: int|
                    0 <= i0 < i ==> !(#[trigger] self.graph.cells@[i0].x == x
                        && self.graph.cells@[i0].y == y),
        {
            let c = &self.graph.cells[i];
            if c.x == x && c.y == y {
                proof {
                    let w = choose|i0: int|
                        0 <= i0 < self.graph.cells@.len() && self.graph.cells@[i0].x == x as int
                            && self.graph.cells@[i0].y == y as int;
                    if w != i as int {
                        assert(self.graph.positions_distinct());
                        assert(false);
                    }
                }
                if self.alive[i] {
                    return CODE_LIVE;
                } else {
                    return CODE_DEAD;
                }
            }
        }
        CODE_BACKGROUND
    }

    /// Produces a canvas snapshot of the current generation, the same size
    /// as the source image: every cell's pixel painted with the live or dead
    /// color, all other pixels painted background. Side-effect-free.
    pub fn render(&self) -> (out: Canvas)
        requires
            self.wf(),
        ensures
            self.render_rel(out),
    {
        let w = self.graph.width;
        let h = self.graph.height;
        proof {
            assert(w * h < 0x1_0000_0000);
        }
        let total = w * h;
        let mut pixels: Vec<u8> = Vec::new();
        for p in 0..total
            invariant
                self.wf(),
                w == self.graph.width,
                h == self.graph.height,
                total == w * h,
                pixels@.len() == p,
                forall|p0: int|
                    0 <= p0 < p ==> pixels@[p0] == self.pixel_code(p0 % (w as int), p0 / (w as int)),
        {
            proof {
                assert(w > 0) by (nonlinear_arith)
                    requires p < total, total == w * h, 0 <= p,
                ;
            }
            let x = p % w;
            let y = p / w;
            let code = self.code_at_position(x, y);
            pixels.push(code);
        }
        let out = Canvas { width: w, height: h, pixels };
        proof {
            assert forall|x: int, y: int|
                0 <= x < self.graph.width && 0 <= y < self.graph.height implies out.pixels@[y * (w
                as int) + x] == self.pixel_code(x, y) by {
                lemma_row_major_in_range(x, y, w as int, h as int);
                lemma_fundamental_div_mod_converse(y * (w as int) + x, w as int, y, x);
            }
        }
        out
    }
}

} // verus!
