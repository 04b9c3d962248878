//! Graph extraction: turning a canvas of color codes into a cell graph.
//!
//! Every foreground pixel (dead or live color) becomes one cell, in
//! row-major pixel order; a live-colored pixel starts generation 0 alive.
//! Two cells are adjacent when their pixels touch along the grid's
//! 4-connectivity, and, with the `wrap` flag set, also across opposite
//! borders (toroidal topology). Extraction is a pure function of the canvas
//! and the flag.

use vstd::prelude::*;

use crate::canvas::{Canvas, CODE_LIVE};
use crate::engine::Engine;
use crate::graph::{Cell, CellGraph};
use vstd::arithmetic::div_mod::{
    lemma_fundamental_div_mod,
    lemma_fundamental_div_mod_converse,
    lemma_mod_division_less_than_divisor,
};

verus! {

/// A pixel with this code holds a cell (dead or live).
pub open spec fn present_code(code: u8) -> bool {
    code == 1 || code == 2
}

/// The canvas is the right size and uses only the three recognized codes.
pub open spec fn canvas_ok(c: Canvas) -> bool {
    c.wf() && c.codes_valid()
}

/// Some pixel of the canvas holds a cell.
pub open spec fn has_present(c: Canvas) -> bool {
    exists|p: int| 0 <= p < c.pixels@.len() && present_code(#[trigger] c.pixels@[p])
}

/// The pixel indices below `k` that hold a cell, in row-major order.
pub open spec fn present_seq(c: Canvas, k: int) -> Seq<int>
    decreases k,
{
    if k <= 0 {
        Seq::empty()
    } else {
        let rest = present_seq(c, k - 1);
        if present_code(c.pixels@[k - 1]) {
            rest.push(k - 1)
        } else {
            rest
        }
    }
}

/// `present_seq` enumerates exactly the present pixel indices below `k`,
/// strictly increasing.
pub proof fn lemma_present_seq_facts(c: Canvas, k: int)
    requires
        0 <= k,
    ensures
        present_seq(c, k).len() <= k,
        forall|idx: int|
            0 <= idx < present_seq(c, k).len() ==> 0 <= #[trigger] present_seq(c, k)[idx] < k
                && present_code(c.pixels@[present_seq(c, k)[idx]]),
        forall|i1: int, i2: int|
            0 <= i1 < i2 < present_seq(c, k).len() ==> present_seq(c, k)[i1] < present_seq(
                c,
                k,
            )[i2],
        forall|q: int|
            0 <= q < k && present_code(#[trigger] c.pixels@[q]) ==> present_seq(c, k).contains(q),
    decreases k,
{
    if k > 0 {
        lemma_present_seq_facts(c, k - 1);
        let rest = present_seq(c, k - 1);
        let s = present_seq(c, k);
        if present_code(c.pixels@[k - 1]) {
            assert(s == rest.push(k - 1));
            assert forall|q: int|
                0 <= q < k && present_code(#[trigger] c.pixels@[q]) implies s.contains(q) by {
                if q < k - 1 {
                    assert(rest.contains(q));
                    let idx = choose|idx: int| 0 <= idx < rest.len() && rest[idx] == q;
                    assert(s[idx] == q);
                } else {
                    assert(s[s.len() - 1] == k - 1);
                }
            }
        } else {
            assert forall|q: int|
                0 <= q < k && present_code(#[trigger] c.pixels@[q]) implies s.contains(q) by {
                assert(q != k - 1);
                assert(rest.contains(q));
                let idx = choose|idx: int| 0 <= idx < rest.len() && rest[idx] == q;
                assert(s[idx] == q);
            }
        }
    }
}

/// One coordinate's adjacency: the two values differ by one, or sit on
/// opposite borders of an axis of length `n` under toroidal wrap.
pub open spec fn coord_adjacent(a: int, b: int, n: int, wrap: bool) -> bool {
    ||| b == a + 1
    ||| a == b + 1
    ||| (wrap && n > 1 && ((a == 0 && b == n - 1) || (b == 0 && a == n - 1)))
}

/// Grid adjacency of two pixel positions: one step along a row or a column,
/// wrapping across the border when `wrap` is set.
pub open spec fn adjacent(px: int, py: int, qx: int, qy: int, w: int, h: int, wrap: bool) -> bool {
    ||| (px == qx && coord_adjacent(py, qy, h, wrap))
    ||| (py == qy && coord_adjacent(px, qx, w, wrap))
}

/// Decides `coord_adjacent` for in-range coordinates.
fn coord_adjacent_exec(a: usize, b: usize, n: usize, wrap: bool) -> (r: bool)
    requires
        a < n,
        b < n,
    ensures
        r == coord_adjacent(a as int, b as int, n as int, wrap),
{
    b == a + 1 || a == b + 1 || (wrap && n > 1 && ((a == 0 && b == n - 1) || (b == 0 && a == n
        - 1)))
}

/// Decides `adjacent` for in-range positions.
fn adjacent_exec(px: usize, py: usize, qx: usize, qy: usize, w: usize, h: usize, wrap: bool) -> (r:
    bool)
    requires
        px < w,
        qx < w,
        py < h,
        qy < h,
    ensures
        r == adjacent(px as int, py as int, qx as int, qy as int, w as int, h as int, wrap),
{
    (px == qx && coord_adjacent_exec(py, qy, h, wrap)) || (py == qy && coord_adjacent_exec(
        px,
        qx,
        w,
        wrap,
    ))
}

/// The extraction failures: a canvas that breaks the size or color-code
/// convention, or a canvas with no foreground pixel at all.
#[derive(Clone, Copy, Debug, PartialEq, Eq, Structural)]
pub enum ExtractError {
    MalformedTopology,
    EmptyGraph,
}

/// Everything extraction promises of a returned graph: the graph is
/// well-formed; its cells are exactly the canvas's present pixels in
/// row-major order, each remembering its pixel position and taking its
/// initial liveness from the pixel's color; and two cells are neighbors
/// exactly when their pixels are grid-adjacent (with optional wrap).
pub open spec fn extract_rel(c: Canvas, wrap: bool, g: CellGraph) -> bool {
    let w = c.width as int;
    let ps = present_seq(c, c.pixels@.len() as int);
    &&& g.width == c.width
    &&& g.height == c.height
    &&& g.wrap == wrap
    &&& g.wf()
    &&& g.cells@.len() == ps.len()
    &&& forall|i: int|
        0 <= i < g.cells@.len() ==> (#[trigger] g.cells@[i]).y * w + g.cells@[i].x == ps[i]
            && g.cells@[i].x == ps[i] % w && g.cells@[i].y == ps[i] / w
    &&& forall|i: int|
        0 <= i < g.cells@.len() ==> present_code(c.pixels@[ps[i]]) && ((#[trigger] g.cells@[i]).alive
            <==> c.pixels@[ps[i]] == CODE_LIVE)
    &&& forall|i: int, j: int|
        #![trigger g.cells@[i], g.cells@[j]]
        0 <= i < g.cells@.len() && 0 <= j < g.cells@.len() ==> (g.cells@[i].neighbors@
            .contains(j as usize) <==> adjacent(
            g.cells@[i].x as int,
            g.cells@[i].y as int,
            g.cells@[j].x as int,
            g.cells@[j].y as int,
            c.width as int,
            c.height as int,
            wrap,
        ))
}

/// Membership in a pushed sequence.
proof fn lemma_contains_after_push(s: Seq<usize>, v: usize, x: usize)
    ensures
        s.push(v).contains(x) <==> (s.contains(x) || x == v),
{
    if s.contains(x) {
        let k = choose|k: int| 0 <= k < s.len() && s[k] == x;
        assert(s.push(v)[k] == x);
    }
    assert(s.push(v)[s.len() as int] == v);
    if s.push(v).contains(x) && x != v {
        let k = choose|k: int| 0 <= k < s.push(v).len() && s.push(v)[k] == x;
        assert(0 <= k < s.len() + 1);
        assert(s.push(v)[k] == x);
        if k == s.len() {
            assert(x == v);
        } else {
            assert(s[k] == x);
        }
    }
}

/// Extracts the cell graph from a canvas.
///
/// Fails with `MalformedTopology` exactly when the canvas breaks the pixel
/// convention (wrong buffer size, or a color code outside the three
/// recognized ones), and with `EmptyGraph` exactly when a valid canvas has
/// no foreground pixel. The size cap on the canvas is a machine limit: it
/// keeps pixel arithmetic inside the integer types used downstream.
pub fn extract(c: &Canvas, wrap: bool) -> (r: Result<CellGraph, ExtractError>)
    requires
        c.width * c.height < 0x1_0000_0000,
    ensures
        r matches Ok(g) ==> canvas_ok(*c) && has_present(*c) && extract_rel(*c, wrap, g),
        (r matches Err(e) && e == ExtractError::MalformedTopology) <==> !canvas_ok(*c),
        (r matches Err(e) && e == ExtractError::EmptyGraph) <==> (canvas_ok(*c) && !has_present(
            *c,
        )),
{
    let w = c.width;
    let h = c.height;
    let total = w * h;
    if c.pixels.len() != total {
        assert(!c.wf());
        return Err(ExtractError::MalformedTopology);
    }
    // First pass: one cell per present pixel, in row-major order.
    let mut base: Vec<Cell> = Vec::new();
    for p in 0..total
        invariant
            w == c.width,
            h == c.height,
            total == w * h,
            total < 0x1_0000_0000,
            c.pixels@.len() == total,
            forall|p0: int| 0 <= p0 < p ==> #[trigger] c.pixels@[p0] <= CODE_LIVE,
            base@.len() == present_seq(*c, p as int).len(),
            base@.len() <= p,
            forall|idx: int|
                0 <= idx < base@.len() ==> cell_at_pixel(
                    *c,
                    #[trigger] base@[idx],
                    present_seq(*c, p as int)[idx],
                ),
    {
        let ghost ps_old = present_seq(*c, p as int);
        let ghost base_old = base@;
        let code = c.pixels[p];
        if code > CODE_LIVE {
            assert(!c.codes_valid());
            return Err(ExtractError::MalformedTopology);
        }
        if code != 0 {
            proof {
                assert(w > 0) by (nonlinear_arith)
                    requires total == w * h, p < total, 0 <= p,
                ;
            }
            let x = p % w;
            let y = p / w;
            proof {
                lemma_fundamental_div_mod(p as int, w as int);
                lemma_mod_division_less_than_divisor(p as int, w as int);
                assert((y as int) < h) by (nonlinear_arith)
                    requires
                        (p as int) == (w as int) * (y as int) + (x as int),
                        0 <= x as int,
                        p < total,
                        total == w * h,
                        w > 0,
                        0 <= y as int,
                ;
            }
            base.push(Cell { x, y, alive: code == CODE_LIVE, neighbors: Vec::new() });
            proof {
                let ps_new = present_seq(*c, p + 1);
                assert(ps_new =~= ps_old.push(p as int));
                assert((y as int) * (w as int) == (w as int) * (y as int)) by (nonlinear_arith);
                assert(cell_at_pixel(*c, base@[base@.len() - 1], p as int));
                assert forall|idx: int|
                    0 <= idx < base@.len() implies cell_at_pixel(
                    *c,
                    #[trigger] base@[idx],
                    ps_new[idx],
                ) by {
                    if idx < base@.len() - 1 {
                        assert(base@[idx] == base_old[idx]);
                        assert(ps_new[idx] == ps_old[idx]);
                        assert(cell_at_pixel(*c, base_old[idx], ps_old[idx]));
                    }
                }
            }
        } else {
            proof {
                assert(!present_code(c.pixels@[p as int]));
                assert(present_seq(*c, p + 1) =~= ps_old);
            }
        }
    }
    proof {
        assert(canvas_ok(*c));
        lemma_present_seq_facts(*c, total as int);
    }
    if base.len() == 0 {
        proof {
            if has_present(*c) {
                let q = choose|q: int|
                    0 <= q < c.pixels@.len() && present_code(#[trigger] c.pixels@[q]);
                assert(present_seq(*c, total as int).contains(q));
            }
        }
        return Err(ExtractError::EmptyGraph);
    }
    proof {
        let ps = present_seq(*c, total as int);
        assert(present_code(c.pixels@[ps[0]]));
        assert(has_present(*c));
    }
    // Second pass: neighbor lists from pairwise grid adjacency.
    let n = base.len();
    let mut cells: Vec<Cell> = Vec::new();
    for i in 0..n
        invariant
            w == c.width,
            h == c.height,
            n == base@.len(),
            n <= total,
            total == w * h,
            total < 0x1_0000_0000,
            c.pixels@.len() == total,
            base@.len() == present_seq(*c, total as int).len(),
            forall|idx: int|
                0 <= idx < base@.len() ==> cell_at_pixel(
                    *c,
                    #[trigger] base@[idx],
                    present_seq(*c, total as int)[idx],
                ),
            cells@.len() == i,
            forall|i0: int|
                0 <= i0 < i ==> (#[trigger] cells@[i0]).x == base@[i0].x && cells@[i0].y
                    == base@[i0].y && cells@[i0].alive == base@[i0].alive,
            forall|i0: int|
                0 <= i0 < i ==> (#[trigger] cells@[i0]).neighbors@.len() <= n,
            forall|i0: int, k1: int, k2: int|
                #![trigger cells@[i0].neighbors@[k1], cells@[i0].neighbors@[k2]]
                0 <= i0 < i && 0 <= k1 < k2 < cells@[i0].neighbors@.len()
                    ==> cells@[i0].neighbors@[k1] < cells@[i0].neighbors@[k2],
            forall|i0: int, k: int|
                #![trigger cells@[i0].neighbors@[k]]
                0 <= i0 < i && 0 <= k < cells@[i0].neighbors@.len() ==> cells@[i0]
                    .neighbors@[k] < n && cells@[i0].neighbors@[k] != i0,
            forall|i0: int, j0: int|
                #![trigger cells@[i0], base@[j0]]
                0 <= i0 < i && 0 <= j0 < n ==> (cells@[i0].neighbors@.contains(
                    j0 as usize,
                ) <==> adjacent(
                    base@[i0].x as int,
                    base@[i0].y as int,
                    base@[j0].x as int,
                    base@[j0].y as int,
                    w as int,
                    h as int,
                    wrap,
                )),
    {
        let cx = base[i].x;
        let cy = base[i].y;
        let mut nb: Vec<usize> = Vec::new();
        for j in 0..n
            invariant
                w == c.width,
                h == c.height,
                n == base@.len(),
                i < n,
                cx == base@[i as int].x,
                cy == base@[i as int].y,
                forall|idx: int|
                    0 <= idx < base@.len() ==> cell_at_pixel(
                        *c,
                        #[trigger] base@[idx],
                        present_seq(*c, total as int)[idx],
                    ),
                nb@.len() <= j,
                forall|k: int| 0 <= k < nb@.len() ==> (#[trigger] nb@[k]) < j && nb@[k] != i,
                forall|k1: int, k2: int| 0 <= k1 < k2 < nb@.len() ==> nb@[k1] < nb@[k2],
                forall|j0: int|
                    0 <= j0 < j ==> (nb@.contains(j0 as usize) <==> adjacent(
                        base@[i as int].x as int,
                        base@[i as int].y as int,
                        (#[trigger] base@[j0]).x as int,
                        base@[j0].y as int,
                        w as int,
                        h as int,
                        wrap,
                    )),
        {
            let ghost nb_old = nb@;
            let is_adj = j != i && adjacent_exec(cx, cy, base[j].x, base[j].y, w, h, wrap);
            if is_adj {
                nb.push(j);
            }
            proof {
                assert forall|j0: int|
                    0 <= j0 < j + 1 implies (nb@.contains(j0 as usize) <==> adjacent(
                    base@[i as int].x as int,
                    base@[i as int].y as int,
                    (#[trigger] base@[j0]).x as int,
                    base@[j0].y as int,
                    w as int,
                    h as int,
                    wrap,
                )) by {
                    if is_adj {
                        lemma_contains_after_push(nb_old, j, j0 as usize);
                    }
                    if j0 == j && !is_adj {
                        if j0 == i {
                            // a position is never adjacent to itself
                            assert(!adjacent(
                                base@[i as int].x as int,
                                base@[i as int].y as int,
                                base@[j0].x as int,
                                base@[j0].y as int,
                                w as int,
                                h as int,
                                wrap,
                            ));
                        }
                        if nb@.contains(j0 as usize) {
                            let k = choose|k: int| 0 <= k < nb@.len() && nb@[k] == j0 as usize;
                            assert(nb@[k] < j);
                        }
                    }
                    if j0 < j && nb@.contains(j0 as usize) && !is_adj {
                        assert(nb_old.contains(j0 as usize));
                    }
                }
            }
        }
        cells.push(Cell { x: cx, y: cy, alive: base[i].alive, neighbors: nb });
    }
    let g = CellGraph { width: w, height: h, wrap, cells };
    proof {
        lemma_extracted_graph_ok(*c, wrap, g, base@);
    }
    Ok(g)
}

/// The bundle of facts the first pass records for one cell: its position
/// encodes its source pixel, lies inside the canvas, and its liveness is
/// the pixel's color.
pub open spec fn cell_at_pixel(c: Canvas, cell: Cell, pix: int) -> bool {
    let w = c.width as int;
    &&& cell.y * w + cell.x == pix
    &&& cell.x == pix % w
    &&& cell.y == pix / w
    &&& cell.x < c.width
    &&& cell.y < c.height
    &&& present_code(c.pixels@[pix])
    &&& (cell.alive <==> c.pixels@[pix] == CODE_LIVE)
}

/// Discharges `g.wf()` and `extract_rel` for the graph the two passes built.
proof fn lemma_extracted_graph_ok(c: Canvas, wrap: bool, g: CellGraph, base: Seq<Cell>)
    requires
        c.wf(),
        c.width * c.height < 0x1_0000_0000,
        g.width == c.width,
        g.height == c.height,
        g.wrap == wrap,
        base.len() == present_seq(c, c.pixels@.len() as int).len(),
        g.cells@.len() == base.len(),
        forall|idx: int|
            0 <= idx < base.len() ==> cell_at_pixel(
                c,
                #[trigger] base[idx],
                present_seq(c, c.pixels@.len() as int)[idx],
            ),
        forall|i0: int|
            0 <= i0 < g.cells@.len() ==> (#[trigger] g.cells@[i0]).x == base[i0].x && g.cells@[i0].y
                == base[i0].y && g.cells@[i0].alive == base[i0].alive,
        forall|i0: int|
            0 <= i0 < g.cells@.len() ==> (#[trigger] g.cells@[i0]).neighbors@.len()
                <= g.cells@.len(),
        forall|i0: int, k1: int, k2: int|
            #![trigger g.cells@[i0].neighbors@[k1], g.cells@[i0].neighbors@[k2]]
            0 <= i0 < g.cells@.len() && 0 <= k1 < k2 < g.cells@[i0].neighbors@.len()
                ==> g.cells@[i0].neighbors@[k1] < g.cells@[i0].neighbors@[k2],
        forall|i0: int, k: int|
            #![trigger g.cells@[i0].neighbors@[k]]
            0 <= i0 < g.cells@.len() && 0 <= k < g.cells@[i0].neighbors@.len()
                ==> g.cells@[i0].neighbors@[k] < g.cells@.len() && g.cells@[i0].neighbors@[k] != i0,
        forall|i0: int, j0: int|
            #![trigger base[i0], base[j0]]
            0 <= i0 < g.cells@.len() && 0 <= j0 < g.cells@.len() ==> (g.cells@[i0]
                .neighbors@
                .contains(j0 as usize) <==> adjacent(
                base[i0].x as int,
                base[i0].y as int,
                base[j0].x as int,
                base[j0].y as int,
                c.width as int,
                c.height as int,
                wrap,
            )),
    ensures
        extract_rel(c, wrap, g),
{
    let w = c.width as int;
    let h = c.height as int;
    let len = g.cells@.len() as int;
    let ps = present_seq(c, c.pixels@.len() as int);
    lemma_present_seq_facts(c, c.pixels@.len() as int);
    // positions are pairwise distinct: pixel indices strictly increase
    assert forall|i0: int, j0: int|
        0 <= i0 < j0 < len implies !(#[trigger] g.cells@[i0].x == #[trigger] g.cells@[j0].x
        && g.cells@[i0].y == g.cells@[j0].y) by {
        assert(cell_at_pixel(c, base[i0], ps[i0]));
        assert(cell_at_pixel(c, base[j0], ps[j0]));
        assert(ps[i0] < ps[j0]);
    }
    // per-cell invariant
    assert forall|i0: int| 0 <= i0 < len implies g.cell_ok(i0) by {
        assert(cell_at_pixel(c, base[i0], ps[i0]));
        assert forall|k1: int, k2: int|
            0 <= k1 < k2 < g.cells@[i0].neighbors@.len() implies g.cells@[i0].neighbors@[k1]
            != g.cells@[i0].neighbors@[k2] by {
            assert(g.cells@[i0].neighbors@[k1] < g.cells@[i0].neighbors@[k2]);
        }
    }
    // symmetry: adjacency of positions is symmetric, and the lists mirror it
    assert forall|i0: int, k: int|
        #![trigger g.cells@[i0].neighbors@[k]]
        0 <= i0 < len && 0 <= k < g.cells@[i0].neighbors@.len() implies g.cells@[g
        .cells@[i0].neighbors@[k] as int].neighbors@.contains(i0 as usize) by {
        let j0 = g.cells@[i0].neighbors@[k] as int;
        assert(g.cells@[i0].neighbors@.contains(g.cells@[i0].neighbors@[k]));
        assert(adjacent(
            base[i0].x as int,
            base[i0].y as int,
            base[j0].x as int,
            base[j0].y as int,
            w,
            h,
            wrap,
        ));
        assert(adjacent(
            base[j0].x as int,
            base[j0].y as int,
            base[i0].x as int,
            base[i0].y as int,
            w,
            h,
            wrap,
        ));
    }
    assert(g.cells@.len() < 0x1_0000_0000);
    assert(g.width * g.height < 0x1_0000_0000);
    assert(g.wf());
    // the extract_rel position and liveness clauses
    assert forall|i0: int|
        0 <= i0 < len implies (#[trigger] g.cells@[i0]).y * w + g.cells@[i0].x == ps[i0]
        && g.cells@[i0].x == ps[i0] % w && g.cells@[i0].y == ps[i0] / w by {
        assert(cell_at_pixel(c, base[i0], ps[i0]));
    }
    assert forall|i0: int|
        0 <= i0 < len implies present_code(c.pixels@[ps[i0]]) && ((#[trigger] g.cells@[i0]).alive
        <==> c.pixels@[ps[i0]] == CODE_LIVE) by {
        assert(cell_at_pixel(c, base[i0], ps[i0]));
    }
}

/// Extraction is deterministic: any two graphs that satisfy the extraction
/// relation for the same canvas and `wrap` flag have the same cell count,
/// the same positions and initial liveness cell by cell, and the same
/// adjacency structure.
pub proof fn lemma_extract_deterministic(c: Canvas, wrap: bool, g1: CellGraph, g2: CellGraph)
    requires
        extract_rel(c, wrap, g1),
        extract_rel(c, wrap, g2),
    ensures
        g1.cells@.len() == g2.cells@.len(),
        forall|i: int|
            0 <= i < g1.cells@.len() ==> (#[trigger] g1.cells@[i]).x == g2.cells@[i].x
                && g1.cells@[i].y == g2.cells@[i].y && g1.cells@[i].alive == g2.cells@[i].alive,
        forall|i: int, j: int|
            #![trigger g1.cells@[i].neighbors@.contains(j as usize)]
            0 <= i < g1.cells@.len() && 0 <= j < g1.cells@.len() ==> (g1.cells@[i]
                .neighbors@
                .contains(j as usize) <==> g2.cells@[i].neighbors@.contains(j as usize)),
{
    let len = g1.cells@.len() as int;
    assert forall|i: int, j: int|
        #![trigger g1.cells@[i].neighbors@.contains(j as usize)]
        0 <= i < len && 0 <= j < len implies (g1.cells@[i].neighbors@.contains(
        j as usize,
    ) <==> g2.cells@[i].neighbors@.contains(j as usize)) by {
        assert(g1.cells@[i].x == g2.cells@[i].x && g1.cells@[i].y == g2.cells@[i].y);
        assert(g1.cells@[j].x == g2.cells@[j].x && g1.cells@[j].y == g2.cells@[j].y);
        assert(g1.cells@[i].neighbors@.contains(j as usize) <==> adjacent(
            g1.cells@[i].x as int,
            g1.cells@[i].y as int,
            g1.cells@[j].x as int,
            g1.cells@[j].y as int,
            c.width as int,
            c.height as int,
            wrap,
        ));
        assert(g2.cells@[i].neighbors@.contains(j as usize) <==> adjacent(
            g2.cells@[i].x as int,
            g2.cells@[i].y as int,
            g2.cells@[j].x as int,
            g2.cells@[j].y as int,
            c.width as int,
            c.height as int,
            wrap,
        ));
    }
}

/// Round trip: rendering an engine straight after construction from an
/// extracted graph reproduces the source canvas pixel for pixel.
pub proof fn lemma_initial_render_matches_source(
    c: Canvas,
    wrap: bool,
    g: CellGraph,
    e: Engine,
    out: Canvas,
)
    requires
        canvas_ok(c),
        extract_rel(c, wrap, g),
        e.graph == g,
        e.alive@.len() == g.cells@.len(),
        forall|i: int| 0 <= i < g.cells@.len() ==> e.alive@[i] == g.cells@[i].alive,
        e.render_rel(out),
    ensures
        out.width == c.width,
        out.height == c.height,
        out.pixels@ == c.pixels@,
{
    let w = c.width as int;
    let h = c.height as int;
    let ps = present_seq(c, c.pixels@.len() as int);
    lemma_present_seq_facts(c, c.pixels@.len() as int);
    assert forall|p: int| 0 <= p < c.pixels@.len() implies out.pixels@[p] == c.pixels@[p] by {
        assert(c.pixels@.len() == w * h);
        assert(w > 0) by (nonlinear_arith)
            requires 0 <= p, p < w * h, 0 <= h,
        ;
        lemma_fundamental_div_mod(p, w);
        lemma_mod_division_less_than_divisor(p, w);
        let x = p % w;
        let y = p / w;
        assert(y < h) by (nonlinear_arith)
            requires p == w * y + x, 0 <= x, p < w * h, w > 0, 0 <= y,
        ;
        assert(out.pixels@[y * w + x] == e.pixel_code(x, y));
        if present_code(c.pixels@[p]) {
            assert(ps.contains(p));
            let idx = choose|idx: int| 0 <= idx < ps.len() && ps[idx] == p;
            assert(g.cells@[idx].y * w + g.cells@[idx].x == p);
            assert(g.cells@[idx].x == p % w && g.cells@[idx].y == p / w);
            assert(g.cells@[idx].x == x && g.cells@[idx].y == y);
            let chosen = choose|i: int|
                0 <= i < e.graph.cells@.len() && e.graph.cells@[i].x == x && e.graph.cells@[i].y
                    == y;
            assert(g.wf());
            if chosen != idx {
                assert(g.positions_distinct());
                assert(false);
            }
            assert(e.alive@[idx] == g.cells@[idx].alive);
            if c.pixels@[p] == CODE_LIVE {
                assert(g.cells@[idx].alive);
                assert(e.pixel_code(x, y) == CODE_LIVE);
            } else {
                assert(c.pixels@[p] == 1);
                assert(!g.cells@[idx].alive);
                assert(e.pixel_code(x, y) == 1);
            }
        } else {
            assert(c.pixels@[p] <= CODE_LIVE);
            assert(c.pixels@[p] == 0);
            if exists|i: int|
                0 <= i < e.graph.cells@.len() && e.graph.cells@[i].x == x && e.graph.cells@[i].y
                    == y {
                let i = choose|i: int|
                    0 <= i < e.graph.cells@.len() && e.graph.cells@[i].x == x
                        && e.graph.cells@[i].y == y;
                assert(g.cells@[i].y * w + g.cells@[i].x == ps[i]);
                lemma_fundamental_div_mod_converse(ps[i], w, y, x);
                assert(ps[i] == p);
                assert(present_code(c.pixels@[ps[i]]));
                assert(false);
            }
            assert(e.pixel_code(x, y) == 0);
        }
    }
    assert(out.pixels@.len() == w * h);
    assert(out.pixels@ =~= c.pixels@);
}

} // verus!
