//! The cells around a cell, clipped at the edges of the grid.

use crate::board::Point;
use itertools::Itertools;
use vstd::prelude::*;

verus! {

/// `(nx, ny)` is one of the eight positions around `(x, y)`.
pub open spec fn adjacent(x: int, y: int, nx: int, ny: int) -> bool {
    x - 1 <= nx <= x + 1 && y - 1 <= ny <= y + 1 && !(nx == x && ny == y)
}

/// `(nx, ny)` is around `(x, y)` and lies in a grid of the given size.
pub open spec fn is_neighbor(x: int, y: int, width: int, height: int, nx: int, ny: int) -> bool {
    0 <= nx < width && 0 <= ny < height && adjacent(x, y, nx, ny)
}

/// The smallest coordinate within one step of `c`.
pub open spec fn span_start(c: int) -> int {
    if c == 0 {
        0
    } else {
        c - 1
    }
}

/// One past the largest coordinate within one step of `c` and below `limit`.
pub open spec fn span_end(c: int, limit: int) -> int {
    if c + 2 < limit {
        c + 2
    } else {
        limit
    }
}

/// How many coordinates below `limit` lie within one step of `c`.
pub open spec fn span(c: int, limit: int) -> int {
    span_end(c, limit) - span_start(c)
}

/// How many cells of column `c` lie within one step of row `y`: none where
/// the grid has no such column.
pub open spec fn column_share(c: int, y: int, width: int, height: int) -> int {
    if 0 <= c < width {
        span(y, height)
    } else {
        0
    }
}

/// How many cells a grid of the given size has around `(x, y)`: those of the
/// up to three columns within one step of `x`, less the cell itself.
pub open spec fn neighbor_count(x: int, y: int, width: int, height: int) -> int {
    column_share(x - 1, y, width, height) + column_share(x, y, width, height) + column_share(
        x + 1,
        y,
        width,
        height,
    ) - 1
}

/// `c` is the first or the last coordinate below `limit`.
pub open spec fn on_edge(c: int, limit: int) -> bool {
    c == 0 || c == limit - 1
}

/// In a grid at least three cells wide and three high, a corner has three
/// cells around it, a cell on an edge that is no corner has five, and every
/// other cell has eight.
pub proof fn lemma_neighbor_count_by_place(x: int, y: int, width: int, height: int)
    requires
        width >= 3,
        height >= 3,
        0 <= x < width,
        0 <= y < height,
    ensures
        on_edge(x, width) && on_edge(y, height) ==> neighbor_count(x, y, width, height) == 3,
        on_edge(x, width) != on_edge(y, height) ==> neighbor_count(x, y, width, height) == 5,
        !on_edge(x, width) && !on_edge(y, height) ==> neighbor_count(x, y, width, height) == 8,
{
    assert(span(x, width) == if on_edge(x, width) { 2int } else { 3int });
    assert(span(y, height) == if on_edge(y, height) { 2int } else { 3int });
}

/// `p` comes before `q` when positions are ordered by column, then by row.
pub open spec fn precedes(p: Point, q: Point) -> bool {
    p.0 < q.0 || (p.0 == q.0 && p.1 < q.1)
}

/// The positions of `s` come in strictly increasing order.
pub open spec fn strictly_ordered(s: Seq<Point>) -> bool {
    forall|a: int, b: int| 0 <= a < b < s.len() ==> precedes(#[trigger] s[a], #[trigger] s[b])
}

/// Two sequences in strictly increasing order that hold the same positions
/// are the same sequence.
pub proof fn lemma_order_and_members_determine(s: Seq<Point>, t: Seq<Point>)
    requires
        strictly_ordered(s),
        strictly_ordered(t),
        forall|p: Point| s.contains(p) <==> t.contains(p),
    ensures
        s == t,
    decreases s.len(),
{
    if s.len() == 0 {
        if t.len() > 0 {
            assert(t.contains(t[0]));
        }
        assert(s =~= t);
    } else {
        assert(s.contains(s[0]));
        let i = choose|i: int| 0 <= i < t.len() && t[i] == s[0];
        assert(t.contains(t[0]));
        let j = choose|j: int| 0 <= j < s.len() && s[j] == t[0];
        if i > 0 {
            assert(precedes(t[0], t[i]));
            if j > 0 {
                assert(precedes(s[0], s[j]));
            }
        }
        assert(t[0] == s[0]);
        let s1 = s.subrange(1, s.len() as int);
        let t1 = t.subrange(1, t.len() as int);
        assert(strictly_ordered(s1)) by {
            assert forall|a: int, b: int| 0 <= a < b < s1.len() implies precedes(#[trigger] s1[a], #[trigger] s1[b]) by {
                assert(precedes(s[a + 1], s[b + 1]));
            }
        }
        assert(strictly_ordered(t1)) by {
            assert forall|a: int, b: int| 0 <= a < b < t1.len() implies precedes(#[trigger] t1[a], #[trigger] t1[b]) by {
                assert(precedes(t[a + 1], t[b + 1]));
            }
        }
        assert forall|p: Point| s1.contains(p) <==> t1.contains(p) by {
            if s1.contains(p) {
                let k = choose|k: int| 0 <= k < s1.len() && s1[k] == p;
                assert(precedes(s[0], s[k + 1]));
                assert(s.contains(p));
                let m = choose|m: int| 0 <= m < t.len() && t[m] == p;
                assert(t1[m - 1] == p);
            }
            if t1.contains(p) {
                let k = choose|k: int| 0 <= k < t1.len() && t1[k] == p;
                assert(precedes(t[0], t[k + 1]));
                assert(t.contains(p));
                let m = choose|m: int| 0 <= m < s.len() && s[m] == p;
                assert(s1[m - 1] == p);
            }
        }
        lemma_order_and_members_determine(s1, t1);
        assert(s.len() == t.len());
        assert forall|k: int| 0 <= k < s.len() implies s[k] == t[k] by {
            if k > 0 {
                assert(s[k] == s1[k - 1]);
                assert(t[k] == t1[k - 1]);
            }
        }
        assert(s =~= t);
    }
}

/// `pairs` holds each item of `xs`, in order, paired with every item of `ys`,
/// in order.
pub open spec fn laid_out(pairs: Seq<Point>, xs: Seq<usize>, ys: Seq<usize>) -> bool {
    &&& pairs.len() == xs.len() * ys.len()
    &&& forall|i: int, j: int|
        0 <= i < xs.len() && 0 <= j < ys.len() ==> pairs[i * ys.len() + j] == (#[trigger] xs[i], #[trigger] ys[j])
}

/// Calls `Itertools::cartesian_product` on the two vectors and collects what
/// it yields. The adaptor pairs each item of the first iterator, in order,
/// with every item of the second, in order; the contract says which pair
/// stands at which index.
#[verifier::external_body]
fn cartesian_product(xs: Vec<usize>, ys: Vec<usize>) -> (pairs: Vec<Point>)
    requires
        xs@.len() * ys@.len() <= usize::MAX,
    ensures
        laid_out(pairs@, xs@, ys@),
{
    xs.into_iter().cartesian_product(ys.into_iter()).collect()
}

/// The integers from `lo` up to, not including, `hi`, in order.
fn range_vec(lo: usize, hi: usize) -> (v: Vec<usize>)
    requires
        lo <= hi,
    ensures
        v@.len() == hi - lo,
        forall|i: int| 0 <= i < hi - lo ==> #[trigger] v@[i] == lo + i,
{
    let mut v: Vec<usize> = Vec::new();
    let mut c: usize = lo;
    while c < hi
        invariant
            lo <= c <= hi,
            v@.len() == c - lo,
            forall|i: int| 0 <= i < c - lo ==> #[trigger] v@[i] == lo + i,
        decreases hi - c,
    {
        v.push(c);
        c += 1;
    }
    v
}

proof fn lemma_product_index(i: int, j: int, nx: int, ny: int)
    requires
        0 <= i < nx,
        0 <= j < ny,
    ensures
        0 <= i * ny + j < nx * ny,
        (i + 1) * ny == i * ny + ny,
{
    assert(0 <= i * ny && i * ny + ny <= nx * ny && (i + 1) * ny == i * ny + ny) by (nonlinear_arith)
        requires
            0 <= i < nx,
            0 < ny,
    ;
}

/// The positions around `(x, y)` in a grid of `width` by `height` cells,
/// ordered by column and then by row.
pub fn find_adjacent(x: usize, y: usize, width: usize, height: usize) -> (adj: Vec<Point>)
    requires
        x < width,
        y < height,
    ensures
        adj@.len() == neighbor_count(x as int, y as int, width as int, height as int),
        forall|k: int|
            0 <= k < adj@.len() ==> is_neighbor(
                x as int,
                y as int,
                width as int,
                height as int,
                (#[trigger] adj@[k]).0 as int,
                adj@[k].1 as int,
            ),
        forall|p: Point|
            is_neighbor(x as int, y as int, width as int, height as int, p.0 as int, p.1 as int)
                ==> adj@.contains(p),
        strictly_ordered(adj@),
{
    let x_lo: usize = if x == 0 { 0 } else { x - 1 };
    let x_hi: usize = if width - x > 2 { x + 2 } else { width };
    let y_lo: usize = if y == 0 { 0 } else { y - 1 };
    let y_hi: usize = if height - y > 2 { y + 2 } else { height };
    let nx: usize = x_hi - x_lo;
    let ny: usize = y_hi - y_lo;
    let xs = range_vec(x_lo, x_hi);
    let ys = range_vec(y_lo, y_hi);
    assert(nx * ny <= 9) by (nonlinear_arith)
        requires
            0 <= nx <= 3,
            0 <= ny <= 3,
    ;
    let ghost cols = xs@;
    let ghost rows = ys@;
    let pairs = cartesian_product(xs, ys);
    assert(nx * ny == neighbor_count(x as int, y as int, width as int, height as int) + 1) by (nonlinear_arith)
        requires
            1 <= nx <= 3,
            neighbor_count(x as int, y as int, width as int, height as int) + 1 == (if nx == 1 {
                ny as int
            } else if nx == 2 {
                2 * ny
            } else {
                3 * ny
            }),
    ;
    let mut adj: Vec<Point> = Vec::new();
    let mut k: usize = 0;
    let mut i: usize = 0;
    while i < nx
        invariant
            x < width,
            y < height,
            x_lo == span_start(x as int),
            x_hi == span_end(x as int, width as int),
            y_lo == span_start(y as int),
            y_hi == span_end(y as int, height as int),
            nx == x_hi - x_lo,
            ny == y_hi - y_lo,
            1 <= ny <= 3,
            1 <= nx <= 3,
            i <= nx,
            k == i * ny,
            nx * ny <= 9,
            nx * ny == neighbor_count(x as int, y as int, width as int, height as int) + 1,
            laid_out(pairs@, cols, rows),
            cols.len() == nx,
            rows.len() == ny,
            forall|a: int| 0 <= a < nx ==> #[trigger] cols[a] == x_lo + a,
            forall|b: int| 0 <= b < ny ==> #[trigger] rows[b] == y_lo + b,
            adj@.len() == k - (if x_lo + i > x { 1int } else { 0int }),
            forall|c: int|
                0 <= c < adj@.len() ==> is_neighbor(
                    x as int,
                    y as int,
                    width as int,
                    height as int,
                    (#[trigger] adj@[c]).0 as int,
                    adj@[c].1 as int,
                ) && adj@[c].0 < x_lo + i,
            forall|p: Point|
                is_neighbor(x as int, y as int, width as int, height as int, p.0 as int, p.1 as int)
                    && p.0 < x_lo + i ==> adj@.contains(p),
            strictly_ordered(adj@),
        decreases nx - i,
    {
        let mut j: usize = 0;
        while j < ny
            invariant
                x < width,
                y < height,
                x_lo == span_start(x as int),
                x_hi == span_end(x as int, width as int),
                y_lo == span_start(y as int),
                y_hi == span_end(y as int, height as int),
                nx == x_hi - x_lo,
                ny == y_hi - y_lo,
                1 <= ny <= 3,
                1 <= nx <= 3,
                i < nx,
                j <= ny,
                k == i * ny + j,
                nx * ny <= 9,
                nx * ny == neighbor_count(x as int, y as int, width as int, height as int) + 1,
            nx * ny == neighbor_count(x as int, y as int, width as int, height as int) + 1,
            nx * ny <= 9,
            nx * ny == neighbor_count(x as int, y as int, width as int, height as int) + 1,
                laid_out(pairs@, cols, rows),
                cols.len() == nx,
                rows.len() == ny,
                forall|a: int| 0 <= a < nx ==> #[trigger] cols[a] == x_lo + a,
                forall|b: int| 0 <= b < ny ==> #[trigger] rows[b] == y_lo + b,
                adj@.len() == k - (if x_lo + i > x || (x_lo + i == x && y_lo + j > y) {
                    1int
                } else {
                    0int
                }),
                forall|c: int|
                    0 <= c < adj@.len() ==> is_neighbor(
                        x as int,
                        y as int,
                        width as int,
                        height as int,
                        (#[trigger] adj@[c]).0 as int,
                        adj@[c].1 as int,
                    ) && precedes(adj@[c], ((x_lo + i) as usize, (y_lo + j) as usize)),
                forall|p: Point|
                    is_neighbor(x as int, y as int, width as int, height as int, p.0 as int, p.1 as int)
                        && precedes(p, ((x_lo + i) as usize, (y_lo + j) as usize)) ==> adj@.contains(p),
                strictly_ordered(adj@),
            decreases ny - j,
        {
            proof {
                lemma_product_index(i as int, j as int, nx as int, ny as int);
                assert(pairs@[i * ny + j] == (cols[i as int], rows[j as int]));
            }
            let p = pairs[k];
            let ghost prior = adj@;
            if p.0 != x || p.1 != y {
                adj.push(p);
                assert forall|q: Point|
                    is_neighbor(x as int, y as int, width as int, height as int, q.0 as int, q.1 as int)
                        && precedes(q, ((x_lo + i) as usize, (y_lo + j + 1) as usize)) implies adj@.contains(q) by {
                    if q == p {
                        assert(adj@[prior.len() as int] == q);
                    } else {
                        assert(prior.contains(q));
                        let w = choose|w: int| 0 <= w < prior.len() && prior[w] == q;
                        assert(adj@[w] == q);
                    }
                }
            } else {
                assert forall|q: Point|
                    is_neighbor(x as int, y as int, width as int, height as int, q.0 as int, q.1 as int)
                        && precedes(q, ((x_lo + i) as usize, (y_lo + j + 1) as usize)) implies adj@.contains(q) by {
                    assert(prior.contains(q));
                }
            }
            j += 1;
            k += 1;
        }
        proof {
            lemma_product_index(i as int, 0, nx as int, ny as int);
        }
        i += 1;
    }
    adj
}

} // verus!
