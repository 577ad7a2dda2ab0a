//! Drawing distinct grid positions at random.

use crate::board::Point;
use rand::distributions::{Distribution, Uniform};
use rand::rngs::ThreadRng;
use vstd::prelude::*;

verus! {

/// `rand::rngs::ThreadRng`, carried through as an opaque value.
#[verifier::external_type_specification]
#[verifier::external_body]
pub struct ExThreadRng(ThreadRng);

/// Every position lies in a grid of `width` by `height` cells.
pub open spec fn all_inside(ps: Seq<Point>, width: int, height: int) -> bool {
    forall|k: int| 0 <= k < ps.len() ==> (#[trigger] ps[k]).0 < width && ps[k].1 < height
}

/// Calls `rand::thread_rng`, which hands out the generator of the current
/// thread. Nothing is claimed of it. The call panics where the operating
/// system cannot seed the generator; no argument decides that.
#[verifier::external_body]
fn thread_rng() -> (rng: ThreadRng) {
    rand::thread_rng()
}

/// Builds `Uniform::from(0..bound)` and calls `Distribution::sample` on it
/// once. The distribution is over the half-open range, so the value drawn is
/// below `bound`; which value it is depends on the generator. An empty range
/// makes `Uniform::from` panic, hence the precondition.
#[verifier::external_body]
fn sample_below(rng: &mut ThreadRng, bound: usize) -> (drawn: usize)
    requires
        bound > 0,
    ensures
        drawn < bound,
{
    Uniform::from(0..bound).sample(rng)
}

/// Every position of a grid of `max_width` by `max_height` cells, once each.
fn all_points(max_width: usize, max_height: usize) -> (pool: Vec<Point>)
    requires
        max_width * max_height <= usize::MAX,
    ensures
        pool@.len() == max_width * max_height,
        pool@.no_duplicates(),
        all_inside(pool@, max_width as int, max_height as int),
{
    let mut pool: Vec<Point> = Vec::new();
    let mut y: usize = 0;
    while y < max_height
        invariant
            y <= max_height,
            max_width * max_height <= usize::MAX,
            pool@.len() == max_width * y,
            all_inside(pool@, max_width as int, max_height as int),
            forall|k: int| 0 <= k < pool@.len() ==> (#[trigger] pool@[k]).1 < y,
            pool@.no_duplicates(),
        decreases max_height - y,
    {
        let mut x: usize = 0;
        while x < max_width
            invariant
                y < max_height,
                x <= max_width,
                max_width * max_height <= usize::MAX,
                pool@.len() == max_width * y + x,
                all_inside(pool@, max_width as int, max_height as int),
                forall|k: int|
                    0 <= k < pool@.len() ==> (#[trigger] pool@[k]).1 < y || (pool@[k].1 == y && pool@[k].0 < x),
                pool@.no_duplicates(),
            decreases max_width - x,
        {
            pool.push((x, y));
            x += 1;
        }
        assert(max_width * (y + 1) == max_width * y + max_width) by (nonlinear_arith);
        y += 1;
    }
    pool
}

/// Draws `count` distinct positions of a grid of `max_width` by `max_height`
/// cells. Each draw picks one of the positions not drawn so far, all with the
/// same chance, so the loop ends after `count` draws whatever the generator
/// returns; which positions come out is left to the generator.
pub fn random_coordinates(count: usize, max_width: usize, max_height: usize) -> (coordinates: Vec<Point>)
    requires
        max_width * max_height <= usize::MAX,
        count <= max_width * max_height,
    ensures
        coordinates@.len() == count,
        coordinates@.no_duplicates(),
        all_inside(coordinates@, max_width as int, max_height as int),
{
    let mut rng = thread_rng();
    let mut pool = all_points(max_width, max_height);
    let total: usize = pool.len();
    let mut i: usize = 0;
    while i < count
        invariant
            i <= count <= total,
            pool@.len() == total,
            pool@.no_duplicates(),
            all_inside(pool@, max_width as int, max_height as int),
        decreases count - i,
    {
        let j: usize = i + sample_below(&mut rng, total - i);
        let first = pool[i];
        let picked = pool[j];
        pool[i] = picked;
        pool[j] = first;
        i += 1;
    }
    pool.truncate(count);
    pool
}

} // verus!
