//! Handing a frame out to the pool.
//!
//! A generation cuts the frame into tiles and books each tile, in order, on
//! the thread that is the least loaded when its turn comes. The result is the
//! list of orders, thread and rows, that the owner of the pool carries out;
//! its length is the number of results to wait for.

use crate::math::Range;
use crate::partition::partition;
use crate::partition::tile_count;
use crate::partition::tile_end;
use crate::partition::tile_start;
use crate::worker::after_pushes;
use crate::worker::is_least_loaded;
use crate::worker::least_loaded;
use crate::worker::lemma_counter_at_most_total;
use crate::worker::lemma_least_loaded_is_unique;
use crate::worker::Worker;
use vstd::prelude::*;

verus! {

/// One tile of a generation and the thread that computes it.
#[derive(Copy, Clone)]
pub struct TileOrder {
    /// Index of the thread in the pool.
    pub thread: usize,
    /// Pixel rows of the tile.
    pub lines: Range<usize>,
}

/// Whether `orders` is the generation of a frame of `height` rows cut by
/// `split`, handed to a pool whose counters were `loads`: order `i` is for
/// tile `i` of the partition and goes to the thread that is the least loaded
/// after the `i` orders before it.
pub open spec fn is_generation(
    orders: Seq<TileOrder>,
    loads: Seq<int>,
    height: int,
    split: int,
) -> bool {
    &&& orders.len() == tile_count(height, split)
    &&& forall|i: int|
        0 <= i < orders.len() ==> {
            &&& (#[trigger] orders[i]).lines.start() == tile_start(height, split, i)
            &&& orders[i].lines.end() == tile_end(height, split, i)
            &&& orders[i].thread == least_loaded(after_pushes(loads, i as nat))
        }
}

/// Cuts a frame of `height` rows into tiles by `split_work` and books every
/// tile on the pool. Returns the orders, one per tile and in the order of the
/// tiles; as many results are to be awaited as there are orders.
pub fn generate_frame_on_worker(height: usize, split_work: usize, worker: &mut Worker) -> (orders:
    Vec<TileOrder>)
    requires
        split_work >= 1,
        old(worker).wf(),
        old(worker)@.len() >= 1,
        old(worker).outstanding() + tile_count(height as int, split_work as int) <= i32::MAX,
    ensures
        is_generation(orders@, old(worker)@, height as int, split_work as int),
        final(worker)@ == after_pushes(old(worker)@, orders@.len()),
        final(worker).wf(),
        final(worker).outstanding() == old(worker).outstanding() + orders@.len(),
{
    let tiles: Vec<Range<usize>> = partition(height, split_work);
    let mut orders: Vec<TileOrder> = Vec::new();
    let mut i: usize = 0;
    while i < tiles.len()
        invariant
            0 <= i <= tiles@.len(),
            tiles@.len() == tile_count(height as int, split_work as int),
            old(worker).outstanding() + tiles@.len() <= i32::MAX,
            forall|k: int|
                0 <= k < tiles@.len() ==> (#[trigger] tiles@[k]).start() == tile_start(
                    height as int,
                    split_work as int,
                    k,
                ) && tiles@[k].end() == tile_end(height as int, split_work as int, k),
            worker.wf(),
            worker@.len() >= 1,
            worker@ == after_pushes(old(worker)@, i as nat),
            worker.outstanding() == old(worker).outstanding() + i,
            orders@.len() == i,
            forall|k: int|
                0 <= k < i ==> {
                    &&& (#[trigger] orders@[k]).lines.start() == tile_start(
                        height as int,
                        split_work as int,
                        k,
                    )
                    &&& orders@[k].lines.end() == tile_end(height as int, split_work as int, k)
                    &&& orders@[k].thread == least_loaded(after_pushes(old(worker)@, k as nat))
                },
        decreases tiles@.len() - i,
    {
        let ghost before = worker@;
        proof {
            assert forall|n: int| is_least_loaded(before, n) implies before[n]
                < i32::MAX by {
                lemma_counter_at_most_total(before, n);
            }
        }
        let thread: usize = worker.push();
        proof {
            lemma_least_loaded_is_unique(before, thread as int, least_loaded(before));
        }
        orders.push(TileOrder { thread, lines: tiles[i] });
        i = i + 1;
    }
    orders
}

} // verus!
