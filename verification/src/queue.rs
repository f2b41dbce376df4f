//! The queue of upcoming shapes: a run of bags, drawn from the front and
//! refilled at the end.

use crate::blocks::{is_bag, BlockType};
use vstd::prelude::*;

verus! {

/// The seven shapes of the queue that start at index `i`.
pub open spec fn bag_at(queue: Seq<BlockType>, i: int) -> Seq<BlockType> {
    queue.subrange(i, i + 7)
}

/// Whether `queue` is the rest of a run of bags: counted from its end it
/// falls into whole bags, and what is left over at its front holds no shape
/// twice.
pub open spec fn bags_aligned(queue: Seq<BlockType>) -> bool {
    &&& forall|i: int|
        0 <= i && i + 7 <= queue.len() && (queue.len() - i) % 7 == 0 ==> is_bag(#[trigger] bag_at(queue, i))
    &&& queue.take((queue.len() % 7) as int).no_duplicates()
}

/// The least number of shapes the queue holds between two draws: the
/// preview count, and never less than two.
pub open spec fn min_queue(preview: int) -> int {
    if preview < 2 {
        2
    } else {
        preview
    }
}

/// The length of a queue of `len` shapes after it is refilled: bags of seven
/// are added until it holds at least `min_queue(preview)` shapes.
pub open spec fn refill_len(len: int, preview: int) -> int
    decreases min_queue(preview) + 7 - len,
{
    if len >= min_queue(preview) {
        len
    } else {
        refill_len(len + 7, preview)
    }
}

/// Whether `after` is `base` refilled: `base` with whole bags added at its
/// end, as many as the refill asks.
pub open spec fn queue_refilled(base: Seq<BlockType>, after: Seq<BlockType>, preview: int) -> bool {
    &&& after.len() == refill_len(base.len() as int, preview)
    &&& after.len() >= base.len()
    &&& forall|i: int| 0 <= i < base.len() ==> #[trigger] after[i] == base[i]
    &&& bags_aligned(after)
}

/// Whether `after` is the queue that a draw from `before` leaves: the first
/// shape is gone, the others keep their order, and the rest is refilled.
pub open spec fn queue_drawn(before: Seq<BlockType>, after: Seq<BlockType>, preview: int) -> bool {
    queue_refilled(before.skip(1), after, preview)
}

/// A queue that is the rest of a run of bags stays one when its first
/// shape is drawn.
pub proof fn lemma_draw_keeps_bags(queue: Seq<BlockType>)
    requires
        bags_aligned(queue),
        queue.len() >= 1,
    ensures
        bags_aligned(queue.skip(1)),
{
    let rest = queue.skip(1);
    assert forall|i: int| 0 <= i && i + 7 <= rest.len() && (rest.len() - i) % 7 == 0 implies is_bag(
        #[trigger] bag_at(rest, i),
    ) by {
        assert(bag_at(rest, i) =~= bag_at(queue, i + 1));
    }
    let m = queue.len() % 7;
    let front = rest.take((rest.len() % 7) as int);
    if m == 0 {
        let bag = bag_at(queue, 0);
        assert(is_bag(bag));
        assert forall|a: int, b: int| 0 <= a < front.len() && 0 <= b < front.len() && a != b implies front[a]
            != front[b] by {
            assert(front[a] == bag[a + 1]);
            assert(front[b] == bag[b + 1]);
        }
    } else {
        let old_front = queue.take(m as int);
        assert forall|a: int, b: int| 0 <= a < front.len() && 0 <= b < front.len() && a != b implies front[a]
            != front[b] by {
            assert(front[a] == old_front[a + 1]);
            assert(front[b] == old_front[b + 1]);
        }
    }
}

/// A queue that is the rest of a run of bags stays one when a bag is added
/// at its end.
pub proof fn lemma_bag_keeps_bags(queue: Seq<BlockType>, bag: Seq<BlockType>)
    requires
        bags_aligned(queue),
        is_bag(bag),
    ensures
        bags_aligned(queue + bag),
{
    let longer = queue + bag;
    assert forall|i: int| 0 <= i && i + 7 <= longer.len() && (longer.len() - i) % 7 == 0 implies is_bag(
        #[trigger] bag_at(longer, i),
    ) by {
        if i + 7 <= queue.len() {
            assert(bag_at(longer, i) =~= bag_at(queue, i));
        } else {
            assert(i == queue.len());
            assert(bag_at(longer, i) =~= bag);
        }
    }
    assert(longer.take((longer.len() % 7) as int) =~= queue.take((queue.len() % 7) as int));
}

/// Adds bags of seven to `queue` until it holds enough shapes.
pub(crate) fn refill(queue: Vec<BlockType>, preview: usize) -> (filled: Vec<BlockType>)
    requires
        bags_aligned(queue@),
    ensures
        bags_aligned(filled@),
        filled@.len() == refill_len(queue@.len() as int, preview as int),
        filled@.len() >= min_queue(preview as int),
        filled@.len() >= queue@.len(),
        forall|i: int| 0 <= i < queue@.len() ==> #[trigger] filled@[i] == queue@[i],
{
    let mut filled = queue;
    while filled.len() < preview || filled.len() < 2
        invariant
            bags_aligned(filled@),
            filled@.len() >= queue@.len(),
            refill_len(filled@.len() as int, preview as int) == refill_len(
                queue@.len() as int,
                preview as int,
            ),
            forall|i: int| 0 <= i < queue@.len() ==> #[trigger] filled@[i] == queue@[i],
        decreases min_queue(preview as int) + 7 - filled@.len(),
    {
        let bag = BlockType::bag();
        let ghost before = filled@;
        let mut k: usize = 0;
        while k < 7
            invariant
                k <= 7,
                bag@.len() == 7,
                filled@ == before + bag@.take(k as int),
            decreases 7 - k,
        {
            filled.push(bag[k]);
            assert(filled@ =~= before + bag@.take(k + 1));
            k += 1;
        }
        proof {
            assert(bag@.take(7) =~= bag@);
            lemma_bag_keeps_bags(before, bag@);
        }
    }
    filled
}

/// Whether the seven shapes are pairwise different.
pub(crate) fn check_bag(bag: &[BlockType; 7]) -> (ok: bool)
    ensures
        ok == is_bag(bag@),
{
    let mut seen: [bool; 7] = [false; 7];
    let mut k: usize = 0;
    while k < 7
        invariant
            k <= 7,
            bag@.len() == 7,
            bag@.take(k as int).no_duplicates(),
            forall|shape: BlockType| seen@[#[trigger] shape_index(shape)] == bag@.take(k as int).contains(shape),
        decreases 7 - k,
    {
        let at = index_of(bag[k]);
        let ghost front = bag@.take(k as int);
        let ghost next = bag@.take(k + 1);
        if seen[at] {
            proof {
                let j = choose|j: int| 0 <= j < front.len() && front[j] == bag@[k as int];
                assert(bag@[j] == bag@[k as int]);
                if is_bag(bag@) {
                    assert(bag@.no_duplicates());
                }
            }
            return false;
        }
        seen[at] = true;
        proof {
            assert(next.drop_last() =~= front);
            assert forall|a: int, b: int| 0 <= a < next.len() && 0 <= b < next.len() && a != b implies next[a]
                != next[b] by {
                if a == k {
                    assert(front[b] == next[b]);
                    assert(front.contains(next[b]));
                } else if b == k {
                    assert(front[a] == next[a]);
                    assert(front.contains(next[a]));
                } else {
                    assert(front[a] == next[a] && front[b] == next[b]);
                }
            }
            assert forall|shape: BlockType| seen@[#[trigger] shape_index(shape)] == next.contains(shape) by {
                if front.contains(shape) {
                    let j = choose|j: int| 0 <= j < front.len() && front[j] == shape;
                    assert(next[j] == shape);
                }
                if next.contains(shape) {
                    let j = choose|j: int| 0 <= j < next.len() && next[j] == shape;
                    if j < k {
                        assert(front[j] == shape);
                    }
                }
                if shape == bag@[k as int] {
                    assert(next[k as int] == shape);
                }
            }
        }
        k += 1;
    }
    proof {
        assert(bag@.take(7) =~= bag@);
        assert forall|shape: BlockType| #[trigger] bag@.contains(shape) by {
            lemma_seven_distinct_cover(bag@, shape);
        }
    }
    true
}

/// The place of a shape in the catalogue order.
pub open spec fn shape_index(shape: BlockType) -> int {
    match shape {
        BlockType::I => 0,
        BlockType::J => 1,
        BlockType::L => 2,
        BlockType::O => 3,
        BlockType::S => 4,
        BlockType::T => 5,
        BlockType::Z => 6,
    }
}

fn index_of(shape: BlockType) -> (at: usize)
    ensures
        at == shape_index(shape),
{
    match shape {
        BlockType::I => 0,
        BlockType::J => 1,
        BlockType::L => 2,
        BlockType::O => 3,
        BlockType::S => 4,
        BlockType::T => 5,
        BlockType::Z => 6,
    }
}

/// Seven pairwise different shapes are all the shapes.
pub proof fn lemma_seven_distinct_cover(shapes: Seq<BlockType>, shape: BlockType)
    requires
        shapes.len() == 7,
        shapes.no_duplicates(),
    ensures
        shapes.contains(shape),
{
    let indexes = shapes.map_values(|s: BlockType| shape_index(s));
    assert forall|a: int| 0 <= a < 7 implies 0 <= #[trigger] indexes[a] < 7 by {}
    assert forall|a: int, b: int| 0 <= a < 7 && 0 <= b < 7 && a != b implies indexes[a] != indexes[b] by {
        assert(shapes[a] != shapes[b]);
    }
    lemma_seven_distinct_numbers(indexes, shape_index(shape));
    let a = choose|a: int| 0 <= a < indexes.len() && indexes[a] == shape_index(shape);
    assert(shapes[a] == shape);
}

/// Seven pairwise different numbers below seven are all the numbers below
/// seven.
proof fn lemma_seven_distinct_numbers(values: Seq<int>, wanted: int)
    requires
        values.len() == 7,
        0 <= wanted < 7,
        forall|a: int| 0 <= a < 7 ==> 0 <= #[trigger] values[a] < 7,
        forall|a: int, b: int| 0 <= a < 7 && 0 <= b < 7 && a != b ==> values[a] != values[b],
    ensures
        values.contains(wanted),
{
    let set = values.to_set();
    values.unique_seq_to_set();
    let all = Set::new(|v: int| 0 <= v < 7);
    vstd::set_lib::lemma_int_range(0, 7);
    assert(all =~= vstd::set_lib::set_int_range(0, 7));
    if !values.contains(wanted) {
        let below = all.remove(wanted);
        assert(set.subset_of(below)) by {
            assert forall|v: int| set.contains(v) implies below.contains(v) by {
                let a = choose|a: int| 0 <= a < values.len() && values[a] == v;
                assert(0 <= values[a] < 7);
            }
        }
        vstd::set_lib::lemma_len_subset(set, below);
    }
}

/// The queue that a draw from `queue` leaves, and the shape drawn.
pub(crate) fn draw_from(queue: &Vec<BlockType>, preview: usize) -> (drawn: (BlockType, Vec<BlockType>))
    requires
        bags_aligned(queue@),
        queue@.len() >= 1,
    ensures
        drawn.0 == queue@[0],
        queue_drawn(queue@, drawn.1@, preview as int),
        drawn.1@.len() >= min_queue(preview as int),
{
    let mut rest: Vec<BlockType> = Vec::new();
    let mut i: usize = 1;
    while i < queue.len()
        invariant
            1 <= i <= queue@.len(),
            rest@ == queue@.subrange(1, i as int),
        decreases queue@.len() - i,
    {
        rest.push(queue[i]);
        assert(rest@ =~= queue@.subrange(1, i + 1));
        i += 1;
    }
    proof {
        assert(rest@ =~= queue@.skip(1));
        lemma_draw_keeps_bags(queue@);
    }
    let filled = refill(rest, preview);
    (queue[0], filled)
}

/// Refilling never shortens a queue, and a queue that is long enough is
/// left as it is.
pub proof fn lemma_refill_len(len: int, preview: int)
    ensures
        refill_len(len, preview) >= len,
        refill_len(len, preview) >= min_queue(preview),
        len >= min_queue(preview) ==> refill_len(len, preview) == len,
    decreases min_queue(preview) + 7 - len,
{
    if len < min_queue(preview) {
        lemma_refill_len(len + 7, preview);
    }
}

/// Drawing from a refilled queue and refilling again gives the length that
/// drawing first and refilling once gives.
pub proof fn lemma_refill_after_draw(len: int, preview: int)
    requires
        len >= 1,
    ensures
        refill_len(refill_len(len, preview) - 1, preview) == refill_len(len - 1, preview),
    decreases min_queue(preview) + 7 - len,
{
    if len < min_queue(preview) {
        lemma_refill_after_draw(len + 7, preview);
    }
}

/// Two draws in a row: what the second leaves is the queue without its
/// first two shapes, refilled.
pub proof fn lemma_drawn_twice(
    base: Seq<BlockType>,
    once: Seq<BlockType>,
    twice: Seq<BlockType>,
    preview: int,
)
    requires
        base.len() >= 1,
        queue_refilled(base, once, preview),
        queue_drawn(once, twice, preview),
    ensures
        queue_refilled(base.skip(1), twice, preview),
{
    lemma_refill_after_draw(base.len() as int, preview);
    lemma_refill_len(base.len() - 1, preview);
    assert forall|i: int| 0 <= i < base.skip(1).len() implies #[trigger] twice[i] == base.skip(1)[i] by {
        assert(twice[i] == once.skip(1)[i]);
        assert(once[i + 1] == base[i + 1]);
    }
}

/// At a bag boundary the next seven shapes of the queue are one bag: every
/// shape, each exactly once.
pub proof fn lemma_bag_at_boundary(queue: Seq<BlockType>)
    requires
        bags_aligned(queue),
        queue.len() >= 7,
        queue.len() % 7 == 0,
    ensures
        is_bag(queue.take(7)),
{
    assert(queue.take(7) =~= bag_at(queue, 0));
}

/// Seven draws in a row that start at a bag boundary bring every shape
/// into play exactly once: `queues` holds the queue before each draw and
/// after the last.
pub proof fn lemma_seven_draws_are_a_bag(queues: Seq<Seq<BlockType>>, preview: int)
    requires
        queues.len() == 8,
        bags_aligned(queues[0]),
        queues[0].len() >= 7,
        queues[0].len() % 7 == 0,
        forall|i: int| 0 <= i < 7 ==> queue_drawn(#[trigger] queues[i], queues[i + 1], preview),
    ensures
        is_bag(Seq::new(7, |i: int| queues[i][0])),
{
    let first = queues[0];
    let drawn = Seq::new(7, |i: int| queues[i][0]);
    assert forall|i: int| 0 <= i <= 7 implies (#[trigger] queues[i]).len() >= 7 - i && (forall|j: int|
        0 <= j < 7 - i ==> queues[i][j] == first[i + j]) by {
        lemma_draws_shift(queues, preview, i);
    }
    assert forall|i: int| 0 <= i < 7 implies drawn[i] == first.take(7)[i] by {
        assert(queues[i].len() >= 7 - i);
        assert(queues[i][0] == first[i + 0]);
    }
    lemma_bag_at_boundary(first);
    assert(drawn =~= first.take(7));
}

proof fn lemma_draws_shift(queues: Seq<Seq<BlockType>>, preview: int, i: int)
    requires
        queues.len() == 8,
        queues[0].len() >= 7,
        forall|k: int| 0 <= k < 7 ==> queue_drawn(#[trigger] queues[k], queues[k + 1], preview),
        0 <= i <= 7,
    ensures
        queues[i].len() >= 7 - i,
        forall|j: int| 0 <= j < 7 - i ==> queues[i][j] == queues[0][i + j],
    decreases i,
{
    if i > 0 {
        lemma_draws_shift(queues, preview, i - 1);
        let before = queues[i - 1];
        let after = queues[i];
        assert(queue_drawn(before, after, preview));
        assert forall|j: int| 0 <= j < 7 - i implies after[j] == queues[0][i + j] by {
            assert(after[j] == before.skip(1)[j]);
            assert(before[j + 1] == queues[0][(i - 1) + (j + 1)]);
        }
    }
}

} // verus!
