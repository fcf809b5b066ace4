//! Canvas replay bookkeeping: the order in which recorded canvases are
//! re-invoked, and splicing a canvas's fresh primitives back into the cached
//! batch at the range the paint walker recorded for it.

use vstd::prelude::*;

verus! {

/// Lexicographic order on `(z_layer, primitive_start)` keys.
pub open spec fn key_lt(a: (u32, usize), b: (u32, usize)) -> bool {
    a.0 < b.0 || (a.0 == b.0 && a.1 < b.1)
}

/// Record `a` is drawn before record `b`: its key is smaller, or the keys
/// are equal and it was recorded first.
pub open spec fn goes_before(keys: Seq<(u32, usize)>, a: int, b: int) -> bool {
    key_lt(keys[a], keys[b]) || (keys[a] == keys[b] && a < b)
}

/// `order` lists every record index exactly once, sorted by key, with equal
/// keys kept in recording order (a stable sort).
pub open spec fn is_stable_order(keys: Seq<(u32, usize)>, order: Seq<usize>) -> bool {
    &&& order.len() == keys.len()
    &&& forall|i: int| 0 <= i < order.len() ==> #[trigger] order[i] < keys.len()
    &&& forall|i: int, j: int|
        0 <= i < j < order.len() ==> goes_before(keys, #[trigger] order[i] as int, #[trigger] order[j] as int)
}

proof fn lemma_goes_before_transitive(keys: Seq<(u32, usize)>, a: int, b: int, c: int)
    requires
        goes_before(keys, a, b),
        goes_before(keys, b, c),
    ensures
        goes_before(keys, a, c),
{
}

proof fn lemma_goes_before_irreflexive(keys: Seq<(u32, usize)>, a: int)
    ensures
        !goes_before(keys, a, a),
{
}

/// A stable order never invokes a recorded canvas twice: no record index
/// appears in it more than once.
pub proof fn law_stable_order_has_no_repeats(keys: Seq<(u32, usize)>, order: Seq<usize>)
    requires
        is_stable_order(keys, order),
    ensures
        order.no_duplicates(),
{
    assert forall|i: int, j: int| 0 <= i < order.len() && 0 <= j < order.len() && i != j implies order[i]
        != order[j] by {
        if i < j {
            lemma_goes_before_irreflexive(keys, order[i] as int);
        } else {
            lemma_goes_before_irreflexive(keys, order[j] as int);
        }
    }
}

fn key_less(a: (u32, usize), b: (u32, usize)) -> (r: bool)
    ensures
        r == key_lt(a, b),
{
    a.0 < b.0 || (a.0 == b.0 && a.1 < b.1)
}

/// The order in which to invoke recorded canvases so that higher `z_layer`s
/// draw on top and canvases on one layer keep their recording order: a
/// stable sort of the record indices by `(z_layer, primitive_start)`.
pub fn canvas_overlay_order(keys: &Vec<(u32, usize)>) -> (order: Vec<usize>)
    ensures
        is_stable_order(keys@, order@),
{
    let mut order: Vec<usize> = Vec::new();
    let mut idx: usize = 0;
    while idx < keys.len()
        invariant
            idx <= keys.len(),
            order@.len() == idx,
            forall|i: int| 0 <= i < order@.len() ==> #[trigger] order@[i] < idx,
            forall|i: int, j: int|
                0 <= i < j < order@.len() ==> goes_before(
                    keys@,
                    #[trigger] order@[i] as int,
                    #[trigger] order@[j] as int,
                ),
        decreases keys.len() - idx,
    {
        let k = keys[idx];
        let mut p: usize = 0;
        while p < order.len() && !key_less(k, keys[order[p]])
            invariant
                idx < keys.len(),
                k == keys@[idx as int],
                p <= order@.len(),
                forall|i: int| 0 <= i < order@.len() ==> #[trigger] order@[i] < idx,
                forall|q: int| 0 <= q < p ==> goes_before(keys@, #[trigger] order@[q] as int, idx as int),
            decreases order@.len() - p,
        {
            p = p + 1;
        }
        let ghost before = order@;
        proof {
            if p < before.len() {
                assert(goes_before(keys@, idx as int, before[p as int] as int));
                assert forall|q: int| p <= q < before.len() implies goes_before(
                    keys@,
                    idx as int,
                    #[trigger] before[q] as int,
                ) by {
                    if q > p {
                        lemma_goes_before_transitive(
                            keys@,
                            idx as int,
                            before[p as int] as int,
                            before[q] as int,
                        );
                    }
                }
            }
        }
        order.insert(p, idx);
        proof {
            assert forall|i: int, j: int| 0 <= i < j < order@.len() implies goes_before(
                keys@,
                #[trigger] order@[i] as int,
                #[trigger] order@[j] as int,
            ) by {
                if j < p {
                } else if j == p {
                } else if i < p {
                    lemma_goes_before_transitive(
                        keys@,
                        order@[i] as int,
                        idx as int,
                        order@[j] as int,
                    );
                } else if i == p {
                } else {
                }
            }
        }
        idx = idx + 1;
    }
    order
}

/// Keys for replaying canvases in primitive-range order.
pub open spec fn replay_keys(starts: Seq<usize>) -> Seq<(u32, usize)> {
    starts.map_values(|s: usize| (0u32, s))
}

/// The order in which to replay recorded canvases into the cached batch:
/// a stable sort of the record indices by the start of their primitive
/// range.
pub fn canvas_replay_order(starts: &Vec<usize>) -> (order: Vec<usize>)
    ensures
        is_stable_order(replay_keys(starts@), order@),
{
    let mut keys: Vec<(u32, usize)> = Vec::new();
    let mut i: usize = 0;
    while i < starts.len()
        invariant
            i <= starts.len(),
            keys@ == replay_keys(starts@).subrange(0, i as int),
        decreases starts.len() - i,
    {
        keys.push((0u32, starts[i]));
        i = i + 1;
        assert(keys@ =~= replay_keys(starts@).subrange(0, i as int));
    }
    assert(replay_keys(starts@).subrange(0, starts@.len() as int) =~= replay_keys(starts@));
    canvas_overlay_order(&keys)
}

/// Whether a canvas's freshly emitted primitives can replace the range
/// `[start, end)` of the cached batch: the count must match the recorded
/// count, and the range must still lie inside the batch.
pub open spec fn splice_fits(batch_len: int, start: int, end: int, fresh_len: int) -> bool {
    fresh_len == end - start && end <= batch_len
}

/// Replace the primitives in `[start, end)` of the cached batch with the
/// ones a canvas just emitted. Returns `false`, leaving the batch as it
/// was, when the canvas emitted a different number of primitives than it
/// did when recorded (every later range would shift) or when the range no
/// longer fits the batch (a rebuild landed in between).
pub fn splice_canvas_primitives<P>(batch: &mut Vec<P>, start: usize, end: usize, fresh: Vec<P>) -> (ok:
    bool)
    requires
        start <= end,
    ensures
        ok == splice_fits(old(batch)@.len() as int, start as int, end as int, fresh@.len() as int),
        ok ==> final(batch)@ == old(batch)@.subrange(0, start as int) + fresh@ + old(
            batch,
        )@.subrange(end as int, old(batch)@.len() as int),
        !ok ==> final(batch)@ == old(batch)@,
{
    if fresh.len() != end - start {
        return false;
    }
    if end > batch.len() {
        return false;
    }
    let mut tail = batch.split_off(end);
    batch.truncate(start);
    let mut fresh = fresh;
    batch.append(&mut fresh);
    batch.append(&mut tail);
    true
}

/// Splicing a canvas's output back is exact: the primitives outside the
/// canvas's range are untouched, and the range holds what the canvas emitted.
pub proof fn law_splice_touches_only_the_range<P>(old_batch: Seq<P>, start: int, end: int, fresh: Seq<P>)
    requires
        0 <= start <= end,
        splice_fits(old_batch.len() as int, start, end, fresh.len() as int),
    ensures
        ({
            let new_batch = old_batch.subrange(0, start) + fresh + old_batch.subrange(end, old_batch.len() as int);
            &&& new_batch.len() == old_batch.len()
            &&& forall|i: int| 0 <= i < start ==> new_batch[i] == old_batch[i]
            &&& forall|i: int| end <= i < old_batch.len() ==> new_batch[i] == old_batch[i]
            &&& forall|i: int| start <= i < end ==> new_batch[i] == fresh[i - start]
        }),
{
}

/// A stable order invokes every recorded canvas: each record index appears
/// in it (and, by the law above, only once).
pub proof fn law_stable_order_covers_every_record(keys: Seq<(u32, usize)>, order: Seq<usize>)
    requires
        is_stable_order(keys, order),
    ensures
        forall|k: usize| k < keys.len() ==> #[trigger] order.contains(k),
{
    law_stable_order_has_no_repeats(keys, order);
    let ints = order.map_values(|x: usize| x as int);
    assert(ints.no_duplicates()) by {
        assert forall|i: int, j: int| 0 <= i < ints.len() && 0 <= j < ints.len() && i != j implies ints[i]
            != ints[j] by {
            assert(order[i] != order[j]);
        }
    }
    ints.unique_seq_to_set();
    assert forall|k: usize| k < keys.len() implies #[trigger] order.contains(k) by {
        if !order.contains(k) {
            let range = vstd::set_lib::set_int_range(0, keys.len() as int);
            vstd::set_lib::lemma_int_range(0, keys.len() as int);
            let smaller = range.remove(k as int);
            assert(ints.to_set().subset_of(smaller)) by {
                assert forall|x: int| ints.to_set().contains(x) implies smaller.contains(x) by {
                    let i = choose|i: int| 0 <= i < ints.len() && ints[i] == x;
                    assert(order[i] < keys.len());
                    if x == k as int {
                        assert(order[i] == k);
                    }
                }
            }
            vstd::set_lib::lemma_len_subset(ints.to_set(), smaller);
        }
    }
}

} // verus!
