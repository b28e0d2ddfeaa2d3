//! Keeping the flock at its tuned size.

use vstd::prelude::*;

use crate::arith::most;
use crate::shell::AppState;

verus! {

/// Mixed into the size of the flock to seed its shrinking.
pub const SHRINK_SEED: u32 = 0x9E37_79B9;

/// The next value of the generator that picks which boids leave.
pub open spec fn shrink_next(h: u32) -> u32 {
    h.wrapping_mul(1_664_525).wrapping_add(1_013_904_223)
}

/// `items` without the one at `j`, whose place the last one takes.
pub open spec fn swap_removed<T>(items: Seq<T>, j: int) -> Seq<T> {
    items.update(j, items.last()).drop_last()
}

/// `items` after `times` of them have left, each picked by the generator.
pub open spec fn shrunk<T>(items: Seq<T>, h: u32, times: nat) -> Seq<T>
    decreases times,
{
    if times == 0 {
        items
    } else {
        let next = shrink_next(h);
        shrunk(swap_removed(items, next as int % items.len() as int), next, (times - 1) as nat)
    }
}

/// The seed of the generator for a flock of `current` boids.
pub open spec fn shrink_seed(current: usize) -> u32 {
    SHRINK_SEED ^ current as u32
}

/// The size that a tuned count asks for: never none.
pub open spec fn target_size(count: usize) -> int {
    most(count as int, 1)
}

/// Whether a restart was asked for, by the UI or, while playing, by the key.
pub open spec fn restart_wanted(requested: bool, state: AppState, key: bool) -> bool {
    requested || (state == AppState::Playing && key)
}

/// Empty the flock where a restart was asked for; the next frame fills it
/// anew. The request is then answered.
pub fn handle_restart<B, I>(
    state: AppState,
    key: bool,
    request: &mut bool,
    flock: &mut Vec<B>,
    instances: &mut Vec<I>,
)
    ensures
        restart_wanted(*old(request), state, key) ==> !*final(request) && final(flock)@
            == Seq::<B>::empty() && final(instances)@ == Seq::<I>::empty(),
        !restart_wanted(*old(request), state, key) ==> !*final(request) && *final(flock) == *old(
            flock,
        ) && *final(instances) == *old(instances),
{
    let key_restart: bool = state == AppState::Playing && key;
    if *request || key_restart {
        *request = false;
        flock.clear();
        instances.clear();
    }
}

/// Grow or shrink the flock to its tuned count. New boids come from `spawn`;
/// those that leave are picked all over the flock, since it is kept in spatial
/// order. The render records stay aligned with the boids.
pub fn sync_flock_size<B, I, F: Fn() -> (B, I)>(
    flock: &mut Vec<B>,
    instances: &mut Vec<I>,
    count: usize,
    spawn: F,
)
    requires
        old(flock).len() == old(instances).len(),
        spawn.requires(()),
    ensures
        final(flock).len() == target_size(count),
        final(instances).len() == target_size(count),
        old(flock).len() < target_size(count) ==> {
            &&& final(flock)@.take(old(flock).len() as int) == old(flock)@
            &&& final(instances)@.take(old(flock).len() as int) == old(instances)@
            &&& forall|k: int|
                old(flock).len() <= k < target_size(count) ==> spawn.ensures(
                    (),
                    (#[trigger] final(flock)[k], final(instances)[k]),
                )
        },
        old(flock).len() >= target_size(count) ==> {
            let times = (old(flock).len() - target_size(count)) as nat;
            &&& final(flock)@ == shrunk(old(flock)@, shrink_seed(old(flock).len()), times)
            &&& final(instances)@ == shrunk(old(instances)@, shrink_seed(old(flock).len()), times)
        },
{
    let target: usize = if count < 1 {
        1
    } else {
        count
    };
    let current: usize = flock.len();
    if current < target {
        let ghost (boids, records) = (flock@, instances@);
        let mut k: usize = current;
        while k < target
            invariant
                current <= k <= target,
                boids.len() == records.len() == current,
                flock.len() == instances.len() == k,
                spawn.requires(()),
                flock@.take(current as int) == boids,
                instances@.take(current as int) == records,
                forall|j: int|
                    current <= j < k ==> spawn.ensures((), (#[trigger] flock[j], instances[j])),
            decreases target - k,
        {
            let fresh: (B, I) = spawn();
            let ghost (b, r) = (flock@, instances@);
            flock.push(fresh.0);
            instances.push(fresh.1);
            proof {
                assert(flock@.take(current as int) =~= b.take(current as int));
                assert(instances@.take(current as int) =~= r.take(current as int));
            }
            k += 1;
        }
    } else {
        let mut h: u32 = SHRINK_SEED ^ current as u32;
        let mut left: usize = current;
        let ghost (boids, records, seed) = (flock@, instances@, h);
        while left > target
            invariant
                1 <= target <= left <= current,
                boids.len() == records.len() == current,
                flock.len() == instances.len() == left,
                shrunk(flock@, h, (left - target) as nat) == shrunk(
                    boids,
                    seed,
                    (current - target) as nat,
                ),
                shrunk(instances@, h, (left - target) as nat) == shrunk(
                    records,
                    seed,
                    (current - target) as nat,
                ),
            decreases left - target,
        {
            h = h.wrapping_mul(1_664_525).wrapping_add(1_013_904_223);
            let j: usize = h as usize % flock.len();
            flock.swap_remove(j);
            instances.swap_remove(j);
            left -= 1;
        }
    }
}

/// The pairs of a boid and its render record.
pub open spec fn aligned<B, I>(boids: Seq<B>, records: Seq<I>) -> Seq<(B, I)> {
    Seq::new(boids.len(), |k: int| (boids[k], records[k]))
}

/// Shrinking keeps every record with its boid: the pairs shrink as one.
pub proof fn law_shrinking_keeps_records_aligned<B, I>(
    boids: Seq<B>,
    records: Seq<I>,
    h: u32,
    times: nat,
)
    requires
        boids.len() == records.len(),
        times <= boids.len(),
    ensures
        aligned(shrunk(boids, h, times), shrunk(records, h, times)) == shrunk(
            aligned(boids, records),
            h,
            times,
        ),
    decreases times,
{
    if times > 0 {
        let next = shrink_next(h);
        let j = next as int % boids.len() as int;
        let (b, r) = (swap_removed(boids, j), swap_removed(records, j));
        assert(aligned(b, r) =~= swap_removed(aligned(boids, records), j));
        law_shrinking_keeps_records_aligned(b, r, next, (times - 1) as nat);
    }
}

/// Shrinking removes boids and invents none: each boid that is left was there
/// before, at least as often.
pub proof fn law_shrinking_invents_no_boid<T>(items: Seq<T>, h: u32, times: nat)
    requires
        times <= items.len(),
    ensures
        shrunk(items, h, times).len() == items.len() - times,
        shrunk(items, h, times).to_multiset().subset_of(items.to_multiset()),
    decreases times,
{
    if times > 0 {
        let next = shrink_next(h);
        let j = next as int % items.len() as int;
        let fewer = swap_removed(items, j);
        law_shrinking_invents_no_boid(fewer, next, (times - 1) as nat);
        lemma_swap_removed_counts(items, j);
    }
}

proof fn lemma_swap_removed_counts<T>(items: Seq<T>, j: int)
    requires
        0 <= j < items.len(),
    ensures
        swap_removed(items, j).to_multiset().subset_of(items.to_multiset()),
{
    let rest = items.drop_last();
    let last = items.last();
    assert(items =~= rest.push(last));
    vstd::seq_lib::to_multiset_build(rest, last);
    if j < rest.len() {
        assert(swap_removed(items, j) =~= rest.remove(j).insert(j, last));
        vstd::seq_lib::to_multiset_remove(rest, j);
        vstd::seq_lib::to_multiset_insert(rest.remove(j), j, last);
    } else {
        assert(swap_removed(items, j) =~= rest);
    }
}

/// Where the cursor pulls the flock to: the centre while it is pinned, nowhere
/// while the pointer is busy on the UI, else the cursor where there is one.
pub fn mouse_target<P>(pinned: bool, over_ui: bool, centre: P, cursor: Option<P>) -> (mouse: Option<
    P,
>)
    ensures
        mouse == (if pinned {
            Some(centre)
        } else if over_ui {
            None
        } else {
            cursor
        }),
{
    if pinned {
        Some(centre)
    } else if over_ui {
        None
    } else {
        cursor
    }
}

/// What the mouse does to a boid.
#[derive(Clone, Copy, Debug, PartialEq, Eq, Structural)]
pub enum MousePull {
    Nothing,
    Repel,
    Attract,
}

/// The mouse repels a boid that is near it and attracts one that is not.
pub fn mouse_pull(present: bool, near: bool) -> (pull: MousePull)
    ensures
        pull == (if !present {
            MousePull::Nothing
        } else if near {
            MousePull::Repel
        } else {
            MousePull::Attract
        }),
{
    if !present {
        MousePull::Nothing
    } else if near {
        MousePull::Repel
    } else {
        MousePull::Attract
    }
}

/// Taking a boid out moves the last one into its place and no other.
pub proof fn law_last_boid_fills_the_gap<T>(items: Seq<T>, j: int, i: int)
    requires
        0 <= j < items.len(),
        0 <= i < items.len() - 1,
    ensures
        swap_removed(items, j).len() == items.len() - 1,
        i != j ==> swap_removed(items, j)[i] == items[i],
        i == j ==> swap_removed(items, j)[i] == items[items.len() - 1],
{
}

/// Every boid can be the one to go: the next number picks it out of all that are
/// left.
pub proof fn law_shrinking_picks_among_all<T>(items: Seq<T>, h: u32, times: nat)
    requires
        0 < times <= items.len(),
    ensures
        ({
            let next = h.wrapping_mul(1_664_525).wrapping_add(1_013_904_223);
            let j = next as int % items.len() as int;
            &&& 0 <= j < items.len()
            &&& shrunk(items, h, times) == shrunk(swap_removed(items, j), next, (times - 1) as nat)
            &&& shrunk(items, h, 0) == items
        }),
{
}

/// A flock has at least one boid.
pub proof fn law_flocks_are_never_empty(count: usize)
    ensures
        target_size(count) >= 1,
        count >= 1 ==> target_size(count) == count,
{
}

} // verus!
