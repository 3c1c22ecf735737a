//! What holds of the frame allocator over any run of allocations.

use vstd::prelude::*;
use vstd::set_lib::{lemma_int_range, lemma_len_subset, lemma_set_disjoint_lens, set_int_range};
use crate::memory::{AllocatorState, Frame, MemoryArea, ReservedRange, MAX_FRAME, PAGE_SIZE};

verus! {

/// A frame handed out after another has the higher number, however many
/// allocations lie between the two: `later` is any state that the
/// allocator reaches after `next`.
pub proof fn lemma_frames_strictly_increase(
    state: AllocatorState,
    first: Frame,
    next: AllocatorState,
    later: AllocatorState,
    second: Frame,
    last: AllocatorState,
)
    requires
        state.allocates(Some(first), next),
        next.same_memory(later),
        next.cursor <= later.cursor,
        later.allocates(Some(second), last),
    ensures
        first@ < second@,
{
}

/// Once the allocator has returned nothing it returns nothing in every
/// state that it reaches afterwards.
pub proof fn lemma_exhaustion_is_final(
    state: AllocatorState,
    next: AllocatorState,
    later: AllocatorState,
    outcome: Option<Frame>,
    last: AllocatorState,
)
    requires
        state.allocates(None, next),
        next.same_memory(later),
        next.cursor <= later.cursor,
        later.allocates(outcome, last),
    ensures
        outcome is None,
{
    if let Some(frame) = outcome {
        assert(later.is_available(frame@ as int));
        assert(state.is_available(frame@ as int));
    }
}

/// No address of a frame that was handed out belongs to the kernel range
/// or to the boot information range.
pub proof fn lemma_allocated_frame_is_not_reserved(
    state: AllocatorState,
    frame: Frame,
    next: AllocatorState,
    address: int,
)
    requires
        state.allocates(Some(frame), next),
        frame@ * PAGE_SIZE <= address < (frame@ + 1) * PAGE_SIZE,
    ensures
        !(state.kernel.start <= address < state.kernel.end),
        !(state.multiboot.start <= address < state.multiboot.end),
{
}

/// `range` covers the whole of `area`.
pub open spec fn covers(range: ReservedRange, area: MemoryArea) -> bool {
    range.start <= area.base_addr && area.base_addr + area.length <= range.end
}

/// `range` and `area` share no address.
pub open spec fn apart(range: ReservedRange, area: MemoryArea) -> bool {
    ||| range.start >= range.end
    ||| range.end <= area.base_addr
    ||| area.base_addr + area.length <= range.start
}

/// An area that a reserved range covers gives no frame: none of its
/// frames is free, so none is ever handed out.
pub proof fn lemma_covered_area_gives_no_frame(
    state: AllocatorState,
    i: int,
    frame: Frame,
    next: AllocatorState,
)
    requires
        0 <= i < state.areas.len(),
        covers(state.kernel, state.areas[i]) || covers(state.multiboot, state.areas[i]),
        state.allocates(Some(frame), next),
    ensures
        !state.areas[i].contains_frame(frame@ as int),
        state.free_in(state.areas[i]) =~= Set::<int>::empty(),
{
}

/// The frames of an area are as many as `frame_count` says.
pub proof fn lemma_area_frames(area: MemoryArea)
    ensures
        area.frames().finite(),
        area.frames().len() == area.frame_count(),
{
    if area.first_frame() < area.end_frame() {
        lemma_int_range(area.first_frame(), area.end_frame());
        assert(area.frames() =~= set_int_range(area.first_frame(), area.end_frame()));
    } else {
        assert(area.frames() =~= Set::<int>::empty());
    }
}

/// Of the frames of an area, those that stay free are all but those that
/// a reserved range takes away.
pub proof fn lemma_free_in_area(state: AllocatorState, area: MemoryArea)
    ensures
        state.free_in(area).finite(),
        state.reserved_in(area).finite(),
        state.free_in(area).len() == area.frame_count() - state.reserved_in(area).len(),
{
    lemma_area_frames(area);
    let free = state.free_in(area);
    let taken = state.reserved_in(area);
    lemma_len_subset(free, area.frames());
    lemma_len_subset(taken, area.frames());
    lemma_set_disjoint_lens(free, taken);
    assert(free + taken =~= area.frames());
    assert(free.disjoint(taken));
}

/// An area that starts on a frame boundary, ends inside the address space
/// and shares no address with either reserved range gives as many frames
/// as its length holds whole frames.
pub proof fn lemma_untouched_area_gives_all_frames(state: AllocatorState, area: MemoryArea)
    requires
        area.base_addr % PAGE_SIZE == 0,
        area.base_addr + area.length <= (MAX_FRAME + 1) * PAGE_SIZE,
        apart(state.kernel, area),
        apart(state.multiboot, area),
    ensures
        state.free_in(area).len() == area.length / PAGE_SIZE,
{
    lemma_free_in_area(state, area);
    assert(state.reserved_in(area) =~= Set::<int>::empty());
}

/// The free frames that lie in one of the first `k` areas.
pub open spec fn free_in_prefix(state: AllocatorState, k: int) -> Set<int> {
    Set::new(
        |n: int|
            !state.is_reserved(n) && exists|i: int|
                0 <= i < k && i < state.areas.len() && (#[trigger] state.areas[i]).contains_frame(n),
    )
}

proof fn lemma_free_in_prefix(state: AllocatorState, k: int)
    requires
        state.areas_disjoint(),
        0 <= k <= state.areas.len(),
    ensures
        free_in_prefix(state, k).finite(),
        free_in_prefix(state, k).len() == state.free_in_first(k),
    decreases k,
{
    if k == 0 {
        assert(free_in_prefix(state, k) =~= Set::<int>::empty());
    } else {
        lemma_free_in_prefix(state, k - 1);
        let area = state.areas[k - 1];
        lemma_free_in_area(state, area);
        let before = free_in_prefix(state, k - 1);
        let here = state.free_in(area);
        assert(before.disjoint(here)) by {
            assert forall|n: int| before.contains(n) implies !here.contains(n) by {
                let i = choose|i: int|
                    0 <= i < k - 1 && i < state.areas.len() && (#[trigger] state.areas[i]).contains_frame(n);
                assert(state.areas[i].contains_frame(n));
                if state.areas[k - 1].contains_frame(n) {
                    assert(false);
                }
            }
        }
        lemma_set_disjoint_lens(before, here);
        assert(before + here =~= free_in_prefix(state, k)) by {
            assert forall|n: int| (before + here).contains(n) <==> free_in_prefix(state, k).contains(n) by {
                if here.contains(n) {
                    assert(state.areas[k - 1].contains_frame(n));
                }
                if free_in_prefix(state, k).contains(n) {
                    let i = choose|i: int|
                        0 <= i < k && i < state.areas.len() && (#[trigger] state.areas[i]).contains_frame(n);
                    if i < k - 1 {
                        assert(before.contains(n));
                    } else {
                        assert(here.contains(n));
                    }
                }
            }
        }
    }
}

/// Where no frame lies in two areas, the free frames are as many as the
/// areas give one by one: the sum over all areas of the frames of each
/// that no reserved range takes away.
pub proof fn lemma_free_frames_sum_over_areas(state: AllocatorState)
    requires
        state.areas_disjoint(),
    ensures
        state.free_frames().finite(),
        state.free_frames().len() == state.free_in_first(state.areas.len() as int),
{
    lemma_free_in_prefix(state, state.areas.len() as int);
    assert(state.free_frames() =~= free_in_prefix(state, state.areas.len() as int));
}

/// A new allocator whose areas share no frame hands out, until it has
/// none left, as many frames as the areas give one by one: the sum over
/// all areas of the frames that each holds less those that a reserved range
/// takes away from it.
pub proof fn lemma_total_of_a_new_allocator(
    state: AllocatorState,
    areas: Seq<MemoryArea>,
    kernel: ReservedRange,
    multiboot: ReservedRange,
)
    requires
        state.starts_from(areas, kernel, multiboot),
        state.areas_disjoint(),
    ensures
        state.available_frames().len() == state.free_in_first(state.areas.len() as int),
{
    lemma_free_frames_sum_over_areas(state);
}

/// The frames that can still be handed out are finitely many.
pub proof fn lemma_available_frames_finite(state: AllocatorState)
    ensures
        state.available_frames().finite(),
        state.free_frames().finite(),
        state.available_frames().len() <= state.free_frames().len(),
        state.free_frames().len() <= MAX_FRAME + 1,
{
    lemma_int_range(0, MAX_FRAME + 1);
    let all = set_int_range(0, MAX_FRAME + 1);
    assert(state.free_frames().subset_of(all)) by {
        assert forall|n: int| state.free_frames().contains(n) implies all.contains(n) by {
            let i = choose|i: int| 0 <= i < state.areas.len() && (#[trigger] state.areas[i]).contains_frame(n);
            assert(state.areas[i].contains_frame(n));
        }
    }
    lemma_len_subset(state.free_frames(), all);
    assert(state.available_frames().subset_of(state.free_frames()));
    lemma_len_subset(state.available_frames(), state.free_frames());
}

/// An allocation that gives a frame takes exactly that frame out of those
/// that can still be handed out; one that gives nothing finds none left.
pub proof fn lemma_allocation_takes_one_frame(
    state: AllocatorState,
    outcome: Option<Frame>,
    next: AllocatorState,
)
    requires
        state.allocates(outcome, next),
    ensures
        match outcome {
            Some(frame) => {
                &&& state.available_frames().contains(frame@ as int)
                &&& next.available_frames() == state.available_frames().remove(frame@ as int)
                &&& next.available_frames().len() == state.available_frames().len() - 1
            },
            None => state.available_frames().len() == 0 && next.available_frames().len() == 0,
        },
{
    lemma_available_frames_finite(state);
    match outcome {
        Some(frame) => {
            assert(next.available_frames() =~= state.available_frames().remove(frame@ as int)) by {
                assert forall|n: int| next.is_available(n) <==> (state.is_available(n) && n != frame@) by {
                    assert(next.is_free(n) == state.is_free(n)) by {
                        assert(next.in_some_area(n) == state.in_some_area(n));
                    }
                    if state.is_available(n) && n != frame@ {
                        assert(!(n < frame@));
                    }
                }
            }
        },
        None => {
            assert(state.available_frames() =~= Set::<int>::empty());
            assert(next.available_frames() =~= Set::<int>::empty()) by {
                assert forall|n: int| !next.is_available(n) by {
                    if next.is_available(n) {
                        assert(next.in_some_area(n) == state.in_some_area(n));
                        assert(state.is_available(n));
                    }
                }
            }
        },
    }
}

/// Which frames are free does not depend on the order of the areas: two
/// states with the same reserved ranges whose areas are the same but for
/// their order have the same free frames.
pub proof fn lemma_order_of_areas_is_immaterial(state: AllocatorState, other: AllocatorState)
    requires
        state.areas.to_multiset() == other.areas.to_multiset(),
        state.kernel == other.kernel,
        state.multiboot == other.multiboot,
    ensures
        state.free_frames() == other.free_frames(),
{
    assert forall|n: int| state.is_free(n) == other.is_free(n) by {
        lemma_in_some_area(state.areas, other.areas, n);
        lemma_in_some_area(other.areas, state.areas, n);
        if state.in_some_area(n) {
            let i = choose|i: int| 0 <= i < state.areas.len() && (#[trigger] state.areas[i]).contains_frame(n);
            assert(state.areas[i].contains_frame(n));
        }
        if other.in_some_area(n) {
            let i = choose|i: int| 0 <= i < other.areas.len() && (#[trigger] other.areas[i]).contains_frame(n);
            assert(other.areas[i].contains_frame(n));
        }
    }
    assert(state.free_frames() =~= other.free_frames());
}

proof fn lemma_in_some_area(areas: Seq<MemoryArea>, others: Seq<MemoryArea>, n: int)
    requires
        areas.to_multiset() == others.to_multiset(),
    ensures
        (exists|i: int| 0 <= i < areas.len() && (#[trigger] areas[i]).contains_frame(n)) ==> (exists|j: int|
            0 <= j < others.len() && (#[trigger] others[j]).contains_frame(n)),
{
    if exists|i: int| 0 <= i < areas.len() && (#[trigger] areas[i]).contains_frame(n) {
        let i = choose|i: int| 0 <= i < areas.len() && (#[trigger] areas[i]).contains_frame(n);
        let area = areas[i];
        assert(areas.contains(area));
        vstd::seq_lib::to_multiset_contains(areas, area);
        vstd::seq_lib::to_multiset_contains(others, area);
        assert(others.contains(area));
        let j = choose|j: int| 0 <= j < others.len() && others[j] == area;
        assert(others[j].contains_frame(n));
    }
}

} // verus!
