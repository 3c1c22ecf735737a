//! Physical memory in frames: the firmware's memory areas, the ranges that
//! must never be handed out, and the allocator that walks between them.

use vstd::prelude::*;
use crate::memory_proofs::{lemma_allocation_takes_one_frame, lemma_available_frames_finite};

verus! {

/// Bytes in one frame.
pub const PAGE_SIZE: u64 = 4096;

/// The number of the last frame that lies inside the address space.
pub const MAX_FRAME: u64 = 0x000f_ffff_ffff_ffff;

/// One frame of physical memory, known by its number: frame `n` holds the
/// addresses from `n * PAGE_SIZE` up to, not including, `(n + 1) * PAGE_SIZE`.
#[derive(Clone, Copy, Debug, PartialEq, Eq, Structural, PartialOrd, Ord, Hash)]
pub struct Frame {
    number: u64,
}

impl View for Frame {
    type V = nat;

    closed spec fn view(&self) -> nat {
        self.number as nat
    }
}

impl Frame {
    #[verifier::type_invariant]
    closed spec fn addressable(self) -> bool {
        self.number <= MAX_FRAME
    }

    /// The frame that holds `address`.
    pub fn containing_address(address: u64) -> (f: Frame)
        ensures
            f@ == address / PAGE_SIZE,
    {
        Frame { number: address / PAGE_SIZE }
    }

    /// The number of the frame.
    pub fn number(&self) -> (n: u64)
        ensures
            n == self@,
            n <= MAX_FRAME,
    {
        proof {
            use_type_invariant(self);
        }
        self.number
    }

    /// The first address of the frame.
    pub fn start_address(&self) -> (a: u64)
        ensures
            a == self@ * PAGE_SIZE,
    {
        proof {
            use_type_invariant(self);
        }
        self.number * PAGE_SIZE
    }
}

/// One region of RAM as the firmware reports it.
#[derive(Clone, Copy, Debug, PartialEq, Eq, Structural)]
pub struct MemoryArea {
    pub base_addr: u64,
    pub length: u64,
}

impl MemoryArea {
    /// Frame `n` lies wholly inside the area, and inside the address
    /// space.
    pub open spec fn contains_frame(self, n: int) -> bool {
        &&& self.base_addr <= n * PAGE_SIZE
        &&& (n + 1) * PAGE_SIZE <= self.base_addr + self.length
        &&& n <= MAX_FRAME
    }

    /// The number of the first frame that starts at or after the area's
    /// base.
    pub open spec fn first_frame(self) -> int {
        (self.base_addr + PAGE_SIZE - 1) / (PAGE_SIZE as int)
    }

    /// One more than the number of the last frame inside the area; no more
    /// than `first_frame` where the area holds no whole frame.
    pub open spec fn end_frame(self) -> int {
        let end = (self.base_addr + self.length) / (PAGE_SIZE as int);
        if end > MAX_FRAME + 1 {
            MAX_FRAME + 1
        } else {
            end
        }
    }

    /// How many whole frames the area holds.
    pub open spec fn frame_count(self) -> nat {
        if self.end_frame() > self.first_frame() {
            (self.end_frame() - self.first_frame()) as nat
        } else {
            0
        }
    }

    /// The area stands before `other` in the order of base addresses: its
    /// base is lower, or the same and its length no greater.
    pub open spec fn comes_before(self, other: MemoryArea) -> bool {
        self.base_addr < other.base_addr || (self.base_addr == other.base_addr && self.length
            <= other.length)
    }

    /// Whether the area stands before `other` in the order of base
    /// addresses.
    pub fn is_before(&self, other: &MemoryArea) -> (b: bool)
        ensures
            b == self.comes_before(*other),
    {
        self.base_addr < other.base_addr || (self.base_addr == other.base_addr && self.length
            <= other.length)
    }

    /// The numbers of the frames inside the area.
    pub open spec fn frames(self) -> Set<int> {
        Set::new(|n: int| self.contains_frame(n))
    }

    /// The frames of the area are those from `first_frame` up to
    /// `end_frame`.
    pub proof fn lemma_frames_are_a_range(self, n: int)
        ensures
            self.contains_frame(n) <==> self.first_frame() <= n < self.end_frame(),
    {
    }

    /// The number of the area's first frame.
    pub fn first_frame_number(&self) -> (n: u64)
        ensures
            n == self.first_frame(),
    {
        if self.base_addr % PAGE_SIZE == 0 {
            self.base_addr / PAGE_SIZE
        } else {
            self.base_addr / PAGE_SIZE + 1
        }
    }

    /// One more than the number of the area's last frame.
    pub fn end_frame_number(&self) -> (n: u64)
        ensures
            n == self.end_frame(),
    {
        let carry: u64 = (self.base_addr % PAGE_SIZE + self.length % PAGE_SIZE) / PAGE_SIZE;
        let end: u64 = self.base_addr / PAGE_SIZE + self.length / PAGE_SIZE + carry;
        if end > MAX_FRAME + 1 {
            MAX_FRAME + 1
        } else {
            end
        }
    }
}

/// A half-open address range, from `start` up to but not including `end`,
/// that no frame may be taken from.
#[derive(Clone, Copy, Debug, PartialEq, Eq, Structural)]
pub struct ReservedRange {
    pub start: u64,
    pub end: u64,
}

impl ReservedRange {
    /// Frame `n` shares at least one address with the range. An empty
    /// range shares none.
    pub open spec fn overlaps_frame(self, n: int) -> bool {
        &&& self.start < self.end
        &&& n * PAGE_SIZE < self.end
        &&& self.start < (n + 1) * PAGE_SIZE
    }

    /// The number of the first frame that starts at or after the range's
    /// end.
    pub open spec fn first_frame_past(self) -> int {
        (self.end + PAGE_SIZE - 1) / (PAGE_SIZE as int)
    }

    /// Address `a` belongs to the range and to frame `n`.
    pub open spec fn shares_address(self, n: int, a: int) -> bool {
        self.start <= a < self.end && n * PAGE_SIZE <= a < (n + 1) * PAGE_SIZE
    }

    /// A frame overlaps the range exactly when some address belongs to
    /// both.
    pub proof fn lemma_overlap_is_a_shared_address(self, n: int)
        ensures
            self.overlaps_frame(n) <==> exists|a: int| self.shares_address(n, a),
    {
        if self.overlaps_frame(n) {
            let a = if self.start >= n * PAGE_SIZE {
                self.start as int
            } else {
                n * PAGE_SIZE
            };
            assert(self.shares_address(n, a));
        }
    }

    /// Whether the frame of number `n` overlaps the range.
    pub fn overlaps(&self, n: u64) -> (b: bool)
        ensures
            b == self.overlaps_frame(n as int),
    {
        self.start < self.end && self.start / PAGE_SIZE <= n && n < self.frame_past()
    }

    /// The number of the first frame past the range.
    pub fn frame_past(&self) -> (n: u64)
        ensures
            n == self.first_frame_past(),
    {
        if self.end % PAGE_SIZE == 0 {
            self.end / PAGE_SIZE
        } else {
            self.end / PAGE_SIZE + 1
        }
    }
}

/// The areas stand in ascending order of their base address, those with
/// the same base in ascending order of their length.
pub open spec fn sorted_by_base(areas: Seq<MemoryArea>) -> bool {
    forall|i: int, j: int| 0 <= i <= j < areas.len() ==> (#[trigger] areas[i]).comes_before(#[trigger] areas[j])
}

/// A copy of `areas` in ascending order of base address, areas with the
/// same base in ascending order of length.
pub fn sort_by_base(areas: &Vec<MemoryArea>) -> (sorted: Vec<MemoryArea>)
    ensures
        sorted_by_base(sorted@),
        sorted@.to_multiset() == areas@.to_multiset(),
{
    let mut sorted: Vec<MemoryArea> = Vec::new();
    let mut i: usize = 0;
    proof {
        assert(areas@.take(0) =~= sorted@);
    }
    while i < areas.len()
        invariant
            0 <= i <= areas.len(),
            sorted_by_base(sorted@),
            sorted@.to_multiset() == areas@.take(i as int).to_multiset(),
            sorted@.len() == i,
        decreases areas.len() - i,
    {
        let area = areas[i];
        let mut j: usize = 0;
        while j < sorted.len() && sorted[j].is_before(&area)
            invariant
                0 <= j <= sorted.len(),
                forall|k: int| 0 <= k < j ==> (#[trigger] sorted@[k]).comes_before(area),
            decreases sorted.len() - j,
        {
            j += 1;
        }
        let ghost before = sorted@;
        sorted.insert(j, area);
        proof {
            vstd::seq_lib::to_multiset_insert(before, j as int, area);
            assert(areas@.take(i + 1) =~= areas@.take(i as int).push(area));
            vstd::seq_lib::to_multiset_build(areas@.take(i as int), area);
            assert forall|a: int, b: int| 0 <= a <= b < sorted@.len() implies (#[trigger] sorted@[a]).comes_before(
                #[trigger] sorted@[b],
            ) by {
                if a < j && b > j {
                    assert(sorted@[a] == before[a]);
                    assert(sorted@[b] == before[b - 1]);
                } else if a < j && b < j {
                    assert(sorted@[a] == before[a]);
                    assert(sorted@[b] == before[b]);
                } else if a > j {
                    assert(sorted@[a] == before[a - 1]);
                    assert(sorted@[b] == before[b - 1]);
                } else if a == j && b > j {
                    assert(sorted@[b] == before[b - 1]);
                    assert(before[j as int].comes_before(before[b - 1]));
                } else if a < j && b == j {
                    assert(sorted@[a] == before[a]);
                }
            }
        }
        i += 1;
    }
    proof {
        assert(areas@.take(i as int) =~= areas@);
    }
    sorted
}

/// The allocator as a mathematical value: the areas it walks, the two
/// reserved ranges, and the cursor, the number of the next frame it will
/// look at.
pub struct AllocatorState {
    pub areas: Seq<MemoryArea>,
    pub kernel: ReservedRange,
    pub multiboot: ReservedRange,
    pub cursor: int,
}

impl AllocatorState {
    /// Some area holds frame `n`.
    pub open spec fn in_some_area(self, n: int) -> bool {
        exists|i: int| 0 <= i < self.areas.len() && (#[trigger] self.areas[i]).contains_frame(n)
    }

    /// Frame `n` overlaps one of the two reserved ranges.
    pub open spec fn is_reserved(self, n: int) -> bool {
        self.kernel.overlaps_frame(n) || self.multiboot.overlaps_frame(n)
    }

    /// Frame `n` is RAM that the allocator may hand out: it lies in some
    /// area and overlaps neither reserved range.
    pub open spec fn is_free(self, n: int) -> bool {
        self.in_some_area(n) && !self.is_reserved(n)
    }

    /// Frame `n` is free and the cursor has not passed it.
    pub open spec fn is_available(self, n: int) -> bool {
        self.cursor <= n && self.is_free(n)
    }

    /// The numbers of all free frames.
    pub open spec fn free_frames(self) -> Set<int> {
        Set::new(|n: int| self.is_free(n))
    }

    /// The numbers of the frames that are free and not behind the cursor.
    pub open spec fn available_frames(self) -> Set<int> {
        Set::new(|n: int| self.is_available(n))
    }

    /// The frames of `area` that overlap neither reserved range.
    pub open spec fn free_in(self, area: MemoryArea) -> Set<int> {
        Set::new(|n: int| area.contains_frame(n) && !self.is_reserved(n))
    }

    /// The frames of `area` that a reserved range takes away.
    pub open spec fn reserved_in(self, area: MemoryArea) -> Set<int> {
        Set::new(|n: int| area.contains_frame(n) && self.is_reserved(n))
    }

    /// The sum, over the first `k` areas, of the frames that each holds
    /// less those that a reserved range takes away from it.
    pub open spec fn free_in_first(self, k: int) -> int
        decreases k,
    {
        if k <= 0 {
            0
        } else {
            self.free_in_first(k - 1) + self.areas[k - 1].frame_count() - self.reserved_in(
                self.areas[k - 1],
            ).len()
        }
    }

    /// No frame lies in two areas.
    pub open spec fn areas_disjoint(self) -> bool {
        forall|i: int, j: int, n: int|
            0 <= i < j < self.areas.len() && #[trigger] self.areas[i].contains_frame(n)
                ==> !#[trigger] self.areas[j].contains_frame(n)
    }

    /// The state of an allocator that was just made from `areas` and the
    /// two ranges: it holds the areas in order, and its cursor stands at
    /// the first frame of the lowest area, so that every free frame can
    /// still be handed out.
    pub open spec fn starts_from(
        self,
        areas: Seq<MemoryArea>,
        kernel: ReservedRange,
        multiboot: ReservedRange,
    ) -> bool {
        &&& sorted_by_base(self.areas)
        &&& self.areas.to_multiset() == areas.to_multiset()
        &&& self.kernel == kernel
        &&& self.multiboot == multiboot
        &&& self.cursor == if areas.len() > 0 {
            self.areas[0].first_frame()
        } else {
            0
        }
        &&& self.available_frames() == self.free_frames()
    }

    /// The same areas and reserved ranges.
    pub open spec fn same_memory(self, other: AllocatorState) -> bool {
        &&& self.areas == other.areas
        &&& self.kernel == other.kernel
        &&& self.multiboot == other.multiboot
    }

    /// One allocation takes the state `self` to `next` with the outcome
    /// `outcome`: the lowest available frame, with the cursor just past it;
    /// or nothing, when no frame is available. The cursor never moves
    /// back.
    pub open spec fn allocates(self, outcome: Option<Frame>, next: AllocatorState) -> bool {
        &&& self.same_memory(next)
        &&& self.cursor <= next.cursor
        &&& match outcome {
            Some(frame) => {
                &&& self.is_available(frame@ as int)
                &&& forall|n: int| n < frame@ ==> !self.is_available(n)
                &&& next.cursor == frame@ + 1
            },
            None => forall|n: int| !self.is_available(n),
        }
    }
}

/// What every frame allocator offers: frames, one at a time, none of them
/// twice.
pub trait FrameAllocator {
    /// Frame `n` can still be handed out.
    spec fn can_allocate(&self, n: int) -> bool;

    /// Hands out a frame that was never handed out before, or nothing when
    /// none is left.
    fn allocate_frame(&mut self) -> (outcome: Option<Frame>)
        ensures
            match outcome {
                Some(frame) => old(self).can_allocate(frame@ as int) && !final(self).can_allocate(
                    frame@ as int,
                ),
                None => forall|n: int| !old(self).can_allocate(n),
            },
            forall|n: int| final(self).can_allocate(n) ==> old(self).can_allocate(n),
    ;
}

/// A frame allocator over the firmware's memory areas. It hands out the
/// free frames in ascending order and keeps no record of them but its
/// cursor.
pub struct AreaFrameAllocator {
    next_free_frame: u64,
    current_area: usize,
    areas: Vec<MemoryArea>,
    kernel: ReservedRange,
    multiboot: ReservedRange,
}

impl View for AreaFrameAllocator {
    type V = AllocatorState;

    closed spec fn view(&self) -> AllocatorState {
        AllocatorState {
            areas: self.areas@,
            kernel: self.kernel,
            multiboot: self.multiboot,
            cursor: self.next_free_frame as int,
        }
    }
}

impl AreaFrameAllocator {
    #[verifier::type_invariant]
    closed spec fn inv(self) -> bool {
        &&& sorted_by_base(self.areas@)
        &&& self.current_area <= self.areas@.len()
        &&& self.next_free_frame <= MAX_FRAME + 1
        &&& forall|i: int|
            0 <= i < self.current_area ==> (#[trigger] self.areas@[i]).end_frame() <= self.next_free_frame
    }

    /// An allocator over `memory_areas` that keeps clear of the kernel
    /// image, from `kernel_start` up to `kernel_end`, and of the boot
    /// information, from `multiboot_start` up to `multiboot_end`. The areas
    /// may come in any order. The cursor starts at the first frame of the
    /// lowest area.
    pub fn new(
        kernel_start: u64,
        kernel_end: u64,
        multiboot_start: u64,
        multiboot_end: u64,
        memory_areas: Vec<MemoryArea>,
    ) -> (allocator: AreaFrameAllocator)
        ensures
            allocator@.starts_from(
                memory_areas@,
                ReservedRange { start: kernel_start, end: kernel_end },
                ReservedRange { start: multiboot_start, end: multiboot_end },
            ),
    {
        let areas = sort_by_base(&memory_areas);
        proof {
            vstd::seq_lib::to_multiset_len(areas@);
            vstd::seq_lib::to_multiset_len(memory_areas@);
        }
        let first: u64 = if areas.len() > 0 {
            areas[0].first_frame_number()
        } else {
            0
        };
        let allocator = AreaFrameAllocator {
            next_free_frame: first,
            current_area: 0,
            areas,
            kernel: ReservedRange { start: kernel_start, end: kernel_end },
            multiboot: ReservedRange { start: multiboot_start, end: multiboot_end },
        };
        proof {
            assert forall|n: int| allocator@.is_free(n) implies allocator@.cursor <= n by {
                let i = choose|i: int|
                    0 <= i < allocator@.areas.len() && (#[trigger] allocator@.areas[i]).contains_frame(n);
                assert(allocator@.areas[0].comes_before(allocator@.areas[i]));
            }
            assert(allocator@.available_frames() =~= allocator@.free_frames());
        }
        allocator
    }

    /// Hands out every frame that is left and says how many they were.
    pub fn allocate_all(&mut self) -> (count: u64)
        ensures
            count == old(self)@.available_frames().len(),
            final(self)@.available_frames().len() == 0,
            old(self)@.same_memory(final(self)@),
            old(self)@.cursor <= final(self)@.cursor,
    {
        let mut count: u64 = 0;
        proof {
            use_type_invariant(&*self);
            lemma_available_frames_finite(self@);
        }
        loop
            invariant
                old(self)@.same_memory(self@),
                old(self)@.cursor <= self@.cursor,
                self@.cursor <= MAX_FRAME + 1,
                count + self@.available_frames().len() == old(self)@.available_frames().len(),
                old(self)@.available_frames().len() <= MAX_FRAME + 1,
            decreases MAX_FRAME + 1 - self@.cursor,
        {
            let ghost before = self@;
            let outcome = self.allocate_frame();
            proof {
                use_type_invariant(&*self);
                lemma_allocation_takes_one_frame(before, outcome, self@);
            }
            if outcome.is_none() {
                return count;
            }
            count += 1;
        }
    }
}

impl FrameAllocator for AreaFrameAllocator {
    open spec fn can_allocate(&self, n: int) -> bool {
        self@.is_available(n)
    }

    /// Hands out the lowest free frame at or after the cursor and moves
    /// the cursor just past it; nothing when no such frame is left.
    fn allocate_frame(&mut self) -> (outcome: Option<Frame>)
        ensures
            old(self)@.allocates(outcome, final(self)@),
    {
        proof {
            use_type_invariant(&*self);
        }
        while self.current_area < self.areas.len()
            invariant
                sorted_by_base(self.areas@),
                self.current_area <= self.areas@.len(),
                self.next_free_frame <= MAX_FRAME + 1,
                forall|i: int|
                    0 <= i < self.current_area ==> (#[trigger] self.areas@[i]).end_frame()
                        <= self.next_free_frame,
                old(self)@.same_memory(self@),
                old(self)@.cursor <= self@.cursor,
                forall|n: int| old(self)@.cursor <= n < self@.cursor ==> !old(self)@.is_free(n),
            decreases self.areas@.len() - self.current_area, MAX_FRAME + 1 - self.next_free_frame,
        {
            let area = self.areas[self.current_area];
            let first = area.first_frame_number();
            let end = area.end_frame_number();
            let candidate = self.next_free_frame;
            if candidate >= end {
                self.current_area += 1;
            } else if candidate < first {
                proof {
                    Self::lemma_gap_before_area(old(self)@, self.areas@, self.current_area as int, candidate as int);
                }
                self.next_free_frame = first;
            } else if self.kernel.overlaps(candidate) {
                self.next_free_frame = self.kernel.frame_past();
            } else if self.multiboot.overlaps(candidate) {
                self.next_free_frame = self.multiboot.frame_past();
            } else {
                self.next_free_frame = candidate + 1;
                proof {
                    assert(area.contains_frame(candidate as int));
                    assert(old(self)@.areas[self.current_area as int].contains_frame(candidate as int));
                }
                return Some(Frame { number: candidate });
            }
        }
        proof {
            assert forall|n: int| !old(self)@.is_available(n) by {
                if old(self)@.is_available(n) {
                    let i = choose|i: int|
                        0 <= i < old(self)@.areas.len() && (#[trigger] old(self)@.areas[i]).contains_frame(n);
                    assert(self.areas@[i].end_frame() <= self.next_free_frame);
                }
            }
        }
        None
    }
}

impl AreaFrameAllocator {
    /// With every area before `current` ending at or before `cursor`, and
    /// the areas in order, no area holds a frame from `cursor` up to the
    /// first frame of area `current`.
    proof fn lemma_gap_before_area(state: AllocatorState, areas: Seq<MemoryArea>, current: int, cursor: int)
        requires
            state.areas == areas,
            sorted_by_base(areas),
            0 <= current < areas.len(),
            forall|i: int| 0 <= i < current ==> (#[trigger] areas[i]).end_frame() <= cursor,
        ensures
            forall|n: int| cursor <= n < areas[current].first_frame() ==> !state.is_free(n),
    {
        assert forall|n: int| cursor <= n < areas[current].first_frame() implies !state.is_free(n) by {
            if state.in_some_area(n) {
                let i = choose|i: int| 0 <= i < areas.len() && (#[trigger] areas[i]).contains_frame(n);
                if i < current {
                    assert(areas[i].end_frame() <= cursor);
                } else {
                    assert(areas[current].comes_before(areas[i]));
                }
            }
        }
    }
}

} // verus!
