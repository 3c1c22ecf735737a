use vvfos::boot::{boot_info_range, frame_allocator, kernel_range, BootError, BootInfo, ElfSection};
use vvfos::memory::{
    sort_by_base, AreaFrameAllocator, Frame, FrameAllocator, MemoryArea, ReservedRange, MAX_FRAME,
    PAGE_SIZE,
};

fn area(base_addr: u64, length: u64) -> MemoryArea {
    MemoryArea { base_addr, length }
}

fn drain(allocator: &mut AreaFrameAllocator) -> Vec<u64> {
    let mut numbers = Vec::new();
    while let Some(frame) = allocator.allocate_frame() {
        numbers.push(frame.number());
    }
    numbers
}

#[test]
fn one_area_with_both_ranges_reserved() {
    let mut allocator =
        AreaFrameAllocator::new(0x10000, 0x20000, 0x20000, 0x21000, vec![area(0x0, 0x100000)]);
    for expected in 0..16u64 {
        let frame = allocator.allocate_frame().unwrap();
        assert_eq!(frame.number(), expected);
        assert_eq!(frame.start_address(), expected * 0x1000);
    }
    let after_skip = allocator.allocate_frame().unwrap();
    assert_eq!(after_skip.start_address(), 0x21000);
    let mut last = after_skip.number();
    let mut count = 17;
    while let Some(frame) = allocator.allocate_frame() {
        assert_eq!(frame.number(), last + 1);
        last = frame.number();
        count += 1;
    }
    assert_eq!(last, 0xff);
    assert_eq!(count, 239);
    assert_eq!(allocator.allocate_frame(), None);
    assert_eq!(allocator.allocate_frame(), None);
}

#[test]
fn frames_come_in_strictly_increasing_order() {
    let areas = vec![area(0x9000, 0x3000), area(0x1000, 0x4000), area(0x2000, 0x9000)];
    let mut allocator = AreaFrameAllocator::new(0x3000, 0x4800, 0xa000, 0xa001, areas);
    let numbers = drain(&mut allocator);
    assert_eq!(numbers, vec![1, 2, 5, 6, 7, 8, 9, 11]);
    for pair in numbers.windows(2) {
        assert!(pair[0] < pair[1]);
    }
}

#[test]
fn no_frame_touches_a_reserved_range() {
    let mut allocator =
        AreaFrameAllocator::new(0x1800, 0x2001, 0x5fff, 0x6000, vec![area(0x0, 0x8000)]);
    let numbers = drain(&mut allocator);
    assert_eq!(numbers, vec![0, 3, 4, 6, 7]);
    let kernel = ReservedRange { start: 0x1800, end: 0x2001 };
    let multiboot = ReservedRange { start: 0x5fff, end: 0x6000 };
    for n in numbers {
        assert!(!kernel.overlaps(n));
        assert!(!multiboot.overlaps(n));
    }
}

#[test]
fn unsorted_areas_are_walked_from_the_lowest() {
    let areas = vec![area(0x8000, 0x2000), area(0x0, 0x2000), area(0x4000, 0x1000)];
    let mut allocator = AreaFrameAllocator::new(0, 0, 0, 0, areas);
    assert_eq!(drain(&mut allocator), vec![0, 1, 4, 8, 9]);
}

#[test]
fn overlapping_areas_give_each_frame_once() {
    let areas = vec![area(0x0, 0xa000), area(0x5000, 0x3000), area(0x6000, 0xe000)];
    let mut allocator = AreaFrameAllocator::new(0, 0, 0, 0, areas);
    let numbers = drain(&mut allocator);
    assert_eq!(numbers, (0..20).collect::<Vec<u64>>());
}

#[test]
fn covered_area_gives_no_frame() {
    let areas = vec![area(0x4000, 0x3000), area(0x10000, 0x2000)];
    let mut allocator = AreaFrameAllocator::new(0x4000, 0x7000, 0x0, 0x0, areas);
    assert_eq!(drain(&mut allocator), vec![16, 17]);
    let mut covered_by_boot_info =
        AreaFrameAllocator::new(0, 0, 0x3fff, 0x8000, vec![area(0x4000, 0x3000)]);
    assert_eq!(covered_by_boot_info.allocate_frame(), None);
}

#[test]
fn empty_reserved_range_never_skips() {
    let mut allocator =
        AreaFrameAllocator::new(0x1000, 0x1000, 0x2800, 0x2800, vec![area(0x0, 0x4000)]);
    assert_eq!(drain(&mut allocator), vec![0, 1, 2, 3]);
    let mut inverted = AreaFrameAllocator::new(0x3000, 0x1000, 0, 0, vec![area(0x0, 0x4000)]);
    assert_eq!(drain(&mut inverted), vec![0, 1, 2, 3]);
}

#[test]
fn untouched_area_gives_length_over_frame_size() {
    let mut allocator = AreaFrameAllocator::new(0, 0x1000, 0x1000, 0x2000, vec![area(0x7000, 0x5fff)]);
    assert_eq!(allocator.allocate_all(), 0x5fff / PAGE_SIZE);
    assert_eq!(allocator.allocate_frame(), None);
}

#[test]
fn total_is_the_sum_over_the_areas() {
    let areas = vec![area(0x0, 0x4000), area(0x10000, 0x3800), area(0x20000, 0x1000)];
    let mut allocator = AreaFrameAllocator::new(0x2000, 0x3000, 0x11000, 0x11010, areas);
    assert_eq!(allocator.allocate_all(), (4 - 1) + (3 - 1) + 1);
    assert_eq!(allocator.allocate_all(), 0);
}

#[test]
fn partial_frames_are_left_out() {
    let mut allocator = AreaFrameAllocator::new(0, 0, 0, 0, vec![area(0x800, 0x2000)]);
    assert_eq!(drain(&mut allocator), vec![1]);
    let mut too_small = AreaFrameAllocator::new(0, 0, 0, 0, vec![area(0x1001, 0x1ffe)]);
    assert_eq!(too_small.allocate_frame(), None);
}

#[test]
fn no_areas_no_frames() {
    let mut allocator = AreaFrameAllocator::new(0x1000, 0x2000, 0x3000, 0x4000, Vec::new());
    assert_eq!(allocator.allocate_frame(), None);
    assert_eq!(allocator.allocate_all(), 0);
}

#[test]
fn area_at_the_top_of_the_address_space() {
    let areas = vec![area(u64::MAX - 0x2fff, 0x2fff), area(u64::MAX - 0xfff, u64::MAX)];
    let mut allocator = AreaFrameAllocator::new(0, 0, 0, 0, areas);
    assert_eq!(drain(&mut allocator), vec![MAX_FRAME - 2, MAX_FRAME - 1, MAX_FRAME]);
    assert_eq!(Frame::containing_address(u64::MAX).start_address(), u64::MAX - 0xfff);
}

#[test]
fn frame_of_an_address() {
    assert_eq!(Frame::containing_address(0).number(), 0);
    assert_eq!(Frame::containing_address(0xfff).number(), 0);
    assert_eq!(Frame::containing_address(0x1000).number(), 1);
    assert_eq!(Frame::containing_address(0x21abc).start_address(), 0x21000);
    assert_eq!(Frame::containing_address(u64::MAX).number(), MAX_FRAME);
    assert!(Frame::containing_address(0x1000) < Frame::containing_address(0x2000));
}

#[test]
fn frames_of_an_area() {
    assert_eq!(area(0x0, 0x100000).first_frame_number(), 0);
    assert_eq!(area(0x0, 0x100000).end_frame_number(), 0x100);
    assert_eq!(area(0x1, 0x1fff).first_frame_number(), 1);
    assert_eq!(area(0x1, 0x1fff).end_frame_number(), 2);
    assert_eq!(area(0xfff, 0x1).end_frame_number(), 1);
    assert_eq!(area(u64::MAX, u64::MAX).end_frame_number(), MAX_FRAME + 1);
    assert_eq!(area(u64::MAX, 0).first_frame_number(), MAX_FRAME + 1);
}

#[test]
fn overlap_of_a_range_and_a_frame() {
    let range = ReservedRange { start: 0x1fff, end: 0x3001 };
    assert!(!range.overlaps(0));
    assert!(range.overlaps(1));
    assert!(range.overlaps(2));
    assert!(range.overlaps(3));
    assert!(!range.overlaps(4));
    assert_eq!(range.frame_past(), 4);
    assert_eq!(ReservedRange { start: 0, end: 0x3000 }.frame_past(), 3);
    assert!(!ReservedRange { start: 0x1000, end: 0x1000 }.overlaps(1));
}

#[test]
fn sorting_keeps_every_area() {
    let areas = vec![area(0x30, 1), area(0x10, 2), area(0x20, 3), area(0x10, 4), area(0x0, 5)];
    let sorted = sort_by_base(&areas);
    assert_eq!(sorted, vec![area(0x0, 5), area(0x10, 2), area(0x10, 4), area(0x20, 3), area(0x30, 1)]);
    assert_eq!(sort_by_base(&Vec::new()), Vec::new());
}

fn section(addr: u64, size: u64) -> ElfSection {
    ElfSection { addr, size, flags: 0 }
}

#[test]
fn kernel_range_spans_the_sections() {
    let sections = vec![section(0x105000, 0x2000), section(0x100000, 0x800), section(0x103000, 0x5000)];
    assert_eq!(kernel_range(&sections), Some(ReservedRange { start: 0x100000, end: 0x108000 }));
    assert_eq!(kernel_range(&vec![section(7, 0)]), Some(ReservedRange { start: 7, end: 7 }));
    assert_eq!(kernel_range(&Vec::new()), None);
    assert_eq!(kernel_range(&vec![section(1, 1), section(u64::MAX, 1)]), None);
    assert_eq!(
        kernel_range(&vec![section(u64::MAX, 0)]),
        Some(ReservedRange { start: u64::MAX, end: u64::MAX })
    );
}

#[test]
fn boot_info_range_from_address_and_size() {
    assert_eq!(boot_info_range(0x20000, 0x1000), Some(ReservedRange { start: 0x20000, end: 0x21000 }));
    assert_eq!(boot_info_range(u64::MAX - 4, 5), None);
    assert_eq!(
        boot_info_range(u64::MAX - 5, 5),
        Some(ReservedRange { start: u64::MAX - 5, end: u64::MAX })
    );
}

fn boot_info() -> BootInfo {
    BootInfo {
        address: 0x20000,
        total_size: 0x1000,
        memory_areas: Some(vec![area(0x0, 0x100000)]),
        elf_sections: Some(vec![section(0x18000, 0x8000), section(0x10000, 0x8000)]),
    }
}

#[test]
fn allocator_from_boot_information() {
    let mut allocator = frame_allocator(boot_info()).unwrap();
    assert_eq!(allocator.allocate_all(), 239);
}

#[test]
fn boot_faults() {
    let missing_map = BootInfo { memory_areas: None, elf_sections: None, ..boot_info() };
    assert_eq!(frame_allocator(missing_map).err(), Some(BootError::MissingMemoryMap));
    let missing_sections = BootInfo { elf_sections: None, ..boot_info() };
    assert_eq!(frame_allocator(missing_sections).err(), Some(BootError::MissingElfSections));
    let no_sections = BootInfo { elf_sections: Some(Vec::new()), ..boot_info() };
    assert_eq!(frame_allocator(no_sections).err(), Some(BootError::NoKernelSections));
    let section_overflow = BootInfo { elf_sections: Some(vec![section(u64::MAX, 2)]), ..boot_info() };
    assert_eq!(frame_allocator(section_overflow).err(), Some(BootError::AddressOverflow));
    let info_overflow = BootInfo { address: u64::MAX, ..boot_info() };
    assert_eq!(frame_allocator(info_overflow).err(), Some(BootError::AddressOverflow));
}
