//! From what the boot loader reports to a frame allocator: the range of the
//! kernel image, the range of the boot information itself, and the checks
//! that both can be told at all.

use vstd::prelude::*;
use crate::memory::{AreaFrameAllocator, MemoryArea, ReservedRange};

verus! {

/// One section of the loaded kernel image.
#[derive(Clone, Copy, Debug, PartialEq, Eq, Structural)]
pub struct ElfSection {
    pub addr: u64,
    pub size: u64,
    pub flags: u64,
}

impl ElfSection {
    /// The address just past the section.
    pub open spec fn end(self) -> int {
        self.addr + self.size
    }
}

/// What the boot loader handed over, as plain values. A part that the boot
/// loader left out is `None`.
pub struct BootInfo {
    pub address: u64,
    pub total_size: u32,
    pub memory_areas: Option<Vec<MemoryArea>>,
    pub elf_sections: Option<Vec<ElfSection>>,
}

/// Why no allocator can be set up from the boot information.
#[derive(Clone, Copy, Debug, PartialEq, Eq, Structural)]
pub enum BootError {
    /// The boot loader gave no memory map.
    MissingMemoryMap,
    /// The boot loader gave no list of kernel sections.
    MissingElfSections,
    /// The list of kernel sections is empty.
    NoKernelSections,
    /// A section or the boot information ends past the last address.
    AddressOverflow,
}

/// Every section ends inside the address space.
pub open spec fn sections_fit(sections: Seq<ElfSection>) -> bool {
    forall|i: int| 0 <= i < sections.len() ==> (#[trigger] sections[i]).end() <= u64::MAX
}

/// `range` is the smallest range that holds every section: it starts where
/// the lowest section starts and ends where the highest one ends.
pub open spec fn spans(range: ReservedRange, sections: Seq<ElfSection>) -> bool {
    &&& forall|i: int| 0 <= i < sections.len() ==> range.start <= (#[trigger] sections[i]).addr
    &&& forall|i: int| 0 <= i < sections.len() ==> (#[trigger] sections[i]).end() <= range.end
    &&& exists|i: int| 0 <= i < sections.len() && (#[trigger] sections[i]).addr == range.start
    &&& exists|i: int| 0 <= i < sections.len() && (#[trigger] sections[i]).end() == range.end
}

/// The range of the kernel image: from the lowest start of a section to the
/// highest end of one. There is none for an empty list, nor where a section
/// ends past the last address.
pub fn kernel_range(sections: &Vec<ElfSection>) -> (range: Option<ReservedRange>)
    ensures
        range is Some <==> sections@.len() > 0 && sections_fit(sections@),
        range is Some ==> spans(range->Some_0, sections@),
{
    if sections.len() == 0 {
        return None;
    }
    let first = sections[0];
    if first.size > u64::MAX - first.addr {
        assert(first.end() > u64::MAX);
        return None;
    }
    let mut start: u64 = first.addr;
    let mut end: u64 = first.addr + first.size;
    let mut i: usize = 1;
    proof {
        assert(sections@.take(1)[0] == first);
    }
    while i < sections.len()
        invariant
            1 <= i <= sections@.len(),
            sections_fit(sections@.take(i as int)),
            spans(ReservedRange { start, end }, sections@.take(i as int)),
        decreases sections@.len() - i,
    {
        let section = sections[i];
        if section.size > u64::MAX - section.addr {
            assert(sections@[i as int].end() > u64::MAX);
            return None;
        }
        let ghost before = ReservedRange { start, end };
        let ghost low = choose|k: int| 0 <= k < i && (#[trigger] sections@.take(i as int)[k]).addr == start;
        let ghost high = choose|k: int| 0 <= k < i && (#[trigger] sections@.take(i as int)[k]).end() == end;
        if section.addr < start {
            start = section.addr;
        }
        if section.addr + section.size > end {
            end = section.addr + section.size;
        }
        proof {
            let grown = sections@.take(i + 1);
            let range = ReservedRange { start, end };
            assert forall|k: int| 0 <= k < grown.len() implies (#[trigger] grown[k]).end() <= u64::MAX
                && range.start <= grown[k].addr && grown[k].end() <= range.end by {
                if k < i {
                    assert(grown[k] == sections@.take(i as int)[k]);
                }
            }
            assert(grown[low] == sections@.take(i as int)[low]);
            assert(grown[high] == sections@.take(i as int)[high]);
            if section.addr < before.start {
                assert(grown[i as int].addr == range.start);
            } else {
                assert(grown[low].addr == range.start);
            }
            if section.addr + section.size > before.end {
                assert(grown[i as int].end() == range.end);
            } else {
                assert(grown[high].end() == range.end);
            }
        }
        i += 1;
    }
    proof {
        assert(sections@.take(i as int) =~= sections@);
    }
    Some(ReservedRange { start, end })
}

/// The range of the boot information: `total_size` bytes from `address`.
/// There is none where it would end past the last address.
pub fn boot_info_range(address: u64, total_size: u32) -> (range: Option<ReservedRange>)
    ensures
        range is Some <==> address + total_size <= u64::MAX,
        range is Some ==> range->Some_0.start == address && range->Some_0.end == address + total_size,
{
    let size: u64 = total_size as u64;
    if size > u64::MAX - address {
        None
    } else {
        Some(ReservedRange { start: address, end: address + size })
    }
}

/// The error, if any, that stops an allocator from being set up: the first
/// of the four that applies, in the order of their declaration.
pub open spec fn boot_fault(info: BootInfo) -> Option<BootError> {
    if info.memory_areas is None {
        Some(BootError::MissingMemoryMap)
    } else if info.elf_sections is None {
        Some(BootError::MissingElfSections)
    } else if info.elf_sections->Some_0@.len() == 0 {
        Some(BootError::NoKernelSections)
    } else if !sections_fit(info.elf_sections->Some_0@) || info.address + info.total_size > u64::MAX {
        Some(BootError::AddressOverflow)
    } else {
        None
    }
}

/// A frame allocator over the memory areas that the boot loader reported,
/// clear of the kernel image and of the boot information.
pub fn frame_allocator(info: BootInfo) -> (result: Result<AreaFrameAllocator, BootError>)
    ensures
        match result {
            Ok(allocator) => {
                &&& boot_fault(info) is None
                &&& spans(allocator@.kernel, info.elf_sections->Some_0@)
                &&& allocator@.multiboot.start == info.address
                &&& allocator@.multiboot.end == info.address + info.total_size
                &&& allocator@.starts_from(
                    info.memory_areas->Some_0@,
                    allocator@.kernel,
                    allocator@.multiboot,
                )
            },
            Err(error) => boot_fault(info) == Some(error),
        },
{
    let BootInfo { address, total_size, memory_areas, elf_sections } = info;
    let areas = match memory_areas {
        Some(areas) => areas,
        None => {
            return Err(BootError::MissingMemoryMap);
        },
    };
    let sections = match elf_sections {
        Some(sections) => sections,
        None => {
            return Err(BootError::MissingElfSections);
        },
    };
    if sections.len() == 0 {
        return Err(BootError::NoKernelSections);
    }
    let kernel = match kernel_range(&sections) {
        Some(range) => range,
        None => {
            return Err(BootError::AddressOverflow);
        },
    };
    let multiboot = match boot_info_range(address, total_size) {
        Some(range) => range,
        None => {
            return Err(BootError::AddressOverflow);
        },
    };
    Ok(AreaFrameAllocator::new(kernel.start, kernel.end, multiboot.start, multiboot.end, areas))
}

} // verus!
