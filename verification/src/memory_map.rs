//! Boot memory descriptor reader.
//!
//! At boot exactly one of three mutually exclusive memory-map formats
//! describes the machine's physical memory: a firmware map obtained by
//! exiting the firmware's boot services, a generic bootloader map, or an
//! already-exited firmware map handed over by the bootloader. Whoever owns
//! the boot tags reads them and hands this module plain descriptor records;
//! this module picks, from the highest-priority format present, the single
//! largest usable entry and turns it into the physical region the kernel
//! heap is built over.

use vstd::prelude::*;

verus! {

/// The fixed signature the bootloader hands over next to the boot
/// information pointer; any other value means the boot record is not
/// trustworthy and bring-up must stop.
pub const BOOT_MAGIC: u32 = 0x36d76289;

/// Firmware memory type of usable ("conventional") memory.
pub const CONVENTIONAL_MEMORY: u32 = 7;

/// Size in bytes of one firmware memory-map page.
pub const FIRMWARE_PAGE_SIZE: u64 = 0x1000;

/// A contiguous range of physical memory addresses reported usable by boot
/// firmware or the bootloader. The range runs from `start` to `end`; whether
/// `end` is the last byte or one past it follows the format the region was
/// read from, and the allocator initializer accepts whichever is given.
#[derive(Clone, Copy, PartialEq, Eq, Structural, Debug)]
pub struct PhysRegion {
    pub start: u64,
    pub end: u64,
}

impl PhysRegion {
    /// A region never runs backwards.
    pub open spec fn wf(self) -> bool {
        self.start <= self.end
    }
}

/// One entry of a firmware memory map: `page_count` pages of
/// `FIRMWARE_PAGE_SIZE` bytes starting at physical address `phys_start`,
/// of memory type `ty`.
#[derive(Clone, Copy, PartialEq, Eq, Structural, Debug)]
pub struct FirmwareMapEntry {
    pub ty: u32,
    pub phys_start: u64,
    pub page_count: u64,
}

/// The kinds of memory area a generic bootloader memory map reports.
#[derive(Clone, Copy, PartialEq, Eq, Structural, Debug)]
pub enum BootloaderAreaKind {
    /// Usable memory.
    Available,
    /// Memory reserved by the platform.
    Reserved,
    /// Memory holding ACPI tables, reclaimable once they are parsed.
    AcpiAvailable,
    /// Memory that must be preserved across hibernation.
    ReservedHibernate,
    /// Memory reported defective.
    Defective,
    /// A type this kernel does not know; never usable.
    Custom(u32),
}

/// One area of a generic bootloader memory map: the half-open byte range
/// `start_address .. end_address`.
#[derive(Clone, Copy, PartialEq, Eq, Structural, Debug)]
pub struct BootloaderMapArea {
    pub kind: BootloaderAreaKind,
    pub start_address: u64,
    pub end_address: u64,
}

/// A firmware entry describes addresses representable in 64 bits: the byte
/// one past its last page does not overflow the address width.
pub open spec fn firmware_entry_wf(e: FirmwareMapEntry) -> bool {
    e.phys_start + e.page_count * FIRMWARE_PAGE_SIZE <= u64::MAX + 1
}

/// A firmware entry the heap may be built over: conventional memory that
/// spans at least one page (an entry of zero pages describes no memory).
pub open spec fn firmware_entry_usable(e: FirmwareMapEntry) -> bool {
    e.ty == CONVENTIONAL_MEMORY && e.page_count >= 1
}

/// A bootloader area never runs backwards.
pub open spec fn bootloader_area_wf(a: BootloaderMapArea) -> bool {
    a.start_address <= a.end_address
}

/// A bootloader area the heap may be built over.
pub open spec fn bootloader_area_usable(a: BootloaderMapArea) -> bool {
    a.kind is Available
}

/// Size in bytes of a bootloader area.
pub open spec fn bootloader_area_size(a: BootloaderMapArea) -> int {
    a.end_address - a.start_address
}

/// The physical region described by a usable firmware entry; `end` is the
/// entry's last byte (inclusive).
pub open spec fn firmware_entry_region(e: FirmwareMapEntry) -> PhysRegion {
    PhysRegion {
        start: e.phys_start,
        end: (e.phys_start + e.page_count * FIRMWARE_PAGE_SIZE - 1) as u64,
    }
}

/// The physical region described by a bootloader area, bounds taken as
/// given.
pub open spec fn bootloader_area_region(a: BootloaderMapArea) -> PhysRegion {
    PhysRegion { start: a.start_address, end: a.end_address }
}

/// Entry `i` is the selection the reader owes: usable, of maximal size, and
/// the first entry of that size (a strictly greater size replaces the
/// current best; an equal size keeps the first found).
pub open spec fn firmware_first_largest(s: Seq<FirmwareMapEntry>, i: int) -> bool {
    &&& 0 <= i < s.len()
    &&& firmware_entry_usable(s[i])
    &&& forall|j: int| 0 <= j < s.len() && firmware_entry_usable(s[j]) ==> s[j].page_count <= s[i].page_count
    &&& forall|j: int| 0 <= j < i && firmware_entry_usable(s[j]) ==> s[j].page_count < s[i].page_count
}

/// Area `i` is the selection the reader owes from a bootloader map.
pub open spec fn bootloader_first_largest(s: Seq<BootloaderMapArea>, i: int) -> bool {
    &&& 0 <= i < s.len()
    &&& bootloader_area_usable(s[i])
    &&& forall|j: int| 0 <= j < s.len() && bootloader_area_usable(s[j]) ==> bootloader_area_size(s[j]) <= bootloader_area_size(s[i])
    &&& forall|j: int| 0 <= j < i && bootloader_area_usable(s[j]) ==> bootloader_area_size(s[j]) < bootloader_area_size(s[i])
}

/// No entry of a firmware map is usable.
pub open spec fn firmware_none_usable(s: Seq<FirmwareMapEntry>) -> bool {
    forall|i: int| 0 <= i < s.len() ==> !firmware_entry_usable(s[i])
}

/// No area of a bootloader map is usable.
pub open spec fn bootloader_none_usable(s: Seq<BootloaderMapArea>) -> bool {
    forall|i: int| 0 <= i < s.len() ==> !bootloader_area_usable(s[i])
}

/// A fatal bring-up failure of the boot memory descriptor reader: there is
/// no safe continuation, and the caller halts with a diagnostic.
#[derive(Clone, Copy, PartialEq, Eq, Structural, Debug)]
pub enum BootError {
    /// The boot signature next to the boot information pointer is wrong.
    InvalidMagic,
    /// None of the three memory-map formats is present.
    NoMemoryMap,
    /// The highest-priority map present holds no usable entry.
    NoUsableRegion,
}

/// The memory-map formats found in the boot information, gathered by the
/// caller before region selection. `firmware_exit_map` is the map returned
/// by exiting the firmware's boot services, present exactly when those
/// services were still active; `bootloader_map` is the generic bootloader
/// map; `firmware_map` is an already-exited firmware map handed over by the
/// bootloader.
pub struct MemoryMapSources {
    pub firmware_exit_map: Option<Vec<FirmwareMapEntry>>,
    pub bootloader_map: Option<Vec<BootloaderMapArea>>,
    pub firmware_map: Option<Vec<FirmwareMapEntry>>,
}

impl MemoryMapSources {
    /// Every entry of every map present describes representable addresses.
    pub open spec fn wf(self) -> bool {
        &&& self.firmware_exit_map matches Some(m) ==> forall|i: int| 0 <= i < m@.len() ==> firmware_entry_wf(#[trigger] m@[i])
        &&& self.bootloader_map matches Some(m) ==> forall|i: int| 0 <= i < m@.len() ==> bootloader_area_wf(#[trigger] m@[i])
        &&& self.firmware_map matches Some(m) ==> forall|i: int| 0 <= i < m@.len() ==> firmware_entry_wf(#[trigger] m@[i])
    }

    /// The selection the reader owes for a firmware map: the first largest
    /// usable entry's region, or a fatal error when nothing is usable.
    pub open spec fn firmware_outcome(s: Seq<FirmwareMapEntry>, r: Result<PhysRegion, BootError>) -> bool {
        &&& (r matches Ok(region) ==> exists|i: int|
            #[trigger] firmware_first_largest(s, i) && region == firmware_entry_region(s[i]))
        &&& (r matches Err(e) ==> e == BootError::NoUsableRegion && firmware_none_usable(s))
        &&& (r is Err <==> firmware_none_usable(s))
    }

    /// The selection the reader owes for a bootloader map.
    pub open spec fn bootloader_outcome(s: Seq<BootloaderMapArea>, r: Result<PhysRegion, BootError>) -> bool {
        &&& (r matches Ok(region) ==> exists|i: int|
            #[trigger] bootloader_first_largest(s, i) && region == bootloader_area_region(s[i]))
        &&& (r matches Err(e) ==> e == BootError::NoUsableRegion && bootloader_none_usable(s))
        &&& (r is Err <==> bootloader_none_usable(s))
    }
}

/// Picks the physical region the heap is built over, from the
/// highest-priority memory-map format present: the map obtained by exiting
/// firmware boot services first, else the generic bootloader map, else the
/// already-exited firmware map. Fails fatally when no format is present or
/// the chosen map holds no usable entry.
pub fn select_heap_region(sources: &MemoryMapSources) -> (r: Result<PhysRegion, BootError>)
    requires
        sources.wf(),
    ensures
        sources.firmware_exit_map matches Some(m) ==> MemoryMapSources::firmware_outcome(m@, r),
        sources.firmware_exit_map is None ==> (sources.bootloader_map matches Some(m)
            ==> MemoryMapSources::bootloader_outcome(m@, r)),
        sources.firmware_exit_map is None && sources.bootloader_map is None
            ==> (sources.firmware_map matches Some(m) ==> MemoryMapSources::firmware_outcome(m@, r)),
        sources.firmware_exit_map is None && sources.bootloader_map is None
            && sources.firmware_map is None ==> r == Result::<PhysRegion, BootError>::Err(BootError::NoMemoryMap),
        r matches Ok(region) ==> region.wf(),
{
    if let Some(entries) = &sources.firmware_exit_map {
        match select_largest_firmware_region(entries) {
            Some(region) => Ok(region),
            None => Err(BootError::NoUsableRegion),
        }
    } else if let Some(areas) = &sources.bootloader_map {
        match select_largest_bootloader_region(areas) {
            Some(region) => Ok(region),
            None => Err(BootError::NoUsableRegion),
        }
    } else if let Some(entries) = &sources.firmware_map {
        match select_largest_firmware_region(entries) {
            Some(region) => Ok(region),
            None => Err(BootError::NoUsableRegion),
        }
    } else {
        Err(BootError::NoMemoryMap)
    }
}

/// Checks the boot signature handed over next to the boot information
/// pointer. A mismatch means the boot record can not be trusted; the caller
/// halts on it, since there is no safe continuation.
pub fn check_boot_magic(magic: u32) -> (r: Result<(), BootError>)
    ensures
        r is Ok <==> magic == BOOT_MAGIC,
        r is Err <==> magic != BOOT_MAGIC && r == Result::<(), BootError>::Err(
            BootError::InvalidMagic,
        ),
{
    if magic == BOOT_MAGIC {
        Ok(())
    } else {
        Err(BootError::InvalidMagic)
    }
}

/// Scans a firmware memory map for the largest run of conventional memory.
/// Returns the region of the first entry of maximal page count, or `None`
/// when no entry is usable.
pub fn select_largest_firmware_region(entries: &Vec<FirmwareMapEntry>) -> (r: Option<PhysRegion>)
    requires
        forall|i: int| 0 <= i < entries@.len() ==> firmware_entry_wf(#[trigger] entries@[i]),
    ensures
        r is None <==> firmware_none_usable(entries@),
        r matches Some(region) ==> exists|i: int|
            #[trigger] firmware_first_largest(entries@, i) && region == firmware_entry_region(entries@[i]),
        r matches Some(region) ==> region.wf(),
{
    let mut best: Option<usize> = None;
    let mut k: usize = 0;
    while k < entries.len()
        invariant
            forall|i: int| 0 <= i < entries@.len() ==> firmware_entry_wf(#[trigger] entries@[i]),
            k <= entries@.len(),
            best is None ==> forall|i: int| 0 <= i < k ==> !firmware_entry_usable(#[trigger] entries@[i]),
            best matches Some(b) ==> {
                &&& 0 <= b < k
                &&& firmware_entry_usable(entries@[b as int])
                &&& forall|j: int| 0 <= j < k && firmware_entry_usable(#[trigger] entries@[j]) ==> entries@[j].page_count <= entries@[b as int].page_count
                &&& forall|j: int| 0 <= j < b && firmware_entry_usable(#[trigger] entries@[j]) ==> entries@[j].page_count < entries@[b as int].page_count
            },
        decreases entries@.len() - k,
    {
        let e = entries[k];
        if e.ty == CONVENTIONAL_MEMORY && e.page_count >= 1 {
            match best {
                None => {
                    best = Some(k);
                }
                Some(b) => {
                    if e.page_count > entries[b].page_count {
                        best = Some(k);
                    }
                }
            }
        }
        k = k + 1;
    }
    match best {
        None => None,
        Some(b) => {
            assert(firmware_first_largest(entries@, b as int));
            let e = entries[b];
            let end: u64 = e.phys_start + ((e.page_count - 1) * FIRMWARE_PAGE_SIZE + 0xfff);
            assert(end == firmware_entry_region(entries@[b as int]).end);
            Some(PhysRegion { start: e.phys_start, end })
        }
    }
}

/// Scans a generic bootloader memory map for the largest area flagged
/// available. Returns the region of the first area of maximal size, or
/// `None` when no area is usable.
pub fn select_largest_bootloader_region(areas: &Vec<BootloaderMapArea>) -> (r: Option<PhysRegion>)
    requires
        forall|i: int| 0 <= i < areas@.len() ==> bootloader_area_wf(#[trigger] areas@[i]),
    ensures
        r is None <==> bootloader_none_usable(areas@),
        r matches Some(region) ==> exists|i: int|
            #[trigger] bootloader_first_largest(areas@, i) && region == bootloader_area_region(areas@[i]),
        r matches Some(region) ==> region.wf(),
{
    let mut best: Option<usize> = None;
    let mut k: usize = 0;
    while k < areas.len()
        invariant
            forall|i: int| 0 <= i < areas@.len() ==> bootloader_area_wf(#[trigger] areas@[i]),
            k <= areas@.len(),
            best is None ==> forall|i: int| 0 <= i < k ==> !bootloader_area_usable(#[trigger] areas@[i]),
            best matches Some(b) ==> {
                &&& 0 <= b < k
                &&& bootloader_area_usable(areas@[b as int])
                &&& forall|j: int| 0 <= j < k && bootloader_area_usable(#[trigger] areas@[j]) ==> bootloader_area_size(areas@[j]) <= bootloader_area_size(areas@[b as int])
                &&& forall|j: int| 0 <= j < b && bootloader_area_usable(#[trigger] areas@[j]) ==> bootloader_area_size(areas@[j]) < bootloader_area_size(areas@[b as int])
            },
        decreases areas@.len() - k,
    {
        let a = areas[k];
        let usable = match a.kind {
            BootloaderAreaKind::Available => true,
            _ => false,
        };
        if usable {
            match best {
                None => {
                    best = Some(k);
                }
                Some(b) => {
                    let cur = areas[b];
                    if a.end_address - a.start_address > cur.end_address - cur.start_address {
                        best = Some(k);
                    }
                }
            }
        }
        k = k + 1;
    }
    match best {
        None => None,
        Some(b) => {
            assert(bootloader_first_largest(areas@, b as int));
            let a = areas[b];
            Some(PhysRegion { start: a.start_address, end: a.end_address })
        }
    }
}

} // verus!
