use kernel_boot::memory_map::{
    check_boot_magic, select_heap_region, select_largest_bootloader_region,
    select_largest_firmware_region, BootError, BootloaderAreaKind, BootloaderMapArea,
    FirmwareMapEntry, MemoryMapSources, PhysRegion, BOOT_MAGIC, CONVENTIONAL_MEMORY,
};

fn fw(ty: u32, phys_start: u64, page_count: u64) -> FirmwareMapEntry {
    FirmwareMapEntry { ty, phys_start, page_count }
}

fn bl(kind: BootloaderAreaKind, start_address: u64, end_address: u64) -> BootloaderMapArea {
    BootloaderMapArea { kind, start_address, end_address }
}

#[test]
fn magic_is_checked_against_the_fixed_signature() {
    assert_eq!(check_boot_magic(BOOT_MAGIC), Ok(()));
    assert_eq!(check_boot_magic(0x36d76289), Ok(()));
    assert_eq!(check_boot_magic(0), Err(BootError::InvalidMagic));
    assert_eq!(check_boot_magic(0x2badb002), Err(BootError::InvalidMagic));
}

#[test]
fn firmware_selection_takes_largest_conventional_entry() {
    // reserved entries are bigger but only conventional ones count
    let entries = vec![
        fw(0, 0x0, 0x10000),
        fw(CONVENTIONAL_MEMORY, 0x100000, 0x100),
        fw(2, 0x500000, 0x9000),
        fw(CONVENTIONAL_MEMORY, 0x400000, 0x200),
        fw(CONVENTIONAL_MEMORY, 0x900000, 0x80),
    ];
    let region = select_largest_firmware_region(&entries).unwrap();
    assert_eq!(region.start, 0x400000);
    assert_eq!(region.end, 0x400000 + 0x200 * 0x1000 - 1);
}

#[test]
fn firmware_selection_keeps_first_of_equal_size() {
    let entries = vec![
        fw(CONVENTIONAL_MEMORY, 0x200000, 0x300),
        fw(CONVENTIONAL_MEMORY, 0x700000, 0x300),
    ];
    let region = select_largest_firmware_region(&entries).unwrap();
    assert_eq!(region.start, 0x200000);
}

#[test]
fn firmware_selection_fails_with_nothing_usable() {
    assert_eq!(select_largest_firmware_region(&Vec::new()), None);
    let entries = vec![fw(0, 0x0, 0x100), fw(4, 0x100000, 0x100), fw(CONVENTIONAL_MEMORY, 0x0, 0)];
    assert_eq!(select_largest_firmware_region(&entries), None);
}

#[test]
fn bootloader_selection_takes_largest_available_area() {
    let areas = vec![
        bl(BootloaderAreaKind::Reserved, 0x0, 0x9fc00),
        bl(BootloaderAreaKind::Available, 0x100000, 0x200000),
        bl(BootloaderAreaKind::Available, 0x400000, 0x800000),
        bl(BootloaderAreaKind::Defective, 0x800000, 0xf00000),
        bl(BootloaderAreaKind::Custom(21), 0xf00000, 0xf10000),
    ];
    let region = select_largest_bootloader_region(&areas).unwrap();
    assert_eq!(region, PhysRegion { start: 0x400000, end: 0x800000 });
}

#[test]
fn bootloader_selection_keeps_first_of_equal_size() {
    let areas = vec![
        bl(BootloaderAreaKind::Available, 0x100000, 0x300000),
        bl(BootloaderAreaKind::Available, 0x500000, 0x700000),
    ];
    let region = select_largest_bootloader_region(&areas).unwrap();
    assert_eq!(region.start, 0x100000);
}

#[test]
fn bootloader_selection_fails_with_nothing_available() {
    let areas = vec![bl(BootloaderAreaKind::AcpiAvailable, 0x0, 0x1000)];
    assert_eq!(select_largest_bootloader_region(&areas), None);
}

#[test]
fn region_selection_prefers_the_firmware_exit_map() {
    let sources = MemoryMapSources {
        firmware_exit_map: Some(vec![fw(CONVENTIONAL_MEMORY, 0x100000, 0x10)]),
        bootloader_map: Some(vec![bl(BootloaderAreaKind::Available, 0x0, 0xffffffff)]),
        firmware_map: Some(vec![fw(CONVENTIONAL_MEMORY, 0x0, 0xffff)]),
    };
    let region = select_heap_region(&sources).unwrap();
    assert_eq!(region, PhysRegion { start: 0x100000, end: 0x10ffff });
}

#[test]
fn region_selection_falls_back_to_the_bootloader_map() {
    let sources = MemoryMapSources {
        firmware_exit_map: None,
        bootloader_map: Some(vec![
            bl(BootloaderAreaKind::Reserved, 0x0, 0x1000),
            bl(BootloaderAreaKind::Available, 0x200000, 0x600000),
        ]),
        firmware_map: Some(vec![fw(CONVENTIONAL_MEMORY, 0x0, 0xffff)]),
    };
    let region = select_heap_region(&sources).unwrap();
    assert_eq!(region, PhysRegion { start: 0x200000, end: 0x600000 });
}

#[test]
fn region_selection_falls_back_to_the_exited_firmware_map() {
    let sources = MemoryMapSources {
        firmware_exit_map: None,
        bootloader_map: None,
        firmware_map: Some(vec![
            fw(CONVENTIONAL_MEMORY, 0x7000, 0x2),
            fw(CONVENTIONAL_MEMORY, 0x9000, 0x8),
        ]),
    };
    let region = select_heap_region(&sources).unwrap();
    assert_eq!(region, PhysRegion { start: 0x9000, end: 0x9000 + 0x8 * 0x1000 - 1 });
}

#[test]
fn region_selection_fails_fatally_without_any_map() {
    let sources = MemoryMapSources {
        firmware_exit_map: None,
        bootloader_map: None,
        firmware_map: None,
    };
    assert_eq!(select_heap_region(&sources), Err(BootError::NoMemoryMap));
}

#[test]
fn region_selection_fails_fatally_with_nothing_usable() {
    let sources = MemoryMapSources {
        firmware_exit_map: Some(vec![fw(0, 0x0, 0x100)]),
        bootloader_map: Some(vec![bl(BootloaderAreaKind::Available, 0x0, 0x10000000)]),
        firmware_map: None,
    };
    assert_eq!(select_heap_region(&sources), Err(BootError::NoUsableRegion));
}
