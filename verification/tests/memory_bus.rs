use vmsh::bus::{MmioBus, MmioRange, Routing};
use vmsh::memslots::{GuestMem, Memslot, MemslotTable};
use vmsh::proc::Mapping;

fn ram_mapping(start: u64, end: u64, phys: u64) -> Mapping {
    Mapping {
        start,
        end,
        prot_flags: 3,
        map_flags: 1,
        offset: 0,
        pathname: String::from("/dev/shm/guest"),
        phys_addr: Some(phys),
    }
}

#[test]
fn importer_keeps_guest_ram_sorted() {
    let mappings = vec![
        ram_mapping(0x7f00_0000_2000, 0x7f00_0000_3000, 0x8000),
        Mapping { phys_addr: None, ..ram_mapping(0x500, 0x600, 0) },
        ram_mapping(0x7f00_0000_0000, 0x7f00_0000_2000, 0x1000),
    ];
    let t = MemslotTable::from_mappings(&mappings).expect("import must succeed");
    assert_eq!(t.slots.len(), 2);
    assert_eq!(t.slots[0].gpa_start, 0x1000);
    assert_eq!(t.slots[0].len, 0x2000);
    assert_eq!(t.slots[0].hva_start, 0x7f00_0000_0000);
    assert_eq!(t.slots[1].gpa_start, 0x8000);
}

#[test]
fn importer_rejects_overlapping_guest_ram() {
    let mappings = vec![
        ram_mapping(0x10000, 0x12000, 0x1000),
        ram_mapping(0x20000, 0x21000, 0x2000), // overlaps [0x1000, 0x3000)
    ];
    let e = MemslotTable::from_mappings(&mappings).expect_err("overlap must be rejected");
    assert_eq!(e.exit_code(), 1);
}

#[test]
fn translate_covers_exactly_or_refuses() {
    let t = MemslotTable {
        slots: vec![
            Memslot { gpa_start: 0x1000, len: 0x1000, hva_start: 0x100000 },
            Memslot { gpa_start: 0x2000, len: 0x1000, hva_start: 0x900000 },
        ],
    };
    // inside one slot
    assert_eq!(t.translate(0x1800, 8), Some(0x100800));
    // exactly to the slot's end
    assert_eq!(t.translate(0x1ff8, 8), Some(0x100ff8));
    // crossing the slot boundary: not translatable in one piece
    assert_eq!(t.translate(0x1ffc, 8), None);
    // unmapped space
    assert_eq!(t.translate(0x4000, 1), None);
}

#[test]
fn guest_memory_reads_and_writes_split_across_slots() {
    let t = MemslotTable {
        slots: vec![
            Memslot { gpa_start: 0x1000, len: 0x1000, hva_start: 0x100000 },
            Memslot { gpa_start: 0x2000, len: 0x1000, hva_start: 0x900000 },
        ],
    };
    let mut mem = GuestMem::new(t).expect("allocation must succeed");
    // A write crossing the 0x2000 slot boundary lands in both slots.
    let data = vec![1u8, 2, 3, 4, 5, 6, 7, 8];
    assert!(mem.write_bytes(0x1ffc, &data));
    let back = mem.read_bytes(0x1ffc, 8).expect("covered range must read");
    assert_eq!(back, data);
    // Unmapped addresses refuse, and refuse without changing anything.
    assert!(!mem.write_bytes(0x2ffc, &data)); // runs past the last slot
    assert_eq!(mem.read_bytes(0x2ffc, 8), None);
    assert_eq!(mem.read_bytes(0x0, 1), None);
    // The straddling write really changed only its own bytes.
    assert_eq!(mem.read_bytes(0x1ffb, 1).unwrap(), vec![0u8]);
}

#[test]
fn bus_routes_to_the_one_containing_range() {
    let mut bus = MmioBus::new();
    bus.register(MmioRange { base: 0xC000_0000, len: 0x1000 }, 0).expect("first registration");
    bus.register(MmioRange { base: 0xC000_2000, len: 0x1000 }, 1).expect("disjoint registration");
    match bus.dispatch(0xC000_0000) {
        Routing::Device { device, offset } => {
            assert_eq!(device, 0);
            assert_eq!(offset, 0);
        },
        Routing::Unserviced => panic!("address is registered"),
    }
    match bus.dispatch(0xC000_2ABC) {
        Routing::Device { device, offset } => {
            assert_eq!(device, 1);
            assert_eq!(offset, 0xABC);
        },
        Routing::Unserviced => panic!("address is registered"),
    }
}

#[test]
fn bus_reports_unmatched_addresses_unserviced() {
    let mut bus = MmioBus::new();
    bus.register(MmioRange { base: 0xC000_0000, len: 0x1000 }, 0).expect("registration");
    // One past the end of the window: nothing serves it.
    assert_eq!(bus.dispatch(0xC000_1000), Routing::Unserviced);
    assert_eq!(bus.dispatch(0xBFFF_FFFF), Routing::Unserviced);
}

#[test]
fn bus_rejects_overlap_and_supports_unregistration() {
    let mut bus = MmioBus::new();
    bus.register(MmioRange { base: 0x1000, len: 0x1000 }, 0).expect("registration");
    let e = bus.register(MmioRange { base: 0x1800, len: 0x1000 }, 1).expect_err("overlap");
    assert_eq!(e.exit_code(), 4);
    assert!(bus.unregister(0x1000));
    assert!(!bus.unregister(0x1000));
    bus.register(MmioRange { base: 0x1800, len: 0x1000 }, 1).expect("free again");
}

#[test]
fn importer_rejects_anonymous_guest_ram() {
    // Guest RAM without a backing file cannot be re-mapped for coherent DMA.
    let mappings = vec![Mapping {
        pathname: String::new(),
        ..ram_mapping(0x10000, 0x12000, 0x1000)
    }];
    let e = MemslotTable::from_mappings(&mappings).expect_err("anonymous RAM must be rejected");
    assert_eq!(e.exit_code(), 1);
}
