use vmsh::bus::MmioBus;
use vmsh::device::{
    execute_request, le16, le32_bytes, le64, BlockBackend, BlockRequest, DescEntry, Device,
    MMIO_IRQ, MMIO_MEM_START, REG_CONFIG, REG_DEVICE_FEATURES, REG_DEVICE_ID, REG_MAGIC,
    REG_QUEUE_AVAIL_LOW, REG_QUEUE_DESC_LOW, REG_QUEUE_NOTIFY, REG_QUEUE_NUM, REG_QUEUE_READY,
    REG_QUEUE_USED_LOW, REG_STATUS, REG_VERSION, VIRTIO_BLK_S_OK, VIRTIO_BLK_T_IN,
    VIRTIO_BLK_T_OUT,
};
use vmsh::memslots::{GuestMem, Memslot, MemslotTable};

fn small_guest_mem() -> GuestMem {
    let t = MemslotTable {
        slots: vec![Memslot { gpa_start: 0x1000, len: 0x3000, hva_start: 0x7f00_0000_0000 }],
    };
    GuestMem::new(t).expect("allocation")
}

fn hello_disk() -> BlockBackend {
    let mut data = vec![0u8; 1024]; // two sectors
    data[0] = b'h';
    data[1] = b'e';
    data[2] = b'l';
    data[3] = b'l';
    data[4] = b'o';
    BlockBackend { data }
}

/// Writes one 16-byte descriptor into the table at `desc_addr`.
fn poke_desc(mem: &mut GuestMem, desc_addr: u64, idx: u16, d: &DescEntry) {
    let mut bytes = Vec::new();
    for i in 0..8 {
        bytes.push(((d.addr >> (8 * i)) & 0xff) as u8);
    }
    for i in 0..4 {
        bytes.push(((d.len >> (8 * i)) & 0xff) as u8);
    }
    bytes.push((d.flags & 0xff) as u8);
    bytes.push((d.flags >> 8) as u8);
    bytes.push((d.next & 0xff) as u8);
    bytes.push((d.next >> 8) as u8);
    assert!(mem.write_bytes(desc_addr + 16 * idx as u64, &bytes));
}

/// Lays out a one-request available ring and a read request for sector 0.
fn stage_read_request(mem: &mut GuestMem) {
    // header descriptor -> data descriptor -> status descriptor
    poke_desc(mem, 0x1000, 0, &DescEntry { addr: 0x2000, len: 16, flags: 1, next: 1 });
    poke_desc(mem, 0x1000, 1, &DescEntry { addr: 0x2100, len: 512, flags: 1 | 2, next: 2 });
    poke_desc(mem, 0x1000, 2, &DescEntry { addr: 0x2300, len: 1, flags: 2, next: 0 });
    // request header: type IN (0), sector 0
    let header = vec![0u8; 16];
    assert!(mem.write_bytes(0x2000, &header));
    // avail ring: flags 0, idx 1, ring[0] = 0
    let avail = vec![0u8, 0, 1, 0, 0, 0];
    assert!(mem.write_bytes(0x1100, &avail));
}

#[test]
fn register_file_reads_the_virtio_layout() {
    let mut bus = MmioBus::new();
    let dev = Device::new(&mut bus, hello_disk(), false, true, true).expect("device");
    assert_eq!(dev.mmio_start, MMIO_MEM_START);
    assert_eq!(MMIO_MEM_START, 0xC000_0000);
    assert_eq!(dev.irq, MMIO_IRQ);
    assert!(dev.block.root_device); // marked as the guest's root disk
    assert_eq!(dev.block.read_reg(REG_MAGIC), 0x74726976);
    assert_eq!(dev.block.read_reg(REG_VERSION), 2);
    assert_eq!(dev.block.read_reg(REG_DEVICE_ID), 2);
    // capacity: 1024 bytes = 2 sectors, low half of the config space
    assert_eq!(dev.block.read_reg(REG_CONFIG), 2);
    assert_eq!(dev.block.read_reg(REG_CONFIG + 4), 0);
    // flush advertised (bit 9), not read-only (bit 5 clear)
    let feats = dev.block.read_reg(REG_DEVICE_FEATURES);
    assert_eq!(feats & (1 << 9), 1 << 9);
    assert_eq!(feats & (1 << 5), 0);
}

#[test]
fn read_only_device_advertises_ro_and_refuses_writes() {
    let mut bus = MmioBus::new();
    let dev = Device::new(&mut bus, hello_disk(), true, false, false).expect("device");
    let feats = dev.block.read_reg(REG_DEVICE_FEATURES);
    assert_eq!(feats & (1 << 5), 1 << 5);
    assert!(!dev.block.root_device);
    let mut mem = small_guest_mem();
    let mut disk = hello_disk();
    let req = BlockRequest {
        rtype: VIRTIO_BLK_T_OUT,
        sector: 0,
        data: Some(DescEntry { addr: 0x2100, len: 512, flags: 0, next: 0 }),
        status_addr: 0x2300,
    };
    let (status, _) = execute_request(&req, true, &mut mem, &mut disk);
    assert_eq!(status, 1); // IOERR, the store is read-only
}

#[test]
fn status_machine_follows_the_bring_up_order() {
    let mut bus = MmioBus::new();
    let mut dev = Device::new(&mut bus, hello_disk(), false, true, true).expect("device");
    assert_eq!(dev.block.status, 0);
    dev.block.write_reg(REG_STATUS, 1); // ACKNOWLEDGE
    dev.block.write_reg(REG_STATUS, 3); // +DRIVER
    dev.block.write_reg(REG_STATUS, 11); // +FEATURES_OK
    dev.block.write_reg(REG_STATUS, 15); // +DRIVER_OK
    assert_eq!(dev.block.status, 15);
    // zero resets
    dev.block.write_reg(REG_STATUS, 0);
    assert_eq!(dev.block.status, 0);
    // skipping a step fails the device
    dev.block.write_reg(REG_STATUS, 15);
    assert_eq!(dev.block.status & 128, 128);
}

#[test]
fn block_read_serves_hello_from_sector_zero() {
    let mut bus = MmioBus::new();
    let mut dev = Device::new(&mut bus, hello_disk(), false, true, true).expect("device");
    let mut mem = small_guest_mem();
    stage_read_request(&mut mem);
    // queue setup as the driver would do it over registers
    dev.block.write_reg(REG_QUEUE_NUM, 4);
    dev.block.write_reg(REG_QUEUE_DESC_LOW, 0x1000);
    dev.block.write_reg(REG_QUEUE_AVAIL_LOW, 0x1100);
    dev.block.write_reg(REG_QUEUE_USED_LOW, 0x1200);
    dev.block.write_reg(REG_QUEUE_READY, 1);
    assert!(dev.block.write_reg(REG_QUEUE_NOTIFY, 0));
    let (served, interrupt) = dev.process_notify(&mut mem).expect("notify");
    assert_eq!(served, 1);
    assert!(interrupt);
    assert_eq!(dev.block.interrupt_status, 1);
    // the 512 bytes at the data descriptor begin with "hello"
    let got = mem.read_bytes(0x2100, 5).expect("data buffer");
    assert_eq!(got, b"hello".to_vec());
    // the status byte is OK and the used ring advanced
    assert_eq!(mem.read_bytes(0x2300, 1).unwrap(), vec![VIRTIO_BLK_S_OK]);
    let used_idx_bytes = mem.read_bytes(0x1202, 2).unwrap();
    assert_eq!(le16(&used_idx_bytes, 0), 1);
    // used element 0 names the chain head and the bytes written
    let elem = mem.read_bytes(0x1204, 8).unwrap();
    assert_eq!(elem[0], 0);
    assert_eq!(elem[4], 0); // 512 & 0xff
    assert_eq!(elem[5], 2); // 512 >> 8
}

#[test]
fn idle_or_unready_queue_serves_nothing() {
    let mut bus = MmioBus::new();
    let mut dev = Device::new(&mut bus, hello_disk(), false, true, true).expect("device");
    let mut mem = small_guest_mem();
    let (served, interrupt) = dev.process_notify(&mut mem).expect("not ready");
    assert_eq!((served, interrupt), (0, false));
}

#[test]
fn write_then_read_round_trip() {
    let mut mem = small_guest_mem();
    let mut disk = BlockBackend { data: vec![0u8; 4 * 512] };
    // a recognisable pattern of two sectors in guest memory
    let mut pattern = Vec::new();
    for i in 0..1024u32 {
        pattern.push((i % 251) as u8);
    }
    assert!(mem.write_bytes(0x2000, &pattern));
    let wreq = BlockRequest {
        rtype: VIRTIO_BLK_T_OUT,
        sector: 1,
        data: Some(DescEntry { addr: 0x2000, len: 1024, flags: 0, next: 0 }),
        status_addr: 0x3000,
    };
    let (status, _) = execute_request(&wreq, false, &mut mem, &mut disk);
    assert_eq!(status, VIRTIO_BLK_S_OK);
    // wipe the guest buffer, then read the same sectors back into it
    let zeros = vec![0u8; 1024];
    assert!(mem.write_bytes(0x2000, &zeros));
    let rreq = BlockRequest { rtype: VIRTIO_BLK_T_IN, ..wreq };
    let (status, written) = execute_request(&rreq, false, &mut mem, &mut disk);
    assert_eq!(status, VIRTIO_BLK_S_OK);
    assert_eq!(written, 1024);
    assert_eq!(mem.read_bytes(0x2000, 1024).unwrap(), pattern);
}

#[test]
fn requests_outside_the_disk_report_io_error() {
    let mut mem = small_guest_mem();
    let mut disk = BlockBackend { data: vec![0u8; 1024] };
    let req = BlockRequest {
        rtype: VIRTIO_BLK_T_IN,
        sector: 9,
        data: Some(DescEntry { addr: 0x2000, len: 512, flags: 0, next: 0 }),
        status_addr: 0x3000,
    };
    let (status, written) = execute_request(&req, false, &mut mem, &mut disk);
    assert_eq!(status, 1);
    assert_eq!(written, 0);
    // unknown request types are unsupported
    let odd = BlockRequest { rtype: 7, ..req };
    let (status, _) = execute_request(&odd, false, &mut mem, &mut disk);
    assert_eq!(status, 2);
}

#[test]
fn little_endian_helpers_round_values() {
    let b = le32_bytes(0xDEADBEEF);
    assert_eq!(b, vec![0xEF, 0xBE, 0xAD, 0xDE]);
    let mut eight = b.clone();
    eight.extend_from_slice(&[0x01, 0x00, 0x00, 0x00]);
    assert_eq!(le64(&eight, 0), 0x1_DEAD_BEEF);
}
