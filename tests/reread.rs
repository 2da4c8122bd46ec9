use gpt_fixup::header::{plan_fixup, table_span, HEADER_LEN, PRIMARY_HEADER_OFFSET};

fn put32(b: &mut [u8], off: usize, v: u32) {
    b[off..off + 4].copy_from_slice(&v.to_le_bytes());
}

fn put64(b: &mut [u8], off: usize, v: u64) {
    b[off..off + 8].copy_from_slice(&v.to_le_bytes());
}

/// A 1 MiB image: a GPT with one partition, 512-byte sectors.
fn small_image() -> Vec<u8> {
    let mut img = vec![0u8; 1 << 20];
    let mut table = vec![0u8; 128 * 128];
    // Linux filesystem data type GUID, then a unique GUID
    table[0..16].copy_from_slice(&[
        0xaf, 0x3d, 0xc6, 0x0f, 0x83, 0x84, 0x72, 0x47, 0x8e, 0x79, 0x3d, 0x69, 0xd8, 0x47, 0x7d, 0xe4,
    ]);
    for i in 0..16 {
        table[16 + i] = 0x30 + i as u8;
    }
    put64(&mut table, 32, 34);
    put64(&mut table, 40, 2000);
    for (i, c) in "data".encode_utf16().enumerate() {
        table[56 + 2 * i..58 + 2 * i].copy_from_slice(&c.to_le_bytes());
    }
    let mut h = vec![0u8; 92];
    h[0..8].copy_from_slice(b"EFI PART");
    put32(&mut h, 0x08, 0x0001_0000);
    put32(&mut h, 0x0c, 92);
    put64(&mut h, 0x18, 1);
    put64(&mut h, 0x20, 2047);
    put64(&mut h, 0x28, 34);
    put64(&mut h, 0x30, 2014);
    for i in 0..16 {
        h[0x38 + i] = 0x60 + i as u8;
    }
    put64(&mut h, 0x48, 2);
    put32(&mut h, 0x50, 128);
    put32(&mut h, 0x54, 128);
    put32(&mut h, 0x58, crc32fast::hash(&table));
    let crc = crc32fast::hash(&h);
    put32(&mut h, 0x10, crc);
    img[512..604].copy_from_slice(&h);
    img[1024..1024 + table.len()].copy_from_slice(&table);
    img
}

fn apply(dev: &mut [u8], off: u64, bytes: &[u8]) {
    let off = off as usize;
    dev[off..off + bytes.len()].copy_from_slice(bytes);
}

fn fixup_in_memory(dev: &mut Vec<u8>) {
    let start = PRIMARY_HEADER_OFFSET as usize;
    let header = dev[start..start + HEADER_LEN].to_vec();
    let span = table_span(&header, 512).unwrap();
    let table = dev[span.start as usize..(span.start + span.len) as usize].to_vec();
    let plan = plan_fixup(&header, 512, &table, dev.len() as u64).unwrap();
    apply(dev, PRIMARY_HEADER_OFFSET, &plan.primary_header);
    apply(dev, plan.backup_header_offset, &plan.backup_header);
    apply(dev, plan.backup_table_offset, &plan.backup_table);
    apply(dev, 0, &plan.protective_mbr);
}

#[test]
fn independent_reader_sees_the_whole_device() {
    let img = small_image();
    let mut dev = vec![0u8; 2 << 20];
    dev[..img.len()].copy_from_slice(&img);
    let before = dev[1024..1024 + 128 * 128].to_vec();
    fixup_in_memory(&mut dev);
    let len = dev.len() as u64;
    let after = dev[1024..1024 + 128 * 128].to_vec();
    assert_eq!(before, after);
    let backup_table = dev[(4095 - 32) * 512..4095 * 512].to_vec();
    assert_eq!(before, backup_table);

    let disk = gpt::GptConfig::new()
        .writable(false)
        .open_from_device(Box::new(std::io::Cursor::new(dev)))
        .unwrap();
    let h1 = disk.primary_header().unwrap();
    let h2 = disk.backup_header().unwrap();
    assert_eq!((h1.backup_lba + 1) * 512, len);
    assert_eq!(h1.current_lba, 1);
    assert_eq!(h2.current_lba, h1.backup_lba);
    assert_eq!(h2.backup_lba, 1);
    assert_eq!(h2.part_start, 4095 - 32);
    assert_eq!(h1.first_usable, 34);
    assert_eq!(h1.last_usable, 4095 - 34 + 1);
    let parts = disk.partitions();
    assert_eq!(parts.len(), 1);
    let p = parts.values().next().unwrap();
    assert_eq!(p.name, "data");
    assert_eq!(p.first_lba, 34);
    assert_eq!(p.last_lba, 2000);
}

#[test]
fn fixup_twice_gives_identical_bytes() {
    let img = small_image();
    let mut dev = vec![0u8; 2 << 20];
    dev[..img.len()].copy_from_slice(&img);
    fixup_in_memory(&mut dev);
    let once = dev.clone();
    fixup_in_memory(&mut dev);
    assert!(once == dev);
}
