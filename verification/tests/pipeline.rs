use nested_partition_loader::device::BlockDevice;
use nested_partition_loader::guid::Uuid;
use nested_partition_loader::stage::{build_cmdline, resolve_and_stage, stage_from_options};
use nested_partition_loader::table::{PartitionEntry, PartitionId};
use nested_partition_loader::Error;

fn swz(v: &[u8]) -> Vec<u8> {
    let mut o = v.to_vec();
    o[0..4].reverse();
    o[4..6].reverse();
    o[6..8].reverse();
    o
}

fn gpt_entry(index: usize, first_byte: u64, length_bytes: u64, stored: Vec<u8>) -> PartitionEntry {
    PartitionEntry {
        index,
        first_byte,
        length_bytes,
        id: PartitionId::Gpt { type_guid: vec![0u8; 16], unique_guid: stored },
    }
}

fn le32(v: &mut [u8], off: usize, x: u32) {
    v[off..off + 4].copy_from_slice(&x.to_le_bytes());
}

/// A window whose first sector is an MBR table with one partition of
/// `sectors` sectors starting at sector `first_sector` of the window.
fn window_with_inner(len: usize, first_sector: u32, sectors: u32) -> Vec<u8> {
    let mut w = vec![0u8; len];
    w[510] = 0x55;
    w[511] = 0xAA;
    let e = 446;
    w[e] = 0x00; // not bootable
    w[e + 4] = 0x83; // a plain data partition type
    le32(&mut w, e + 8, first_sector);
    le32(&mut w, e + 12, sectors);
    w
}

fn target_uuid() -> Uuid {
    Uuid::parse(b"00112233-4455-6677-8899-aabbccddeeff").unwrap()
}

fn stored_target() -> Vec<u8> {
    let t = target_uuid();
    let bytes: Vec<u8> = (0..16).map(|i| t.byte_at(i)).collect();
    swz(&bytes)
}

/// Outer window at device byte 4096, 16384 bytes long; inner
/// partition at window byte 4096, 8192 bytes long; kernel header
/// `00 10 00 00` (4096) at the inner partition's start.
fn staged_device(kernel_size: u32) -> (BlockDevice, Vec<PartitionEntry>, Vec<u8>) {
    let mut bytes = vec![0u8; 20480];
    let w = window_with_inner(16384, 8, 16);
    bytes[4096..20480].copy_from_slice(&w);
    le32(&mut bytes, 8192, kernel_size);
    for i in 4..8192 {
        bytes[8192 + i] = (i % 7) as u8 + 1;
    }
    let entries = vec![
        gpt_entry(0, 0, 512, (16u8..32).collect()),
        gpt_entry(1, 4096, 16384, stored_target()),
        gpt_entry(2, 0, 512, (32u8..48).collect()),
    ];
    let dev = BlockDevice::new(512, bytes.clone()).unwrap();
    (dev, entries, bytes)
}

#[test]
fn stage_from_nested_partition() {
    let (dev, entries, bytes) = staged_device(0x1000);
    let staged = resolve_and_stage(&dev, &entries, &target_uuid()).unwrap();
    assert_eq!(staged.size, 4096);
    assert_eq!(staged.padded_size, 4096);
    assert_eq!(staged.image.len(), 4096);
    assert_eq!(&staged.image[..], &bytes[8192..12288]);
}

#[test]
fn stage_pads_unaligned_header_size() {
    let (dev, entries, bytes) = staged_device(0x1001);
    let staged = resolve_and_stage(&dev, &entries, &target_uuid()).unwrap();
    assert_eq!(staged.size, 0x1001);
    assert_eq!(staged.padded_size, 8192);
    assert_eq!(staged.image.len(), 0x1001);
    assert_eq!(&staged.image[..], &bytes[8192..8192 + 0x1001]);
}

#[test]
fn corruption_when_header_exceeds_partition() {
    // 16384 padded bytes cannot live in an 8192-byte inner partition.
    let (dev, entries, _) = staged_device(0x4000);
    assert_eq!(resolve_and_stage(&dev, &entries, &target_uuid()).err(), Some(Error::Corruption));
    // Neither can 8193 once padded to 12288... which is also too much.
    let (dev2, entries2, _) = staged_device(8193);
    assert_eq!(resolve_and_stage(&dev2, &entries2, &target_uuid()).err(), Some(Error::Corruption));
}

#[test]
fn selection_error_when_no_outer_match() {
    let (dev, mut entries, _) = staged_device(0x1000);
    entries.remove(1);
    assert_eq!(resolve_and_stage(&dev, &entries, &target_uuid()).err(), Some(Error::Selection));
}

#[test]
fn io_error_when_outer_window_ragged() {
    let (dev, mut entries, _) = staged_device(0x1000);
    entries[1].first_byte = 4097;
    assert_eq!(resolve_and_stage(&dev, &entries, &target_uuid()).err(), Some(Error::Io));
}

#[test]
fn io_error_when_window_holds_no_table() {
    let (dev, entries, _) = staged_device(0x1000);
    let mut entries2 = entries;
    // Point the selected entry at a window with no table magic.
    entries2[1].first_byte = 0;
    entries2[1].length_bytes = 4096;
    assert_eq!(resolve_and_stage(&dev, &entries2, &target_uuid()).err(), Some(Error::Io));
}

#[test]
fn stage_from_boot_option_string() {
    let (dev, entries, bytes) = staged_device(0x1000);
    let boot = stage_from_options(
        &dev,
        &entries,
        "boot-index=00112233-4455-6677-8899-aabbccddeeff",
    )
    .unwrap();
    assert_eq!(boot.kernel.size, 4096);
    assert_eq!(&boot.kernel.image[..], &bytes[8192..12288]);
    assert_eq!(
        boot.cmdline,
        "console=ttyS0 panic=1 firmware.loaded=00112233-4455-6677-8899-aabbccddeeff"
    );
    assert_eq!(
        stage_from_options(&dev, &entries, "no-boot-index-here").err(),
        Some(Error::Config)
    );
}

#[test]
fn hazardous_probe_images_are_refused() {
    // A protective-MBR-only window whose entry's LBA field is zero:
    // the probe would take a zero sector size.
    let mut w1 = vec![0u8; 512];
    w1[510] = 0x55;
    w1[511] = 0xAA;
    w1[450] = 0xEE;
    let dev = BlockDevice::new(512, w1).unwrap();
    let entries = vec![gpt_entry(0, 0, 512, stored_target())];
    assert_eq!(resolve_and_stage(&dev, &entries, &target_uuid()).err(), Some(Error::Io));

    // A window whose declared GPT header size overruns its sector:
    // the probe would checksum past the sector buffer.
    let mut w2 = vec![0u8; 1024];
    w2[510] = 0x55;
    w2[511] = 0xAA;
    w2[450] = 0xEE;
    w2[454] = 1;
    w2[512..520].copy_from_slice(b"EFI PART");
    w2[520..524].copy_from_slice(&[0, 0, 1, 0]);
    le32(&mut w2, 524, 1000);
    let dev2 = BlockDevice::new(512, w2).unwrap();
    let entries2 = vec![gpt_entry(0, 0, 1024, stored_target())];
    assert_eq!(resolve_and_stage(&dev2, &entries2, &target_uuid()).err(), Some(Error::Io));
}

#[test]
fn cmdline_carries_selector() {
    let s = build_cmdline(&target_uuid());
    assert_eq!(s, "console=ttyS0 panic=1 firmware.loaded=00112233-4455-6677-8899-aabbccddeeff");
}
