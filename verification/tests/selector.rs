use nested_partition_loader::guid::Uuid;
use nested_partition_loader::table::{select_by_type, select_partition, PartitionEntry, PartitionId};
use nested_partition_loader::Error;

fn swz(v: &[u8]) -> Vec<u8> {
    let mut o = v.to_vec();
    o[0..4].reverse();
    o[4..6].reverse();
    o[6..8].reverse();
    o
}

fn gpt_entry(index: usize, stored: Vec<u8>) -> PartitionEntry {
    PartitionEntry {
        index,
        first_byte: 0,
        length_bytes: 512,
        id: PartitionId::Gpt { type_guid: vec![0u8; 16], unique_guid: stored },
    }
}

fn mbr_entry(index: usize) -> PartitionEntry {
    PartitionEntry { index, first_byte: 0, length_bytes: 512, id: PartitionId::Mbr { type_code: 0x83 } }
}

#[test]
fn swizzle_is_involution() {
    let bytes: Vec<u8> = (0u8..16).collect();
    let u = Uuid::from_bytes(bytes.clone()).unwrap();
    let once = u.swizzled();
    let expected = vec![3u8, 2, 1, 0, 5, 4, 7, 6, 8, 9, 10, 11, 12, 13, 14, 15];
    for (i, e) in expected.iter().enumerate() {
        assert_eq!(once.byte_at(i), *e);
    }
    let twice = once.swizzled();
    assert!(twice.eq_uuid(&u));
}

#[test]
fn parse_and_display_uuid() {
    let u = Uuid::parse(b"00112233-4455-6677-8899-aabbccddeeff").unwrap();
    assert_eq!(u.byte_at(0), 0x00);
    assert_eq!(u.byte_at(3), 0x33);
    assert_eq!(u.byte_at(15), 0xff);
    assert_eq!(u.to_hyphenated(), "00112233-4455-6677-8899-aabbccddeeff");
    let v = Uuid::parse(b"5C513513-E1B6-4FB1-AEE8-B12DA81551F3").unwrap();
    assert_eq!(v.to_hyphenated(), "5c513513-e1b6-4fb1-aee8-b12da81551f3");
    assert!(Uuid::parse(b"00112233-4455-6677-8899-aabbccddee").is_err());
    assert!(Uuid::parse(b"00112233x4455-6677-8899-aabbccddeeff").is_err());
    assert!(Uuid::parse(b"0011223g-4455-6677-8899-aabbccddeeff").is_err());
}

#[test]
fn selector_finds_the_one_match() {
    let target = Uuid::parse(b"00112233-4455-6677-8899-aabbccddeeff").unwrap();
    let target_bytes: Vec<u8> = (0..16).map(|i| target.byte_at(i)).collect();
    let stored = swz(&target_bytes);
    let entries = vec![
        gpt_entry(0, (16u8..32).collect()),
        gpt_entry(1, stored),
        gpt_entry(2, (32u8..48).collect()),
    ];
    assert_eq!(select_partition(&entries, &target), Ok(1));
}

#[test]
fn selector_refuses_zero_matches() {
    let target = Uuid::parse(b"00112233-4455-6677-8899-aabbccddeeff").unwrap();
    let entries = vec![gpt_entry(0, (16u8..32).collect())];
    assert_eq!(select_partition(&entries, &target), Err(Error::Selection));
}

#[test]
fn selector_refuses_ambiguous_matches() {
    let target = Uuid::parse(b"00112233-4455-6677-8899-aabbccddeeff").unwrap();
    let target_bytes: Vec<u8> = (0..16).map(|i| target.byte_at(i)).collect();
    let stored = swz(&target_bytes);
    let entries = vec![gpt_entry(0, stored.clone()), gpt_entry(1, stored)];
    assert_eq!(select_partition(&entries, &target), Err(Error::Selection));
}

#[test]
fn hardened_inner_selection_by_type() {
    let kernel_type = Uuid::parse(b"5c513513-e1b6-4fb1-aee8-b12da81551f3").unwrap();
    let type_bytes: Vec<u8> = (0..16).map(|i| kernel_type.byte_at(i)).collect();
    let stored_type = swz(&type_bytes);
    let mut plain = gpt_entry(0, (16u8..32).collect());
    let mut kernel = gpt_entry(1, (32u8..48).collect());
    match &mut kernel.id {
        PartitionId::Gpt { type_guid, .. } => *type_guid = stored_type,
        PartitionId::Mbr { .. } => unreachable!(),
    }
    match &mut plain.id {
        PartitionId::Gpt { type_guid, .. } => *type_guid = vec![7u8; 16],
        PartitionId::Mbr { .. } => unreachable!(),
    }
    let entries = vec![plain, kernel];
    assert_eq!(select_by_type(&entries, &kernel_type), Ok(1));
    let other = Uuid::parse(b"00000000-0000-0000-0000-000000000000").unwrap();
    assert_eq!(select_by_type(&entries, &other), Err(Error::Selection));
}

#[test]
fn selector_refuses_mbr_tables() {
    let target = Uuid::parse(b"00112233-4455-6677-8899-aabbccddeeff").unwrap();
    let target_bytes: Vec<u8> = (0..16).map(|i| target.byte_at(i)).collect();
    let stored = swz(&target_bytes);
    let entries = vec![gpt_entry(0, stored), mbr_entry(1)];
    assert_eq!(select_partition(&entries, &target), Err(Error::Selection));
}
