use nested_partition_loader::guid::Uuid;
use nested_partition_loader::publish::plan_targets;
use nested_partition_loader::table::{PartitionEntry, PartitionId};
use nested_partition_loader::Error;

fn swz(v: &[u8]) -> Vec<u8> {
    let mut o = v.to_vec();
    o[0..4].reverse();
    o[4..6].reverse();
    o[6..8].reverse();
    o
}

fn gpt_entry(index: usize, first_byte: u64, length_bytes: u64, stored: Vec<u8>) -> PartitionEntry {
    PartitionEntry {
        index,
        first_byte,
        length_bytes,
        id: PartitionId::Gpt { type_guid: vec![0u8; 16], unique_guid: stored },
    }
}

#[test]
fn publish_linear_targets() {
    let shown = Uuid::parse(b"11223344-5566-7788-99aa-bbccddeeff00").unwrap();
    let shown_bytes: Vec<u8> = (0..16).map(|i| shown.byte_at(i)).collect();
    let stored = swz(&shown_bytes);
    let entries = vec![gpt_entry(3, 1048576, 1048576, stored)];
    let targets = plan_targets(&entries, &b"sdb".to_vec()).unwrap();
    assert_eq!(targets.len(), 1);
    assert_eq!(targets[0].name, "sdbp3");
    assert_eq!(targets[0].uuid, "11223344-5566-7788-99aa-bbccddeeff00");
    assert_eq!(targets[0].start_sector, 0);
    assert_eq!(targets[0].length_sectors, 2048);
    assert_eq!(targets[0].backing_offset_sectors, 2048);
}

#[test]
fn publish_names_carry_larger_indexes() {
    let entries = vec![gpt_entry(12, 512, 512, (0u8..16).collect())];
    let targets = plan_targets(&entries, &b"nvme0n1".to_vec()).unwrap();
    assert_eq!(targets[0].name, "nvme0n1p12");
    assert_eq!(targets[0].length_sectors, 1);
    assert_eq!(targets[0].backing_offset_sectors, 1);
}

#[test]
fn publish_refuses_mbr_entries() {
    let entries = vec![
        gpt_entry(0, 0, 512, (0u8..16).collect()),
        PartitionEntry {
            index: 1,
            first_byte: 512,
            length_bytes: 512,
            id: PartitionId::Mbr { type_code: 0x83 },
        },
    ];
    assert_eq!(plan_targets(&entries, &b"sdb".to_vec()).err(), Some(Error::Selection));
}

#[test]
fn publish_refuses_ragged_sector_sizes() {
    let entries = vec![gpt_entry(0, 512, 1000, (0u8..16).collect())];
    assert_eq!(plan_targets(&entries, &b"sdb".to_vec()).err(), Some(Error::Registration));
}
