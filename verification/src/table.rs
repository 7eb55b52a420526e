use vstd::prelude::*;

use crate::guid::{gpt_swizzle, Uuid};
use crate::Error;

verus! {

/// Identity of a parsed partition entry: which table declared it and,
/// for GPT, its GUIDs as the table stores them (mixed-endian order).
pub enum PartitionId {
    Mbr { type_code: u8 },
    Gpt { type_guid: Vec<u8>, unique_guid: Vec<u8> },
}

/// An entry of a parsed partition table. Its byte range is relative
/// to the window the table was read from.
pub struct PartitionEntry {
    pub index: usize,
    pub first_byte: u64,
    pub length_bytes: u64,
    pub id: PartitionId,
}

impl PartitionEntry {
    pub open spec fn wf(self) -> bool {
        match self.id {
            PartitionId::Gpt { type_guid, unique_guid } => type_guid@.len() == 16
                && unique_guid@.len() == 16,
            PartitionId::Mbr { .. } => true,
        }
    }

    pub open spec fn is_gpt(self) -> bool {
        self.id is Gpt
    }

    /// The entry's byte range lies inside a window of the given size.
    pub open spec fn within(self, window: int) -> bool {
        self.first_byte + self.length_bytes <= window
    }
}

/// What `bootsector::list_partitions` yields on a byte image, or
/// nothing where it refuses the image: a name for an outside result
/// this crate does not restate.
pub uninterp spec fn parsed_table(bytes: Seq<u8>) -> Option<Seq<PartitionEntry>>;

/// Little-endian 32-bit value at byte offset `p`.
pub open spec fn le32_at(w: Seq<u8>, p: int) -> int {
    w[p] + 0x100 * w[p + 1] + 0x1_0000 * w[p + 2] + 0x100_0000 * w[p + 3]
}

/// The image is a protective-MBR-only table: boot magic, four valid
/// slot status bytes, exactly one populated slot — the first, of the
/// protective type, not bootable, with its LBA field within the
/// probe's sector-size bound. On such an image the table probe goes
/// on to a GPT header, taking that LBA field times 512 as the sector
/// size.
pub open spec fn protective_only(w: Seq<u8>) -> bool {
    &&& w.len() >= 512
    &&& w[510] == 0x55 && w[511] == 0xaa
    &&& w[446] == 0x00
    &&& (w[462] == 0x00 || w[462] == 0x80)
    &&& (w[478] == 0x00 || w[478] == 0x80)
    &&& (w[494] == 0x00 || w[494] == 0x80)
    &&& w[450] == 0xee
    &&& w[466] == 0x00 && w[482] == 0x00 && w[498] == 0x00
    &&& le32_at(w, 454) <= 32
}

/// A GPT header whose declared size overruns the sector that holds
/// it: it sits where the protective entry's LBA field points, carries
/// the signature and the supported revision, and declares a header
/// size that is at least 92 yet larger than the sector.
pub open spec fn oversized_gpt_header(w: Seq<u8>) -> bool {
    let ss = 512 * le32_at(w, 454);
    &&& ss > 0
    &&& w.len() >= 2 * ss
    &&& w[ss] == 0x45 && w[ss + 1] == 0x46 && w[ss + 2] == 0x49 && w[ss + 3] == 0x20
    &&& w[ss + 4] == 0x50 && w[ss + 5] == 0x41 && w[ss + 6] == 0x52 && w[ss + 7] == 0x54
    &&& w[ss + 8] == 0x00 && w[ss + 9] == 0x00 && w[ss + 10] == 0x01 && w[ss + 11] == 0x00
    &&& le32_at(w, ss + 12) >= 92
    &&& le32_at(w, ss + 12) > ss
}

/// The two image shapes on which the table probe would read out of
/// bounds: a protective-MBR-only image whose entry's LBA field is
/// zero, and one whose declared GPT header overruns its sector.
pub open spec fn table_probe_hazard(w: Seq<u8>) -> bool {
    protective_only(w) && (le32_at(w, 454) == 0 || oversized_gpt_header(w))
}

/// Exec mirror of `table_probe_hazard`.
pub fn table_probe_hazardous(w: &Vec<u8>) -> (r: bool)
    ensures
        r == table_probe_hazard(w@),
{
    if w.len() < 512 {
        return false;
    }
    if !(w[510] == 0x55 && w[511] == 0xaa && w[446] == 0x00 && (w[462] == 0x00 || w[462]
        == 0x80) && (w[478] == 0x00 || w[478] == 0x80) && (w[494] == 0x00 || w[494] == 0x80)
        && w[450] == 0xee && w[466] == 0x00 && w[482] == 0x00 && w[498] == 0x00) {
        return false;
    }
    let lba: u64 = (w[454] as u64) + 0x100 * (w[455] as u64) + 0x1_0000 * (w[456] as u64)
        + 0x100_0000 * (w[457] as u64);
    if lba > 32 {
        return false;
    }
    if lba == 0 {
        return true;
    }
    let ss: usize = 512 * (lba as usize);
    if w.len() < 2 * ss {
        return false;
    }
    if !(w[ss] == 0x45 && w[ss + 1] == 0x46 && w[ss + 2] == 0x49 && w[ss + 3] == 0x20 && w[ss
        + 4] == 0x50 && w[ss + 5] == 0x41 && w[ss + 6] == 0x52 && w[ss + 7] == 0x54 && w[ss
        + 8] == 0x00 && w[ss + 9] == 0x00 && w[ss + 10] == 0x01 && w[ss + 11] == 0x00) {
        return false;
    }
    let hdr: u64 = (w[ss + 12] as u64) + 0x100 * (w[ss + 13] as u64) + 0x1_0000 * (w[ss
        + 14] as u64) + 0x100_0000 * (w[ss + 15] as u64);
    92 <= hdr && (ss as u64) < hdr
}

/// Relies on bootsector::list_partitions: what the MBR and GPT
/// structures of a byte image denote is a function of the bytes
/// alone, and every GUID it yields holds 16 bytes. On the two image
/// shapes of `table_probe_hazard` the probe reads out of bounds and
/// does not return; those images are left out, and verified callers
/// test for them first.
#[verifier::external_body]
pub(crate) fn list_partitions_raw(bytes: &Vec<u8>) -> (r: Result<Vec<PartitionEntry>, Error>)
    requires
        !table_probe_hazard(bytes@),
    ensures
        r is Ok <==> parsed_table(bytes@) is Some,
        r matches Ok(v) ==> Some(v@) == parsed_table(bytes@) && forall|i: int|
            0 <= i < v@.len() ==> (#[trigger] v@[i]).wf(),
        r matches Err(e) ==> e == Error::Io,
{
    match bootsector::list_partitions(bytes.as_slice(), &bootsector::Options::default()) {
        Ok(ps) => Ok(ps.into_iter().map(|p| PartitionEntry {
            index: p.id,
            first_byte: p.first_byte,
            length_bytes: p.len,
            id: match p.attributes {
                bootsector::Attributes::MBR { type_code, .. } => PartitionId::Mbr { type_code },
                bootsector::Attributes::GPT { type_uuid, partition_uuid, .. } => PartitionId::Gpt {
                    type_guid: type_uuid.to_vec(),
                    unique_guid: partition_uuid.to_vec(),
                },
            },
        }).collect()),
        Err(_) => Err(Error::Io),
    }
}

/// The entry answers to the boot selector: it is GPT-tagged and
/// stores the selector's GUID in GPT byte order.
pub open spec fn entry_matches(e: PartitionEntry, target: Seq<u8>) -> bool {
    match e.id {
        PartitionId::Gpt { unique_guid, .. } => unique_guid@ == gpt_swizzle(target),
        PartitionId::Mbr { .. } => false,
    }
}

pub open spec fn has_mbr(entries: Seq<PartitionEntry>) -> bool {
    exists|i: int| 0 <= i < entries.len() && (#[trigger] entries[i]).id is Mbr
}

/// `k` is the one and only match for the selector.
pub open spec fn unique_match_at(entries: Seq<PartitionEntry>, target: Seq<u8>, k: int) -> bool {
    &&& 0 <= k < entries.len()
    &&& entry_matches(entries[k], target)
    &&& forall|j: int|
        0 <= j < entries.len() && j != k ==> !entry_matches(#[trigger] entries[j], target)
}

/// The entry declares this partition type, given in standard order.
pub open spec fn entry_has_type(e: PartitionEntry, type_std: Seq<u8>) -> bool {
    match e.id {
        PartitionId::Gpt { type_guid, .. } => type_guid@ == gpt_swizzle(type_std),
        PartitionId::Mbr { .. } => false,
    }
}

/// The hardened inner-partition policy: rather than taking index 0
/// unconditionally, take the first entry that declares a well-known
/// partition type.
pub fn select_by_type(entries: &Vec<PartitionEntry>, type_std: &Uuid) -> (r: Result<usize, Error>)
    requires
        type_std.wf(),
    ensures
        r matches Ok(k) ==> k < entries@.len() && entry_has_type(
            entries@[k as int],
            type_std@,
        ) && forall|j: int| 0 <= j < k ==> !entry_has_type(#[trigger] entries@[j], type_std@),
        r is Err <==> (forall|j: int|
            0 <= j < entries@.len() ==> !entry_has_type(#[trigger] entries@[j], type_std@)),
        r matches Err(e) ==> e == Error::Selection,
{
    let t = type_std.swizzled();
    let mut i: usize = 0;
    while i < entries.len()
        invariant
            i <= entries@.len(),
            type_std.wf(),
            t.wf(),
            t@ == gpt_swizzle(type_std@),
            forall|j: int| 0 <= j < i ==> !entry_has_type(#[trigger] entries@[j], type_std@),
        decreases entries@.len() - i,
    {
        match &entries[i].id {
            PartitionId::Gpt { type_guid, .. } => {
                if t.eq_bytes(type_guid) {
                    return Ok(i);
                }
            },
            PartitionId::Mbr { .. } => {},
        }
        i = i + 1;
    }
    Err(Error::Selection)
}

/// Pick the unique GPT entry whose stored GUID is the boot selector in
/// storage order. An MBR-tagged entry anywhere, no match, or more
/// than one match is refused.
pub fn select_partition(entries: &Vec<PartitionEntry>, target: &Uuid) -> (r: Result<usize, Error>)
    requires
        target.wf(),
    ensures
        r matches Ok(k) ==> !has_mbr(entries@) && unique_match_at(entries@, target@, k as int),
        r is Err <==> has_mbr(entries@) || !(exists|k: int|
            unique_match_at(entries@, target@, k)),
        r matches Err(e) ==> e == Error::Selection,
{
    let t = target.swizzled();
    let mut mbr = false;
    let mut found = false;
    let mut dup = false;
    let mut idx: usize = 0;
    let mut i: usize = 0;
    while i < entries.len()
        invariant
            i <= entries@.len(),
            target.wf(),
            t.wf(),
            t@ == gpt_swizzle(target@),
            mbr <==> exists|j: int| 0 <= j < i && (#[trigger] entries@[j]).id is Mbr,
            found ==> idx < i,
            (!found && !dup) ==> forall|j: int|
                0 <= j < i ==> !entry_matches(#[trigger] entries@[j], target@),
            (found && !dup) ==> entry_matches(entries@[idx as int], target@) && forall|j: int|
                0 <= j < i && j != idx ==> !entry_matches(#[trigger] entries@[j], target@),
            dup ==> exists|a: int, b: int|
                0 <= a < b < i && entry_matches(entries@[a], target@) && entry_matches(
                    entries@[b],
                    target@,
                ),
            dup ==> found,
        decreases entries@.len() - i,
    {
        match &entries[i].id {
            PartitionId::Mbr { .. } => {
                mbr = true;
            },
            PartitionId::Gpt { unique_guid, .. } => {
                if t.eq_bytes(unique_guid) {
                    if found {
                        dup = true;
                    } else {
                        found = true;
                        idx = i;
                    }
                }
            },
        }
        i = i + 1;
    }
    if mbr || dup || !found {
        proof {
            if dup {
                let (a, b) = choose|a: int, b: int|
                    0 <= a < b < entries@.len() && entry_matches(entries@[a], target@)
                        && entry_matches(entries@[b], target@);
                assert forall|k: int| !unique_match_at(entries@, target@, k) by {
                    if unique_match_at(entries@, target@, k) {
                        if k != a {
                            assert(!entry_matches(entries@[a], target@));
                        } else {
                            assert(!entry_matches(entries@[b], target@));
                        }
                    }
                }
            }
        }
        return Err(Error::Selection);
    }
    proof {
        assert(unique_match_at(entries@, target@, idx as int));
    }
    Ok(idx)
}

} // verus!
