use vstd::prelude::*;

use crate::guid::{gpt_swizzle, uuid_display, Uuid};
use crate::table::{has_mbr, PartitionEntry, PartitionId};
use crate::text::{all_ascii, ascii_chars, ascii_to_string, decimal_bytes, push_decimal};
use crate::Error;

verus! {

/// One device-mapper linear mapping: a virtual range of
/// `length_sectors` starting at `start_sector`, backed 1:1 by the raw
/// device from `backing_offset_sectors` on.
pub struct LinearTarget {
    pub name: String,
    pub uuid: String,
    pub start_sector: u64,
    pub length_sectors: u64,
    pub backing_offset_sectors: u64,
}

/// An entry's byte range can be measured in whole 512-byte sectors.
pub open spec fn sector_ok(e: PartitionEntry) -> bool {
    &&& e.first_byte as int % 512 == 0
    &&& e.length_bytes as int % 512 == 0
}

/// The GUID a GPT entry stores, in storage byte order.
pub open spec fn stored_guid(e: PartitionEntry) -> Seq<u8> {
    match e.id {
        PartitionId::Gpt { unique_guid, .. } => unique_guid@,
        PartitionId::Mbr { .. } => Seq::empty(),
    }
}

/// The linear-target name for an entry: `<basename>p<index>`.
pub open spec fn name_bytes(base: Seq<u8>, index: int) -> Seq<u8> {
    base + seq![112u8] + decimal_bytes(index)
}

/// What one GPT entry is republished as.
pub open spec fn target_spec(t: LinearTarget, e: PartitionEntry, base: Seq<u8>) -> bool {
    &&& t.name@ == ascii_chars(name_bytes(base, e.index as int))
    &&& t.uuid@ == ascii_chars(uuid_display(gpt_swizzle(stored_guid(e))))
    &&& t.start_sector == 0
    &&& t.length_sectors as int == e.length_bytes as int / 512
    &&& t.backing_offset_sectors as int == e.first_byte as int / 512
}

/// Derive one linear target per outer GPT entry: the name carries the
/// device basename and the entry index, the UUID is the stored GUID
/// normalised back to standard display order, and the whole entry is
/// mapped from sector 0. An MBR-tagged entry anywhere is refused, as
/// is an entry that does not fall on 512-byte sectors.
pub fn plan_targets(entries: &Vec<PartitionEntry>, base: &Vec<u8>) -> (r: Result<
    Vec<LinearTarget>,
    Error,
>)
    requires
        all_ascii(base@),
        forall|i: int| 0 <= i < entries@.len() ==> (#[trigger] entries@[i]).wf(),
    ensures
        r is Err <==> has_mbr(entries@) || (exists|i: int|
            0 <= i < entries@.len() && !sector_ok(#[trigger] entries@[i])),
        r matches Err(e) ==> (e == Error::Selection <==> has_mbr(entries@)) && (e
            == Error::Selection || e == Error::Registration),
        r matches Ok(v) ==> v@.len() == entries@.len() && forall|i: int|
            0 <= i < entries@.len() ==> target_spec(#[trigger] v@[i], entries@[i], base@),
{
    let mut i: usize = 0;
    while i < entries.len()
        invariant
            i <= entries@.len(),
            forall|j: int| 0 <= j < i ==> !((#[trigger] entries@[j]).id is Mbr),
        decreases entries@.len() - i,
    {
        match &entries[i].id {
            PartitionId::Mbr { .. } => {
                return Err(Error::Selection);
            },
            PartitionId::Gpt { .. } => {},
        }
        i = i + 1;
    }
    let mut j: usize = 0;
    while j < entries.len()
        invariant
            j <= entries@.len(),
            forall|t: int| 0 <= t < j ==> sector_ok(#[trigger] entries@[t]),
            !has_mbr(entries@),
        decreases entries@.len() - j,
    {
        let e = &entries[j];
        if e.first_byte % 512 != 0 || e.length_bytes % 512 != 0 {
            return Err(Error::Registration);
        }
        j = j + 1;
    }
    let mut out: Vec<LinearTarget> = Vec::new();
    let mut k: usize = 0;
    while k < entries.len()
        invariant
            k <= entries@.len(),
            out@.len() == k,
            all_ascii(base@),
            !has_mbr(entries@),
            forall|t: int| 0 <= t < entries@.len() ==> sector_ok(#[trigger] entries@[t]),
            forall|t: int| 0 <= t < entries@.len() ==> (#[trigger] entries@[t]).wf(),
            forall|t: int| 0 <= t < k ==> target_spec(#[trigger] out@[t], entries@[t], base@),
        decreases entries@.len() - k,
    {
        let e = &entries[k];
        let mut nb: Vec<u8> = Vec::new();
        let mut c: usize = 0;
        while c < base.len()
            invariant
                c <= base@.len(),
                nb@ == base@.subrange(0, c as int),
            decreases base@.len() - c,
        {
            let b = base[c];
            nb.push(b);
            proof {
                assert(base@.subrange(0, c as int + 1) =~= base@.subrange(0, c as int).push(
                    base@[c as int],
                ));
            }
            c = c + 1;
        }
        proof {
            assert(nb@ =~= base@);
        }
        nb.push(112);
        push_decimal(&mut nb, e.index);
        proof {
            crate::text::lemma_decimal_ascii(e.index as int);
            assert(nb@ =~= name_bytes(base@, e.index as int));
            assert(all_ascii(nb@));
        }
        let name = ascii_to_string(nb);
        let gv = match &e.id {
            PartitionId::Gpt { unique_guid, .. } => {
                let mut g: Vec<u8> = Vec::new();
                let mut d: usize = 0;
                while d < unique_guid.len()
                    invariant
                        d <= unique_guid@.len(),
                        g@ == unique_guid@.subrange(0, d as int),
                    decreases unique_guid@.len() - d,
                {
                    let b = unique_guid[d];
                    g.push(b);
                    proof {
                        assert(unique_guid@.subrange(0, d as int + 1) =~= unique_guid@.subrange(
                            0,
                            d as int,
                        ).push(unique_guid@[d as int]));
                    }
                    d = d + 1;
                }
                proof {
                    assert(g@ =~= unique_guid@);
                }
                g
            },
            PartitionId::Mbr { .. } => {
                proof {
                    assert(false);
                }
                return Err(Error::Selection);
            },
        };
        let gu = match Uuid::from_bytes(gv) {
            Ok(u) => u,
            Err(_) => {
                proof {
                    assert(false);
                }
                return Err(Error::Selection);
            },
        };
        let uuid = gu.swizzled().to_hyphenated();
        out.push(
            LinearTarget {
                name,
                uuid,
                start_sector: 0,
                length_sectors: e.length_bytes / 512,
                backing_offset_sectors: e.first_byte / 512,
            },
        );
        k = k + 1;
    }
    Ok(out)
}

} // verus!
