use vstd::prelude::*;

use crate::align::{align_up, lemma_align_up_pos, lemma_is_pow2_pos, Aligned};
use crate::device::{BlockDevice, BlockReader, DeviceView, SeekFrom};
use crate::guid::{uuid_display, Uuid};
use crate::table::{
    has_mbr, list_partitions_raw, parsed_table, table_probe_hazard, table_probe_hazardous,
    unique_match_at, PartitionEntry,
};
use crate::text::{all_ascii, ascii_chars, ascii_to_string};
use crate::Error;
use vstd::arithmetic::div_mod::{
    lemma_add_mod_noop, lemma_div_is_ordered, lemma_fundamental_div_mod, lemma_small_mod,
};
use vstd::arithmetic::mul::lemma_mul_is_distributive_sub_other_way;
use vstd::bytes::spec_u32_from_le_bytes;
use vstd::string::StringSliceAdditionalSpecFns;

verus! {

/// The fixed command-line prefix handed to a staged image, as bytes:
/// `console=ttyS0 panic=1 firmware.loaded=`.
pub open spec fn cmdline_prefix() -> Seq<u8> {
    seq![99u8, 111u8, 110u8, 115u8, 111u8, 108u8, 101u8, 61u8, 116u8, 116u8, 121u8, 83u8, 48u8, 32u8, 112u8, 97u8, 110u8, 105u8, 99u8, 61u8, 49u8, 32u8, 102u8, 105u8, 114u8, 109u8, 119u8, 97u8, 114u8, 101u8, 46u8, 108u8, 111u8, 97u8, 100u8, 101u8, 100u8, 61u8]
}

/// A staged kernel: the image bytes cut to the header's declared
/// size, and the sizes the header led to.
pub struct StagedKernel {
    pub image: Vec<u8>,
    pub size: u32,
    pub padded_size: u32,
}

/// The outer entry can be framed as a whole-block window of the
/// device that a reader and this process can hold.
pub open spec fn outer_window_ok(d: DeviceView, e: PartitionEntry) -> bool {
    &&& e.first_byte as int % d.bs == 0
    &&& e.length_bytes as int % d.bs == 0
    &&& e.first_byte + e.length_bytes <= d.contents.len()
    &&& e.length_bytes <= usize::MAX
}

/// The nested header block can be read: the inner entry starts on a
/// block boundary, a block holds the 4-byte header, and one whole
/// block lies inside the window.
pub open spec fn header_read_ok(d: DeviceView, w_len: int, ie: PartitionEntry) -> bool {
    &&& ie.first_byte as int % d.bs == 0
    &&& d.bs >= 4
    &&& ie.first_byte + d.bs <= w_len
}

/// Everything the firmware-context pipeline decides, step by step:
/// select the outer partition by the boot selector, re-read a
/// partition table inside its window, take inner index 0, read the
/// 4-byte little-endian size, pad it to 4096 and bound it by the
/// inner partition, and cut the padded span to the declared size.
pub open spec fn spec_stage(d: DeviceView, entries: Seq<PartitionEntry>, target: Seq<u8>) -> Result<
    Seq<u8>,
    Error,
> {
    if has_mbr(entries) || !(exists|k: int| unique_match_at(entries, target, k)) {
        Err(Error::Selection)
    } else {
        let e = entries[choose|k: int| unique_match_at(entries, target, k)];
        if !outer_window_ok(d, e) {
            Err(Error::Io)
        } else {
            let w = d.contents.subrange(
                e.first_byte as int,
                e.first_byte + e.length_bytes,
            );
            if table_probe_hazard(w) {
                Err(Error::Io)
            } else {
                match parsed_table(w) {
                Option::None => Err(Error::Io),
                Option::Some(inner) => if inner.len() == 0 {
                    Err(Error::Selection)
                } else {
                    let ie = inner[0];
                    if !(ie.first_byte + ie.length_bytes <= w.len()) {
                        Err(Error::Corruption)
                    } else if !header_read_ok(d, w.len() as int, ie) {
                        Err(Error::Io)
                    } else {
                        let size = spec_u32_from_le_bytes(
                            w.subrange(ie.first_byte as int, ie.first_byte + 4),
                        ) as int;
                        if size > u32::MAX - 4095 {
                            Err(Error::Corruption)
                        } else {
                            let padded = align_up(size, 4096);
                            if padded > ie.length_bytes {
                                Err(Error::Corruption)
                            } else if padded % d.bs != 0 {
                                Err(Error::Io)
                            } else {
                                Ok(w.subrange(ie.first_byte as int, ie.first_byte + size))
                            }
                        }
                    }
                },
                }
            }
        }
    }
}

/// The staging step in general, for the scenario family the design
/// fixes: when the boot selector picks exactly one outer entry, its
/// window parses to an inner table whose first partition declares a
/// 4096-byte kernel, and the granularities fit, then staging succeeds
/// and the image is exactly the window's first 4096 bytes at that
/// inner partition — the padded and the raw length coincide.
pub proof fn lemma_stage_header_4096(
    d: DeviceView,
    entries: Seq<PartitionEntry>,
    target: Seq<u8>,
    k: int,
)
    requires
        !has_mbr(entries),
        unique_match_at(entries, target, k),
        outer_window_ok(d, entries[k]),
        ({
            let e = entries[k];
            let w = d.contents.subrange(e.first_byte as int, e.first_byte + e.length_bytes);
            &&& !table_probe_hazard(w)
            &&& parsed_table(w) is Some
            &&& parsed_table(w)->Some_0.len() == 1
            &&& ({
                let ie = parsed_table(w)->Some_0[0];
                &&& ie.first_byte + ie.length_bytes <= w.len()
                &&& header_read_ok(d, w.len() as int, ie)
                &&& spec_u32_from_le_bytes(
                    w.subrange(ie.first_byte as int, ie.first_byte + 4),
                ) == 4096
                &&& 4096 <= ie.length_bytes
                &&& 4096int % d.bs == 0
            })
        }),
    ensures
        align_up(4096, 4096) == 4096,
        ({
            let e = entries[k];
            let w = d.contents.subrange(e.first_byte as int, e.first_byte + e.length_bytes);
            let ie = parsed_table(w)->Some_0[0];
            spec_stage(d, entries, target) == Ok::<Seq<u8>, Error>(
                w.subrange(ie.first_byte as int, ie.first_byte + 4096),
            )
        }),
{
    let kc = choose|j: int| unique_match_at(entries, target, j);
    assert(kc == k);
    assert(align_up(4096, 4096) == 4096);
}

/// The firmware-context resolution: stage the kernel held by the
/// nested partition that the boot selector names. The result is
/// exactly `spec_stage` of the device image, the outer table and the
/// selector.
pub fn resolve_and_stage(
    dev: &BlockDevice,
    entries: &Vec<PartitionEntry>,
    target: &Uuid,
) -> (r: Result<StagedKernel, Error>)
    requires
        dev.wf(),
        target.wf(),
    ensures
        match spec_stage(dev@, entries@, target@) {
            Ok(img) => r matches Ok(s) && s.image@ == img && s.size as int == img.len()
                && s.padded_size as int == align_up(img.len() as int, 4096),
            Err(e) => r matches Err(e2) && e2 == e,
        },
{
    let ki = match crate::table::select_partition(entries, target) {
        Ok(k) => k,
        Err(e) => {
            return Err(e);
        },
    };
    proof {
        let kc = choose|k: int| unique_match_at(entries@, target@, k);
        assert(kc == ki as int);
        lemma_is_pow2_pos(dev@.bs);
    }
    let e = &entries[ki];
    let bs = dev.block_size();
    let bs64 = bs as u64;
    if e.first_byte % bs64 != 0 || e.length_bytes % bs64 != 0 {
        return Err(Error::Io);
    }
    if (e.first_byte as u128) + (e.length_bytes as u128) > (dev.total_bytes() as u128) {
        return Err(Error::Io);
    }
    if e.length_bytes > (usize::MAX as u64) {
        return Err(Error::Io);
    }
    let start_lba = e.first_byte / bs64;
    let end_lba = (e.first_byte + e.length_bytes) / bs64;
    proof {
        lemma_div_is_ordered(e.first_byte as int, e.first_byte + e.length_bytes, dev@.bs);
        lemma_fundamental_div_mod(e.first_byte as int, dev@.bs);
        lemma_small_mod(0, dev@.bs as nat);
        lemma_add_mod_noop(e.first_byte as int, e.length_bytes as int, dev@.bs);
        lemma_fundamental_div_mod(e.first_byte + e.length_bytes, dev@.bs);
        lemma_mul_is_distributive_sub_other_way(
            dev@.bs,
            end_lba as int,
            start_lba as int,
        );
        vstd::arithmetic::mul::lemma_mul_is_commutative(dev@.bs, end_lba as int);
        vstd::arithmetic::mul::lemma_mul_is_commutative(dev@.bs, start_lba as int);
        assert((e.first_byte + e.length_bytes) as int % dev@.bs == 0);
        assert(end_lba as int * dev@.bs == e.first_byte + e.length_bytes);
        assert(start_lba as int * dev@.bs == e.first_byte as int);
        assert(start_lba <= end_lba);
        assert(end_lba as int * dev@.bs <= dev@.contents.len());
    }
    let mut rd = match BlockReader::new(dev, start_lba, end_lba) {
        Ok(r) => r,
        Err(_) => {
            proof {
                assert(false);
            }
            return Err(Error::Io);
        },
    };
    let mut window: Vec<u8> = vec![0u8; e.length_bytes as usize];
    match rd.read_exact(dev, &mut window) {
        Ok(()) => (),
        Err(_) => {
            proof {
                assert(false);
            }
            return Err(Error::Io);
        },
    }
    let ghost w = dev@.contents.subrange(e.first_byte as int, e.first_byte + e.length_bytes);
    proof {
        assert(window@ == w);
    }
    if table_probe_hazardous(&window) {
        return Err(Error::Io);
    }
    let inner = match list_partitions_raw(&window) {
        Ok(v) => v,
        Err(e2) => {
            return Err(e2);
        },
    };
    if inner.len() == 0 {
        return Err(Error::Selection);
    }
    let ie = &inner[0];
    if (ie.first_byte as u128) + (ie.length_bytes as u128) > (e.length_bytes as u128) {
        return Err(Error::Corruption);
    }
    if ie.first_byte % bs64 != 0 || bs < 4 || (ie.first_byte as u128) + (bs64 as u128) > (
    e.length_bytes as u128) {
        return Err(Error::Io);
    }
    match rd.seek(SeekFrom::Start(ie.first_byte)) {
        Ok(_) => (),
        Err(_) => {
            proof {
                assert(false);
            }
            return Err(Error::Io);
        },
    }
    let mut header: Vec<u8> = vec![0u8; bs as usize];
    match rd.read_exact(dev, &mut header) {
        Ok(()) => (),
        Err(_) => {
            proof {
                assert(false);
            }
            return Err(Error::Io);
        },
    }
    proof {
        assert(header@.subrange(0, 4) =~= w.subrange(
            ie.first_byte as int,
            ie.first_byte + 4,
        ));
    }
    let hdr4 = vstd::slice::slice_subrange(header.as_slice(), 0, 4);
    let size32 = vstd::bytes::u32_from_le_bytes(hdr4);
    if size32 > u32::MAX - 4095 {
        return Err(Error::Corruption);
    }
    proof {
        crate::align::lemma_pow2_constants();
        lemma_align_up_pos(size32 as int, 4096);
    }
    let padded = size32.aligned(4096);
    if (padded as u64) > ie.length_bytes {
        return Err(Error::Corruption);
    }
    if (padded as u64) % bs64 != 0 {
        return Err(Error::Io);
    }
    match rd.seek(SeekFrom::Start(ie.first_byte)) {
        Ok(_) => (),
        Err(_) => {
            proof {
                assert(false);
            }
            return Err(Error::Io);
        },
    }
    let mut image: Vec<u8> = vec![0u8; padded as usize];
    match rd.read_exact(dev, &mut image) {
        Ok(()) => (),
        Err(_) => {
            proof {
                assert(false);
            }
            return Err(Error::Io);
        },
    }
    image.truncate(size32 as usize);
    proof {
        assert(image@ =~= w.subrange(ie.first_byte as int, ie.first_byte + size32 as int));
    }
    Ok(StagedKernel { image, size: size32, padded_size: padded })
}

/// A staged boot: the kernel image and the command line that hands
/// the boot identity on to it.
pub struct StagedBoot {
    pub kernel: StagedKernel,
    pub cmdline: String,
}

/// The whole firmware-context decision: read the boot selector from
/// the option string (the first `boot-index` token), resolve and
/// stage the nested kernel it names, and build the command line.
pub fn stage_from_options(
    dev: &BlockDevice,
    entries: &Vec<PartitionEntry>,
    options: &str,
) -> (r: Result<StagedBoot, Error>)
    requires
        dev.wf(),
    ensures
        !crate::options::options_wf(options.spec_bytes()) ==> (r matches Err(e) && e
            == Error::Config),
        crate::options::options_wf(options.spec_bytes()) ==> ({
            let t = crate::options::options_values(options.spec_bytes())[0];
            match spec_stage(dev@, entries@, t) {
                Ok(img) => (r matches Ok(s) && s.kernel.image@ == img && s.cmdline@
                    == ascii_chars(cmdline_prefix() + uuid_display(t))),
                Err(e) => (r matches Err(e2) && e2 == e),
            }
        }),
{
    let opts = match crate::options::parse_options(options) {
        Ok(v) => v,
        Err(e) => {
            return Err(e);
        },
    };
    proof {
        assert(crate::options::options_values_at(options.spec_bytes(), 0).len() >= 1);
        assert(opts@.len() >= 1);
        assert(opts@.map_values(|o: crate::options::Options| crate::options::opt_bytes(o))[0]
            == crate::options::opt_bytes(opts@[0]));
    }
    let selector = match &opts[0] {
        crate::options::Options::BootIndex(u) => u,
    };
    let kernel = match resolve_and_stage(dev, entries, selector) {
        Ok(s) => s,
        Err(e) => {
            return Err(e);
        },
    };
    let cmdline = build_cmdline(selector);
    Ok(StagedBoot { kernel, cmdline })
}

/// The command line handed to the staged image: the fixed prefix
/// followed by the boot selector's hyphenated form.
pub fn build_cmdline(target: &Uuid) -> (r: String)
    requires
        target.wf(),
    ensures
        r@ == ascii_chars(cmdline_prefix() + uuid_display(target@)),
{
    let mut b: Vec<u8> = Vec::new();
    b.push(99);
        b.push(111);
        b.push(110);
        b.push(115);
        b.push(111);
        b.push(108);
        b.push(101);
        b.push(61);
        b.push(116);
        b.push(116);
        b.push(121);
        b.push(83);
        b.push(48);
        b.push(32);
        b.push(112);
        b.push(97);
        b.push(110);
        b.push(105);
        b.push(99);
        b.push(61);
        b.push(49);
        b.push(32);
        b.push(102);
        b.push(105);
        b.push(114);
        b.push(109);
        b.push(119);
        b.push(97);
        b.push(114);
        b.push(101);
        b.push(46);
        b.push(108);
        b.push(111);
        b.push(97);
        b.push(100);
        b.push(101);
        b.push(100);
        b.push(61);
    proof {
        assert(b@ =~= cmdline_prefix());
    }
    let mut d = target.display_bytes();
    b.append(&mut d);
    proof {
        crate::guid::lemma_uuid_display_ascii(target@);
        assert(b@ =~= cmdline_prefix() + uuid_display(target@));
        assert(all_ascii(b@));
    }
    ascii_to_string(b)
}

} // verus!
