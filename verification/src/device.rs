use vstd::prelude::*;

use crate::align::{lemma_is_pow2_pos, lemma_u32_pow2_bit_test};
use vstd::arithmetic::power2::is_pow2;
use crate::Error;
use vstd::arithmetic::div_mod::{
    lemma_div_is_ordered, lemma_div_multiples_vanish_fancy, lemma_fundamental_div_mod,
    lemma_mod_division_less_than_divisor, lemma_mod_multiples_basic,
};
use vstd::arithmetic::mul::{
    lemma_mul_inequality, lemma_mul_is_distributive_add_other_way,
    lemma_mul_is_distributive_sub_other_way, lemma_mul_nonnegative,
};

verus! {

/// Mathematical image of a block device: a byte array served in
/// whole-block transfers of a fixed power-of-two size.
pub struct DeviceView {
    pub bs: int,
    pub contents: Seq<u8>,
}

impl DeviceView {
    pub open spec fn wf(self) -> bool {
        &&& is_pow2(self.bs)
        &&& (self.contents.len() as int) % self.bs == 0
    }
}

/// A device that can only move whole blocks at a time.
pub struct BlockDevice {
    block_size: u32,
    bytes: Vec<u8>,
}

impl View for BlockDevice {
    type V = DeviceView;

    closed spec fn view(&self) -> DeviceView {
        DeviceView { bs: self.block_size as int, contents: self.bytes@ }
    }
}

impl BlockDevice {
    pub open spec fn wf(self) -> bool {
        self@.wf()
    }

    /// Accepts exactly the images whose block size is a power of two
    /// and whose byte length is whole in blocks.
    pub fn new(block_size: u32, bytes: Vec<u8>) -> (r: Result<BlockDevice, Error>)
        ensures
            r matches Ok(d) ==> d.wf() && d@.bs == block_size as int && d@.contents == bytes@,
            r is Err <==> !(is_pow2(block_size as int) && (bytes@.len() as int) % (
            block_size as int) == 0),
            r matches Err(e) ==> e == Error::Io,
    {
        proof {
            lemma_u32_pow2_bit_test(block_size);
        }
        if block_size == 0 || block_size & (block_size - 1) != 0 {
            return Err(Error::Io);
        }
        if bytes.len() % (block_size as usize) != 0 {
            return Err(Error::Io);
        }
        Ok(BlockDevice { block_size, bytes })
    }

    pub fn block_size(&self) -> (r: u32)
        ensures
            r as int == self@.bs,
    {
        self.block_size
    }

    pub fn total_bytes(&self) -> (r: usize)
        ensures
            r as int == self@.contents.len(),
    {
        self.bytes.len()
    }

    /// One whole-block transfer: `count` blocks starting at device
    /// block address `lba`. Fails exactly when the span leaves the
    /// device.
    pub fn read_blocks(&self, lba: u64, count: u64) -> (r: Result<Vec<u8>, Error>)
        requires
            self.wf(),
        ensures
            r is Ok <==> (lba + count) * self@.bs <= self@.contents.len(),
            r matches Ok(v) ==> v@ == self@.contents.subrange(
                lba as int * self@.bs,
                (lba + count) * self@.bs,
            ),
            r matches Err(e) ==> e == Error::Io,
    {
        proof {
            lemma_is_pow2_pos(self@.bs);
        }
        proof {
            vstd::arithmetic::mul::lemma_mul_upper_bound(
                lba as int + count as int,
                0x2_0000_0000_0000_0000,
                self@.bs,
                0x1_0000_0000,
            );
        }
        let bs128 = self.block_size as u128;
        let end128 = (lba as u128 + count as u128) * bs128;
        let total: usize = self.bytes.len();
        if end128 > total as u128 {
            proof {
                lemma_mul_nonnegative(lba as int + count as int, self@.bs);
            }
            return Err(Error::Io);
        }
        proof {
            lemma_mul_inequality(lba as int, lba as int + count as int, self@.bs);
            lemma_mul_nonnegative(lba as int, self@.bs);
            lemma_mul_is_distributive_add_other_way(self@.bs, lba as int, count as int);
            lemma_mul_nonnegative(count as int, self@.bs);
        }
        let start: usize = (lba * (self.block_size as u64)) as usize;
        let n: usize = (count * (self.block_size as u64)) as usize;
        let mut out: Vec<u8> = Vec::new();
        let mut i: usize = 0;
        while i < n
            invariant
                i <= n,
                total as int == self@.contents.len(),
                start + n <= total,
                out@ == self@.contents.subrange(start as int, start as int + i as int),
            decreases n - i,
        {
            let b = self.bytes[start + i];
            out.push(b);
            proof {
                assert(self@.contents.subrange(start as int, start as int + i as int + 1)
                    =~= self@.contents.subrange(start as int, start as int + i as int).push(
                    self@.contents[start as int + i as int],
                ));
            }
            i = i + 1;
        }
        Ok(out)
    }
}

/// The three addressing modes of a seek.
#[derive(Clone, Copy, Debug, PartialEq, Eq, Structural)]
pub enum SeekFrom {
    Start(u64),
    Current(i64),
    End(i64),
}

/// Mathematical image of a reader: an LBA window over a device and a
/// byte cursor within that window.
pub struct ReaderView {
    pub start_lba: int,
    pub end_lba: int,
    pub bs: int,
    pub pos: int,
}

impl ReaderView {
    /// One past the last byte offset the window can serve.
    pub open spec fn max_pos(self) -> int {
        (self.end_lba - self.start_lba) * self.bs
    }

    /// Device-absolute byte address of the cursor.
    pub open spec fn abs(self) -> int {
        self.start_lba * self.bs + self.pos
    }

    pub open spec fn wf(self) -> bool {
        &&& 0 <= self.start_lba <= self.end_lba
        &&& self.bs >= 1
        &&& 0 <= self.pos <= self.max_pos()
        &&& self.end_lba * self.bs <= u64::MAX
    }

    /// The reader reads from this device.
    pub open spec fn wf_for(self, d: DeviceView) -> bool {
        &&& self.wf()
        &&& d.wf()
        &&& self.bs == d.bs
        &&& self.end_lba * self.bs <= d.contents.len()
    }

    pub open spec fn same_range(self, other: ReaderView) -> bool {
        &&& self.start_lba == other.start_lba
        &&& self.end_lba == other.end_lba
        &&& self.bs == other.bs
    }

    /// Where a seek lands, or nothing if it must be refused: no
    /// absolute position at or past the window end, no negative
    /// position, no end-relative seek forwards.
    pub open spec fn seek_target(self, from: SeekFrom) -> Option<int> {
        match from {
            SeekFrom::Start(o) => if (o as int) < self.max_pos() {
                Some(o as int)
            } else {
                None
            },
            SeekFrom::Current(rel) => if 0 <= self.pos + rel && self.pos + rel
                <= self.max_pos() {
                Some(self.pos + rel)
            } else {
                None
            },
            SeekFrom::End(rel) => if rel <= 0 && 0 <= self.max_pos() + rel {
                Some(self.max_pos() + rel)
            } else {
                None
            },
        }
    }

    /// Whether a read of `n` bytes at the cursor can be served: it
    /// must stay inside the window, and it may need the scratch-block
    /// correction at no more than one block boundary — so it must
    /// either start on a boundary and be whole in blocks, or reach the
    /// next boundary and be whole in blocks from there.
    pub open spec fn read_ok(self, n: int) -> bool {
        let off = self.pos % self.bs;
        &&& n >= 0
        &&& self.pos + n <= self.max_pos()
        &&& if off == 0 {
            n % self.bs == 0
        } else {
            n >= self.bs - off && (n - (self.bs - off)) % self.bs == 0
        }
    }

    /// How much of a `want`-byte request the generic read path serves
    /// in one step: never past the window end, never past the next
    /// block boundary from an unaligned cursor, and whole blocks from
    /// an aligned cursor once a block's worth is asked for.
    pub open spec fn short_read_len(self, want: int) -> int {
        let rem = self.max_pos() - self.pos;
        let cap = if want <= rem {
            want
        } else {
            rem
        };
        let off = self.pos % self.bs;
        if off != 0 {
            if cap <= self.bs - off {
                cap
            } else {
                self.bs - off
            }
        } else {
            if cap < self.bs {
                cap
            } else {
                (cap / self.bs) * self.bs
            }
        }
    }
}

/// Byte-precise seek and read over a block-granular device, scoped to
/// the LBA window `[start_lba, end_lba)`.
pub struct BlockReader {
    start_lba: u64,
    end_lba: u64,
    block_size: u32,
    pos: u64,
}

impl View for BlockReader {
    type V = ReaderView;

    closed spec fn view(&self) -> ReaderView {
        ReaderView {
            start_lba: self.start_lba as int,
            end_lba: self.end_lba as int,
            bs: self.block_size as int,
            pos: self.pos as int,
        }
    }
}

impl BlockReader {
    /// Scope a reader to `[start_lba, end_lba)` of the given device,
    /// with the cursor at byte 0 of the window.
    pub fn new(dev: &BlockDevice, start_lba: u64, end_lba: u64) -> (r: Result<
        BlockReader,
        Error,
    >)
        requires
            dev.wf(),
        ensures
            r matches Ok(b) ==> b@.wf_for(dev@) && b@.start_lba == start_lba as int
                && b@.end_lba == end_lba as int && b@.bs == dev@.bs && b@.pos == 0,
            r is Err <==> !(start_lba <= end_lba && end_lba * dev@.bs
                <= dev@.contents.len()),
            r matches Err(e) ==> e == Error::Io,
    {
        proof {
            lemma_is_pow2_pos(dev@.bs);
        }
        if start_lba > end_lba {
            proof {
                lemma_mul_nonnegative(end_lba as int, dev@.bs);
            }
            return Err(Error::Io);
        }
        let bs = dev.block_size();
        proof {
            vstd::arithmetic::mul::lemma_mul_upper_bound(
                end_lba as int,
                0xFFFF_FFFF_FFFF_FFFF,
                dev@.bs,
                0x1_0000_0000,
            );
        }
        let end128 = (end_lba as u128) * (bs as u128);
        if end128 > dev.total_bytes() as u128 {
            return Err(Error::Io);
        }
        proof {
            lemma_mul_nonnegative(end_lba as int - start_lba as int, dev@.bs);
        }
        Ok(BlockReader { start_lba, end_lba, block_size: bs, pos: 0 })
    }

    /// Size of the window in bytes.
    pub fn max_pos(&self) -> (r: u64)
        requires
            self@.wf(),
        ensures
            r as int == self@.max_pos(),
    {
        proof {
            lemma_mul_inequality(
                self@.end_lba - self@.start_lba,
                self@.end_lba,
                self@.bs,
            );
            lemma_mul_nonnegative(self@.end_lba - self@.start_lba, self@.bs);
        }
        (self.end_lba - self.start_lba) * (self.block_size as u64)
    }

    /// The block the cursor is in, relative to the window start, and
    /// the cursor's offset within that block.
    pub fn lba(&self) -> (r: (u64, usize))
        requires
            self@.wf(),
        ensures
            r.0 as int == self@.pos / self@.bs,
            r.1 as int == self@.pos % self@.bs,
    {
        let bs = self.block_size as u64;
        proof {
            lemma_mod_division_less_than_divisor(self@.pos, self@.bs);
            lemma_div_is_ordered(0, self@.pos, self@.bs);
        }
        (self.pos / bs, (self.pos % bs) as usize)
    }

    /// Move the cursor. Exactly the seeks with a target in the window
    /// succeed; a refused seek leaves the cursor where it was.
    pub fn seek(&mut self, from: SeekFrom) -> (r: Result<u64, Error>)
        requires
            old(self)@.wf(),
        ensures
            final(self)@.wf(),
            final(self)@.same_range(old(self)@),
            match old(self)@.seek_target(from) {
                Some(p) => r matches Ok(v) && v as int == p && final(self)@.pos == p,
                None => r matches Err(e) && e == Error::Io && final(self)@ == old(self)@,
            },
    {
        let max = self.max_pos();
        match from {
            SeekFrom::Start(o) => {
                if o < max {
                    self.pos = o;
                    Ok(o)
                } else {
                    Err(Error::Io)
                }
            },
            SeekFrom::Current(rel) => {
                if rel >= 0 {
                    let mag = rel as u64;
                    if mag <= max - self.pos {
                        self.pos = self.pos + mag;
                        Ok(self.pos)
                    } else {
                        Err(Error::Io)
                    }
                } else {
                    let mag = (-(rel as i128)) as u64;
                    if mag <= self.pos {
                        self.pos = self.pos - mag;
                        Ok(self.pos)
                    } else {
                        Err(Error::Io)
                    }
                }
            },
            SeekFrom::End(rel) => {
                if rel > 0 {
                    Err(Error::Io)
                } else {
                    let mag = (-(rel as i128)) as u64;
                    if mag <= max {
                        self.pos = max - mag;
                        Ok(self.pos)
                    } else {
                        Err(Error::Io)
                    }
                }
            },
        }
    }

    /// Fill `buf` from the cursor onwards. On success the bytes are
    /// exactly the device's bytes at the cursor's absolute address and
    /// the cursor moves past them; a refused or failed read changes
    /// nothing. At most one block boundary may need the scratch-block
    /// correction; any other shape of transfer is refused.
    #[verifier::rlimit(60)]
    #[verifier::spinoff_prover]
    pub fn read_exact(&mut self, dev: &BlockDevice, buf: &mut Vec<u8>) -> (r: Result<
        (),
        Error,
    >)
        requires
            old(self)@.wf_for(dev@),
        ensures
            final(self)@.wf_for(dev@),
            final(self)@.same_range(old(self)@),
            r is Ok <==> old(self)@.read_ok(old(buf)@.len() as int),
            r is Ok ==> final(self)@.pos == old(self)@.pos + old(buf)@.len() && final(buf)@
                == dev@.contents.subrange(
                old(self)@.abs(),
                old(self)@.abs() + old(buf)@.len(),
            ),
            r is Err ==> final(self)@ == old(self)@ && final(buf)@ == old(buf)@,
            r matches Err(e) ==> e == Error::Io,
    {
        let ghost rv = self@;
        let n = buf.len();
        let bs64 = self.block_size as u64;
        let max = self.max_pos();
        if n as u64 > max - self.pos {
            return Err(Error::Io);
        }
        let (lba, off) = self.lba();
        proof {
            lemma_fundamental_div_mod(rv.pos, rv.bs);
            lemma_mod_division_less_than_divisor(rv.pos, rv.bs);
            lemma_mul_is_distributive_add_other_way(rv.bs, rv.start_lba, rv.pos / rv.bs);
            lemma_mul_is_distributive_sub_other_way(rv.bs, rv.end_lba, rv.start_lba);
            lemma_div_is_ordered(rv.pos, rv.max_pos(), rv.bs);
            vstd::arithmetic::div_mod::lemma_div_multiples_vanish(
                rv.end_lba - rv.start_lba,
                rv.bs,
            );
        }
        if off == 0 {
            if (n as u64) % bs64 != 0 {
                return Err(Error::Io);
            }
            proof {
                lemma_fundamental_div_mod(n as int, rv.bs);
                lemma_mul_is_distributive_add_other_way(
                    rv.bs,
                    rv.start_lba + rv.pos / rv.bs,
                    n as int / rv.bs,
                );
            }
            let v = match dev.read_blocks(self.start_lba + lba, (n as u64) / bs64) {
                Ok(v) => v,
                Err(_) => {
                    proof {
                        assert(false);
                    }
                    return Err(Error::Io);
                },
            };
            *buf = v;
            self.pos = self.pos + n as u64;
            proof {
                assert(buf@ =~= dev@.contents.subrange(rv.abs(), rv.abs() + n as int));
            }
            Ok(())
        } else {
            let head = bs64 - (off as u64);
            if (n as u64) < head {
                return Err(Error::Io);
            }
            if ((n as u64) - head) % bs64 != 0 {
                return Err(Error::Io);
            }
            let abs_lba = self.start_lba + lba;
            proof {
                let bsi = rv.bs;
                let q = rv.pos / bsi;
                let offi = rv.pos % bsi;
                let ki = (n as int - (bsi - offi)) / bsi;
                lemma_div_is_ordered(rv.pos, rv.max_pos() - 1, bsi);
                lemma_div_multiples_vanish_fancy(
                    rv.end_lba - rv.start_lba - 1,
                    bsi - 1,
                    bsi,
                );
                lemma_fundamental_div_mod(n as int - (bsi - offi), bsi);
                vstd::arithmetic::mul::lemma_mul_is_commutative(bsi, q);
                vstd::arithmetic::mul::lemma_mul_is_commutative(bsi, ki);
                lemma_mul_is_distributive_add_other_way(bsi, rv.start_lba + q, 1);
                lemma_mul_is_distributive_add_other_way(bsi, rv.start_lba + q + 1, ki);
                lemma_mul_is_distributive_sub_other_way(bsi, rv.end_lba, rv.start_lba);
                assert(ki * bsi == n as int - (bsi - offi));
                assert(q * bsi == rv.pos - offi);
                assert((rv.start_lba + q) * bsi == rv.start_lba * bsi + rv.pos - offi);
                assert((rv.start_lba + q + 1) * bsi == rv.start_lba * bsi + rv.pos - offi
                    + bsi);
                assert((rv.start_lba + q + 1 + ki) * bsi == rv.start_lba * bsi + rv.pos
                    + n as int);
                assert(rv.start_lba * bsi + rv.max_pos() == rv.end_lba * bsi);
                assert((rv.start_lba + q + 1 + ki) * bsi <= dev@.contents.len());
                assert((rv.start_lba + q + 1) * bsi <= dev@.contents.len());
                assert(rv.abs() == (rv.start_lba + q) * bsi + offi);
            }
            let scratch = match dev.read_blocks(abs_lba, 1) {
                Ok(v) => v,
                Err(_) => {
                    proof {
                        assert(false);
                    }
                    return Err(Error::Io);
                },
            };
            let bs_us = self.block_size as usize;
            let mut out: Vec<u8> = Vec::new();
            let mut i: usize = off;
            while i < bs_us
                invariant
                    off <= i <= bs_us,
                    scratch@.len() == bs_us,
                    out@ == scratch@.subrange(off as int, i as int),
                decreases bs_us - i,
            {
                let b = scratch[i];
                out.push(b);
                proof {
                    assert(scratch@.subrange(off as int, i as int + 1) =~= scratch@.subrange(
                        off as int,
                        i as int,
                    ).push(scratch@[i as int]));
                }
                i = i + 1;
            }
            if (n as u64) > head {
                proof {
                    lemma_fundamental_div_mod(n as int - (rv.bs - rv.pos % rv.bs), rv.bs);
                    vstd::arithmetic::mul::lemma_mul_is_commutative(
                        rv.bs,
                        (n as int - (rv.bs - rv.pos % rv.bs)) / rv.bs,
                    );
                    lemma_mul_is_distributive_add_other_way(
                        rv.bs,
                        rv.start_lba + rv.pos / rv.bs + 1,
                        (n as int - (rv.bs - rv.pos % rv.bs)) / rv.bs,
                    );
                }
                let mut rest = match dev.read_blocks(abs_lba + 1, ((n as u64) - head) / bs64) {
                    Ok(v) => v,
                    Err(_) => {
                        proof {
                            assert(false);
                        }
                        return Err(Error::Io);
                    },
                };
                out.append(&mut rest);
            }
            proof {
                assert(out@ =~= dev@.contents.subrange(rv.abs(), rv.abs() + n as int));
            }
            *buf = out;
            self.pos = self.pos + n as u64;
            Ok(())
        }
    }

    /// The generic read path: serve some prefix of `want` bytes at
    /// the cursor — up to the next block boundary from an unaligned
    /// cursor, whole blocks from an aligned one — and say how much
    /// that was. At the window end, or for an empty request, it
    /// serves nothing.
    #[verifier::rlimit(60)]
    #[verifier::spinoff_prover]
    pub fn read(&mut self, dev: &BlockDevice, want: usize) -> (r: Result<Vec<u8>, Error>)
        requires
            old(self)@.wf_for(dev@),
        ensures
            final(self)@.wf_for(dev@),
            final(self)@.same_range(old(self)@),
            r matches Ok(v) && ({
                let n = old(self)@.short_read_len(want as int);
                &&& v@ == dev@.contents.subrange(old(self)@.abs(), old(self)@.abs() + n)
                &&& final(self)@.pos == old(self)@.pos + n
            }),
    {
        let ghost rv = self@;
        let bs64 = self.block_size as u64;
        let max = self.max_pos();
        let rem = max - self.pos;
        let cap: u64 = if (want as u64) <= rem {
            want as u64
        } else {
            rem
        };
        let (lba, off) = self.lba();
        proof {
            lemma_fundamental_div_mod(rv.pos, rv.bs);
            lemma_mod_division_less_than_divisor(rv.pos, rv.bs);
            lemma_mul_is_distributive_add_other_way(rv.bs, rv.start_lba, rv.pos / rv.bs);
            lemma_mul_is_distributive_sub_other_way(rv.bs, rv.end_lba, rv.start_lba);
            lemma_div_is_ordered(rv.pos, rv.max_pos(), rv.bs);
            vstd::arithmetic::div_mod::lemma_div_multiples_vanish(
                rv.end_lba - rv.start_lba,
                rv.bs,
            );
        }
        proof {
            if rv.pos % rv.bs == 0 && cap as int >= rv.bs {
                lemma_fundamental_div_mod(cap as int, rv.bs);
                lemma_mod_division_less_than_divisor(cap as int, rv.bs);
                lemma_mul_nonnegative(cap as int / rv.bs, rv.bs);
                vstd::arithmetic::mul::lemma_mul_is_commutative(
                    cap as int / rv.bs,
                    rv.bs,
                );
                vstd::arithmetic::div_mod::lemma_div_multiples_vanish(
                    cap as int / rv.bs,
                    rv.bs,
                );
                assert((cap as int / rv.bs) * rv.bs <= cap as int);
            }
        }
        let n: u64 = if off != 0 {
            let head = bs64 - (off as u64);
            if cap <= head {
                cap
            } else {
                head
            }
        } else {
            if cap < bs64 {
                cap
            } else {
                (cap / bs64) * bs64
            }
        };
        proof {
            assert(n as int == rv.short_read_len(want as int));
        }
        if n == 0 {
            proof {
                assert(Seq::<u8>::empty() =~= dev@.contents.subrange(rv.abs(), rv.abs()));
            }
            return Ok(Vec::new());
        }
        let abs_lba = self.start_lba + lba;
        if off == 0 && n >= bs64 {
            proof {
                assert(n as int == rv.bs * (cap as int / rv.bs));
                assert(n as int / rv.bs == cap as int / rv.bs);
                assert((n as int / rv.bs) * rv.bs == n as int);
                lemma_mul_is_distributive_add_other_way(
                    rv.bs,
                    rv.start_lba + rv.pos / rv.bs,
                    n as int / rv.bs,
                );
            }
            let v = match dev.read_blocks(abs_lba, n / bs64) {
                Ok(v) => v,
                Err(_) => {
                    proof {
                        assert(false);
                    }
                    return Err(Error::Io);
                },
            };
            self.pos = self.pos + n;
            proof {
                assert(v@ =~= dev@.contents.subrange(rv.abs(), rv.abs() + n as int));
            }
            Ok(v)
        } else {
            proof {
                let bsi = rv.bs;
                let q = rv.pos / bsi;
                let offi = rv.pos % bsi;
                lemma_div_is_ordered(rv.pos, rv.max_pos() - 1, bsi);
                lemma_div_multiples_vanish_fancy(
                    rv.end_lba - rv.start_lba - 1,
                    bsi - 1,
                    bsi,
                );
                lemma_mul_is_distributive_add_other_way(bsi, rv.start_lba + q, 1);
                lemma_mul_inequality(q, rv.end_lba - rv.start_lba - 1, bsi);
                lemma_mul_is_distributive_sub_other_way(
                    bsi,
                    rv.end_lba - rv.start_lba,
                    1,
                );
                vstd::arithmetic::mul::lemma_mul_is_commutative(bsi, q);
                assert(q * bsi == rv.pos - offi);
                assert((rv.start_lba + q) * bsi == rv.start_lba * bsi + rv.pos - offi);
                assert(rv.start_lba * bsi + rv.max_pos() == rv.end_lba * bsi);
                assert((rv.start_lba + q + 1) * bsi <= dev@.contents.len());
                assert(rv.abs() == (rv.start_lba + q) * bsi + offi);
            }
            let scratch = match dev.read_blocks(abs_lba, 1) {
                Ok(v) => v,
                Err(_) => {
                    proof {
                        assert(false);
                    }
                    return Err(Error::Io);
                },
            };
            let mut out: Vec<u8> = Vec::new();
            let mut i: usize = off;
            let upto: usize = off + (n as usize);
            while i < upto
                invariant
                    off <= i <= upto,
                    upto <= scratch@.len(),
                    out@ == scratch@.subrange(off as int, i as int),
                decreases upto - i,
            {
                let b = scratch[i];
                out.push(b);
                proof {
                    assert(scratch@.subrange(off as int, i as int + 1) =~= scratch@.subrange(
                        off as int,
                        i as int,
                    ).push(scratch@[i as int]));
                }
                i = i + 1;
            }
            self.pos = self.pos + n;
            proof {
                assert(out@ =~= dev@.contents.subrange(rv.abs(), rv.abs() + n as int));
            }
            Ok(out)
        }
    }
}

/// Reading the same logical byte twice gives the same value, whatever
/// the block alignment at which each covering read started.
pub proof fn lemma_read_agreement(
    d: DeviceView,
    r1: ReaderView,
    n1: int,
    b1: Seq<u8>,
    r2: ReaderView,
    n2: int,
    b2: Seq<u8>,
    j: int,
)
    requires
        r1.wf_for(d),
        r2.wf_for(d),
        r1.read_ok(n1),
        r2.read_ok(n2),
        b1 == d.contents.subrange(r1.abs(), r1.abs() + n1),
        b2 == d.contents.subrange(r2.abs(), r2.abs() + n2),
        r1.abs() <= j < r1.abs() + n1,
        r2.abs() <= j < r2.abs() + n2,
    ensures
        b1[j - r1.abs()] == b2[j - r2.abs()],
{
    lemma_abs_span_in_device(d, r1, n1);
    lemma_abs_span_in_device(d, r2, n2);
    assert(b1[j - r1.abs()] == d.contents[j]);
    assert(b2[j - r2.abs()] == d.contents[j]);
}

/// An admissible read lies inside the device image.
proof fn lemma_abs_span_in_device(d: DeviceView, r: ReaderView, n: int)
    requires
        r.wf_for(d),
        r.read_ok(n),
    ensures
        0 <= r.abs(),
        r.abs() + n <= d.contents.len(),
{
    lemma_mul_nonnegative(r.start_lba, r.bs);
    lemma_mul_is_distributive_sub_other_way(r.bs, r.end_lba, r.start_lba);
}

/// A read that starts inside a block and does not end exactly on a
/// block boundary would need the scratch-block correction at more than
/// one boundary, and is never admissible.
pub proof fn lemma_multi_boundary_read_rejected(r: ReaderView, n: int)
    requires
        r.wf(),
        r.pos % r.bs != 0,
        (r.pos + n) % r.bs != 0,
    ensures
        !r.read_ok(n),
{
    if r.read_ok(n) {
        let off = r.pos % r.bs;
        let k = (n - (r.bs - off)) / r.bs;
        let q = r.pos / r.bs;
        lemma_fundamental_div_mod(r.pos, r.bs);
        lemma_fundamental_div_mod(n - (r.bs - off), r.bs);
        assert(r.pos + n == r.bs * (q + 1 + k)) by {
            lemma_mul_is_distributive_add_other_way(r.bs, q + 1, k);
            lemma_mul_is_distributive_add_other_way(r.bs, q, 1);
        }
        lemma_mod_multiples_basic(q + 1 + k, r.bs);
        assert(false);
    }
}

/// The generic read path always makes progress: with the cursor
/// inside the window and a nonempty request, it serves at least one
/// byte and never more than asked.
pub proof fn lemma_short_read_progress(r: ReaderView, want: int)
    requires
        r.wf(),
        r.pos < r.max_pos(),
        want >= 1,
    ensures
        1 <= r.short_read_len(want) <= want,
{
    lemma_mod_division_less_than_divisor(r.pos, r.bs);
    let rem = r.max_pos() - r.pos;
    let cap = if want <= rem {
        want
    } else {
        rem
    };
    if r.pos % r.bs == 0 && cap >= r.bs {
        lemma_fundamental_div_mod(cap, r.bs);
        lemma_mod_division_less_than_divisor(cap, r.bs);
        vstd::arithmetic::mul::lemma_mul_strictly_positive(cap / r.bs, r.bs);
    }
}

/// The three refused shapes of a seek: an absolute target at or past
/// the window end, a backward step past byte 0, and an end-relative
/// step forwards.
pub proof fn lemma_seek_rejections(r: ReaderView, o: u64, back: i64, fwd: i64)
    requires
        r.wf(),
        o as int >= r.max_pos(),
        r.pos + back < 0,
        fwd > 0,
    ensures
        r.seek_target(SeekFrom::Start(o)) is None,
        r.seek_target(SeekFrom::Current(back)) is None,
        r.seek_target(SeekFrom::End(fwd)) is None,
{
}

} // verus!
