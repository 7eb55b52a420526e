use vstd::prelude::*;

use crate::text::{all_ascii, ascii_chars, ascii_to_string};
use crate::Error;

verus! {

/// Index permutation of GPT's mixed-endian storage convention: the
/// first three UUID fields (4, 2 and 2 bytes) are byte-reversed, the
/// last two kept as they stand.
pub open spec fn gpt_swizzle_index(i: int) -> int {
    if i < 4 {
        3 - i
    } else if i < 6 {
        9 - i
    } else if i < 8 {
        13 - i
    } else {
        i
    }
}

/// The byte-order transform between a UUID's standard form and its
/// GPT storage form. Applying it twice gives the original back.
pub open spec fn gpt_swizzle(s: Seq<u8>) -> Seq<u8> {
    Seq::new(s.len(), |i: int| s[gpt_swizzle_index(i)])
}

/// The GPT byte-order transform is its own inverse.
pub proof fn lemma_gpt_swizzle_involution(s: Seq<u8>)
    requires
        s.len() == 16,
    ensures
        gpt_swizzle(gpt_swizzle(s)) == s,
{
    assert(gpt_swizzle(gpt_swizzle(s)) =~= s);
}

/// Positions of the hyphens in the 36-byte hyphenated text form.
pub open spec fn is_hyphen_pos(j: int) -> bool {
    j == 8 || j == 13 || j == 18 || j == 23
}

/// Text position of hex digit `k` (0 <= k < 32) in the hyphenated form.
pub open spec fn hex_pos(k: int) -> int {
    k + (if k >= 8 {
        1int
    } else {
        0int
    }) + (if k >= 12 {
        1int
    } else {
        0int
    }) + (if k >= 16 {
        1int
    } else {
        0int
    }) + (if k >= 20 {
        1int
    } else {
        0int
    })
}

/// Hex digit index of a non-hyphen text position.
pub open spec fn hex_idx(j: int) -> int {
    j - (if j > 8 {
        1int
    } else {
        0int
    }) - (if j > 13 {
        1int
    } else {
        0int
    }) - (if j > 18 {
        1int
    } else {
        0int
    }) - (if j > 23 {
        1int
    } else {
        0int
    })
}

pub open spec fn is_hex_digit(b: u8) -> bool {
    (48 <= b <= 57) || (97 <= b <= 102) || (65 <= b <= 70)
}

pub open spec fn hex_val(b: u8) -> int {
    if 48 <= b <= 57 {
        b - 48
    } else if 97 <= b <= 102 {
        b - 87
    } else if 65 <= b <= 70 {
        b - 55
    } else {
        0
    }
}

/// Lower-case hex digit of a nibble.
pub open spec fn hex_char_of(v: int) -> u8 {
    if v < 10 {
        (48 + v) as u8
    } else {
        (87 + v) as u8
    }
}

/// A well-formed hyphenated UUID text: 8-4-4-4-12 hex digits.
pub open spec fn uuid_text_wf(s: Seq<u8>) -> bool {
    &&& s.len() == 36
    &&& forall|j: int|
        0 <= j < 36 ==> (if is_hyphen_pos(j) {
            s[j] == 45
        } else {
            is_hex_digit(#[trigger] s[j])
        })
}

/// The sixteen bytes a well-formed hyphenated UUID text denotes.
pub open spec fn uuid_text_bytes(s: Seq<u8>) -> Seq<u8> {
    Seq::new(16, |i: int| (hex_val(s[hex_pos(2 * i)]) * 16 + hex_val(s[hex_pos(2 * i + 1)])) as u8)
}

/// The hyphenated lower-case text form of sixteen UUID bytes.
pub open spec fn uuid_display(u: Seq<u8>) -> Seq<u8> {
    Seq::new(
        36,
        |j: int|
            if is_hyphen_pos(j) {
                45u8
            } else {
                if hex_idx(j) % 2 == 0 {
                    hex_char_of(u[hex_idx(j) / 2] as int / 16)
                } else {
                    hex_char_of(u[hex_idx(j) / 2] as int % 16)
                }
            },
    )
}

/// A 128-bit identifier held in standard field order unless said
/// otherwise where it is used.
pub struct Uuid {
    bytes: Vec<u8>,
}

impl View for Uuid {
    type V = Seq<u8>;

    closed spec fn view(&self) -> Seq<u8> {
        self.bytes@
    }
}

impl Uuid {
    pub open spec fn wf(self) -> bool {
        self@.len() == 16
    }

    pub fn from_bytes(bytes: Vec<u8>) -> (r: Result<Uuid, Error>)
        ensures
            r matches Ok(u) ==> u.wf() && u@ == bytes@,
            r is Err <==> bytes@.len() != 16,
            r matches Err(e) ==> e == Error::Config,
    {
        if bytes.len() != 16 {
            Err(Error::Config)
        } else {
            Ok(Uuid { bytes })
        }
    }

    pub fn byte_at(&self, i: usize) -> (r: u8)
        requires
            self.wf(),
            i < 16,
        ensures
            r == self@[i as int],
    {
        self.bytes[i]
    }

    /// Apply the GPT byte-order transform; the same call maps the
    /// standard form to the storage form and back.
    pub fn swizzled(&self) -> (r: Uuid)
        requires
            self.wf(),
        ensures
            r.wf(),
            r@ == gpt_swizzle(self@),
    {
        let b = &self.bytes;
        let mut v: Vec<u8> = Vec::new();
        v.push(b[3]);
        v.push(b[2]);
        v.push(b[1]);
        v.push(b[0]);
        v.push(b[5]);
        v.push(b[4]);
        v.push(b[7]);
        v.push(b[6]);
        let mut i: usize = 8;
        while i < 16
            invariant
                8 <= i <= 16,
                self.wf(),
                v@.len() == i,
                forall|j: int| 0 <= j < i ==> v@[j] == self@[gpt_swizzle_index(j)],
            decreases 16 - i,
        {
            let b = self.bytes[i];
            v.push(b);
            i = i + 1;
        }
        proof {
            assert(v@ =~= gpt_swizzle(self@));
        }
        Uuid { bytes: v }
    }

    /// Bytewise equality.
    pub fn eq_uuid(&self, other: &Uuid) -> (r: bool)
        requires
            self.wf(),
            other.wf(),
        ensures
            r == (self@ == other@),
    {
        let mut i: usize = 0;
        while i < 16
            invariant
                0 <= i <= 16,
                self.wf(),
                other.wf(),
                forall|j: int| 0 <= j < i ==> self@[j] == other@[j],
            decreases 16 - i,
        {
            if self.bytes[i] != other.bytes[i] {
                return false;
            }
            i = i + 1;
        }
        proof {
            assert(self@ =~= other@);
        }
        true
    }

    /// Bytewise comparison against a plain byte vector.
    pub fn eq_bytes(&self, v: &Vec<u8>) -> (r: bool)
        requires
            self.wf(),
        ensures
            r == (v@ == self@),
    {
        if v.len() != 16 {
            return false;
        }
        let mut i: usize = 0;
        while i < 16
            invariant
                0 <= i <= 16,
                self.wf(),
                v@.len() == 16,
                forall|j: int| 0 <= j < i ==> v@[j] == self@[j],
            decreases 16 - i,
        {
            if v[i] != self.bytes[i] {
                return false;
            }
            i = i + 1;
        }
        proof {
            assert(v@ =~= self@);
        }
        true
    }

    /// Parse the hyphenated text form; exactly the well-formed texts
    /// are accepted.
    pub fn parse(s: &[u8]) -> (r: Result<Uuid, Error>)
        ensures
            r is Ok <==> uuid_text_wf(s@),
            r matches Ok(u) ==> u.wf() && u@ == uuid_text_bytes(s@),
            r matches Err(e) ==> e == Error::Config,
    {
        if s.len() != 36 {
            return Err(Error::Config);
        }
        let mut j: usize = 0;
        while j < 36
            invariant
                s@.len() == 36,
                j <= 36,
                forall|t: int|
                    0 <= t < j ==> (if is_hyphen_pos(t) {
                        s@[t] == 45
                    } else {
                        is_hex_digit(#[trigger] s@[t])
                    }),
            decreases 36 - j,
        {
            let b = s[j];
            if j == 8 || j == 13 || j == 18 || j == 23 {
                if b != 45 {
                    return Err(Error::Config);
                }
            } else {
                if !((48 <= b && b <= 57) || (97 <= b && b <= 102) || (65 <= b && b <= 70)) {
                    return Err(Error::Config);
                }
            }
            j = j + 1;
        }
        let mut out: Vec<u8> = Vec::new();
        let mut k: usize = 0;
        while k < 16
            invariant
                uuid_text_wf(s@),
                k <= 16,
                out@.len() == k,
                forall|t: int| 0 <= t < k ==> out@[t] == uuid_text_bytes(s@)[t],
            decreases 16 - k,
        {
            let p_hi = hex_pos_at(2 * k);
            let p_lo = hex_pos_at(2 * k + 1);
            proof {
                assert(!is_hyphen_pos(hex_pos(2 * k as int)));
                assert(!is_hyphen_pos(hex_pos(2 * k as int + 1)));
            }
            let hi = hex_val_at(s[p_hi]);
            let lo = hex_val_at(s[p_lo]);
            out.push(hi * 16 + lo);
            k = k + 1;
        }
        proof {
            assert(out@ =~= uuid_text_bytes(s@));
        }
        Ok(Uuid { bytes: out })
    }

    /// The hyphenated lower-case text bytes of this identifier.
    pub fn display_bytes(&self) -> (r: Vec<u8>)
        requires
            self.wf(),
        ensures
            r@ == uuid_display(self@),
    {
        let mut out: Vec<u8> = Vec::new();
        let mut j: usize = 0;
        while j < 36
            invariant
                self.wf(),
                j <= 36,
                out@.len() == j,
                forall|t: int| 0 <= t < j ==> out@[t] == uuid_display(self@)[t],
            decreases 36 - j,
        {
            if j == 8 || j == 13 || j == 18 || j == 23 {
                out.push(45);
            } else {
                let k = hex_idx_at(j);
                let b = self.bytes[k / 2];
                let nib: u8 = if k % 2 == 0 {
                    b / 16
                } else {
                    b % 16
                };
                let c: u8 = if nib < 10 {
                    48 + nib
                } else {
                    87 + nib
                };
                out.push(c);
            }
            j = j + 1;
        }
        proof {
            assert(out@ =~= uuid_display(self@));
        }
        out
    }

    /// The hyphenated lower-case string form.
    pub fn to_hyphenated(&self) -> (r: String)
        requires
            self.wf(),
        ensures
            r@ == ascii_chars(uuid_display(self@)),
    {
        let b = self.display_bytes();
        proof {
            lemma_uuid_display_ascii(self@);
        }
        ascii_to_string(b)
    }
}

/// The display form of a UUID holds only ASCII bytes.
pub proof fn lemma_uuid_display_ascii(u: Seq<u8>)
    requires
        u.len() == 16,
    ensures
        all_ascii(uuid_display(u)),
{
    assert forall|i: int| 0 <= i < uuid_display(u).len() implies uuid_display(u)[i] < 128 by {
        assert(uuid_display(u)[i] == uuid_display(u).index(i));
    }
}

/// Exec mirror of `hex_pos`.
fn hex_pos_at(k: usize) -> (r: usize)
    requires
        k < 32,
    ensures
        r as int == hex_pos(k as int),
        r < 36,
{
    let mut r = k;
    if k >= 8 {
        r = r + 1;
    }
    if k >= 12 {
        r = r + 1;
    }
    if k >= 16 {
        r = r + 1;
    }
    if k >= 20 {
        r = r + 1;
    }
    r
}

/// Exec mirror of `hex_idx`.
fn hex_idx_at(j: usize) -> (r: usize)
    requires
        j < 36,
        !is_hyphen_pos(j as int),
    ensures
        r as int == hex_idx(j as int),
        r < 32,
{
    let mut r = j;
    if j > 8 {
        r = r - 1;
    }
    if j > 13 {
        r = r - 1;
    }
    if j > 18 {
        r = r - 1;
    }
    if j > 23 {
        r = r - 1;
    }
    r
}

/// Exec mirror of `hex_val` for checked hex digits.
fn hex_val_at(b: u8) -> (r: u8)
    requires
        is_hex_digit(b),
    ensures
        r as int == hex_val(b),
        r < 16,
{
    if 48 <= b && b <= 57 {
        b - 48
    } else if 97 <= b && b <= 102 {
        b - 87
    } else {
        b - 55
    }
}

} // verus!
