use vstd::prelude::*;

use crate::guid::{uuid_text_bytes, uuid_text_wf, Uuid};
use crate::Error;
use vstd::string::StringSliceAdditionalSpecFns;

verus! {

/// A recognised boot-option token.
pub enum Options {
    BootIndex(Uuid),
}

/// The UUID bytes a token carries.
pub open spec fn opt_bytes(o: Options) -> Seq<u8> {
    match o {
        Options::BootIndex(u) => u@,
    }
}

/// The bytes of the one recognised key, `boot-index=`.
pub open spec fn boot_prefix() -> Seq<u8> {
    seq![98u8, 111u8, 111u8, 116u8, 45u8, 105u8, 110u8, 100u8, 101u8, 120u8, 61u8]
}

/// The boot-option grammar from position `i` on: one or more
/// space-separated `boot-index=<uuid>` tokens and nothing else.
pub open spec fn options_wf_at(s: Seq<u8>, i: int) -> bool
    decreases s.len() - i,
{
    &&& 0 <= i
    &&& i + 47 <= s.len()
    &&& s.subrange(i, i + 11) == boot_prefix()
    &&& uuid_text_wf(s.subrange(i + 11, i + 47))
    &&& (s.len() == i + 47 || (s[i + 47] == 32 && options_wf_at(s, i + 48)))
}

/// The UUIDs the tokens carry, in order.
pub open spec fn options_values_at(s: Seq<u8>, i: int) -> Seq<Seq<u8>>
    decreases s.len() - i,
{
    if s.len() <= i + 47 {
        seq![uuid_text_bytes(s.subrange(i + 11, i + 47))]
    } else {
        seq![uuid_text_bytes(s.subrange(i + 11, i + 47))] + options_values_at(s, i + 48)
    }
}

pub open spec fn options_wf(s: Seq<u8>) -> bool {
    options_wf_at(s, 0)
}

pub open spec fn options_values(s: Seq<u8>) -> Seq<Seq<u8>> {
    options_values_at(s, 0)
}

/// Parse the boot-option string. A missing `boot-index`, an
/// unrecognised key, a malformed UUID or trailing content is refused.
pub fn parse_options(input: &str) -> (r: Result<Vec<Options>, Error>)
    ensures
        r is Ok <==> options_wf(input.spec_bytes()),
        r matches Ok(v) ==> v@.map_values(|o: Options| opt_bytes(o)) == options_values(
            input.spec_bytes(),
        ),
        r matches Err(e) ==> e == Error::Config,
{
    let b = input.as_bytes();
    parse_options_at(b, 0)
}

/// One token at position `i`, then the rest.
fn parse_options_at(s: &[u8], i: usize) -> (r: Result<Vec<Options>, Error>)
    ensures
        r is Ok <==> options_wf_at(s@, i as int),
        r matches Ok(v) ==> v@.map_values(|o: Options| opt_bytes(o)) == options_values_at(
            s@,
            i as int,
        ),
        r matches Err(e) ==> e == Error::Config,
    decreases s@.len() - i,
{
    if s.len() < 47 || i > s.len() - 47 {
        return Err(Error::Config);
    }
    if !(s[i + 0] == 98 && s[i + 1] == 111 && s[i + 2] == 111 && s[i + 3] == 116 && s[i + 4] == 45 && s[i + 5] == 105 && s[i + 6] == 110 && s[i + 7] == 100 && s[i + 8] == 101 && s[i + 9] == 120 && s[i + 10] == 61) {
        proof {
            assert(s@.subrange(i as int, i as int + 11) != boot_prefix());
        }
        return Err(Error::Config);
    }
    proof {
        assert(s@.subrange(i as int, i as int + 11) =~= boot_prefix());
    }
    let text = vstd::slice::slice_subrange(s, i + 11, i + 47);
    let u = match Uuid::parse(text) {
        Ok(u) => u,
        Err(e) => {
            return Err(e);
        },
    };
    let mut v: Vec<Options> = Vec::new();
    if i + 47 == s.len() {
        v.push(Options::BootIndex(u));
        proof {
            assert(v@.map_values(|o: Options| opt_bytes(o)) =~= options_values_at(
                s@,
                i as int,
            ));
        }
        return Ok(v);
    }
    if s[i + 47] != 32 {
        return Err(Error::Config);
    }
    let mut rest = match parse_options_at(s, i + 48) {
        Ok(rest) => rest,
        Err(e) => {
            return Err(e);
        },
    };
    v.push(Options::BootIndex(u));
    v.append(&mut rest);
    proof {
        assert(v@.map_values(|o: Options| opt_bytes(o)) =~= options_values_at(s@, i as int));
    }
    Ok(v)
}

} // verus!
