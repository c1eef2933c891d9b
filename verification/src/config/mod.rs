//! Configuration: keys, updates of values and their storage encoding.
use vstd::prelude::*;
use vstd::string::StringSliceAdditionalSpecFns;

use crate::text::{find_byte, lemma_find_byte, split_once_ascii};

pub mod minmax;
pub mod fields;
pub mod key;
pub mod postcard;
pub mod raw;
pub mod stored;
pub mod update;

verus! {

/// The first component of a key: up to its first `.`, or all of it.
pub open spec fn key_head(key: Seq<u8>) -> Seq<u8> {
    let i = find_byte(key, 0x2E);
    if i < key.len() {
        key.subrange(0, i)
    } else {
        key
    }
}

/// The rest of a key after its first `.`, or nothing.
pub open spec fn key_tail(key: Seq<u8>) -> Seq<u8> {
    let i = find_byte(key, 0x2E);
    if i < key.len() {
        key.subrange(i + 1, key.len() as int)
    } else {
        Seq::empty()
    }
}

/// Splits a configuration key into its first component and the rest: at
/// the first `.`, or the whole key and an empty rest when it has none.
pub fn split_key(key: &str) -> (r: (&str, &str))
    ensures
        r.0.spec_bytes() == key_head(key.spec_bytes()),
        r.1.spec_bytes() == key_tail(key.spec_bytes()),
        find_byte(key.spec_bytes(), 0x2E) >= key.spec_bytes().len() ==> r.0 == key,
{
    match split_once_ascii(key, 0x2E) {
        Some(parts) => parts,
        None => {
            let empty = "";
            proof {
                reveal_strlit("");
                assert(empty.spec_bytes() =~= Seq::<u8>::empty());
            }
            (key, empty)
        },
    }
}

/// A key split at its first `.` is the two parts joined by that `.`.
pub proof fn lemma_split_key_rejoins(key: Seq<u8>)
    requires
        find_byte(key, 0x2E) < key.len(),
    ensures
        key.subrange(0, find_byte(key, 0x2E)) + seq![0x2Eu8] + key.subrange(find_byte(key, 0x2E) + 1, key.len() as int) == key,
        !key.subrange(0, find_byte(key, 0x2E)).contains(0x2Eu8),
{
    lemma_find_byte(key, 0x2E);
    let i = find_byte(key, 0x2E);
    assert(key.subrange(0, i) + seq![0x2Eu8] + key.subrange(i + 1, key.len() as int) =~= key);
}

} // verus!
