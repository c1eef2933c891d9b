//! Configuration structures field by field: which field a key reaches, and
//! which stored value each field is loaded from.
use vstd::prelude::*;
use vstd::string::StringSliceAdditionalSpecFns;

use super::stored::Stored;
use super::update::Error;
use super::{key_head, key_tail, split_key};
use crate::text::bytes_eq;

verus! {

/// The bytes of each field name.
pub open spec fn names_bytes(names: Seq<&str>) -> Seq<Seq<u8>> {
    names.map_values(|n: &str| n.spec_bytes())
}

/// The index of the first name equal to `name`.
pub open spec fn first_field(names: Seq<Seq<u8>>, name: Seq<u8>) -> Option<int>
    decreases names.len(),
{
    if names.len() == 0 {
        None
    } else if names.last() == name && first_field(names.drop_last(), name) is None {
        Some(names.len() - 1)
    } else {
        first_field(names.drop_last(), name)
    }
}

proof fn lemma_first_field(names: Seq<Seq<u8>>, name: Seq<u8>)
    ensures
        first_field(names, name) matches Some(i) ==> 0 <= i < names.len() && names[i] == name
            && forall|j: int| 0 <= j < i ==> names[j] != name,
        first_field(names, name) is None ==> forall|j: int| 0 <= j < names.len() ==> names[j] != name,
    decreases names.len(),
{
    if names.len() > 0 {
        let init = names.drop_last();
        lemma_first_field(init, name);
        assert forall|j: int| 0 <= j < init.len() implies init[j] == names[j] by {}
    }
}

/// The position of the first field called `name`.
pub fn field_index(fields: &[&str], name: &str) -> (r: Option<usize>)
    ensures
        match r {
            Some(i) => first_field(names_bytes(fields@), name.spec_bytes()) == Some(i as int),
            None => first_field(names_bytes(fields@), name.spec_bytes()) is None,
        },
{
    let ghost names = names_bytes(fields@);
    proof {
        lemma_first_field(names, name.spec_bytes());
    }
    let n = name.as_bytes();
    let mut i: usize = 0;
    while i < fields.len()
        invariant
            i <= fields@.len(),
            names == names_bytes(fields@),
            n@ == name.spec_bytes(),
            forall|j: int| 0 <= j < i ==> names[j] != n@,
        decreases fields@.len() - i,
    {
        if bytes_eq(fields[i].as_bytes(), n) {
            proof {
                assert(names[i as int] == n@);
                lemma_first_unique(names, n@, i as int);
            }
            return Some(i);
        }
        i = i + 1;
    }
    proof {
        lemma_first_none(names, n@);
    }
    None
}

proof fn lemma_first_unique(names: Seq<Seq<u8>>, name: Seq<u8>, i: int)
    requires
        0 <= i < names.len(),
        names[i] == name,
        forall|j: int| 0 <= j < i ==> names[j] != name,
    ensures
        first_field(names, name) == Some(i),
{
    lemma_first_field(names, name);
}

proof fn lemma_first_none(names: Seq<Seq<u8>>, name: Seq<u8>)
    requires
        forall|j: int| 0 <= j < names.len() ==> names[j] != name,
    ensures
        first_field(names, name) is None,
{
    lemma_first_field(names, name);
}

/// Which field of a structure with the fields `fields` an update at `key`
/// reaches, and the rest of the key it carries there: the field named by
/// the key's first component, or `KeyNotFound`.
pub fn dispatch_key<'a>(fields: &[&str], key: &'a str) -> (r: Result<(usize, &'a str), Error>)
    ensures
        match first_field(names_bytes(fields@), key_head(key.spec_bytes())) {
            Some(i) => r matches Ok((j, rest)) && j == i && rest.spec_bytes() == key_tail(key.spec_bytes()),
            None => r == Err::<(usize, &str), Error>(Error::KeyNotFound),
        },
{
    let (head, tail) = split_key(key);
    match field_index(fields, head) {
        Some(i) => Ok((i, tail)),
        None => Err(Error::KeyNotFound),
    }
}

/// The value stored last under `name` among `entries`.
pub open spec fn last_value<'a>(entries: Seq<(&'a str, Stored<'a>)>, name: Seq<u8>) -> Option<Stored<'a>>
    decreases entries.len(),
{
    if entries.len() == 0 {
        None
    } else {
        let later = last_value(entries.drop_first(), name);
        if later is Some {
            later
        } else if entries[0].0.spec_bytes() == name {
            Some(entries[0].1)
        } else {
            None
        }
    }
}

/// The entries of a stored structure; any other stored value has none.
pub open spec fn struct_entries<'a>(from: Stored<'a>) -> Seq<(&'a str, Stored<'a>)> {
    match from {
        Stored::Struct(entries) => entries@,
        _ => Seq::empty(),
    }
}

/// The stored value each field of a structure with the fields `fields` is
/// loaded from: the last entry of the stored structure with the field's
/// name, if any. Entries naming no field are ignored; fields without an
/// entry keep their default.
pub fn load_fields<'a>(fields: &[&str], from: Stored<'a>) -> (r: Vec<Option<Stored<'a>>>)
    ensures
        r@.len() == fields@.len(),
        forall|i: int|
            0 <= i < fields@.len() ==> #[trigger] r@[i] == (match first_field(names_bytes(fields@), fields@[i].spec_bytes()) {
                Some(k) => if k == i {
                    last_value(struct_entries(from), fields@[i].spec_bytes())
                } else {
                    None
                },
                None => None,
            }),
{
    let ghost names = names_bytes(fields@);
    let mut out: Vec<Option<Stored<'a>>> = Vec::new();
    let mut k: usize = 0;
    while k < fields.len()
        invariant
            k <= fields@.len(),
            out@.len() == k,
            forall|i: int| 0 <= i < k ==> out@[i] is None,
        decreases fields@.len() - k,
    {
        out.push(None);
        k = k + 1;
    }
    let mut entries = match from {
        Stored::Struct(entries) => entries,
        _ => Vec::new(),
    };
    let ghost all = entries@;
    assert(all == struct_entries(from));
    while entries.len() > 0
        invariant
            out@.len() == fields@.len(),
            names == names_bytes(fields@),
            all == struct_entries(from),
            entries@.len() <= all.len(),
            entries@ == all.subrange(0, entries@.len() as int),
            forall|i: int|
                0 <= i < fields@.len() ==> #[trigger] out@[i] == (match first_field(names, fields@[i].spec_bytes()) {
                    Some(k) => if k == i {
                        last_value(all.subrange(entries@.len() as int, all.len() as int), fields@[i].spec_bytes())
                    } else {
                        None
                    },
                    None => None,
                }),
        decreases entries@.len(),
    {
        let ghost before = entries@;
        let (name, value) = match entries.pop() {
            Some(e) => e,
            None => {
                proof {
                    assert(false);
                }
                return out;
            },
        };
        let ghost at = entries@.len() as int;
        proof {
            assert(before == all.subrange(0, at + 1));
            assert(before[at] == all[at]);
            assert(all[at] == (name, value));
            assert(all.subrange(at, all.len() as int).drop_first() =~= all.subrange(at + 1, all.len() as int));
            assert(entries@ =~= all.subrange(0, at));
        }
        proof {
            lemma_first_field(names, name.spec_bytes());
        }
        match field_index(fields, name) {
            Some(i) => {
                if out[i].is_none() {
                    out.set(i, Some(value));
                }
            },
            None => {},
        }
        proof {
            lemma_first_field(names, name.spec_bytes());
            assert forall|i: int| 0 <= i < fields@.len() implies #[trigger] out@[i] == (match first_field(names, fields@[i].spec_bytes()) {
                Some(k) => if k == i {
                    last_value(all.subrange(at, all.len() as int), fields@[i].spec_bytes())
                } else {
                    None
                },
                None => None,
            }) by {
                assert(names[i] == fields@[i].spec_bytes());
                lemma_first_field(names, fields@[i].spec_bytes());
                lemma_first_field(names, name.spec_bytes());
            }
        }
    }
    proof {
        assert(all.subrange(0, all.len() as int) =~= all);
    }
    out
}

/// An update at the key `name.rest`, where `name` is the `i`-th of distinct
/// field names and holds no `.`, reaches field `i` carrying `rest`.
pub proof fn lemma_key_reaches_field(names: Seq<Seq<u8>>, i: int, rest: Seq<u8>)
    requires
        0 <= i < names.len(),
        forall|a: int, b: int| 0 <= a < b < names.len() ==> names[a] != names[b],
        !names[i].contains(0x2Eu8),
    ensures
        key_head(names[i] + seq![0x2Eu8] + rest) == names[i],
        key_tail(names[i] + seq![0x2Eu8] + rest) == rest,
        first_field(names, key_head(names[i] + seq![0x2Eu8] + rest)) == Some(i),
{
    let name = names[i];
    let key = name + seq![0x2Eu8] + rest;
    crate::text::lemma_find_byte(key, 0x2E);
    let f = crate::text::find_byte(key, 0x2E);
    assert(key[name.len() as int] == 0x2E);
    if f < name.len() {
        assert(key[f] == name[f]);
    }
    assert(f == name.len());
    assert(key.subrange(0, f) =~= name);
    assert(key.subrange(f + 1, key.len() as int) =~= rest);
    lemma_first_field(names, name);
    if first_field(names, name) is Some {
        let k = first_field(names, name)->0;
        assert(names[k] == name);
        if k != i {
            if k < i {
                assert(names[k] != names[i]);
            } else {
                assert(names[i] != names[k]);
            }
        }
    }
}

} // verus!
