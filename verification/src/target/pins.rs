//! Lists of pins, held in a fixed capacity `heapless::Vec`.
use vstd::prelude::*;

use super::nanojson::{
    lemma_separator, lemma_u8, parse_separator, parse_u8, skip_whitespace, skip_ws, spec_separator,
    spec_u8,
};

verus! {

/// Makes `heapless::Vec` known to Verus as an opaque type; the pins a list
/// holds are seen through `pin_list`.
#[verifier::external_type_specification]
#[verifier::external_body]
#[verifier::reject_recursive_types(T)]
pub struct ExHeaplessVec<T, const N: usize>(heapless::Vec<T, N>);

/// The pins held in a pin list.
pub uninterp spec fn pin_list(v: heapless::Vec<u8, 16>) -> Seq<u8>;

/// Calls `heapless::Vec::<u8, 16>::new()`: an empty list.
#[verifier::external_body]
pub(crate) fn pins_new() -> (r: heapless::Vec<u8, 16>)
    ensures
        pin_list(r) == Seq::<u8>::empty(),
{
    heapless::Vec::new()
}

/// Calls `heapless::Vec::<u8, 16>::push`: appends `pin` when the list holds
/// fewer than 16 pins, and otherwise gives `pin` back, leaving the list alone.
#[verifier::external_body]
pub(crate) fn pins_push(v: &mut heapless::Vec<u8, 16>, pin: u8) -> (r: Result<(), u8>)
    ensures
        r == if pin_list(*old(v)).len() < 16 {
            Ok::<(), u8>(())
        } else {
            Err::<(), u8>(pin)
        },
        pin_list(*final(v)) == if pin_list(*old(v)).len() < 16 {
            pin_list(*old(v)).push(pin)
        } else {
            pin_list(*old(v))
        },
{
    v.push(pin)
}

/// Reading the items of a pin array from `off` (after the opening bracket),
/// with `items` read so far: the pins (if the array is well formed and holds
/// at most 16 of them) and where reading stopped.
pub open spec fn spec_pin_items(data: Seq<u8>, off: int, items: Seq<u8>) -> (Option<Seq<u8>>, int)
    decreases data.len() - off,
{
    if !(0 <= off <= data.len()) {
        (None, off)
    } else {
        let a = skip_ws(data, off);
        let (v, b) = spec_u8(data, a);
        match v {
            None => (None, b),
            Some(x) => if items.len() >= 16 {
                (None, b)
            } else {
                let (sep, g) = spec_separator(data, b, 0x5D);
                match sep {
                    Some(true) => {
                        proof {
                            super::nanojson::lemma_skip_ws_bounds(data, off);
                            lemma_u8(data, a);
                            lemma_separator(data, b, 0x5D);
                        }
                        spec_pin_items(data, g, items.push(x))
                    },
                    Some(false) => (Some(items.push(x)), g),
                    None => (None, g),
                }
            },
        }
    }
}

/// Reading a pin array at `off`: an opening bracket, then either a closing
/// bracket right away or comma separated pins and a closing bracket.
pub open spec fn spec_pins(data: Seq<u8>, off: int) -> (Option<Seq<u8>>, int) {
    if !(0 <= off < data.len() && data[off] == 0x5B) {
        (None, off)
    } else if off + 1 >= data.len() {
        (None, off + 1)
    } else if data[off + 1] == 0x5D {
        (Some(Seq::empty()), off + 2)
    } else {
        spec_pin_items(data, off + 1, Seq::empty())
    }
}

pub proof fn lemma_pin_items(data: Seq<u8>, off: int, items: Seq<u8>)
    requires
        0 <= off <= data.len(),
    ensures
        off <= spec_pin_items(data, off, items).1 <= data.len(),
        spec_pin_items(data, off, items).0 is Some ==> spec_pin_items(data, off, items).1 > off,
    decreases data.len() - off,
{
    super::nanojson::lemma_skip_ws_bounds(data, off);
    let a = skip_ws(data, off);
    lemma_u8(data, a);
    let (v, b) = spec_u8(data, a);
    if v is Some && items.len() < 16 {
        lemma_separator(data, b, 0x5D);
        let (sep, g) = spec_separator(data, b, 0x5D);
        if sep == Some(true) {
            lemma_pin_items(data, g, items.push(v->0));
        }
    }
}

pub proof fn lemma_pins(data: Seq<u8>, off: int)
    requires
        0 <= off <= data.len(),
    ensures
        off <= spec_pins(data, off).1 <= data.len(),
        spec_pins(data, off).0 is Some ==> spec_pins(data, off).1 > off,
{
    if 0 <= off < data.len() && data[off] == 0x5B && off + 1 < data.len() && data[off + 1] != 0x5D {
        lemma_pin_items(data, off + 1, Seq::empty());
    }
}

/// Reads a pin array at `offset` (see `spec_pins`).
pub fn parse_pins(data: &[u8], offset: &mut usize) -> (r: Option<heapless::Vec<u8, 16>>)
    requires
        *old(offset) <= data@.len(),
    ensures
        ({
            let (p, end) = spec_pins(data@, *old(offset) as int);
            &&& *final(offset) == end
            &&& match r {
                Some(v) => p == Some(pin_list(v)),
                None => p is None,
            }
        }),
{
    if *offset >= data.len() || data[*offset] != 0x5B {
        return None;
    }
    *offset = *offset + 1;
    if *offset >= data.len() {
        return None;
    }
    if data[*offset] == 0x5D {
        *offset = *offset + 1;
        return Some(pins_new());
    }
    let mut vec = pins_new();
    loop
        invariant_except_break
            spec_pins(data@, *old(offset) as int) == spec_pin_items(data@, *offset as int, pin_list(vec)),
        invariant
            *offset <= data@.len(),
            *old(offset) < data@.len(),
            data@[*old(offset) as int] == 0x5B,
            *old(offset) + 1 < data@.len(),
            data@[*old(offset) + 1] != 0x5D,
        ensures
            spec_pins(data@, *old(offset) as int) == (Some(pin_list(vec)), *offset as int),
        decreases data@.len() - *offset,
    {
        let ghost off = *offset as int;
        let ghost items = pin_list(vec);
        proof {
            super::nanojson::lemma_skip_ws_bounds(data@, off);
            lemma_u8(data@, skip_ws(data@, off));
        }
        skip_whitespace(data, offset);
        let item = match parse_u8(data, offset) {
            Some(x) => x,
            None => return None,
        };
        if pins_push(&mut vec, item).is_err() {
            return None;
        }
        proof {
            lemma_separator(data@, *offset as int, 0x5D);
        }
        match parse_separator(data, offset, 0x5D) {
            Some(true) => {},
            Some(false) => break,
            None => return None,
        }
    }
    Some(vec)
}

} // verus!
