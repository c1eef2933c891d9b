//! The hardware description of a target board, read from JSON.
use vstd::prelude::*;
use vstd::string::StringSliceAdditionalSpecFns;

pub mod nanojson;
pub mod pins;

use self::nanojson::{
    lemma_key, lemma_separator, lemma_str, lemma_u8, parse_key, parse_separator,
    parse_str, parse_u8, spec_key, spec_separator, spec_str, spec_u8,
};
use crate::text::bytes_eq;
use self::pins::{lemma_pins, parse_pins, pin_list, spec_pins};

verus! {

pub type Pin = u8;

/// The display of a target.
#[derive(Debug, Clone, Copy, PartialEq, Eq, Structural)]
pub enum Display {
    Ssd1306 { sda: Pin, scl: Pin },
}

/// The buttons of the user interface.
#[derive(Debug, Clone, Copy, PartialEq, Eq, Structural)]
pub struct Ui {
    pub up: Pin,
    pub down: Pin,
    pub left: Pin,
    pub right: Pin,
}

/// The control inputs.
#[derive(Debug)]
pub struct Inputs {
    pub analog: heapless::Vec<Pin, 16>,
    pub digital: heapless::Vec<Pin, 16>,
}

impl View for Inputs {
    type V = (Seq<u8>, Seq<u8>);

    /// The analog and the digital pins.
    open spec fn view(&self) -> (Seq<u8>, Seq<u8>) {
        (pin_list(self.analog), pin_list(self.digital))
    }
}

/// A target board.
#[derive(Debug)]
pub struct Target {
    pub status_led: Pin,
    pub display: Display,
    pub ui: Ui,
    pub inputs: Inputs,
}

impl View for Target {
    type V = (u8, Display, Ui, (Seq<u8>, Seq<u8>));

    open spec fn view(&self) -> (u8, Display, Ui, (Seq<u8>, Seq<u8>)) {
        (self.status_led, self.display, self.ui, self.inputs@)
    }
}

pub open spec fn key_up() -> Seq<u8> {
    seq![0x75u8, 0x70]
}

pub open spec fn key_down() -> Seq<u8> {
    seq![0x64u8, 0x6F, 0x77, 0x6E]
}

pub open spec fn key_left() -> Seq<u8> {
    seq![0x6Cu8, 0x65, 0x66, 0x74]
}

pub open spec fn key_right() -> Seq<u8> {
    seq![0x72u8, 0x69, 0x67, 0x68, 0x74]
}

/// Fields of a `Ui` read so far.
pub type UiFields = (Option<u8>, Option<u8>, Option<u8>, Option<u8>);

/// Reading the value for key `k` at `d` with fields `f` read so far: each
/// key may appear once; unknown keys are refused.
pub open spec fn ui_field(data: Seq<u8>, d: int, k: Seq<u8>, f: UiFields) -> (Option<UiFields>, int) {
    let (v, e) = spec_u8(data, d);
    if k == key_up() && f.0 is None {
        (if v is Some { Some((v, f.1, f.2, f.3)) } else { None }, e)
    } else if k == key_down() && f.1 is None {
        (if v is Some { Some((f.0, v, f.2, f.3)) } else { None }, e)
    } else if k == key_left() && f.2 is None {
        (if v is Some { Some((f.0, f.1, v, f.3)) } else { None }, e)
    } else if k == key_right() && f.3 is None {
        (if v is Some { Some((f.0, f.1, f.2, v)) } else { None }, e)
    } else {
        (None, d)
    }
}

/// The `Ui` made of complete fields.
pub open spec fn ui_of(f: UiFields) -> Option<Ui> {
    if f.0 is Some && f.1 is Some && f.2 is Some && f.3 is Some {
        Some(Ui { up: f.0->0, down: f.1->0, left: f.2->0, right: f.3->0 })
    } else {
        None
    }
}

/// Reading the members of a `Ui` object from `off`, with fields `f` read so
/// far.
pub open spec fn spec_ui_fields(data: Seq<u8>, off: int, f: UiFields) -> (Option<Ui>, int)
    decreases data.len() - off,
{
    if !(0 <= off <= data.len()) {
        (None, off)
    } else {
        let (k, d) = spec_key(data, off);
        match k {
            None => (None, d),
            Some(k) => {
                let (nf, e) = ui_field(data, d, k, f);
                match nf {
                    None => (None, e),
                    Some(nf) => {
                        let (sep, g) = spec_separator(data, e, 0x7D);
                        match sep {
                            Some(true) => {
                                proof {
                                    lemma_key(data, off);
                                    lemma_u8(data, d);
                                    lemma_separator(data, e, 0x7D);
                                }
                                spec_ui_fields(data, g, nf)
                            },
                            Some(false) => (ui_of(nf), g),
                            None => (None, g),
                        }
                    },
                }
            },
        }
    }
}

/// Reading a `Ui` object at `off`.
pub open spec fn spec_ui(data: Seq<u8>, off: int) -> (Option<Ui>, int) {
    if 0 <= off < data.len() && data[off] == 0x7B {
        spec_ui_fields(data, off + 1, (None, None, None, None))
    } else {
        (None, off)
    }
}

pub proof fn lemma_ui_fields(data: Seq<u8>, off: int, f: UiFields)
    requires
        0 <= off <= data.len(),
    ensures
        off <= spec_ui_fields(data, off, f).1 <= data.len(),
        spec_ui_fields(data, off, f).0 is Some ==> spec_ui_fields(data, off, f).1 > off,
    decreases data.len() - off,
{
    lemma_key(data, off);
    let (k, d) = spec_key(data, off);
    if k is Some {
        lemma_u8(data, d);
        let (nf, e) = ui_field(data, d, k->0, f);
        if nf is Some {
            lemma_separator(data, e, 0x7D);
            let (sep, g) = spec_separator(data, e, 0x7D);
            if sep == Some(true) {
                lemma_ui_fields(data, g, nf->0);
            }
        }
    }
}

pub proof fn lemma_ui(data: Seq<u8>, off: int)
    requires
        0 <= off <= data.len(),
    ensures
        off <= spec_ui(data, off).1 <= data.len(),
        spec_ui(data, off).0 is Some ==> spec_ui(data, off).1 > off,
{
    if 0 <= off < data.len() && data[off] == 0x7B {
        lemma_ui_fields(data, off + 1, (None, None, None, None));
    }
}

/// Reads a `Ui` object at `offset` (see `spec_ui`).
pub fn parse_ui(data: &[u8], offset: &mut usize) -> (r: Option<Ui>)
    requires
        *old(offset) <= data@.len(),
    ensures
        (r, *final(offset) as int) == spec_ui(data@, *old(offset) as int),
{
    if *offset >= data.len() || data[*offset] != 0x7B {
        return None;
    }
    *offset = *offset + 1;
    let up_key: [u8; 2] = [0x75, 0x70];
    let down_key: [u8; 4] = [0x64, 0x6F, 0x77, 0x6E];
    let left_key: [u8; 4] = [0x6C, 0x65, 0x66, 0x74];
    let right_key: [u8; 5] = [0x72, 0x69, 0x67, 0x68, 0x74];
    assert(up_key@ == key_up());
    assert(down_key@ == key_down());
    assert(left_key@ == key_left());
    assert(right_key@ == key_right());
    let mut up: Option<u8> = None;
    let mut down: Option<u8> = None;
    let mut left: Option<u8> = None;
    let mut right: Option<u8> = None;
    loop
        invariant_except_break
            spec_ui(data@, *old(offset) as int) == spec_ui_fields(data@, *offset as int, (up, down, left, right)),
        invariant
            *offset <= data@.len(),
            up_key@ == key_up(),
            down_key@ == key_down(),
            left_key@ == key_left(),
            right_key@ == key_right(),
        ensures
            spec_ui(data@, *old(offset) as int) == (ui_of((up, down, left, right)), *offset as int),
        decreases data@.len() - *offset,
    {
        let ghost off = *offset as int;
        proof {
            lemma_key(data@, off);
        }
        let key = match parse_key(data, offset) {
            Some(k) => k.as_bytes(),
            None => return None,
        };
        proof {
            lemma_u8(data@, *offset as int);
        }
        if bytes_eq(key, &up_key) && up.is_none() {
            up = Some(match parse_u8(data, offset) { Some(v) => v, None => return None });
        } else if bytes_eq(key, &down_key) && down.is_none() {
            down = Some(match parse_u8(data, offset) { Some(v) => v, None => return None });
        } else if bytes_eq(key, &left_key) && left.is_none() {
            left = Some(match parse_u8(data, offset) { Some(v) => v, None => return None });
        } else if bytes_eq(key, &right_key) && right.is_none() {
            right = Some(match parse_u8(data, offset) { Some(v) => v, None => return None });
        } else {
            return None;
        }
        proof {
            lemma_separator(data@, *offset as int, 0x7D);
        }
        match parse_separator(data, offset, 0x7D) {
            Some(true) => {},
            Some(false) => break,
            None => return None,
        }
    }
    Some(Ui {
        up: match up { Some(v) => v, None => return None },
        down: match down { Some(v) => v, None => return None },
        left: match left { Some(v) => v, None => return None },
        right: match right { Some(v) => v, None => return None },
    })
}

pub open spec fn key_analog() -> Seq<u8> {
    seq![0x61u8, 0x6E, 0x61, 0x6C, 0x6F, 0x67]
}

pub open spec fn key_digital() -> Seq<u8> {
    seq![0x64u8, 0x69, 0x67, 0x69, 0x74, 0x61, 0x6C]
}

/// Fields of an `Inputs` read so far.
pub type InputsFields = (Option<Seq<u8>>, Option<Seq<u8>>);

/// Reading the value for key `k` at `d`: each key may appear once; unknown
/// keys are refused.
pub open spec fn inputs_field(data: Seq<u8>, d: int, k: Seq<u8>, f: InputsFields) -> (Option<InputsFields>, int) {
    let (v, e) = spec_pins(data, d);
    if k == key_analog() && f.0 is None {
        (if v is Some { Some((v, f.1)) } else { None }, e)
    } else if k == key_digital() && f.1 is None {
        (if v is Some { Some((f.0, v)) } else { None }, e)
    } else {
        (None, d)
    }
}

/// The inputs made of complete fields.
pub open spec fn inputs_of(f: InputsFields) -> Option<(Seq<u8>, Seq<u8>)> {
    if f.0 is Some && f.1 is Some {
        Some((f.0->0, f.1->0))
    } else {
        None
    }
}

/// Reading the members of an `Inputs` object from `off`.
pub open spec fn spec_inputs_fields(data: Seq<u8>, off: int, f: InputsFields) -> (Option<(Seq<u8>, Seq<u8>)>, int)
    decreases data.len() - off,
{
    if !(0 <= off <= data.len()) {
        (None, off)
    } else {
        let (k, d) = spec_key(data, off);
        match k {
            None => (None, d),
            Some(k) => {
                let (nf, e) = inputs_field(data, d, k, f);
                match nf {
                    None => (None, e),
                    Some(nf) => {
                        let (sep, g) = spec_separator(data, e, 0x7D);
                        match sep {
                            Some(true) => {
                                proof {
                                    lemma_key(data, off);
                                    lemma_pins(data, d);
                                    lemma_separator(data, e, 0x7D);
                                }
                                spec_inputs_fields(data, g, nf)
                            },
                            Some(false) => (inputs_of(nf), g),
                            None => (None, g),
                        }
                    },
                }
            },
        }
    }
}

/// Reading an `Inputs` object at `off`: its analog and digital pins.
pub open spec fn spec_inputs(data: Seq<u8>, off: int) -> (Option<(Seq<u8>, Seq<u8>)>, int) {
    if 0 <= off < data.len() && data[off] == 0x7B {
        spec_inputs_fields(data, off + 1, (None, None))
    } else {
        (None, off)
    }
}

pub proof fn lemma_inputs_fields(data: Seq<u8>, off: int, f: InputsFields)
    requires
        0 <= off <= data.len(),
    ensures
        off <= spec_inputs_fields(data, off, f).1 <= data.len(),
        spec_inputs_fields(data, off, f).0 is Some ==> spec_inputs_fields(data, off, f).1 > off,
    decreases data.len() - off,
{
    lemma_key(data, off);
    let (k, d) = spec_key(data, off);
    if k is Some {
        lemma_pins(data, d);
        let (nf, e) = inputs_field(data, d, k->0, f);
        if nf is Some {
            lemma_separator(data, e, 0x7D);
            let (sep, g) = spec_separator(data, e, 0x7D);
            if sep == Some(true) {
                lemma_inputs_fields(data, g, nf->0);
            }
        }
    }
}

pub proof fn lemma_inputs(data: Seq<u8>, off: int)
    requires
        0 <= off <= data.len(),
    ensures
        off <= spec_inputs(data, off).1 <= data.len(),
        spec_inputs(data, off).0 is Some ==> spec_inputs(data, off).1 > off,
{
    if 0 <= off < data.len() && data[off] == 0x7B {
        lemma_inputs_fields(data, off + 1, (None, None));
    }
}

/// The pins of an optional pin list.
pub open spec fn pins_view(v: Option<heapless::Vec<u8, 16>>) -> Option<Seq<u8>> {
    match v {
        Some(v) => Some(pin_list(v)),
        None => None,
    }
}

/// Reads an `Inputs` object at `offset` (see `spec_inputs`).
pub fn parse_inputs(data: &[u8], offset: &mut usize) -> (r: Option<Inputs>)
    requires
        *old(offset) <= data@.len(),
    ensures
        ({
            let (p, end) = spec_inputs(data@, *old(offset) as int);
            &&& *final(offset) == end
            &&& match r {
                Some(v) => p == Some(v@),
                None => p is None,
            }
        }),
{
    if *offset >= data.len() || data[*offset] != 0x7B {
        return None;
    }
    *offset = *offset + 1;
    let analog_key: [u8; 6] = [0x61, 0x6E, 0x61, 0x6C, 0x6F, 0x67];
    let digital_key: [u8; 7] = [0x64, 0x69, 0x67, 0x69, 0x74, 0x61, 0x6C];
    assert(analog_key@ == key_analog());
    assert(digital_key@ == key_digital());
    let mut analog: Option<heapless::Vec<u8, 16>> = None;
    let mut digital: Option<heapless::Vec<u8, 16>> = None;
    loop
        invariant_except_break
            spec_inputs(data@, *old(offset) as int) == spec_inputs_fields(data@, *offset as int, (pins_view(analog), pins_view(digital))),
        invariant
            *offset <= data@.len(),
            analog_key@ == key_analog(),
            digital_key@ == key_digital(),
        ensures
            spec_inputs(data@, *old(offset) as int) == (inputs_of((pins_view(analog), pins_view(digital))), *offset as int),
        decreases data@.len() - *offset,
    {
        let ghost off = *offset as int;
        proof {
            lemma_key(data@, off);
        }
        let key = match parse_key(data, offset) {
            Some(k) => k.as_bytes(),
            None => return None,
        };
        proof {
            lemma_pins(data@, *offset as int);
        }
        if bytes_eq(key, &analog_key) && analog.is_none() {
            analog = Some(match parse_pins(data, offset) { Some(v) => v, None => return None });
        } else if bytes_eq(key, &digital_key) && digital.is_none() {
            digital = Some(match parse_pins(data, offset) { Some(v) => v, None => return None });
        } else {
            return None;
        }
        proof {
            lemma_separator(data@, *offset as int, 0x7D);
        }
        match parse_separator(data, offset, 0x7D) {
            Some(true) => {},
            Some(false) => break,
            None => return None,
        }
    }
    let analog = match analog { Some(v) => v, None => return None };
    let digital = match digital { Some(v) => v, None => return None };
    Some(Inputs { analog, digital })
}

pub open spec fn key_type() -> Seq<u8> {
    seq![0x74u8, 0x79, 0x70, 0x65]
}

pub open spec fn key_sda() -> Seq<u8> {
    seq![0x73u8, 0x64, 0x61]
}

pub open spec fn key_scl() -> Seq<u8> {
    seq![0x73u8, 0x63, 0x6C]
}

/// The name of the SSD1306 display type.
pub open spec fn name_ssd1306() -> Seq<u8> {
    seq![0x73u8, 0x73, 0x64, 0x31, 0x33, 0x30, 0x36]
}

/// Fields of a display read so far: its type, `sda` and `scl`.
pub type DisplayFields = (Option<Seq<u8>>, Option<u8>, Option<u8>);

/// Reading the value for key `k` at `d`: a later value of a key replaces an
/// earlier one, and an unknown key is skipped without reading its value.
pub open spec fn display_field(data: Seq<u8>, d: int, k: Seq<u8>, f: DisplayFields) -> (Option<DisplayFields>, int) {
    if k == key_type() {
        let (v, e) = spec_str(data, d);
        (if v is Some { Some((v, f.1, f.2)) } else { None }, e)
    } else if k == key_sda() {
        let (v, e) = spec_u8(data, d);
        (if v is Some { Some((f.0, v, f.2)) } else { None }, e)
    } else if k == key_scl() {
        let (v, e) = spec_u8(data, d);
        (if v is Some { Some((f.0, f.1, v)) } else { None }, e)
    } else {
        (Some(f), d)
    }
}

/// The display described by complete fields: an SSD1306 with both pins.
pub open spec fn display_of(f: DisplayFields) -> Option<Display> {
    if f.0 == Some(name_ssd1306()) && f.1 is Some && f.2 is Some {
        Some(Display::Ssd1306 { sda: f.1->0, scl: f.2->0 })
    } else {
        None
    }
}

/// Reading the members of a display object from `off`.
pub open spec fn spec_display_fields(data: Seq<u8>, off: int, f: DisplayFields) -> (Option<Display>, int)
    decreases data.len() - off,
{
    if !(0 <= off <= data.len()) {
        (None, off)
    } else {
        let (k, d) = spec_key(data, off);
        match k {
            None => (None, d),
            Some(k) => {
                let (nf, e) = display_field(data, d, k, f);
                match nf {
                    None => (None, e),
                    Some(nf) => {
                        let (sep, g) = spec_separator(data, e, 0x7D);
                        match sep {
                            Some(true) => {
                                proof {
                                    lemma_key(data, off);
                                    lemma_str(data, d);
                                    lemma_u8(data, d);
                                    lemma_separator(data, e, 0x7D);
                                }
                                spec_display_fields(data, g, nf)
                            },
                            Some(false) => (display_of(nf), g),
                            None => (None, g),
                        }
                    },
                }
            },
        }
    }
}

/// Reading a display object at `off`.
pub open spec fn spec_display(data: Seq<u8>, off: int) -> (Option<Display>, int) {
    if 0 <= off < data.len() && data[off] == 0x7B {
        spec_display_fields(data, off + 1, (None, None, None))
    } else {
        (None, off)
    }
}

pub proof fn lemma_display_fields(data: Seq<u8>, off: int, f: DisplayFields)
    requires
        0 <= off <= data.len(),
    ensures
        off <= spec_display_fields(data, off, f).1 <= data.len(),
        spec_display_fields(data, off, f).0 is Some ==> spec_display_fields(data, off, f).1 > off,
    decreases data.len() - off,
{
    lemma_key(data, off);
    let (k, d) = spec_key(data, off);
    if k is Some {
        lemma_str(data, d);
        lemma_u8(data, d);
        let (nf, e) = display_field(data, d, k->0, f);
        if nf is Some {
            lemma_separator(data, e, 0x7D);
            let (sep, g) = spec_separator(data, e, 0x7D);
            if sep == Some(true) {
                lemma_display_fields(data, g, nf->0);
            }
        }
    }
}

pub proof fn lemma_display(data: Seq<u8>, off: int)
    requires
        0 <= off <= data.len(),
    ensures
        off <= spec_display(data, off).1 <= data.len(),
        spec_display(data, off).0 is Some ==> spec_display(data, off).1 > off,
{
    if 0 <= off < data.len() && data[off] == 0x7B {
        lemma_display_fields(data, off + 1, (None, None, None));
    }
}

/// The bytes of an optional string.
pub open spec fn str_view(s: Option<&str>) -> Option<Seq<u8>> {
    match s {
        Some(s) => Some(s.spec_bytes()),
        None => None,
    }
}

/// Reads a display object at `offset` (see `spec_display`).
pub fn parse_display(data: &[u8], offset: &mut usize) -> (r: Option<Display>)
    requires
        *old(offset) <= data@.len(),
    ensures
        (r, *final(offset) as int) == spec_display(data@, *old(offset) as int),
{
    if *offset >= data.len() || data[*offset] != 0x7B {
        return None;
    }
    *offset = *offset + 1;
    let type_key: [u8; 4] = [0x74, 0x79, 0x70, 0x65];
    let sda_key: [u8; 3] = [0x73, 0x64, 0x61];
    let scl_key: [u8; 3] = [0x73, 0x63, 0x6C];
    let ssd1306: [u8; 7] = [0x73, 0x73, 0x64, 0x31, 0x33, 0x30, 0x36];
    assert(type_key@ == key_type());
    assert(sda_key@ == key_sda());
    assert(scl_key@ == key_scl());
    assert(ssd1306@ == name_ssd1306());
    let mut typ: Option<&str> = None;
    let mut sda: Option<u8> = None;
    let mut scl: Option<u8> = None;
    loop
        invariant_except_break
            spec_display(data@, *old(offset) as int) == spec_display_fields(data@, *offset as int, (str_view(typ), sda, scl)),
        invariant
            *offset <= data@.len(),
            type_key@ == key_type(),
            sda_key@ == key_sda(),
            scl_key@ == key_scl(),
            ssd1306@ == name_ssd1306(),
        ensures
            spec_display(data@, *old(offset) as int) == (display_of((str_view(typ), sda, scl)), *offset as int),
        decreases data@.len() - *offset,
    {
        let ghost off = *offset as int;
        proof {
            lemma_key(data@, off);
        }
        let key = match parse_key(data, offset) {
            Some(k) => k.as_bytes(),
            None => return None,
        };
        proof {
            lemma_str(data@, *offset as int);
            lemma_u8(data@, *offset as int);
        }
        if bytes_eq(key, &type_key) {
            typ = Some(match parse_str(data, offset) { Some(v) => v, None => return None });
        } else if bytes_eq(key, &sda_key) {
            sda = Some(match parse_u8(data, offset) { Some(v) => v, None => return None });
        } else if bytes_eq(key, &scl_key) {
            scl = Some(match parse_u8(data, offset) { Some(v) => v, None => return None });
        }
        proof {
            lemma_separator(data@, *offset as int, 0x7D);
        }
        match parse_separator(data, offset, 0x7D) {
            Some(true) => {},
            Some(false) => break,
            None => return None,
        }
    }
    match typ {
        Some(t) => {
            if !bytes_eq(t.as_bytes(), &ssd1306) {
                return None;
            }
        },
        None => return None,
    }
    let sda = match sda { Some(v) => v, None => return None };
    let scl = match scl { Some(v) => v, None => return None };
    Some(Display::Ssd1306 { sda, scl })
}

pub open spec fn key_status_led() -> Seq<u8> {
    seq![0x73u8, 0x74, 0x61, 0x74, 0x75, 0x73, 0x5F, 0x6C, 0x65, 0x64]
}

pub open spec fn key_display() -> Seq<u8> {
    seq![0x64u8, 0x69, 0x73, 0x70, 0x6C, 0x61, 0x79]
}

pub open spec fn key_ui() -> Seq<u8> {
    seq![0x75u8, 0x69]
}

pub open spec fn key_inputs() -> Seq<u8> {
    seq![0x69u8, 0x6E, 0x70, 0x75, 0x74, 0x73]
}

/// Fields of a target read so far.
pub type TargetFields = (Option<u8>, Option<Display>, Option<Ui>, Option<(Seq<u8>, Seq<u8>)>);

/// Reading the value for key `k` at `d`: each key may appear once; unknown
/// keys are refused.
pub open spec fn target_field(data: Seq<u8>, d: int, k: Seq<u8>, f: TargetFields) -> (Option<TargetFields>, int) {
    if k == key_status_led() && f.0 is None {
        let (v, e) = spec_u8(data, d);
        (if v is Some { Some((v, f.1, f.2, f.3)) } else { None }, e)
    } else if k == key_display() && f.1 is None {
        let (v, e) = spec_display(data, d);
        (if v is Some { Some((f.0, v, f.2, f.3)) } else { None }, e)
    } else if k == key_ui() && f.2 is None {
        let (v, e) = spec_ui(data, d);
        (if v is Some { Some((f.0, f.1, v, f.3)) } else { None }, e)
    } else if k == key_inputs() && f.3 is None {
        let (v, e) = spec_inputs(data, d);
        (if v is Some { Some((f.0, f.1, f.2, v)) } else { None }, e)
    } else {
        (None, d)
    }
}

/// The target made of complete fields.
pub open spec fn target_of(f: TargetFields) -> Option<(u8, Display, Ui, (Seq<u8>, Seq<u8>))> {
    if f.0 is Some && f.1 is Some && f.2 is Some && f.3 is Some {
        Some((f.0->0, f.1->0, f.2->0, f.3->0))
    } else {
        None
    }
}

/// Reading the members of a target object from `off`.
pub open spec fn spec_target_fields(data: Seq<u8>, off: int, f: TargetFields) -> (Option<(u8, Display, Ui, (Seq<u8>, Seq<u8>))>, int)
    decreases data.len() - off,
{
    if !(0 <= off <= data.len()) {
        (None, off)
    } else {
        let (k, d) = spec_key(data, off);
        match k {
            None => (None, d),
            Some(k) => {
                let (nf, e) = target_field(data, d, k, f);
                match nf {
                    None => (None, e),
                    Some(nf) => {
                        let (sep, g) = spec_separator(data, e, 0x7D);
                        match sep {
                            Some(true) => {
                                proof {
                                    lemma_key(data, off);
                                    lemma_u8(data, d);
                                    lemma_display(data, d);
                                    lemma_ui(data, d);
                                    lemma_inputs(data, d);
                                    lemma_separator(data, e, 0x7D);
                                }
                                spec_target_fields(data, g, nf)
                            },
                            Some(false) => (target_of(nf), g),
                            None => (None, g),
                        }
                    },
                }
            },
        }
    }
}

/// Reading a target object at `off`.
pub open spec fn spec_target(data: Seq<u8>, off: int) -> (Option<(u8, Display, Ui, (Seq<u8>, Seq<u8>))>, int) {
    if 0 <= off < data.len() && data[off] == 0x7B {
        spec_target_fields(data, off + 1, (None, None, None, None))
    } else {
        (None, off)
    }
}

/// The pins of optional inputs.
pub open spec fn inputs_view(v: Option<Inputs>) -> Option<(Seq<u8>, Seq<u8>)> {
    match v {
        Some(v) => Some(v@),
        None => None,
    }
}

/// Reads a target object at `offset` (see `spec_target`).
pub fn parse_target(data: &[u8], offset: &mut usize) -> (r: Option<Target>)
    requires
        *old(offset) <= data@.len(),
    ensures
        ({
            let (p, end) = spec_target(data@, *old(offset) as int);
            &&& *final(offset) == end
            &&& match r {
                Some(v) => p == Some(v@),
                None => p is None,
            }
        }),
{
    if *offset >= data.len() || data[*offset] != 0x7B {
        return None;
    }
    *offset = *offset + 1;
    let status_led_key: [u8; 10] = [0x73, 0x74, 0x61, 0x74, 0x75, 0x73, 0x5F, 0x6C, 0x65, 0x64];
    let display_key: [u8; 7] = [0x64, 0x69, 0x73, 0x70, 0x6C, 0x61, 0x79];
    let ui_key: [u8; 2] = [0x75, 0x69];
    let inputs_key: [u8; 6] = [0x69, 0x6E, 0x70, 0x75, 0x74, 0x73];
    assert(status_led_key@ == key_status_led());
    assert(display_key@ == key_display());
    assert(ui_key@ == key_ui());
    assert(inputs_key@ == key_inputs());
    let mut status_led: Option<u8> = None;
    let mut display: Option<Display> = None;
    let mut ui: Option<Ui> = None;
    let mut inputs: Option<Inputs> = None;
    loop
        invariant_except_break
            spec_target(data@, *old(offset) as int) == spec_target_fields(data@, *offset as int, (status_led, display, ui, inputs_view(inputs))),
        invariant
            *offset <= data@.len(),
            status_led_key@ == key_status_led(),
            display_key@ == key_display(),
            ui_key@ == key_ui(),
            inputs_key@ == key_inputs(),
        ensures
            spec_target(data@, *old(offset) as int) == (target_of((status_led, display, ui, inputs_view(inputs))), *offset as int),
        decreases data@.len() - *offset,
    {
        let ghost off = *offset as int;
        proof {
            lemma_key(data@, off);
        }
        let key = match parse_key(data, offset) {
            Some(k) => k.as_bytes(),
            None => return None,
        };
        proof {
            lemma_u8(data@, *offset as int);
            lemma_display(data@, *offset as int);
            lemma_ui(data@, *offset as int);
            lemma_inputs(data@, *offset as int);
        }
        if bytes_eq(key, &status_led_key) && status_led.is_none() {
            status_led = Some(match parse_u8(data, offset) { Some(v) => v, None => return None });
        } else if bytes_eq(key, &display_key) && display.is_none() {
            display = Some(match parse_display(data, offset) { Some(v) => v, None => return None });
        } else if bytes_eq(key, &ui_key) && ui.is_none() {
            ui = Some(match parse_ui(data, offset) { Some(v) => v, None => return None });
        } else if bytes_eq(key, &inputs_key) && inputs.is_none() {
            inputs = Some(match parse_inputs(data, offset) { Some(v) => v, None => return None });
        } else {
            return None;
        }
        proof {
            lemma_separator(data@, *offset as int, 0x7D);
        }
        match parse_separator(data, offset, 0x7D) {
            Some(true) => {},
            Some(false) => break,
            None => return None,
        }
    }
    let status_led = match status_led { Some(v) => v, None => return None };
    let display = match display { Some(v) => v, None => return None };
    let ui = match ui { Some(v) => v, None => return None };
    let inputs = match inputs { Some(v) => v, None => return None };
    Some(Target { status_led, display, ui, inputs })
}

impl Target {
    /// Reads a target description from the start of `data` (see
    /// `spec_target`); bytes after the closing brace are ignored.
    pub fn deserialize(data: &[u8]) -> (r: Option<Self>)
        ensures
            match r {
                Some(t) => spec_target(data@, 0).0 == Some(t@),
                None => spec_target(data@, 0).0 is None,
            },
    {
        let mut offset: usize = 0;
        parse_target(data, &mut offset)
    }
}

} // verus!
