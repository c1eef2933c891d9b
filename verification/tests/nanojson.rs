use vertx::target::pins::parse_pins;
use vertx::target::nanojson::{parse_str as read_str, parse_u8 as read_u8};
use vertx::target::{Display, Target, Ui};

fn u8_at(data: &[u8], mut offset: usize) -> Option<(u8, usize)> {
    let parsed = read_u8(data, &mut offset)?;
    Some((parsed, offset))
}

fn str_at(data: &[u8], mut offset: usize) -> Option<(&str, usize)> {
    let parsed = read_str(data, &mut offset)?;
    Some((parsed, offset))
}

#[test]
fn parse_u8() {
    assert_eq!(u8_at(b"0", 0), Some((0, 1)));
    assert_eq!(u8_at(b"255", 0), Some((255, 3)));
    assert_eq!(u8_at(b" 0", 1), Some((0, 2)));

    assert_eq!(u8_at(b"0b1", 0), Some((0, 1)));
    assert_eq!(u8_at(b"0o1", 0), Some((0, 1)));
    assert_eq!(u8_at(b"0x1", 0), Some((0, 1)));
    assert_eq!(u8_at(b"0.1", 0), Some((0, 1)));
    assert_eq!(u8_at(b"0e1", 0), Some((0, 1)));
    assert_eq!(u8_at(b"0E1", 0), Some((0, 1)));
    assert_eq!(u8_at(b"0 ", 0), Some((0, 1)));

    assert_eq!(u8_at(b"", 0), None);
    assert_eq!(u8_at(b" 0", 0), None);
    assert_eq!(u8_at(b"-1", 0), None);
    assert_eq!(u8_at(b"+1", 0), None);
    assert_eq!(u8_at(b"256", 0), None);
}

#[test]
fn parse_str() {
    assert_eq!(str_at(br#""""#, 0), Some(("", 2)));
    assert_eq!(str_at(br#"" ""#, 0), Some((" ", 3)));
    assert_eq!(str_at(br#""test""#, 0), Some(("test", 6)));

    assert_eq!(str_at(br#" """#, 1), Some(("", 3)));
    assert_eq!(str_at(br#" " ""#, 1), Some((" ", 4)));

    assert_eq!(str_at(b"", 0), None);
    assert_eq!(str_at(br#"""#, 0), None);
    assert_eq!(str_at(br#"''"#, 0), None);
    assert_eq!(str_at(br#" """#, 0), None);
    assert_eq!(str_at(b"\"\n\"", 0), None);
    assert_eq!(str_at(br#""\n""#, 0), None);
}

fn pins_at(data: &[u8], mut offset: usize) -> Option<(Vec<u8>, usize)> {
    let parsed = parse_pins(data, &mut offset)?;
    Some((parsed.iter().copied().collect(), offset))
}

#[test]
fn parse_arrays() {
    // The lists of pins hold at most 16 entries; the cases below do not
    // depend on the capacity.
    assert_eq!(pins_at(b"[]", 0), Some((vec![], 2)));
    assert_eq!(pins_at(b"[0]", 0), Some((vec![0], 3)));
    assert_eq!(pins_at(b"[ 0,1, 2, \n 3 ]", 0), Some((vec![0, 1, 2, 3], 15)));
    assert_eq!(pins_at(b" []", 1), Some((vec![], 3)));

    assert_eq!(pins_at(b" []", 0), None);
    assert_eq!(pins_at(br#"[0, "s"]"#, 0), None);
    assert_eq!(pins_at(b"[0, , 1]", 0), None);
    assert_eq!(pins_at(b"[0,]", 0), None);
}

#[test]
fn parse_u8_stops_where_the_digits_stop() {
    let mut offset = 0;
    assert_eq!(read_u8(b"300", &mut offset), None);
    assert_eq!(offset, 3);
}

#[test]
fn parse_target_description() {
    let json = br#"{
        "status_led": 8,
        "display": { "type": "ssd1306", "sda": 4, "scl": 5 },
        "ui": { "up": 1, "down": 2, "left": 3, "right": 9 },
        "inputs": { "analog": [0, 1, 2, 3], "digital": [] }
    }"#;
    let target = Target::deserialize(json).unwrap();
    assert_eq!(target.status_led, 8);
    assert_eq!(target.display, Display::Ssd1306 { sda: 4, scl: 5 });
    assert_eq!(target.ui, Ui { up: 1, down: 2, left: 3, right: 9 });
    assert_eq!(target.inputs.analog.as_slice(), &[0, 1, 2, 3]);
    assert!(target.inputs.digital.is_empty());
}

#[test]
fn parse_target_refuses_duplicates_and_unknown_keys() {
    let duplicate = br#"{"status_led":1,"status_led":2,"display":{"type":"ssd1306","sda":1,"scl":2},"ui":{"up":1,"down":2,"left":3,"right":4},"inputs":{"analog":[],"digital":[]}}"#;
    assert!(Target::deserialize(duplicate).is_none());
    let unknown = br#"{"status_led":1,"extra":2,"display":{"type":"ssd1306","sda":1,"scl":2},"ui":{"up":1,"down":2,"left":3,"right":4},"inputs":{"analog":[],"digital":[]}}"#;
    assert!(Target::deserialize(unknown).is_none());
    let missing = br#"{"status_led":1,"ui":{"up":1,"down":2,"left":3,"right":4},"inputs":{"analog":[],"digital":[]}}"#;
    assert!(Target::deserialize(missing).is_none());
}

#[test]
fn parse_display_skips_unknown_keys_and_needs_ssd1306() {
    // An unknown key's value is not read, so only a key without a value is
    // skipped; a later value of a key replaces the earlier one.
    let json = br#"{"status_led":1,"display":{"type":"ssd1306","rotation":,"sda":1,"scl":2,"sda":7},"ui":{"up":1,"down":2,"left":3,"right":4},"inputs":{"analog":[],"digital":[]}}"#;
    let target = Target::deserialize(json).unwrap();
    assert_eq!(target.display, Display::Ssd1306 { sda: 7, scl: 2 });
    let valued = br#"{"status_led":1,"display":{"type":"ssd1306","rotation":"x","sda":1,"scl":2},"ui":{"up":1,"down":2,"left":3,"right":4},"inputs":{"analog":[],"digital":[]}}"#;
    assert!(Target::deserialize(valued).is_none());
    let other = br#"{"status_led":1,"display":{"type":"sh1106","sda":1,"scl":2},"ui":{"up":1,"down":2,"left":3,"right":4},"inputs":{"analog":[],"digital":[]}}"#;
    assert!(Target::deserialize(other).is_none());
}

#[test]
fn parse_pins_holds_at_most_sixteen() {
    let sixteen = br#"{"status_led":1,"display":{"type":"ssd1306","sda":1,"scl":2},"ui":{"up":1,"down":2,"left":3,"right":4},"inputs":{"analog":[0,1,2,3,4,5,6,7,8,9,10,11,12,13,14,15],"digital":[]}}"#;
    assert_eq!(Target::deserialize(sixteen).unwrap().inputs.analog.len(), 16);
    let seventeen = br#"{"status_led":1,"display":{"type":"ssd1306","sda":1,"scl":2},"ui":{"up":1,"down":2,"left":3,"right":4},"inputs":{"analog":[0,1,2,3,4,5,6,7,8,9,10,11,12,13,14,15,16],"digital":[]}}"#;
    assert!(Target::deserialize(seventeen).is_none());
}
