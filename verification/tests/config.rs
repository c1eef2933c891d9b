use vertx::config::fields::{dispatch_key, field_index, load_fields};
use vertx::api::{action, Action, ConfigUpdateResult, Request};
use vertx::config::postcard::Postcard;
use vertx::config::raw::{check_version, write_version, DeserializeError, LockedView, RawConfig, VERSION};
use vertx::config::split_key;
use vertx::config::stored::{load_bool, load_string, Stored};
use vertx::config::update::{update_bool, update_string, Error, Update};

#[test]
fn split_keys() {
    assert_eq!(split_key("network.home.ssid"), ("network", "home.ssid"));
    assert_eq!(split_key("name"), ("name", ""));
    assert_eq!(split_key(".x"), ("", "x"));
}

#[test]
fn updates() {
    let mut b = false;
    assert_eq!(update_bool(&mut b, "", Update::Boolean(true)), Ok(()));
    assert!(b);
    assert_eq!(update_bool(&mut b, "x", Update::Boolean(false)), Err(Error::KeyNotFound));
    assert_eq!(update_bool(&mut b, "", Update::Unsigned(1)), Err(Error::InvalidType));
    assert!(b);

    let mut s = String::from("old");
    assert_eq!(update_string(&mut s, Some(3), "", Update::String("long")), Err(Error::TooLarge { max: 3 }));
    assert_eq!(s, "old");
    assert_eq!(update_string(&mut s, Some(3), "", Update::String("new")), Ok(()));
    assert_eq!(s, "new");
}

#[test]
fn update_results() {
    assert_eq!(ConfigUpdateResult::from(Ok(())), ConfigUpdateResult::Success);
    assert_eq!(
        ConfigUpdateResult::from(Err(Error::TooSmall { min: -3 })),
        ConfigUpdateResult::TooSmall { min: -3 }
    );
    assert_eq!(ConfigUpdateResult::from(Err(Error::InvalidValue)), ConfigUpdateResult::InvalidValue);
}

#[test]
fn api_actions() {
    match action(Request::ProtocolVersion) {
        Action::ProtocolVersion { major, minor } => assert_eq!((major, minor), (0, 0)),
        _ => panic!(),
    }
    match action(Request::ConfigUpdate { id: 9, key: "name", value: Update::String("x") }) {
        Action::ConfigUpdate { id, key, .. } => assert_eq!((id, key), (9, "name")),
        _ => panic!(),
    }
}

#[test]
fn postcard_encoding() {
    let mut p = Postcard(Vec::new());
    p.structure(1);
    p.field("on");
    p.boolean(true);
    assert_eq!(p.0, vec![5, 1, 2, b'o', b'n', 0, 1]);

    let mut p = Postcard(Vec::new());
    p.unsigned(300);
    p.signed(-3);
    p.string("ab");
    assert_eq!(p.0, vec![2, 0xAC, 0x02, 3, 5, 1, 2, b'a', b'b']);
}

#[test]
fn stored_values() {
    assert!(load_bool(Stored::Boolean(true)));
    assert!(!load_bool(Stored::Unsigned(1)));
    assert_eq!(load_string(Stored::String("abc"), None), "abc");
    assert_eq!(load_string(Stored::String("abc"), Some(2)), "");
    assert_eq!(load_string(Stored::Signed(1), None), "");
}

#[test]
fn raw_config() {
    let a = RawConfig::default();
    assert_eq!(a.name, "VerTX");
    assert_eq!(a.leds_brightness, 10);
    assert_eq!(a.network_hostname, "vertx");
    let mut b = RawConfig::default();
    b.leds_brightness = 3;
    b.network_home_ssid = String::from("home");
    assert_eq!(a.diff(&b), vec![1, 4]);
    assert_eq!(b.diff(&a), vec![1, 4]);
    assert!(a.diff(&a).is_empty());

    let mut buffer = vec![9u8; 8];
    write_version(&mut buffer, VERSION);
    assert_eq!(buffer, vec![3, 0, 0, 0, 9, 9, 9, 9]);
    assert_eq!(check_version(&buffer, 3), Ok(&[9u8, 9, 9, 9][..]));
    assert_eq!(check_version(&buffer, 4), Err(DeserializeError::WrongVersion));
}

#[test]
fn keys_reach_fields() {
    let fields = ["name", "leds", "network"];
    assert_eq!(dispatch_key(&fields, "network.home.ssid"), Ok((2, "home.ssid")));
    assert_eq!(dispatch_key(&fields, "name"), Ok((0, "")));
    assert_eq!(dispatch_key(&fields, "volume"), Err(Error::KeyNotFound));
    assert_eq!(field_index(&fields, "leds"), Some(1));
    assert_eq!(field_index(&fields, "led"), None);
}

#[test]
fn stored_structures_load_field_by_field() {
    let fields = ["a", "b", "c"];
    let stored = Stored::Struct(vec![
        ("b", Stored::Boolean(true)),
        ("x", Stored::Unsigned(1)),
        ("a", Stored::String("first")),
        ("a", Stored::String("second")),
    ]);
    let loaded = load_fields(&fields, stored);
    assert_eq!(loaded.len(), 3);
    assert!(matches!(loaded[0], Some(Stored::String("second"))));
    assert!(matches!(loaded[1], Some(Stored::Boolean(true))));
    assert!(loaded[2].is_none());
    assert!(load_fields(&fields, Stored::Boolean(true)).iter().all(Option::is_none));
}

#[test]
fn locked_views_reach_fields() {
    let mut config = RawConfig::default();
    config.network_home_ssid = String::from("home");
    let root = LockedView::root(&config);
    assert_eq!(*root.name(), "VerTX");
    assert_eq!(*root.leds().brightness(), 10);
    assert_eq!(*root.network().hostname(), "vertx");
    assert_eq!(*root.network().home().ssid(), "home");
    assert_eq!(*root.network().home().password(), "");
    assert_eq!(*root.network().password(), "");
}
