use vertx::ipc::{
    backpack_action, completes_init, needs_flush, simulator_action, starts_init, BackpackAction,
    Message, SimulatorAction, ToBackpack, ToMain, ToManager, ToVertx, INIT,
};
use vertx::network::{field_access_point, network_kind, Credentials, JoinOutcome, NetworkKind};
use vertx::simulator::{
    child_env, is_api_request, parse_port, passes_env, EnvVar, restarts, Config, Manager, ManagerAction, ManagerEvent, PeekedStream, Rgb,
};

#[test]
fn init_handshake() {
    assert!(starts_init(b'V'));
    assert!(!starts_init(b'X'));
    assert!(completes_init(b"erTX\0", 5));
    assert!(!completes_init(b"erTX\0", 4));
    assert!(!completes_init(b"erTXX", 5));
    assert_eq!(&INIT, b"VerTX\0");
}

#[test]
fn backpack_starts_the_network_once() {
    let mut started = false;
    assert!(matches!(backpack_action(&mut started, ToBackpack::SetBootMode(2)), BackpackAction::SetBootMode(2)));
    assert!(!started);
    let config = || vertx::network::Config {
        home: None,
        field: vertx::network::FieldConfig {
            credentials: vertx::network::Credentials { ssid: String::from("a"), password: String::new() },
            address: [10, 0, 0, 1],
        },
    };
    assert!(matches!(backpack_action(&mut started, ToBackpack::StartNetwork(config())), BackpackAction::StartNetwork(_)));
    assert!(started);
    assert!(matches!(backpack_action(&mut started, ToBackpack::StartNetwork(config())), BackpackAction::NetworkAlreadyStarted));
    assert!(matches!(backpack_action(&mut started, ToBackpack::Reboot), BackpackAction::Reboot));
    assert!(needs_flush(&ToMain::PowerAck));
    assert!(!needs_flush(&ToMain::NetworkUp));
}

#[test]
fn simulated_backpack() {
    let mut started = false;
    assert!(matches!(simulator_action(&mut started, ToBackpack::ShutDown), SimulatorAction::PowerAck));
    match simulator_action(&mut started, ToBackpack::ApiResponse(vec![1])) {
        SimulatorAction::ApiResponse(v) => assert_eq!(v, vec![1]),
        _ => panic!(),
    }
    assert!(matches!(Message::from(ToVertx::BackpackAck), Message::Simulator(ToVertx::BackpackAck)));
}

#[test]
fn simulator_network() {
    assert!(is_api_request(b"GET /api HTTP/1.1\r\n"));
    assert!(is_api_request(b"GET /apix"));
    assert!(!is_api_request(b"GET / HTTP/1.1"));
    assert!(!is_api_request(b"GET"));

    let config = Config { host: None, port: 8080, vite_host: Some(String::from("dev")), vite_port: 5173 };
    assert_eq!(config.addr(), ("localhost", 8080));
    assert_eq!(config.vite_addr(), ("dev", 5173));

    let mut peeked = PeekedStream::new(b"hello".to_vec());
    assert_eq!(peeked.read_peeked(3), Some(&b"hel"[..]));
    assert_eq!(peeked.read_peeked(10), Some(&b"lo"[..]));
    assert_eq!(peeked.read_peeked(10), None);
}

#[test]
fn simulator_environment_and_exit() {
    assert!(passes_env("VERTX_CONFIG"));
    assert!(!passes_env("HOME"));
    assert!(!passes_env("VERTX"));
    assert!(restarts(11));
    assert!(!restarts(10));
}

#[test]
fn joining_networks() {
    assert_eq!(network_kind(JoinOutcome::Connected), NetworkKind::Home);
    assert_eq!(network_kind(JoinOutcome::TimedOut), NetworkKind::Field);
    let ap = field_access_point(Credentials { ssid: String::from("VerTX"), password: String::from("pw") });
    assert_eq!(ap.ssid, "VerTX");
    assert!(!ap.hidden);
    assert_eq!(ap.channel, 1);
}

#[test]
fn simulator_window() {
    let mut manager = Manager::new();
    assert_eq!(manager.update(ManagerEvent::ToggleConfigurator), ManagerAction::Nothing);
    assert_eq!(manager.update(ManagerEvent::Ipc(ToManager::SetBootMode(2))), ManagerAction::Nothing);
    assert_eq!(manager.boot_mode, 2);
    assert_eq!(manager.update(ManagerEvent::BootPressed), ManagerAction::StartVertx);
    assert!(manager.running);
    assert_eq!(manager.update(ManagerEvent::ToggleConfigurator), ManagerAction::PressModeButton);
    manager.update(ManagerEvent::Ipc(ToManager::StatusLed { r: 1, g: 2, b: 3 }));
    assert_eq!(manager.status_led, Rgb { r: 1, g: 2, b: 3 });
    assert_eq!(manager.update(ManagerEvent::Exited { restart: true }), ManagerAction::StartVertx);
    assert!(manager.running);
    assert_eq!(manager.boot_mode, 2);
    assert_eq!(manager.update(ManagerEvent::Exited { restart: false }), ManagerAction::Nothing);
    assert!(!manager.running);
    assert_eq!(manager.boot_mode, 0);
}

fn env_var(name: &str, value: &str) -> EnvVar {
    EnvVar { name: name.as_bytes().to_vec(), value: value.as_bytes().to_vec() }
}

fn env_pairs(env: Vec<EnvVar>) -> Vec<(Vec<u8>, Vec<u8>)> {
    env.into_iter().map(|v| (v.name, v.value)).collect()
}

#[test]
fn child_env_sets_config_passes_vertx_vars_and_boot_mode() {
    let parent = vec![
        env_var("HOME", "/root"),
        env_var("VERTX_LOG", "debug"),
        env_var("VERTX", "x"),
        env_var("VERTX_CONFIG", "other.bin"),
    ];
    assert_eq!(
        env_pairs(child_env(&parent, 142)),
        vec![
            (b"VERTX_CONFIG".to_vec(), b"config.bin".to_vec()),
            (b"VERTX_LOG".to_vec(), b"debug".to_vec()),
            (b"VERTX_CONFIG".to_vec(), b"other.bin".to_vec()),
            (b"VERTX_BOOT_MODE".to_vec(), b"142".to_vec()),
        ]
    );
    assert_eq!(
        env_pairs(child_env(&[], 0)),
        vec![
            (b"VERTX_CONFIG".to_vec(), b"config.bin".to_vec()),
            (b"VERTX_BOOT_MODE".to_vec(), b"0".to_vec()),
        ]
    );
    // A name that is not text is not passed on.
    let odd = EnvVar { name: b"VERTX_\xFF".to_vec(), value: b"v".to_vec() };
    assert_eq!(env_pairs(child_env(&[odd], 3)).len(), 2);
    assert_eq!(env_pairs(child_env(&[], 7))[1].1, b"7".to_vec());
    assert_eq!(env_pairs(child_env(&[], 10))[1].1, b"10".to_vec());
    assert_eq!(env_pairs(child_env(&[], 255))[1].1, b"255".to_vec());
}

#[test]
fn ports_read_like_unsigned_16_bit_integers() {
    assert_eq!(parse_port("8080"), Some(8080));
    assert_eq!(parse_port("+80"), Some(80));
    assert_eq!(parse_port("007"), Some(7));
    assert_eq!(parse_port("65535"), Some(65535));
    assert_eq!(parse_port("65536"), None);
    assert_eq!(parse_port("999999"), None);
    assert_eq!(parse_port(""), None);
    assert_eq!(parse_port("+"), None);
    assert_eq!(parse_port("-1"), None);
    assert_eq!(parse_port(" 80"), None);
    assert_eq!(parse_port("80x"), None);
}

#[test]
fn config_from_env_defaults_and_reads_the_port() {
    let config = Config::from_env(None, None, None);
    assert_eq!(config.addr(), ("localhost", 8080));
    assert_eq!(config.vite_addr(), ("localhost", 5173));

    // Both ports come from `VERTX_PORT`.
    let config = Config::from_env(Some(String::from("0.0.0.0")), Some("9000"), Some(String::from("dev")));
    assert_eq!(config.addr(), ("0.0.0.0", 9000));
    assert_eq!(config.vite_addr(), ("dev", 9000));
}
