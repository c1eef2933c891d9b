//! The simulator's stand-in for the backpack's network: where it listens,
//! which connections are API connections, and replaying peeked bytes.
use vstd::prelude::*;

use vstd::string::StringSliceAdditionalSpecFns;
use vstd::utf8::*;

use crate::server::respond::decimal;
use crate::text::{bytes_eq, decimal_value, is_digit, push_bytes, str_from_utf8};

verus! {

/// Where the simulated backpack listens, and where the configurator's
/// development server runs.
#[derive(Debug)]
pub struct Config {
    pub host: Option<String>,
    pub port: u16,
    pub vite_host: Option<String>,
    pub vite_port: u16,
}

/// The host, or `localhost` without one.
pub open spec fn host_or_localhost(host: Option<String>) -> Seq<char> {
    match host {
        Some(h) => h@,
        None => "localhost"@,
    }
}

/// The digits of a port number written as `s`: `s` without a leading `+`.
pub open spec fn port_digits(s: Seq<u8>) -> Seq<u8> {
    if s.len() > 0 && s[0] == 0x2B {
        s.subrange(1, s.len() as int)
    } else {
        s
    }
}

/// The port number that the text `s` reads as, the way an unsigned 16 bit
/// integer is read from text: an optional `+`, then at least one decimal
/// digit and nothing else, of value at most 65535.
pub open spec fn port_value(s: Seq<u8>) -> Option<u16> {
    let d = port_digits(s);
    if d.len() > 0 && (forall|i: int| 0 <= i < d.len() ==> is_digit(#[trigger] d[i])) && decimal_value(d) <= 65535 {
        Some(decimal_value(d) as u16)
    } else {
        None
    }
}

/// Reads the port number `text`, as `port_value` says.
pub fn parse_port(text: &str) -> (r: Option<u16>)
    ensures
        r == port_value(text.spec_bytes()),
{
    let b = text.as_bytes();
    let start: usize = if b.len() > 0 && b[0] == 0x2B { 1 } else { 0 };
    let ghost d = port_digits(b@);
    assert(d =~= b@.subrange(start as int, b@.len() as int));
    if start >= b.len() {
        return None;
    }
    let mut value: u32 = 0;
    let mut big = false;
    let mut i = start;
    while i < b.len()
        invariant
            start <= i <= b@.len(),
            d == b@.subrange(start as int, b@.len() as int),
            d == port_digits(b@),
            b@ == text.spec_bytes(),
            forall|j: int| start <= j < i ==> is_digit(#[trigger] b@[j]),
            !big ==> value == decimal_value(b@.subrange(start as int, i as int)) && value <= 65535,
            big ==> decimal_value(b@.subrange(start as int, i as int)) > 65535,
        decreases b@.len() - i,
    {
        let c = b[i];
        if c < 0x30 || c > 0x39 {
            assert(d[i - start] == c);
            assert(!is_digit(d[i - start]));
            assert(port_value(b@) is None);
            return None;
        }
        proof {
            let p = b@.subrange(start as int, i + 1);
            assert(p.drop_last() =~= b@.subrange(start as int, i as int));
            assert(p.last() == c);
        }
        if !big {
            value = value * 10 + (c - 0x30) as u32;
            if value > 65535 {
                big = true;
            }
        }
        i = i + 1;
    }
    assert(b@.subrange(start as int, b@.len() as int) == d);
    assert forall|j: int| 0 <= j < d.len() implies is_digit(#[trigger] d[j]) by {
        assert(d[j] == b@[j + start]);
    }
    if big {
        None
    } else {
        Some(value as u16)
    }
}

impl Config {
    /// The configuration given the environment's `VERTX_HOST`,
    /// `VERTX_PORT` and `VITE_HOST`, where set: the hosts as given, and
    /// both ports read from `VERTX_PORT`, defaulting to 8080 and 5173.
    pub fn from_env(host: Option<String>, port: Option<&str>, vite_host: Option<String>) -> (r: Config)
        requires
            port matches Some(p) ==> port_value(p.spec_bytes()) is Some,
        ensures
            r.host == host,
            r.vite_host == vite_host,
            r.port == match port {
                Some(p) => port_value(p.spec_bytes())->0,
                None => 8080u16,
            },
            r.vite_port == match port {
                Some(p) => port_value(p.spec_bytes())->0,
                None => 5173u16,
            },
    {
        let (port, vite_port) = match port {
            Some(p) => {
                let v = match parse_port(p) {
                    Some(v) => v,
                    None => 0,
                };
                (v, v)
            },
            None => (8080, 5173),
        };
        Config { host, port, vite_host, vite_port }
    }

    /// Where to listen.
    pub fn addr(&self) -> (r: (&str, u16))
        ensures
            r.0@ == host_or_localhost(self.host),
            r.1 == self.port,
    {
        let host = match &self.host {
            Some(h) => h.as_str(),
            None => "localhost",
        };
        (host, self.port)
    }

    /// Where the development server runs.
    pub fn vite_addr(&self) -> (r: (&str, u16))
        ensures
            r.0@ == host_or_localhost(self.vite_host),
            r.1 == self.vite_port,
    {
        let host = match &self.vite_host {
            Some(h) => h.as_str(),
            None => "localhost",
        };
        (host, self.vite_port)
    }
}

/// Whether the first line of a request opens an API connection: it starts
/// with `GET /api`.
pub fn is_api_request(first_line: &[u8]) -> (r: bool)
    ensures
        r == (first_line@.len() >= 8 && first_line@.subrange(0, 8) == "GET /api".spec_bytes()),
{
    first_line.len() >= 8 && bytes_eq(&first_line[0..8], "GET /api".as_bytes())
}

/// Bytes read ahead of a stream, handed out again before the stream's own.
#[derive(Debug)]
pub struct PeekedStream {
    peeked: Vec<u8>,
    read_peeked: usize,
}

impl View for PeekedStream {
    type V = (Seq<u8>, nat);

    /// The peeked bytes and how many of them were handed out.
    closed spec fn view(&self) -> (Seq<u8>, nat) {
        (self.peeked@, self.read_peeked as nat)
    }
}

impl PeekedStream {
    pub closed spec fn wf(&self) -> bool {
        self.read_peeked <= self.peeked@.len()
    }

    /// A stream that first hands out `peeked`.
    pub fn new(peeked: Vec<u8>) -> (r: Self)
        ensures
            r.wf(),
            r@ == (peeked@, 0nat),
    {
        PeekedStream { peeked, read_peeked: 0 }
    }

    /// The next peeked bytes for a read with room for `remaining` bytes: as
    /// many as fit, or `None` once all were handed out (the read then goes
    /// to the stream).
    pub fn read_peeked(&mut self, remaining: usize) -> (r: Option<&[u8]>)
        requires
            old(self).wf(),
        ensures
            final(self).wf(),
            final(self)@.0 == old(self)@.0,
            ({
                let (bytes, done) = old(self)@;
                if done < bytes.len() {
                    let n = if bytes.len() - done < remaining { bytes.len() - done } else { remaining as int };
                    final(self)@.1 == done + n && (r matches Some(s) && s@ == bytes.subrange(done as int, done + n))
                } else {
                    r is None && final(self)@.1 == done
                }
            }),
    {
        if self.read_peeked < self.peeked.len() {
            let left = self.peeked.len() - self.read_peeked;
            let len = if left < remaining { left } else { remaining };
            let start = self.read_peeked;
            let end = start + len;
            self.read_peeked = end;
            let all = self.peeked.as_slice();
            Some(&all[start..end])
        } else {
            None
        }
    }
}

/// Whether a variable named `name` is passed on to the simulated handset:
/// its name starts with `VERTX_`.
pub open spec fn passed_name(name: Seq<u8>) -> bool {
    name.len() >= 6 && name.subrange(0, 6) == "VERTX_".spec_bytes()
}

/// Whether an environment variable is passed on to the simulated handset:
/// those whose name starts with `VERTX_`.
pub fn passes_env(name: &str) -> (r: bool)
    ensures
        r == passed_name(name.spec_bytes()),
{
    let b = name.as_bytes();
    b.len() >= 6 && bytes_eq(&b[0..6], "VERTX_".as_bytes())
}

/// A variable of a process environment: its name and its value, as bytes.
#[derive(Debug, Clone)]
pub struct EnvVar {
    pub name: Vec<u8>,
    pub value: Vec<u8>,
}

/// The name and value of each variable of `vars`.
pub open spec fn env_pairs(vars: Seq<EnvVar>) -> Seq<(Seq<u8>, Seq<u8>)> {
    vars.map_values(|v: EnvVar| (v.name@, v.value@))
}

/// Whether a variable of the parent named `name` is passed on: its name is
/// text (valid UTF-8) that starts with `VERTX_`.
pub open spec fn passed_var_name(name: Seq<u8>) -> bool {
    valid_utf8(name) && passed_name(name)
}

/// The variables of `parent` that are passed on, in order.
pub open spec fn passed_vars(parent: Seq<(Seq<u8>, Seq<u8>)>) -> Seq<(Seq<u8>, Seq<u8>)> {
    parent.filter(|p: (Seq<u8>, Seq<u8>)| passed_var_name(p.0))
}

/// The environment the simulated handset is started with, as the
/// assignments made in turn on an empty environment (a later one overrides
/// an earlier one of the same name): `VERTX_CONFIG` set to `config.bin`, the
/// parent's variables whose names are text starting with `VERTX_`, in
/// order, then
/// `VERTX_BOOT_MODE` set to the boot mode in decimal.
pub open spec fn child_env_spec(parent: Seq<(Seq<u8>, Seq<u8>)>, boot_mode: u8) -> Seq<(Seq<u8>, Seq<u8>)> {
    seq![("VERTX_CONFIG".spec_bytes(), "config.bin".spec_bytes())] + passed_vars(parent) + seq![
        ("VERTX_BOOT_MODE".spec_bytes(), decimal(boot_mode as nat)),
    ]
}

/// The value that the assignments `env`, made in turn, leave for `name`:
/// that of its last assignment, if any.
pub open spec fn env_value(env: Seq<(Seq<u8>, Seq<u8>)>, name: Seq<u8>) -> Option<Seq<u8>>
    decreases env.len(),
{
    if env.len() == 0 {
        None
    } else if env.last().0 == name {
        Some(env.last().1)
    } else {
        env_value(env.drop_last(), name)
    }
}

/// The decimal digits of `n`.
fn u8_decimal(n: u8) -> (r: Vec<u8>)
    ensures
        r@ == decimal(n as nat),
{
    proof {
        reveal_with_fuel(decimal, 3);
    }
    if n >= 100 {
        assert(decimal(n as nat) == decimal((n / 10) as nat).push((0x30 + n % 10) as u8));
        assert(decimal((n / 10) as nat) == seq![(0x30 + n / 100) as u8, (0x30 + (n / 10) % 10) as u8]);
        vec![0x30 + n / 100, 0x30 + (n / 10) % 10, 0x30 + n % 10]
    } else if n >= 10 {
        vec![0x30 + n / 10, 0x30 + n % 10]
    } else {
        vec![0x30 + n]
    }
}

/// A variable named with `name` and valued with `value`.
fn env_var(name: &[u8], value: &[u8]) -> (r: EnvVar)
    ensures
        r.name@ == name@,
        r.value@ == value@,
{
    let mut n: Vec<u8> = Vec::new();
    push_bytes(&mut n, name);
    let mut v: Vec<u8> = Vec::new();
    push_bytes(&mut v, value);
    assert(n@ =~= name@);
    assert(v@ =~= value@);
    EnvVar { name: n, value: v }
}

/// The environment of the simulated handset, started in `boot_mode` by a
/// process whose environment is `parent`: the assignments, in turn, of
/// `child_env_spec`.
pub fn child_env(parent: &[EnvVar], boot_mode: u8) -> (r: Vec<EnvVar>)
    ensures
        env_pairs(r@) == child_env_spec(env_pairs(parent@), boot_mode),
{
    let mut out: Vec<EnvVar> = Vec::new();
    out.push(env_var("VERTX_CONFIG".as_bytes(), "config.bin".as_bytes()));
    let ghost first = seq![("VERTX_CONFIG".spec_bytes(), "config.bin".spec_bytes())];
    assert(env_pairs(out@) =~= first);
    let mut i: usize = 0;
    while i < parent.len()
        invariant
            i <= parent@.len(),
            env_pairs(out@) == first + passed_vars(env_pairs(parent@.subrange(0, i as int))),
        decreases parent@.len() - i,
    {
        let ghost before = out@;
        let var = &parent[i];
        let passed = match str_from_utf8(var.name.as_slice()) {
            Some(name) => passes_env(name),
            None => false,
        };
        if passed {
            out.push(env_var(var.name.as_slice(), var.value.as_slice()));
        }
        proof {
            let pre = env_pairs(parent@.subrange(0, i as int));
            let next = env_pairs(parent@.subrange(0, i + 1));
            assert(next.drop_last() =~= pre);
            assert(next.last() == (var.name@, var.value@));
            reveal(Seq::filter);
            if passed {
                assert(env_pairs(out@) =~= env_pairs(before).push((var.name@, var.value@)));
            } else {
                assert(env_pairs(out@) =~= env_pairs(before));
            }
        }
        i = i + 1;
    }
    assert(parent@.subrange(0, parent@.len() as int) =~= parent@);
    let ghost before = out@;
    let mode = u8_decimal(boot_mode);
    out.push(env_var("VERTX_BOOT_MODE".as_bytes(), mode.as_slice()));
    assert(env_pairs(out@) =~= env_pairs(before).push(("VERTX_BOOT_MODE".spec_bytes(), decimal(boot_mode as nat))));
    out
}

/// The value the assignments `a` then `b` leave for a name: `b`'s where it
/// assigns the name, else `a`'s.
pub proof fn lemma_env_value_append(a: Seq<(Seq<u8>, Seq<u8>)>, b: Seq<(Seq<u8>, Seq<u8>)>, name: Seq<u8>)
    ensures
        env_value(a + b, name) == if env_value(b, name) is Some { env_value(b, name) } else { env_value(a, name) },
    decreases b.len(),
{
    if b.len() > 0 {
        assert((a + b).drop_last() =~= a + b.drop_last());
        assert((a + b).last() == b.last());
        lemma_env_value_append(a, b.drop_last(), name);
    } else {
        assert(a + b =~= a);
    }
}

/// Passing on only the variables with a passed name keeps the value of
/// every such name, and leaves no other name a value.
pub proof fn lemma_passed_vars_value(parent: Seq<(Seq<u8>, Seq<u8>)>, name: Seq<u8>)
    ensures
        env_value(passed_vars(parent), name) == if passed_var_name(name) { env_value(parent, name) } else { None },
    decreases parent.len(),
{
    reveal(Seq::filter);
    if parent.len() > 0 {
        lemma_passed_vars_value(parent.drop_last(), name);
        let pv = passed_vars(parent);
        if passed_var_name(parent.last().0) {
            assert(pv == passed_vars(parent.drop_last()).push(parent.last()));
            assert(pv.drop_last() =~= passed_vars(parent.drop_last()));
            assert(pv.last() == parent.last());
        } else {
            assert(pv == passed_vars(parent.drop_last()));
        }
    }
}

/// The two names the simulator sets are passed names, and differ.
proof fn lemma_child_names()
    ensures
        passed_var_name("VERTX_CONFIG".spec_bytes()),
        passed_var_name("VERTX_BOOT_MODE".spec_bytes()),
        "VERTX_CONFIG".spec_bytes() != "VERTX_BOOT_MODE".spec_bytes(),
{
    reveal_strlit("VERTX_CONFIG");
    reveal_strlit("VERTX_BOOT_MODE");
    reveal_strlit("VERTX_");
    encode_utf8_valid_utf8("VERTX_CONFIG"@);
    encode_utf8_valid_utf8("VERTX_BOOT_MODE"@);
    vstd::string::is_ascii_spec_bytes("VERTX_CONFIG");
    vstd::string::is_ascii_spec_bytes("VERTX_BOOT_MODE");
    vstd::string::is_ascii_spec_bytes("VERTX_");
    assert("VERTX_CONFIG".spec_bytes().subrange(0, 6) =~= "VERTX_".spec_bytes());
    assert("VERTX_BOOT_MODE".spec_bytes().subrange(0, 6) =~= "VERTX_".spec_bytes());
    assert("VERTX_CONFIG".spec_bytes()[6] != "VERTX_BOOT_MODE".spec_bytes()[6]);
}

/// The simulated handset sees the boot mode it was started in, in decimal;
/// `VERTX_CONFIG` is the parent's where the parent sets it, else
/// `config.bin`; any other variable whose name is text starting with `VERTX_` is the
/// parent's; and no variable of another name is set.
pub proof fn lemma_child_env(parent: Seq<(Seq<u8>, Seq<u8>)>, boot_mode: u8, name: Seq<u8>)
    ensures
        env_value(child_env_spec(parent, boot_mode), "VERTX_BOOT_MODE".spec_bytes()) == Some(decimal(boot_mode as nat)),
        env_value(child_env_spec(parent, boot_mode), "VERTX_CONFIG".spec_bytes()) == if env_value(parent, "VERTX_CONFIG".spec_bytes()) is Some {
            env_value(parent, "VERTX_CONFIG".spec_bytes())
        } else {
            Some("config.bin".spec_bytes())
        },
        passed_var_name(name) && name != "VERTX_BOOT_MODE".spec_bytes() && name != "VERTX_CONFIG".spec_bytes()
            ==> env_value(child_env_spec(parent, boot_mode), name) == env_value(parent, name),
        !passed_var_name(name) ==> env_value(child_env_spec(parent, boot_mode), name) is None,
{
    lemma_child_names();
    let first = seq![("VERTX_CONFIG".spec_bytes(), "config.bin".spec_bytes())];
    let last = seq![("VERTX_BOOT_MODE".spec_bytes(), decimal(boot_mode as nat))];
    let mid = passed_vars(parent);
    assert(child_env_spec(parent, boot_mode) == (first + mid) + last);
    lemma_env_value_append(first + mid, last, name);
    lemma_env_value_append(first, mid, name);
    lemma_passed_vars_value(parent, name);
    lemma_env_value_append(first + mid, last, "VERTX_CONFIG".spec_bytes());
    lemma_env_value_append(first, mid, "VERTX_CONFIG".spec_bytes());
    lemma_passed_vars_value(parent, "VERTX_CONFIG".spec_bytes());
    assert(first.drop_last() =~= Seq::<(Seq<u8>, Seq<u8>)>::empty());
    assert(last.drop_last() =~= Seq::<(Seq<u8>, Seq<u8>)>::empty());
    let none = Seq::<(Seq<u8>, Seq<u8>)>::empty();
    assert(env_value(none, name) is None);
    assert(env_value(none, "VERTX_CONFIG".spec_bytes()) is None);
    assert(env_value(first, name) == if name == "VERTX_CONFIG".spec_bytes() {
        Some("config.bin".spec_bytes())
    } else {
        None::<Seq<u8>>
    });
    assert(env_value(first, "VERTX_CONFIG".spec_bytes()) == Some("config.bin".spec_bytes()));
    assert(env_value(last, name) == if name == "VERTX_BOOT_MODE".spec_bytes() {
        Some(decimal(boot_mode as nat))
    } else {
        None::<Seq<u8>>
    });
    assert(env_value(last, "VERTX_CONFIG".spec_bytes()) is None);
}

/// Whether the simulated handset is started again after it exits with
/// `code`: when it asked for a reboot.
pub fn restarts(code: i32) -> (r: bool)
    ensures
        r == (code == crate::ipc::EXIT_REBOOT),
{
    code == crate::ipc::EXIT_REBOOT
}

/// The simulator window's state: the boot mode the handset is started in,
/// whether it runs, and the colour of its status LED.
#[derive(Debug, Clone, Copy, PartialEq, Eq, Structural)]
pub struct Manager {
    pub boot_mode: u8,
    pub running: bool,
    pub status_led: Rgb,
}

/// A colour of the status LED.
#[derive(Debug, Clone, Copy, PartialEq, Eq, Structural)]
pub struct Rgb {
    pub r: u8,
    pub g: u8,
    pub b: u8,
}

/// What happens in the simulator window.
#[derive(Debug, Clone, Copy, PartialEq, Eq, Structural)]
pub enum ManagerEvent {
    /// The boot button was pressed.
    BootPressed,
    /// The configurator button was pressed.
    ToggleConfigurator,
    /// The handset exited, asking to be restarted or not.
    Exited { restart: bool },
    /// The handset sent a message.
    Ipc(crate::ipc::ToManager),
}

/// What the window does about an event.
#[derive(Debug, Clone, Copy, PartialEq, Eq, Structural)]
pub enum ManagerAction {
    /// Start the handset, in the current boot mode.
    StartVertx,
    /// Tell the running handset its mode button was pressed.
    PressModeButton,
    /// Nothing beyond the state change.
    Nothing,
}

impl Manager {
    /// The state of a new window: boot mode 0, the handset not running and
    /// the LED off.
    pub fn new() -> (r: Self)
        ensures
            r == (Manager { boot_mode: 0, running: false, status_led: Rgb { r: 0, g: 0, b: 0 } }),
    {
        Manager { boot_mode: 0, running: false, status_led: Rgb { r: 0, g: 0, b: 0 } }
    }

    /// Handles an event: the boot button starts the handset; the
    /// configurator button reaches a running handset; an exit stops it and
    /// either starts it again or resets the boot mode; the handset sets the
    /// boot mode and the LED colour.
    pub fn update(&mut self, event: ManagerEvent) -> (r: ManagerAction)
        ensures
            match event {
                ManagerEvent::BootPressed => r == ManagerAction::StartVertx && *final(self) == (Manager {
                    running: true,
                    ..*old(self)
                }),
                ManagerEvent::ToggleConfigurator => *final(self) == *old(self) && r == if old(self).running {
                    ManagerAction::PressModeButton
                } else {
                    ManagerAction::Nothing
                },
                ManagerEvent::Exited { restart } => if restart {
                    r == ManagerAction::StartVertx && *final(self) == (Manager { running: true, ..*old(self) })
                } else {
                    r == ManagerAction::Nothing && *final(self) == (Manager {
                        boot_mode: 0,
                        running: false,
                        ..*old(self)
                    })
                },
                ManagerEvent::Ipc(crate::ipc::ToManager::SetBootMode(mode)) => r == ManagerAction::Nothing
                    && *final(self) == (Manager { boot_mode: mode, ..*old(self) }),
                ManagerEvent::Ipc(crate::ipc::ToManager::StatusLed { r: red, g, b }) => r
                    == ManagerAction::Nothing && *final(self) == (Manager {
                    status_led: Rgb { r: red, g, b },
                    ..*old(self)
                }),
            },
    {
        match event {
            ManagerEvent::BootPressed => {
                self.running = true;
                ManagerAction::StartVertx
            },
            ManagerEvent::ToggleConfigurator => {
                if self.running {
                    ManagerAction::PressModeButton
                } else {
                    ManagerAction::Nothing
                }
            },
            ManagerEvent::Exited { restart } => {
                self.running = false;
                if restart {
                    self.running = true;
                    ManagerAction::StartVertx
                } else {
                    self.boot_mode = 0;
                    ManagerAction::Nothing
                }
            },
            ManagerEvent::Ipc(crate::ipc::ToManager::SetBootMode(mode)) => {
                self.boot_mode = mode;
                ManagerAction::Nothing
            },
            ManagerEvent::Ipc(crate::ipc::ToManager::StatusLed { r, g, b }) => {
                self.status_led = Rgb { r, g, b };
                ManagerAction::Nothing
            },
        }
    }
}

} // verus!
