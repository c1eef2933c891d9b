//! The stored form of the handset's configuration: its fields, the version
//! word in front of its encoding, and which fields changed.
use vstd::prelude::*;

use core::marker::PhantomData;

use super::key;
use crate::filesystem::{u32_le_bytes, write_u32_le};

verus! {

/// The version of the stored configuration layout.
pub const VERSION: u32 = 3;

/// The most bytes the stored configuration takes, version word included.
pub const BYTE_LENGTH: usize = 242;

/// The handset's configuration as stored. The strings hold at most 20
/// (`name`), 32 (`network_hostname`, `network_home_ssid`) and 64 bytes
/// (the passwords).
#[derive(Debug)]
pub struct RawConfig {
    pub name: String,
    pub leds_brightness: u8,
    pub network_hostname: String,
    pub network_password: String,
    pub network_home_ssid: String,
    pub network_home_password: String,
}

impl Default for RawConfig {
    /// The configuration of a new handset: named `VerTX`, at brightness 10,
    /// with hostname `vertx` and no passwords or home network.
    fn default() -> (r: Self)
        ensures
            r.name@ == "VerTX"@,
            r.leds_brightness == 10,
            r.network_hostname@ == "vertx"@,
            r.network_password@.len() == 0,
            r.network_home_ssid@.len() == 0,
            r.network_home_password@.len() == 0,
    {
        RawConfig {
            name: "VerTX".to_owned(),
            leds_brightness: 10,
            network_hostname: "vertx".to_owned(),
            network_password: String::new(),
            network_home_ssid: String::new(),
            network_home_password: String::new(),
        }
    }
}

impl RawConfig {
    /// The indices of the fields (in declaration order, from 0) whose values
    /// differ between `self` and `other`, in increasing order.
    pub fn diff(&self, other: &Self) -> (r: Vec<usize>)
        ensures
            r@ == changed_fields(*self, *other),
    {
        let mut different: Vec<usize> = Vec::new();
        if self.name != other.name {
            different.push(0);
        }
        if self.leds_brightness != other.leds_brightness {
            different.push(1);
        }
        if self.network_hostname != other.network_hostname {
            different.push(2);
        }
        if self.network_password != other.network_password {
            different.push(3);
        }
        if self.network_home_ssid != other.network_home_ssid {
            different.push(4);
        }
        if self.network_home_password != other.network_home_password {
            different.push(5);
        }
        assert(different@ =~= changed_fields(*self, *other));
        different
    }
}

/// `seq![i]` when `changed`, otherwise nothing.
pub open spec fn mark(changed: bool, i: usize) -> Seq<usize> {
    if changed {
        seq![i]
    } else {
        Seq::empty()
    }
}

/// The indices of the fields whose values differ, in increasing order.
pub open spec fn changed_fields(a: RawConfig, b: RawConfig) -> Seq<usize> {
    mark(a.name@ != b.name@, 0) + mark(a.leds_brightness != b.leds_brightness, 1) + mark(
        a.network_hostname@ != b.network_hostname@,
        2,
    ) + mark(a.network_password@ != b.network_password@, 3) + mark(
        a.network_home_ssid@ != b.network_home_ssid@,
        4,
    ) + mark(a.network_home_password@ != b.network_home_password@, 5)
}

/// A configuration compared with itself has no changed field.
pub proof fn lemma_diff_self_empty(a: RawConfig)
    ensures
        changed_fields(a, a) == Seq::<usize>::empty(),
{
    assert(changed_fields(a, a) =~= Seq::<usize>::empty());
}

/// Comparing two configurations either way round gives the same changed
/// fields.
pub proof fn lemma_diff_symmetric(a: RawConfig, b: RawConfig)
    ensures
        changed_fields(a, b) == changed_fields(b, a),
{
    assert(changed_fields(a, b) =~= changed_fields(b, a));
}

/// The changed fields are in increasing order, and field `i` is among them
/// exactly when its values differ.
pub proof fn lemma_diff_fields(a: RawConfig, b: RawConfig)
    ensures
        increasing(changed_fields(a, b)),
        changed_fields(a, b).contains(0) <==> a.name@ != b.name@,
        changed_fields(a, b).contains(1) <==> a.leds_brightness != b.leds_brightness,
        changed_fields(a, b).contains(2) <==> a.network_hostname@ != b.network_hostname@,
        changed_fields(a, b).contains(3) <==> a.network_password@ != b.network_password@,
        changed_fields(a, b).contains(4) <==> a.network_home_ssid@ != b.network_home_ssid@,
        changed_fields(a, b).contains(5) <==> a.network_home_password@ != b.network_home_password@,
        forall|k: int| 0 <= k < changed_fields(a, b).len() ==> changed_fields(a, b)[k] < 6,
{
    let e = Seq::<usize>::empty();
    let m0 = mark(a.name@ != b.name@, 0);
    let m1 = mark(a.leds_brightness != b.leds_brightness, 1);
    let m2 = mark(a.network_hostname@ != b.network_hostname@, 2);
    let m3 = mark(a.network_password@ != b.network_password@, 3);
    let m4 = mark(a.network_home_ssid@ != b.network_home_ssid@, 4);
    let m5 = mark(a.network_home_password@ != b.network_home_password@, 5);
    lemma_mark_step(e, a.name@ != b.name@, 0);
    assert(e + m0 =~= m0);
    lemma_mark_step(m0, a.leds_brightness != b.leds_brightness, 1);
    lemma_mark_step(m0 + m1, a.network_hostname@ != b.network_hostname@, 2);
    lemma_mark_step(m0 + m1 + m2, a.network_password@ != b.network_password@, 3);
    lemma_mark_step(m0 + m1 + m2 + m3, a.network_home_ssid@ != b.network_home_ssid@, 4);
    lemma_mark_step(m0 + m1 + m2 + m3 + m4, a.network_home_password@ != b.network_home_password@, 5);
    let c = changed_fields(a, b);
    assert(c == m0 + m1 + m2 + m3 + m4 + m5);
    assert forall|j: usize| j < 6 implies (#[trigger] c.contains(j) <==> (
        (j == 0 && a.name@ != b.name@)
        || (j == 1 && a.leds_brightness != b.leds_brightness)
        || (j == 2 && a.network_hostname@ != b.network_hostname@)
        || (j == 3 && a.network_password@ != b.network_password@)
        || (j == 4 && a.network_home_ssid@ != b.network_home_ssid@)
        || (j == 5 && a.network_home_password@ != b.network_home_password@)
    )) by {
        lemma_mark_contains(m0 + m1 + m2 + m3 + m4, a.network_home_password@ != b.network_home_password@, 5, j);
        lemma_mark_contains(m0 + m1 + m2 + m3, a.network_home_ssid@ != b.network_home_ssid@, 4, j);
        lemma_mark_contains(m0 + m1 + m2, a.network_password@ != b.network_password@, 3, j);
        lemma_mark_contains(m0 + m1, a.network_hostname@ != b.network_hostname@, 2, j);
        lemma_mark_contains(m0, a.leds_brightness != b.leds_brightness, 1, j);
        lemma_mark_contains(e, a.name@ != b.name@, 0, j);
        assert(!e.contains(j));
    }
    assert(c.contains(0) <==> a.name@ != b.name@);
    assert(c.contains(1) <==> a.leds_brightness != b.leds_brightness);
    assert(c.contains(2) <==> a.network_hostname@ != b.network_hostname@);
    assert(c.contains(3) <==> a.network_password@ != b.network_password@);
    assert(c.contains(4) <==> a.network_home_ssid@ != b.network_home_ssid@);
    assert(c.contains(5) <==> a.network_home_password@ != b.network_home_password@);
}

/// Whether the indices `s` are strictly increasing.
pub open spec fn increasing(s: Seq<usize>) -> bool {
    forall|k1: int, k2: int| 0 <= k1 < k2 < s.len() ==> s[k1] < s[k2]
}

/// Adding a mark for an index above all of `x` keeps the list increasing
/// and adds just that index, where it is marked.
proof fn lemma_mark_step(x: Seq<usize>, changed: bool, i: usize)
    requires
        increasing(x),
        forall|k: int| 0 <= k < x.len() ==> x[k] < i,
    ensures
        increasing(x + mark(changed, i)),
        forall|k: int| 0 <= k < (x + mark(changed, i)).len() ==> (x + mark(changed, i))[k] <= i,
{
}

/// Adding a mark for `i` adds just `i` to the indices, where it is marked.
proof fn lemma_mark_contains(x: Seq<usize>, changed: bool, i: usize, j: usize)
    ensures
        (x + mark(changed, i)).contains(j) <==> (x.contains(j) || (changed && j == i)),
{
    let y = x + mark(changed, i);
    if y.contains(j) {
        let k = choose|k: int| 0 <= k < y.len() && y[k] == j;
        if k >= x.len() {
            assert(changed && y[k] == i);
        } else {
            assert(x[k] == j);
        }
    }
    if x.contains(j) {
        let k = choose|k: int| 0 <= k < x.len() && x[k] == j;
        assert(y[k] == j);
    }
    if changed && j == i {
        assert(y[x.len() as int] == i);
    }
}

/// Why stored bytes are not a configuration.
#[derive(Debug, Clone, Copy, PartialEq, Eq, Structural)]
pub enum DeserializeError {
    /// The version word is not the expected one.
    WrongVersion,
    /// The bytes after it do not decode.
    Postcard,
}

/// The encoded configuration after the version word, when the stored bytes
/// start with the little-endian word `version`.
pub fn check_version(from: &[u8], version: u32) -> (r: Result<&[u8], DeserializeError>)
    requires
        from@.len() >= 4,
    ensures
        if from@.subrange(0, 4) == u32_le_bytes(version) {
            r matches Ok(rest) && rest@ == from@.subrange(4, from@.len() as int)
        } else {
            r == Err::<&[u8], DeserializeError>(DeserializeError::WrongVersion)
        },
{
    let mut expected: Vec<u8> = vec![0, 0, 0, 0];
    write_u32_le(&mut expected, 0, version);
    assert(expected@ =~= u32_le_bytes(version));
    let (head, rest) = from.split_at(4);
    if head[0] == expected[0] && head[1] == expected[1] && head[2] == expected[2] && head[3] == expected[3] {
        assert(head@ =~= expected@);
        Ok(rest)
    } else {
        assert(head@.len() == 4);
        Err(DeserializeError::WrongVersion)
    }
}

/// Writes the version word `version` in front of the encoding, which then
/// starts four bytes into `buffer`.
pub fn write_version(buffer: &mut Vec<u8>, version: u32)
    requires
        old(buffer)@.len() >= 4,
    ensures
        final(buffer)@ == u32_le_bytes(version) + old(buffer)@.subrange(4, old(buffer)@.len() as int),
{
    write_u32_le(buffer, 0, version);
    assert(old(buffer)@.subrange(0, 0) + u32_le_bytes(version) =~= u32_le_bytes(version));
}

/// Comparing two configurations names the same fields either way round, and
/// none for a configuration and itself.
pub proof fn lemma_changed_fields_symmetric(a: RawConfig, b: RawConfig)
    ensures
        changed_fields(a, b) == changed_fields(b, a),
        changed_fields(a, a).len() == 0,
{
    assert(changed_fields(a, a) =~= Seq::<usize>::empty());
}

/// Stored bytes that start with the version word `version` are accepted by
/// a check for `version`, which gives back the bytes after the word, and
/// refused by a check for any other version.
pub proof fn lemma_version_roundtrip(rest: Seq<u8>, version: u32, other: u32)
    requires
        other != version,
    ensures
        (u32_le_bytes(version) + rest).subrange(0, 4) == u32_le_bytes(version),
        (u32_le_bytes(version) + rest).subrange(4, 4 + rest.len() as int) == rest,
        (u32_le_bytes(version) + rest).subrange(0, 4) != u32_le_bytes(other),
{
    let w = u32_le_bytes(version) + rest;
    assert(w.subrange(0, 4) =~= u32_le_bytes(version));
    assert(w.subrange(4, 4 + rest.len() as int) =~= rest);
    crate::filesystem::lemma_u32_le_roundtrip(version);
    crate::filesystem::lemma_u32_le_roundtrip(other);
    if u32_le_bytes(version) == u32_le_bytes(other) {
        assert(crate::filesystem::le_u32(u32_le_bytes(version), 0) == crate::filesystem::le_u32(u32_le_bytes(other), 0));
    }
}

/// A view of a configuration at the place `K` of its tree.
#[derive(Debug)]
pub struct LockedView<'a, K> {
    pub config: &'a RawConfig,
    pub key: PhantomData<K>,
}

impl<'a> LockedView<'a, key::Root> {
    /// A view of the whole configuration.
    pub fn root(config: &'a RawConfig) -> (r: Self)
        ensures
            r.config == config,
    {
        LockedView { config, key: PhantomData }
    }

    pub fn name(&self) -> (r: LockedView<'a, key::Root_Name>)
        ensures
            r.config == self.config,
    {
        LockedView { config: self.config, key: PhantomData }
    }

    pub fn leds(&self) -> (r: LockedView<'a, key::Root_Leds>)
        ensures
            r.config == self.config,
    {
        LockedView { config: self.config, key: PhantomData }
    }

    pub fn network(&self) -> (r: LockedView<'a, key::Root_Network>)
        ensures
            r.config == self.config,
    {
        LockedView { config: self.config, key: PhantomData }
    }
}

impl<'a> LockedView<'a, key::Root_Leds> {
    pub fn brightness(&self) -> (r: LockedView<'a, key::Root_Leds_Brightness>)
        ensures
            r.config == self.config,
    {
        LockedView { config: self.config, key: PhantomData }
    }
}

impl<'a> LockedView<'a, key::Root_Network> {
    pub fn hostname(&self) -> (r: LockedView<'a, key::Root_Network_Hostname>)
        ensures
            r.config == self.config,
    {
        LockedView { config: self.config, key: PhantomData }
    }

    pub fn password(&self) -> (r: LockedView<'a, key::Root_Network_Password>)
        ensures
            r.config == self.config,
    {
        LockedView { config: self.config, key: PhantomData }
    }

    pub fn home(&self) -> (r: LockedView<'a, key::Root_Network_Home>)
        ensures
            r.config == self.config,
    {
        LockedView { config: self.config, key: PhantomData }
    }
}

impl<'a> LockedView<'a, key::Root_Network_Home> {
    pub fn ssid(&self) -> (r: LockedView<'a, key::Root_Network_Home_Ssid>)
        ensures
            r.config == self.config,
    {
        LockedView { config: self.config, key: PhantomData }
    }

    pub fn password(&self) -> (r: LockedView<'a, key::Root_Network_Home_Password>)
        ensures
            r.config == self.config,
    {
        LockedView { config: self.config, key: PhantomData }
    }
}

impl<'a> core::ops::Deref for LockedView<'a, key::Root_Name> {
    type Target = String;

    fn deref(&self) -> (r: &String)
        ensures
            *r == self.config.name,
    {
        &self.config.name
    }
}

impl<'a> core::ops::Deref for LockedView<'a, key::Root_Leds_Brightness> {
    type Target = u8;

    fn deref(&self) -> (r: &u8)
        ensures
            *r == self.config.leds_brightness,
    {
        &self.config.leds_brightness
    }
}

impl<'a> core::ops::Deref for LockedView<'a, key::Root_Network_Hostname> {
    type Target = String;

    fn deref(&self) -> (r: &String)
        ensures
            *r == self.config.network_hostname,
    {
        &self.config.network_hostname
    }
}

impl<'a> core::ops::Deref for LockedView<'a, key::Root_Network_Password> {
    type Target = String;

    fn deref(&self) -> (r: &String)
        ensures
            *r == self.config.network_password,
    {
        &self.config.network_password
    }
}

impl<'a> core::ops::Deref for LockedView<'a, key::Root_Network_Home_Ssid> {
    type Target = String;

    fn deref(&self) -> (r: &String)
        ensures
            *r == self.config.network_home_ssid,
    {
        &self.config.network_home_ssid
    }
}

impl<'a> core::ops::Deref for LockedView<'a, key::Root_Network_Home_Password> {
    type Target = String;

    fn deref(&self) -> (r: &String)
        ensures
            *r == self.config.network_home_password,
    {
        &self.config.network_home_password
    }
}

} // verus!
