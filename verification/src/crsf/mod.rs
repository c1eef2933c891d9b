//! The Crossfire (CRSF) serial protocol used between the handset, the
//! transmitter module and the receiver.
use vstd::prelude::*;

pub mod channels;
pub mod decoder;
pub mod encoder;
pub mod laws;
pub mod packet;

verus! {

/// Device addresses used by the CRSF protocol.
#[derive(Debug, Clone, Copy, PartialEq, Eq, Hash, Structural)]
pub enum Address {
    Broadcast,
    Usb,
    /// Bluetooth module
    Bluetooth,
    TbsCorePnpPro,
    Reserved1,
    /// External current sensor
    CurrentSensor,
    /// External GPS
    Gps,
    /// External blackbox logging device
    TbsBlackbox,
    /// Flight Controller (Betaflight / iNav)
    FlightController,
    Reserved2,
    RaceTag,
    /// `CRSF_ADDRESS_RADIO_TRANSMITTER`
    Handset,
    /// Radio receiver (`CRSF_ADDRESS_CRSF_RECEIVER`)
    Receiver,
    /// Radio transmitter module (`CRSF_ADDRESS_CRSF_TRANSMITTER`)
    Transmitter,
    /// **Non-standard** source address used by ExpressLRS Lua
    ElrsLua,
}

/// The wire value of each address.
pub open spec fn address_raw(a: Address) -> u8 {
    match a {
        Address::Broadcast => 0x00,
        Address::Usb => 0x10,
        Address::Bluetooth => 0x12,
        Address::TbsCorePnpPro => 0x80,
        Address::Reserved1 => 0x8A,
        Address::CurrentSensor => 0xC0,
        Address::Gps => 0xC2,
        Address::TbsBlackbox => 0xC4,
        Address::FlightController => 0xC8,
        Address::Reserved2 => 0xCA,
        Address::RaceTag => 0xCC,
        Address::Handset => 0xEA,
        Address::Receiver => 0xEC,
        Address::Transmitter => 0xEE,
        Address::ElrsLua => 0xEF,
    }
}

/// The address with the given wire value, if there is one.
pub open spec fn address_from_raw(raw: u8) -> Option<Address> {
    if raw == 0x00 { Some(Address::Broadcast) }
    else if raw == 0x10 { Some(Address::Usb) }
    else if raw == 0x12 { Some(Address::Bluetooth) }
    else if raw == 0x80 { Some(Address::TbsCorePnpPro) }
    else if raw == 0x8A { Some(Address::Reserved1) }
    else if raw == 0xC0 { Some(Address::CurrentSensor) }
    else if raw == 0xC2 { Some(Address::Gps) }
    else if raw == 0xC4 { Some(Address::TbsBlackbox) }
    else if raw == 0xC8 { Some(Address::FlightController) }
    else if raw == 0xCA { Some(Address::Reserved2) }
    else if raw == 0xCC { Some(Address::RaceTag) }
    else if raw == 0xEA { Some(Address::Handset) }
    else if raw == 0xEC { Some(Address::Receiver) }
    else if raw == 0xEE { Some(Address::Transmitter) }
    else if raw == 0xEF { Some(Address::ElrsLua) }
    else { None }
}

impl Address {
    /// Looks up the address with wire value `raw`.
    pub fn from_raw(raw: u8) -> (r: Option<Address>)
        ensures
            r == address_from_raw(raw),
    {
        match raw {
            0x00 => Some(Address::Broadcast),
            0x10 => Some(Address::Usb),
            0x12 => Some(Address::Bluetooth),
            0x80 => Some(Address::TbsCorePnpPro),
            0x8A => Some(Address::Reserved1),
            0xC0 => Some(Address::CurrentSensor),
            0xC2 => Some(Address::Gps),
            0xC4 => Some(Address::TbsBlackbox),
            0xC8 => Some(Address::FlightController),
            0xCA => Some(Address::Reserved2),
            0xCC => Some(Address::RaceTag),
            0xEA => Some(Address::Handset),
            0xEC => Some(Address::Receiver),
            0xEE => Some(Address::Transmitter),
            0xEF => Some(Address::ElrsLua),
            _ => None,
        }
    }

    /// The wire value of this address.
    pub fn into_raw(self) -> (r: u8)
        ensures
            r == address_raw(self),
    {
        match self {
            Address::Broadcast => 0x00,
            Address::Usb => 0x10,
            Address::Bluetooth => 0x12,
            Address::TbsCorePnpPro => 0x80,
            Address::Reserved1 => 0x8A,
            Address::CurrentSensor => 0xC0,
            Address::Gps => 0xC2,
            Address::TbsBlackbox => 0xC4,
            Address::FlightController => 0xC8,
            Address::Reserved2 => 0xCA,
            Address::RaceTag => 0xCC,
            Address::Handset => 0xEA,
            Address::Receiver => 0xEC,
            Address::Transmitter => 0xEE,
            Address::ElrsLua => 0xEF,
        }
    }

    /// Looks up an address from a 16 bit value; values above `u8::MAX` name
    /// no address.
    pub fn from_u16(raw: u16) -> (r: Option<Address>)
        ensures
            r == (if raw > 0xFF { None } else { address_from_raw(raw as u8) }),
    {
        if raw > 0xFF {
            None
        } else {
            Address::from_raw(raw as u8)
        }
    }
}

/// Every address survives a trip through its wire value.
pub proof fn lemma_address_raw_roundtrip(a: Address)
    ensures
        address_from_raw(address_raw(a)) == Some(a),
{
}

/// Every wire value that names an address is that address's wire value.
pub proof fn lemma_address_from_raw_inverse(raw: u8)
    ensures
        address_from_raw(raw) matches Some(a) ==> address_raw(a) == raw,
{
}


/// Transmit power levels reported in link statistics.
#[allow(non_camel_case_types)]
#[derive(Debug, Clone, Copy, PartialEq, Eq, Hash, Structural)]
pub enum TxPower {
    mW_0,
    mW_10,
    mW_25,
    mW_50,
    mW_100,
    mW_500,
    mW_1000,
    mW_2000,
}

/// The wire value of each power level.
pub open spec fn tx_power_raw(p: TxPower) -> u8 {
    match p {
        TxPower::mW_0 => 0,
        TxPower::mW_10 => 1,
        TxPower::mW_25 => 2,
        TxPower::mW_50 => 7,
        TxPower::mW_100 => 3,
        TxPower::mW_500 => 4,
        TxPower::mW_1000 => 5,
        TxPower::mW_2000 => 6,
    }
}

/// The power level with the given wire value, if there is one.
pub open spec fn tx_power_from_raw(raw: u8) -> Option<TxPower> {
    if raw == 0 { Some(TxPower::mW_0) }
    else if raw == 1 { Some(TxPower::mW_10) }
    else if raw == 2 { Some(TxPower::mW_25) }
    else if raw == 7 { Some(TxPower::mW_50) }
    else if raw == 3 { Some(TxPower::mW_100) }
    else if raw == 4 { Some(TxPower::mW_500) }
    else if raw == 5 { Some(TxPower::mW_1000) }
    else if raw == 6 { Some(TxPower::mW_2000) }
    else { None }
}

/// The text shown for each power level.
pub open spec fn tx_power_name(p: TxPower) -> Seq<char> {
    match p {
        TxPower::mW_0 => seq!['0', 'm', 'W'],
        TxPower::mW_10 => seq!['1', '0', 'm', 'W'],
        TxPower::mW_25 => seq!['2', '5', 'm', 'W'],
        TxPower::mW_50 => seq!['5', '0', 'm', 'W'],
        TxPower::mW_100 => seq!['1', '0', '0', 'm', 'W'],
        TxPower::mW_500 => seq!['5', '0', '0', 'm', 'W'],
        TxPower::mW_1000 => seq!['1', '0', '0', '0', 'm', 'W'],
        TxPower::mW_2000 => seq!['2', '0', '0', '0', 'm', 'W'],
    }
}

impl TxPower {
    /// Looks up the power level with wire value `raw`.
    pub fn from_raw(raw: u8) -> (r: Option<TxPower>)
        ensures
            r == tx_power_from_raw(raw),
    {
        match raw {
            0 => Some(TxPower::mW_0),
            1 => Some(TxPower::mW_10),
            2 => Some(TxPower::mW_25),
            7 => Some(TxPower::mW_50),
            3 => Some(TxPower::mW_100),
            4 => Some(TxPower::mW_500),
            5 => Some(TxPower::mW_1000),
            6 => Some(TxPower::mW_2000),
            _ => None,
        }
    }

    /// The wire value of this power level.
    pub fn into_raw(self) -> (r: u8)
        ensures
            r == tx_power_raw(self),
    {
        match self {
            TxPower::mW_0 => 0,
            TxPower::mW_10 => 1,
            TxPower::mW_25 => 2,
            TxPower::mW_50 => 7,
            TxPower::mW_100 => 3,
            TxPower::mW_500 => 4,
            TxPower::mW_1000 => 5,
            TxPower::mW_2000 => 6,
        }
    }

    /// Human readable name of the power level, such as `"25mW"`.
    pub fn name(&self) -> (r: String)
        ensures
            r@ == tx_power_name(*self),
    {
        let s = match self {
            TxPower::mW_0 => "0mW",
            TxPower::mW_10 => "10mW",
            TxPower::mW_25 => "25mW",
            TxPower::mW_50 => "50mW",
            TxPower::mW_100 => "100mW",
            TxPower::mW_500 => "500mW",
            TxPower::mW_1000 => "1000mW",
            TxPower::mW_2000 => "2000mW",
        };
        proof {
            reveal_strlit("0mW");
            reveal_strlit("10mW");
            reveal_strlit("25mW");
            reveal_strlit("50mW");
            reveal_strlit("100mW");
            reveal_strlit("500mW");
            reveal_strlit("1000mW");
            reveal_strlit("2000mW");
        }
        s.to_string()
    }
}

/// Every power level survives a trip through its wire value, and every wire
/// value that names a power level is that level's wire value.
pub proof fn lemma_tx_power_raw_roundtrip(p: TxPower, raw: u8)
    ensures
        tx_power_from_raw(tx_power_raw(p)) == Some(p),
        tx_power_from_raw(raw) matches Some(q) ==> tx_power_raw(q) == raw,
{
}

/// Name for the CRC-8/DVB-S2 checksum (polynomial 0xD5, no reflection, zero
/// initial value and zero final xor) of a byte sequence.
pub uninterp spec fn crc8_dvb_s2(data: Seq<u8>) -> u8;

/// Computes `crc::Crc::<u8>::new(&crc::CRC_8_DVB_S2).checksum(data)`: the
/// CRC-8/DVB-S2 checksum of `data`. The contract claims only that the result
/// is a function of the bytes of `data`.
#[verifier::external_body]
pub(crate) fn crc8(data: &[u8]) -> (r: u8)
    ensures
        r == crc8_dvb_s2(data@),
{
    crc::Crc::<u8>::new(&crc::CRC_8_DVB_S2).checksum(data)
}

/// Big-endian value of two bytes.
pub open spec fn be_u16(b0: u8, b1: u8) -> u16 {
    (b0 * 256 + b1) as u16
}

/// Big-endian value of four bytes.
pub open spec fn be_u32(b0: u8, b1: u8, b2: u8, b3: u8) -> u32 {
    (b0 * 16777216 + b1 * 65536 + b2 * 256 + b3) as u32
}

/// Big-endian value of two bytes.
pub fn u16_from_be(b0: u8, b1: u8) -> (r: u16)
    ensures
        r == be_u16(b0, b1),
{
    (b0 as u16) * 256 + (b1 as u16)
}

/// Big-endian value of four bytes.
pub fn u32_from_be(b0: u8, b1: u8, b2: u8, b3: u8) -> (r: u32)
    ensures
        r == be_u32(b0, b1, b2, b3),
{
    (b0 as u32) * 16777216 + (b1 as u32) * 65536 + (b2 as u32) * 256 + (b3 as u32)
}

} // verus!
