//! Decoding of complete CRSF frames into typed packets.
use vstd::prelude::*;

use super::channels::RcChannelsPacked;
use super::{
    address_from_raw, be_u16, be_u32, crc8, crc8_dvb_s2, tx_power_from_raw, u16_from_be,
    u32_from_be, Address, TxPower,
};

verus! {

/// A decoded CRSF packet.
#[derive(Debug, Clone, PartialEq)]
pub enum Packet {
    /// GPS position, ground speed, heading, altitude, satellite count
    Gps {
        /// Latitude in degrees (7 decimals)
        latitude: i32,
        /// Longitude in degrees (7 decimals)
        longitude: i32,
        /// Ground speed in km/h (1 decimal)
        speed: i16,
        /// Heading in degrees (2 decimals)
        heading: i16,
        /// Altitude in meters
        altitude: i32,
        /// Satellite count
        satellites: u8,
    },
    /// Vertical speed
    Vario {
        /// Vertical speed in cm/s
        vertical_speed: i16,
    },
    /// Battery voltage, current, mAh, remaining percent
    BatterySensor {
        /// Battery voltage in decivolts
        voltage: i16,
        /// Current in deciamps
        current: i16,
        /// Estimated used capacity in mAh
        used: i32,
        /// Estimated remaining battery in whole percentage points
        remaining: i8,
    },
    /// Barometric altitude, vertical speed (optional)
    BarometricAltitude {
        /// Barometric altitude in decimeters
        altitude: i32,
        /// Vertical speed in cm/s, present where the payload carries it
        vertical_speed: Option<i16>,
    },
    /// Heartbeat **(CRSFv3 only)**
    Heartbeat { origin: Address },
    /// Signal information. uplink/downlink RSSI, SNR, link quality (LQ), RF
    /// mode, transmit power
    LinkStatistics {
        /// RX→TX RSSI for antenna 1 in negative dBm
        up_rssi1: u8,
        /// RX→TX RSSI for antenna 2 in negative dBm
        up_rssi2: u8,
        /// RX→TX link quality in whole percentage points
        up_lq: u8,
        /// RX→TX signal to noise ratio in dB
        up_snr: i8,
        /// Active antenna for RX antenna diversity
        active_antenna: u8,
        /// Link dependent mode / packet rate
        mode: u8,
        tx_power: TxPower,
        /// TX→RX RSSI in negative dBm
        down_rssi: u8,
        /// TX→RX link quality in whole percentage points
        down_lq: u8,
        /// TX→RX signal to noise ratio in dB
        down_snr: i8,
    },
    /// Channel data (both handset to TX and RX to flight controller)
    RcChannelsPacked(RcChannelsPacked<[u8; 22]>),
    /// Channels subset data **(CRSFv3 only)**
    SubsetRcChannelsPacked,
    /// Receiver RSSI percent, power?
    LinkRxId,
    /// Transmitter RSSI percent, power, fps?
    LinkTxId,
    /// Attitude: pitch, roll, yaw
    Attitude,
    /// Flight controller flight mode string (its bytes, without the
    /// terminating NUL; none of them is NUL)
    FlightMode(Vec<u8>),
    /// Sender requesting `DeviceInfo` from all destination devices
    DevicePing { to: Address, from: Address },
    /// Device name, firmware version, hardware version, serial number (`Ping`
    /// response)
    DeviceInfo,
    /// Configuration item data chunk
    ParameterSettingsEntry,
    /// Configuration item read request
    ParameterRead,
    /// Configuration item write request
    ParameterWrite,
    /// **Non-standard** ExpressLRS good/bad packet count, status flags
    ElrsStatus,
    /// **CRSF** command execute
    Command,
    /// Extended type used for OPENTX_SYNC
    RadioId,
    KissRequest,
    KissResponse,
    /// MSP parameter request / command
    MspRequest,
    /// MSP parameter response chunk
    MspResponse,
    /// MSP parameter write
    MspWrite,
    /// MSP DisplayPort control command **(CRSFv3 only)**
    DisplayportCommand,
    /// Ardupilot output?
    ArdupilotResponse,
}

/// Reasons a frame is rejected.
#[derive(Debug)]
pub enum PacketError<E> {
    ReadError(E),
    UnexpectedEof,
    InvalidSyncByte(u8),
    InvalidPacketKind(u8),
    BadCrc,
}

/// Size of the payload buffer: the largest payload a frame can announce.
pub const MAX_PAYLOAD: usize = 61;

/// The sync byte that starts every frame.
pub const SYNC_BYTE: u8 = 0xC8;

/// Payload length announced by a frame header (the length byte counts the
/// type and checksum bytes too).
pub open spec fn payload_length(raw: Seq<u8>) -> int {
    raw[1] - 2
}

/// The payload of a frame, padded with zeros to `MAX_PAYLOAD` bytes.
pub open spec fn frame_payload(raw: Seq<u8>) -> Seq<u8> {
    Seq::new(61, |i: int| if i < payload_length(raw) { raw[3 + i] } else { 0u8 })
}

/// The bytes the frame checksum covers: the type byte and the payload.
pub open spec fn frame_body(raw: Seq<u8>) -> Seq<u8> {
    raw.subrange(2, raw[1] + 1)
}

/// The frame holds all the bytes its header announces.
pub open spec fn frame_complete(raw: Seq<u8>) -> bool {
    raw.len() >= raw[1] + 2
}

/// Signed 8 bit payload field at `i`.
pub open spec fn field_i8(p: Seq<u8>, i: int) -> i8 {
    p[i] as i8
}

/// Big-endian unsigned 16 bit payload field at `i`.
pub open spec fn field_u16(p: Seq<u8>, i: int) -> u16 {
    be_u16(p[i], p[i + 1])
}

/// Big-endian signed 16 bit payload field at `i`.
pub open spec fn field_i16(p: Seq<u8>, i: int) -> i16 {
    field_u16(p, i) as i16
}

/// Signed 24 bit payload field at `i`: the three bytes form the high part of
/// a big-endian 32 bit value whose low byte is all ones when the third byte
/// has its top bit set, and zero otherwise.
pub open spec fn field_i24(p: Seq<u8>, i: int) -> i32 {
    be_u32(p[i], p[i + 1], p[i + 2], if p[i + 2] >= 128 { 255u8 } else { 0u8 }) as i32
}

/// Big-endian signed 32 bit payload field at `i`.
pub open spec fn field_i32(p: Seq<u8>, i: int) -> i32 {
    be_u32(p[i], p[i + 1], p[i + 2], p[i + 3]) as i32
}

/// Barometric altitude in decimeters from its wire form: non-negative values
/// are offset by 10000 decimeters, negative ones carry whole meters in their
/// low 15 bits.
pub open spec fn barometric_altitude(altitude: i16) -> i32 {
    if altitude < 0 {
        ((altitude + 32768) * 10) as i32
    } else {
        (altitude - 10000) as i32
    }
}

/// Extended frame types that the decoder does not handle yet.
pub open spec fn unsupported_extended(ty: u8) -> bool {
    ty == 0x29 || ty == 0x2B || ty == 0x2C || ty == 0x2D || ty == 0x2E || ty == 0x32 || ty
        == 0x3A || ty == 0x78 || ty == 0x79 || ty == 0x7A || ty == 0x7B || ty == 0x7C || ty == 0x7D
        || ty == 0x80
}

/// Frame types (and payloads) that decoding cannot turn into a packet or an
/// error: kinds that are not handled yet, and payloads whose addresses, power
/// level, channel block or flight mode text do not make sense.
pub open spec fn payload_unsupported(ty: u8, p: Seq<u8>, pl: int) -> bool {
    if ty < 0x28 {
        ||| ty == 0x0B && !(p[0] == 0 && address_from_raw(p[1]) is Some)
        ||| ty == 0x14 && tx_power_from_raw(p[6]) is None
        ||| ty == 0x16 && pl != 22
        ||| ty == 0x17 || ty == 0x1C || ty == 0x1D || ty == 0x1E
        ||| ty == 0x21 && (pl == 0 || exists|i: int| 0 <= i < pl - 1 && p[i] == 0)
    } else {
        ||| address_from_raw(p[0]) is None
        ||| address_from_raw(p[1]) is None
        ||| unsupported_extended(ty)
    }
}

/// The header announces a payload length outside `0..=MAX_PAYLOAD`.
pub open spec fn header_unsupported(raw: Seq<u8>) -> bool {
    raw.len() >= 3 && raw[0] == 0xC8 && (raw[1] < 2 || raw[1] > 63)
}

/// Frames that decoding with checksum `crc` cannot handle.
pub open spec fn frame_unsupported(raw: Seq<u8>, crc: u8) -> bool {
    ||| header_unsupported(raw)
    ||| {
        &&& raw.len() >= 3
        &&& raw[0] == 0xC8
        &&& !header_unsupported(raw)
        &&& frame_complete(raw)
        &&& crc == raw[raw[1] + 1]
        &&& payload_unsupported(raw[2], frame_payload(raw), payload_length(raw))
    }
}

/// The packet a verified payload of type `ty` and length `pl` (padded to
/// `MAX_PAYLOAD` bytes in `p`) describes; channel and flight mode payloads
/// (types 0x16 and 0x21) are described by `payload_matches` instead.
pub open spec fn payload_packet<E>(ty: u8, p: Seq<u8>, pl: int) -> Result<Packet, PacketError<E>> {
    if ty < 0x28 {
        if ty == 0x02 {
            Ok(
                Packet::Gps {
                    latitude: field_i32(p, 0),
                    longitude: field_i32(p, 4),
                    speed: field_i16(p, 8),
                    heading: field_i16(p, 10),
                    altitude: (field_u16(p, 12) - 1000) as i32,
                    satellites: p[14],
                },
            )
        } else if ty == 0x07 {
            Ok(Packet::Vario { vertical_speed: field_i16(p, 0) })
        } else if ty == 0x08 {
            Ok(
                Packet::BatterySensor {
                    voltage: field_i16(p, 0),
                    current: field_i16(p, 2),
                    used: field_i24(p, 4),
                    remaining: field_i8(p, 7),
                },
            )
        } else if ty == 0x09 {
            Ok(
                Packet::BarometricAltitude {
                    altitude: barometric_altitude(field_i16(p, 0)),
                    vertical_speed: if pl >= 4 {
                        Some(field_i16(p, 2))
                    } else {
                        None
                    },
                },
            )
        } else if ty == 0x0B {
            Ok(Packet::Heartbeat { origin: address_from_raw(p[1]).unwrap() })
        } else if ty == 0x14 {
            Ok(
                Packet::LinkStatistics {
                    up_rssi1: p[0],
                    up_rssi2: p[1],
                    up_lq: p[2],
                    up_snr: field_i8(p, 3),
                    active_antenna: p[4],
                    mode: p[5],
                    tx_power: tx_power_from_raw(p[6]).unwrap(),
                    down_rssi: p[7],
                    down_lq: p[8],
                    down_snr: field_i8(p, 9),
                },
            )
        } else {
            Err(PacketError::InvalidPacketKind(ty))
        }
    } else if ty == 0x28 {
        Ok(
            Packet::DevicePing {
                to: address_from_raw(p[0]).unwrap(),
                from: address_from_raw(p[1]).unwrap(),
            },
        )
    } else {
        Err(PacketError::InvalidPacketKind(ty))
    }
}

/// `r` is what decoding a verified payload of type `ty` and length `pl`
/// (padded to `MAX_PAYLOAD` bytes in `p`) gives.
pub open spec fn payload_matches<E>(ty: u8, p: Seq<u8>, pl: int, r: Result<Packet, PacketError<E>>) -> bool {
    if ty == 0x16 {
        r matches Ok(Packet::RcChannelsPacked(ch)) && ch.0@ == p.subrange(0, 22)
    } else if ty == 0x21 {
        r matches Ok(Packet::FlightMode(mode)) && mode@ == p.subrange(0, pl - 1)
    } else {
        r == payload_packet::<E>(ty, p, pl)
    }
}

/// The header is well formed, the frame complete and its checksum byte equal
/// to `crc`.
pub open spec fn frame_verified(raw: Seq<u8>, crc: u8) -> bool {
    raw.len() >= 3 && raw[0] == 0xC8 && frame_complete(raw) && crc == raw[raw[1] + 1]
}

/// The error reading frame `raw` gives when it is not `frame_verified`.
pub open spec fn frame_error<E>(raw: Seq<u8>, crc: u8) -> PacketError<E> {
    if raw.len() < 3 {
        PacketError::UnexpectedEof
    } else if raw[0] != 0xC8 {
        PacketError::InvalidSyncByte(raw[0])
    } else if !frame_complete(raw) {
        PacketError::UnexpectedEof
    } else {
        PacketError::BadCrc
    }
}

/// `r` is what reading frame `raw` gives when its body checksum is `crc`.
pub open spec fn read_matches<E>(raw: Seq<u8>, crc: u8, r: Result<Packet, PacketError<E>>) -> bool {
    if frame_verified(raw, crc) {
        payload_matches(raw[2], frame_payload(raw), payload_length(raw), r)
    } else {
        r == Err::<Packet, PacketError<E>>(frame_error(raw, crc))
    }
}

/// The checksum of the body of frame `raw`, when the frame is complete.
pub open spec fn frame_crc(raw: Seq<u8>) -> u8 {
    crc8_dvb_s2(frame_body(raw))
}

/// Sequential reader over a zero padded frame payload.
struct PacketReader {
    /// Max packet size excluding sync, length, and type bytes
    payload: Vec<u8>,
    /// Next byte index to read from
    next: usize,
    /// Actual packet size excluding sync, length, type, and crc bytes
    payload_length: u8,
    packet_type: u8,
}

impl PacketReader {
    fn u8(&mut self) -> (r: u8)
        requires
            old(self).next + 1 <= old(self).payload@.len() <= 61,
        ensures
            r == old(self).payload@[old(self).next as int],
            final(self).next == old(self).next + 1,
            final(self).payload == old(self).payload,
            final(self).payload_length == old(self).payload_length,
            final(self).packet_type == old(self).packet_type,
    {
        let x = self.payload[self.next];
        self.next = self.next + 1;
        x
    }

    fn i8(&mut self) -> (r: i8)
        requires
            old(self).next + 1 <= old(self).payload@.len() <= 61,
        ensures
            r == field_i8(old(self).payload@, old(self).next as int),
            final(self).next == old(self).next + 1,
            final(self).payload == old(self).payload,
            final(self).payload_length == old(self).payload_length,
            final(self).packet_type == old(self).packet_type,
    {
        self.u8() as i8
    }

    fn u16(&mut self) -> (r: u16)
        requires
            old(self).next + 2 <= old(self).payload@.len() <= 61,
        ensures
            r == field_u16(old(self).payload@, old(self).next as int),
            final(self).next == old(self).next + 2,
            final(self).payload == old(self).payload,
            final(self).payload_length == old(self).payload_length,
            final(self).packet_type == old(self).packet_type,
    {
        let r = u16_from_be(self.payload[self.next], self.payload[self.next + 1]);
        self.next = self.next + 2;
        r
    }

    fn i16(&mut self) -> (r: i16)
        requires
            old(self).next + 2 <= old(self).payload@.len() <= 61,
        ensures
            r == field_i16(old(self).payload@, old(self).next as int),
            final(self).next == old(self).next + 2,
            final(self).payload == old(self).payload,
            final(self).payload_length == old(self).payload_length,
            final(self).packet_type == old(self).packet_type,
    {
        self.u16() as i16
    }

    fn i24(&mut self) -> (r: i32)
        requires
            old(self).next + 3 <= old(self).payload@.len() <= 61,
        ensures
            r == field_i24(old(self).payload@, old(self).next as int),
            final(self).next == old(self).next + 3,
            final(self).payload == old(self).payload,
            final(self).payload_length == old(self).payload_length,
            final(self).packet_type == old(self).packet_type,
    {
        let b1 = self.payload[self.next];
        let b2 = self.payload[self.next + 1];
        let b3 = self.payload[self.next + 2];
        let b4: u8 = if b3 >= 0x80 { 0xFF } else { 0x00 };
        self.next = self.next + 3;
        u32_from_be(b1, b2, b3, b4) as i32
    }

    fn i32(&mut self) -> (r: i32)
        requires
            old(self).next + 4 <= old(self).payload@.len() <= 61,
        ensures
            r == field_i32(old(self).payload@, old(self).next as int),
            final(self).next == old(self).next + 4,
            final(self).payload == old(self).payload,
            final(self).payload_length == old(self).payload_length,
            final(self).packet_type == old(self).packet_type,
    {
        let i = self.next;
        let r = u32_from_be(
            self.payload[i],
            self.payload[i + 1],
            self.payload[i + 2],
            self.payload[i + 3],
        );
        self.next = self.next + 4;
        r as i32
    }

    /// The unread rest of the payload.
    fn payload(&mut self) -> (r: Vec<u8>)
        requires
            old(self).next <= old(self).payload_length <= old(self).payload@.len(),
        ensures
            r@ == old(self).payload@.subrange(
                old(self).next as int,
                old(self).payload_length as int,
            ),
            final(self).next == old(self).payload_length,
            final(self).payload == old(self).payload,
            final(self).payload_length == old(self).payload_length,
            final(self).packet_type == old(self).packet_type,
    {
        let end = self.payload_length as usize;
        let mut rest: Vec<u8> = Vec::new();
        let mut i = self.next;
        while i < end
            invariant
                self.next <= i <= end,
                end == self.payload_length,
                end <= self.payload@.len(),
                rest@ == self.payload@.subrange(self.next as int, i as int),
            decreases end - i,
        {
            rest.push(self.payload[i]);
            i = i + 1;
        }
        self.next = end;
        rest
    }
}

/// Converts the wire form of a barometric altitude into decimeters.
pub fn convert_barometric_altitude(altitude: i16) -> (r: i32)
    ensures
        r == barometric_altitude(altitude),
{
    if altitude < 0 {
        let masked = altitude & 0x7FFF;
        assert(altitude < 0 ==> (altitude & 0x7FFF) as int == altitude + 32768) by (bit_vector);
        (masked as i32) * 10
    } else {
        (altitude as i32) - 10_000
    }
}

fn is_address(raw: u8) -> (r: bool)
    ensures
        r == address_from_raw(raw) is Some,
{
    Address::from_raw(raw).is_some()
}

/// Decides `payload_unsupported` for the payload of a complete frame.
fn is_payload_unsupported(raw: &[u8]) -> (r: bool)
    requires
        raw@.len() >= 3,
        2 <= raw@[1] <= 63,
        frame_complete(raw@),
    ensures
        r == payload_unsupported(raw@[2], frame_payload(raw@), payload_length(raw@)),
{
    let ghost p = frame_payload(raw@);
    let pl = (raw[1] - 2) as usize;
    let ty = raw[2];
    let b0 = if pl > 0 { raw[3] } else { 0 };
    let b1 = if pl > 1 { raw[4] } else { 0 };
    assert(b0 == p[0] && b1 == p[1]);
    if ty < 0x28 {
        if ty == 0x0B {
            !(b0 == 0 && is_address(b1))
        } else if ty == 0x14 {
            let b6 = if pl > 6 { raw[9] } else { 0 };
            assert(b6 == p[6]);
            TxPower::from_raw(b6).is_none()
        } else if ty == 0x16 {
            pl != 22
        } else if ty == 0x17 || ty == 0x1C || ty == 0x1D || ty == 0x1E {
            true
        } else if ty == 0x21 {
            if pl == 0 {
                return true;
            }
            let mut i: usize = 0;
            while i < pl - 1
                invariant
                    0 < pl <= 61,
                    pl == payload_length(raw@),
                    p == frame_payload(raw@),
                    raw@.len() >= 3 + pl,
                    ty == raw@[2],
                    ty == 0x21,
                    i <= pl - 1,
                    forall|k: int| 0 <= k < i ==> p[k] != 0,
                decreases pl - 1 - i,
            {
                if raw[3 + i] == 0 {
                    assert(p[i as int] == raw@[3 + i]);
                    assert(0 <= i < pl - 1 && p[i as int] == 0);
                    return true;
                }
                i = i + 1;
            }
            false
        } else {
            false
        }
    } else {
        !is_address(b0) || !is_address(b1) || ty == 0x29 || ty == 0x2B || ty == 0x2C || ty == 0x2D
            || ty == 0x2E || ty == 0x32 || ty == 0x3A || ty == 0x78 || ty == 0x79 || ty == 0x7A
            || ty == 0x7B || ty == 0x7C || ty == 0x7D || ty == 0x80
    }
}

/// Decides `frame_unsupported` for frame `raw` and body checksum `crc`.
fn is_frame_unsupported(raw: &[u8], crc: u8) -> (r: bool)
    ensures
        r == frame_unsupported(raw@, crc),
{
    if raw.len() < 3 || raw[0] != SYNC_BYTE {
        return false;
    }
    if raw[1] < 2 || raw[1] > 63 {
        return true;
    }
    if raw.len() < raw[1] as usize + 2 || crc != raw[raw[1] as usize + 1] {
        return false;
    }
    is_payload_unsupported(raw)
}

impl Packet {
    /// Checks the frame header and checksum, given the checksum `crc` of the
    /// frame body, and decodes the payload.
    pub fn decode_frame<E>(raw: &[u8], crc: u8) -> (r: Result<Packet, PacketError<E>>)
        requires
            !frame_unsupported(raw@, crc),
        ensures
            read_matches(raw@, crc, r),
    {
        if raw.len() < 3 {
            return Err(PacketError::UnexpectedEof);
        }
        let sync = raw[0];
        let length = raw[1];
        let packet_type = raw[2];
        if sync != SYNC_BYTE {
            return Err(PacketError::InvalidSyncByte(sync));
        }
        // Exclude type and crc bytes
        let payload_length = length - 2;
        if raw.len() < 3 + payload_length as usize + 1 {
            return Err(PacketError::UnexpectedEof);
        }
        let checksum = raw[3 + payload_length as usize];
        if crc != checksum {
            return Err(PacketError::BadCrc);
        }
        let mut payload: Vec<u8> = Vec::new();
        let mut i: usize = 0;
        while i < MAX_PAYLOAD
            invariant
                i <= 61,
                payload@.len() == i,
                raw@.len() >= 3 + payload_length + 1,
                payload_length == raw@[1] - 2,
                forall|k: int| 0 <= k < i ==> payload@[k] == frame_payload(raw@)[k],
            decreases 61 - i,
        {
            if i < payload_length as usize {
                payload.push(raw[3 + i]);
            } else {
                payload.push(0);
            }
            i = i + 1;
        }
        assert(payload@ == frame_payload(raw@));
        let mut reader = PacketReader { payload, next: 0, payload_length, packet_type };
        Self::decode_payload(&mut reader)
    }

    /// Reads one frame from the start of `raw`: checks the sync byte, that the
    /// frame is complete and its CRC-8/DVB-S2 checksum, then decodes the
    /// payload. A frame takes `raw[1] + 2` bytes (sync, length, then the
    /// `raw[1]` bytes the length counts), so a next frame starts there; the
    /// bytes after it play no part (see `lemma_read_takes_frame_bytes`).
    pub fn read<E>(raw: &[u8]) -> (r: Result<Packet, PacketError<E>>)
        requires
            !frame_unsupported(raw@, frame_crc(raw@)),
        ensures
            read_matches(raw@, frame_crc(raw@), r),
            r is Ok ==> 2 <= raw@[1] && raw@[1] + 2 <= raw@.len(),
    {
        if raw.len() < 3 || raw[0] != SYNC_BYTE || raw[1] < 2 || raw.len() < raw[1] as usize + 2 {
            return Self::decode_frame(raw, 0);
        }
        let crc = crc8(&raw[2..raw[1] as usize + 1]);
        Self::decode_frame(raw, crc)
    }

    /// Like `read`, but gives `None` for frames that `read` cannot handle
    /// (see `frame_unsupported`).
    pub fn try_read<E>(raw: &[u8]) -> (r: Option<Result<Packet, PacketError<E>>>)
        ensures
            match r {
                None => frame_unsupported(raw@, frame_crc(raw@)),
                Some(r) => !frame_unsupported(raw@, frame_crc(raw@)) && read_matches(
                    raw@,
                    frame_crc(raw@),
                    r,
                ),
            },
    {
        let complete = raw.len() >= 3 && raw[0] == SYNC_BYTE && raw[1] >= 2 && raw.len() >= raw[1] as usize + 2;
        let crc = if complete {
            crc8(&raw[2..raw[1] as usize + 1])
        } else {
            0
        };
        if is_frame_unsupported(raw, crc) {
            proof {
                if !complete {
                    assert(frame_unsupported(raw@, frame_crc(raw@)));
                }
            }
            None
        } else {
            Some(Self::decode_frame(raw, crc))
        }
    }

    fn decode_payload<E>(reader: &mut PacketReader) -> (r: Result<Packet, PacketError<E>>)
        requires
            old(reader).payload@.len() == 61,
            old(reader).next == 0,
            old(reader).payload_length <= 61,
            !payload_unsupported(
                old(reader).packet_type,
                old(reader).payload@,
                old(reader).payload_length as int,
            ),
        ensures
            payload_matches(
                old(reader).packet_type,
                old(reader).payload@,
                old(reader).payload_length as int,
                r,
            ),
    {
        let ty = reader.packet_type;
        if ty < 0x28 {
            if ty == 0x02 {
                let latitude = reader.i32();
                let longitude = reader.i32();
                let speed = reader.i16();
                let heading = reader.i16();
                let altitude = (reader.u16() as i32) - 1000;
                let satellites = reader.u8();
                Ok(Packet::Gps { latitude, longitude, speed, heading, altitude, satellites })
            } else if ty == 0x07 {
                let vertical_speed = reader.i16();
                Ok(Packet::Vario { vertical_speed })
            } else if ty == 0x08 {
                let voltage = reader.i16();
                let current = reader.i16();
                let used = reader.i24();
                let remaining = reader.i8();
                Ok(Packet::BatterySensor { voltage, current, used, remaining })
            } else if ty == 0x09 {
                let altitude = convert_barometric_altitude(reader.i16());
                let vertical_speed = if reader.payload_length >= 4 {
                    Some(reader.i16())
                } else {
                    None
                };
                Ok(Packet::BarometricAltitude { altitude, vertical_speed })
            } else if ty == 0x0B {
                let raw = reader.u16();
                let origin = Address::from_u16(raw);
                match origin {
                    Some(origin) => Ok(Packet::Heartbeat { origin }),
                    None => {
                        assert(false);
                        Err(PacketError::InvalidPacketKind(ty))
                    },
                }
            } else if ty == 0x14 {
                let up_rssi1 = reader.u8();
                let up_rssi2 = reader.u8();
                let up_lq = reader.u8();
                let up_snr = reader.i8();
                let active_antenna = reader.u8();
                let mode = reader.u8();
                let tx_power = match TxPower::from_raw(reader.u8()) {
                    Some(p) => p,
                    None => {
                        assert(false);
                        TxPower::mW_0
                    },
                };
                let down_rssi = reader.u8();
                let down_lq = reader.u8();
                let down_snr = reader.i8();
                Ok(
                    Packet::LinkStatistics {
                        up_rssi1,
                        up_rssi2,
                        up_lq,
                        up_snr,
                        active_antenna,
                        mode,
                        tx_power,
                        down_rssi,
                        down_lq,
                        down_snr,
                    },
                )
            } else if ty == 0x16 {
                let data = reader.payload();
                let mut channels = [0u8; 22];
                let mut i: usize = 0;
                while i < 22
                    invariant
                        data@.len() == 22,
                        i <= 22,
                        forall|k: int| 0 <= k < i ==> channels@[k] == data@[k],
                    decreases 22 - i,
                {
                    channels[i] = data[i];
                    i = i + 1;
                }
                assert(channels@ == data@);
                Ok(Packet::RcChannelsPacked(RcChannelsPacked(channels)))
            } else if ty == 0x21 {
                let ghost p = reader.payload@;
                let mut data = reader.payload();
                // Strip trailing 0
                let length = data.len();
                data.truncate(length - 1);
                assert(data@ =~= p.subrange(0, length - 1));
                Ok(Packet::FlightMode(data))
            } else {
                Err(PacketError::InvalidPacketKind(ty))
            }
        } else {
            let to = match Address::from_raw(reader.u8()) {
                Some(a) => a,
                None => {
                    assert(false);
                    Address::Broadcast
                },
            };
            let from = match Address::from_raw(reader.u8()) {
                Some(a) => a,
                None => {
                    assert(false);
                    Address::Broadcast
                },
            };
            if ty == 0x28 {
                Ok(Packet::DevicePing { to, from })
            } else {
                Err(PacketError::InvalidPacketKind(ty))
            }
        }
    }
}

} // verus!
