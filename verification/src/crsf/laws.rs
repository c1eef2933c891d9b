//! Properties that relate the encoder, the decoder and packet reading.
use vstd::prelude::*;

use super::decoder::{decode_result, decoder_frame_crc, decoder_frame_unsupported};
use super::encoder::{finish_header, splice, u16_be_bytes, u32_be_bytes};
use super::packet::{
    field_u16, frame_crc, frame_payload, frame_unsupported, frame_verified, payload_length, read_matches, Packet,
    PacketError,
};
use super::packet::payload_matches;
use super::packet::barometric_altitude;
use super::{address_from_raw, address_raw, be_u32, crc8_dvb_s2, tx_power_from_raw, tx_power_raw, Address, TxPower};

verus! {

/// A frame that the encoder finishes is accepted by the decoder, with the
/// packet type given to `finish` and exactly the payload bytes written
/// before it. `buf` is the encoder's buffer (which starts with the sync byte)
/// and `next` its write position, which must leave room for the checksum
/// and fit in the length byte.
pub proof fn lemma_finished_frame_decodes(buf: Seq<u8>, next: int, packet_type: u8)
    requires
        buf.len() >= 4,
        buf[0] == 0xC8,
        3 <= next < buf.len(),
        next <= 255,
    ensures
        ({
            let header = finish_header(buf, next, packet_type);
            let frame = header.update(next, crc8_dvb_s2(header.subrange(2, next)));
            decode_result(frame, decoder_frame_crc(frame)) == Ok::<(u8, Seq<u8>), super::decoder::DecodeError>((packet_type, buf.subrange(3, next)))
        }),
{
    let header = finish_header(buf, next, packet_type);
    let frame = header.update(next, crc8_dvb_s2(header.subrange(2, next)));
    assert(frame[1] == next - 1);
    assert(frame.subrange(2, frame[1] + 1) =~= header.subrange(2, next));
    assert(frame.subrange(3, frame[1] + 1) =~= buf.subrange(3, next));
}

/// Encoding then decoding gives the payload back. A fresh encoder over
/// `buffer` (which `Encoder::new` starts with the sync byte) that is given
/// `payload` by `slice` holds `payload` after the three header bytes. Where a
/// byte is left for the checksum, the frame that `finish` makes carries the
/// sync byte, the length (payload plus type and checksum), the packet type,
/// the payload and the checksum, and the decoder accepts it with that packet
/// type and exactly that payload. Where no byte is left, `finish` fails.
pub proof fn lemma_encode_then_decode(buffer: Seq<u8>, payload: Seq<u8>, packet_type: u8)
    requires
        buffer.len() >= 4,
        3 + payload.len() <= buffer.len(),
        payload.len() <= 60,
    ensures
        ({
            let written = splice(buffer.update(0, 0xC8), 3, payload);
            let n: int = 3 + payload.len() as int;
            let header = finish_header(written, n, packet_type);
            let frame = header.update(n, crc8_dvb_s2(header.subrange(2, n)));
            &&& n % 256 >= 2
            &&& n < buffer.len() ==> {
                &&& frame.len() == buffer.len()
                &&& frame[0] == 0xC8
                &&& frame[1] == payload.len() + 2
                &&& frame[2] == packet_type
                &&& frame.subrange(3, n) == payload
                &&& frame[n] == crc8_dvb_s2(seq![packet_type] + payload)
                &&& !decoder_frame_unsupported(frame)
                &&& decode_result(frame, decoder_frame_crc(frame)) == Ok::<(u8, Seq<u8>), super::decoder::DecodeError>((packet_type, payload))
            }
            &&& n == buffer.len() ==> !(n < header.len())
        }),
{
    let written = splice(buffer.update(0, 0xC8), 3, payload);
    let n: int = 3 + payload.len() as int;
    assert(written.len() == buffer.len());
    assert(written[0] == 0xC8);
    assert(written.subrange(3, n) =~= payload);
    if n < buffer.len() {
        lemma_finished_frame_decodes(written, n, packet_type);
        let header = finish_header(written, n, packet_type);
        let frame = header.update(n, crc8_dvb_s2(header.subrange(2, n)));
        assert(header.subrange(2, n) =~= seq![packet_type] + payload);
        assert(frame.subrange(3, n) =~= payload);
    }
}

/// Reading a frame takes its `frame[1] + 2` bytes and no more: with any
/// bytes `rest` after a complete frame, reading gives what reading the frame
/// alone gives, it is handled exactly when the frame alone is, and its
/// checksum is the frame's.
pub proof fn lemma_read_takes_frame_bytes<E>(frame: Seq<u8>, rest: Seq<u8>, r: Result<Packet, PacketError<E>>)
    requires
        frame.len() >= 3,
        frame[0] == 0xC8,
        2 <= frame[1],
        frame.len() == frame[1] + 2,
    ensures
        frame_crc(frame + rest) == frame_crc(frame),
        frame_unsupported(frame + rest, frame_crc(frame)) == frame_unsupported(frame, frame_crc(frame)),
        read_matches(frame + rest, frame_crc(frame), r) == read_matches(frame, frame_crc(frame), r),
{
    let raw = frame + rest;
    assert(raw.subrange(2, raw[1] + 1) =~= frame.subrange(2, frame[1] + 1));
    assert(frame_payload(raw) =~= frame_payload(frame));
    assert(raw[raw[1] + 1] == frame[frame[1] + 1]);
}

/// A frame that the encoder finishes also passes the frame checks of packet
/// reading, whose zero padded payload starts with the bytes written.
pub proof fn lemma_finished_frame_reads(buf: Seq<u8>, next: int, packet_type: u8)
    requires
        buf.len() >= 4,
        buf[0] == 0xC8,
        3 <= next < buf.len(),
        next <= 63,
    ensures
        ({
            let header = finish_header(buf, next, packet_type);
            let frame = header.update(next, crc8_dvb_s2(header.subrange(2, next)));
            &&& frame_verified(frame, frame_crc(frame))
            &&& frame[2] == packet_type
            &&& payload_length(frame) == next - 3
            &&& frame_payload(frame).subrange(0, next - 3) == buf.subrange(3, next)
        }),
{
    let header = finish_header(buf, next, packet_type);
    let frame = header.update(next, crc8_dvb_s2(header.subrange(2, next)));
    assert(frame[1] == next - 1);
    assert(frame.subrange(2, frame[1] + 1) =~= header.subrange(2, next));
    assert(frame_payload(frame).subrange(0, next - 3) =~= buf.subrange(3, next));
}

/// Packet reading and the decoder accept the same frames: a frame whose
/// checks pass for packet reading decodes to its type byte and payload.
pub proof fn lemma_read_and_decode_agree(raw: Seq<u8>, crc: u8)
    requires
        frame_verified(raw, crc),
        2 <= raw[1] <= 63,
    ensures
        decode_result(raw, crc) == Ok::<(u8, Seq<u8>), super::decoder::DecodeError>((raw[2], raw.subrange(3, raw[1] + 1))),
        frame_payload(raw).subrange(0, payload_length(raw)) == raw.subrange(3, raw[1] + 1),
{
    assert(frame_payload(raw).subrange(0, payload_length(raw)) =~= raw.subrange(3, raw[1] + 1));
}

/// The decoder reads back a 16 bit value that the encoder wrote at the same
/// position.
pub proof fn lemma_u16_roundtrip(buf: Seq<u8>, at: int, value: u16)
    requires
        0 <= at,
        at + 2 <= buf.len(),
    ensures
        field_u16(splice(buf, at, u16_be_bytes(value)), at) == value,
{
    let s = splice(buf, at, u16_be_bytes(value));
    assert(s[at] == u16_be_bytes(value)[0]);
    assert(s[at + 1] == u16_be_bytes(value)[1]);
}

/// The decoder reads back a 32 bit value that the encoder wrote at the same
/// position.
pub proof fn lemma_u32_roundtrip(buf: Seq<u8>, at: int, value: u32)
    requires
        0 <= at,
        at + 4 <= buf.len(),
    ensures
        ({
            let s = splice(buf, at, u32_be_bytes(value));
            be_u32(s[at], s[at + 1], s[at + 2], s[at + 3]) == value
        }),
{
    let s = splice(buf, at, u32_be_bytes(value));
    assert(s[at] == u32_be_bytes(value)[0]);
    assert(s[at + 1] == u32_be_bytes(value)[1]);
    assert(s[at + 2] == u32_be_bytes(value)[2]);
    assert(s[at + 3] == u32_be_bytes(value)[3]);
}

/// The big-endian bytes of a signed 32 bit value read back as that value.
proof fn lemma_i32_bytes(p: Seq<u8>, at: int, v: i32)
    requires
        0 <= at,
        at + 4 <= p.len(),
        p.subrange(at, at + 4) == u32_be_bytes(v as u32),
    ensures
        (be_u32(p[at], p[at + 1], p[at + 2], p[at + 3]) as i32) == v,
{
    let b = u32_be_bytes(v as u32);
    assert(p[at] == b[0] && p[at + 1] == b[1] && p[at + 2] == b[2] && p[at + 3] == b[3]);
    let u = v as u32;
    assert(be_u32(b[0], b[1], b[2], b[3]) == u);
    assert((u as i32) == v) by (bit_vector)
        requires
            u == v as u32,
    ;
}

/// The big-endian bytes of a 16 bit value read back as that value.
proof fn lemma_u16_bytes(p: Seq<u8>, at: int, v: u16)
    requires
        0 <= at,
        at + 2 <= p.len(),
        p.subrange(at, at + 2) == u16_be_bytes(v),
    ensures
        field_u16(p, at) == v,
{
    let b = u16_be_bytes(v);
    assert(p[at] == b[0] && p[at + 1] == b[1]);
}

/// A GPS payload reads back the fields it was written with: the latitude
/// from the big-endian bytes 0..4, the longitude from bytes 4..8, the ground
/// speed from 8..10, the heading from 10..12, the altitude (stored 1000 m
/// up) from 12..14 and the satellite count from byte 14.
pub proof fn lemma_gps_fields<E>(
    p: Seq<u8>,
    pl: int,
    r: Result<Packet, PacketError<E>>,
    latitude: i32,
    longitude: i32,
    speed: i16,
    heading: i16,
    altitude: u16,
    satellites: u8,
)
    requires
        p.len() == 61,
        p.subrange(0, 4) == u32_be_bytes(latitude as u32),
        p.subrange(4, 8) == u32_be_bytes(longitude as u32),
        p.subrange(8, 10) == u16_be_bytes(speed as u16),
        p.subrange(10, 12) == u16_be_bytes(heading as u16),
        p.subrange(12, 14) == u16_be_bytes(altitude),
        p[14] == satellites,
        payload_matches(0x02, p, pl, r),
    ensures
        r == Ok::<Packet, PacketError<E>>(Packet::Gps {
            latitude,
            longitude,
            speed,
            heading,
            altitude: (altitude - 1000) as i32,
            satellites,
        }),
{
    lemma_i32_bytes(p, 0, latitude);
    lemma_i32_bytes(p, 4, longitude);
    lemma_u16_bytes(p, 8, speed as u16);
    lemma_u16_bytes(p, 10, heading as u16);
    lemma_u16_bytes(p, 12, altitude);
    let s = speed as u16;
    let h = heading as u16;
    assert((s as i16) == speed) by (bit_vector)
        requires
            s == speed as u16,
    ;
    assert((h as i16) == heading) by (bit_vector)
        requires
            h == heading as u16,
    ;
}

/// The CRSF wire value of every address, and the lookup from wire values
/// inverts it: a wire value names an address exactly when it is that
/// address's value.
pub proof fn lemma_address_wire_values(raw: u8, a: Address)
    ensures
        address_raw(Address::Broadcast) == 0x00,
        address_raw(Address::Usb) == 0x10,
        address_raw(Address::Bluetooth) == 0x12,
        address_raw(Address::TbsCorePnpPro) == 0x80,
        address_raw(Address::Reserved1) == 0x8A,
        address_raw(Address::CurrentSensor) == 0xC0,
        address_raw(Address::Gps) == 0xC2,
        address_raw(Address::TbsBlackbox) == 0xC4,
        address_raw(Address::FlightController) == 0xC8,
        address_raw(Address::Reserved2) == 0xCA,
        address_raw(Address::RaceTag) == 0xCC,
        address_raw(Address::Handset) == 0xEA,
        address_raw(Address::Receiver) == 0xEC,
        address_raw(Address::Transmitter) == 0xEE,
        address_raw(Address::ElrsLua) == 0xEF,
        address_from_raw(address_raw(a)) == Some(a),
        address_from_raw(raw) == Some(a) <==> address_raw(a) == raw,
{
}

/// A signed 16 bit value's big-endian bytes read back as that value.
proof fn lemma_i16_bytes(p: Seq<u8>, at: int, v: i16)
    requires
        0 <= at,
        at + 2 <= p.len(),
        p.subrange(at, at + 2) == u16_be_bytes(v as u16),
    ensures
        (field_u16(p, at) as i16) == v,
{
    lemma_u16_bytes(p, at, v as u16);
    let u = v as u16;
    assert((u as i16) == v) by (bit_vector)
        requires
            u == v as u16,
    ;
}

/// A vario payload reads back the vertical speed written big-endian in its
/// first two bytes.
pub proof fn lemma_vario_fields<E>(p: Seq<u8>, pl: int, r: Result<Packet, PacketError<E>>, vertical_speed: i16)
    requires
        p.len() == 61,
        p.subrange(0, 2) == u16_be_bytes(vertical_speed as u16),
        payload_matches(0x07, p, pl, r),
    ensures
        r == Ok::<Packet, PacketError<E>>(Packet::Vario { vertical_speed }),
{
    lemma_i16_bytes(p, 0, vertical_speed);
}

/// A battery payload reads back the voltage from the big-endian bytes 0..2,
/// the current from 2..4, the used capacity from 4..7 (the three high bytes
/// of a 32 bit value) and the remaining percentage from byte 7.
pub proof fn lemma_battery_fields<E>(
    p: Seq<u8>,
    pl: int,
    r: Result<Packet, PacketError<E>>,
    voltage: i16,
    current: i16,
    remaining: i8,
)
    requires
        p.len() == 61,
        p.subrange(0, 2) == u16_be_bytes(voltage as u16),
        p.subrange(2, 4) == u16_be_bytes(current as u16),
        p[7] == remaining as u8,
        payload_matches(0x08, p, pl, r),
    ensures
        r matches Ok(Packet::BatterySensor { voltage: v, current: c, used, remaining: rem }) && v == voltage
            && c == current && rem == remaining
            && used == (be_u32(p[4], p[5], p[6], if p[6] >= 128 { 255u8 } else { 0u8 }) as i32),
{
    lemma_i16_bytes(p, 0, voltage);
    lemma_i16_bytes(p, 2, current);
    let b = p[7];
    assert(((b as i8) == remaining)) by (bit_vector)
        requires
            b == remaining as u8,
    ;
}

/// A barometric payload reads back the altitude from its first two bytes
/// (a non-negative wire value `w` is `w - 10000` decimeters, a negative one
/// carries whole meters in its low 15 bits), and a vertical speed from the
/// next two exactly when the payload is at least four bytes long.
pub proof fn lemma_barometric_fields<E>(
    p: Seq<u8>,
    pl: int,
    r: Result<Packet, PacketError<E>>,
    wire_altitude: i16,
    vertical_speed: i16,
)
    requires
        p.len() == 61,
        p.subrange(0, 2) == u16_be_bytes(wire_altitude as u16),
        p.subrange(2, 4) == u16_be_bytes(vertical_speed as u16),
        payload_matches(0x09, p, pl, r),
    ensures
        r matches Ok(Packet::BarometricAltitude { altitude, vertical_speed: vs }) && (
            if wire_altitude >= 0 {
                altitude == wire_altitude - 10000
            } else {
                altitude == (wire_altitude + 32768) * 10
            }) && vs == (if pl >= 4 { Some(vertical_speed) } else { None }),
{
    lemma_i16_bytes(p, 0, wire_altitude);
    lemma_i16_bytes(p, 2, vertical_speed);
}

/// A link statistics payload reads back its ten one-byte fields in order:
/// uplink RSSI 1 and 2, uplink quality, uplink SNR (signed), active antenna,
/// mode, transmit power (by its wire value), downlink RSSI, quality and SNR
/// (signed).
pub proof fn lemma_link_statistics_fields<E>(p: Seq<u8>, pl: int, r: Result<Packet, PacketError<E>>, power: TxPower)
    requires
        p.len() == 61,
        p[6] == tx_power_raw(power),
        payload_matches(0x14, p, pl, r),
    ensures
        r matches Ok(
            Packet::LinkStatistics {
                up_rssi1,
                up_rssi2,
                up_lq,
                up_snr,
                active_antenna,
                mode,
                tx_power,
                down_rssi,
                down_lq,
                down_snr,
            },
        ) && up_rssi1 == p[0] && up_rssi2 == p[1] && up_lq == p[2] && up_snr == p[3] as i8
            && active_antenna == p[4] && mode == p[5] && tx_power == power && down_rssi == p[7]
            && down_lq == p[8] && down_snr == p[9] as i8,
{
}

/// A device ping reads its destination from the first byte of the extended
/// header and its origin from the second; a heartbeat reads its origin from
/// its second byte.
pub proof fn lemma_addressed_fields<E>(
    p: Seq<u8>,
    pl: int,
    r: Result<Packet, PacketError<E>>,
    ty: u8,
    to: Address,
    from: Address,
)
    requires
        p.len() == 61,
        ty == 0x28 || ty == 0x0B,
        ty == 0x28 ==> p[0] == address_raw(to),
        p[1] == address_raw(from),
        payload_matches(ty, p, pl, r),
    ensures
        ty == 0x28 ==> r == Ok::<Packet, PacketError<E>>(Packet::DevicePing { to, from }),
        ty == 0x0B ==> r == Ok::<Packet, PacketError<E>>(Packet::Heartbeat { origin: from }),
{
    lemma_address_wire_values(p[1], from);
    lemma_address_wire_values(p[0], to);
}

/// The wire value of every transmit power level, and the lookup from wire
/// values inverts it.
pub proof fn lemma_tx_power_wire_values(raw: u8, power: TxPower)
    ensures
        tx_power_raw(TxPower::mW_0) == 0,
        tx_power_raw(TxPower::mW_10) == 1,
        tx_power_raw(TxPower::mW_25) == 2,
        tx_power_raw(TxPower::mW_50) == 7,
        tx_power_raw(TxPower::mW_100) == 3,
        tx_power_raw(TxPower::mW_500) == 4,
        tx_power_raw(TxPower::mW_1000) == 5,
        tx_power_raw(TxPower::mW_2000) == 6,
        tx_power_from_raw(raw) == Some(power) <==> tx_power_raw(power) == raw,
{
}

} // verus!
