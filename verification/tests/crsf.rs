use vertx::crsf::decoder::{DecodeError, Decoder};
use vertx::crsf::encoder::{EncodeError, Encoder};
use vertx::crsf::packet::Packet;
use vertx::crsf::{Address, TxPower};

#[test]
fn packet_rc_channels_packed_all_1500() {
    let raw: &[u8] = &[
        0xC8, 0x18, 0x16, 0xE0, 0x03, 0x1F, 0xF8, 0xC0, 0x07, 0x3E, 0xF0, 0x81, 0x0F, 0x7C, 0xE0,
        0x03, 0x1F, 0xF8, 0xC0, 0x07, 0x3E, 0xF0, 0x81, 0x0F, 0x7C, 0xAD,
    ];

    let Packet::RcChannelsPacked(channels) = Packet::read::<()>(raw).unwrap() else {
        panic!()
    };

    assert!(channels.unpack().into_iter().all(|ch| ch == 992));
}

#[test]
fn packet_link_statistics() {
    let raw: &[u8] = &[
        0xC8, 0x0C, 0x14, 0x24, 0x00, 0x64, 0x0A, 0x00, 0x02, 0x00, 0x00, 0x00, 0x00, 0x39,
    ];

    let expected = Packet::LinkStatistics {
        up_rssi1: 36,
        up_rssi2: 0,
        up_lq: 100,
        up_snr: 10,
        active_antenna: 0,
        mode: 2,
        tx_power: TxPower::mW_0,
        down_rssi: 0,
        down_lq: 0,
        down_snr: 0,
    };

    assert_eq!(expected, Packet::read::<()>(raw).unwrap());
}

#[test]
fn packet_flight_mode() {
    let raw: &[u8] = &[
        0xC8, 0x10, 0x21, 0x4C, 0x69, 0x74, 0x68, 0x6F, 0x62, 0x72, 0x61, 0x6B, 0x69, 0x6E, 0x67,
        0x21, 0x00, 0x46,
    ];

    let expected = Packet::FlightMode(b"Lithobraking!".to_vec());

    assert_eq!(expected, Packet::read::<()>(raw).unwrap());
}

#[test]
fn packet_with_bad_checksum_is_refused() {
    let raw: &[u8] = &[
        0xC8, 0x0C, 0x14, 0x24, 0x00, 0x64, 0x0A, 0x00, 0x02, 0x00, 0x00, 0x00, 0x00, 0x38,
    ];
    assert!(matches!(
        Packet::read::<()>(raw),
        Err(vertx::crsf::packet::PacketError::BadCrc)
    ));
}

#[test]
fn encoded_frame_decodes_to_the_same_fields() {
    let mut encoder = Encoder::new(vec![0; 64]).unwrap();
    encoder.u8(0x12).unwrap();
    encoder.i16(-2).unwrap();
    encoder.u32(0xDEAD_BEEF).unwrap();
    encoder.i24(-300).unwrap();
    encoder.string(b"hi").unwrap();
    // `finish` gives the index of the checksum byte: the frame is one
    // byte longer.
    let (buffer, crc_at) = encoder.finish(0x21);
    let crc_at = crc_at.unwrap();
    assert_eq!(buffer[0], 0xC8);
    assert_eq!(buffer[1] as usize, crc_at - 1);

    let mut decoder = Decoder::new(&buffer[..crc_at + 1]).unwrap();
    assert_eq!(decoder.packet_type(), 0x21);
    assert_eq!(decoder.u8(), 0x12);
    assert_eq!(decoder.i16(), -2);
    assert_eq!(decoder.u32(), 0xDEAD_BEEF);
    // The encoder keeps the three high bytes of the value and the decoder
    // reads them back as the three high bytes, sign extended downwards.
    assert_eq!(decoder.i24(), -257);
    assert_eq!(decoder.string(), b"hi".to_vec());
}

#[test]
fn barometric_altitude_carries_a_vertical_speed_only_when_sent() {
    let mut encoder = Encoder::new(vec![0; 64]).unwrap();
    encoder.i16(10_150).unwrap();
    let (buffer, crc_at) = encoder.finish(0x09);
    let crc_at = crc_at.unwrap();
    assert_eq!(
        Packet::read::<()>(&buffer[..crc_at + 1]).unwrap(),
        Packet::BarometricAltitude { altitude: 150, vertical_speed: None }
    );

    let mut encoder = Encoder::new(vec![0; 64]).unwrap();
    encoder.i16(10_150).unwrap();
    encoder.i16(-25).unwrap();
    let (buffer, crc_at) = encoder.finish(0x09);
    let crc_at = crc_at.unwrap();
    assert_eq!(
        Packet::read::<()>(&buffer[..crc_at + 1]).unwrap(),
        Packet::BarometricAltitude { altitude: 150, vertical_speed: Some(-25) }
    );
}

#[test]
fn packet_read_ignores_bytes_after_the_frame() {
    let raw: &[u8] = &[
        0xC8, 0x0C, 0x14, 0x24, 0x00, 0x64, 0x0A, 0x00, 0x02, 0x00, 0x00, 0x00, 0x00, 0x39,
    ];
    let mut longer = raw.to_vec();
    longer.extend_from_slice(&[0xC8, 0xFF, 0x00]);
    // The frame takes `raw[1] + 2` bytes.
    assert_eq!(raw.len(), raw[1] as usize + 2);
    assert_eq!(Packet::read::<()>(&longer).unwrap(), Packet::read::<()>(raw).unwrap());
}

#[test]
fn decoder_refuses_bad_checksum() {
    let mut encoder = Encoder::new(vec![0; 16]).unwrap();
    encoder.u8(7).unwrap();
    let (mut buffer, crc_at) = encoder.finish(0x08);
    let crc_at = crc_at.unwrap();
    assert!(Decoder::new(&buffer[..crc_at + 1]).is_ok());
    buffer[crc_at] ^= 0xFF;
    assert!(matches!(Decoder::new(&buffer[..crc_at + 1]), Err(DecodeError::BadCrc)));
    assert!(matches!(Decoder::new(&buffer[..crc_at]), Err(DecodeError::UnexpectedEof)));
}

#[test]
fn encoder_refuses_small_buffer() {
    assert!(matches!(Encoder::new(vec![0; 2]), Err(EncodeError::BufferTooSmall)));
    let mut encoder = Encoder::new(vec![0; 4]).unwrap();
    assert_eq!(encoder.u32(1), Err(EncodeError::BufferTooSmall));
}

#[test]
fn address_roundtrip() {
    let address = Address::from_raw(0xEA).unwrap();
    assert_eq!(address.into_raw(), 0xEA);
    assert!(Address::from_raw(0x01).is_none());
}

#[test]
fn tx_power_names() {
    assert_eq!(TxPower::mW_25.name(), "25mW");
    assert_eq!(TxPower::from_raw(3).map(TxPower::into_raw), Some(3));
}

#[test]
fn frame_errors() {
    assert!(matches!(Decoder::new(&[0x00, 0x02, 0x14, 0x00]), Err(DecodeError::InvalidSyncByte(0))));
    assert!(matches!(
        Packet::read::<()>(&[0x00, 0x02, 0x14, 0x00]),
        Err(vertx::crsf::packet::PacketError::InvalidSyncByte(0))
    ));
    assert!(matches!(
        Packet::read::<()>(&[0xC8, 0x0C, 0x14]),
        Err(vertx::crsf::packet::PacketError::UnexpectedEof)
    ));

    let mut encoder = Encoder::new(vec![0; 16]).unwrap();
    encoder.u8(1).unwrap();
    let (buffer, crc_at) = encoder.finish(0x03);
    let frame = &buffer[..crc_at.unwrap() + 1];
    assert!(matches!(
        Packet::read::<()>(frame),
        Err(vertx::crsf::packet::PacketError::InvalidPacketKind(0x03))
    ));
}

#[test]
fn extended_header_errors() {
    let mut encoder = Encoder::new(vec![0; 16]).unwrap();
    encoder.u8(0x01).unwrap();
    encoder.u8(0xEA).unwrap();
    let (buffer, crc_at) = encoder.finish(0x28);
    let mut decoder = Decoder::new(&buffer[..crc_at.unwrap() + 1]).unwrap();
    assert!(matches!(decoder.extended(), Err(DecodeError::InvalidExtendedTo)));

    let mut encoder = Encoder::new(vec![0; 16]).unwrap();
    encoder.extended(Address::Handset, Address::Transmitter).unwrap();
    let (buffer, crc_at) = encoder.finish(0x28);
    let mut decoder = Decoder::new(&buffer[..crc_at.unwrap() + 1]).unwrap();
    let extended = decoder.extended().unwrap();
    assert_eq!(extended.to(), Address::Handset);
    assert_eq!(extended.from(), Address::Transmitter);

    let mut encoder = Encoder::new(vec![0; 16]).unwrap();
    encoder.u8(0xEA).unwrap();
    encoder.u8(0x01).unwrap();
    let (buffer, crc_at) = encoder.finish(0x28);
    let mut decoder = Decoder::new(&buffer[..crc_at.unwrap() + 1]).unwrap();
    assert!(matches!(decoder.extended(), Err(DecodeError::InvalidExtendedFrom)));
}
