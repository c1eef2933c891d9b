//! Frame decoder that reads payload fields in place from a byte slice.
use vstd::prelude::*;

use super::packet::{field_i16, field_i24, field_i32, field_i8, field_u16, SYNC_BYTE};
use super::{address_from_raw, be_u32, crc8, crc8_dvb_s2, u16_from_be, u32_from_be, Address};

verus! {

/// Reasons a frame cannot be decoded.
#[derive(Debug, Clone, Copy, PartialEq, Eq, Structural)]
pub enum DecodeError {
    UnexpectedEof,
    InvalidSyncByte(u8),
    InvalidPacketKind(u8),
    BadCrc,
    InvalidExtendedTo,
    InvalidExtendedFrom,
    UnsupportedPacket,
}

/// Sequential reader over the payload of a checked frame.
#[derive(Debug)]
pub struct Decoder<'a> {
    payload: &'a [u8],
    /// Next byte index to read from
    next: usize,
    packet_type: u8,
}

/// The header of an extended frame: destination and origin addresses.
#[derive(Debug, Clone, Copy, PartialEq, Eq, Structural)]
pub struct ExtendedDecoder {
    to: Address,
    from: Address,
    packet_type: u8,
}

/// The frame announces a length of zero, which the decoder cannot handle.
pub open spec fn decoder_frame_unsupported(buffer: Seq<u8>) -> bool {
    buffer.len() >= 3 && buffer[0] == 0xC8 && buffer[1] == 0
}

/// The checksum of the body (type byte and payload) of frame `buffer`.
pub open spec fn decoder_frame_crc(buffer: Seq<u8>) -> u8 {
    crc8_dvb_s2(buffer.subrange(2, buffer[1] + 1))
}

/// What decoding `buffer` gives when its body checksum is `crc`: the packet
/// type and payload of the frame, or the reason it is rejected.
pub open spec fn decode_result(buffer: Seq<u8>, crc: u8) -> Result<(u8, Seq<u8>), DecodeError> {
    if buffer.len() < 3 {
        Err(DecodeError::UnexpectedEof)
    } else if buffer[0] != 0xC8 {
        Err(DecodeError::InvalidSyncByte(buffer[0]))
    } else if buffer.len() < buffer[1] + 2 || buffer[1] < 2 {
        Err(DecodeError::UnexpectedEof)
    } else if crc != buffer[buffer[1] + 1] {
        Err(DecodeError::BadCrc)
    } else {
        Ok((buffer[2], buffer.subrange(3, buffer[1] + 1)))
    }
}

/// Position of the first NUL at or after `from` in `s`, or `s.len()`.
pub open spec fn nul_position(s: Seq<u8>, from: int) -> int
    decreases s.len() - from,
{
    if from >= s.len() {
        s.len() as int
    } else if s[from] == 0 {
        from
    } else {
        nul_position(s, from + 1)
    }
}

proof fn lemma_nul_position(s: Seq<u8>, from: int)
    requires
        0 <= from <= s.len(),
    ensures
        from <= nul_position(s, from) <= s.len(),
        forall|k: int| from <= k < nul_position(s, from) ==> s[k] != 0,
        nul_position(s, from) < s.len() ==> s[nul_position(s, from)] == 0,
    decreases s.len() - from,
{
    if from < s.len() && s[from] != 0 {
        lemma_nul_position(s, from + 1);
    }
}

impl<'a> Decoder<'a> {
    /// The payload of the frame.
    pub closed spec fn payload_view(&self) -> Seq<u8> {
        self.payload@
    }

    /// Index of the next payload byte to read.
    pub closed spec fn next_view(&self) -> int {
        self.next as int
    }

    /// The frame's packet type.
    pub closed spec fn type_view(&self) -> u8 {
        self.packet_type
    }

    /// Checks the frame at the start of `buffer` and opens a decoder over its
    /// payload.
    pub fn new(buffer: &'a [u8]) -> (r: Result<Decoder<'a>, DecodeError>)
        requires
            !decoder_frame_unsupported(buffer@),
        ensures
            match (r, decode_result(buffer@, decoder_frame_crc(buffer@))) {
                (Ok(d), Ok((ty, payload))) => d.type_view() == ty && d.payload_view() == payload
                    && d.next_view() == 0,
                (Err(e), Err(f)) => e == f,
                _ => false,
            },
    {
        if buffer.len() < 3 || buffer[0] != SYNC_BYTE || buffer[1] < 2 || buffer.len()
            < buffer[1] as usize + 2 {
            return Self::with_checksum(buffer, 0);
        }
        let crc = crc8(&buffer[2..buffer[1] as usize + 1]);
        Self::with_checksum(buffer, crc)
    }

    /// Checks the frame at the start of `buffer` against the body checksum
    /// `crc` and opens a decoder over its payload.
    pub fn with_checksum(buffer: &'a [u8], crc: u8) -> (r: Result<Decoder<'a>, DecodeError>)
        requires
            !decoder_frame_unsupported(buffer@),
        ensures
            match (r, decode_result(buffer@, crc)) {
                (Ok(d), Ok((ty, payload))) => d.type_view() == ty && d.payload_view() == payload
                    && d.next_view() == 0,
                (Err(e), Err(f)) => e == f,
                _ => false,
            },
    {
        if buffer.len() < 3 {
            return Err(DecodeError::UnexpectedEof);
        }
        let sync = buffer[0];
        let len = buffer[1] as usize;
        let packet_type = buffer[2];
        if sync != SYNC_BYTE {
            return Err(DecodeError::InvalidSyncByte(sync));
        }
        // len includes packet_type
        if buffer.len() - 3 < len - 1 {
            return Err(DecodeError::UnexpectedEof);
        }
        // len includes packet_type and checksum
        if len - 1 == 0 {
            return Err(DecodeError::UnexpectedEof);
        }
        let payload = &buffer[3..len + 1];
        let checksum = buffer[len + 1];
        if crc != checksum {
            return Err(DecodeError::BadCrc);
        }
        Ok(Decoder { payload, next: 0, packet_type })
    }

    /// Reads the extended header (destination and origin addresses).
    pub fn extended(&mut self) -> (r: Result<ExtendedDecoder, DecodeError>)
        requires
            old(self).next_view() + 2 <= old(self).payload_view().len(),
        ensures
            final(self).payload_view() == old(self).payload_view(),
            final(self).type_view() == old(self).type_view(),
            ({
                let p = old(self).payload_view();
                let n = old(self).next_view();
                match r {
                    Ok(e) => address_from_raw(p[n]) == Some(e.to_view()) && address_from_raw(
                        p[n + 1],
                    ) == Some(e.from_view()) && e.type_view() == old(self).type_view()
                        && final(self).next_view() == n + 2,
                    Err(DecodeError::InvalidExtendedTo) => address_from_raw(p[n]) is None
                        && final(self).next_view() == n + 1,
                    Err(DecodeError::InvalidExtendedFrom) => address_from_raw(p[n]) is Some
                        && address_from_raw(p[n + 1]) is None && final(self).next_view() == n
                        + 2,
                    _ => false,
                }
            }),
    {
        ExtendedDecoder::new(self)
    }

    /// Length of the whole frame: sync, length, type, payload and checksum.
    pub fn len(&self) -> (r: usize)
        requires
            self.payload_view().len() + 4 <= usize::MAX,
        ensures
            r == self.payload_view().len() + 4,
    {
        // sync, len, type, payload, checksum
        self.payload_len() + 4
    }

    /// Length of the payload.
    pub fn payload_len(&self) -> (r: usize)
        ensures
            r == self.payload_view().len(),
    {
        self.payload.len()
    }

    /// The frame's packet type.
    pub fn packet_type(&self) -> (r: u8)
        ensures
            r == self.type_view(),
    {
        self.packet_type
    }

    /// The unread rest of the payload; afterwards all of it counts as read.
    pub fn payload(&mut self) -> (r: &'a [u8])
        requires
            old(self).next_view() <= old(self).payload_view().len(),
        ensures
            r@ == old(self).payload_view().subrange(
                old(self).next_view(),
                old(self).payload_view().len() as int,
            ),
            final(self).next_view() == old(self).payload_view().len(),
            final(self).payload_view() == old(self).payload_view(),
            final(self).type_view() == old(self).type_view(),
    {
        let rest = &self.payload[self.next..self.payload.len()];
        self.next = self.payload.len();
        rest
    }

    pub fn u8(&mut self) -> (r: u8)
        requires
            old(self).next_view() + 1 <= old(self).payload_view().len(),
        ensures
            r == old(self).payload_view()[old(self).next_view()],
            final(self).next_view() == old(self).next_view() + 1,
            final(self).payload_view() == old(self).payload_view(),
            final(self).type_view() == old(self).type_view(),
    {
        let x = self.payload[self.next];
        self.next = self.next + 1;
        x
    }

    pub fn i8(&mut self) -> (r: i8)
        requires
            old(self).next_view() + 1 <= old(self).payload_view().len(),
        ensures
            r == field_i8(old(self).payload_view(), old(self).next_view()),
            final(self).next_view() == old(self).next_view() + 1,
            final(self).payload_view() == old(self).payload_view(),
            final(self).type_view() == old(self).type_view(),
    {
        self.u8() as i8
    }

    pub fn u16(&mut self) -> (r: u16)
        requires
            old(self).next_view() + 2 <= old(self).payload_view().len(),
        ensures
            r == field_u16(old(self).payload_view(), old(self).next_view()),
            final(self).next_view() == old(self).next_view() + 2,
            final(self).payload_view() == old(self).payload_view(),
            final(self).type_view() == old(self).type_view(),
    {
        let r = u16_from_be(self.payload[self.next], self.payload[self.next + 1]);
        self.next = self.next + 2;
        r
    }

    pub fn i16(&mut self) -> (r: i16)
        requires
            old(self).next_view() + 2 <= old(self).payload_view().len(),
        ensures
            r == field_i16(old(self).payload_view(), old(self).next_view()),
            final(self).next_view() == old(self).next_view() + 2,
            final(self).payload_view() == old(self).payload_view(),
            final(self).type_view() == old(self).type_view(),
    {
        self.u16() as i16
    }

    pub fn i24(&mut self) -> (r: i32)
        requires
            old(self).next_view() + 3 <= old(self).payload_view().len(),
        ensures
            r == field_i24(old(self).payload_view(), old(self).next_view()),
            final(self).next_view() == old(self).next_view() + 3,
            final(self).payload_view() == old(self).payload_view(),
            final(self).type_view() == old(self).type_view(),
    {
        let b1 = self.payload[self.next];
        let b2 = self.payload[self.next + 1];
        let b3 = self.payload[self.next + 2];
        let b4: u8 = if b3 >= 0x80 { 0xFF } else { 0x00 };
        self.next = self.next + 3;
        u32_from_be(b1, b2, b3, b4) as i32
    }

    pub fn u32(&mut self) -> (r: u32)
        requires
            old(self).next_view() + 4 <= old(self).payload_view().len(),
        ensures
            ({
                let p = old(self).payload_view();
                let n = old(self).next_view();
                r == be_u32(p[n], p[n + 1], p[n + 2], p[n + 3])
            }),
            final(self).next_view() == old(self).next_view() + 4,
            final(self).payload_view() == old(self).payload_view(),
            final(self).type_view() == old(self).type_view(),
    {
        let i = self.next;
        let r = u32_from_be(
            self.payload[i],
            self.payload[i + 1],
            self.payload[i + 2],
            self.payload[i + 3],
        );
        self.next = self.next + 4;
        r
    }

    pub fn i32(&mut self) -> (r: i32)
        requires
            old(self).next_view() + 4 <= old(self).payload_view().len(),
        ensures
            r == field_i32(old(self).payload_view(), old(self).next_view()),
            final(self).next_view() == old(self).next_view() + 4,
            final(self).payload_view() == old(self).payload_view(),
            final(self).type_view() == old(self).type_view(),
    {
        self.u32() as i32
    }

    /// Reads a NUL terminated string: the bytes up to the next NUL (or the
    /// end of the payload), skipping past the NUL.
    pub fn string(&mut self) -> (r: Vec<u8>)
        requires
            old(self).next_view() <= old(self).payload_view().len() < usize::MAX,
        ensures
            ({
                let p = old(self).payload_view();
                let end = nul_position(p, old(self).next_view());
                &&& r@ == p.subrange(old(self).next_view(), end)
                &&& final(self).next_view() == end + 1
            }),
            final(self).payload_view() == old(self).payload_view(),
            final(self).type_view() == old(self).type_view(),
    {
        let ghost p = self.payload@;
        let start = self.next;
        let mut end = start;
        proof {
            lemma_nul_position(p, start as int);
        }
        while end < self.payload.len() && self.payload[end] != 0
            invariant
                start <= end <= self.payload@.len(),
                p == self.payload@,
                nul_position(p, start as int) == nul_position(p, end as int),
            decreases self.payload@.len() - end,
        {
            end = end + 1;
        }
        let mut s: Vec<u8> = Vec::new();
        let mut i = start;
        while i < end
            invariant
                start <= i <= end <= self.payload@.len(),
                p == self.payload@,
                s@ == p.subrange(start as int, i as int),
            decreases end - i,
        {
            s.push(self.payload[i]);
            i = i + 1;
        }
        self.next = end + 1;
        s
    }
}

impl ExtendedDecoder {
    pub closed spec fn to_view(&self) -> Address {
        self.to
    }

    pub closed spec fn from_view(&self) -> Address {
        self.from
    }

    pub closed spec fn type_view(&self) -> u8 {
        self.packet_type
    }

    fn new(decoder: &mut Decoder) -> (r: Result<ExtendedDecoder, DecodeError>)
        requires
            old(decoder).next_view() + 2 <= old(decoder).payload_view().len(),
        ensures
            final(decoder).payload_view() == old(decoder).payload_view(),
            final(decoder).type_view() == old(decoder).type_view(),
            ({
                let p = old(decoder).payload_view();
                let n = old(decoder).next_view();
                match r {
                    Ok(e) => address_from_raw(p[n]) == Some(e.to_view()) && address_from_raw(
                        p[n + 1],
                    ) == Some(e.from_view()) && e.type_view() == old(decoder).type_view()
                        && final(decoder).next_view() == n + 2,
                    Err(DecodeError::InvalidExtendedTo) => address_from_raw(p[n]) is None
                        && final(decoder).next_view() == n + 1,
                    Err(DecodeError::InvalidExtendedFrom) => address_from_raw(p[n]) is Some
                        && address_from_raw(p[n + 1]) is None && final(decoder).next_view() == n
                        + 2,
                    _ => false,
                }
            }),
    {
        let to = match Address::from_raw(decoder.u8()) {
            Some(a) => a,
            None => return Err(DecodeError::InvalidExtendedTo),
        };
        let from = match Address::from_raw(decoder.u8()) {
            Some(a) => a,
            None => return Err(DecodeError::InvalidExtendedFrom),
        };
        Ok(ExtendedDecoder { to, from, packet_type: decoder.packet_type() })
    }

    /// The frame's packet type.
    pub fn packet_type(&self) -> (r: u8)
        ensures
            r == self.type_view(),
    {
        self.packet_type
    }

    /// Destination address.
    pub fn to(&self) -> (r: Address)
        ensures
            r == self.to_view(),
    {
        self.to
    }

    /// Origin address.
    pub fn from(&self) -> (r: Address)
        ensures
            r == self.from_view(),
    {
        self.from
    }
}

} // verus!
