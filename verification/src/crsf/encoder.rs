//! Frame encoder that writes a frame into a caller supplied buffer.
use vstd::prelude::*;

use super::packet::SYNC_BYTE;
use super::{address_raw, crc8, crc8_dvb_s2, Address};

verus! {

/// Reasons a frame cannot be encoded.
#[derive(Debug, Clone, Copy, PartialEq, Eq, Structural)]
pub enum EncodeError {
    BufferTooSmall,
    UnsupportedPacket,
}

/// Writes a frame field by field; `finish` adds the header and checksum.
#[derive(Debug)]
pub struct Encoder {
    buffer: Vec<u8>,
    /// Next byte index to write to
    next: usize,
    extended: bool,
}

/// `buf` with `bytes` written over it from index `at`.
pub open spec fn splice(buf: Seq<u8>, at: int, bytes: Seq<u8>) -> Seq<u8> {
    buf.subrange(0, at) + bytes + buf.subrange(at + bytes.len(), buf.len() as int)
}

/// Big-endian bytes of a 16 bit value.
pub open spec fn u16_be_bytes(v: u16) -> Seq<u8> {
    seq![(v / 256) as u8, (v % 256) as u8]
}

/// Big-endian bytes of a 32 bit value.
pub open spec fn u32_be_bytes(v: u32) -> Seq<u8> {
    seq![(v / 16777216) as u8, ((v / 65536) % 256) as u8, ((v / 256) % 256) as u8, (v % 256) as u8]
}

/// The three most significant big-endian bytes of a 32 bit value.
pub open spec fn i24_be_bytes(v: i32) -> Seq<u8> {
    u32_be_bytes(v as u32).subrange(0, 3)
}

/// The buffer of an encoder that has written up to `next` when `finish` adds
/// the header for `packet_type`, before the checksum is placed.
pub open spec fn finish_header(buf: Seq<u8>, next: int, packet_type: u8) -> Seq<u8> {
    buf.update(1, ((next % 256) - 1) as u8).update(2, packet_type)
}

/// Outcome of a fallible write of `bytes` at `next` into `old_buf`.
pub open spec fn write_outcome(
    old_buf: Seq<u8>,
    old_next: int,
    bytes: Seq<u8>,
    new_buf: Seq<u8>,
    new_next: int,
    r: Result<(), EncodeError>,
) -> bool {
    if old_next + bytes.len() <= old_buf.len() {
        r is Ok && new_buf == splice(old_buf, old_next, bytes) && new_next == old_next + bytes.len()
    } else {
        r == Err::<(), EncodeError>(EncodeError::BufferTooSmall) && new_buf == old_buf && new_next
            == old_next
    }
}

impl Encoder {
    /// The buffer being written.
    pub closed spec fn buffer_view(&self) -> Seq<u8> {
        self.buffer@
    }

    /// Index of the next byte to write.
    pub closed spec fn next_view(&self) -> int {
        self.next as int
    }

    /// Whether an extended header has been written.
    pub closed spec fn extended_view(&self) -> bool {
        self.extended
    }

    /// The write position lies after the header and within the buffer.
    pub closed spec fn wf(&self) -> bool {
        &&& 3 <= self.next <= self.buffer@.len()
        &&& self.buffer@[0] == 0xC8
    }

    /// Starts a frame in `buffer`: writes the sync byte and positions the
    /// writer after the header. The buffer must hold at least a header and a
    /// checksum.
    pub fn new(buffer: Vec<u8>) -> (r: Result<Encoder, EncodeError>)
        ensures
            match r {
                Ok(e) => buffer@.len() >= 4 && e.wf() && e.buffer_view() == buffer@.update(0, 0xC8)
                    && e.next_view() == 3 && !e.extended_view(),
                Err(err) => buffer@.len() < 4 && err == EncodeError::BufferTooSmall,
            },
    {
        let mut buffer = buffer;
        // sync, len, packet_type, empty payload, crc
        if buffer.len() < 4 {
            return Err(EncodeError::BufferTooSmall);
        }
        buffer.set(0, SYNC_BYTE);
        Ok(Encoder { buffer, next: 3, extended: false })
    }

    /// Writes the extended header: destination and origin addresses.
    pub fn extended(&mut self, to: Address, from: Address) -> (r: Result<(), EncodeError>)
        requires
            old(self).wf(),
        ensures
            final(self).wf(),
            write_outcome(
                old(self).buffer_view(),
                old(self).next_view(),
                seq![address_raw(to), address_raw(from)],
                final(self).buffer_view(),
                final(self).next_view(),
                r,
            ),
            final(self).extended_view() == (old(self).extended_view() || r is Ok),
    {
        if self.buffer.len() - self.next < 2 {
            return Err(EncodeError::BufferTooSmall);
        }
        let ghost b = self.buffer@;
        let n = self.next;
        self.buffer.set(n, to.into_raw());
        self.buffer.set(n + 1, from.into_raw());
        assert(self.buffer@ =~= splice(b, n as int, seq![address_raw(to), address_raw(from)]));
        self.extended = true;
        self.next = n + 2;
        Ok(())
    }

    /// Writes the length and type bytes and the checksum after the payload.
    /// Gives back the buffer, and the index of the checksum byte (one less
    /// than the frame length) when it fits.
    pub fn finish(self, packet_type: u8) -> (r: (Vec<u8>, Result<usize, EncodeError>))
        requires
            self.wf(),
            self.next_view() % 256 >= 2,
        ensures
            ({
                let header = finish_header(self.buffer_view(), self.next_view(), packet_type);
                let n = self.next_view();
                if n < header.len() {
                    r.1 == Ok::<usize, EncodeError>(n as usize) && r.0@ == header.update(
                        n,
                        crc8_dvb_s2(header.subrange(2, n)),
                    )
                } else {
                    r.1 == Err::<usize, EncodeError>(EncodeError::BufferTooSmall) && r.0@
                        == header
                }
            }),
    {
        let mut buffer = self.buffer;
        let next = self.next;
        // Minus leading sync & len; plus trailing checksum
        buffer.set(1, (next % 256) as u8 - 2 + 1);
        buffer.set(2, packet_type);
        let ghost header = buffer@;
        assert(header == finish_header(self.buffer@, next as int, packet_type));
        let crc = crc8(&buffer.as_slice()[2..next]);
        if next < buffer.len() {
            buffer.set(next, crc);
            (buffer, Ok(next))
        } else {
            (buffer, Err(EncodeError::BufferTooSmall))
        }
    }

    pub fn u8(&mut self, value: u8) -> (r: Result<(), EncodeError>)
        requires
            old(self).wf(),
        ensures
            final(self).wf(),
            final(self).extended_view() == old(self).extended_view(),
            write_outcome(
                old(self).buffer_view(),
                old(self).next_view(),
                seq![value],
                final(self).buffer_view(),
                final(self).next_view(),
                r,
            ),
    {
        if self.next >= self.buffer.len() {
            return Err(EncodeError::BufferTooSmall);
        }
        let ghost b = self.buffer@;
        let n = self.next;
        self.buffer.set(n, value);
        assert(self.buffer@ =~= splice(b, n as int, seq![value]));
        self.next = n + 1;
        Ok(())
    }

    pub fn i8(&mut self, value: i8) -> (r: Result<(), EncodeError>)
        requires
            old(self).wf(),
        ensures
            final(self).wf(),
            final(self).extended_view() == old(self).extended_view(),
            write_outcome(
                old(self).buffer_view(),
                old(self).next_view(),
                seq![value as u8],
                final(self).buffer_view(),
                final(self).next_view(),
                r,
            ),
    {
        self.u8(value as u8)
    }

    /// Writes `bytes` at the write position, or nothing when they do not fit.
    fn put(&mut self, bytes: &[u8]) -> (r: Result<(), EncodeError>)
        requires
            old(self).wf(),
        ensures
            final(self).wf(),
            final(self).extended_view() == old(self).extended_view(),
            write_outcome(
                old(self).buffer_view(),
                old(self).next_view(),
                bytes@,
                final(self).buffer_view(),
                final(self).next_view(),
                r,
            ),
    {
        if bytes.len() > self.buffer.len() - self.next {
            return Err(EncodeError::BufferTooSmall);
        }
        let ghost b = self.buffer@;
        let ghost ext = self.extended;
        let n = self.next;
        let mut i: usize = 0;
        while i < bytes.len()
            invariant
                n + bytes@.len() <= self.buffer.len(),
                self.next == n,
                self.extended == ext,
                3 <= n,
                self.buffer@.len() == b.len(),
                i <= bytes@.len(),
                self.buffer@ =~= splice(b, n as int, bytes@.subrange(0, i as int)),
            decreases bytes@.len() - i,
        {
            self.buffer.set(n + i, bytes[i]);
            i = i + 1;
            assert(self.buffer@ =~= splice(b, n as int, bytes@.subrange(0, i as int)));
        }
        assert(bytes@.subrange(0, bytes@.len() as int) =~= bytes@);
        self.next = n + bytes.len();
        Ok(())
    }

    pub fn u16(&mut self, value: u16) -> (r: Result<(), EncodeError>)
        requires
            old(self).wf(),
        ensures
            final(self).wf(),
            final(self).extended_view() == old(self).extended_view(),
            write_outcome(
                old(self).buffer_view(),
                old(self).next_view(),
                u16_be_bytes(value),
                final(self).buffer_view(),
                final(self).next_view(),
                r,
            ),
    {
        let bytes = [(value / 256) as u8, (value % 256) as u8];
        assert(bytes@ =~= u16_be_bytes(value));
        self.put(&bytes)
    }

    pub fn i16(&mut self, value: i16) -> (r: Result<(), EncodeError>)
        requires
            old(self).wf(),
        ensures
            final(self).wf(),
            final(self).extended_view() == old(self).extended_view(),
            write_outcome(
                old(self).buffer_view(),
                old(self).next_view(),
                u16_be_bytes(value as u16),
                final(self).buffer_view(),
                final(self).next_view(),
                r,
            ),
    {
        self.u16(value as u16)
    }

    pub fn i24(&mut self, value: i32) -> (r: Result<(), EncodeError>)
        requires
            old(self).wf(),
        ensures
            final(self).wf(),
            final(self).extended_view() == old(self).extended_view(),
            write_outcome(
                old(self).buffer_view(),
                old(self).next_view(),
                i24_be_bytes(value),
                final(self).buffer_view(),
                final(self).next_view(),
                r,
            ),
    {
        let v = value as u32;
        let bytes = [(v / 16777216) as u8, ((v / 65536) % 256) as u8, ((v / 256) % 256) as u8];
        assert(bytes@ =~= i24_be_bytes(value));
        self.put(&bytes)
    }

    pub fn u32(&mut self, value: u32) -> (r: Result<(), EncodeError>)
        requires
            old(self).wf(),
        ensures
            final(self).wf(),
            final(self).extended_view() == old(self).extended_view(),
            write_outcome(
                old(self).buffer_view(),
                old(self).next_view(),
                u32_be_bytes(value),
                final(self).buffer_view(),
                final(self).next_view(),
                r,
            ),
    {
        let bytes = [
            (value / 16777216) as u8,
            ((value / 65536) % 256) as u8,
            ((value / 256) % 256) as u8,
            (value % 256) as u8,
        ];
        assert(bytes@ =~= u32_be_bytes(value));
        self.put(&bytes)
    }

    pub fn i32(&mut self, value: i32) -> (r: Result<(), EncodeError>)
        requires
            old(self).wf(),
        ensures
            final(self).wf(),
            final(self).extended_view() == old(self).extended_view(),
            write_outcome(
                old(self).buffer_view(),
                old(self).next_view(),
                u32_be_bytes(value as u32),
                final(self).buffer_view(),
                final(self).next_view(),
                r,
            ),
    {
        self.u32(value as u32)
    }

    /// Writes raw bytes.
    pub fn slice(&mut self, slice: &[u8]) -> (r: Result<(), EncodeError>)
        requires
            old(self).wf(),
        ensures
            final(self).wf(),
            final(self).extended_view() == old(self).extended_view(),
            write_outcome(
                old(self).buffer_view(),
                old(self).next_view(),
                slice@,
                final(self).buffer_view(),
                final(self).next_view(),
                r,
            ),
    {
        self.put(slice)
    }

    /// Writes a string's bytes followed by a terminating NUL.
    pub fn string(&mut self, string: &[u8]) -> (r: Result<(), EncodeError>)
        requires
            old(self).wf(),
        ensures
            final(self).wf(),
            final(self).extended_view() == old(self).extended_view(),
            write_outcome(
                old(self).buffer_view(),
                old(self).next_view(),
                string@.push(0),
                final(self).buffer_view(),
                final(self).next_view(),
                r,
            ),
    {
        if string.len() >= self.buffer.len() - self.next {
            return Err(EncodeError::BufferTooSmall);
        }
        let ghost b = self.buffer@;
        let ghost n = self.next as int;
        let _ = self.put(string);
        let _ = self.put(&[0u8]);
        assert(self.buffer@ =~= splice(b, n, string@.push(0)));
        Ok(())
    }
}

} // verus!
