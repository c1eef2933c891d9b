//! Cursor and length bookkeeping of a file stored in a fixed run of blocks.
//! The length word stored at the start of the file's first block counts as
//! part of the file's bytes here, so positions start at `LEN_BYTES`.
use vstd::prelude::*;

use super::{Error, BLOCK_BYTES, LEN_BYTES};

verus! {

/// Where a seek is measured from.
#[derive(Debug, Clone, Copy, PartialEq, Eq, Structural)]
pub enum SeekFrom {
    Start(u64),
    End(i64),
    Current(i64),
}

/// Position and size of an open file.
#[derive(Debug, Clone, Copy, PartialEq, Eq, Structural)]
pub struct File {
    /// First allocated block
    start: u32,
    /// Final allocated block + 1
    end: u32,
    /// Length of file data in bytes (including file length)
    len: usize,
    /// Current read/write offset in bytes (including file length)
    cursor: usize,
    resized: bool,
}

/// The byte position a seek aims at, if it is representable.
pub open spec fn seek_target(len: int, cursor: int, pos: SeekFrom) -> Option<int> {
    let t = match pos {
        SeekFrom::Start(offset) => LEN_BYTES + offset,
        SeekFrom::End(offset) => len + offset,
        SeekFrom::Current(offset) => cursor + offset,
    };
    if 0 <= t <= usize::MAX {
        Some(t)
    } else {
        None
    }
}

/// Number of blocks needed to hold `bytes` bytes.
pub open spec fn blocks_for(bytes: int) -> int {
    (bytes + BLOCK_BYTES - 1) / (BLOCK_BYTES as int)
}

impl File {
    pub closed spec fn start_view(&self) -> int {
        self.start as int
    }

    pub closed spec fn end_view(&self) -> int {
        self.end as int
    }

    /// Length of the file's bytes, length word included.
    pub closed spec fn len_view(&self) -> int {
        self.len as int
    }

    /// Cursor position, length word included.
    pub closed spec fn cursor_view(&self) -> int {
        self.cursor as int
    }

    /// Whether the length changed since the file was opened.
    pub closed spec fn resized_view(&self) -> bool {
        self.resized
    }

    /// The cursor lies between the length word and the end of the file.
    pub closed spec fn wf(&self) -> bool {
        LEN_BYTES <= self.cursor <= self.len
    }

    /// A new empty file in blocks `start .. end`, positioned at its start.
    pub fn create(start: u32, end: u32) -> (r: File)
        ensures
            r.wf(),
            r.start_view() == start,
            r.end_view() == end,
            r.len_view() == LEN_BYTES,
            r.cursor_view() == LEN_BYTES,
            !r.resized_view(),
    {
        File { start, end, len: LEN_BYTES, cursor: LEN_BYTES, resized: false }
    }

    /// An existing file in blocks `start .. end` whose stored length is
    /// `stored_len`, positioned at its start.
    pub fn open(start: u32, end: u32, stored_len: usize) -> (r: File)
        requires
            stored_len + LEN_BYTES <= usize::MAX,
        ensures
            r.wf(),
            r.start_view() == start,
            r.end_view() == end,
            r.len_view() == stored_len + LEN_BYTES,
            r.cursor_view() == LEN_BYTES,
            !r.resized_view(),
    {
        File { start, end, len: stored_len + LEN_BYTES, cursor: LEN_BYTES, resized: false }
    }

    /// Length of the file's data.
    pub fn len(&self) -> (r: u64)
        requires
            self.wf(),
        ensures
            r == self.len_view() - LEN_BYTES,
    {
        (self.len - LEN_BYTES) as u64
    }

    /// Bytes between the cursor and the end of the file.
    pub fn remaining(&self) -> (r: usize)
        requires
            self.wf(),
        ensures
            r == self.len_view() - self.cursor_view(),
    {
        self.len - self.cursor
    }

    /// Cuts the file off at the cursor.
    pub fn truncate(&mut self)
        requires
            old(self).wf(),
        ensures
            final(self).wf(),
            final(self).cursor_view() == old(self).cursor_view(),
            final(self).start_view() == old(self).start_view(),
            final(self).end_view() == old(self).end_view(),
            if old(self).cursor_view() < old(self).len_view() {
                final(self).len_view() == old(self).cursor_view() && final(self).resized_view()
            } else {
                final(self).len_view() == old(self).len_view() && final(self).resized_view()
                    == old(self).resized_view()
            },
    {
        if self.cursor < self.len {
            self.resized = true;
            self.len = self.cursor;
        }
    }

    /// Block holding the byte at the cursor.
    pub fn block(&self) -> (r: u32)
        requires
            self.start_view() + self.cursor_view() / (BLOCK_BYTES as int) <= u32::MAX,
        ensures
            r == self.start_view() + self.cursor_view() / (BLOCK_BYTES as int),
    {
        self.start + (self.cursor / BLOCK_BYTES) as u32
    }

    /// Moves the cursor; positions before the data or past its end are
    /// refused. Gives the new position within the data.
    pub fn seek<I>(&mut self, pos: SeekFrom) -> (r: Result<u64, Error<I>>)
        requires
            old(self).wf(),
            pos matches SeekFrom::Start(offset) ==> offset + LEN_BYTES <= usize::MAX,
        ensures
            final(self).wf(),
            final(self).len_view() == old(self).len_view(),
            final(self).start_view() == old(self).start_view(),
            final(self).end_view() == old(self).end_view(),
            final(self).resized_view() == old(self).resized_view(),
            match seek_target(old(self).len_view(), old(self).cursor_view(), pos) {
                Some(t) if LEN_BYTES <= t <= old(self).len_view() => r == Ok::<u64, Error<I>>(
                    (t - LEN_BYTES) as u64,
                ) && final(self).cursor_view() == t,
                _ => r == Err::<u64, Error<I>>(Error::SeekOutOfBounds) && final(self).cursor_view()
                    == old(self).cursor_view(),
            },
    {
        let base: i128 = match pos {
            SeekFrom::Start(offset) => LEN_BYTES as i128 + offset as i128,
            SeekFrom::End(offset) => self.len as i128 + offset as i128,
            SeekFrom::Current(offset) => self.cursor as i128 + offset as i128,
        };
        if LEN_BYTES as i128 <= base && base <= self.len as i128 {
            let new = base as usize;
            self.cursor = new;
            Ok((new - LEN_BYTES) as u64)
        } else {
            Err(Error::SeekOutOfBounds)
        }
    }

    /// Position of the cursor within the data.
    pub fn stream_position(&self) -> (r: u64)
        requires
            self.wf(),
        ensures
            r == self.cursor_view() - LEN_BYTES,
    {
        (self.cursor - LEN_BYTES) as u64
    }

    /// Reads into `buf` from `data`, the bytes of a view loaded from the
    /// cursor's block on: copies as many bytes as the file has left, `buf`
    /// holds and the view holds after the cursor, to the start of `buf`, and
    /// advances the cursor by that number, which it gives.
    pub fn read(&mut self, buf: &mut Vec<u8>, data: &[u8]) -> (r: usize)
        requires
            old(self).wf(),
            data@.len() >= old(self).cursor_view() % (BLOCK_BYTES as int),
        ensures
            final(self).wf(),
            final(self).len_view() == old(self).len_view(),
            final(self).start_view() == old(self).start_view(),
            final(self).end_view() == old(self).end_view(),
            final(self).resized_view() == old(self).resized_view(),
            ({
                let offset = old(self).cursor_view() % (BLOCK_BYTES as int);
                &&& r == vstd::math::min(
                    vstd::math::min(old(self).len_view() - old(self).cursor_view(), old(buf)@.len() as int),
                    data@.len() - offset,
                )
                &&& final(buf)@ == data@.subrange(offset, offset + r) + old(buf)@.subrange(
                    r as int,
                    old(buf)@.len() as int,
                )
            }),
            final(self).cursor_view() == old(self).cursor_view() + r,
    {
        let remaining = self.remaining();
        let len = if remaining < buf.len() { remaining } else { buf.len() };
        let offset = self.cursor % BLOCK_BYTES;
        let len = if len < data.len() - offset { len } else { data.len() - offset };
        let mut i: usize = 0;
        while i < len
            invariant
                i <= len,
                len <= old(buf)@.len(),
                offset + len <= data.len(),
                buf@.len() == old(buf)@.len(),
                buf@ =~= data@.subrange(offset as int, offset + i) + old(buf)@.subrange(i as int, old(buf)@.len() as int),
            decreases len - i,
        {
            buf.set(i, data[offset + i]);
            i = i + 1;
            assert(buf@ =~= data@.subrange(offset as int, offset + i) + old(buf)@.subrange(
                i as int,
                old(buf)@.len() as int,
            ));
        }
        self.cursor = self.cursor + len;
        len
    }

    /// Checks that a write of `buf_len` bytes fits in the file's blocks and
    /// grows the file when it writes past the end. The limit compares the
    /// number of blocks the new length needs with the end block.
    pub fn prepare_write<I>(&mut self, buf_len: usize) -> (r: Result<(), Error<I>>)
        requires
            old(self).wf(),
            old(self).cursor_view() + buf_len + BLOCK_BYTES <= usize::MAX,
        ensures
            final(self).wf(),
            final(self).cursor_view() == old(self).cursor_view(),
            final(self).start_view() == old(self).start_view(),
            final(self).end_view() == old(self).end_view(),
            if buf_len > old(self).len_view() - old(self).cursor_view() {
                let new_len = old(self).cursor_view() + buf_len;
                if blocks_for(new_len) > old(self).end_view() {
                    r == Err::<(), Error<I>>(Error::FileFull) && *final(self) == *old(self)
                } else {
                    r is Ok && final(self).len_view() == new_len && final(self).resized_view()
                }
            } else {
                r is Ok && *final(self) == *old(self)
            },
    {
        if buf_len > self.remaining() {
            let new_len = self.cursor + buf_len;
            let new_end = (new_len + BLOCK_BYTES - 1) / BLOCK_BYTES;
            if new_end > self.end as usize {
                return Err(Error::FileFull);
            }
            self.len = new_len;
            self.resized = true;
        }
        Ok(())
    }

    /// Whether a write of `buf_len` bytes must load the view's bytes from
    /// the device first: unless it starts a block and covers a whole one.
    pub fn write_needs_read(&self, buf_len: usize) -> (r: bool)
        ensures
            r == (self.cursor_view() % (BLOCK_BYTES as int) > 0 || buf_len < BLOCK_BYTES),
    {
        self.cursor % BLOCK_BYTES > 0 || buf_len < BLOCK_BYTES
    }

    /// Writes `buf` into `data`, the bytes of a view from the cursor's block
    /// on: copies as many bytes of `buf` as the view holds after the cursor
    /// to the cursor's place, and advances the cursor by that number, which
    /// it gives. `prepare_write` has made room for `buf` in the file.
    pub fn write(&mut self, data: &mut Vec<u8>, buf: &[u8]) -> (r: usize)
        requires
            old(self).wf(),
            buf@.len() <= old(self).len_view() - old(self).cursor_view(),
            old(data)@.len() >= old(self).cursor_view() % (BLOCK_BYTES as int),
        ensures
            final(self).wf(),
            final(self).len_view() == old(self).len_view(),
            final(self).start_view() == old(self).start_view(),
            final(self).end_view() == old(self).end_view(),
            final(self).resized_view() == old(self).resized_view(),
            ({
                let offset = old(self).cursor_view() % (BLOCK_BYTES as int);
                &&& r == vstd::math::min(buf@.len() as int, old(data)@.len() - offset)
                &&& final(data)@ == old(data)@.subrange(0, offset) + buf@.subrange(0, r as int)
                    + old(data)@.subrange(offset + r, old(data)@.len() as int)
            }),
            final(self).cursor_view() == old(self).cursor_view() + r,
    {
        let offset = self.cursor % BLOCK_BYTES;
        let len = if buf.len() < data.len() - offset { buf.len() } else { data.len() - offset };
        let mut i: usize = 0;
        while i < len
            invariant
                i <= len,
                len <= buf@.len(),
                offset + len <= data.len(),
                data@.len() == old(data)@.len(),
                data@ =~= old(data)@.subrange(0, offset as int) + buf@.subrange(0, i as int)
                    + old(data)@.subrange(offset + i, old(data)@.len() as int),
            decreases len - i,
        {
            data.set(offset + i, buf[i]);
            i = i + 1;
            assert(data@ =~= old(data)@.subrange(0, offset as int) + buf@.subrange(0, i as int)
                + old(data)@.subrange(offset + i, old(data)@.len() as int));
        }
        self.cursor = self.cursor + len;
        len
    }

    /// The length to store in the file's length word when it is flushed:
    /// `Some` only when the length changed.
    pub fn flush_len(&self) -> (r: Option<usize>)
        requires
            self.wf(),
        ensures
            r == if self.resized_view() {
                Some((self.len_view() - LEN_BYTES) as usize)
            } else {
                None::<usize>
            },
    {
        if self.resized {
            Some(self.len - LEN_BYTES)
        } else {
            None
        }
    }
}

/// What a read gives back of a write: after `write` puts the first `n`
/// bytes of `buf` at `offset` in a view's bytes `data`, a `read` from the
/// same place of those `n` bytes copies exactly them, and the view's other
/// bytes are as they were.
pub proof fn lemma_file_write_then_read(data: Seq<u8>, buf: Seq<u8>, offset: int, n: int)
    requires
        0 <= offset,
        0 <= n <= buf.len(),
        offset + n <= data.len(),
    ensures
        ({
            let written = data.subrange(0, offset) + buf.subrange(0, n) + data.subrange(offset + n, data.len() as int);
            &&& written.len() == data.len()
            &&& written.subrange(offset, offset + n) == buf.subrange(0, n)
            &&& forall|j: int| 0 <= j < data.len() && !(offset <= j < offset + n) ==> written[j] == data[j]
        }),
{
    let written = data.subrange(0, offset) + buf.subrange(0, n) + data.subrange(offset + n, data.len() as int);
    assert(written.subrange(offset, offset + n) =~= buf.subrange(0, n));
}

/// Where seeks land: from the end, `offset` past the data's end whatever
/// the cursor (so `End(0)` lands at the end); from the start, `offset` past
/// the length word whatever the cursor (so `Start(0)` lands at the first
/// data byte); from the cursor, `offset` past it (so `Current(0)` stays).
pub proof fn lemma_seek_lands(len: int, cursor: int, other: int, offset: i64, start: u64)
    requires
        LEN_BYTES <= len <= usize::MAX,
        LEN_BYTES <= cursor <= len,
    ensures
        seek_target(len, cursor, SeekFrom::End(offset)) == seek_target(len, other, SeekFrom::End(offset)),
        seek_target(len, cursor, SeekFrom::End(0)) == Some(len),
        seek_target(len, cursor, SeekFrom::End(offset)) matches Some(t) ==> t - len == offset,
        seek_target(len, cursor, SeekFrom::Start(start)) == seek_target(len, other, SeekFrom::Start(start)),
        seek_target(len, cursor, SeekFrom::Start(0)) == Some(LEN_BYTES as int),
        seek_target(len, cursor, SeekFrom::Start(start)) matches Some(t) ==> t - LEN_BYTES == start,
        seek_target(len, cursor, SeekFrom::Current(0)) == Some(cursor),
        seek_target(len, cursor, SeekFrom::Current(offset)) matches Some(t) ==> t - cursor == offset,
{
}

} // verus!
