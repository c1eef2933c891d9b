//! A small block based filesystem: a header block listing model files, a
//! block of model names, a configuration block and fixed size model files.
use vstd::prelude::*;

pub mod buffer;
pub mod file;
pub mod fs;
pub mod header;

verus! {

pub const BLOCK_BYTES: usize = 512;

/// Number of bytes used to store file lengths, etc
pub const LEN_BYTES: usize = 4;

pub const HEADER_BLOCK: u32 = 0;

pub const NAMES_OFFSET: u32 = 1;

pub const CONFIG_BLOCK: u32 = 3;

pub const MODELS_START: u32 = 4;

/// Fixed number of blocks to allocate for each model file
pub const MODEL_BLOCKS: u32 = 4;

pub const MODEL_NAME_BYTES: usize = 16;

/// Chosen to fit 64 * 16 byte model names in blocks 1 & 2
pub const MAX_MODELS: usize = 64;

/// Errors of filesystem operations; `Io` wraps an error of the block device.
#[derive(Debug, Clone, PartialEq, Hash)]
#[non_exhaustive]
pub enum Error<I> {
    SeekOutOfBounds,
    /// The operation would require allocating more backing blocks for the file,
    /// which is (yet) supported.
    FileFull,
    TooManyModels,
    ModelNameOverflow,
    Io(I),
}

/// The kind of an error, in the terms of `embedded-io`.
#[derive(Debug, Clone, Copy, PartialEq, Eq, Structural)]
pub enum ErrorKind {
    InvalidInput,
    Unsupported,
    InvalidData,
}

impl<I> Error<I> {
    /// The kind of the error; that of a device error is the device's own,
    /// so none is given here.
    pub fn kind(&self) -> (r: Option<ErrorKind>)
        ensures
            r == match self {
                Error::SeekOutOfBounds => Some(ErrorKind::InvalidInput),
                Error::FileFull => Some(ErrorKind::Unsupported),
                Error::TooManyModels => Some(ErrorKind::InvalidData),
                Error::ModelNameOverflow => Some(ErrorKind::InvalidInput),
                Error::Io(_) => None::<ErrorKind>,
            },
    {
        match self {
            Error::SeekOutOfBounds => Some(ErrorKind::InvalidInput),
            Error::FileFull => Some(ErrorKind::Unsupported),
            Error::TooManyModels => Some(ErrorKind::InvalidData),
            Error::ModelNameOverflow => Some(ErrorKind::InvalidInput),
            Error::Io(_) => None,
        }
    }

    /// The error's message; a device error is described by the device.
    pub fn message(&self) -> (r: Option<&'static str>)
        ensures
            match self {
                Error::SeekOutOfBounds => r matches Some(m) && m@ == "seek out of bounds"@,
                Error::FileFull => r matches Some(m) && m@ == "file is full and cannot be reallocated"@,
                Error::TooManyModels => r matches Some(m) && m@ == "no model ids left"@,
                Error::ModelNameOverflow => r matches Some(m) && m@ == "model name is too long"@,
                Error::Io(_) => r is None,
            },
    {
        match self {
            Error::SeekOutOfBounds => Some("seek out of bounds"),
            Error::FileFull => Some("file is full and cannot be reallocated"),
            Error::TooManyModels => Some("no model ids left"),
            Error::ModelNameOverflow => Some("model name is too long"),
            Error::Io(_) => None,
        }
    }

    /// Wraps an error of the block device.
    pub fn from_io(io: I) -> (r: Error<I>)
        ensures
            r == Error::Io(io),
    {
        Error::Io(io)
    }
}

/// One block of storage.
#[derive(Debug, Clone)]
pub struct Block(pub Vec<u8>);

impl Block {
    /// A zeroed block.
    pub fn new() -> (r: Block)
        ensures
            r.0@.len() == BLOCK_BYTES,
            forall|i: int| 0 <= i < BLOCK_BYTES ==> r.0@[i] == 0,
    {
        let mut bytes: Vec<u8> = Vec::new();
        let mut i: usize = 0;
        while i < BLOCK_BYTES
            invariant
                i <= BLOCK_BYTES,
                bytes@.len() == i,
                forall|k: int| 0 <= k < i ==> bytes@[k] == 0,
            decreases BLOCK_BYTES - i,
        {
            bytes.push(0);
            i = i + 1;
        }
        Block(bytes)
    }
}

/// Memory for the filesystem: the header block and two buffer blocks.
#[derive(Debug)]
pub struct Buffers {
    pub header: Block,
    pub buffer: [Block; 2],
}

impl Buffers {
    /// Zeroed buffers.
    pub fn new() -> (r: Buffers)
        ensures
            r.header.0@ == Seq::new(BLOCK_BYTES as nat, |i: int| 0u8),
            forall|k: int| 0 <= k < 2 ==> #[trigger] r.buffer@[k].0@ == Seq::new(BLOCK_BYTES as nat, |i: int| 0u8),
    {
        let header = Block::new();
        let b0 = Block::new();
        let b1 = Block::new();
        assert(header.0@ =~= Seq::new(BLOCK_BYTES as nat, |i: int| 0u8));
        assert(b0.0@ =~= Seq::new(BLOCK_BYTES as nat, |i: int| 0u8));
        assert(b1.0@ =~= Seq::new(BLOCK_BYTES as nat, |i: int| 0u8));
        Buffers { header, buffer: [b0, b1] }
    }
}

/// Little-endian value of the four bytes of `b` at `at`.
pub open spec fn le_u32(b: Seq<u8>, at: int) -> u32 {
    (b[at] + b[at + 1] * 256 + b[at + 2] * 65536 + b[at + 3] * 16777216) as u32
}

/// Little-endian bytes of a 32 bit value.
pub open spec fn u32_le_bytes(v: u32) -> Seq<u8> {
    seq![(v % 256) as u8, ((v / 256) % 256) as u8, ((v / 65536) % 256) as u8, (v / 16777216) as u8]
}

/// Little-endian value of the four bytes of `b` at `at`.
pub fn u32_from_le(b: &[u8], at: usize) -> (r: u32)
    requires
        at + 4 <= b@.len(),
    ensures
        r == le_u32(b@, at as int),
{
    (b[at] as u32) + (b[at + 1] as u32) * 256 + (b[at + 2] as u32) * 65536 + (b[at + 3] as u32)
        * 16777216
}

/// Writes the little-endian bytes of `v` at `at`.
pub fn write_u32_le(b: &mut Vec<u8>, at: usize, v: u32)
    requires
        at + 4 <= old(b)@.len(),
    ensures
        final(b)@ == old(b)@.subrange(0, at as int) + u32_le_bytes(v) + old(b)@.subrange(
            at + 4,
            old(b)@.len() as int,
        ),
{
    let _len = b.len();
    b.set(at, (v % 256) as u8);
    b.set(at + 1, ((v / 256) % 256) as u8);
    b.set(at + 2, ((v / 65536) % 256) as u8);
    b.set(at + 3, (v / 16777216) as u8);
    assert(b@ =~= old(b)@.subrange(0, at as int) + u32_le_bytes(v) + old(b)@.subrange(
        at + 4,
        old(b)@.len() as int,
    ));
}

/// Reading back a little-endian value gives the value written.
pub proof fn lemma_u32_le_roundtrip(v: u32)
    ensures
        le_u32(u32_le_bytes(v), 0) == v,
{
}

/// Length stored at the start of a file's data: a little-endian 32 bit word.
pub fn read_len(buffer: &[u8]) -> (r: usize)
    requires
        buffer@.len() >= LEN_BYTES,
    ensures
        r == le_u32(buffer@, 0),
{
    u32_from_le(buffer, 0) as usize
}

/// The data stored after the length word, as long as the length says.
pub fn read_slice(buffer: &[u8]) -> (r: &[u8])
    requires
        buffer@.len() >= LEN_BYTES,
        LEN_BYTES + le_u32(buffer@, 0) <= buffer@.len(),
    ensures
        r@ == buffer@.subrange(LEN_BYTES as int, LEN_BYTES + le_u32(buffer@, 0)),
{
    let _n = buffer.len();
    let len = read_len(buffer);
    &buffer[LEN_BYTES..LEN_BYTES + len]
}

/// Stores `len` (truncated to 32 bits) as the length word.
pub fn write_len(buffer: &mut Vec<u8>, len: usize)
    requires
        old(buffer)@.len() >= LEN_BYTES,
    ensures
        final(buffer)@ == u32_le_bytes(len as u32) + old(buffer)@.subrange(
            LEN_BYTES as int,
            old(buffer)@.len() as int,
        ),
{
    write_u32_le(buffer, 0, len as u32);
    assert(old(buffer)@.subrange(0, 0) + u32_le_bytes(len as u32) =~= u32_le_bytes(len as u32));
}

/// Stores `data` with its length in front.
pub fn write_slice(buffer: &mut Vec<u8>, data: &[u8])
    requires
        data@.len() + LEN_BYTES <= old(buffer)@.len(),
    ensures
        final(buffer)@ == u32_le_bytes(data@.len() as u32) + data@ + old(buffer)@.subrange(
            LEN_BYTES + data@.len(),
            old(buffer)@.len() as int,
        ),
{
    let _n = buffer.len();
    write_len(buffer, data.len());
    let ghost after_len = buffer@;
    let mut i: usize = 0;
    while i < data.len()
        invariant
            data@.len() + LEN_BYTES <= buffer@.len() <= usize::MAX,
            buffer@.len() == after_len.len(),
            i <= data@.len(),
            buffer@ =~= after_len.subrange(0, LEN_BYTES as int) + data@.subrange(0, i as int)
                + after_len.subrange(LEN_BYTES + i, after_len.len() as int),
        decreases data@.len() - i,
    {
        buffer.set(LEN_BYTES + i, data[i]);
        i = i + 1;
        assert(buffer@ =~= after_len.subrange(0, LEN_BYTES as int) + data@.subrange(0, i as int)
            + after_len.subrange(LEN_BYTES + i, after_len.len() as int));
    }
    assert(buffer@ =~= u32_le_bytes(data@.len() as u32) + data@ + old(buffer)@.subrange(
        LEN_BYTES + data@.len(),
        old(buffer)@.len() as int,
    ));
}

/// What is read back after a write: the length word written by `write_len`
/// reads back as the length (modulo 2^32), and the data written by
/// `write_slice` reads back unchanged.
pub proof fn lemma_write_then_read(buffer: Seq<u8>, data: Seq<u8>)
    requires
        data.len() + LEN_BYTES <= buffer.len(),
        data.len() <= u32::MAX,
    ensures
        ({
            let written = u32_le_bytes(data.len() as u32) + data + buffer.subrange(
                LEN_BYTES + data.len(),
                buffer.len() as int,
            );
            &&& le_u32(written, 0) == data.len()
            &&& written.subrange(LEN_BYTES as int, LEN_BYTES + le_u32(written, 0)) == data
        }),
{
    let written = u32_le_bytes(data.len() as u32) + data + buffer.subrange(
        LEN_BYTES + data.len(),
        buffer.len() as int,
    );
    assert(written.subrange(0, 4) =~= u32_le_bytes(data.len() as u32));
    lemma_u32_le_roundtrip(data.len() as u32);
    assert(le_u32(written, 0) == le_u32(u32_le_bytes(data.len() as u32), 0));
    assert(written.subrange(LEN_BYTES as int, LEN_BYTES + data.len()) =~= data);
}

} // verus!
