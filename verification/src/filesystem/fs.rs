//! The filesystem's bookkeeping: the header, model allocation and the model
//! name table.
use vstd::prelude::*;

use super::buffer::Buffer;
use super::file::File;
use super::header::{
    allocated_at, header_check, index_of_id, model_id, model_len, model_start, table, used_prefix, Error as HeaderError,
    Header,
};
use super::{
    le_u32, lemma_write_then_read, read_slice, u32_le_bytes, write_slice, Error, BLOCK_BYTES, LEN_BYTES,
    MAX_MODELS, MODEL_NAME_BYTES,
};

verus! {

/// Number of buffers the filesystem works with.
pub const BUFFERS: usize = 2;

/// The header and buffer bookkeeping of a mounted filesystem.
#[derive(Debug)]
pub struct Filesystem {
    header: Header,
    buffer: Buffer,
}

/// A byte that model names may hold: printable ASCII.
pub open spec fn name_byte(b: u8) -> bool {
    0x20 <= b <= 0x7E
}

/// Length of the run of printable bytes at the start of `s`.
pub open spec fn printable_prefix(s: Seq<u8>) -> int
    decreases s.len(),
{
    if s.len() == 0 || !name_byte(s[0]) {
        0
    } else {
        1 + printable_prefix(s.drop_first())
    }
}

/// The name table after storing `name` for model `id`: the name is written
/// at the model's slot and every byte after it, to the end of the table, is
/// cleared.
pub open spec fn names_after_store(names: Seq<u8>, id: u8, name: Seq<u8>) -> Seq<u8> {
    let at = id * MODEL_NAME_BYTES;
    names.subrange(0, at) + name + Seq::new((names.len() - at - name.len()) as nat, |i: int| 0u8)
}

/// The configuration block `block` after `config` is stored in it: the
/// length word, the bytes, then what was there before.
pub open spec fn config_written(block: Seq<u8>, config: Seq<u8>) -> Seq<u8> {
    u32_le_bytes(config.len() as u32) + config + block.subrange(
        LEN_BYTES + config.len(),
        block.len() as int,
    )
}

/// The configuration that the configuration block `block` holds: as many
/// bytes after the length word as it says.
pub open spec fn config_stored(block: Seq<u8>) -> Seq<u8> {
    block.subrange(LEN_BYTES as int, LEN_BYTES + le_u32(block, 0))
}

/// Reading the configuration gives back what was last written: after
/// `config` is stored in a configuration block, the block holds exactly
/// `config`, and its length word fits the block and any buffer that
/// `config` fits.
pub proof fn lemma_config_write_then_read(block: Seq<u8>, config: Seq<u8>, buf_len: int)
    requires
        block.len() == BLOCK_BYTES,
        config.len() <= BLOCK_BYTES - LEN_BYTES,
        config.len() <= buf_len,
    ensures
        ({
            let written = config_written(block, config);
            &&& written.len() == BLOCK_BYTES
            &&& le_u32(written, 0) == config.len()
            &&& LEN_BYTES + le_u32(written, 0) <= BLOCK_BYTES
            &&& le_u32(written, 0) <= buf_len
            &&& config_stored(written) == config
        }),
{
    lemma_write_then_read(block, config);
}

impl Filesystem {
    pub closed spec fn header_view(&self) -> Seq<u8> {
        self.header.view()
    }

    pub closed spec fn buffer_states(&self) -> Seq<u32> {
        self.buffer.states()
    }

    /// Mounts a filesystem whose header block was read as `header`; a header
    /// that fails validation is refused.
    pub fn new(header: Vec<u8>) -> (r: Result<Filesystem, HeaderError>)
        requires
            header@.len() == BLOCK_BYTES,
        ensures
            match r {
                Ok(fs) => header_check(header@) is Ok && fs.header_view() == header@
                    && fs.buffer_states() == Seq::new(BUFFERS as nat, |i: int| 0xFFFF_FFFFu32),
                Err(e) => header_check(header@) == Err::<(), HeaderError>(e),
            },
    {
        let header = Header::from_block(header);
        match header.validate() {
            Ok(()) => Ok(Filesystem { header, buffer: Buffer::new(BUFFERS) }),
            Err(e) => Err(e),
        }
    }

    /// Formats a filesystem in memory: the header block gets version 1.
    pub fn new_empty(header: Vec<u8>) -> (r: Filesystem)
        requires
            header@.len() == BLOCK_BYTES,
        ensures
            r.header_view() == header@.update(0, 1),
            r.buffer_states() == Seq::new(BUFFERS as nat, |i: int| 0xFFFF_FFFFu32),
    {
        let mut header = Header::from_block(header);
        header.init();
        Filesystem { header, buffer: Buffer::new(BUFFERS) }
    }

    /// The header block's bytes, as written to the device.
    pub fn header_bytes(&self) -> (r: &[u8])
        ensures
            r@ == self.header_view(),
    {
        self.header.as_bytes()
    }

    /// The blocks `start .. end` of the model with id `id`, if a listed model
    /// has it.
    pub fn model(&self, id: u8) -> (r: Option<(u32, u32)>)
        requires
            self.header_view().len() == BLOCK_BYTES,
        ensures
            ({
                let t = table(self.header_view());
                match r {
                    None => index_of_id(t, id) is None,
                    Some((start, end)) => exists|i: int|
                        0 <= i < used_prefix(t) && model_id(#[trigger] t[i]) == id && start
                            == model_start(t[i]) && end == model_start(t[i]) + model_len(t[i]),
                }
            }),
    {
        let models = self.header.iter_models();
        let mut i: usize = 0;
        while i < models.len()
            invariant
                i <= models@.len(),
                models@.len() == used_prefix(table(self.header_view())),
                forall|j: int| 0 <= j < models@.len() ==> (#[trigger] models@[j]).0 == table(self.header_view())[j],
                forall|j: int| 0 <= j < i ==> model_id(table(self.header_view())[j]) != id,
            decreases models@.len() - i,
        {
            let m = models[i];
            if m.id() == id {
                assert(models@[i as int].0 == table(self.header_view())[i as int]);
                return Some((m.start(), m.end()));
            }
            i = i + 1;
        }
        None
    }

    /// Creates a model named `name`: allocates its table entry, stores the
    /// name in the name table `names` and gives the new, empty file.
    pub fn new_model<I>(&mut self, names: &mut Vec<u8>, name: &[u8]) -> (r: Result<File, Error<I>>)
        requires
            old(self).header_view().len() == BLOCK_BYTES,
            old(names)@.len() == 2 * BLOCK_BYTES,
        ensures
            final(self).header_view().len() == BLOCK_BYTES,
            final(self).buffer_states() == old(self).buffer_states(),
            name@.len() > MODEL_NAME_BYTES ==> r == Err::<File, Error<I>>(Error::ModelNameOverflow)
                && final(self).header_view() == old(self).header_view() && final(names)@ == old(names)@,
            name@.len() <= MODEL_NAME_BYTES ==> match r {
                Err(e) => e == Error::<I>::TooManyModels && final(self).header_view()
                    == old(self).header_view() && final(names)@ == old(names)@
                    && used_prefix(table(old(self).header_view())) == MAX_MODELS,
                Ok(file) => {
                    let t = table(old(self).header_view());
                    let entry = table(final(self).header_view())[used_prefix(t)];
                    &&& allocated_at(t, used_prefix(t), entry, table(final(self).header_view()))
                    &&& final(names)@ == names_after_store(old(names)@, 0, name@)
                    &&& file.start_view() == model_start(entry)
                    &&& file.end_view() == model_start(entry) + model_len(entry)
                    &&& file.len_view() == 4
                    &&& file.cursor_view() == 4
                },
            },
    {
        if name.len() > MODEL_NAME_BYTES {
            return Err(Error::ModelNameOverflow);
        }
        let ghost t = table(self.header.view());
        let model = match self.header.new_model() {
            Some(m) => m,
            None => {
                proof {
                    super::header::lemma_used_prefix_bound(t);
                }
                return Err(Error::TooManyModels);
            },
        };
        let name_start = model.id() as usize * MODEL_NAME_BYTES;
        let name_end = name_start + name.len();
        let ghost n0 = names@;
        let mut i: usize = 0;
        while i < name.len()
            invariant
                name_start == 0,
                name_end == name@.len(),
                name@.len() <= MODEL_NAME_BYTES,
                names@.len() == n0.len(),
                n0.len() == 2 * BLOCK_BYTES,
                i <= name@.len(),
                names@ =~= name@.subrange(0, i as int) + n0.subrange(i as int, n0.len() as int),
            decreases name@.len() - i,
        {
            names.set(name_start + i, name[i]);
            i = i + 1;
        }
        let mut k = name_end;
        while k < names.len()
            invariant
                name_end == name@.len(),
                name@.len() <= MODEL_NAME_BYTES,
                names@.len() == n0.len(),
                n0.len() == 2 * BLOCK_BYTES,
                name_end <= k <= names@.len(),
                names@ =~= name@ + Seq::new((k - name_end) as nat, |j: int| 0u8) + n0.subrange(k as int, n0.len() as int),
            decreases names@.len() - k,
        {
            names.set(k, 0);
            k = k + 1;
        }
        assert(names@ =~= names_after_store(n0, 0, name@));
        Ok(File::create(model.start(), model.end()))
    }

    /// Removes the first listed model with id `id` from the header.
    pub fn delete_model(&mut self, id: u8)
        requires
            old(self).header_view().len() == BLOCK_BYTES,
        ensures
            final(self).header_view().len() == BLOCK_BYTES,
            final(self).buffer_states() == old(self).buffer_states(),
            ({
                let t = table(old(self).header_view());
                match index_of_id(t, id) {
                    None => final(self).header_view() == old(self).header_view(),
                    Some(idx) => table(final(self).header_view()) == t.subrange(0, idx) + t.subrange(
                        idx + 1,
                        MAX_MODELS as int,
                    ) + seq![0u32],
                }
            }),
    {
        self.header.delete_model(id);
    }
}

impl Filesystem {
    /// Stores `config` in the configuration block, whose bytes as held in a
    /// buffer are `block`: its length word, then its bytes. Gives how many
    /// bytes from the start of the block changed, for the buffer to mark
    /// modified.
    pub fn write_config(&self, block: &mut Vec<u8>, config: &[u8]) -> (r: usize)
        requires
            old(block)@.len() == BLOCK_BYTES,
            config@.len() <= BLOCK_BYTES - LEN_BYTES,
        ensures
            final(block)@ == config_written(old(block)@, config@),
            r == config@.len() + LEN_BYTES,
    {
        write_slice(block, config);
        config.len() + LEN_BYTES
    }

    /// Copies the configuration held in the configuration block `block` to
    /// the start of `buf`, and gives its length; the rest of `buf` is left
    /// as it was.
    pub fn read_config(&self, block: &[u8], buf: &mut Vec<u8>) -> (r: usize)
        requires
            block@.len() == BLOCK_BYTES,
            LEN_BYTES + le_u32(block@, 0) <= BLOCK_BYTES,
            le_u32(block@, 0) <= old(buf)@.len(),
        ensures
            r == le_u32(block@, 0),
            final(buf)@ == config_stored(block@) + old(buf)@.subrange(r as int, old(buf)@.len() as int),
    {
        let data = read_slice(block);
        let n = data.len();
        let mut i: usize = 0;
        while i < n
            invariant
                n == data@.len(),
                data@ == config_stored(block@),
                n <= old(buf)@.len(),
                buf@.len() == old(buf)@.len(),
                i <= n,
                buf@ =~= data@.subrange(0, i as int) + old(buf)@.subrange(i as int, old(buf)@.len() as int),
            decreases n - i,
        {
            buf.set(i, data[i]);
            i = i + 1;
            assert(buf@ =~= data@.subrange(0, i as int) + old(buf)@.subrange(i as int, old(buf)@.len() as int));
        }
        assert(data@.subrange(0, n as int) =~= data@);
        n
    }
}

/// The name of the model with id `id` in the name table `names`: the
/// printable bytes at the start of its slot.
pub fn model_name(names: &[u8], id: u8) -> (r: Vec<u8>)
    requires
        (id + 1) * MODEL_NAME_BYTES <= names@.len(),
    ensures
        ({
            let slot = names@.subrange(id * MODEL_NAME_BYTES, (id + 1) * MODEL_NAME_BYTES);
            r@ == slot.subrange(0, printable_prefix(slot))
        }),
{
    let offset = id as usize * MODEL_NAME_BYTES;
    let ghost slot = names@.subrange(offset as int, offset + MODEL_NAME_BYTES);
    let _n = names.len();
    assert(slot.subrange(0, slot.len() as int) =~= slot);
    let mut r: Vec<u8> = Vec::new();
    let mut i: usize = 0;
    while i < MODEL_NAME_BYTES && 0x20 <= names[offset + i] && names[offset + i] <= 0x7E
        invariant
            offset + MODEL_NAME_BYTES <= names@.len() <= usize::MAX,
            slot == names@.subrange(offset as int, offset + MODEL_NAME_BYTES),
            i <= MODEL_NAME_BYTES,
            r@ == slot.subrange(0, i as int),
            printable_prefix(slot) == i + printable_prefix(slot.subrange(i as int, slot.len() as int)),
        decreases MODEL_NAME_BYTES - i,
    {
        proof {
            let rest = slot.subrange(i as int, slot.len() as int);
            assert(rest.drop_first() =~= slot.subrange(i + 1, slot.len() as int));
        }
        r.push(names[offset + i]);
        i = i + 1;
    }
    proof {
        let rest = slot.subrange(i as int, slot.len() as int);
        assert(printable_prefix(rest) == 0);
    }
    r
}

} // verus!
