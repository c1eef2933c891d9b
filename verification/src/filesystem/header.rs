//! The header block: a format version, the table of model files and a
//! checksum over both.
use vstd::prelude::*;
use vstd::std_specs::bits::{
    axiom_u64_leading_zeros, axiom_u64_trailing_ones, u64_leading_zeros, u64_trailing_ones,
};

use super::{le_u32, u32_from_le, u32_le_bytes, write_u32_le, BLOCK_BYTES, MAX_MODELS, MODELS_START, MODEL_BLOCKS};

verus! {

/// Reasons a header block is rejected.
#[derive(Debug, Clone, PartialEq, Eq, Hash, Structural)]
#[non_exhaustive]
pub enum Error {
    Missing,
    Version,
    Checksum,
}

/// Name for the CRC-32/CKSUM checksum (polynomial 0x04C11DB7, no reflection,
/// zero initial value, final xor 0xFFFFFFFF) of a byte sequence.
pub uninterp spec fn crc32_cksum(data: Seq<u8>) -> u32;

/// Computes `crc::Crc::<u32>::new(&crc::CRC_32_CKSUM).checksum(data)`: the
/// CRC-32/CKSUM checksum of `data`. The contract claims only that the result
/// is a function of the bytes of `data`.
#[verifier::external_body]
pub(crate) fn crc32(data: &[u8]) -> (r: u32)
    ensures
        r == crc32_cksum(data@),
{
    crc::Crc::<u32>::new(&crc::CRC_32_CKSUM).checksum(data)
}

/// Byte offset of the model table in the header block.
pub const MODELS_OFFSET: usize = 4;

/// Byte offset of the checksum in the header block.
pub const CHECKSUM_OFFSET: usize = 508;

/// First block of a model file: bits 0 to 19 of its table entry.
pub open spec fn model_start(w: u32) -> u32 {
    w & 0xFFFFF
}

/// Length in blocks of a model file: bits 20 to 23 of its table entry.
pub open spec fn model_len(w: u32) -> u32 {
    (w >> 20u32) & 0xF
}

/// Model id: bits 24 to 29 of its table entry.
pub open spec fn model_id(w: u32) -> u32 {
    (w >> 24u32) & 0x3F
}

/// A model table entry packed into 32 bits.
#[derive(Debug, Clone, Copy, PartialEq, Eq, Structural)]
pub struct Model(pub u32);

impl Model {
    /// The unused entry.
    pub fn empty() -> (r: Model)
        ensures
            r.0 == 0,
    {
        Model(0)
    }

    /// First block of the model file.
    pub fn start(&self) -> (r: u32)
        ensures
            r == model_start(self.0),
            r < 0x100000,
    {
        let w = self.0;
        let r = w & 0xFFFFF;
        assert(w & 0xFFFFF < 0x100000) by (bit_vector);
        r
    }

    /// Length of the model file in blocks.
    pub fn len(&self) -> (r: u8)
        ensures
            r == model_len(self.0),
            r < 16,
    {
        let w = self.0;
        let v = (w >> 20u32) & 0xF;
        assert((w >> 20u32) & 0xF < 16) by (bit_vector);
        v as u8
    }

    /// Id of the model.
    pub fn id(&self) -> (r: u8)
        ensures
            r == model_id(self.0),
            r < 64,
    {
        let w = self.0;
        let v = (w >> 24u32) & 0x3F;
        assert((w >> 24u32) & 0x3F < 64) by (bit_vector);
        v as u8
    }

    /// Whether the entry is unused (its start block is zero).
    pub fn is_empty(&self) -> (r: bool)
        ensures
            r == (model_start(self.0) == 0),
    {
        self.start() == 0
    }

    /// One past the last block of the model file.
    pub fn end(&self) -> (r: u32)
        ensures
            r == model_start(self.0) + model_len(self.0),
    {
        self.start() + self.len() as u32
    }

    /// Sets the start block, leaving the other fields alone.
    pub fn set_start(&mut self, start: u32)
        requires
            start < 0x100000,
        ensures
            model_start(final(self).0) == start,
            model_len(final(self).0) == model_len(old(self).0),
            model_id(final(self).0) == model_id(old(self).0),
            final(self).0 & 0xC000_0000 == old(self).0 & 0xC000_0000,
    {
        let w = self.0;
        let n = (w & !0xFFFFFu32) | start;
        assert(start < 0x100000 ==> {
            &&& ((w & !0xFFFFFu32) | start) & 0xFFFFF == start
            &&& (((w & !0xFFFFFu32) | start) >> 20u32) & 0xF == (w >> 20u32) & 0xF
            &&& (((w & !0xFFFFFu32) | start) >> 24u32) & 0x3F == (w >> 24u32) & 0x3F
            &&& ((w & !0xFFFFFu32) | start) & 0xC000_0000 == w & 0xC000_0000
        }) by (bit_vector);
        self.0 = n;
    }

    /// Sets the length, leaving the other fields alone.
    pub fn set_len(&mut self, len: u8)
        requires
            len < 16,
        ensures
            model_len(final(self).0) == len,
            model_start(final(self).0) == model_start(old(self).0),
            model_id(final(self).0) == model_id(old(self).0),
            final(self).0 & 0xC000_0000 == old(self).0 & 0xC000_0000,
    {
        let w = self.0;
        let l = len as u32;
        let n = (w & !0xF00000u32) | (l << 20u32);
        assert(l < 16 ==> {
            &&& (((w & !0xF00000u32) | (l << 20u32)) >> 20u32) & 0xF == l
            &&& ((w & !0xF00000u32) | (l << 20u32)) & 0xFFFFF == w & 0xFFFFF
            &&& (((w & !0xF00000u32) | (l << 20u32)) >> 24u32) & 0x3F == (w >> 24u32) & 0x3F
            &&& ((w & !0xF00000u32) | (l << 20u32)) & 0xC000_0000 == w & 0xC000_0000
        }) by (bit_vector);
        self.0 = n;
    }

    /// Sets the id, leaving the other fields alone.
    pub fn set_id(&mut self, id: u8)
        requires
            id < 64,
        ensures
            model_id(final(self).0) == id,
            model_start(final(self).0) == model_start(old(self).0),
            model_len(final(self).0) == model_len(old(self).0),
            final(self).0 & 0xC000_0000 == old(self).0 & 0xC000_0000,
    {
        let w = self.0;
        let i = id as u32;
        let n = (w & !0x3F00_0000u32) | (i << 24u32);
        assert(i < 64 ==> {
            &&& (((w & !0x3F00_0000u32) | (i << 24u32)) >> 24u32) & 0x3F == i
            &&& ((w & !0x3F00_0000u32) | (i << 24u32)) & 0xFFFFF == w & 0xFFFFF
            &&& (((w & !0x3F00_0000u32) | (i << 24u32)) >> 20u32) & 0xF == (w >> 20u32) & 0xF
            &&& ((w & !0x3F00_0000u32) | (i << 24u32)) & 0xC000_0000 == w & 0xC000_0000
        }) by (bit_vector);
        self.0 = n;
    }
}

/// Bit `i` of a set of model ids.
pub open spec fn id_used(used: u64, i: u64) -> bool {
    (used >> i) & 1u64 == 1u64
}

/// The next model id to hand out for the set of used ids `used`: while the
/// highest id is free, one past the highest used id (0 when none is used);
/// otherwise the lowest free id, if any is free.
pub open spec fn is_next_id(used: u64, r: Option<u8>) -> bool {
    match r {
        Some(id) => {
            &&& id < 64
            &&& !id_used(used, id as u64)
            &&& if !id_used(used, 63) {
                &&& forall|j: u64| id <= j < 64 ==> !id_used(used, j)
                &&& id > 0 ==> id_used(used, (id - 1) as u64)
            } else {
                forall|j: u64| j < id ==> id_used(used, j)
            }
        },
        None => forall|j: u64| j < 64 ==> id_used(used, j),
    }
}

/// Picks the id for a new model from the set of used ids.
pub fn next_id(used: u64) -> (r: Option<u8>)
    ensures
        is_next_id(used, r),
{
    proof {
        axiom_u64_leading_zeros(used);
        axiom_u64_trailing_ones(used);
    }
    let zeros = used.leading_zeros();
    if zeros == 0 {
        let id = used.trailing_ones();
        proof {
            assert((used >> 63u64) & 1u64 != 0u64 ==> (used >> 63u64) & 1u64 == 1u64) by (bit_vector);
            assert(id_used(used, 63));
        }
        if (id as usize) < MAX_MODELS {
            proof {
                let i8 = id as u8;
                assert(i8 as u64 == id as u64);
                assert(!id_used(used, i8 as u64));
                assert forall|j: u64| j < i8 implies id_used(used, j) by {
                    assert((used >> j) & 1u64 == 1u64);
                }
            }
            Some(id as u8)
        } else {
            proof {
                assert(used == 0xffff_ffff_ffff_ffffu64);
                assert forall|j: u64| j < 64 implies id_used(used, j) by {
                    assert(used == 0xffff_ffff_ffff_ffffu64 && j < 64 ==> (used >> j) & 1u64 == 1u64)
                        by (bit_vector);
                }
            }
            None
        }
    } else {
        let id = (64 - zeros) as u8;
        proof {
            let z = zeros as u64;
            assert(1 <= z <= 64);
            assert forall|j: u64| id <= j < 64 implies !id_used(used, j) by {
                assert((used >> j) & 1u64 == 0u64);
            }
            assert(!id_used(used, 63));
            if z < 64 {
                let sh = (63 - z) as u64;
                assert((used >> sh) & 1u64 != 0u64);
                assert((used >> sh) & 1u64 != 0u64 ==> (used >> sh) & 1u64 == 1u64) by (bit_vector);
                assert(id as u64 - 1 == 63 - z);
                assert(id_used(used, (id - 1) as u64));
            }
        }
        Some(id)
    }
}

/// The header block: version byte at 0, the 64 entry model table at 4 and
/// the little-endian checksum at 508.
#[derive(Debug, Clone)]
pub struct Header {
    block: Vec<u8>,
}

/// Entry `i` of the model table in header block `b`.
pub open spec fn table_entry(b: Seq<u8>, i: int) -> u32 {
    le_u32(b, MODELS_OFFSET + 4 * i)
}

/// The model table of header block `b`.
pub open spec fn table(b: Seq<u8>) -> Seq<u32> {
    Seq::new(MAX_MODELS as nat, |i: int| table_entry(b, i))
}

/// The bytes the header checksum covers: the version byte and the model table.
pub open spec fn checksum_input(b: Seq<u8>) -> Seq<u8> {
    seq![b[0]] + b.subrange(MODELS_OFFSET as int, MODELS_OFFSET + 4 * MAX_MODELS)
}

/// Number of leading used entries in a model table.
pub open spec fn used_prefix(t: Seq<u32>) -> int
    decreases t.len(),
{
    if t.len() == 0 || model_start(t[0]) == 0 {
        0
    } else {
        1 + used_prefix(t.drop_first())
    }
}

pub(crate) proof fn lemma_used_prefix_bound(t: Seq<u32>)
    requires
        forall|k: int| 0 <= k < t.len() ==> model_start(#[trigger] t[k]) != 0,
    ensures
        used_prefix(t) == t.len(),
{
    lemma_used_prefix(t);
}

proof fn lemma_used_prefix(t: Seq<u32>)
    ensures
        0 <= used_prefix(t) <= t.len(),
        forall|j: int| 0 <= j < used_prefix(t) ==> model_start(#[trigger] t[j]) != 0,
        used_prefix(t) < t.len() ==> model_start(t[used_prefix(t)]) == 0,
    decreases t.len(),
{
    if t.len() > 0 && model_start(t[0]) != 0 {
        lemma_used_prefix(t.drop_first());
        assert forall|j: int| 0 <= j < used_prefix(t) implies model_start(#[trigger] t[j]) != 0 by {
            if j > 0 {
                assert(t[j] == t.drop_first()[j - 1]);
            }
        }
    }
}

/// Index of the first table entry among the leading used ones with id `id`.
pub open spec fn index_of_id(t: Seq<u32>, id: u8) -> Option<int> {
    if exists|i: int| 0 <= i < used_prefix(t) && model_id(t[i]) == id {
        Some(choose|i: int| 0 <= i < used_prefix(t) && model_id(t[i]) == id && forall|j: int|
            0 <= j < i ==> model_id(t[j]) != id)
    } else {
        None
    }
}

/// The entry a new model gets in place of the unused entry `old`.
pub open spec fn allocated_entry(old: u32, new: u32, id: u8) -> bool {
    &&& model_start(new) == id * MODEL_BLOCKS + MODELS_START
    &&& model_len(new) == MODEL_BLOCKS
    &&& model_id(new) == id
    &&& new & 0xC000_0000 == old & 0xC000_0000
}

/// What validating header block `b` gives: a zero version byte means no
/// header, other versions than 1 are unknown, and the stored checksum must
/// match the checksum of the version byte and model table.
pub open spec fn header_check(b: Seq<u8>) -> Result<(), Error> {
    if b[0] == 0 {
        Err(Error::Missing)
    } else if b[0] != 1 {
        Err(Error::Version)
    } else if le_u32(b, CHECKSUM_OFFSET as int) != crc32_cksum(checksum_input(b)) {
        Err(Error::Checksum)
    } else {
        Ok(())
    }
}

/// `new_t` is table `t` after the first unused entry, at `idx`, was
/// allocated as `entry` for a model with id `id`.
pub open spec fn allocated_at(t: Seq<u32>, idx: int, entry: u32, new_t: Seq<u32>) -> bool {
    &&& 0 <= idx < MAX_MODELS
    &&& model_start(t[idx]) == 0
    &&& forall|j: int| 0 <= j < idx ==> model_start(#[trigger] t[j]) != 0
    &&& allocated_entry(t[idx], entry, 0)
    &&& new_t == t.update(idx, entry)
}

impl Header {
    /// The header block's bytes.
    pub closed spec fn view(&self) -> Seq<u8> {
        self.block@
    }

    /// Views a header block.
    pub fn from_block(block: Vec<u8>) -> (r: Header)
        requires
            block@.len() == BLOCK_BYTES,
        ensures
            r.view() == block@,
    {
        Header { block }
    }

    /// The header block's bytes.
    pub fn into_block(self) -> (r: Vec<u8>)
        ensures
            r@ == self.view(),
    {
        self.block
    }

    /// The header block's bytes.
    pub fn as_bytes(&self) -> (r: &[u8])
        ensures
            r@ == self.view(),
    {
        self.block.as_slice()
    }

    /// The version byte.
    pub fn version(&self) -> (r: u8)
        requires
            self.view().len() == BLOCK_BYTES,
        ensures
            r == self.view()[0],
    {
        self.block[0]
    }

    /// Checksum over the version byte and the model table.
    pub fn checksum(&self) -> (r: u32)
        requires
            self.view().len() == BLOCK_BYTES,
        ensures
            r == crc32_cksum(checksum_input(self.view())),
    {
        let mut data: Vec<u8> = Vec::new();
        data.push(self.block[0]);
        let mut i: usize = MODELS_OFFSET;
        while i < MODELS_OFFSET + 4 * MAX_MODELS
            invariant
                self.block@.len() == BLOCK_BYTES,
                MODELS_OFFSET <= i <= MODELS_OFFSET + 4 * MAX_MODELS,
                data@ == seq![self.block@[0]] + self.block@.subrange(MODELS_OFFSET as int, i as int),
            decreases MODELS_OFFSET + 4 * MAX_MODELS - i,
        {
            data.push(self.block[i]);
            i = i + 1;
            assert(data@ =~= seq![self.block@[0]] + self.block@.subrange(MODELS_OFFSET as int, i as int));
        }
        crc32(data.as_slice())
    }

    /// Checks that the header is present, has version 1 and a matching
    /// checksum.
    pub fn validate(&self) -> (r: Result<(), Error>)
        requires
            self.view().len() == BLOCK_BYTES,
        ensures
            r == header_check(self.view()),
    {
        let version = self.block[0];
        if version == 0 {
            Err(Error::Missing)
        } else if version != 1 {
            Err(Error::Version)
        } else if u32_from_le(self.block.as_slice(), CHECKSUM_OFFSET) != self.checksum() {
            Err(Error::Checksum)
        } else {
            Ok(())
        }
    }

    /// Marks the header as version 1.
    pub fn init(&mut self)
        requires
            old(self).view().len() == BLOCK_BYTES,
        ensures
            final(self).view() == old(self).view().update(0, 1),
    {
        self.block.set(0, 1);
    }

    /// Entry `i` of the model table.
    pub fn model(&self, i: usize) -> (r: Model)
        requires
            self.view().len() == BLOCK_BYTES,
            i < MAX_MODELS,
        ensures
            r.0 == table_entry(self.view(), i as int),
    {
        Model(u32_from_le(self.block.as_slice(), MODELS_OFFSET + 4 * i))
    }

    /// The leading used entries of the model table.
    pub fn iter_models(&self) -> (r: Vec<Model>)
        requires
            self.view().len() == BLOCK_BYTES,
        ensures
            r@.len() == used_prefix(table(self.view())),
            forall|j: int| 0 <= j < r@.len() ==> (#[trigger] r@[j]).0 == table(self.view())[j],
    {
        let ghost t = table(self.view());
        proof {
            lemma_used_prefix(t);
        }
        let mut r: Vec<Model> = Vec::new();
        let mut i: usize = 0;
        while i < MAX_MODELS
            invariant
                self.block@.len() == BLOCK_BYTES,
                t == table(self.block@),
                t.len() == MAX_MODELS,
                0 <= used_prefix(t) <= t.len(),
                forall|j: int| 0 <= j < used_prefix(t) ==> model_start(#[trigger] t[j]) != 0,
                used_prefix(t) < t.len() ==> model_start(t[used_prefix(t)]) == 0,
                i <= used_prefix(t),
                r@.len() == i,
                forall|j: int| 0 <= j < i ==> (#[trigger] r@[j]).0 == t[j],
            ensures
                r@.len() == used_prefix(t),
                forall|j: int| 0 <= j < r@.len() ==> (#[trigger] r@[j]).0 == t[j],
            decreases MAX_MODELS - i,
        {
            let m = self.model(i);
            if m.is_empty() {
                assert(model_start(t[i as int]) == 0);
                break;
            }
            r.push(m);
            i = i + 1;
        }
        r
    }

    /// Allocates a table entry for a new model in the first unused entry,
    /// giving it the next model id and the fixed run of blocks for that id.
    /// The set of used ids is accumulated with `&=` starting from the empty
    /// set, so it stays empty and the id handed out is always 0.
    pub fn new_model(&mut self) -> (r: Option<Model>)
        requires
            old(self).view().len() == BLOCK_BYTES,
        ensures
            final(self).view().len() == BLOCK_BYTES,
            final(self).view()[0] == old(self).view()[0],
            final(self).view().subrange(MODELS_OFFSET + 4 * MAX_MODELS, BLOCK_BYTES as int)
                == old(self).view().subrange(MODELS_OFFSET + 4 * MAX_MODELS, BLOCK_BYTES as int),
            ({
                let t = table(old(self).view());
                match r {
                    None => {
                        &&& forall|k: int| 0 <= k < MAX_MODELS ==> model_start(#[trigger] t[k]) != 0
                        &&& final(self).view() == old(self).view()
                    },
                    Some(m) => allocated_at(t, used_prefix(t), m.0, table(final(self).view())),
                }
            }),
    {
        let ghost t = table(self.block@);
        let ghost ob = self.block@;
        let models = self.iter_models();
        let mut used: u64 = 0;
        let mut k: usize = 0;
        while k < models.len()
            invariant
                k <= models@.len(),
                used == 0,
            decreases models@.len() - k,
        {
            let id = models[k].id();
            assert(used == 0 ==> used & (1u64 << id as u64) == 0) by (bit_vector);
            used = used & (1u64 << id as u64);
            k = k + 1;
        }
        let id = match next_id(used) {
            Some(id) => id,
            None => {
                assert((0u64 >> 0u64) & 1u64 == 0u64) by (bit_vector);
                assert(!id_used(used, 0));
                return None;
            },
        };
        proof {
            if id > 0 {
                let j = (id - 1) as u64;
                assert((0u64 >> j) & 1u64 == 0u64) by (bit_vector);
                assert(!id_used(used, j));
            }
        }
        assert(id == 0);
        let mut i: usize = 0;
        while i < MAX_MODELS
            invariant
                self.block@ == ob,
                ob == old(self).view(),
                ob.len() == BLOCK_BYTES,
                t == table(self.block@),
                i <= MAX_MODELS,
                id == 0,
                forall|j: int| 0 <= j < i ==> model_start(#[trigger] t[j]) != 0,
            decreases MAX_MODELS - i,
        {
            let mut m = self.model(i);
            if m.is_empty() {
                m.set_start(id as u32 * MODEL_BLOCKS + MODELS_START);
                m.set_len(MODEL_BLOCKS as u8);
                m.set_id(id);
                self.set_model(i, m);
                assert(allocated_entry(t[i as int], m.0, 0));
                assert(table(self.block@) == t.update(i as int, m.0));
                assert(model_start(t[i as int]) == 0);
                proof {
                    lemma_used_prefix(t);
                    if (i as int) < used_prefix(t) {
                        assert(model_start(t[i as int]) != 0);
                    }
                    if (i as int) > used_prefix(t) {
                        assert(model_start(t[used_prefix(t)]) != 0);
                    }
                }
                assert(allocated_at(t, i as int, m.0, table(self.block@)));
                return Some(m);
            }
            i = i + 1;
        }
        None
    }

    /// Removes the first listed model with id `id`, moving the following
    /// entries up and clearing the last one; does nothing when no listed
    /// model has that id.
    pub fn delete_model(&mut self, id: u8)
        requires
            old(self).view().len() == BLOCK_BYTES,
        ensures
            final(self).view().len() == BLOCK_BYTES,
            final(self).view()[0] == old(self).view()[0],
            final(self).view().subrange(MODELS_OFFSET + 4 * MAX_MODELS, BLOCK_BYTES as int)
                == old(self).view().subrange(MODELS_OFFSET + 4 * MAX_MODELS, BLOCK_BYTES as int),
            ({
                let t = table(old(self).view());
                match index_of_id(t, id) {
                    None => final(self).view() == old(self).view(),
                    Some(idx) => table(final(self).view()) == t.subrange(0, idx) + t.subrange(
                        idx + 1,
                        MAX_MODELS as int,
                    ) + seq![0u32],
                }
            }),
    {
        let ghost t = table(self.block@);
        proof {
            lemma_used_prefix(t);
        }
        let models = self.iter_models();
        let mut index: usize = 0;
        while index < models.len()
            invariant
                index <= models@.len(),
                models@.len() == used_prefix(t),
                forall|j: int| 0 <= j < models@.len() ==> (#[trigger] models@[j]).0 == t[j],
                forall|j: int| 0 <= j < index ==> model_id(t[j]) != id,
            ensures
                index <= models@.len(),
                index < models@.len() ==> model_id(t[index as int]) == id,
                forall|j: int| 0 <= j < index ==> model_id(t[j]) != id,
            decreases models@.len() - index,
        {
            if models[index].id() == id {
                assert(models@[index as int].0 == t[index as int]);
                break;
            }
            index = index + 1;
        }
        if index == models.len() {
            proof {
                assert(!(exists|i: int| 0 <= i < used_prefix(t) && model_id(t[i]) == id));
            }
            return;
        }
        proof {
            assert(0 <= index < used_prefix(t) && model_id(t[index as int]) == id);
            let c = choose|i: int| 0 <= i < used_prefix(t) && model_id(t[i]) == id && forall|j: int|
                0 <= j < i ==> model_id(t[j]) != id;
            assert(index_of_id(t, id) == Some(c));
            if c < index {
                assert(model_id(t[c]) != id);
            }
            if index < c {
                assert(model_id(t[index as int]) != id);
            }
            assert(index_of_id(t, id) == Some(index as int));
        }
        // The listed models are never empty, so the run to move ends at the
        // end of the table.
        let mut end = MAX_MODELS;
        let mut k = index;
        while k < models.len()
            invariant
                index <= k <= models@.len(),
                models@.len() <= MAX_MODELS,
                forall|j: int| 0 <= j < models@.len() ==> model_start((#[trigger] models@[j]).0) != 0,
                end == MAX_MODELS,
            decreases models@.len() - k,
        {
            if models[k].is_empty() {
                end = k;
                break;
            }
            k = k + 1;
        }
        let ghost b0 = self.block@;
        let mut j = index;
        while j + 1 < end
            invariant
                end == MAX_MODELS,
                index <= j < MAX_MODELS,
                self.block@.len() == BLOCK_BYTES,
                self.block@[0] == b0[0],
                self.block@.subrange(MODELS_OFFSET + 4 * MAX_MODELS, BLOCK_BYTES as int) == b0.subrange(MODELS_OFFSET + 4 * MAX_MODELS, BLOCK_BYTES as int),
                forall|x: int| 0 <= x < index ==> #[trigger] table(self.block@)[x] == t[x],
                forall|x: int| index <= x < j ==> #[trigger] table(self.block@)[x] == t[x + 1],
                forall|x: int| j <= x < MAX_MODELS ==> #[trigger] table(self.block@)[x] == t[x],
            decreases end - j,
        {
            let next = self.model(j + 1);
            let ghost before = table(self.block@);
            self.set_model(j, next);
            proof {
                let after = table(self.block@);
                assert(after == before.update(j as int, next.0));
                assert(next.0 == before[j + 1]);
                assert(before[j + 1] == t[j + 1]);
                assert forall|x: int| 0 <= x < index implies #[trigger] after[x] == t[x] by {
                    assert(before[x] == t[x]);
                }
                assert forall|x: int| index <= x < j + 1 implies #[trigger] after[x] == t[x + 1] by {
                    if x < j {
                        assert(before[x] == t[x + 1]);
                    }
                }
                assert forall|x: int| j + 1 <= x < MAX_MODELS implies #[trigger] after[x] == t[x] by {
                    assert(before[x] == t[x]);
                }
            }
            j = j + 1;
        }
        self.set_model(end - 1, Model::empty());
        proof {
            assert(table(self.block@) =~= t.subrange(0, index as int) + t.subrange(
                index + 1,
                MAX_MODELS as int,
            ) + seq![0u32]);
        }
    }

    /// Writes entry `i` of the model table.
    fn set_model(&mut self, i: usize, m: Model)
        requires
            old(self).view().len() == BLOCK_BYTES,
            i < MAX_MODELS,
        ensures
            final(self).view().len() == BLOCK_BYTES,
            table(final(self).view()) == table(old(self).view()).update(i as int, m.0),
            final(self).view()[0] == old(self).view()[0],
            final(self).view().subrange(MODELS_OFFSET + 4 * MAX_MODELS, BLOCK_BYTES as int)
                == old(self).view().subrange(MODELS_OFFSET + 4 * MAX_MODELS, BLOCK_BYTES as int),
    {
        let ghost b = self.block@;
        write_u32_le(&mut self.block, MODELS_OFFSET + 4 * i, m.0);
        proof {
            lemma_table_write(b, self.block@, i as int, m.0);
        }
    }
}

proof fn lemma_table_write(b: Seq<u8>, nb: Seq<u8>, i: int, w: u32)
    requires
        b.len() == BLOCK_BYTES,
        0 <= i < MAX_MODELS,
        nb == b.subrange(0, MODELS_OFFSET + 4 * i) + u32_le_bytes(w) + b.subrange(
            MODELS_OFFSET + 4 * i + 4,
            b.len() as int,
        ),
    ensures
        nb.len() == BLOCK_BYTES,
        table(nb) == table(b).update(i, w),
        nb[0] == b[0],
        nb.subrange(MODELS_OFFSET + 4 * MAX_MODELS, BLOCK_BYTES as int) == b.subrange(
            MODELS_OFFSET + 4 * MAX_MODELS,
            BLOCK_BYTES as int,
        ),
{
    let at = MODELS_OFFSET + 4 * i;
    assert forall|x: int| 0 <= x < nb.len() && !(at <= x < at + 4) implies nb[x] == b[x] by {
        if x < at {
            assert(nb[x] == b.subrange(0, at)[x]);
        } else {
            assert(nb[x] == b.subrange(at + 4, b.len() as int)[x - at - 4]);
        }
    }
    assert forall|j: int| 0 <= j < 4 implies nb[at + j] == u32_le_bytes(w)[j] by {}
    assert forall|k: int| 0 <= k < MAX_MODELS implies #[trigger] table(nb)[k] == table(b).update(
        i,
        w,
    )[k] by {
        let a = MODELS_OFFSET + 4 * k;
        if k == i {
            assert(le_u32(u32_le_bytes(w), 0) == w);
            assert(nb[a] == u32_le_bytes(w)[0]);
            assert(nb[a + 1] == u32_le_bytes(w)[1]);
            assert(nb[a + 2] == u32_le_bytes(w)[2]);
            assert(nb[a + 3] == u32_le_bytes(w)[3]);
        } else {
            assert(nb[a] == b[a]);
            assert(nb[a + 1] == b[a + 1]);
            assert(nb[a + 2] == b[a + 2]);
            assert(nb[a + 3] == b[a + 3]);
        }
    }
    assert(table(nb) =~= table(b).update(i, w));
    assert(nb.subrange(MODELS_OFFSET + 4 * MAX_MODELS, BLOCK_BYTES as int) =~= b.subrange(
        MODELS_OFFSET + 4 * MAX_MODELS,
        BLOCK_BYTES as int,
    ));
}

proof fn lemma_used_prefix_is(t: Seq<u32>, n: int)
    requires
        0 <= n <= t.len(),
        forall|j: int| 0 <= j < n ==> model_start(#[trigger] t[j]) != 0,
        n == t.len() || model_start(t[n]) == 0,
    ensures
        used_prefix(t) == n,
    decreases t.len(),
{
    if n > 0 {
        assert forall|j: int| 0 <= j < n - 1 implies model_start(#[trigger] t.drop_first()[j]) != 0 by {
            assert(t.drop_first()[j] == t[j + 1]);
        }
        if n < t.len() {
            assert(t.drop_first()[n - 1] == t[n]);
        }
        lemma_used_prefix_is(t.drop_first(), n - 1);
        assert(model_start(t[0]) != 0);
    }
}

/// A model allocated by `new_model` is listed by `iter_models`, right after
/// the models listed before, which keep their places.
pub proof fn lemma_new_model_listed(t: Seq<u32>, entry: u32, new_t: Seq<u32>)
    requires
        t.len() == MAX_MODELS,
        used_prefix(t) < MAX_MODELS,
        allocated_at(t, used_prefix(t), entry, new_t),
    ensures
        used_prefix(new_t) > used_prefix(t),
        new_t[used_prefix(t)] == entry,
        forall|j: int| 0 <= j < used_prefix(t) ==> new_t[j] == t[j],
{
    lemma_used_prefix(t);
    lemma_used_prefix(new_t);
    let n = used_prefix(t);
    assert(model_start(entry) == 4);
    if used_prefix(new_t) <= n {
        let m = used_prefix(new_t);
        if m < n {
            assert(new_t[m] == t[m]);
        } else {
            assert(new_t[m] == entry);
        }
    }
}

/// After `delete_model` removes the listed model at `idx`, `iter_models`
/// lists the other models in the same order.
pub proof fn lemma_delete_model_unlists(t: Seq<u32>, id: u8)
    requires
        t.len() == MAX_MODELS,
        index_of_id(t, id) is Some,
    ensures
        ({
            let idx = index_of_id(t, id).unwrap();
            let new_t = t.subrange(0, idx) + t.subrange(idx + 1, MAX_MODELS as int) + seq![0u32];
            &&& used_prefix(new_t) == used_prefix(t) - 1
            &&& forall|j: int| 0 <= j < used_prefix(new_t) ==> new_t[j] == t.remove(idx)[j]
        }),
{
    lemma_used_prefix(t);
    let n = used_prefix(t);
    let idx = index_of_id(t, id).unwrap();
    let new_t = t.subrange(0, idx) + t.subrange(idx + 1, MAX_MODELS as int) + seq![0u32];
    assert(0 <= idx < n);
    assert forall|j: int| 0 <= j < n - 1 implies model_start(#[trigger] new_t[j]) != 0 by {
        if j < idx {
            assert(new_t[j] == t[j]);
        } else {
            assert(new_t[j] == t[j + 1]);
        }
    }
    if n < MAX_MODELS {
        assert(new_t[n - 1] == t[n]);
    } else {
        assert(new_t[n - 1] == 0u32);
        assert(model_start(0u32) == 0) by (bit_vector);
    }
    lemma_used_prefix_is(new_t, n - 1);
    assert forall|j: int| 0 <= j < used_prefix(new_t) implies new_t[j] == t.remove(idx)[j] by {
        if j < idx {
            assert(new_t[j] == t[j]);
        } else {
            assert(new_t[j] == t[j + 1]);
        }
    }
}

} // verus!
