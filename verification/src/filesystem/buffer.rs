//! Bookkeeping of the block buffers: which block each buffer holds, whether
//! it was modified, and which buffers an access should use.
use vstd::prelude::*;

use super::BLOCK_BYTES;

verus! {

/// What a buffer holds: `u32::MAX` when empty, otherwise the block number in
/// the low 31 bits and the modified flag in the top bit.
#[derive(Debug, Clone, Copy, PartialEq, Eq, Structural)]
pub struct State(u32);

pub const MODIFIED_MASK: u32 = 0x8000_0000;

pub const BLOCK_MASK: u32 = 0x7FFF_FFFF;

/// The buffer state `v` holds no block.
pub open spec fn state_empty(v: u32) -> bool {
    v == 0xFFFF_FFFF
}

/// The block held by a buffer in state `v`.
pub open spec fn state_block(v: u32) -> Option<u32> {
    if v != 0xFFFF_FFFF {
        Some(v & 0x7FFF_FFFF)
    } else {
        None
    }
}

/// The block test of a buffer in state `v`: it compares the modified bit
/// (the state masked with `MODIFIED_MASK`) with `block`.
pub open spec fn state_is_block(v: u32, block: u32) -> bool {
    v & 0x8000_0000 == block
}

/// A buffer in state `v` holds a block that was modified.
pub open spec fn state_modified(v: u32) -> bool {
    !state_empty(v) && v & 0x8000_0000 != 0
}

impl State {
    /// The raw state word.
    pub closed spec fn raw(&self) -> u32 {
        self.0
    }

    /// The state of an empty buffer.
    pub fn empty() -> (r: State)
        ensures
            r.raw() == 0xFFFF_FFFF,
    {
        State(u32::MAX)
    }

    /// The raw state word.
    pub fn bits(&self) -> (r: u32)
        ensures
            r == self.raw(),
    {
        self.0
    }

    pub fn is_empty(&self) -> (r: bool)
        ensures
            r == state_empty(self.raw()),
    {
        self.0 == u32::MAX
    }

    pub fn set_empty(&mut self)
        ensures
            final(self).raw() == 0xFFFF_FFFF,
    {
        self.0 = u32::MAX;
    }

    pub fn block(&self) -> (r: Option<u32>)
        ensures
            r == state_block(self.raw()),
    {
        if self.0 != u32::MAX {
            Some(self.0 & BLOCK_MASK)
        } else {
            None
        }
    }

    /// Points the buffer at `block`, clearing the modified flag.
    pub fn set_block(&mut self, block: u32)
        requires
            block < 0x8000_0000 || block == 0xFFFF_FFFF,
        ensures
            final(self).raw() == block,
    {
        self.0 = block;
    }

    /// The block test: compares the state masked with `MODIFIED_MASK`, that
    /// is its modified bit alone, with `block`. So a modified buffer passes
    /// for no block below `2^31`, and a buffer that holds a block unmodified
    /// passes for block 0 whatever block it holds.
    pub fn is_block(&self, block: u32) -> (r: bool)
        requires
            block < 0x8000_0000,
        ensures
            r == state_is_block(self.raw(), block),
    {
        (self.0 & MODIFIED_MASK) == block
    }

    pub fn is_modified(&self) -> (r: bool)
        ensures
            r == state_modified(self.raw()),
    {
        (!self.is_empty()) && ((self.0 & MODIFIED_MASK) != 0)
    }

    pub fn clear_modified(&mut self)
        ensures
            final(self).raw() == if state_empty(old(self).raw()) {
                old(self).raw()
            } else {
                old(self).raw() & 0x7FFF_FFFF
            },
    {
        if !self.is_empty() {
            self.0 = self.0 & BLOCK_MASK;
        }
    }

    pub fn set_modified(&mut self)
        ensures
            final(self).raw() == old(self).raw() | 0x8000_0000,
    {
        self.0 = self.0 | MODIFIED_MASK;
    }
}

/// Marking a held block as modified keeps the block and sets the flag; clearing
/// the flag again gives back the block number.
pub proof fn lemma_modified_flag(block: u32)
    requires
        block < 0x7FFF_FFFF,
    ensures
        state_modified(block | 0x8000_0000),
        state_block(block | 0x8000_0000) == Some(block),
        !state_modified(block),
        state_block(block) == Some(block),
        (block | 0x8000_0000) & 0x7FFF_FFFF == block,
{
    assert(block < 0x7FFF_FFFF ==> {
        &&& (block | 0x8000_0000) & 0x8000_0000 != 0
        &&& (block | 0x8000_0000) != 0xFFFF_FFFF
        &&& (block | 0x8000_0000) & 0x7FFF_FFFF == block
        &&& block & 0x8000_0000 == 0
        &&& block & 0x7FFF_FFFF == block
    }) by (bit_vector);
}

/// `i` is the first index below `limit` whose state passes the block test
/// for `block`.
pub open spec fn first_block_index(s: Seq<u32>, block: u32, limit: int, i: int) -> bool {
    &&& 0 <= i < limit
    &&& state_is_block(s[i], block)
    &&& forall|j: int| 0 <= j < i ==> !state_is_block(#[trigger] s[j], block)
}

/// No state below `limit` passes the block test for `block`.
pub open spec fn no_block_index(s: Seq<u32>, block: u32, limit: int) -> bool {
    forall|j: int| 0 <= j < limit ==> !state_is_block(#[trigger] s[j], block)
}

/// Where `select` places a view starting at block `start` over buffers in
/// states `s`: at the first buffer that passes the block test for `start`,
/// spanning the following buffers that pass it for the following blocks;
/// failing that, right after a buffer (not the last) that passes it for
/// `start - 1`; failing that, at the first buffer. `r` is (index, length).
pub open spec fn select_placement(s: Seq<u32>, start: u32, r: (usize, usize)) -> bool {
    let len = s.len() as int;
    if exists|i: int| #[trigger] first_block_index(s, start, len, i) {
        &&& first_block_index(s, start, len, r.0 as int)
        &&& 1 <= r.1
        &&& r.0 + r.1 <= len
        &&& forall|k: int| 1 <= k < r.1 ==> state_is_block(#[trigger] s[r.0 + k], (start + k) as u32)
        &&& (r.0 + r.1 == len || !state_is_block(s[r.0 + r.1], (start + r.1) as u32))
    } else if start >= 1 && exists|p: int| #[trigger] first_block_index(s, (start - 1) as u32, len - 1, p) {
        &&& r.1 == 1
        &&& first_block_index(s, (start - 1) as u32, len - 1, r.0 - 1)
    } else {
        r == (0usize, 1usize)
    }
}

/// Index of the first modified buffer at or after `from`, or `s.len()`.
pub open spec fn next_modified(s: Seq<u32>, from: int) -> int
    decreases s.len() - from,
{
    if from >= s.len() {
        from
    } else if state_modified(s[from]) {
        from
    } else {
        next_modified(s, from + 1)
    }
}

/// End of the run of modified buffers from `i` whose blocks follow `block`
/// (the run is scanned from `i + k`).
pub open spec fn chunk_end(s: Seq<u32>, i: int, block: u32, k: int) -> int
    decreases s.len() - (i + k),
{
    if i + k >= s.len() || k < 1 {
        i + k
    } else if state_modified(s[i + k]) && state_is_block(s[i + k], (block + k) as u32) {
        chunk_end(s, i, block, k + 1)
    } else {
        i + k
    }
}

/// The next modified buffer lies between `from` and the end, and is
/// modified where it is not the end.
pub proof fn lemma_next_modified(s: Seq<u32>, from: int)
    requires
        0 <= from <= s.len(),
    ensures
        from <= next_modified(s, from) <= s.len(),
        next_modified(s, from) < s.len() ==> state_modified(s[next_modified(s, from)]),
    decreases s.len() - from,
{
    if from < s.len() && !state_modified(s[from]) {
        lemma_next_modified(s, from + 1);
    }
}

/// A run scanned from `i + k` ends at `i + k` or later, and not past the
/// end of the buffers.
pub proof fn lemma_chunk_end(s: Seq<u32>, i: int, block: u32, k: int)
    requires
        1 <= k,
    ensures
        chunk_end(s, i, block, k) >= i + k,
        i + k <= s.len() ==> chunk_end(s, i, block, k) <= s.len(),
    decreases s.len() - (i + k),
{
    if i + k < s.len() && state_modified(s[i + k]) && state_is_block(s[i + k], (block + k) as u32) {
        lemma_chunk_end(s, i, block, k + 1);
    }
}

/// The buffers that `next_modified` steps over are not modified.
proof fn lemma_next_modified_skips(s: Seq<u32>, from: int, j: int)
    requires
        from <= j < next_modified(s, from),
    ensures
        !state_modified(s[j]),
    decreases s.len() - from,
{
    if from < s.len() && !state_modified(s[from]) && j > from {
        lemma_next_modified_skips(s, from + 1, j);
    }
}

/// The buffers of a run after its first are modified.
proof fn lemma_chunk_modified(s: Seq<u32>, i: int, block: u32, k: int, j: int)
    requires
        1 <= k,
        i + k <= j < chunk_end(s, i, block, k),
    ensures
        state_modified(s[j]),
    decreases s.len() - (i + k),
{
    if j > i + k {
        lemma_chunk_modified(s, i, block, k + 1, j);
    }
}

/// A state with the modified flag cleared, as `State::clear_modified` leaves
/// it.
pub open spec fn state_cleared(v: u32) -> u32 {
    if state_empty(v) {
        v
    } else {
        v & 0x7FFF_FFFF
    }
}

/// The runs of modified buffers that a flush from buffer `from` writes back,
/// in order: (first buffer, end buffer). Each run starts at the next
/// modified buffer and is as `next_flush_chunk` gives it; the next run is
/// looked for from its end.
pub open spec fn flush_runs(s: Seq<u32>, from: int) -> Seq<(int, int)>
    decreases s.len() - from,
{
    if from < 0 || from >= s.len() {
        Seq::empty()
    } else {
        let i = next_modified(s, from);
        if i >= s.len() {
            Seq::empty()
        } else {
            proof {
                lemma_next_modified(s, from);
                lemma_chunk_end(s, i, s[i] & 0x7FFF_FFFF, 1);
            }
            let e = chunk_end(s, i, s[i] & 0x7FFF_FFFF, 1);
            seq![(i, e)] + flush_runs(s, e)
        }
    }
}

/// A flush writes back every modified buffer exactly once: the runs of a
/// flush from `from` lie in `from..`, in increasing order and without
/// overlap, hold only modified buffers, and every modified buffer from
/// `from` on lies in one of them.
pub proof fn lemma_flush_writes_each_modified_once(s: Seq<u32>, from: int)
    requires
        0 <= from <= s.len(),
    ensures
        ({
            let r = flush_runs(s, from);
            &&& forall|k: int| 0 <= k < r.len() ==> from <= (#[trigger] r[k]).0 < r[k].1 <= s.len()
            &&& forall|k1: int, k2: int| 0 <= k1 < k2 < r.len() ==> (#[trigger] r[k1]).1 <= (#[trigger] r[k2]).0
            &&& forall|k: int, j: int| 0 <= k < r.len() && (#[trigger] r[k]).0 <= j < r[k].1 ==> state_modified(#[trigger] s[j])
            &&& forall|j: int| from <= j < s.len() && state_modified(#[trigger] s[j]) ==> exists|k: int| 0 <= k < r.len() && (#[trigger] r[k]).0 <= j < r[k].1
        }),
    decreases s.len() - from,
{
    let r = flush_runs(s, from);
    if from < s.len() {
        let i = next_modified(s, from);
        lemma_next_modified(s, from);
        if i < s.len() {
            let b = s[i] & 0x7FFF_FFFF;
            let e = chunk_end(s, i, b, 1);
            lemma_chunk_end(s, i, b, 1);
            lemma_flush_writes_each_modified_once(s, e);
            let rest = flush_runs(s, e);
            assert(r == seq![(i, e)] + rest);
            assert(r[0] == (i, e));
            assert forall|k: int| 0 < k < r.len() implies #[trigger] r[k] == rest[k - 1] by {}
            assert forall|k: int| 0 <= k < r.len() implies from <= (#[trigger] r[k]).0 < r[k].1 <= s.len() by {
                if k > 0 {
                    assert(r[k] == rest[k - 1]);
                }
            }
            assert forall|k1: int, k2: int| 0 <= k1 < k2 < r.len() implies (#[trigger] r[k1]).1 <= (#[trigger] r[k2]).0 by {
                assert(r[k2] == rest[k2 - 1]);
                if k1 > 0 {
                    assert(r[k1] == rest[k1 - 1]);
                } else {
                    assert(e <= rest[k2 - 1].0);
                }
            }
            assert forall|k: int, j: int| 0 <= k < r.len() && (#[trigger] r[k]).0 <= j < r[k].1 implies state_modified(#[trigger] s[j]) by {
                if k > 0 {
                    assert(r[k] == rest[k - 1]);
                } else if j > i {
                    lemma_chunk_modified(s, i, b, 1, j);
                }
            }
            assert forall|j: int| from <= j < s.len() && state_modified(#[trigger] s[j]) implies exists|k: int| 0 <= k < r.len() && (#[trigger] r[k]).0 <= j < r[k].1 by {
                if j < i {
                    lemma_next_modified_skips(s, from, j);
                } else if j < e {
                    assert(r[0].0 <= j < r[0].1);
                } else {
                    let k = choose|k: int| 0 <= k < rest.len() && (#[trigger] rest[k]).0 <= j < rest[k].1;
                    assert(r[k + 1] == rest[k]);
                }
            }
        } else {
            assert(r.len() == 0);
            assert forall|j: int| from <= j < s.len() && state_modified(#[trigger] s[j]) implies exists|k: int| 0 <= k < r.len() && (#[trigger] r[k]).0 <= j < r[k].1 by {
                lemma_next_modified_skips(s, from, j);
            }
        }
    }
}

proof fn lemma_next_modified_agree(s: Seq<u32>, t: Seq<u32>, from: int)
    requires
        s.len() == t.len(),
        0 <= from,
        forall|j: int| from <= j < s.len() ==> t[j] == s[j],
    ensures
        next_modified(t, from) == next_modified(s, from),
    decreases s.len() - from,
{
    if from < s.len() {
        lemma_next_modified_agree(s, t, from + 1);
    }
}

proof fn lemma_chunk_end_agree(s: Seq<u32>, t: Seq<u32>, i: int, block: u32, k: int)
    requires
        s.len() == t.len(),
        0 <= i,
        1 <= k,
        forall|j: int| i <= j < s.len() ==> t[j] == s[j],
    ensures
        chunk_end(t, i, block, k) == chunk_end(s, i, block, k),
    decreases s.len() - (i + k),
{
    if i + k < s.len() {
        lemma_chunk_end_agree(s, t, i, block, k + 1);
    }
}

/// What a flush does from buffer `from` on depends only on the buffers from
/// `from` on: clearing the flags of a run that was written back leaves the
/// runs after it as they were.
pub proof fn lemma_flush_runs_after(s: Seq<u32>, t: Seq<u32>, from: int)
    requires
        s.len() == t.len(),
        0 <= from,
        forall|j: int| from <= j < s.len() ==> t[j] == s[j],
    ensures
        flush_runs(t, from) == flush_runs(s, from),
    decreases s.len() - from,
{
    if from < s.len() {
        lemma_next_modified_agree(s, t, from);
        lemma_next_modified(s, from);
        let i = next_modified(s, from);
        if i < s.len() {
            let b = s[i] & 0x7FFF_FFFF;
            lemma_chunk_end_agree(s, t, i, b, 1);
            lemma_chunk_end(s, i, b, 1);
            lemma_flush_runs_after(s, t, chunk_end(s, i, b, 1));
        }
    }
}

/// A cleared state is not modified.
pub proof fn lemma_cleared_not_modified(v: u32)
    ensures
        !state_modified(state_cleared(v)),
{
    assert(v != 0xFFFF_FFFF ==> (v & 0x7FFF_FFFF) & 0x8000_0000 == 0) by (bit_vector);
}

/// The state bookkeeping of a set of block buffers.
#[derive(Debug, Clone)]
pub struct Buffer {
    state: Vec<State>,
}

impl Buffer {
    /// The raw states of the buffers.
    pub closed spec fn states(&self) -> Seq<u32> {
        self.state@.map_values(|s: State| s.0)
    }

    /// `len` empty buffers.
    pub fn new(len: usize) -> (r: Buffer)
        ensures
            r.states() == Seq::new(len as nat, |i: int| 0xFFFF_FFFFu32),
    {
        let mut state: Vec<State> = Vec::new();
        let mut i: usize = 0;
        while i < len
            invariant
                i <= len,
                state@.len() == i,
                forall|k: int| 0 <= k < i ==> (#[trigger] state@[k]).0 == 0xFFFF_FFFFu32,
            decreases len - i,
        {
            state.push(State::empty());
            i = i + 1;
        }
        let r = Buffer { state };
        assert(r.states() =~= Seq::new(len as nat, |i: int| 0xFFFF_FFFFu32));
        r
    }

    /// Length in blocks
    pub fn len(&self) -> (r: u32)
        requires
            self.states().len() <= u32::MAX,
        ensures
            r == self.states().len(),
    {
        self.state.len() as u32
    }

    /// State of buffer `i`.
    pub fn state(&self, i: usize) -> (r: State)
        requires
            i < self.states().len(),
        ensures
            r.raw() == self.states()[i as int],
    {
        self.state[i]
    }

    /// Replaces the state of buffer `i`.
    pub fn set_state(&mut self, i: usize, state: State)
        requires
            i < old(self).states().len(),
        ensures
            final(self).states() == old(self).states().update(i as int, state.raw()),
    {
        self.state.set(i, state);
        assert(self.states() =~= old(self).states().update(i as int, state.raw()));
    }

    /// First index below `limit` whose state passes the block test for `block`.
    fn position(&self, block: u32, limit: usize) -> (r: Option<usize>)
        requires
            block < 0x8000_0000,
            limit <= self.states().len(),
        ensures
            match r {
                Some(i) => first_block_index(self.states(), block, limit as int, i as int),
                None => no_block_index(self.states(), block, limit as int),
            },
    {
        let mut i: usize = 0;
        while i < limit
            invariant
                limit <= self.states().len(),
                block < 0x8000_0000,
                i <= limit,
                forall|j: int| 0 <= j < i ==> !state_is_block(#[trigger] self.states()[j], block),
            decreases limit - i,
        {
            if self.state[i].is_block(block) {
                return Some(i);
            }
            i = i + 1;
        }
        None
    }

    /// Chooses the buffers for a view of at least one block starting at block
    /// `start`: gives (index, length). Several buffers are used only when
    /// they already hold the right blocks.
    pub fn select(&self, start: u32) -> (r: (usize, usize))
        requires
            1 <= self.states().len(),
            start as int + self.states().len() < 0x8000_0000,
        ensures
            select_placement(self.states(), start, r),
    {
        let n = self.state.len();
        if let Some(start_index) = self.position(start, n) {
            let mut len: usize = 1;
            while start_index + len < n && self.state[start_index + len].is_block(start + len as u32)
                invariant
                    n == self.states().len(),
                    start as int + n < 0x8000_0000,
                    first_block_index(self.states(), start, n as int, start_index as int),
                    1 <= len,
                    start_index + len <= n,
                    forall|k: int| 1 <= k < len ==> state_is_block(#[trigger] self.states()[start_index + k], (start + k) as u32),
                decreases n - len,
            {
                len = len + 1;
            }
            (start_index, len)
        } else if start >= 1 {
            if let Some(prev_index) = self.position(start - 1, n - 1) {
                (prev_index + 1, 1)
            } else {
                (0, 1)
            }
        } else {
            (0, 1)
        }
    }

    /// Chooses the first buffer of a view of exactly `len` blocks starting at
    /// block `start`: the first buffer that passes the block test for `start`
    /// and leaves room for the view, or the first buffer.
    pub fn select_exact(&self, start: u32, len: u32) -> (r: usize)
        requires
            1 <= len as int <= self.states().len(),
            start < 0x8000_0000,
        ensures
            match r {
                0 => no_block_index(self.states(), start, self.states().len() - len + 1)
                    || first_block_index(self.states(), start, self.states().len() - len + 1, 0),
                i => first_block_index(self.states(), start, self.states().len() - len + 1, i as int),
            },
            r + len <= self.states().len(),
    {
        let n = self.state.len();
        match self.position(start, n - len as usize + 1) {
            Some(i) => i,
            None => 0,
        }
    }

    /// The next run of modified buffers to write back, searching from
    /// buffer `from`: (first buffer, end buffer, first block), or `None`
    /// when no buffer from there on is modified. A run is extended by
    /// looking at the buffer after it, which must exist: where a run would
    /// reach the last buffer (so where the last buffer is modified) the scan
    /// indexes past the end, and the `requires` leaves those states out.
    pub fn next_flush_chunk(&self, from: usize) -> (r: Option<(usize, usize, u32)>)
        requires
            from <= self.states().len() < 0x8000_0000,
            next_modified(self.states(), from as int) < self.states().len() ==> {
                let i = next_modified(self.states(), from as int);
                let b = self.states()[i] & 0x7FFF_FFFF;
                &&& chunk_end(self.states(), i, b, 1) < self.states().len()
                &&& b + self.states().len() < 0x8000_0000
            },
        ensures
            ({
                let s = self.states();
                let i = next_modified(s, from as int);
                match r {
                    None => i >= s.len(),
                    Some((start, end, block)) => {
                        &&& i < s.len()
                        &&& start == i
                        &&& block == s[i] & 0x7FFF_FFFF
                        &&& end == chunk_end(s, i, block, 1)
                    },
                }
            }),
    {
        let n = self.state.len();
        let mut start = from;
        while start < n && !self.state[start].is_modified()
            invariant
                from <= start <= n,
                n == self.states().len(),
                next_modified(self.states(), from as int) == next_modified(self.states(), start as int),
            decreases n - start,
        {
            start = start + 1;
        }
        if start >= n {
            return None;
        }
        proof {
            lemma_next_modified(self.states(), from as int);
        }
        let start_block = match self.state[start].block() {
            Some(b) => b,
            None => {
                assert(false);
                0
            },
        };
        proof {
            lemma_chunk_end(self.states(), start as int, start_block, 1);
        }
        let mut chunk: usize = 1;
        while self.state[start + chunk].is_modified() && self.state[start + chunk].is_block(start_block + chunk as u32)
            invariant
                n == self.states().len() < 0x8000_0000,
                start < n,
                start_block + n < 0x8000_0000,
                1 <= chunk,
                start + chunk < n,
                chunk_end(self.states(), start as int, start_block, 1) < n,
                chunk_end(self.states(), start as int, start_block, 1) == chunk_end(self.states(), start as int, start_block, chunk as int),
            decreases n - chunk,
        {
            proof {
                lemma_chunk_end(self.states(), start as int, start_block, chunk as int + 1);
            }
            chunk = chunk + 1;
        }
        Some((start, start + chunk, start_block))
    }

    /// Clears the modified flag of buffers `start .. end`, once they were
    /// written back.
    pub fn clear_modified_run(&mut self, start: usize, end: usize)
        requires
            start <= end <= old(self).states().len(),
        ensures
            final(self).states() == Seq::new(
                old(self).states().len(),
                |j: int| if start <= j < end { state_cleared(old(self).states()[j]) } else { old(self).states()[j] },
            ),
    {
        let ghost s0 = self.states();
        let mut k = start;
        while k < end
            invariant
                start <= k <= end,
                end <= s0.len(),
                self.states().len() == s0.len(),
                forall|j: int| 0 <= j < s0.len() ==> #[trigger] self.states()[j] == if start <= j < k { state_cleared(s0[j]) } else { s0[j] },
            decreases end - k,
        {
            let ghost before = self.states();
            assert(before[k as int] == s0[k as int]);
            let mut st = self.state[k];
            assert(st.0 == s0[k as int]);
            st.clear_modified();
            self.state.set(k, st);
            assert(self.states() =~= before.update(k as int, state_cleared(s0[k as int])));
            k = k + 1;
        }
        assert(self.states() =~= Seq::new(
            s0.len(),
            |j: int| if start <= j < end { state_cleared(s0[j]) } else { s0[j] },
        ));
    }

    /// Marks the buffers covering bytes `offset .. offset + len` of a view
    /// (buffers `view_index ..` holding blocks `view_block ..`, `view_len` of
    /// them) as holding their blocks, modified.
    pub fn mark_modified(
        &mut self,
        view_index: usize,
        view_len: usize,
        view_block: u32,
        offset: usize,
        len: usize,
    )
        requires
            view_index + view_len <= old(self).states().len(),
            view_block as int + view_len < 0x8000_0000,
            offset + len + BLOCK_BYTES <= usize::MAX,
        ensures
            ({
                let first = (offset as int) / (BLOCK_BYTES as int);
                let last = (offset + len + BLOCK_BYTES - 1) / (BLOCK_BYTES as int);
                final(self).states() == Seq::new(
                    old(self).states().len(),
                    |i: int|
                        if view_index + first <= i < view_index + last && i < view_index + view_len {
                            ((view_block + (i - view_index)) as u32) | 0x8000_0000
                        } else {
                            old(self).states()[i]
                        },
                )
            }),
    {
        let first = offset / BLOCK_BYTES;
        let last = (offset + len + BLOCK_BYTES - 1) / BLOCK_BYTES;
        let ghost s0 = self.states();
        let n = self.state.len();
        let mut k = first;
        while k < last && k < view_len
            invariant
                n == s0.len(),
                k <= last,
                k <= view_len || k == first,
                view_index + view_len <= s0.len(),
                view_block as int + view_len < 0x8000_0000,
                self.states().len() == s0.len(),
                first <= k,
                first == (offset as int) / (BLOCK_BYTES as int),
                last == (offset + len + BLOCK_BYTES - 1) / (BLOCK_BYTES as int),
                forall|i: int| 0 <= i < s0.len() ==> #[trigger] self.states()[i] == if view_index + first <= i < view_index + k && i < view_index + view_len {
                    ((view_block + (i - view_index)) as u32) | 0x8000_0000
                } else {
                    s0[i]
                },
            decreases last - k,
        {
            let mut state = self.state[view_index + k];
            state.set_block(view_block + k as u32);
            state.set_modified();
            self.set_state(view_index + k, state);
            k = k + 1;
        }
        proof {
            let target = Seq::new(
                s0.len(),
                |i: int|
                    if view_index + first <= i < view_index + last && i < view_index + view_len {
                        ((view_block + (i - view_index)) as u32) | 0x8000_0000
                    } else {
                        s0[i]
                    },
            );
            assert(self.states() =~= target);
        }
    }
}

} // verus!
