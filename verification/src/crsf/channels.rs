//! Packed RC channel data: sixteen 11 bit channels in 22 bytes.
use vstd::prelude::*;

verus! {

/// Sixteen 11 bit channel values packed least significant bit first.
#[derive(Debug, Clone, PartialEq)]
pub struct RcChannelsPacked<T>(pub T);

/// Bit `i` of a packed byte sequence, counting from the least significant bit
/// of the first byte.
pub open spec fn packed_bit(bytes: Seq<u8>, i: int) -> bool {
    (bytes[i / 8] >> ((i % 8) as u8)) & 1u8 == 1u8
}

/// `value` is channel `index` of `bytes`: its 11 bits are bits
/// `11 * index .. 11 * index + 11` of the packed sequence, lowest first.
pub open spec fn is_channel(bytes: Seq<u8>, index: int, value: u16) -> bool {
    &&& value < 2048
    &&& forall|j: u16| j < 11 ==> (#[trigger] ((value >> j) & 1u16) == 1u16 <==> packed_bit(
        bytes,
        11 * index + j,
    ))
}

proof fn lemma_window_bit(b0: u8, b1: u8, b2: u8, s: u32, j: u16)
    by (bit_vector)
    requires
        s < 8,
        j < 11,
    ensures
        ({
            let w = (b0 as u32) | ((b1 as u32) << 8u32) | ((b2 as u32) << 16u32);
            let r = ((w >> s) & 0x7FFu32) as u16;
            &&& r < 2048
            &&& (((r >> j) & 1u16) == 1u16 <==> (if (s + j as u32) < 8 {
                (b0 >> ((s + j as u32) as u8)) & 1u8 == 1u8
            } else if (s + j as u32) < 16 {
                (b1 >> ((s + j as u32 - 8) as u8)) & 1u8 == 1u8
            } else {
                (b2 >> ((s + j as u32 - 16) as u8)) & 1u8 == 1u8
            }))
        }),
{
}

impl RcChannelsPacked<[u8; 22]> {
    /// Channel `index`, read from bits `11 * index ..= 11 * index + 10`.
    pub fn channel(&self, index: usize) -> (r: u16)
        requires
            index < 16,
        ensures
            is_channel(self.0@, index as int, r),
    {
        let bit = 11 * index;
        let j0 = bit / 8;
        let s = (bit % 8) as u32;
        let b0 = self.0[j0];
        let b1 = if j0 + 1 < 22 { self.0[j0 + 1] } else { 0 };
        let b2 = if j0 + 2 < 22 { self.0[j0 + 2] } else { 0 };
        let w = (b0 as u32) | ((b1 as u32) << 8u32) | ((b2 as u32) << 16u32);
        let r = ((w >> s) & 0x7FFu32) as u16;
        proof {
            let bytes = self.0@;
            assert forall|j: u16| j < 11 implies (#[trigger] ((r >> j) & 1u16) == 1u16
                <==> packed_bit(bytes, 11 * index + j)) by {
                lemma_window_bit(b0, b1, b2, s, j);
                let i = 11 * index + j;
                assert(i / 8 == j0 + (s + j) / 8);
                assert(i % 8 == (s + j) % 8);
                if s + j >= 16 {
                    assert(j0 + 2 < 22);
                }
            }
            lemma_window_bit(b0, b1, b2, s, 0);
        }
        r
    }

    /// All sixteen channel values, in order.
    pub fn unpack(&self) -> (r: [u16; 16])
        ensures
            forall|k: int| 0 <= k < 16 ==> is_channel(self.0@, k, #[trigger] r@[k]),
    {
        let r = [
            self.channel(0),
            self.channel(1),
            self.channel(2),
            self.channel(3),
            self.channel(4),
            self.channel(5),
            self.channel(6),
            self.channel(7),
            self.channel(8),
            self.channel(9),
            self.channel(10),
            self.channel(11),
            self.channel(12),
            self.channel(13),
            self.channel(14),
            self.channel(15),
        ];
        r
    }
}

} // verus!
