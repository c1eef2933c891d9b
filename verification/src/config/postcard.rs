//! Encoding of stored configuration values in the postcard wire format.
use vstd::prelude::*;
use vstd::string::StringSliceAdditionalSpecFns;

verus! {

/// Tag byte written before each stored value.
#[derive(Debug, Clone, Copy, PartialEq, Eq, Structural)]
pub enum Kind {
    Boolean,
    String,
    Unsigned,
    Signed,
    Float,
    Struct,
}

/// The tag byte of each kind of stored value.
pub open spec fn kind_tag(k: Kind) -> u8 {
    match k {
        Kind::Boolean => 0,
        Kind::String => 1,
        Kind::Unsigned => 2,
        Kind::Signed => 3,
        Kind::Float => 4,
        Kind::Struct => 5,
    }
}

impl Kind {
    /// The tag byte of this kind.
    pub fn tag(self) -> (r: u8)
        ensures
            r == kind_tag(self),
    {
        match self {
            Kind::Boolean => 0,
            Kind::String => 1,
            Kind::Unsigned => 2,
            Kind::Signed => 3,
            Kind::Float => 4,
            Kind::Struct => 5,
        }
    }
}

/// Variable length encoding of an unsigned integer: seven bits per byte,
/// least significant group first, the top bit set on all but the last byte.
pub open spec fn varuint(x: nat) -> Seq<u8>
    decreases x,
{
    if x <= 0x7F {
        seq![x as u8]
    } else {
        seq![(0x80 + x % 128) as u8] + varuint(x / 128)
    }
}

/// Decodes a variable length unsigned integer from the start of `bytes`:
/// (value, number of bytes).
pub open spec fn varuint_decode(bytes: Seq<u8>) -> (nat, nat)
    decreases bytes.len(),
{
    if bytes.len() == 0 {
        (0, 0)
    } else if bytes[0] < 0x80 {
        (bytes[0] as nat, 1)
    } else {
        let (v, n) = varuint_decode(bytes.drop_first());
        ((bytes[0] - 0x80 + 128 * v) as nat, n + 1)
    }
}

/// Zig-zag mapping of signed integers onto unsigned ones: 0, -1, 1, -2, …
/// become 0, 1, 2, 3, …
pub open spec fn zigzag(x: int) -> nat {
    if x >= 0 {
        (2 * x) as nat
    } else {
        (-2 * x - 1) as nat
    }
}

/// Decoding a varuint gives back the value that was encoded, and how many
/// bytes it took, whatever follows it.
pub proof fn lemma_varuint_roundtrip(x: nat, rest: Seq<u8>)
    ensures
        varuint_decode(varuint(x) + rest) == (x, varuint(x).len()),
    decreases x,
{
    if x > 0x7F {
        lemma_varuint_roundtrip(x / 128, rest);
        let s = varuint(x) + rest;
        assert(s.drop_first() =~= varuint(x / 128) + rest);
    } else {
        assert((varuint(x) + rest)[0] == x as u8);
    }
}

/// A buffer that stored values are written to.
#[derive(Debug)]
pub struct Postcard(pub Vec<u8>);

proof fn lemma_varuint_step(x: usize)
    by (bit_vector)
    requires
        x > 0x7F,
    ensures
        (0x80u8 | ((x as u8) & 0x7Fu8)) == (0x80 + x % 128) as u8,
        x >> 7usize == x / 128,
{
}

impl Postcard {
    fn write_varuint(&mut self, x: usize)
        ensures
            final(self).0@ == old(self).0@ + varuint(x as nat),
    {
        let mut x = x;
        let ghost x0 = x;
        let ghost b0 = self.0@;
        while x > 0x7F
            invariant
                b0 + varuint(x0 as nat) == self.0@ + varuint(x as nat),
            decreases x,
        {
            proof {
                lemma_varuint_step(x);
                assert(varuint(x as nat) =~= seq![(0x80 + x % 128) as u8] + varuint((x / 128) as nat));
            }
            self.0.push(0x80 | ((x as u8) & 0x7F));
            x = x >> 7;
            proof {
                assert(b0 + varuint(x0 as nat) =~= self.0@ + varuint(x as nat));
            }
        }
        self.0.push(x as u8);
        assert(self.0@ =~= b0 + varuint(x0 as nat));
    }

    fn write_varint(&mut self, x: isize)
        ensures
            final(self).0@ == old(self).0@ + varuint(zigzag(x as int)),
    {
        let sh: u32 = isize::BITS - 1;
        let z = ((x << 1u32) ^ (x >> sh)) as usize;
        assert(((((x << 1u32) ^ (x >> sh)) as usize) as int) == if x >= 0 {
            2 * x
        } else {
            -2 * x - 1
        }) by (bit_vector)
            requires
                sh == usize::BITS - 1,
        ;
        self.write_varuint(z);
    }

    fn write_str(&mut self, s: &str)
        ensures
            final(self).0@ == old(self).0@ + varuint(s.spec_bytes().len()) + s.spec_bytes(),
    {
        let bytes = s.as_bytes();
        self.write_varuint(bytes.len());
        let ghost b1 = self.0@;
        let mut i: usize = 0;
        while i < bytes.len()
            invariant
                i <= bytes@.len(),
                self.0@ == b1 + bytes@.subrange(0, i as int),
            decreases bytes@.len() - i,
        {
            self.0.push(bytes[i]);
            i = i + 1;
            assert(self.0@ =~= b1 + bytes@.subrange(0, i as int));
        }
        assert(bytes@.subrange(0, bytes@.len() as int) =~= bytes@);
    }

    /// Writes a boolean value.
    pub fn boolean(&mut self, b: bool)
        ensures
            final(self).0@ == old(self).0@ + seq![kind_tag(Kind::Boolean), if b { 1u8 } else { 0u8 }],
    {
        self.0.push(Kind::Boolean.tag());
        self.0.push(if b { 1 } else { 0 });
        assert(self.0@ =~= old(self).0@ + seq![kind_tag(Kind::Boolean), if b { 1u8 } else { 0u8 }]);
    }

    /// Writes a string value.
    pub fn string(&mut self, s: &str)
        ensures
            final(self).0@ == old(self).0@ + seq![kind_tag(Kind::String)] + varuint(s.spec_bytes().len()) + s.spec_bytes(),
    {
        self.0.push(Kind::String.tag());
        self.write_str(s);
        assert(self.0@ =~= old(self).0@ + seq![kind_tag(Kind::String)] + varuint(s.spec_bytes().len()) + s.spec_bytes());
    }

    /// Writes an unsigned value.
    pub fn unsigned(&mut self, u: u32)
        ensures
            final(self).0@ == old(self).0@ + seq![kind_tag(Kind::Unsigned)] + varuint(u as nat),
    {
        self.0.push(Kind::Unsigned.tag());
        self.write_varuint(u as usize);
        assert(self.0@ =~= old(self).0@ + seq![kind_tag(Kind::Unsigned)] + varuint(u as nat));
    }

    /// Writes a signed value.
    pub fn signed(&mut self, i: i32)
        ensures
            final(self).0@ == old(self).0@ + seq![kind_tag(Kind::Signed)] + varuint(zigzag(i as int)),
    {
        self.0.push(Kind::Signed.tag());
        self.write_varint(i as isize);
        assert(self.0@ =~= old(self).0@ + seq![kind_tag(Kind::Signed)] + varuint(zigzag(i as int)));
    }

    /// Writes a float value, given as the bits of an `f32`, as its four
    /// little-endian bytes.
    pub fn float(&mut self, bits: u32)
        ensures
            final(self).0@ == old(self).0@ + seq![kind_tag(Kind::Float)] + crate::filesystem::u32_le_bytes(bits),
    {
        self.0.push(Kind::Float.tag());
        self.0.push((bits % 256) as u8);
        self.0.push(((bits / 256) % 256) as u8);
        self.0.push(((bits / 65536) % 256) as u8);
        self.0.push((bits / 16777216) as u8);
        assert(self.0@ =~= old(self).0@ + seq![kind_tag(Kind::Float)] + crate::filesystem::u32_le_bytes(bits));
    }

    /// Starts a structure of `fields` fields.
    pub fn structure(&mut self, fields: usize)
        ensures
            final(self).0@ == old(self).0@ + seq![kind_tag(Kind::Struct)] + varuint(fields as nat),
    {
        self.0.push(Kind::Struct.tag());
        self.write_varuint(fields);
        assert(self.0@ =~= old(self).0@ + seq![kind_tag(Kind::Struct)] + varuint(fields as nat));
    }

    /// Writes the name of a structure field; its value follows.
    pub fn field(&mut self, name: &str)
        ensures
            final(self).0@ == old(self).0@ + varuint(name.spec_bytes().len()) + name.spec_bytes(),
    {
        self.write_str(name);
    }
}

} // verus!
