//! Flat, fixed-size, byte-addressable memory with little-endian multi-byte
//! accesses.
//!
//! The model of a [`Memory`] is the sequence of its bytes (`mem@`). Loads and
//! stores are described by [`load_value`] and [`write_le`] over such sequences.

use vstd::prelude::*;

verus! {

/// Why a memory operation was refused.
#[derive(Clone, Copy, Debug, PartialEq, Eq, Structural)]
pub enum MemoryError {
    /// A memory of zero bytes was asked for.
    InvalidSize,
    /// The access does not lie entirely inside the memory.
    OutOfBounds,
}

/// Number of bytes moved by one access.
#[derive(Clone, Copy, Debug, PartialEq, Eq, Structural)]
pub enum Width {
    /// One byte.
    Byte,
    /// Two bytes.
    Half,
    /// Four bytes.
    Word,
}

/// How a loaded value narrower than a register is widened.
#[derive(Clone, Copy, Debug, PartialEq, Eq, Structural)]
pub enum Signedness {
    /// The top bit of the loaded value is copied into the upper bits.
    Signed,
    /// The upper bits are zero.
    Unsigned,
}

impl Width {
    /// Number of bytes of an access of this width.
    pub open spec fn bytes(self) -> int {
        match self {
            Width::Byte => 1,
            Width::Half => 2,
            Width::Word => 4,
        }
    }

    /// Number of distinct values of this width: `256 ^ bytes`.
    pub open spec fn range(self) -> int {
        match self {
            Width::Byte => 0x100,
            Width::Half => 0x1_0000,
            Width::Word => 0x1_0000_0000,
        }
    }

    /// Number of bytes of an access of this width.
    pub fn size(self) -> (n: usize)
        ensures
            n == self.bytes(),
    {
        match self {
            Width::Byte => 1,
            Width::Half => 2,
            Width::Word => 4,
        }
    }
}

/// An access of `width` bytes at `address` lies inside a memory of `len` bytes.
pub open spec fn in_bounds(len: nat, address: int, width: Width) -> bool {
    0 <= address && address + width.bytes() <= len
}

/// The unsigned number that the `width` bytes at `address` spell, least
/// significant byte first.
pub open spec fn read_le(bytes: Seq<u8>, address: int, width: Width) -> int {
    match width {
        Width::Byte => bytes[address] as int,
        Width::Half => bytes[address] + 0x100 * bytes[address + 1],
        Width::Word => bytes[address] + 0x100 * bytes[address + 1] + 0x1_0000 * bytes[address + 2]
            + 0x100_0000 * bytes[address + 3],
    }
}

/// Widens a raw value of `width` bytes, `0 <= raw < width.range()`, to a
/// 32-bit register value. A signed value is read in two's complement and
/// stored in two's complement again.
pub open spec fn extend(raw: int, width: Width, signedness: Signedness) -> u32 {
    if signedness == Signedness::Signed && 2 * raw >= width.range() {
        (raw - width.range() + 0x1_0000_0000) as u32
    } else {
        raw as u32
    }
}

/// What a load of `width` bytes at `address` yields.
pub open spec fn load_value(
    bytes: Seq<u8>,
    address: int,
    width: Width,
    signedness: Signedness,
) -> u32 {
    extend(read_le(bytes, address, width), width, signedness)
}

/// Byte number `index` of `value`, byte 0 being the least significant.
pub open spec fn le_byte(value: u32, index: int) -> u8 {
    if index == 0 {
        (value % 0x100) as u8
    } else if index == 1 {
        ((value / 0x100) % 0x100) as u8
    } else if index == 2 {
        ((value / 0x1_0000) % 0x100) as u8
    } else {
        ((value / 0x100_0000) % 0x100) as u8
    }
}

/// The memory contents after the low `width` bytes of `value` were written at
/// `address`, least significant byte first. Every other byte is kept.
pub open spec fn write_le(bytes: Seq<u8>, address: int, value: u32, width: Width) -> Seq<u8> {
    Seq::new(
        bytes.len(),
        |i: int|
            if address <= i < address + width.bytes() {
                le_byte(value, i - address)
            } else {
                bytes[i]
            },
    )
}

/// `value` survives a store of `width` bytes followed by a load with the given
/// signedness: it is the widening of some `width`-byte value.
pub open spec fn representable(value: u32, width: Width, signedness: Signedness) -> bool {
    match signedness {
        Signedness::Unsigned => value < width.range(),
        Signedness::Signed => 2 * value < width.range() || 2 * (0x1_0000_0000 - value)
            <= width.range(),
    }
}

/// A load reads back the low `width` bytes of what a store at the same place
/// wrote, whatever the memory held before.
pub proof fn lemma_read_after_write(bytes: Seq<u8>, address: int, value: u32, width: Width)
    requires
        in_bounds(bytes.len(), address, width),
    ensures
        read_le(write_le(bytes, address, value, width), address, width) == (value as int)
            % width.range(),
{
    let after = write_le(bytes, address, value, width);
    assert(after[address] == le_byte(value, 0));
    if width != Width::Byte {
        assert(after[address + 1] == le_byte(value, 1));
    }
    if width == Width::Word {
        assert(after[address + 2] == le_byte(value, 2));
        assert(after[address + 3] == le_byte(value, 3));
    }
}

/// Memory round trip: a value that fits the width, stored and loaded again
/// with the matching signedness, comes back unchanged.
pub proof fn lemma_store_load_round_trip(
    bytes: Seq<u8>,
    address: int,
    value: u32,
    width: Width,
    signedness: Signedness,
)
    requires
        in_bounds(bytes.len(), address, width),
        representable(value, width, signedness),
    ensures
        load_value(write_le(bytes, address, value, width), address, width, signedness) == value,
{
    lemma_read_after_write(bytes, address, value, width);
}

/// A store changes no byte outside the range it writes.
pub proof fn lemma_write_keeps_other_bytes(
    bytes: Seq<u8>,
    address: int,
    value: u32,
    width: Width,
    other: int,
)
    requires
        0 <= other < bytes.len(),
        other < address || address + width.bytes() <= other,
    ensures
        write_le(bytes, address, value, width).len() == bytes.len(),
        write_le(bytes, address, value, width)[other] == bytes[other],
{
}

/// Bytes put side by side with shifts spell the sum of their place values,
/// and filling the upper bits with ones adds those bits.
proof fn lemma_bytes_side_by_side(b0: u32, b1: u32, b2: u32, b3: u32)
    by (bit_vector)
    requires
        b0 < 0x100,
        b1 < 0x100,
        b2 < 0x100,
        b3 < 0x100,
    ensures
        (b0 | (b1 << 8u32)) == b0 + 0x100 * b1,
        (b0 | (b1 << 8u32) | (b2 << 16u32) | (b3 << 24u32)) == b0 + 0x100 * b1 + 0x1_0000 * b2
            + 0x100_0000 * b3,
        (b0 | 0xffff_ff00u32) == b0 + 0xffff_ff00u32,
        ((b0 | (b1 << 8u32)) | 0xffff_0000u32) == b0 + 0x100 * b1 + 0xffff_0000u32,
{
}

/// Shifting and masking cuts out the bytes of a value.
proof fn lemma_bytes_of_value(value: u32)
    by (bit_vector)
    ensures
        (value & 0xff) == value % 0x100,
        ((value >> 8u32) & 0xff) == (value / 0x100) % 0x100,
        ((value >> 16u32) & 0xff) == (value / 0x1_0000) % 0x100,
        ((value >> 24u32) & 0xff) == (value / 0x100_0000) % 0x100,
{
}

/// A fixed-size byte store. Its view is the sequence of its bytes.
#[derive(Debug)]
pub struct Memory {
    bytes: Vec<u8>,
}

impl View for Memory {
    type V = Seq<u8>;

    closed spec fn view(&self) -> Seq<u8> {
        self.bytes@
    }
}

impl Memory {
    #[verifier::type_invariant]
    spec fn nonempty(self) -> bool {
        self.bytes.len() > 0
    }

    /// Creates a memory of `size` zero bytes. A size of zero is refused.
    pub fn new(size: usize) -> (result: Result<Memory, MemoryError>)
        ensures
            size == 0 ==> result == Err::<Memory, MemoryError>(MemoryError::InvalidSize),
            size > 0 ==> result is Ok && result->Ok_0@ == Seq::new(size as nat, |i: int| 0u8),
    {
        if size == 0 {
            return Err(MemoryError::InvalidSize);
        }
        let bytes = vec![0u8; size];
        assert(bytes@ =~= Seq::new(size as nat, |i: int| 0u8));
        Ok(Memory { bytes })
    }

    /// Number of bytes of this memory. It never changes and is never zero.
    pub fn size(&self) -> (n: usize)
        ensures
            n == self@.len(),
            n > 0,
    {
        proof {
            use_type_invariant(self);
        }
        self.bytes.len()
    }

    /// Tells whether an access of `width` bytes at `address` lies inside this
    /// memory.
    pub fn contains(&self, address: usize, width: Width) -> (inside: bool)
        ensures
            inside == in_bounds(self@.len(), address as int, width),
    {
        let len = self.bytes.len();
        let n = width.size();
        n <= len && address <= len - n
    }

    /// Loads the `width` bytes at `address`, least significant byte first,
    /// widened to 32 bits as `signedness` asks. An access that is not entirely
    /// inside the memory is refused.
    pub fn load(&self, address: usize, width: Width, signedness: Signedness) -> (result: Result<
        u32,
        MemoryError,
    >)
        ensures
            in_bounds(self@.len(), address as int, width) ==> result == Ok::<u32, MemoryError>(
                load_value(self@, address as int, width, signedness),
            ),
            !in_bounds(self@.len(), address as int, width) ==> result == Err::<u32, MemoryError>(
                MemoryError::OutOfBounds,
            ),
    {
        if !self.contains(address, width) {
            return Err(MemoryError::OutOfBounds);
        }
        assert(address + width.bytes() <= self.bytes.len());
        let signed = match signedness {
            Signedness::Signed => true,
            Signedness::Unsigned => false,
        };
        match width {
            Width::Byte => {
                let b0: u32 = self.bytes[address] as u32;
                proof {
                    lemma_bytes_side_by_side(b0, 0, 0, 0);
                }
                if signed && b0 >= 0x80 {
                    Ok(b0 | 0xffff_ff00u32)
                } else {
                    Ok(b0)
                }
            },
            Width::Half => {
                let b0: u32 = self.bytes[address] as u32;
                let b1: u32 = self.bytes[address + 1] as u32;
                proof {
                    lemma_bytes_side_by_side(b0, b1, 0, 0);
                }
                let raw: u32 = b0 | (b1 << 8);
                if signed && raw >= 0x8000 {
                    Ok(raw | 0xffff_0000u32)
                } else {
                    Ok(raw)
                }
            },
            Width::Word => {
                let b0: u32 = self.bytes[address] as u32;
                let b1: u32 = self.bytes[address + 1] as u32;
                let b2: u32 = self.bytes[address + 2] as u32;
                let b3: u32 = self.bytes[address + 3] as u32;
                proof {
                    lemma_bytes_side_by_side(b0, b1, b2, b3);
                }
                Ok(b0 | (b1 << 8) | (b2 << 16) | (b3 << 24))
            },
        }
    }

    /// Stores the low `width` bytes of `value` at `address`, least significant
    /// byte first. An access that is not entirely inside the memory is refused
    /// and changes nothing.
    pub fn store(&mut self, address: usize, value: u32, width: Width) -> (result: Result<
        (),
        MemoryError,
    >)
        ensures
            final(self)@.len() == old(self)@.len(),
            in_bounds(old(self)@.len(), address as int, width) ==> result == Ok::<
                (),
                MemoryError,
            >(()) && final(self)@ == write_le(old(self)@, address as int, value, width),
            !in_bounds(old(self)@.len(), address as int, width) ==> result == Err::<
                (),
                MemoryError,
            >(MemoryError::OutOfBounds) && final(self)@ == old(self)@,
    {
        proof {
            use_type_invariant(&*self);
        }
        if !self.contains(address, width) {
            return Err(MemoryError::OutOfBounds);
        }
        assert(address + width.bytes() <= self.bytes.len());
        proof {
            lemma_bytes_of_value(value);
        }
        self.bytes[address] = (value & 0xff) as u8;
        match width {
            Width::Byte => {},
            Width::Half => {
                self.bytes[address + 1] = ((value >> 8) & 0xff) as u8;
            },
            Width::Word => {
                self.bytes[address + 1] = ((value >> 8) & 0xff) as u8;
                self.bytes[address + 2] = ((value >> 16) & 0xff) as u8;
                self.bytes[address + 3] = ((value >> 24) & 0xff) as u8;
            },
        }
        assert(self.bytes@ =~= write_le(old(self)@, address as int, value, width));
        Ok(())
    }
}

} // verus!
