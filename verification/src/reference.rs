//! The packed reference: `[ type:4 ][ offset:32 ][ size:28 ]`, most
//! significant bit first, in one 64-bit word.

use vstd::prelude::*;

verus! {

/// The first size that no reference can carry: sizes take 28 bits.
pub const SIZE_LIMIT: u32 = 0x1000_0000;

/// The tag of a UTF-8 string.
pub const STRING_TAG: u8 = 5;

/// The word that stands for a value of kind `typ`, `size` bytes long, that
/// begins at byte `offset`. Only the low four bits of `typ` have room.
pub open spec fn reference_word(typ: u8, offset: u32, size: u32) -> int {
    (typ as int % 16) * 0x1000_0000_0000_0000 + (offset as int) * 0x1000_0000 + (size as int)
}

/// The top four bits of a word: the kind of the value.
pub open spec fn word_type(word: u64) -> int {
    word as int / 0x1000_0000_0000_0000
}

/// The thirty-two bits below the kind: where the value begins.
pub open spec fn word_offset(word: u64) -> int {
    (word as int / 0x1000_0000) % 0x1_0000_0000
}

/// The low twenty-eight bits: how many bytes the value takes.
pub open spec fn word_size(word: u64) -> int {
    word as int % 0x1000_0000
}

/// Packs the three fields into one word.
pub fn new_reference(typ: u8, offset: u32, size: u32) -> (word: u64)
    requires
        size < SIZE_LIMIT,
    ensures
        word as int == reference_word(typ, offset, size),
        word_type(word) == typ as int % 16,
        word_offset(word) == offset as int,
        word_size(word) == size as int,
{
    let word: u64 = ((typ as u64) << 60) | ((offset as u64) << 28) | (size as u64 & 0xFFFFFFF);
    proof {
        let t: u64 = typ as u64;
        let o: u64 = offset as u64;
        let s: u64 = size as u64;
        assert(((t << 60) | (o << 28) | (s & 0xFFFFFFF)) == (t % 16) * 0x1000_0000_0000_0000 + o
            * 0x1000_0000 + s) by (bit_vector)
            requires
                t < 256,
                o < 0x1_0000_0000,
                s < 0x1000_0000,
        ;
        lemma_fields_of_word(typ, offset, size, word);
    }
    word
}

/// A packed word has room in 64 bits, and in 63 where the kind is under 8, as
/// that of a string is: such a word is the same number signed and unsigned.
pub proof fn lemma_word_in_range(typ: u8, offset: u32, size: u32)
    requires
        size < SIZE_LIMIT,
    ensures
        0 <= reference_word(typ, offset, size) <= u64::MAX,
        typ % 16 < 8 ==> reference_word(typ, offset, size) <= i64::MAX,
{
}

/// Taking a packed word apart gives back the fields it was packed from: the
/// top four bits the kind, the next thirty-two the offset, the low
/// twenty-eight the size.
pub proof fn lemma_round_trip(typ: u8, offset: u32, size: u32)
    requires
        typ < 16,
        size < SIZE_LIMIT,
    ensures
        word_type(reference_word(typ, offset, size) as u64) == typ as int,
        word_offset(reference_word(typ, offset, size) as u64) == offset as int,
        word_size(reference_word(typ, offset, size) as u64) == size as int,
{
    lemma_word_in_range(typ, offset, size);
    lemma_fields_of_word(typ, offset, size, reference_word(typ, offset, size) as u64);
}

/// The fields of a word that is known to be the packed form of `typ`, `offset`
/// and `size`. A kind of more than four bits leaves its low four.
proof fn lemma_fields_of_word(typ: u8, offset: u32, size: u32, word: u64)
    requires
        size < SIZE_LIMIT,
        word as int == reference_word(typ, offset, size),
    ensures
        word_type(word) == typ as int % 16,
        word_offset(word) == offset as int,
        word_size(word) == size as int,
{
    let t: int = typ as int % 16;
    let o: int = offset as int;
    let s: int = size as int;
    assert(word as int == (t * 0x1_0000_0000 + o) * 0x1000_0000 + s);
    assert(word as int / 0x1000_0000 == t * 0x1_0000_0000 + o && word as int % 0x1000_0000 == s)
        by (nonlinear_arith)
        requires
            word as int == (t * 0x1_0000_0000 + o) * 0x1000_0000 + s,
            0 <= s < 0x1000_0000,
    ;
    assert((t * 0x1_0000_0000 + o) % 0x1_0000_0000 == o) by (nonlinear_arith)
        requires
            0 <= o < 0x1_0000_0000,
    ;
    assert(word as int / 0x1000_0000_0000_0000 == t) by (nonlinear_arith)
        requires
            word as int == t * 0x1000_0000_0000_0000 + (o * 0x1000_0000 + s),
            0 <= o * 0x1000_0000 + s < 0x1000_0000_0000_0000,
    ;
}

/// Why a value could not be marshalled.
#[derive(Clone, Copy, Debug, PartialEq, Eq, Structural)]
pub enum MarshalError {
    /// The byte length has no place in the width that lengths are reported in.
    LengthUnrepresentable,
    /// The size is `SIZE_LIMIT` or more: 28 bits cannot hold it.
    SizeExceedsLimit,
    /// Some byte of the value would lie beyond the end of the shared memory.
    OutOfBounds,
}

/// A reference taken apart: the record that a packed word stands for.
#[derive(Clone, Copy, Debug, PartialEq, Eq, Structural)]
pub struct Reference {
    /// The kind of the value, in four bits.
    pub typ: u8,
    /// The byte at which the value begins.
    pub offset: u32,
    /// The number of bytes the value takes.
    pub size: u32,
}

impl Reference {
    /// Every field fits the bits that the packed word has for it.
    pub open spec fn wf(&self) -> bool {
        self.typ < 16 && self.size < SIZE_LIMIT
    }

    /// The packed word of this record.
    pub open spec fn word(&self) -> int {
        reference_word(self.typ, self.offset, self.size)
    }

    /// Packs the record, unless its size is too large for 28 bits: such a size
    /// is refused, never cut down.
    pub fn encode(&self) -> (res: Result<u64, MarshalError>)
        ensures
            self.size >= SIZE_LIMIT <==> res == Err::<u64, MarshalError>(
                MarshalError::SizeExceedsLimit,
            ),
            self.size < SIZE_LIMIT <==> res is Ok,
            res is Ok ==> res->Ok_0 as int == self.word(),
    {
        if self.size >= SIZE_LIMIT {
            Err(MarshalError::SizeExceedsLimit)
        } else {
            Ok(new_reference(self.typ, self.offset, self.size))
        }
    }

    /// Takes a word apart: the top four bits, the next thirty-two, the low
    /// twenty-eight.
    pub fn decode(word: u64) -> (r: Reference)
        ensures
            r.wf(),
            r.typ as int == word_type(word),
            r.offset as int == word_offset(word),
            r.size as int == word_size(word),
            r.word() == word as int,
    {
        let typ: u8 = (word >> 60) as u8;
        let offset: u32 = ((word >> 28) & 0xFFFF_FFFF) as u32;
        let size: u32 = (word & 0xFFF_FFFF) as u32;
        proof {
            assert(word >> 60 == word / 0x1000_0000_0000_0000 && word >> 60 < 16) by (bit_vector);
            assert((word >> 28) & 0xFFFF_FFFF == (word / 0x1000_0000) % 0x1_0000_0000 && (word
                >> 28) & 0xFFFF_FFFF < 0x1_0000_0000) by (bit_vector);
            assert(word & 0xFFF_FFFF == word % 0x1000_0000 && word & 0xFFF_FFFF < 0x1000_0000)
                by (bit_vector);
            lemma_word_is_its_fields(word);
        }
        Reference { typ, offset, size }
    }
}

/// A word is the sum of its three fields, each at its place.
pub proof fn lemma_word_is_its_fields(word: u64)
    ensures
        0 <= word_type(word) < 16,
        0 <= word_offset(word) < 0x1_0000_0000,
        0 <= word_size(word) < SIZE_LIMIT,
        word as int == word_type(word) * 0x1000_0000_0000_0000 + word_offset(word) * 0x1000_0000
            + word_size(word),
{
    let w: int = word as int;
    let q: int = w / 0x1000_0000;
    assert(w == q * 0x1000_0000 + w % 0x1000_0000 && 0 <= q < 0x10_0000_0000) by (nonlinear_arith)
        requires
            q == w / 0x1000_0000,
            0 <= w < 0x1_0000_0000_0000_0000,
    ;
    assert(q == (q / 0x1_0000_0000) * 0x1_0000_0000 + q % 0x1_0000_0000 && 0 <= q / 0x1_0000_0000
        < 16) by (nonlinear_arith)
        requires
            0 <= q < 0x10_0000_0000,
    ;
    assert(q / 0x1_0000_0000 == w / 0x1000_0000_0000_0000) by (nonlinear_arith)
        requires
            q == w / 0x1000_0000,
            0 <= w,
    ;
}

/// Two records that fit their bits and pack to one word are one record: the
/// word loses nothing.
pub proof fn lemma_word_determines_fields(a: Reference, b: Reference)
    requires
        a.wf(),
        b.wf(),
        a.word() == b.word(),
    ensures
        a == b,
{
    lemma_round_trip(a.typ, a.offset, a.size);
    lemma_round_trip(b.typ, b.offset, b.size);
}

} // verus!
