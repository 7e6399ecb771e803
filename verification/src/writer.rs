//! The sequential string writer: it places a string's bytes in the shared
//! memory and says, in a reference, where they lie.

use crate::reference::{
    new_reference, reference_word, word_offset, word_size, word_type, MarshalError, SIZE_LIMIT,
    STRING_TAG,
};
use vstd::prelude::*;
use vstd::string::*;

verus! {

/// The bytes `offset .. offset + len` all lie inside a memory of `memory_len`
/// bytes. A range without bytes lies inside any memory.
pub open spec fn region_fits(memory_len: int, offset: int, len: int) -> bool {
    len == 0 || offset + len <= memory_len
}

/// The memory after `bytes` were placed at `offset`: those bytes there, in
/// their order and with nothing between or after them, and every other byte
/// as it was.
pub open spec fn placed(memory: Seq<u8>, offset: int, bytes: Seq<u8>) -> Seq<u8> {
    Seq::new(
        memory.len(),
        |i: int|
            if offset <= i < offset + bytes.len() {
                bytes[i - offset]
            } else {
                memory[i]
            },
    )
}

/// Why a payload of `len` bytes has no size field, if it has none: the length
/// does not fit the 32 bits that lengths are reported in, or it fits them and
/// not the 28 bits of the field.
pub open spec fn size_refusal(len: int) -> Option<MarshalError> {
    if len > u32::MAX {
        Some(MarshalError::LengthUnrepresentable)
    } else if len >= SIZE_LIMIT {
        Some(MarshalError::SizeExceedsLimit)
    } else {
        None
    }
}

/// What stands in the way of a payload of `len` bytes at `offset`, if anything
/// does. The length is judged first, then the place.
pub open spec fn write_refusal(memory_len: int, offset: int, len: int) -> Option<MarshalError> {
    match size_refusal(len) {
        Some(e) => Some(e),
        None => if region_fits(memory_len, offset, len) {
            None
        } else {
            Some(MarshalError::OutOfBounds)
        },
    }
}

/// The size field for a payload of `len` bytes. A length that is too large is
/// refused: none is cut down or replaced.
pub fn payload_size(len: usize) -> (res: Result<u32, MarshalError>)
    ensures
        match res {
            Ok(size) => size_refusal(len as int) is None && size as int == len as int,
            Err(e) => size_refusal(len as int) == Some(e),
        },
{
    if len > 0xFFFF_FFFF {
        Err(MarshalError::LengthUnrepresentable)
    } else if len >= 0x1000_0000 {
        Err(MarshalError::SizeExceedsLimit)
    } else {
        Ok(len as u32)
    }
}

/// Copies the bytes of `data` into `memory` from `offset` on, with no gap, no
/// padding and no terminator, and returns the reference to them together with
/// the number of bytes written, so that the next write can follow at once.
/// A write that is refused leaves the memory as it was.
pub fn write_string(memory: &mut Vec<u8>, offset: u32, data: &str) -> (res: Result<
    (u64, u32),
    MarshalError,
>)
    ensures
        final(memory)@.len() == old(memory)@.len(),
        data.spec_bytes().len() == 0 ==> res is Ok && final(memory)@ == old(memory)@,
        match res {
            Ok((word, written)) => {
                &&& write_refusal(
                    old(memory)@.len() as int,
                    offset as int,
                    data.spec_bytes().len() as int,
                ) is None
                &&& written as int == data.spec_bytes().len()
                &&& word as int == reference_word(STRING_TAG, offset, written)
                &&& word_type(word) == STRING_TAG as int
                &&& word_offset(word) == offset as int
                &&& word_size(word) == written as int
                &&& final(memory)@ == placed(old(memory)@, offset as int, data.spec_bytes())
            },
            Err(e) => {
                &&& write_refusal(
                    old(memory)@.len() as int,
                    offset as int,
                    data.spec_bytes().len() as int,
                ) == Some(e)
                &&& final(memory)@ == old(memory)@
            },
        },
{
    let bytes: &[u8] = data.as_bytes();
    let len: usize = bytes.len();
    let size: u32 = match payload_size(len) {
        Ok(size) => size,
        Err(e) => {
            return Err(e);
        },
    };
    let memory_len: usize = memory.len();
    if len != 0 && (memory_len < len || offset as u64 > (memory_len - len) as u64) {
        return Err(MarshalError::OutOfBounds);
    }
    let ghost before: Seq<u8> = memory@;
    let mut i: usize = 0;
    proof {
        assert(memory@ =~= placed(before, offset as int, bytes@.take(0)));
    }
    while i < len
        invariant
            0 <= i <= len,
            len == bytes@.len(),
            len == 0 || offset as int + len as int <= memory_len as int,
            memory@.len() == memory_len as int,
            memory@ == placed(before, offset as int, bytes@.take(i as int)),
        decreases len - i,
    {
        let at: usize = offset as usize + i;
        memory.set(at, bytes[i]);
        proof {
            assert(bytes@.take(i as int + 1) == bytes@.take(i as int).push(bytes@[i as int]));
            assert(memory@ =~= placed(before, offset as int, bytes@.take(i as int + 1)));
        }
        i = i + 1;
    }
    proof {
        assert(bytes@.take(len as int) == bytes@);
        lemma_empty_write_changes_nothing(before, offset as int);
    }
    Ok((new_reference(STRING_TAG, offset, size), size))
}

/// A write of no bytes is owed at every offset, and changes no byte.
pub proof fn lemma_empty_write_changes_nothing(memory: Seq<u8>, offset: int)
    ensures
        write_refusal(memory.len() as int, offset, 0) is None,
        placed(memory, offset, Seq::<u8>::empty()) == memory,
{
    assert(placed(memory, offset, Seq::<u8>::empty()) =~= memory);
}

/// What a write leaves behind, byte by byte: the payload at its place, and
/// every byte outside `offset .. offset + bytes.len()` as it was.
pub proof fn lemma_write_touches_its_region_only(memory: Seq<u8>, offset: int, bytes: Seq<u8>)
    requires
        0 <= offset,
        region_fits(memory.len() as int, offset, bytes.len() as int),
    ensures
        placed(memory, offset, bytes).len() == memory.len(),
        forall|j: int|
            0 <= j < bytes.len() ==> #[trigger] placed(memory, offset, bytes)[offset + j]
                == bytes[j],
        forall|i: int|
            0 <= i < memory.len() && !(offset <= i < offset + bytes.len()) ==> #[trigger] placed(
                memory,
                offset,
                bytes,
            )[i] == memory[i],
        bytes.len() > 0 ==> placed(memory, offset, bytes).subrange(
            offset,
            offset + bytes.len(),
        ) == bytes,
{
    if bytes.len() > 0 {
        assert(placed(memory, offset, bytes).subrange(offset, offset + bytes.len()) =~= bytes);
    }
}

/// Sequential writes compose: a second write that begins where the first one
/// ended leaves the memory as one write of both payloads, the second after the
/// first, would. The two regions share no byte and leave none between them.
pub proof fn lemma_sequential_writes_compose(
    memory: Seq<u8>,
    offset: int,
    first: Seq<u8>,
    second: Seq<u8>,
)
    requires
        0 <= offset,
    ensures
        placed(placed(memory, offset, first), offset + first.len(), second) == placed(
            memory,
            offset,
            first + second,
        ),
        forall|j: int|
            0 <= j < first.len() && offset + j < memory.len() ==> #[trigger] placed(
                placed(memory, offset, first),
                offset + first.len(),
                second,
            )[offset + j] == first[j],
        forall|j: int|
            0 <= j < second.len() && offset + first.len() + j < memory.len() ==> #[trigger] placed(
                placed(memory, offset, first),
                offset + first.len(),
                second,
            )[offset + first.len() + j] == second[j],
        write_refusal(memory.len() as int, offset, (first + second).len() as int) is None
            ==> write_refusal(memory.len() as int, offset, first.len() as int) is None
            && write_refusal(memory.len() as int, offset + first.len(), second.len() as int)
            is None,
{
    assert(placed(placed(memory, offset, first), offset + first.len(), second) =~= placed(
        memory,
        offset,
        first + second,
    ));
}

} // verus!
