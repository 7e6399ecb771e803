//! The logger bridge: one log record, a severity level and a message, becomes
//! two strings in the shared memory, one right after the other, and the two
//! references that the host's log entry is called with.

use crate::reference::{
    reference_word, word_offset, word_size, word_type, MarshalError, STRING_TAG,
};
use crate::writer::{placed, write_refusal, write_string};
use vstd::prelude::*;
use vstd::string::*;

verus! {

/// Where the bridge begins to write. Byte 0 of the shared memory is reserved.
pub const LOG_BASE_OFFSET: u32 = 1;

/// The one call that is owed to the host's log entry: the reference to the
/// level first, then the reference to the message.
#[derive(Clone, Copy, Debug, PartialEq, Eq, Structural)]
pub struct HostCall {
    /// The reference to the severity level.
    pub level: u64,
    /// The reference to the message.
    pub message: u64,
}

/// What stands in the way of a record whose level takes `level_len` bytes and
/// whose message takes `message_len`, if anything does. The level is judged
/// first.
pub open spec fn log_refusal(memory_len: int, level_len: int, message_len: int) -> Option<
    MarshalError,
> {
    match write_refusal(memory_len, LOG_BASE_OFFSET as int, level_len) {
        Some(e) => Some(e),
        None => write_refusal(memory_len, LOG_BASE_OFFSET as int + level_len, message_len),
    }
}

/// The bindings that a guest engine is given: its random-number function and
/// the logger bridge.
pub struct Random;

impl Random {
    /// Places `level` at `LOG_BASE_OFFSET` and `message` right after it, and
    /// returns the call that the host is owed. Where the level is refused,
    /// nothing is written; where the message is, the level's bytes stay in the
    /// memory, and no reference to them is handed out.
    pub fn javy_logger(memory: &mut Vec<u8>, level: &str, message: &str) -> (res: Result<
        HostCall,
        MarshalError,
    >)
        ensures
            final(memory)@.len() == old(memory)@.len(),
            match res {
                Ok(call) => {
                    &&& log_refusal(
                        old(memory)@.len() as int,
                        level.spec_bytes().len() as int,
                        message.spec_bytes().len() as int,
                    ) is None
                    &&& call.level as int == reference_word(
                        STRING_TAG,
                        LOG_BASE_OFFSET,
                        level.spec_bytes().len() as u32,
                    )
                    &&& call.message as int == reference_word(
                        STRING_TAG,
                        (LOG_BASE_OFFSET + level.spec_bytes().len()) as u32,
                        message.spec_bytes().len() as u32,
                    )
                    &&& word_type(call.level) == STRING_TAG as int
                    &&& word_offset(call.level) == LOG_BASE_OFFSET as int
                    &&& word_size(call.level) == level.spec_bytes().len()
                    &&& word_type(call.message) == STRING_TAG as int
                    &&& word_offset(call.message) == word_offset(call.level) + word_size(
                        call.level,
                    )
                    &&& word_size(call.message) == message.spec_bytes().len()
                    &&& final(memory)@ == placed(
                        old(memory)@,
                        LOG_BASE_OFFSET as int,
                        level.spec_bytes() + message.spec_bytes(),
                    )
                },
                Err(e) => {
                    &&& log_refusal(
                        old(memory)@.len() as int,
                        level.spec_bytes().len() as int,
                        message.spec_bytes().len() as int,
                    ) == Some(e)
                    &&& final(memory)@ == if write_refusal(
                        old(memory)@.len() as int,
                        LOG_BASE_OFFSET as int,
                        level.spec_bytes().len() as int,
                    ) is Some {
                        old(memory)@
                    } else {
                        placed(old(memory)@, LOG_BASE_OFFSET as int, level.spec_bytes())
                    }
                },
            },
    {
        let (level_ref, level_size) = match write_string(memory, LOG_BASE_OFFSET, level) {
            Ok(written) => written,
            Err(e) => {
                return Err(e);
            },
        };
        let (message_ref, _) = match write_string(memory, LOG_BASE_OFFSET + level_size, message) {
            Ok(written) => written,
            Err(e) => {
                return Err(e);
            },
        };
        proof {
            crate::writer::lemma_sequential_writes_compose(
                old(memory)@,
                LOG_BASE_OFFSET as int,
                level.spec_bytes(),
                message.spec_bytes(),
            );
        }
        Ok(HostCall { level: level_ref, message: message_ref })
    }
}

} // verus!
