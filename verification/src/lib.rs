//! Marshalling of typed, variable-length values from a guest to its host
//! through one shared linear memory: a packed 64-bit reference says where a
//! value lies, a writer places strings one after another, and a bridge turns
//! one log record into the two references that the host is called with.

pub mod random;
pub mod reference;
pub mod writer;
