//! Definitions shared by the client and server sides: errors, message headers and tasks.

use vstd::prelude::*;

use crate::object::ObjectId;

verus! {

/// Every error that this library reports.
#[derive(Debug)]
pub enum SkylaneError {
    /// A failure of the byte-stream layer, in-memory cursors included.
    IO {
        /// Description of the error.
        description: String,
    },
    /// A failure of the kernel socket layer.
    Socket {
        /// Description of the error.
        description: String,
    },
    /// No handler is registered under the requested object ID.
    WrongObject {
        /// ID of the requested object.
        object_id: ObjectId,
    },
    /// The requested method does not exist in the object's interface.
    WrongOpcode {
        /// Name of the interface.
        name: &'static str,
        /// Referred object ID.
        object_id: ObjectId,
        /// Requested method.
        opcode: u16,
    },
    /// Any other failure.
    Other(String),
}

/// Fixed eight-byte prefix of every message.
#[derive(Clone, Copy, Debug, PartialEq, Eq, Structural)]
pub struct Header {
    /// ID of the referred object.
    pub object_id: u32,
    /// ID of the called method.
    pub opcode: u16,
    /// Size of the message in bytes, header included.
    pub size: u16,
}

/// Size of a message header in bytes.
pub const HEADER_SIZE: usize = 8;

/// A structural change of the registry that a handler requests when its dispatch returns.
pub enum Task<H> {
    /// Register `object` under `id`.
    Create {
        /// New object ID.
        id: ObjectId,
        /// Object to be added.
        object: H,
    },
    /// Remove the object registered under `id`.
    Destroy {
        /// ID of the object to be removed.
        id: ObjectId,
    },
    /// Change nothing.
    NoChange,
}

} // verus!
