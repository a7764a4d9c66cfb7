//! Object identifiers and the handler trait.

use vstd::prelude::*;

use crate::bundle::Bundle;
use crate::cursor::ByteCursor;
use crate::defs::{Header, SkylaneError, Task};

verus! {

/// Identifier of an object on one side of a connection.
pub type ObjectId = u32;

/// The well-known root object that the peer addresses first.
pub const DISPLAY_ID: ObjectId = 1;

/// Lower bound of the range of identifiers allocated by the server.
pub const SERVER_START_ID: ObjectId = 0xff00_0000;

/// Returns the identifier following `id`.
pub fn incremented(id: ObjectId) -> (r: ObjectId)
    requires
        id < u32::MAX,
    ensures
        r == id + 1,
{
    id + 1
}

/// The implementation attached to one object ID, which decodes the opcodes of its interface.
///
/// A handler reads its payload from `bytes_buf`, positioned just past the header, and the
/// descriptors it needs from `fds_buf`. It does not change the registry itself: it returns
/// the change it wants as a `Task`, which is applied once its dispatch has returned.
pub trait Object: Sized {
    /// Handles one message addressed to this object.
    fn dispatch(
        &mut self,
        bundle: &mut Bundle<Self>,
        header: &Header,
        bytes_buf: &mut ByteCursor,
        fds_buf: &mut ByteCursor,
    ) -> Result<Task<Self>, SkylaneError>;
}

} // verus!
