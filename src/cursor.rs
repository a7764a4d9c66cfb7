//! An in-memory reading cursor over received bytes, with native-order integer decoding.

use vstd::prelude::*;

use byteorder::{ByteOrder, NativeEndian};

use crate::defs::SkylaneError;

verus! {

/// The value of two bytes read as an unsigned integer in the target's byte order.
pub uninterp spec fn native_u16(bytes: Seq<u8>) -> u16;

/// The value of four bytes read as an unsigned integer in the target's byte order.
pub uninterp spec fn native_u32(bytes: Seq<u8>) -> u32;

/// The value of four bytes read as a signed integer in the target's byte order.
pub uninterp spec fn native_i32(bytes: Seq<u8>) -> i32;

/// The four bytes that hold `value` in the target's byte order.
pub uninterp spec fn native_i32_bytes(value: i32) -> Seq<u8>;

/// Relies on byteorder's `NativeEndian::read_u16`: it decodes the first two bytes of its
/// argument, and only those.
#[verifier::external_body]
pub(crate) fn read_native_u16(buf: &[u8], pos: usize) -> (r: u16)
    requires
        pos + 2 <= buf@.len(),
    ensures
        r == native_u16(buf@.subrange(pos as int, pos + 2)),
{
    NativeEndian::read_u16(&buf[pos..pos + 2])
}

/// Relies on byteorder's `NativeEndian::read_u32`: it decodes the first four bytes of its
/// argument, and only those.
#[verifier::external_body]
pub(crate) fn read_native_u32(buf: &[u8], pos: usize) -> (r: u32)
    requires
        pos + 4 <= buf@.len(),
    ensures
        r == native_u32(buf@.subrange(pos as int, pos + 4)),
{
    NativeEndian::read_u32(&buf[pos..pos + 4])
}

/// Relies on byteorder's `NativeEndian::read_i32`: it decodes the first four bytes of its
/// argument, and only those.
#[verifier::external_body]
fn read_native_i32(buf: &[u8], pos: usize) -> (r: i32)
    requires
        pos + 4 <= buf@.len(),
    ensures
        r == native_i32(buf@.subrange(pos as int, pos + 4)),
{
    NativeEndian::read_i32(&buf[pos..pos + 4])
}

/// Relies on byteorder's `NativeEndian::write_u16`: it overwrites exactly the two bytes it
/// is given, with an encoding that `read_u16` decodes back to `value`.
#[verifier::external_body]
pub(crate) fn write_native_u16(buf: &mut Vec<u8>, pos: usize, value: u16)
    requires
        pos + 2 <= old(buf)@.len(),
    ensures
        final(buf)@.len() == old(buf)@.len(),
        native_u16(final(buf)@.subrange(pos as int, pos + 2)) == value,
        forall|i: int|
            0 <= i < old(buf)@.len() && !(pos <= i < pos + 2) ==> #[trigger] final(buf)@[i]
                == old(buf)@[i],
{
    NativeEndian::write_u16(&mut buf[pos..pos + 2], value)
}

/// Relies on byteorder's `NativeEndian::write_u32`: it overwrites exactly the four bytes it
/// is given, with an encoding that `read_u32` decodes back to `value`.
#[verifier::external_body]
pub(crate) fn write_native_u32(buf: &mut Vec<u8>, pos: usize, value: u32)
    requires
        pos + 4 <= old(buf)@.len(),
    ensures
        final(buf)@.len() == old(buf)@.len(),
        native_u32(final(buf)@.subrange(pos as int, pos + 4)) == value,
        forall|i: int|
            0 <= i < old(buf)@.len() && !(pos <= i < pos + 4) ==> #[trigger] final(buf)@[i]
                == old(buf)@[i],
{
    NativeEndian::write_u32(&mut buf[pos..pos + 4], value)
}

/// Relies on byteorder's `NativeEndian::write_i32`: it overwrites exactly the four bytes
/// it is given with the encoding of `value`, which `read_i32` decodes back to `value`.
#[verifier::external_body]
fn write_native_i32(buf: &mut Vec<u8>, pos: usize, value: i32)
    requires
        pos + 4 <= old(buf)@.len(),
    ensures
        final(buf)@.len() == old(buf)@.len(),
        final(buf)@.subrange(pos as int, pos + 4) == native_i32_bytes(value),
        native_i32(final(buf)@.subrange(pos as int, pos + 4)) == value,
        forall|i: int|
            0 <= i < old(buf)@.len() && !(pos <= i < pos + 4) ==> #[trigger] final(buf)@[i]
                == old(buf)@[i],
{
    NativeEndian::write_i32(&mut buf[pos..pos + 4], value)
}

/// The error of a read that runs past the end of the data.
pub open spec fn is_short_read(e: SkylaneError) -> bool {
    e is IO
}

fn short_read() -> (e: SkylaneError)
    ensures
        is_short_read(e),
{
    SkylaneError::IO { description: String::from_str("failed to fill whole buffer") }
}

/// Stores each descriptor of `received`, in order, as four native-order bytes at the start
/// of `fds`, and returns how many were stored; fails with `IO`, storing none, where `fds`
/// cannot hold them all.
pub fn store_fds(received: &Vec<i32>, fds: &mut Vec<u8>) -> (r: Result<usize, SkylaneError>)
    ensures
        final(fds)@.len() == old(fds)@.len(),
        r is Ok <==> 4 * received@.len() <= old(fds)@.len(),
        r matches Ok(n) ==> n == received@.len(),
        r is Ok ==> forall|i: int|
            0 <= i < received@.len() ==> #[trigger] final(fds)@.subrange(4 * i, 4 * i + 4)
                == native_i32_bytes(received@[i]),
        r is Ok ==> forall|i: int|
            0 <= i < received@.len() ==> native_i32(#[trigger] final(fds)@.subrange(4 * i, 4 * i + 4))
                == received@[i],
        r is Ok ==> forall|j: int|
            4 * received@.len() <= j < old(fds)@.len() ==> #[trigger] final(fds)@[j] == old(
                fds,
            )@[j],
        r matches Err(e) ==> is_short_read(e) && final(fds)@ == old(fds)@,
{
    if received.len() > fds.len() / 4 {
        return Err(SkylaneError::IO { description: String::from_str("failed to write whole buffer") });
    }
    let mut count: usize = 0;
    while count < received.len()
        invariant
            count <= received@.len(),
            4 * received@.len() <= fds@.len(),
            fds@.len() == old(fds)@.len(),
            forall|i: int|
                0 <= i < count ==> #[trigger] fds@.subrange(4 * i, 4 * i + 4) == native_i32_bytes(
                    received@[i],
                ),
            forall|i: int|
                0 <= i < count ==> native_i32(#[trigger] fds@.subrange(4 * i, 4 * i + 4))
                    == received@[i],
            forall|j: int| 4 * count <= j < fds@.len() ==> #[trigger] fds@[j] == old(fds)@[j],
        decreases received@.len() - count,
    {
        let ghost before = fds@;
        let cap = fds.len();
        assert(4 * count + 4 <= cap);
        write_native_i32(fds, 4 * count, received[count]);
        proof {
            assert forall|i: int| 0 <= i < count + 1 implies #[trigger] fds@.subrange(
                4 * i,
                4 * i + 4,
            ) == native_i32_bytes(received@[i]) && native_i32(fds@.subrange(4 * i, 4 * i + 4))
                == received@[i] by {
                if i < count {
                    assert(fds@.subrange(4 * i, 4 * i + 4) =~= before.subrange(4 * i, 4 * i + 4));
                }
            }
        }
        count = count + 1;
    }
    Ok(count)
}

/// A reading position within a byte buffer.
pub struct ByteCursor {
    data: Vec<u8>,
    pos: usize,
}

impl ByteCursor {
    /// The bytes the cursor reads from.
    pub closed spec fn data(&self) -> Seq<u8> {
        self.data@
    }

    /// The offset of the next byte to be read.
    pub closed spec fn pos(&self) -> int {
        self.pos as int
    }

    /// Makes a cursor at the start of `data`.
    pub fn new(data: Vec<u8>) -> (r: ByteCursor)
        ensures
            r.data() == data@,
            r.pos() == 0,
    {
        ByteCursor { data, pos: 0 }
    }

    /// Returns the offset of the next byte to be read.
    pub fn position(&self) -> (r: usize)
        ensures
            r == self.pos(),
    {
        self.pos
    }

    /// Moves the cursor to `pos`; it may lie past the end of the data.
    pub fn set_position(&mut self, pos: usize)
        ensures
            final(self).data() == old(self).data(),
            final(self).pos() == pos,
    {
        self.pos = pos;
    }

    /// Returns the number of bytes the cursor reads from.
    pub fn len(&self) -> (r: usize)
        ensures
            r == self.data().len(),
    {
        self.data.len()
    }

    /// Reads a native-order `u16` and advances by two bytes; fails, without moving, when
    /// fewer than two bytes remain.
    pub fn read_u16(&mut self) -> (r: Result<u16, SkylaneError>)
        ensures
            final(self).data() == old(self).data(),
            old(self).pos() + 2 <= old(self).data().len() ==> {
                &&& r == Ok::<u16, SkylaneError>(
                    native_u16(old(self).data().subrange(old(self).pos(), old(self).pos() + 2)),
                )
                &&& final(self).pos() == old(self).pos() + 2
            },
            old(self).pos() + 2 > old(self).data().len() ==> {
                &&& r matches Err(e) && is_short_read(e)
                &&& final(self).pos() == old(self).pos()
            },
    {
        if self.pos <= self.data.len() && self.data.len() - self.pos >= 2 {
            let v = read_native_u16(self.data.as_slice(), self.pos);
            self.pos = self.pos + 2;
            Ok(v)
        } else {
            Err(short_read())
        }
    }

    /// Reads a native-order `u32` and advances by four bytes; fails, without moving, when
    /// fewer than four bytes remain.
    pub fn read_u32(&mut self) -> (r: Result<u32, SkylaneError>)
        ensures
            final(self).data() == old(self).data(),
            old(self).pos() + 4 <= old(self).data().len() ==> {
                &&& r == Ok::<u32, SkylaneError>(
                    native_u32(old(self).data().subrange(old(self).pos(), old(self).pos() + 4)),
                )
                &&& final(self).pos() == old(self).pos() + 4
            },
            old(self).pos() + 4 > old(self).data().len() ==> {
                &&& r matches Err(e) && is_short_read(e)
                &&& final(self).pos() == old(self).pos()
            },
    {
        if self.pos <= self.data.len() && self.data.len() - self.pos >= 4 {
            let v = read_native_u32(self.data.as_slice(), self.pos);
            self.pos = self.pos + 4;
            Ok(v)
        } else {
            Err(short_read())
        }
    }

    /// Reads a native-order `i32` and advances by four bytes; fails, without moving, when
    /// fewer than four bytes remain.
    pub fn read_i32(&mut self) -> (r: Result<i32, SkylaneError>)
        ensures
            final(self).data() == old(self).data(),
            old(self).pos() + 4 <= old(self).data().len() ==> {
                &&& r == Ok::<i32, SkylaneError>(
                    native_i32(old(self).data().subrange(old(self).pos(), old(self).pos() + 4)),
                )
                &&& final(self).pos() == old(self).pos() + 4
            },
            old(self).pos() + 4 > old(self).data().len() ==> {
                &&& r matches Err(e) && is_short_read(e)
                &&& final(self).pos() == old(self).pos()
            },
    {
        if self.pos <= self.data.len() && self.data.len() - self.pos >= 4 {
            let v = read_native_i32(self.data.as_slice(), self.pos);
            self.pos = self.pos + 4;
            Ok(v)
        } else {
            Err(short_read())
        }
    }
}

} // verus!
