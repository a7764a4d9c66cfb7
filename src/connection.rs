//! Framing of received bytes into messages and their dispatch to registered handlers.

use vstd::prelude::*;

use crate::bundle::{Bundle, Dispatch};
use crate::cursor::{
    native_u16, native_u32, read_native_u16, read_native_u32, write_native_u16, write_native_u32,
    ByteCursor,
};
use crate::defs::{Header, SkylaneError, HEADER_SIZE};
use crate::object::Object;

verus! {

/// The header that starts at offset `pos` of `bytes`, in the target's byte order.
pub open spec fn header_at(bytes: Seq<u8>, pos: int) -> Header {
    Header {
        object_id: native_u32(bytes.subrange(pos, pos + 4)),
        opcode: native_u16(bytes.subrange(pos + 4, pos + 6)),
        size: native_u16(bytes.subrange(pos + 6, pos + 8)),
    }
}

/// Where the message after the one at `pos`, of `size` bytes, starts within `n` bytes:
/// `pos + size`, or `n` where that reaches the end.
pub open spec fn next_frame(pos: int, size: int, n: int) -> int {
    if pos + size >= n {
        n
    } else {
        pos + size
    }
}

/// The messages framed in `bytes` from offset `pos` on: the headers of the well-framed
/// messages that come first, and whether the rest of the bytes frame cleanly as well. A
/// message takes the number of bytes its header gives; framing fails at a header that is
/// cut short or that gives a size smaller than a header.
pub open spec fn frames(bytes: Seq<u8>, pos: int) -> (Seq<Header>, bool)
    decreases bytes.len() - pos,
{
    if pos >= bytes.len() {
        (Seq::empty(), true)
    } else if pos + HEADER_SIZE > bytes.len() {
        (Seq::empty(), false)
    } else {
        let h = header_at(bytes, pos);
        if h.size < HEADER_SIZE {
            (Seq::empty(), false)
        } else {
            let rest = frames(bytes, next_frame(pos, h.size as int, bytes.len() as int));
            (seq![h] + rest.0, rest.1)
        }
    }
}

/// Where each of the messages of `frames(bytes, pos)` starts.
pub open spec fn frame_starts(bytes: Seq<u8>, pos: int) -> Seq<int>
    decreases bytes.len() - pos,
{
    if pos >= bytes.len() || pos + HEADER_SIZE > bytes.len() {
        Seq::empty()
    } else {
        let h = header_at(bytes, pos);
        if h.size < HEADER_SIZE {
            Seq::empty()
        } else {
            seq![pos] + frame_starts(bytes, next_frame(pos, h.size as int, bytes.len() as int))
        }
    }
}

/// Each framed message has a start, and its header is the one found there.
pub proof fn lemma_frame_starts(bytes: Seq<u8>, pos: int)
    ensures
        frame_starts(bytes, pos).len() == frames(bytes, pos).0.len(),
        forall|i: int|
            0 <= i < frame_starts(bytes, pos).len() ==> #[trigger] frames(bytes, pos).0[i]
                == header_at(bytes, frame_starts(bytes, pos)[i]),
    decreases bytes.len() - pos,
{
    if pos < bytes.len() && pos + HEADER_SIZE <= bytes.len() {
        let h = header_at(bytes, pos);
        if h.size >= HEADER_SIZE {
            let next = next_frame(pos, h.size as int, bytes.len() as int);
            lemma_frame_starts(bytes, next);
            assert forall|i: int| 0 <= i < frame_starts(bytes, pos).len() implies #[trigger] frames(
                bytes,
                pos,
            ).0[i] == header_at(bytes, frame_starts(bytes, pos)[i]) by {
                if i > 0 {
                    assert(frames(bytes, pos).0[i] == frames(bytes, next).0[i - 1]);
                    assert(frame_starts(bytes, pos)[i] == frame_starts(bytes, next)[i - 1]);
                }
            }
        }
    }
}

/// Reads the header at offset `pos` of `bytes`; fails with an `IO` error when fewer than
/// eight bytes remain there.
pub fn read_header(bytes: &[u8], pos: usize) -> (r: Result<Header, SkylaneError>)
    ensures
        pos + HEADER_SIZE <= bytes@.len() ==> r == Ok::<Header, SkylaneError>(
            header_at(bytes@, pos as int),
        ),
        pos + HEADER_SIZE > bytes@.len() ==> (r matches Err(e) && e is IO),
{
    if pos <= bytes.len() && bytes.len() - pos >= HEADER_SIZE {
        Ok(
            Header {
                object_id: read_native_u32(bytes, pos),
                opcode: read_native_u16(bytes, pos + 4),
                size: read_native_u16(bytes, pos + 6),
            },
        )
    } else {
        Err(SkylaneError::IO { description: String::from_str("failed to fill whole buffer") })
    }
}

/// Encodes `header` as the eight bytes that start a message, in the target's byte order.
pub fn encode_header(header: &Header) -> (r: Vec<u8>)
    ensures
        r@.len() == HEADER_SIZE,
        header_at(r@, 0) == *header,
{
    let mut buf: Vec<u8> = vec![0u8; 8];
    write_native_u32(&mut buf, 0, header.object_id);
    let ghost b1 = buf@;
    write_native_u16(&mut buf, 4, header.opcode);
    let ghost b2 = buf@;
    write_native_u16(&mut buf, 6, header.size);
    assert(buf@.subrange(0, 4) =~= b1.subrange(0, 4));
    assert(buf@.subrange(4, 6) =~= b2.subrange(4, 6));
    buf
}

/// `block` is one well-formed message with header `h`: it starts with `h`, is as long as
/// `h` says, and that is at least a header's length.
pub open spec fn is_message(h: Header, block: Seq<u8>) -> bool {
    &&& h.size >= HEADER_SIZE
    &&& block.len() == h.size
    &&& header_at(block, 0) == h
}

/// The bytes of `blocks` one after another.
pub open spec fn concat_blocks(blocks: Seq<Seq<u8>>) -> Seq<u8>
    decreases blocks.len(),
{
    if blocks.len() == 0 {
        Seq::empty()
    } else {
        blocks[0] + concat_blocks(blocks.drop_first())
    }
}

/// Framing does not look at bytes before the offset it starts from.
pub proof fn lemma_frames_shift(a: Seq<u8>, b: Seq<u8>, p: int)
    requires
        0 <= p,
    ensures
        frames(a + b, a.len() + p) == frames(b, p),
    decreases b.len() - p,
{
    let ab = a + b;
    let q = a.len() + p;
    if p < b.len() && p + HEADER_SIZE <= b.len() {
        assert(ab.subrange(q, q + 4) =~= b.subrange(p, p + 4));
        assert(ab.subrange(q + 4, q + 6) =~= b.subrange(p + 4, p + 6));
        assert(ab.subrange(q + 6, q + 8) =~= b.subrange(p + 6, p + 8));
        assert(header_at(ab, q) == header_at(b, p));
        let h = header_at(b, p);
        if h.size >= HEADER_SIZE {
            let next = next_frame(p, h.size as int, b.len() as int);
            assert(next_frame(q, h.size as int, ab.len() as int) == a.len() + next);
            lemma_frames_shift(a, b, next);
        }
    }
}

/// Framing the concatenation of well-formed messages gives back exactly their headers, in
/// order, and nothing fails; so `process_messages` on such bytes dispatches the messages in
/// order, each with the header it was written with, and dispatches one per block where
/// every handler is registered at its turn and succeeds.
pub proof fn lemma_framing_round_trip(headers: Seq<Header>, blocks: Seq<Seq<u8>>)
    requires
        headers.len() == blocks.len(),
        forall|i: int| 0 <= i < blocks.len() ==> is_message(#[trigger] headers[i], blocks[i]),
    ensures
        frames(concat_blocks(blocks), 0) == (headers, true),
    decreases blocks.len(),
{
    if blocks.len() == 0 {
        assert(headers =~= Seq::<Header>::empty());
    } else {
        let block = blocks[0];
        let rest = concat_blocks(blocks.drop_first());
        let h = headers[0];
        assert(is_message(headers[0], blocks[0]));
        lemma_framing_round_trip(headers.drop_first(), blocks.drop_first());
        let all = block + rest;
        assert(all == concat_blocks(blocks));
        assert(all.subrange(0, 4) =~= block.subrange(0, 4));
        assert(all.subrange(4, 6) =~= block.subrange(4, 6));
        assert(all.subrange(6, 8) =~= block.subrange(6, 8));
        assert(header_at(all, 0) == h);
        assert(next_frame(0, h.size as int, all.len() as int) == block.len());
        lemma_frames_shift(block, rest, 0);
        assert(frames(all, block.len() as int) == frames(rest, 0));
        assert(headers =~= seq![h] + headers.drop_first());
    }
}

/// Returns where the message after the one at `pos`, whose header is `header`, starts
/// within a batch of `n` bytes; fails with an `IO` error where the header gives a size
/// smaller than a header.
pub fn next_frame_position(pos: usize, header: &Header, n: usize) -> (r: Result<usize, SkylaneError>)
    requires
        pos <= n,
    ensures
        header.size < HEADER_SIZE ==> (r matches Err(e) && e is IO),
        header.size >= HEADER_SIZE ==> r == Ok::<usize, SkylaneError>(
            next_frame(pos as int, header.size as int, n as int) as usize,
        ),
{
    let size = header.size as usize;
    if size < HEADER_SIZE {
        Err(SkylaneError::IO { description: String::from_str("message size smaller than its header") })
    } else if size >= n - pos {
        Ok(n)
    } else {
        Ok(pos + size)
    }
}

/// `objects` holds a handler, ready for dispatch, under `id`.
pub open spec fn has_handler<H>(objects: Map<u32, Option<H>>, id: u32) -> bool {
    objects.contains_key(id) && objects[id] is Some
}

/// `d` dispatched a message with `header` to the handler that `table` held under its
/// object ID, taking it out of its slot.
pub open spec fn handed_to<H>(d: Dispatch<H>, table: Map<u32, Option<H>>, header: Header) -> bool {
    &&& d.header == header
    &&& table.contains_key(header.object_id)
    &&& table[header.object_id] == Some(d.handler)
}

/// The registry that the `i`-th dispatch of a batch found: the one the batch began with,
/// or the one the previous dispatch left.
pub open spec fn table_before<H>(start: Map<u32, Option<H>>, recs: Seq<Dispatch<H>>, i: int) -> Map<
    u32,
    Option<H>,
> {
    if i == 0 {
        start
    } else {
        recs[i - 1].result_table()
    }
}

/// `recs` are the dispatches that a batch of `bytes`, with descriptors `fds`, made over the
/// registry `start`: one per framed message, in order, each to the handler registered
/// under its object ID at its turn, with a payload cursor over the batch just past its
/// header and the descriptor cursor that the previous dispatch left (a fresh one over
/// `fds` for the first); every dispatch but the last succeeded.
pub open spec fn batch_dispatches<H>(
    start: Map<u32, Option<H>>,
    bytes: Seq<u8>,
    fds: Seq<u8>,
    recs: Seq<Dispatch<H>>,
) -> bool {
    &&& recs.len() <= frames(bytes, 0).0.len()
    &&& forall|i: int|
        0 <= i < recs.len() ==> {
            &&& handed_to(#[trigger] recs[i], table_before(start, recs, i), frames(bytes, 0).0[i])
            &&& recs[i].bytes_given.data() == bytes
            &&& recs[i].bytes_given.pos() == frame_starts(bytes, 0)[i] + HEADER_SIZE
            &&& i == 0 ==> recs[i].fds_given.data() == fds && recs[i].fds_given.pos() == 0
            &&& i > 0 ==> recs[i].fds_given == recs[i - 1].fds_left
            &&& i < recs.len() - 1 ==> recs[i].outcome is Ok
        }
}

/// How a batch of `bytes` over the registry `start` ends, given its dispatches `recs`: the
/// registry is what the last dispatch left, and the result is the last handler's error, or
/// else `WrongObject` for the next message where no handler is registered for it, or else
/// success where all of the bytes frame cleanly, or else an `IO` error.
pub open spec fn batch_outcome<H>(
    start: Map<u32, Option<H>>,
    bytes: Seq<u8>,
    recs: Seq<Dispatch<H>>,
    r: Result<(), SkylaneError>,
    table: Map<u32, Option<H>>,
) -> bool {
    let f = frames(bytes, 0);
    let k = recs.len() as int;
    let t = table_before(start, recs, k);
    &&& table == t
    &&& if k > 0 && recs[k - 1].outcome is Err {
        r == recs[k - 1].reported()
    } else if k < f.0.len() {
        &&& !has_handler(t, f.0[k].object_id)
        &&& r == Err::<(), SkylaneError>(SkylaneError::WrongObject { object_id: f.0[k].object_id })
    } else if f.1 {
        r == Ok::<(), SkylaneError>(())
    } else {
        r matches Err(e) && e is IO
    }
}

/// A batch whose first message is addressed to an object without a handler dispatches
/// nothing, leaves the registry as it was, and fails with `WrongObject` for that object.
pub proof fn lemma_unknown_first_object<H>(
    start: Map<u32, Option<H>>,
    bytes: Seq<u8>,
    fds: Seq<u8>,
    recs: Seq<Dispatch<H>>,
    r: Result<(), SkylaneError>,
    table: Map<u32, Option<H>>,
)
    requires
        batch_dispatches(start, bytes, fds, recs),
        batch_outcome(start, bytes, recs, r, table),
        frames(bytes, 0).0.len() > 0,
        !has_handler(start, frames(bytes, 0).0[0].object_id),
    ensures
        recs.len() == 0,
        table == start,
        r == Err::<(), SkylaneError>(SkylaneError::WrongObject {
            object_id: frames(bytes, 0).0[0].object_id,
        }),
{
    if recs.len() > 0 {
        assert(handed_to(recs[0], table_before(start, recs, 0), frames(bytes, 0).0[0]));
    }
}

impl<H: Object> Bundle<H> {
    /// Dispatches one message: takes the handler registered under the header's object ID
    /// out of its slot, lets it handle the message, puts it back unless the registry was
    /// changed under that ID meanwhile, and applies the task it returned.
    fn process_event(
        &mut self,
        header: &Header,
        bytes_buf: &mut ByteCursor,
        fds_buf: &mut ByteCursor,
    ) -> (r: Result<(), SkylaneError>)
        ensures
            !has_handler(old(self)@, header.object_id) ==> {
                &&& r == Err::<(), SkylaneError>(SkylaneError::WrongObject {
                    object_id: header.object_id,
                })
                &&& final(self)@ == old(self)@
                &&& final(self).dispatches() == old(self).dispatches()
                &&& *final(fds_buf) == *old(fds_buf)
            },
            has_handler(old(self)@, header.object_id) ==> {
                &&& final(self).dispatches() == old(self).dispatches().push(
                    final(self).dispatches().last(),
                )
                &&& handed_to(final(self).dispatches().last(), old(self)@, *header)
                &&& final(self).dispatches().last().bytes_given == *old(bytes_buf)
                &&& final(self).dispatches().last().fds_given == *old(fds_buf)
                &&& final(self).dispatches().last().fds_left == *final(fds_buf)
                &&& final(self)@ == final(self).dispatches().last().result_table()
                &&& r == final(self).dispatches().last().reported()
            },
    {
        let ghost log = self.dispatches();
        let ghost bytes0 = *bytes_buf;
        let ghost fds0 = *fds_buf;
        let id = header.object_id;
        let mut handler = match self.take_handler(id) {
            Ok(h) => h,
            Err(e) => {
                return Err(e);
            },
        };
        let ghost handler0 = handler;
        let result = handler.dispatch(self, header, bytes_buf, fds_buf);
        let ghost table_left = self@;
        let ghost handler1 = handler;
        let ghost outcome = result;
        self.restore_handler(id, handler);
        let r = match result {
            Ok(task) => {
                self.apply_task(task);
                Ok(())
            },
            Err(e) => Err(e),
        };
        let ghost d = Dispatch {
            header: *header,
            handler: handler0,
            handler_after: handler1,
            bytes_given: bytes0,
            fds_given: fds0,
            fds_left: *fds_buf,
            table_left,
            outcome,
        };
        self.record_dispatches(Ghost(log.push(d)));
        r
    }

    /// Splits the received `bytes` into messages and dispatches each, in order, to the
    /// handler registered under its object ID; `fds` holds the descriptors that came with
    /// them, four native-order bytes each, read through one cursor for the whole batch.
    ///
    /// The first failure ends the batch: a header cut short, a message size smaller than a
    /// header (`IO`), an object ID without a handler (`WrongObject`), or an error of the
    /// handler (returned unchanged). Messages dispatched before it stay dispatched, and
    /// their tasks applied; a failing handler's task is not applied.
    #[verifier::rlimit(60)]
    #[verifier::spinoff_prover]
    pub fn process_messages(&mut self, bytes: &Vec<u8>, fds: &Vec<u8>) -> (r: Result<
        (),
        SkylaneError,
    >)
        ensures
            final(self).dispatches().len() >= old(self).dispatches().len(),
            final(self).dispatches().subrange(0, old(self).dispatches().len() as int) == old(
                self,
            ).dispatches(),
            batch_dispatches(
                old(self)@,
                bytes@,
                fds@,
                final(self).dispatches().subrange(
                    old(self).dispatches().len() as int,
                    final(self).dispatches().len() as int,
                ),
            ),
            batch_outcome(
                old(self)@,
                bytes@,
                final(self).dispatches().subrange(
                    old(self).dispatches().len() as int,
                    final(self).dispatches().len() as int,
                ),
                r,
                final(self)@,
            ),
    {
        let n = bytes.len();
        let fds_copy = fds.clone();
        proof {
            assert(fds_copy@ =~= fds@);
        }
        let mut fds_buf = ByteCursor::new(fds_copy);
        let ghost start = self.dispatches();
        let ghost all = frames(bytes@, 0);
        let ghost starts = frame_starts(bytes@, 0);
        let ghost mut recs: Seq<Dispatch<H>> = Seq::empty();
        let ghost mut done_starts: Seq<int> = Seq::empty();
        proof {
            lemma_frame_starts(bytes@, 0);
        }
        let mut pos: usize = 0;
        while pos < n
            invariant
                n == bytes@.len(),
                pos <= n,
                all == frames(bytes@, 0),
                starts == frame_starts(bytes@, 0),
                starts.len() == all.0.len(),
                start == old(self).dispatches(),
                self.dispatches() == start + recs,
                recs.len() == done_starts.len(),
                all.0 == recs.map_values(|d: Dispatch<H>| d.header) + frames(bytes@, pos as int).0,
                all.1 == frames(bytes@, pos as int).1,
                starts == done_starts + frame_starts(bytes@, pos as int),
                frame_starts(bytes@, pos as int).len() == frames(bytes@, pos as int).0.len(),
                batch_dispatches(old(self)@, bytes@, fds@, recs),
                forall|i: int| 0 <= i < recs.len() ==> (#[trigger] recs[i]).outcome is Ok,
                self@ == table_before(old(self)@, recs, recs.len() as int),
                recs.len() == 0 ==> fds_buf.data() == fds@ && fds_buf.pos() == 0,
                recs.len() > 0 ==> fds_buf == recs.last().fds_left,
            decreases n - pos,
        {
            proof {
                lemma_frame_starts(bytes@, pos as int);
            }
            let header = match read_header(bytes.as_slice(), pos) {
                Ok(h) => h,
                Err(e) => {
                    proof {
                        assert(frames(bytes@, pos as int).0 =~= Seq::<Header>::empty());
                        assert(self.dispatches().subrange(0, start.len() as int) =~= start);
                        assert(self.dispatches().subrange(start.len() as int, self.dispatches().len() as int) =~= recs);
                    }
                    return Err(e);
                },
            };
            let next = match next_frame_position(pos, &header, n) {
                Ok(p) => p,
                Err(e) => {
                    proof {
                        assert(frames(bytes@, pos as int).0 =~= Seq::<Header>::empty());
                        assert(self.dispatches().subrange(0, start.len() as int) =~= start);
                        assert(self.dispatches().subrange(start.len() as int, self.dispatches().len() as int) =~= recs);
                    }
                    return Err(e);
                },
            };
            let ghost k = recs.len() as int;
            proof {
                assert(frames(bytes@, pos as int).0 == seq![header] + frames(bytes@, next as int).0);
                assert(frame_starts(bytes@, pos as int) == seq![pos as int] + frame_starts(bytes@, next as int));
                assert(all.0[k] == header);
                assert(starts[k] == pos);
            }
            let bytes_copy = bytes.clone();
            proof {
                assert(bytes_copy@ =~= bytes@);
            }
            let mut bytes_buf = ByteCursor::new(bytes_copy);
            bytes_buf.set_position(pos + HEADER_SIZE);
            let ghost self_before = self@;
            let result = self.process_event(&header, &mut bytes_buf, &mut fds_buf);
            proof {
                if !has_handler(self_before, header.object_id) {
                    assert(self.dispatches().subrange(0, start.len() as int) =~= start);
                    assert(self.dispatches().subrange(start.len() as int, self.dispatches().len() as int) =~= recs);
                } else {
                    let d = self.dispatches().last();
                    let recs2 = recs.push(d);
                    assert(self.dispatches() =~= start + recs2);
                    assert(self.dispatches().subrange(0, start.len() as int) =~= start);
                    assert(self.dispatches().subrange(start.len() as int, self.dispatches().len() as int) =~= recs2);
                    assert forall|i: int| 0 <= i < recs2.len() implies table_before(old(self)@, recs2, i) == table_before(old(self)@, recs, i) || i == recs.len() by {
                    }
                    assert(table_before(old(self)@, recs2, k) == self_before);
                    assert(batch_dispatches(old(self)@, bytes@, fds@, recs2)) by {
                        assert forall|i: int| 0 <= i < recs2.len() implies {
                            &&& handed_to(#[trigger] recs2[i], table_before(old(self)@, recs2, i), frames(bytes@, 0).0[i])
                            &&& recs2[i].bytes_given.data() == bytes@
                            &&& recs2[i].bytes_given.pos() == frame_starts(bytes@, 0)[i] + HEADER_SIZE
                            &&& i == 0 ==> recs2[i].fds_given.data() == fds@ && recs2[i].fds_given.pos() == 0
                            &&& i > 0 ==> recs2[i].fds_given == recs2[i - 1].fds_left
                            &&& i < recs2.len() - 1 ==> recs2[i].outcome is Ok
                        } by {
                            if i < k {
                                assert(recs2[i] == recs[i]);
                                if i > 0 {
                                    assert(recs2[i - 1] == recs[i - 1]);
                                }
                            } else {
                                assert(recs2[i] == d);
                                if i > 0 {
                                    assert(recs2[i - 1] == recs[i - 1]);
                                }
                            }
                        }
                    }
                    assert(recs2.map_values(|d: Dispatch<H>| d.header) =~= recs.map_values(|d: Dispatch<H>| d.header).push(header));
                }
            }
            match result {
                Ok(()) => {},
                Err(e) => {
                    return Err(e);
                },
            }
            proof {
                let d = self.dispatches().last();
                let recs2 = recs.push(d);
                assert(all.0 =~= recs2.map_values(|d: Dispatch<H>| d.header) + frames(bytes@, next as int).0);
                assert(starts =~= done_starts.push(pos as int) + frame_starts(bytes@, next as int));
                assert forall|i: int| 0 <= i < recs2.len() implies (#[trigger] recs2[i]).outcome is Ok by {
                    if i < k {
                        assert(recs2[i] == recs[i]);
                    }
                }
                recs = recs2;
                done_starts = done_starts.push(pos as int);
                lemma_frame_starts(bytes@, next as int);
            }
            pos = next;
        }
        proof {
            assert(frames(bytes@, pos as int).0 == Seq::<Header>::empty());
            assert(frames(bytes@, pos as int).1);
            assert(self.dispatches().subrange(0, start.len() as int) =~= start);
            assert(self.dispatches().subrange(start.len() as int, self.dispatches().len() as int) =~= recs);
            assert(all.0.len() == recs.len());
        }
        Ok(())
    }
}

} // verus!
