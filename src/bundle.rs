//! The object registry of one connection, together with the connection's socket.

use vstd::prelude::*;
use vstd::std_specs::hash::spec_keys_iter;
use vstd::std_specs::iter::IteratorSpec;

use std::collections::HashMap;

use crate::cursor::ByteCursor;
use crate::defs::{Header, SkylaneError, Task};
use crate::object::{ObjectId, DISPLAY_ID, SERVER_START_ID};
use crate::sockets::Socket;

verus! {

broadcast use vstd::std_specs::hash::group_hash_axioms;

/// `m` is the largest identifier in `ids`.
pub open spec fn is_max_id(ids: Set<ObjectId>, m: ObjectId) -> bool {
    &&& ids.contains(m)
    &&& forall|k: ObjectId| ids.contains(k) ==> k <= m
}

/// The largest identifier in a non-empty set of identifiers.
pub open spec fn max_id(ids: Set<ObjectId>) -> ObjectId {
    choose|m: ObjectId| is_max_id(ids, m)
}

/// The identifier that allocation hands out for the registered `ids` within the range that
/// begins at `start`: `start` when nothing is registered or every registered identifier
/// lies below `start`, else one more than the largest registered identifier.
pub open spec fn next_available_id(ids: Set<ObjectId>, start: ObjectId) -> ObjectId {
    if ids.is_empty() {
        start
    } else if max_id(ids) >= start {
        (max_id(ids) + 1) as ObjectId
    } else {
        start
    }
}

/// What allocation above `start` gives when `m` is the largest registered identifier.
pub open spec fn allocated_above_max(m: ObjectId, start: ObjectId) -> ObjectId {
    if m >= start {
        (m + 1) as ObjectId
    } else {
        start
    }
}

/// The registry after `task` has been applied to `objects`.
pub open spec fn apply_task_spec<H>(objects: Map<ObjectId, Option<H>>, task: Task<H>) -> Map<
    ObjectId,
    Option<H>,
> {
    match task {
        Task::Create { id, object } => objects.insert(id, Some(object)),
        Task::Destroy { id } => objects.remove(id),
        Task::NoChange => objects,
    }
}

/// The registry once the handler `h`, taken out of slot `id` for its dispatch, is put back:
/// only where the slot is still there and still empty.
pub open spec fn restored<H>(objects: Map<ObjectId, Option<H>>, id: ObjectId, h: H) -> Map<
    ObjectId,
    Option<H>,
> {
    if objects.contains_key(id) && objects[id] is None {
        objects.insert(id, Some(h))
    } else {
        objects
    }
}

/// What one dispatch of a message was given and what came of it.
pub struct Dispatch<H> {
    /// The message's header.
    pub header: Header,
    /// The handler, as it was taken out of its slot.
    pub handler: H,
    /// The handler, as its dispatch left it.
    pub handler_after: H,
    /// The payload cursor it was handed.
    pub bytes_given: ByteCursor,
    /// The descriptor cursor it was handed.
    pub fds_given: ByteCursor,
    /// The descriptor cursor, as its dispatch left it.
    pub fds_left: ByteCursor,
    /// The registry, as its dispatch left it.
    pub table_left: Map<ObjectId, Option<H>>,
    /// What the handler returned.
    pub outcome: Result<Task<H>, SkylaneError>,
}

impl<H> Dispatch<H> {
    /// The registry once the dispatch is over: the handler is put back where its slot is
    /// still empty, and the task it returned, if it succeeded, is applied.
    pub open spec fn result_table(self) -> Map<ObjectId, Option<H>> {
        let kept = restored(self.table_left, self.header.object_id, self.handler_after);
        match self.outcome {
            Ok(task) => apply_task_spec(kept, task),
            Err(_) => kept,
        }
    }

    /// What the dispatch reports to its caller: success, or the handler's error unchanged.
    pub open spec fn reported(self) -> Result<(), SkylaneError> {
        match self.outcome {
            Ok(_) => Ok(()),
            Err(e) => Err(e),
        }
    }
}

/// Registered objects and the socket of one connection. This is the view that handlers get
/// while they dispatch a message.
///
/// Allocation hands out one more than the largest registered identifier of its range, and
/// never reuses freed identifiers below it.
///
/// Its view maps each registered identifier to its handler. A handler whose dispatch is
/// under way is out of its slot: its identifier stays registered (so allocation does not
/// hand it out again) and maps to `None`.
pub struct Bundle<H> {
    socket: Socket,
    objects: HashMap<ObjectId, Option<H>>,
    dispatches: Ghost<Seq<Dispatch<H>>>,
}

impl<H> View for Bundle<H> {
    type V = Map<ObjectId, Option<H>>;

    closed spec fn view(&self) -> Map<ObjectId, Option<H>> {
        self.objects@
    }
}

impl<H> Bundle<H> {
    /// The connection's socket.
    pub closed spec fn socket_spec(&self) -> Socket {
        self.socket
    }

    /// Every dispatch made through this bundle, oldest first.
    pub closed spec fn dispatches(&self) -> Seq<Dispatch<H>> {
        self.dispatches@
    }

    /// Allocation cannot overflow: the largest identifier, `u32::MAX`, is not registered.
    pub open spec fn can_allocate(&self) -> bool {
        !self@.contains_key(u32::MAX)
    }

    /// Makes an empty registry over `socket`.
    pub fn new(socket: Socket) -> (r: Bundle<H>)
        ensures
            r@ == Map::<ObjectId, Option<H>>::empty(),
            r.socket_spec() == socket,
            r.dispatches() == Seq::<Dispatch<H>>::empty(),
    {
        Bundle {
            socket,
            objects: HashMap::new(),
            dispatches: Ghost(Seq::empty()),
        }
    }

    /// Returns the connection's socket.
    pub fn get_socket(&self) -> (r: &Socket)
        ensures
            *r == self.socket_spec(),
    {
        &self.socket
    }

    /// Returns the connection's socket for a change, such as taking the next serial.
    pub fn get_socket_mut(&mut self) -> (r: &mut Socket)
        ensures
            *r == old(self).socket_spec(),
            final(self).socket_spec() == *final(r),
            final(self)@ == old(self)@,
    {
        &mut self.socket
    }

    /// Returns the largest registered identifier, or `None` when nothing is registered.
    fn max_registered_id(&self) -> (r: Option<ObjectId>)
        ensures
            r is None <==> self@.dom().is_empty(),
            r matches Some(m) ==> is_max_id(self@.dom(), m),
    {
        let ghost keys = spec_keys_iter(&self.objects).remaining().unref();
        let ghost mut seen: int = 0;
        let mut best: Option<ObjectId> = None;
        for k in it: self.objects.keys()
            invariant
                it.seq().unref() == keys,
                seen == it.index(),
                keys.to_set() == self@.dom(),
                best is None <==> seen == 0,
                best matches Some(b) ==> {
                    &&& exists|j: int| 0 <= j < seen && keys[j] == b
                    &&& forall|j: int| 0 <= j < seen ==> keys[j] <= b
                },
        {
            proof {
                seen = seen + 1;
            }
            match best {
                Some(b) => {
                    if *k > b {
                        best = Some(*k);
                    }
                },
                None => {
                    best = Some(*k);
                },
            }
        }
        proof {
            assert(seen == keys.len());
            if let Some(b) = best {
                let j = choose|j: int| 0 <= j < seen && keys[j] == b;
                assert(keys.to_set().contains(keys[j]));
                assert forall|k: ObjectId| self@.dom().contains(k) implies k <= b by {
                    assert(keys.to_set().contains(k));
                    let i = keys.index_of(k);
                    assert(keys[i] == k);
                }
            } else {
                assert(keys.len() == 0);
                assert(self@.dom() =~= Set::empty());
            }
        }
        best
    }

    /// Returns the identifier allocated above `start` (see `next_available_id`).
    fn next_available_above(&self, start: ObjectId) -> (r: ObjectId)
        requires
            self.can_allocate(),
        ensures
            r == next_available_id(self@.dom(), start),
            forall|m: ObjectId| is_max_id(self@.dom(), m) ==> r == allocated_above_max(m, start),
            r >= start,
            !self@.contains_key(r),
    {
        proof {
            lemma_allocation_bounds(self@.dom(), start);
        }
        match self.max_registered_id() {
            Some(max) => {
                proof {
                    assert(max_id(self@.dom()) == max);
                    assert forall|m: ObjectId| is_max_id(self@.dom(), m) implies m == max by {
                        assert(m <= max && max <= m);
                    }
                }
                if max >= start {
                    max + 1
                } else {
                    start
                }
            },
            None => start,
        }
    }

    /// Returns the next client object ID: `DISPLAY_ID` when nothing is registered or
    /// every registered ID lies below it, else one more than the largest registered ID.
    pub fn get_next_available_client_object_id(&self) -> (r: ObjectId)
        requires
            self.can_allocate(),
        ensures
            r == next_available_id(self@.dom(), DISPLAY_ID),
            forall|m: ObjectId| is_max_id(self@.dom(), m) ==> r == allocated_above_max(m, DISPLAY_ID),
            r >= DISPLAY_ID,
            !self@.contains_key(r),
    {
        self.next_available_above(DISPLAY_ID)
    }

    /// Returns the next server object ID: `SERVER_START_ID` when nothing is registered or
    /// every registered ID lies below it, else one more than the largest registered ID.
    pub fn get_next_available_server_object_id(&self) -> (r: ObjectId)
        requires
            self.can_allocate(),
        ensures
            r == next_available_id(self@.dom(), SERVER_START_ID),
            forall|m: ObjectId| is_max_id(self@.dom(), m) ==> r == allocated_above_max(m, SERVER_START_ID),
            r >= SERVER_START_ID,
            !self@.contains_key(r),
    {
        self.next_available_above(SERVER_START_ID)
    }

    /// Registers `object` under `id`, replacing any object registered there.
    pub fn add_object(&mut self, id: ObjectId, object: H)
        ensures
            final(self)@ == old(self)@.insert(id, Some(object)),
            final(self).socket_spec() == old(self).socket_spec(),
    {
        self.objects.insert(id, Some(object));
    }

    /// Registers `object` under the next client object ID and returns that ID.
    pub fn add_next_client_object(&mut self, object: H) -> (r: ObjectId)
        requires
            old(self).can_allocate(),
        ensures
            r == next_available_id(old(self)@.dom(), DISPLAY_ID),
            forall|m: ObjectId|
                is_max_id(old(self)@.dom(), m) ==> r == allocated_above_max(m, DISPLAY_ID),
            r >= DISPLAY_ID,
            !old(self)@.contains_key(r),
            final(self)@ == old(self)@.insert(r, Some(object)),
            final(self).socket_spec() == old(self).socket_spec(),
    {
        let id = self.get_next_available_client_object_id();
        self.add_object(id, object);
        id
    }

    /// Registers `object` under the next server object ID and returns that ID.
    pub fn add_next_server_object(&mut self, object: H) -> (r: ObjectId)
        requires
            old(self).can_allocate(),
        ensures
            r == next_available_id(old(self)@.dom(), SERVER_START_ID),
            forall|m: ObjectId|
                is_max_id(old(self)@.dom(), m) ==> r == allocated_above_max(m, SERVER_START_ID),
            r >= SERVER_START_ID,
            !old(self)@.contains_key(r),
            final(self)@ == old(self)@.insert(r, Some(object)),
            final(self).socket_spec() == old(self).socket_spec(),
    {
        let id = self.get_next_available_server_object_id();
        self.add_object(id, object);
        id
    }

    /// Removes the object registered under `id`, if any.
    pub fn remove_object(&mut self, id: ObjectId)
        ensures
            final(self)@ == old(self)@.remove(id),
            final(self).socket_spec() == old(self).socket_spec(),
    {
        self.objects.remove(&id);
    }

    /// Tells whether `id` is registered (also while its handler is dispatching).
    pub fn contains_object(&self, id: ObjectId) -> (r: bool)
        ensures
            r == self@.contains_key(id),
    {
        self.objects.contains_key(&id)
    }

    /// Returns the handler registered under `id`, or `WrongObject` when there is none (or
    /// its dispatch is under way).
    pub fn get_handler(&self, id: ObjectId) -> (r: Result<&H, SkylaneError>)
        ensures
            r is Ok <==> (self@.contains_key(id) && self@[id] is Some),
            r matches Ok(h) ==> self@[id] == Some(*h),
            r matches Err(e) ==> e == (SkylaneError::WrongObject { object_id: id }),
    {
        match self.objects.get(&id) {
            Some(slot) => match slot {
                Some(h) => Ok(h),
                None => Err(SkylaneError::WrongObject { object_id: id }),
            },
            None => Err(SkylaneError::WrongObject { object_id: id }),
        }
    }

    /// Applies the registry change that a handler requested.
    pub fn apply_task(&mut self, task: Task<H>)
        ensures
            final(self)@ == apply_task_spec(old(self)@, task),
            final(self).socket_spec() == old(self).socket_spec(),
    {
        match task {
            Task::Create { id, object } => self.add_object(id, object),
            Task::Destroy { id } => self.remove_object(id),
            Task::NoChange => {},
        }
    }

    /// Takes the handler under `id` out of its slot for a dispatch, leaving the slot
    /// registered and empty.
    pub(crate) fn take_handler(&mut self, id: ObjectId) -> (r: Result<H, SkylaneError>)
        ensures
            r is Ok <==> (old(self)@.contains_key(id) && old(self)@[id] is Some),
            r matches Ok(h) ==> old(self)@[id] == Some(h),
            r matches Ok(h) ==> final(self)@ == old(self)@.insert(id, None),
            r matches Err(e) ==> e == (SkylaneError::WrongObject { object_id: id }),
            r is Err ==> final(self)@ == old(self)@,
            final(self).socket_spec() == old(self).socket_spec(),
            final(self).dispatches() == old(self).dispatches(),
    {
        match self.objects.remove(&id) {
            Some(slot) => match slot {
                Some(h) => {
                    self.objects.insert(id, None);
                    Ok(h)
                },
                None => {
                    self.objects.insert(id, None);
                    proof {
                        assert(self@ =~= old(self)@);
                    }
                    Err(SkylaneError::WrongObject { object_id: id })
                },
            },
            None => {
                proof {
                    assert(self@ =~= old(self)@);
                }
                Err(SkylaneError::WrongObject { object_id: id })
            },
        }
    }

    /// Sets the record of dispatches.
    pub(crate) fn record_dispatches(&mut self, Ghost(log): Ghost<Seq<Dispatch<H>>>)
        ensures
            final(self)@ == old(self)@,
            final(self).socket_spec() == old(self).socket_spec(),
            final(self).dispatches() == log,
    {
        self.dispatches = Ghost(log);
    }

    /// Puts a handler taken out for its dispatch back into slot `id`, where that slot is
    /// still registered and empty; otherwise the handler is dropped.
    pub(crate) fn restore_handler(&mut self, id: ObjectId, h: H)
        ensures
            final(self)@ == restored(old(self)@, id, h),
            final(self).socket_spec() == old(self).socket_spec(),
            final(self).dispatches() == old(self).dispatches(),
    {
        let empty = match self.objects.get(&id) {
            Some(slot) => slot.is_none(),
            None => false,
        };
        if empty {
            self.objects.insert(id, Some(h));
        }
    }
}

/// Every finite, non-empty set of identifiers has a largest element.
pub proof fn lemma_max_id_exists(ids: Set<ObjectId>)
    requires
        ids.finite(),
        !ids.is_empty(),
    ensures
        is_max_id(ids, max_id(ids)),
    decreases ids.len(),
{
    let x = ids.choose();
    assert(ids.len() != 0) by {
        if ids.len() == 0 {
            assert(ids =~= Set::empty());
        }
    }
    let rest = ids.remove(x);
    if rest.is_empty() {
        assert forall|k: ObjectId| ids.contains(k) implies k <= x by {
            if k != x {
                assert(rest.contains(k));
            }
        }
        assert(is_max_id(ids, x));
    } else {
        lemma_max_id_exists(rest);
        let m = max_id(rest);
        if x > m {
            assert(is_max_id(ids, x));
        } else {
            assert forall|k: ObjectId| ids.contains(k) implies k <= m by {
                if k != x {
                    assert(rest.contains(k));
                }
            }
            assert(is_max_id(ids, m));
        }
    }
}

/// Allocation stays in the range that begins at `start` and never hands out an identifier
/// that is registered: on no registered identifiers it gives `start`, otherwise `start`
/// where every registered identifier lies below it, else one more than the largest.
pub proof fn lemma_allocation_bounds(ids: Set<ObjectId>, start: ObjectId)
    requires
        ids.finite(),
        !ids.contains(u32::MAX),
    ensures
        next_available_id(ids, start) >= start,
        !ids.contains(next_available_id(ids, start)),
        ids.is_empty() ==> next_available_id(ids, start) == start,
        forall|m: ObjectId| is_max_id(ids, m) ==> next_available_id(ids, start)
            == allocated_above_max(m, start),
{
    if !ids.is_empty() {
        lemma_max_id_exists(ids);
        let m = max_id(ids);
        assert(m < u32::MAX);
        if !(m >= start) {
            assert(!ids.contains(start));
        }
        assert forall|k: ObjectId| is_max_id(ids, k) implies k == m by {
            assert(k <= m && m <= k);
        }
    } else {
        assert forall|k: ObjectId| !is_max_id(ids, k) by {
            assert(!ids.contains(k));
        }
    }
}

/// Registering `h1` and then `h2` under one identifier leaves only `h2` there: the registry
/// is the same as after registering `h2` alone.
pub proof fn lemma_insert_overwrites<H>(objects: Map<ObjectId, Option<H>>, id: ObjectId, h1: H, h2: H)
    ensures
        objects.insert(id, Some(h1)).insert(id, Some(h2)) == objects.insert(id, Some(h2)),
        objects.insert(id, Some(h1)).insert(id, Some(h2))[id] == Some(h2),
{
    assert(objects.insert(id, Some(h1)).insert(id, Some(h2)) =~= objects.insert(id, Some(h2)));
}

/// Removing an identifier that is not registered changes nothing, and after a removal the
/// identifier is not registered, so a lookup of it fails with `WrongObject`.
pub proof fn lemma_remove_idempotent<H>(objects: Map<ObjectId, Option<H>>, id: ObjectId)
    ensures
        !objects.contains_key(id) ==> objects.remove(id) == objects,
        !objects.remove(id).contains_key(id),
        objects.remove(id).remove(id) == objects.remove(id),
{
    if !objects.contains_key(id) {
        assert(objects.remove(id) =~= objects);
    }
    assert(objects.remove(id).remove(id) =~= objects.remove(id));
}

/// A `Create` task registers its object under its identifier, a `Destroy` task leaves its
/// identifier unregistered (also where a handler destroys itself), and `NoChange` leaves
/// the registry as it is.
pub proof fn lemma_task_application<H>(objects: Map<ObjectId, Option<H>>, task: Task<H>)
    ensures
        task matches Task::Create { id, object } ==> apply_task_spec(objects, task)[id] == Some(
            object,
        ) && apply_task_spec(objects, task).contains_key(id),
        task matches Task::Destroy { id } ==> !apply_task_spec(objects, task).contains_key(id),
        task is NoChange ==> apply_task_spec(objects, task) == objects,
{
}

} // verus!
