//! The connection table of the single-threaded event loop, and the decision
//! of what each ready event means for it.
use vstd::prelude::*;

use std::collections::HashMap;

use crate::connection::{length_after, read_outcome, state_after, ConnState, RequestContext};
use crate::framing::FramingError;
use crate::interest::{readiness_of, Interest, Readiness};
use crate::EventId;

verus! {

broadcast use vstd::std_specs::hash::group_hash_axioms;

/// The event id reserved for the listening socket.
pub const LISTENER_ID: EventId = 100;

/// What the loop must do for one ready event.
#[derive(Clone, Copy, Debug, PartialEq, Eq, Structural)]
pub enum Dispatch {
    /// The listener is ready: accept a connection and re-arm the listener.
    Accept,
    /// Read from the connection with this id.
    Read(EventId),
    /// Answer the connection with this id and close it.
    Write(EventId),
    /// Nothing: the id is no longer live, or the event reports nothing.
    Ignore,
}

/// What became of a connection after a read.
#[derive(Clone, Copy, Debug, PartialEq, Eq, Structural)]
pub enum ReadStep {
    /// The connection stays; arm this interest next.
    Rearm(Interest),
    /// The peer broke the framing header; the connection was evicted.
    Dropped(FramingError),
    /// No connection has this id.
    Gone,
}

/// The live connections of the event loop, by event id.
pub struct Server {
    contexts: HashMap<EventId, RequestContext>,
    last_id: EventId,
}

/// The action for an event with id `id` and epoll mask `mask`, given the
/// live connections `table`. Reading wins over writing when both are ready.
pub open spec fn dispatch_of(table: Map<EventId, RequestContext>, id: EventId, mask: u32) -> Dispatch {
    if id == LISTENER_ID {
        Dispatch::Accept
    } else if !table.contains_key(id) {
        Dispatch::Ignore
    } else {
        match readiness_of(mask) {
            Some(r) => if r.reads() {
                Dispatch::Read(id)
            } else {
                Dispatch::Write(id)
            },
            None => Dispatch::Ignore,
        }
    }
}

/// Evicting `id` after its writable callback: whether an entry was there,
/// and the table without it.
pub open spec fn write_step(table: Map<EventId, RequestContext>, id: EventId) -> (
    bool,
    Map<EventId, RequestContext>,
) {
    (table.contains_key(id), table.remove(id))
}

impl Server {
    /// The live connections.
    pub closed spec fn table(&self) -> Map<EventId, RequestContext> {
        self.contexts@
    }

    /// The id handed to the latest accepted connection, `LISTENER_ID` before
    /// the first.
    pub closed spec fn last_id(&self) -> EventId {
        self.last_id
    }

    /// Every live id lies above the listener's and at most at the latest one
    /// handed out, and no live connection is closed.
    pub open spec fn wf(&self) -> bool {
        &&& LISTENER_ID <= self.last_id()
        &&& forall|k: EventId| #[trigger]
            self.table().contains_key(k) ==> LISTENER_ID < k <= self.last_id()
                && self.table()[k].state != ConnState::Closed
    }

    /// An event loop with no connection.
    pub fn new() -> (r: Server)
        ensures
            r.wf(),
            r.table() == Map::<EventId, RequestContext>::empty(),
            r.last_id() == LISTENER_ID,
    {
        Server { contexts: HashMap::new(), last_id: LISTENER_ID }
    }

    /// The number of requests in flight.
    pub fn len(&self) -> (r: usize)
        ensures
            r == self.table().len(),
    {
        self.contexts.len()
    }

    /// Whether a connection with id `id` is live.
    pub fn contains(&self, id: EventId) -> (r: bool)
        ensures
            r == self.table().contains_key(id),
    {
        self.contexts.contains_key(&id)
    }

    /// What the ready event (`id`, `mask`) asks of the loop.
    pub fn dispatch(&self, id: EventId, mask: u32) -> (r: Dispatch)
        ensures
            r == dispatch_of(self.table(), id, mask),
    {
        if id == LISTENER_ID {
            return Dispatch::Accept;
        }
        if !self.contexts.contains_key(&id) {
            return Dispatch::Ignore;
        }
        match Readiness::from_mask(mask) {
            Some(Readiness::Writable) => Dispatch::Write(id),
            Some(_) => Dispatch::Read(id),
            None => Dispatch::Ignore,
        }
    }

    /// Enters a newly accepted connection under the next id and returns that
    /// id; `None`, with nothing changed, once the ids are used up.
    pub fn accept(&mut self) -> (r: Option<EventId>)
        requires
            old(self).wf(),
        ensures
            final(self).wf(),
            old(self).last_id() == u64::MAX ==> r is None && final(self).table() == old(
                self,
            ).table() && final(self).last_id() == old(self).last_id(),
            old(self).last_id() < u64::MAX ==> {
                let k = (old(self).last_id() + 1) as EventId;
                &&& r == Some(k)
                &&& final(self).last_id() == k
                &&& !old(self).table().contains_key(k)
                &&& final(self).table().contains_key(k)
                &&& final(self).table().remove(k) == old(self).table()
                &&& final(self).table()[k].buf@ == Seq::<u8>::empty()
                &&& final(self).table()[k].content_length == 0
                &&& final(self).table()[k].state == ConnState::Reading
            },
    {
        if self.last_id == u64::MAX {
            return None;
        }
        let k = self.last_id + 1;
        self.last_id = k;
        self.contexts.insert(k, RequestContext::new());
        assert(self.table().remove(k) =~= old(self).table());
        Some(k)
    }

    /// Hands the bytes `received` by a read of connection `id` to its state
    /// machine. A malformed framing header evicts the connection.
    pub fn on_readable(&mut self, id: EventId, received: &[u8]) -> (r: ReadStep)
        requires
            old(self).wf(),
            old(self).table().contains_key(id) ==> old(self).table()[id].buf@.len()
                + received@.len() <= usize::MAX,
        ensures
            final(self).wf(),
            final(self).last_id() == old(self).last_id(),
            !old(self).table().contains_key(id) ==> r == ReadStep::Gone && final(self).table()
                == old(self).table(),
            old(self).table().contains_key(id) ==> {
                let prev = old(self).table()[id];
                let total = prev.buf@ + received@;
                match read_outcome(total, prev.content_length) {
                    Ok(i) => {
                        &&& r == ReadStep::Rearm(i)
                        &&& final(self).table().contains_key(id)
                        &&& final(self).table().remove(id) == old(self).table().remove(id)
                        &&& final(self).table()[id].buf@ == total
                        &&& final(self).table()[id].content_length == length_after(
                            total,
                            prev.content_length,
                        )
                        &&& final(self).table()[id].state == state_after(total, prev.content_length)
                    },
                    Err(e) => r == ReadStep::Dropped(e) && final(self).table() == old(
                        self,
                    ).table().remove(id),
                }
            },
    {
        match self.contexts.remove(&id) {
            None => ReadStep::Gone,
            Some(mut ctx) => {
                let ghost total = ctx.buf@ + received@;
                let res = ctx.read_cb(received);
                match res {
                    Ok(i) => {
                        assert(ctx.state != ConnState::Closed);
                        self.contexts.insert(id, ctx);
                        assert(self.table().remove(id) =~= old(self).table().remove(id));
                        ReadStep::Rearm(i)
                    },
                    Err(e) => ReadStep::Dropped(e),
                }
            },
        }
    }

    /// Runs the writable callback of connection `id` and evicts it; says
    /// whether there was such a connection.
    pub fn on_writable(&mut self, id: EventId) -> (r: bool)
        requires
            old(self).wf(),
        ensures
            final(self).wf(),
            final(self).last_id() == old(self).last_id(),
            (r, final(self).table()) == write_step(old(self).table(), id),
    {
        match self.contexts.remove(&id) {
            None => false,
            Some(mut ctx) => {
                ctx.write_cb();
                true
            },
        }
    }

    /// Evicts connection `id` after an I/O failure on it; says whether there
    /// was such a connection.
    pub fn evict(&mut self, id: EventId) -> (r: bool)
        requires
            old(self).wf(),
        ensures
            final(self).wf(),
            final(self).last_id() == old(self).last_id(),
            r == old(self).table().contains_key(id),
            final(self).table() == old(self).table().remove(id),
    {
        self.contexts.remove(&id).is_some()
    }
}

/// A connection is evicted by its writable callback exactly once: afterwards
/// its id is no longer live, any later event for it is ignored, and a second
/// eviction finds nothing and changes nothing.
pub proof fn lemma_evicted_exactly_once(
    table: Map<EventId, RequestContext>,
    id: EventId,
    mask: u32,
)
    requires
        table.contains_key(id),
        id != LISTENER_ID,
    ensures
        ({
            let (r1, t1) = write_step(table, id);
            let (r2, t2) = write_step(t1, id);
            &&& r1
            &&& !t1.contains_key(id)
            &&& dispatch_of(t1, id, mask) == Dispatch::Ignore
            &&& !r2
            &&& t2 == t1
        }),
{
    let t1 = table.remove(id);
    assert(t1.remove(id) =~= t1);
}

} // verus!
