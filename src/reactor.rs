//! The reactor of the decoupled model: a polling thread publishes ready event
//! ids while consumers change interests through the reactor's table.
use vstd::prelude::*;

use crate::interest::{Interest, ReadyEvent};
use crate::registry::{remove_step, CtlOp, Registration, Registry, RegistryError};
use crate::EventId;

verus! {

/// Holds the interest table of the running poller; empty until it runs.
pub struct Reactor {
    pub registry: Option<Registry>,
}

impl Reactor {
    /// The ids that the polling thread publishes for one batch of ready
    /// events: one per event, in the order of the batch.
    pub fn event_ids(batch: &[ReadyEvent]) -> (r: Vec<EventId>)
        ensures
            r@ == batch@.map_values(|e: ReadyEvent| e.id),
    {
        let mut ids: Vec<EventId> = Vec::new();
        let mut i: usize = 0;
        while i < batch.len()
            invariant
                i <= batch@.len(),
                ids@ == batch@.subrange(0, i as int).map_values(|e: ReadyEvent| e.id),
            decreases batch.len() - i,
        {
            ids.push(batch[i].id);
            i = i + 1;
            assert(ids@ =~= batch@.subrange(0, i as int).map_values(|e: ReadyEvent| e.id));
        }
        assert(batch@.subrange(0, i as int) =~= batch@);
        ids
    }

    /// A reactor whose poller has not started.
    pub fn new() -> (r: Self)
        ensures
            r.registry is None,
    {
        Self { registry: None }
    }

    /// Takes the interest table of the poller that was just started.
    pub fn attach(&mut self, registry: Registry)
        ensures
            final(self).registry == Some(registry),
    {
        self.registry = Some(registry);
    }

    /// Watches `fd` for reading under `event_id`; says which control
    /// operation the readiness facility needs for it.
    pub fn read_interest(&mut self, fd: i32, event_id: EventId) -> (r: CtlOp)
        requires
            old(self).registry is Some,
        ensures
            final(self).registry is Some,
            final(self).registry->0@ == old(self).registry->0@.insert(
                fd,
                Registration { id: event_id, interest: Interest::Readable },
            ),
            final(self).registry->0.spec_epfd() == old(self).registry->0.spec_epfd(),
            r == (if old(self).registry->0@.contains_key(fd) {
                CtlOp::Modify
            } else {
                CtlOp::Add
            }),
    {
        match &mut self.registry {
            Some(reg) => reg.register(fd, event_id, Interest::Readable),
            None => CtlOp::Add,
        }
    }

    /// Watches `fd` for writing under `event_id`; says which control
    /// operation the readiness facility needs for it.
    pub fn write_interest(&mut self, fd: i32, event_id: EventId) -> (r: CtlOp)
        requires
            old(self).registry is Some,
        ensures
            final(self).registry is Some,
            final(self).registry->0@ == old(self).registry->0@.insert(
                fd,
                Registration { id: event_id, interest: Interest::Writable },
            ),
            final(self).registry->0.spec_epfd() == old(self).registry->0.spec_epfd(),
            r == (if old(self).registry->0@.contains_key(fd) {
                CtlOp::Modify
            } else {
                CtlOp::Add
            }),
    {
        match &mut self.registry {
            Some(reg) => reg.register(fd, event_id, Interest::Writable),
            None => CtlOp::Add,
        }
    }

    /// Stops watching `fd`; an unregistered `fd` is an error.
    pub fn close(&mut self, fd: i32) -> (r: Result<(), RegistryError>)
        requires
            old(self).registry is Some,
        ensures
            final(self).registry is Some,
            (r, final(self).registry->0@) == remove_step(old(self).registry->0@, fd),
            final(self).registry->0.spec_epfd() == old(self).registry->0.spec_epfd(),
    {
        match &mut self.registry {
            Some(reg) => reg.remove_interest(fd),
            None => Ok(()),
        }
    }
}

} // verus!
