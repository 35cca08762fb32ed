//! The interest table of a readiness facility: which descriptor is watched
//! for what, under which event id.
use vstd::prelude::*;

use std::collections::HashMap;

use crate::interest::Interest;
use crate::EventId;

verus! {

broadcast use vstd::std_specs::hash::group_hash_axioms;

/// The watch registered for one descriptor.
#[derive(Clone, Copy, Debug, PartialEq, Eq, Structural)]
pub struct Registration {
    pub id: EventId,
    pub interest: Interest,
}

/// Why a change to the interest table was refused.
#[derive(Clone, Copy, Debug, PartialEq, Eq, Structural)]
pub enum RegistryError {
    /// The descriptor is registered already.
    AlreadyRegistered,
    /// The descriptor is not registered.
    NotRegistered,
}

/// The control operation that brings the readiness facility in line with a
/// change of the table.
#[derive(Clone, Copy, Debug, PartialEq, Eq, Structural)]
pub enum CtlOp {
    Add,
    Modify,
}

/// Interest table of one polling context, addressed by descriptor.
pub struct Registry {
    epfd: i32,
    sources: HashMap<i32, Registration>,
}

/// Adding a registration: refused, with the table unchanged, when `fd` is
/// registered already.
pub open spec fn add_step(m: Map<i32, Registration>, fd: i32, reg: Registration) -> (
    Result<(), RegistryError>,
    Map<i32, Registration>,
) {
    if m.contains_key(fd) {
        (Err(RegistryError::AlreadyRegistered), m)
    } else {
        (Ok(()), m.insert(fd, reg))
    }
}

/// Replacing a registration: refused, with the table unchanged, when `fd` is
/// not registered.
pub open spec fn modify_step(m: Map<i32, Registration>, fd: i32, reg: Registration) -> (
    Result<(), RegistryError>,
    Map<i32, Registration>,
) {
    if m.contains_key(fd) {
        (Ok(()), m.insert(fd, reg))
    } else {
        (Err(RegistryError::NotRegistered), m)
    }
}

/// Removing a registration: refused, with the table unchanged, when `fd` is
/// not registered.
pub open spec fn remove_step(m: Map<i32, Registration>, fd: i32) -> (
    Result<(), RegistryError>,
    Map<i32, Registration>,
) {
    if m.contains_key(fd) {
        (Ok(()), m.remove(fd))
    } else {
        (Err(RegistryError::NotRegistered), m)
    }
}

impl View for Registry {
    type V = Map<i32, Registration>;

    closed spec fn view(&self) -> Map<i32, Registration> {
        self.sources@
    }
}

impl Registry {
    /// The descriptor of the polling context this table belongs to.
    pub closed spec fn spec_epfd(&self) -> i32 {
        self.epfd
    }

    /// An empty table for the polling context `epfd`.
    pub fn new(epfd: i32) -> (r: Registry)
        ensures
            r@ == Map::<i32, Registration>::empty(),
            r.spec_epfd() == epfd,
    {
        Registry { epfd, sources: HashMap::new() }
    }

    /// The descriptor of the polling context.
    pub fn epfd(&self) -> (r: i32)
        ensures
            r == self.spec_epfd(),
    {
        self.epfd
    }

    /// Whether `fd` is registered.
    pub fn is_registered(&self, fd: i32) -> (r: bool)
        ensures
            r == self@.contains_key(fd),
    {
        self.sources.contains_key(&fd)
    }

    /// The registration of `fd`, if any.
    pub fn registration(&self, fd: i32) -> (r: Option<Registration>)
        ensures
            r == (if self@.contains_key(fd) {
                Some(self@[fd])
            } else {
                None
            }),
    {
        match self.sources.get(&fd) {
            Some(reg) => Some(*reg),
            None => None,
        }
    }

    /// Registers `fd` for `interest` under `id`; a second registration of the
    /// same descriptor is an error and keeps the first.
    pub fn add_interest(&mut self, fd: i32, id: EventId, interest: Interest) -> (r: Result<
        (),
        RegistryError,
    >)
        ensures
            (r, final(self)@) == add_step(old(self)@, fd, Registration { id, interest }),
            final(self).spec_epfd() == old(self).spec_epfd(),
    {
        if self.sources.contains_key(&fd) {
            return Err(RegistryError::AlreadyRegistered);
        }
        self.sources.insert(fd, Registration { id, interest });
        Ok(())
    }

    /// Replaces the watch of a registered `fd`.
    pub fn modify_interest(&mut self, fd: i32, id: EventId, interest: Interest) -> (r: Result<
        (),
        RegistryError,
    >)
        ensures
            (r, final(self)@) == modify_step(old(self)@, fd, Registration { id, interest }),
            final(self).spec_epfd() == old(self).spec_epfd(),
    {
        if !self.sources.contains_key(&fd) {
            return Err(RegistryError::NotRegistered);
        }
        self.sources.insert(fd, Registration { id, interest });
        Ok(())
    }

    /// Deregisters a registered `fd`.
    pub fn remove_interest(&mut self, fd: i32) -> (r: Result<(), RegistryError>)
        ensures
            (r, final(self)@) == remove_step(old(self)@, fd),
            final(self).spec_epfd() == old(self).spec_epfd(),
    {
        match self.sources.remove(&fd) {
            Some(_) => Ok(()),
            None => Err(RegistryError::NotRegistered),
        }
    }

    /// Watches `fd` for `interest` under `id`, whether or not it was
    /// registered, and says which control operation that takes.
    pub fn register(&mut self, fd: i32, id: EventId, interest: Interest) -> (r: CtlOp)
        ensures
            final(self)@ == old(self)@.insert(fd, Registration { id, interest }),
            r == (if old(self)@.contains_key(fd) {
                CtlOp::Modify
            } else {
                CtlOp::Add
            }),
            final(self).spec_epfd() == old(self).spec_epfd(),
    {
        let op = if self.sources.contains_key(&fd) {
            CtlOp::Modify
        } else {
            CtlOp::Add
        };
        self.sources.insert(fd, Registration { id, interest });
        op
    }
}

/// Registering a descriptor a second time fails and leaves the table as the
/// first registration made it; when the descriptor was free, that first
/// registration is the one that stays.
pub proof fn lemma_double_registration_rejected(
    m: Map<i32, Registration>,
    fd: i32,
    first: Registration,
    second: Registration,
)
    ensures
        ({
            let (r1, m1) = add_step(m, fd, first);
            let (r2, m2) = add_step(m1, fd, second);
            &&& r2 == Err::<(), RegistryError>(RegistryError::AlreadyRegistered)
            &&& m2 == m1
            &&& m2.contains_key(fd)
            &&& !m.contains_key(fd) ==> r1 is Ok && m2[fd] == first
            &&& m.contains_key(fd) ==> m2 == m
        }),
{
}

/// Modifying or removing the watch of a descriptor that is not registered
/// fails and changes nothing.
pub proof fn lemma_unregistered_rejected(m: Map<i32, Registration>, fd: i32, reg: Registration)
    requires
        !m.contains_key(fd),
    ensures
        modify_step(m, fd, reg) == (Err::<(), RegistryError>(RegistryError::NotRegistered), m),
        remove_step(m, fd) == (Err::<(), RegistryError>(RegistryError::NotRegistered), m),
{
}

} // verus!
