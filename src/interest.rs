//! Interests a descriptor can be watched for, and what a ready event reports.
use vstd::prelude::*;

verus! {

/// Readable bit of an epoll event mask.
pub const READABLE_BIT: u32 = 0x1;

/// Writable bit of an epoll event mask.
pub const WRITABLE_BIT: u32 = 0x4;

/// One-shot bit: the registration is disarmed after it reports once.
pub const ONESHOT_BIT: u32 = 0x4000_0000;

/// Relies on libc::EPOLLIN: the readable bit of an epoll mask, 0x1 on Linux.
#[verifier::external_body]
fn epoll_in() -> (r: u32)
    ensures
        r == READABLE_BIT,
{
    libc::EPOLLIN as u32
}

/// Relies on libc::EPOLLOUT: the writable bit of an epoll mask, 0x4 on Linux.
#[verifier::external_body]
fn epoll_out() -> (r: u32)
    ensures
        r == WRITABLE_BIT,
{
    libc::EPOLLOUT as u32
}

/// Relies on libc::EPOLLONESHOT: the one-shot bit of an epoll mask,
/// 0x40000000 on Linux.
#[verifier::external_body]
fn epoll_oneshot() -> (r: u32)
    ensures
        r == ONESHOT_BIT,
{
    libc::EPOLLONESHOT as u32
}

/// The single readiness condition a descriptor is watched for.
#[derive(Clone, Copy, Debug, PartialEq, Eq, Structural)]
pub enum Interest {
    Readable,
    Writable,
}

/// What a ready event reports about its descriptor.
#[derive(Clone, Copy, Debug, PartialEq, Eq, Structural)]
pub enum Readiness {
    Readable,
    Writable,
    Both,
}

/// One ready event of a batch: the id it was registered under and the epoll
/// mask of what is ready.
#[derive(Clone, Copy, Debug, PartialEq, Eq, Structural)]
pub struct ReadyEvent {
    pub id: u64,
    pub mask: u32,
}

/// The epoll mask that arms a one-shot watch for `i`.
pub open spec fn interest_mask(i: Interest) -> u32 {
    match i {
        Interest::Readable => 0x4000_0001u32,
        Interest::Writable => 0x4000_0004u32,
    }
}

/// What an epoll mask reports: `None` when neither readable nor writable.
pub open spec fn readiness_of(mask: u32) -> Option<Readiness> {
    let r = mask % 2 == 1;
    let w = (mask / 4) % 2 == 1;
    if r && w {
        Some(Readiness::Both)
    } else if r {
        Some(Readiness::Readable)
    } else if w {
        Some(Readiness::Writable)
    } else {
        None
    }
}

impl Interest {
    /// The epoll mask for a one-shot watch of this interest.
    pub fn mask(self) -> (r: u32)
        ensures
            r == interest_mask(self),
    {
        let oneshot = epoll_oneshot();
        match self {
            Interest::Readable => {
                let bit = epoll_in();
                assert(0x4000_0000u32 | 0x1u32 == 0x4000_0001u32) by (bit_vector);
                oneshot | bit
            },
            Interest::Writable => {
                let bit = epoll_out();
                assert(0x4000_0000u32 | 0x4u32 == 0x4000_0004u32) by (bit_vector);
                oneshot | bit
            },
        }
    }
}

impl Readiness {
    /// Decodes the readiness flags of a raw epoll event mask.
    pub fn from_mask(mask: u32) -> (r: Option<Readiness>)
        ensures
            r == readiness_of(mask),
    {
        let rbit = epoll_in();
        let wbit = epoll_out();
        let r = mask & rbit == rbit;
        let w = mask & wbit == wbit;
        assert(mask & 0x1u32 == 0x1u32 <==> mask % 2 == 1) by (bit_vector);
        assert(mask & 0x4u32 == 0x4u32 <==> (mask / 4) % 2 == 1) by (bit_vector);
        if r && w {
            Some(Readiness::Both)
        } else if r {
            Some(Readiness::Readable)
        } else if w {
            Some(Readiness::Writable)
        } else {
            None
        }
    }

    /// Whether a connection reporting this readiness is read: reading wins
    /// over writing when both are reported.
    pub open spec fn reads(self) -> bool {
        self != Readiness::Writable
    }
}

} // verus!
