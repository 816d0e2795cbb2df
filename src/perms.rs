use vstd::prelude::*;

use crate::sealed::Sealed;

verus! {

/// Single-use proof that a reservation under `tag` may be activated.
pub struct Token {
    pub(crate) tag: u64,
}

/// Witnesses that grant read access to the data under their tag. Only this
/// crate's witnesses implement it.
pub trait AllowsRead: Sealed {
    spec fn tag(&self) -> u64;
}

/// Witnesses that grant write access to the data under their tag.
pub trait AllowsWrite: AllowsRead {
}

/// A pending-exclusive right: reads are allowed, writes are not.
pub struct Reserved {
    pub(crate) tag: u64,
}

impl Sealed for Reserved {
}

impl AllowsRead for Reserved {
    closed spec fn tag(&self) -> u64 {
        self.tag
    }
}

/// A shared read right; any number may coexist for one tag.
#[derive(Clone, Copy)]
pub struct Read {
    pub(crate) tag: u64,
}

impl Sealed for Read {
}

impl AllowsRead for Read {
    closed spec fn tag(&self) -> u64 {
        self.tag
    }
}

/// The exclusive access right for a tag.
pub struct Write {
    pub(crate) tag: u64,
}

impl Sealed for Write {
}

impl AllowsRead for Write {
    closed spec fn tag(&self) -> u64 {
        self.tag
    }
}

impl AllowsWrite for Write {
}

/// The right and duty to free one allocation.
pub struct Dealloc {
    pub(crate) tag: u64,
}

impl Token {
    pub closed spec fn tag(&self) -> u64 {
        self.tag
    }
}

impl Dealloc {
    pub closed spec fn tag(&self) -> u64 {
        self.tag
    }
}

impl Token {
    pub(crate) fn new(tag: u64) -> (r: Self)
        ensures
            r.tag() == tag,
    {
        Token { tag }
    }
}

impl Reserved {
    pub(crate) fn new(tag: u64) -> (r: Self)
        ensures
            r.tag() == tag,
    {
        Reserved { tag }
    }
}

impl Read {
    pub(crate) fn new(tag: u64) -> (r: Self)
        ensures
            r.tag() == tag,
    {
        Read { tag }
    }
}

impl Write {
    pub(crate) fn new(tag: u64) -> (r: Self)
        ensures
            r.tag() == tag,
    {
        Write { tag }
    }
}

impl Dealloc {
    pub(crate) fn new(tag: u64) -> (r: Self)
        ensures
            r.tag() == tag,
    {
        Dealloc { tag }
    }
}

} // verus!
