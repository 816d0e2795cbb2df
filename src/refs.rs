use vstd::prelude::*;

use crate::heap::{Access, Heap, Pointer, Tags};
use crate::laws::{
    lemma_activation_is_single, lemma_allocate_keeps_bound, lemma_nested_reservation,
    lemma_open_keeps_bound, lemma_shared_borrow_keeps_reads, lemma_store_keeps_access,
    lemma_write_implies_read,
};
use crate::perms::{AllowsRead, AllowsWrite, Dealloc, Read, Reserved, Token, Write};

verus! {

impl Pointer {
    /// The data behind this pointer, given any witness that allows reading under its tag.
    pub fn as_ref<'a, T, P: AllowsRead>(&self, heap: &'a Heap<T>, perm: &P) -> (r: &'a T)
        requires
            perm.tag() == self.tag(),
            heap@.can_read(self.addr(), self.tag()),
        ensures
            *r == heap@.value(self.addr()),
    {
        heap.cell(self.address())
    }

    /// Mutable access to the data behind this pointer, given a write witness for its tag.
    pub fn as_mut<'a, T, P: AllowsWrite>(&self, heap: &'a mut Heap<T>, perm: &P) -> (r: &'a mut T)
        requires
            perm.tag() == self.tag(),
            old(heap)@.wf(),
            old(heap)@.can_write(self.addr(), self.tag()),
        ensures
            *r == old(heap)@.value(self.addr()),
            final(heap)@ == old(heap)@.stored(self.addr(), *final(r)),
            final(heap)@.wf(),
            forall|n: nat| old(heap)@.tags_below(n) ==> #[trigger] final(heap)@.tags_below(n),
            final(heap)@.can_write(self.addr(), self.tag()),
            final(heap)@.can_read(self.addr(), self.tag()),
    {
        proof {
            lemma_store_keeps_access(heap@, self.addr());
            lemma_write_implies_read(heap@, self.addr(), self.tag());
        }
        heap.cell_mut(self.address())
    }

    /// A copy of the data behind this pointer.
    pub fn read<T: Copy, P: AllowsRead>(&self, heap: &Heap<T>, perm: &P) -> (r: T)
        requires
            perm.tag() == self.tag(),
            heap@.can_read(self.addr(), self.tag()),
        ensures
            r == heap@.value(self.addr()),
    {
        *heap.cell(self.address())
    }

    /// Replaces the data behind this pointer.
    pub fn write<T, P: AllowsWrite>(&self, heap: &mut Heap<T>, perm: &P, value: T)
        requires
            perm.tag() == self.tag(),
            old(heap)@.wf(),
            old(heap)@.can_write(self.addr(), self.tag()),
        ensures
            final(heap)@ == old(heap)@.stored(self.addr(), value),
            final(heap)@.wf(),
            forall|n: nat| old(heap)@.tags_below(n) ==> #[trigger] final(heap)@.tags_below(n),
            final(heap)@.can_write(self.addr(), self.tag()),
            final(heap)@.can_read(self.addr(), self.tag()),
    {
        proof {
            lemma_store_keeps_access(heap@, self.addr());
            lemma_write_implies_read(heap@, self.addr(), self.tag());
        }
        let cell = heap.cell_mut(self.address());
        *cell = value;
    }
}

/// An owned allocation: its pointer, the owner's write right and the right to free it.
///
/// A `Value` has no destructor: its cell is freed only by [`Value::free`]. A
/// `Value` that is dropped, or taken apart by [`Value::into_raw`] and never
/// rebuilt and freed, keeps its cell alive in the heap for as long as the heap.
pub struct Value {
    pointer: Pointer,
    permission: Write,
    dealloc: Dealloc,
}

impl Value {
    pub closed spec fn addr(&self) -> usize {
        self.pointer.addr()
    }

    pub closed spec fn tag(&self) -> u64 {
        self.pointer.tag()
    }

    /// The pointer, write right and dealloc right this value is made of.
    pub closed spec fn raw(&self) -> (Pointer, Write, Dealloc) {
        (self.pointer, self.permission, self.dealloc)
    }

    /// The three parts are bound to one tag.
    pub closed spec fn wf(&self) -> bool {
        &&& self.permission.tag() == self.pointer.tag()
        &&& self.dealloc.tag() == self.pointer.tag()
    }

    /// Allocates a cell holding `value`, owned by a fresh tag.
    pub fn new<T>(heap: &mut Heap<T>, tags: &mut Tags, value: T) -> (r: Value)
        requires
            old(heap)@.wf(),
            old(heap)@.tags_below(old(tags)@),
            old(tags)@ < u64::MAX,
            old(heap)@.cells.len() < usize::MAX,
        ensures
            final(heap)@ == old(heap)@.allocated(value, old(tags)@ as u64),
            final(heap)@.wf(),
            final(tags)@ == old(tags)@ + 1,
            final(heap)@.tags_below(final(tags)@),
            final(heap)@.can_write(r.addr(), r.tag()),
            final(heap)@.can_read(r.addr(), r.tag()),
            r.wf(),
            r.addr() == old(heap)@.cells.len(),
            r.tag() == old(tags)@,
    {
        let tag = tags.mint();
        proof {
            lemma_allocate_keeps_bound(heap@, value, tag);
        }
        let addr = heap.allocate(value, tag);
        proof {
            let h = heap@;
            assert forall|j: int| -1 < j < h.scopes.len() implies #[trigger] h.scopes[j].addr != addr by {
                assert(old(heap)@.live(old(heap)@.scopes[j].addr));
            }
            assert(h.quiet_above(addr, -1));
        }
        Value {
            pointer: Pointer::new(addr, tag),
            permission: Write::new(tag),
            dealloc: Dealloc::new(tag),
        }
    }

    /// The contained data.
    pub fn get<'a, T>(&self, heap: &'a Heap<T>) -> (r: &'a T)
        requires
            self.wf(),
            heap@.can_read(self.addr(), self.tag()),
        ensures
            *r == heap@.value(self.addr()),
    {
        self.pointer.as_ref(heap, &self.permission)
    }

    /// Mutable access to the contained data.
    pub fn get_mut<'a, T>(&self, heap: &'a mut Heap<T>) -> (r: &'a mut T)
        requires
            self.wf(),
            old(heap)@.wf(),
            old(heap)@.can_write(self.addr(), self.tag()),
        ensures
            *r == old(heap)@.value(self.addr()),
            final(heap)@ == old(heap)@.stored(self.addr(), *final(r)),
            final(heap)@.wf(),
            forall|n: nat| old(heap)@.tags_below(n) ==> #[trigger] final(heap)@.tags_below(n),
            final(heap)@.can_write(self.addr(), self.tag()),
            final(heap)@.can_read(self.addr(), self.tag()),
    {
        proof {
            lemma_store_keeps_access(heap@, self.addr());
            lemma_write_implies_read(heap@, self.addr(), self.tag());
        }
        self.pointer.as_mut(heap, &self.permission)
    }

    /// The pointer of this value.
    pub fn pointer(&self) -> (r: Pointer)
        ensures
            r.addr() == self.addr(),
            r.tag() == self.tag(),
    {
        self.pointer
    }

    /// Gives up the value as its pointer, write right and dealloc right, without freeing it.
    pub fn into_raw(self) -> (r: (Pointer, Write, Dealloc))
        requires
            self.wf(),
        ensures
            r == self.raw(),
            r.0.addr() == self.addr(),
            r.0.tag() == self.tag(),
            r.1.tag() == self.tag(),
            r.2.tag() == self.tag(),
    {
        (self.pointer, self.permission, self.dealloc)
    }

    /// Rebuilds a value from its three parts, which must carry one tag.
    pub fn from_raw(pointer: Pointer, permission: Write, dealloc: Dealloc) -> (r: Value)
        requires
            permission.tag() == pointer.tag(),
            dealloc.tag() == pointer.tag(),
        ensures
            r.raw() == (pointer, permission, dealloc),
            r.wf(),
            r.addr() == pointer.addr(),
            r.tag() == pointer.tag(),
    {
        Value { pointer, permission, dealloc }
    }

    /// Taking a value apart with `into_raw` and rebuilding it with `from_raw`
    /// from the same parts gives back the very same value: two values made of
    /// the same parts are equal.
    pub proof fn lemma_raw_round_trip(v: Value, w: Value)
        requires
            w.raw() == v.raw(),
        ensures
            w == v,
            w.addr() == v.addr(),
            w.tag() == v.tag(),
            w.wf() == v.wf(),
    {
    }

    /// Opens a read scope on the value under a fresh tag.
    pub fn borrow<T>(&self, heap: &mut Heap<T>, tags: &mut Tags) -> (r: Ref)
        requires
            self.wf(),
            old(heap)@.wf(),
            old(heap)@.tags_below(old(tags)@),
            old(tags)@ < u64::MAX,
            old(heap)@.can_read(self.addr(), self.tag()),
        ensures
            final(heap)@ == old(heap)@.opened(self.addr(), Access::Shared, old(tags)@ as u64),
            final(heap)@.wf(),
            final(tags)@ == old(tags)@ + 1,
            final(heap)@.tags_below(final(tags)@),
            final(heap)@.can_read(self.addr(), self.tag()),
            final(heap)@.can_read(r.addr(), r.tag()),
            r.wf(),
            r.addr() == self.addr(),
            r.tag() == old(tags)@,
    {
        let tag = tags.mint();
        proof {
            lemma_shared_borrow_keeps_reads(heap@, self.addr(), self.tag(), tag);
            lemma_open_keeps_bound(heap@, self.addr(), Access::Shared, tag);
        }
        heap.open(self.pointer.address(), Access::Shared, tag);
        Ref { pointer: Pointer::new(self.pointer.address(), tag), permission: Read::new(tag) }
    }

    /// Opens a reservation on the value under a fresh tag, with the token that activates it.
    pub fn borrow_mut<T>(&self, heap: &mut Heap<T>, tags: &mut Tags) -> (r: (RefReserved, Token))
        requires
            self.wf(),
            old(heap)@.wf(),
            old(heap)@.tags_below(old(tags)@),
            old(tags)@ < u64::MAX,
            old(heap)@.can_read(self.addr(), self.tag()),
        ensures
            final(heap)@ == old(heap)@.opened(self.addr(), Access::Reserved, old(tags)@ as u64),
            final(heap)@.wf(),
            final(tags)@ == old(tags)@ + 1,
            final(heap)@.tags_below(final(tags)@),
            final(heap)@.can_read(self.addr(), self.tag()),
            final(heap)@.can_read(r.0.addr(), r.0.tag()),
            r.0.wf(),
            r.0.addr() == self.addr(),
            r.0.tag() == old(tags)@,
            r.1.tag() == old(tags)@,
    {
        let tag = tags.mint();
        proof {
            lemma_nested_reservation(heap@, self.addr(), self.tag(), tag);
            lemma_open_keeps_bound(heap@, self.addr(), Access::Reserved, tag);
        }
        heap.open(self.pointer.address(), Access::Reserved, tag);
        (
            RefReserved {
                pointer: Pointer::new(self.pointer.address(), tag),
                permission: Reserved::new(tag),
            },
            Token::new(tag),
        )
    }

    /// Frees the allocation. No scope may still be open on it.
    pub fn free<T>(self, heap: &mut Heap<T>)
        requires
            self.wf(),
            old(heap)@.wf(),
            old(heap)@.live(self.addr()),
            old(heap)@.owner(self.addr()) == self.tag(),
            old(heap)@.unborrowed(self.addr()),
        ensures
            final(heap)@ == old(heap)@.freed(self.addr()),
            final(heap)@.wf(),
            forall|n: nat| old(heap)@.tags_below(n) ==> #[trigger] final(heap)@.tags_below(n),
    {
        let Value { pointer, permission: _, dealloc: _ } = self;
        heap.free(pointer.address());
    }
}

/// A read view: a pointer with a shared read right.
#[derive(Clone, Copy)]
pub struct Ref {
    pointer: Pointer,
    permission: Read,
}

impl Ref {
    pub closed spec fn addr(&self) -> usize {
        self.pointer.addr()
    }

    pub closed spec fn tag(&self) -> u64 {
        self.pointer.tag()
    }

    pub closed spec fn wf(&self) -> bool {
        self.permission.tag() == self.pointer.tag()
    }

    /// Pairs a pointer with a read right of the same tag.
    pub fn from_raw(pointer: Pointer, permission: Read) -> (r: Ref)
        requires
            permission.tag() == pointer.tag(),
        ensures
            r.wf(),
            r.addr() == pointer.addr(),
            r.tag() == pointer.tag(),
    {
        Ref { pointer, permission }
    }

    /// The data in view.
    pub fn get<'a, T>(&self, heap: &'a Heap<T>) -> (r: &'a T)
        requires
            self.wf(),
            heap@.can_read(self.addr(), self.tag()),
        ensures
            *r == heap@.value(self.addr()),
    {
        self.pointer.as_ref(heap, &self.permission)
    }

    /// Opens a nested read scope under a fresh tag.
    pub fn borrow<T>(&self, heap: &mut Heap<T>, tags: &mut Tags) -> (r: Ref)
        requires
            self.wf(),
            old(heap)@.wf(),
            old(heap)@.tags_below(old(tags)@),
            old(tags)@ < u64::MAX,
            old(heap)@.can_read(self.addr(), self.tag()),
        ensures
            final(heap)@ == old(heap)@.opened(self.addr(), Access::Shared, old(tags)@ as u64),
            final(heap)@.wf(),
            final(tags)@ == old(tags)@ + 1,
            final(heap)@.tags_below(final(tags)@),
            final(heap)@.can_read(self.addr(), self.tag()),
            final(heap)@.can_read(r.addr(), r.tag()),
            r.wf(),
            r.addr() == self.addr(),
            r.tag() == old(tags)@,
    {
        let tag = tags.mint();
        proof {
            lemma_shared_borrow_keeps_reads(heap@, self.addr(), self.tag(), tag);
            lemma_open_keeps_bound(heap@, self.addr(), Access::Shared, tag);
        }
        heap.open(self.pointer.address(), Access::Shared, tag);
        Ref { pointer: Pointer::new(self.pointer.address(), tag), permission: Read::new(tag) }
    }

    /// The pointer of this view.
    pub fn pointer(&self) -> (r: Pointer)
        ensures
            r.addr() == self.addr(),
            r.tag() == self.tag(),
    {
        self.pointer
    }

    /// Splits the view into its pointer and read right.
    pub fn split(self) -> (r: (Pointer, Read))
        requires
            self.wf(),
        ensures
            r.0.addr() == self.addr(),
            r.0.tag() == self.tag(),
            r.1.tag() == self.tag(),
    {
        (self.pointer, self.permission)
    }
}

/// A pending-exclusive view: a pointer with a reserved right.
pub struct RefReserved {
    pointer: Pointer,
    permission: Reserved,
}

impl RefReserved {
    pub closed spec fn addr(&self) -> usize {
        self.pointer.addr()
    }

    pub closed spec fn tag(&self) -> u64 {
        self.pointer.tag()
    }

    pub closed spec fn wf(&self) -> bool {
        self.permission.tag() == self.pointer.tag()
    }

    /// Pairs a pointer with a reserved right of the same tag.
    pub fn from_raw(pointer: Pointer, permission: Reserved) -> (r: RefReserved)
        requires
            permission.tag() == pointer.tag(),
        ensures
            r.wf(),
            r.addr() == pointer.addr(),
            r.tag() == pointer.tag(),
    {
        RefReserved { pointer, permission }
    }

    /// The data in view.
    pub fn get<'a, T>(&self, heap: &'a Heap<T>) -> (r: &'a T)
        requires
            self.wf(),
            heap@.can_read(self.addr(), self.tag()),
        ensures
            *r == heap@.value(self.addr()),
    {
        self.pointer.as_ref(heap, &self.permission)
    }

    /// Spends the matching token to turn the reservation into an exclusive view.
    /// The reservation must be the innermost open scope.
    pub fn activate<T>(self, heap: &mut Heap<T>, token: Token) -> (r: RefMut)
        requires
            self.wf(),
            token.tag() == self.tag(),
            old(heap)@.wf(),
            old(heap)@.top_is(self.addr(), self.tag()),
            old(heap)@.top_reserved(),
        ensures
            final(heap)@ == old(heap)@.activated(),
            final(heap)@.wf(),
            forall|n: nat| old(heap)@.tags_below(n) ==> #[trigger] final(heap)@.tags_below(n),
            final(heap)@.can_write(r.addr(), r.tag()),
            final(heap)@.can_read(r.addr(), r.tag()),
            r.wf(),
            r.addr() == self.addr(),
            r.tag() == self.tag(),
    {
        proof {
            lemma_activation_is_single(heap@, self.addr(), self.tag());
            lemma_write_implies_read(heap@.activated(), self.addr(), self.tag());
        }
        heap.activate_top();
        RefMut { pointer: self.pointer, permission: Write::new(self.pointer.key()) }
    }

    /// Opens a nested reservation under a fresh tag. The outer token is only
    /// shown, so the outer scope keeps it once the nested one is released.
    pub fn borrow_mut<T>(
        &self,
        heap: &mut Heap<T>,
        tags: &mut Tags,
        token: &Token,
    ) -> (r: (RefReserved, Token))
        requires
            self.wf(),
            token.tag() == self.tag(),
            old(heap)@.wf(),
            old(heap)@.tags_below(old(tags)@),
            old(tags)@ < u64::MAX,
            old(heap)@.can_read(self.addr(), self.tag()),
        ensures
            final(heap)@ == old(heap)@.opened(self.addr(), Access::Reserved, old(tags)@ as u64),
            final(heap)@.wf(),
            final(tags)@ == old(tags)@ + 1,
            final(heap)@.tags_below(final(tags)@),
            final(heap)@.can_read(self.addr(), self.tag()),
            final(heap)@.can_read(r.0.addr(), r.0.tag()),
            r.0.wf(),
            r.0.addr() == self.addr(),
            r.0.tag() == old(tags)@,
            r.1.tag() == old(tags)@,
    {
        let tag = tags.mint();
        proof {
            lemma_nested_reservation(heap@, self.addr(), self.tag(), tag);
            lemma_open_keeps_bound(heap@, self.addr(), Access::Reserved, tag);
        }
        heap.open(self.pointer.address(), Access::Reserved, tag);
        (
            RefReserved {
                pointer: Pointer::new(self.pointer.address(), tag),
                permission: Reserved::new(tag),
            },
            Token::new(tag),
        )
    }

    /// The pointer of this view.
    pub fn pointer(&self) -> (r: Pointer)
        ensures
            r.addr() == self.addr(),
            r.tag() == self.tag(),
    {
        self.pointer
    }

    /// A copy of the pointer with a reserved right of the same tag.
    pub fn split(&self) -> (r: (Pointer, Reserved))
        requires
            self.wf(),
        ensures
            r.0.addr() == self.addr(),
            r.0.tag() == self.tag(),
            r.1.tag() == self.tag(),
    {
        (self.pointer, Reserved::new(self.pointer.key()))
    }
}

/// An exclusive view: a pointer with the write right of an activated reservation.
pub struct RefMut {
    pointer: Pointer,
    permission: Write,
}

impl RefMut {
    pub closed spec fn addr(&self) -> usize {
        self.pointer.addr()
    }

    pub closed spec fn tag(&self) -> u64 {
        self.pointer.tag()
    }

    pub closed spec fn wf(&self) -> bool {
        self.permission.tag() == self.pointer.tag()
    }

    /// Pairs a pointer with a write right of the same tag.
    pub fn from_raw(pointer: Pointer, permission: Write) -> (r: RefMut)
        requires
            permission.tag() == pointer.tag(),
        ensures
            r.wf(),
            r.addr() == pointer.addr(),
            r.tag() == pointer.tag(),
    {
        RefMut { pointer, permission }
    }

    /// The data in view.
    pub fn get<'a, T>(&self, heap: &'a Heap<T>) -> (r: &'a T)
        requires
            self.wf(),
            heap@.can_read(self.addr(), self.tag()),
        ensures
            *r == heap@.value(self.addr()),
    {
        self.pointer.as_ref(heap, &self.permission)
    }

    /// Mutable access to the data in view.
    pub fn get_mut<'a, T>(&self, heap: &'a mut Heap<T>) -> (r: &'a mut T)
        requires
            self.wf(),
            old(heap)@.wf(),
            old(heap)@.can_write(self.addr(), self.tag()),
        ensures
            *r == old(heap)@.value(self.addr()),
            final(heap)@ == old(heap)@.stored(self.addr(), *final(r)),
            final(heap)@.wf(),
            forall|n: nat| old(heap)@.tags_below(n) ==> #[trigger] final(heap)@.tags_below(n),
            final(heap)@.can_write(self.addr(), self.tag()),
            final(heap)@.can_read(self.addr(), self.tag()),
    {
        proof {
            lemma_store_keeps_access(heap@, self.addr());
            lemma_write_implies_read(heap@, self.addr(), self.tag());
        }
        self.pointer.as_mut(heap, &self.permission)
    }

    /// Opens a nested reservation under a fresh tag.
    pub fn borrow_mut<T>(&self, heap: &mut Heap<T>, tags: &mut Tags) -> (r: (RefReserved, Token))
        requires
            self.wf(),
            old(heap)@.wf(),
            old(heap)@.tags_below(old(tags)@),
            old(tags)@ < u64::MAX,
            old(heap)@.can_read(self.addr(), self.tag()),
        ensures
            final(heap)@ == old(heap)@.opened(self.addr(), Access::Reserved, old(tags)@ as u64),
            final(heap)@.wf(),
            final(tags)@ == old(tags)@ + 1,
            final(heap)@.tags_below(final(tags)@),
            final(heap)@.can_read(self.addr(), self.tag()),
            final(heap)@.can_read(r.0.addr(), r.0.tag()),
            r.0.wf(),
            r.0.addr() == self.addr(),
            r.0.tag() == old(tags)@,
            r.1.tag() == old(tags)@,
    {
        let tag = tags.mint();
        proof {
            lemma_nested_reservation(heap@, self.addr(), self.tag(), tag);
            lemma_open_keeps_bound(heap@, self.addr(), Access::Reserved, tag);
        }
        heap.open(self.pointer.address(), Access::Reserved, tag);
        (
            RefReserved {
                pointer: Pointer::new(self.pointer.address(), tag),
                permission: Reserved::new(tag),
            },
            Token::new(tag),
        )
    }

    /// The pointer of this view.
    pub fn pointer(&self) -> (r: Pointer)
        ensures
            r.addr() == self.addr(),
            r.tag() == self.tag(),
    {
        self.pointer
    }

    /// Splits the view into its pointer and write right.
    pub fn split(self) -> (r: (Pointer, Write))
        requires
            self.wf(),
        ensures
            r.0.addr() == self.addr(),
            r.0.tag() == self.tag(),
            r.1.tag() == self.tag(),
    {
        (self.pointer, self.permission)
    }
}

} // verus!
