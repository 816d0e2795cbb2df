use vstd::prelude::*;

verus! {

/// What an open borrow scope may do with its cell.
#[derive(Clone, Copy, PartialEq, Eq, Structural)]
pub enum Access {
    /// A read view, from `borrow`.
    Shared,
    /// A pending-exclusive view, from `borrow_mut`, not yet activated.
    Reserved,
    /// A reservation that has been activated into an exclusive view.
    Active,
}

/// One open borrow scope: the cell it covers, its fresh tag and its access.
#[derive(Clone, Copy, PartialEq, Eq, Structural)]
pub struct Scope {
    pub addr: usize,
    pub tag: u64,
    pub access: Access,
}

/// An address bound to a tag. It carries no rights by itself.
#[derive(Clone, Copy)]
pub struct Pointer {
    pub(crate) addr: usize,
    pub(crate) tag: u64,
}

impl Pointer {
    /// The cell this pointer names.
    pub closed spec fn addr(&self) -> usize {
        self.addr
    }

    /// The tag this pointer is bound to.
    pub closed spec fn tag(&self) -> u64 {
        self.tag
    }

    pub(crate) fn new(addr: usize, tag: u64) -> (r: Self)
        ensures
            r.addr() == addr,
            r.tag() == tag,
    {
        Pointer { addr, tag }
    }

    pub(crate) fn address(&self) -> (r: usize)
        ensures
            r == self.addr(),
    {
        self.addr
    }

    pub(crate) fn key(&self) -> (r: u64)
        ensures
            r == self.tag(),
    {
        self.tag
    }
}

/// The abstract state of a heap.
pub struct HeapView<T> {
    /// Cell contents; `None` once a cell has been freed.
    pub cells: Seq<Option<T>>,
    /// The tag of the owning value of each cell.
    pub owners: Seq<u64>,
    /// The open borrow scopes, oldest first.
    pub scopes: Seq<Scope>,
}

impl<T> HeapView<T> {
    pub open spec fn wf(self) -> bool {
        &&& self.owners.len() == self.cells.len()
        &&& forall|i: int| 0 <= i < self.scopes.len() ==> self.live(self.scopes[i].addr)
    }

    /// Every tag this heap has handed out is below `n`: a tag source whose
    /// next tag is `n` will hand out none of them again.
    pub open spec fn tags_below(self, n: nat) -> bool {
        &&& forall|a: int| 0 <= a < self.owners.len() ==> self.owners[a] < n
        &&& forall|i: int| 0 <= i < self.scopes.len() ==> self.scopes[i].tag < n
    }

    pub open spec fn live(self, addr: usize) -> bool {
        addr < self.cells.len() && self.cells[addr as int] is Some
    }

    pub open spec fn value(self, addr: usize) -> T {
        self.cells[addr as int]->0
    }

    pub open spec fn owner(self, addr: usize) -> u64 {
        self.owners[addr as int]
    }

    /// Scope `i` is open on `addr` under `tag`.
    pub open spec fn scope_is(self, i: int, addr: usize, tag: u64) -> bool {
        &&& 0 <= i < self.scopes.len()
        &&& self.scopes[i].addr == addr
        &&& self.scopes[i].tag == tag
    }

    /// No scope opened after level `i` on `addr` has been activated.
    pub open spec fn quiet_above(self, addr: usize, i: int) -> bool {
        forall|j: int|
            i < j < self.scopes.len() && #[trigger] self.scopes[j].addr == addr
                ==> self.scopes[j].access != Access::Active
    }

    /// No scope opened after level `i` covers `addr`.
    pub open spec fn clear_above(self, addr: usize, i: int) -> bool {
        forall|j: int| i < j < self.scopes.len() ==> #[trigger] self.scopes[j].addr != addr
    }

    /// Reading `addr` under `tag` is allowed: the tag is the owner's or that of
    /// an open scope on the cell, and nothing opened since has been activated.
    pub open spec fn can_read(self, addr: usize, tag: u64) -> bool {
        &&& self.live(addr)
        &&& {
            ||| self.owner(addr) == tag && self.quiet_above(addr, -1)
            ||| exists|i: int| #[trigger] self.scope_is(i, addr, tag) && self.quiet_above(addr, i)
        }
    }

    /// Writing `addr` under `tag` is allowed: the tag is the owner's, or that of
    /// an activated scope on the cell, and no scope on the cell was opened since.
    pub open spec fn can_write(self, addr: usize, tag: u64) -> bool {
        &&& self.live(addr)
        &&& {
            ||| self.owner(addr) == tag && self.clear_above(addr, -1)
            ||| exists|i: int|
                #[trigger] self.scope_is(i, addr, tag) && self.scopes[i].access == Access::Active
                    && self.clear_above(addr, i)
        }
    }

    /// The innermost open scope is on `addr` under `tag`.
    pub open spec fn top_is(self, addr: usize, tag: u64) -> bool {
        self.scope_is(self.scopes.len() - 1, addr, tag)
    }

    /// The innermost open scope, if any, is a reservation.
    pub open spec fn top_reserved(self) -> bool {
        self.scopes.len() > 0 && self.scopes.last().access == Access::Reserved
    }

    /// No scope is open on `addr`.
    pub open spec fn unborrowed(self, addr: usize) -> bool {
        self.clear_above(addr, -1)
    }

    pub open spec fn allocated(self, v: T, tag: u64) -> Self {
        HeapView {
            cells: self.cells.push(Some(v)),
            owners: self.owners.push(tag),
            scopes: self.scopes,
        }
    }

    pub open spec fn opened(self, addr: usize, access: Access, tag: u64) -> Self {
        HeapView { scopes: self.scopes.push(Scope { addr, tag, access }), ..self }
    }

    pub open spec fn activated(self) -> Self {
        HeapView {
            scopes: self.scopes.update(
                self.scopes.len() - 1,
                Scope { access: Access::Active, ..self.scopes.last() },
            ),
            ..self
        }
    }

    pub open spec fn closed(self) -> Self {
        HeapView { scopes: self.scopes.drop_last(), ..self }
    }

    pub open spec fn stored(self, addr: usize, v: T) -> Self {
        HeapView { cells: self.cells.update(addr as int, Some(v)), ..self }
    }

    pub open spec fn freed(self, addr: usize) -> Self {
        HeapView { cells: self.cells.update(addr as int, None), ..self }
    }
}

/// The source of fresh tags. All heaps whose pointers and witnesses may meet
/// draw their tags from one source, so no tag is handed out twice among them.
/// Where a source starts is left open: tags of two different sources are
/// unrelated, so no access through a tag of one source can be shown allowed in
/// a heap that draws from another.
pub struct Tags {
    next: u64,
}

impl View for Tags {
    type V = nat;

    /// The next tag this source hands out.
    closed spec fn view(&self) -> nat {
        self.next as nat
    }
}

impl Tags {
    /// A source that has handed out no tag yet.
    pub fn new() -> (r: Self)
        ensures
            r@ < u64::MAX,
    {
        Tags { next: 0 }
    }

    /// Whether a fresh tag can still be handed out.
    pub fn can_mint(&self) -> (r: bool)
        ensures
            r == (self@ < u64::MAX),
    {
        self.next < u64::MAX
    }

    pub(crate) fn mint(&mut self) -> (r: u64)
        requires
            old(self)@ < u64::MAX,
        ensures
            r == old(self)@,
            final(self)@ == old(self)@ + 1,
    {
        let r = self.next;
        self.next = r + 1;
        r
    }
}

/// The storage that values live in, with the borrow scopes open on it.
pub struct Heap<T> {
    cells: Vec<Option<T>>,
    owners: Vec<u64>,
    scopes: Vec<Scope>,
}

impl<T> View for Heap<T> {
    type V = HeapView<T>;

    closed spec fn view(&self) -> HeapView<T> {
        HeapView {
            cells: self.cells@,
            owners: self.owners@,
            scopes: self.scopes@,
        }
    }
}

impl<T> Heap<T> {
    /// An empty heap with no open scopes.
    pub fn new() -> (r: Self)
        ensures
            r@.wf(),
            r@.cells.len() == 0,
            r@.scopes.len() == 0,
            forall|n: nat| #[trigger] r@.tags_below(n),
    {
        Heap { cells: Vec::new(), owners: Vec::new(), scopes: Vec::new() }
    }

    /// The number of open borrow scopes.
    pub fn depth(&self) -> (r: usize)
        ensures
            r == self@.scopes.len(),
    {
        self.scopes.len()
    }

    /// Whether `pointer` names a cell that has not been freed.
    pub fn is_live(&self, pointer: Pointer) -> (r: bool)
        requires
            self@.wf(),
        ensures
            r == self@.live(pointer.addr()),
    {
        let addr = pointer.address();
        if addr >= self.cells.len() {
            return false;
        }
        match &self.cells[addr] {
            Some(_) => true,
            None => false,
        }
    }

    /// Whether the current scopes allow reading through `pointer`.
    pub fn allows_read(&self, pointer: Pointer) -> (r: bool)
        requires
            self@.wf(),
        ensures
            r == self@.can_read(pointer.addr(), pointer.tag()),
    {
        let addr = pointer.address();
        let tag = pointer.key();
        if !self.is_live(pointer) {
            return false;
        }
        let mut i: usize = self.scopes.len();
        while i > 0
            invariant
                i <= self.scopes.len(),
                self@.live(addr),
                addr == pointer.addr(),
                tag == pointer.tag(),
                self@.quiet_above(addr, i - 1),
                forall|j: int| i <= j < self.scopes.len() ==> !self@.scope_is(j, addr, tag),
            decreases i,
        {
            i = i - 1;
            let s = self.scopes[i];
            if s.addr == addr {
                if s.tag == tag {
                    assert(self@.scope_is(i as int, addr, tag));
                    return true;
                }
                if s.access == Access::Active {
                    assert(!self@.quiet_above(addr, -1));
                    assert forall|k: int| #[trigger] self@.scope_is(k, addr, tag) implies !self@.quiet_above(addr, k) by {
                        assert(k < i);
                        assert(self@.scopes[i as int].addr == addr);
                    }
                    return false;
                }
            }
        }
        self.owners[addr] == tag
    }

    /// Whether the current scopes allow writing through `pointer`.
    pub fn allows_write(&self, pointer: Pointer) -> (r: bool)
        requires
            self@.wf(),
        ensures
            r == self@.can_write(pointer.addr(), pointer.tag()),
    {
        let addr = pointer.address();
        let tag = pointer.key();
        if !self.is_live(pointer) {
            return false;
        }
        let mut i: usize = self.scopes.len();
        while i > 0
            invariant
                i <= self.scopes.len(),
                self@.live(addr),
                addr == pointer.addr(),
                tag == pointer.tag(),
                self@.clear_above(addr, i - 1),
                forall|j: int| i <= j < self.scopes.len() ==> !self@.scope_is(j, addr, tag),
            decreases i,
        {
            i = i - 1;
            let s = self.scopes[i];
            if s.addr == addr {
                assert(!self@.clear_above(addr, -1));
                assert forall|k: int| #[trigger] self@.scope_is(k, addr, tag) && k != i implies !self@.clear_above(addr, k) by {
                    assert(k < i);
                    assert(self@.scopes[i as int].addr == addr);
                }
                if s.tag == tag && s.access == Access::Active {
                    assert(self@.scope_is(i as int, addr, tag));
                    return true;
                }
                return false;
            }
        }
        self.owners[addr] == tag
    }

    pub(crate) fn allocate(&mut self, v: T, tag: u64) -> (r: usize)
        requires
            old(self)@.wf(),
            old(self)@.cells.len() < usize::MAX,
        ensures
            final(self)@ == old(self)@.allocated(v, tag),
            final(self)@.wf(),
            r == old(self)@.cells.len(),
    {
        let addr = self.cells.len();
        self.cells.push(Some(v));
        self.owners.push(tag);
        proof {
            let v0 = old(self)@;
            let v1 = self@;
            assert forall|i: int| 0 <= i < v1.scopes.len() implies v1.live(v1.scopes[i].addr) by {
                assert(v0.live(v0.scopes[i].addr));
                assert(v1.cells[v0.scopes[i].addr as int] == v0.cells[v0.scopes[i].addr as int]);
            }
        }
        addr
    }

    pub(crate) fn open(&mut self, addr: usize, access: Access, tag: u64)
        requires
            old(self)@.wf(),
            old(self)@.live(addr),
        ensures
            final(self)@ == old(self)@.opened(addr, access, tag),
            final(self)@.wf(),
    {
        self.scopes.push(Scope { addr, tag, access });
    }

    pub(crate) fn activate_top(&mut self)
        requires
            old(self)@.wf(),
            old(self)@.scopes.len() > 0,
        ensures
            final(self)@ == old(self)@.activated(),
            final(self)@.wf(),
            forall|n: nat| old(self)@.tags_below(n) ==> #[trigger] final(self)@.tags_below(n),
    {
        let last = self.scopes.len() - 1;
        let s = self.scopes[last];
        self.scopes.set(last, Scope { access: Access::Active, ..s });
        proof {
            assert forall|n: nat| old(self)@.tags_below(n) implies #[trigger] self@.tags_below(n) by {
                assert forall|i: int| 0 <= i < self@.scopes.len() implies self@.scopes[i].tag < n by {
                    assert(old(self)@.scopes[i].tag == self@.scopes[i].tag);
                }
            }
        }
    }

    /// Ends the innermost borrow scope, which must be the one `pointer` is bound to.
    pub fn release(&mut self, pointer: Pointer)
        requires
            old(self)@.wf(),
            old(self)@.top_is(pointer.addr(), pointer.tag()),
        ensures
            final(self)@ == old(self)@.closed(),
            final(self)@.wf(),
            forall|n: nat| old(self)@.tags_below(n) ==> #[trigger] final(self)@.tags_below(n),
    {
        self.scopes.pop();
    }

    pub(crate) fn free(&mut self, addr: usize)
        requires
            old(self)@.wf(),
            old(self)@.live(addr),
            old(self)@.unborrowed(addr),
        ensures
            final(self)@ == old(self)@.freed(addr),
            final(self)@.wf(),
            forall|n: nat| old(self)@.tags_below(n) ==> #[trigger] final(self)@.tags_below(n),
    {
        self.cells.set(addr, None);
        proof {
            let v0 = old(self)@;
            let v1 = self@;
            assert forall|i: int| 0 <= i < v1.scopes.len() implies v1.live(v1.scopes[i].addr) by {
                assert(v0.live(v0.scopes[i].addr));
                assert(v0.scopes[i].addr != addr);
            }
        }
    }

    pub(crate) fn cell(&self, addr: usize) -> (r: &T)
        requires
            self@.live(addr),
        ensures
            *r == self@.value(addr),
    {
        self.cells[addr].as_ref().unwrap()
    }

    pub(crate) fn cell_mut(&mut self, addr: usize) -> (r: &mut T)
        requires
            old(self)@.live(addr),
        ensures
            *r == old(self)@.value(addr),
            final(self)@ == old(self)@.stored(addr, *final(r)),
    {
        self.cells[addr].as_mut().unwrap()
    }
}

} // verus!
