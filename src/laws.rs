use vstd::prelude::*;

use crate::heap::{Access, HeapView};

verus! {

/// Every tag that allows reading a cell is one the heap has handed out, so it
/// lies below any bound on the heap's tags.
pub proof fn lemma_readable_tag_is_old<T>(h: HeapView<T>, addr: usize, tag: u64, n: nat)
    requires
        h.wf(),
        h.tags_below(n),
        h.can_read(addr, tag),
    ensures
        tag < n,
{
    if !(h.owner(addr) == tag && h.quiet_above(addr, -1)) {
        let i = choose|i: int| #[trigger] h.scope_is(i, addr, tag) && h.quiet_above(addr, i);
        assert(h.scopes[i].tag < n);
    }
}

/// Every tag that allows writing a cell also allows reading it.
pub proof fn lemma_write_implies_read<T>(h: HeapView<T>, addr: usize, tag: u64)
    requires
        h.can_write(addr, tag),
    ensures
        h.can_read(addr, tag),
{
    if !(h.owner(addr) == tag && h.clear_above(addr, -1)) {
        let i = choose|i: int|
            #[trigger] h.scope_is(i, addr, tag) && h.scopes[i].access == Access::Active
                && h.clear_above(addr, i);
        assert(h.scope_is(i, addr, tag) && h.quiet_above(addr, i));
    }
}

/// A tag at or above a heap's bound gives no access to any of its cells. Every
/// heap that draws from one tag source stays below the source's next tag, so a
/// freshly handed out tag differs from every tag alive in any of those heaps,
/// and they all stay below the source once it has moved on.
pub proof fn lemma_fresh_tag_is_unused<T>(h: HeapView<T>, n: nat)
    requires
        h.wf(),
        h.tags_below(n),
    ensures
        forall|a: usize, t: u64| #[trigger] h.can_read(a, t) ==> t < n,
        forall|a: usize, t: u64| #[trigger] h.can_write(a, t) ==> t < n,
        forall|m: nat| n <= m ==> #[trigger] h.tags_below(m),
{
    assert forall|a: usize, t: u64| #[trigger] h.can_read(a, t) implies t < n by {
        lemma_readable_tag_is_old(h, a, t, n);
    }
    assert forall|a: usize, t: u64| #[trigger] h.can_write(a, t) implies t < n by {
        lemma_write_implies_read(h, a, t);
        lemma_readable_tag_is_old(h, a, t, n);
    }
}

/// Opening a scope under a fresh tag keeps the heap below the source's next tag.
pub proof fn lemma_open_keeps_bound<T>(h: HeapView<T>, addr: usize, access: Access, fresh: u64)
    requires
        h.tags_below(fresh as nat),
    ensures
        h.opened(addr, access, fresh).tags_below((fresh + 1) as nat),
{
    let o = h.opened(addr, access, fresh);
    assert forall|i: int| 0 <= i < o.scopes.len() implies o.scopes[i].tag < fresh + 1 by {
        if i < h.scopes.len() {
            assert(o.scopes[i] == h.scopes[i]);
        }
    }
}

/// Allocating under a fresh tag keeps the heap below the source's next tag.
pub proof fn lemma_allocate_keeps_bound<T>(h: HeapView<T>, v: T, fresh: u64)
    requires
        h.tags_below(fresh as nat),
    ensures
        h.allocated(v, fresh).tags_below((fresh + 1) as nat),
{
    let al = h.allocated(v, fresh);
    assert forall|a: int| 0 <= a < al.owners.len() implies al.owners[a] < fresh + 1 by {
        if a < h.owners.len() {
            assert(al.owners[a] == h.owners[a]);
        }
    }
}

/// Opening a read scope under a fresh tag changes no contents, keeps every read
/// that was allowed before, and lets the new view read: all live read views of
/// a cell see the same data.
pub proof fn lemma_shared_borrow_keeps_reads<T>(h: HeapView<T>, addr: usize, tag: u64, fresh: u64)
    requires
        h.wf(),
        h.can_read(addr, tag),
    ensures
        h.opened(addr, Access::Shared, fresh).cells == h.cells,
        h.opened(addr, Access::Shared, fresh).can_read(addr, fresh),
        h.opened(addr, Access::Shared, fresh).value(addr) == h.value(addr),
        forall|a: usize, t: u64|
            h.can_read(a, t) ==> #[trigger] h.opened(addr, Access::Shared, fresh).can_read(a, t),
{
    let h1 = h.opened(addr, Access::Shared, fresh);
    let n = h.scopes.len() as int;
    assert(h1.scope_is(n, addr, fresh));
    assert forall|a: usize, t: u64| h.can_read(a, t) implies #[trigger] h1.can_read(a, t) by {
        if h.owner(a) == t && h.quiet_above(a, -1) {
            assert(h1.quiet_above(a, -1));
        } else {
            let i = choose|i: int| #[trigger] h.scope_is(i, a, t) && h.quiet_above(a, i);
            assert(h1.scope_is(i, a, t) && h1.quiet_above(a, i));
        }
    }
}

/// A reservation activated and written with `v` reads back `v`; once its scope
/// is released the cell still holds `v` and the outer view may read it again.
pub proof fn lemma_activated_write_reads_back<T>(
    h: HeapView<T>,
    addr: usize,
    outer: u64,
    fresh: u64,
    v: T,
)
    requires
        h.wf(),
        h.can_read(addr, outer),
    ensures
        ({
            let active = h.opened(addr, Access::Reserved, fresh).activated();
            let written = active.stored(addr, v);
            let released = written.closed();
            &&& active.can_write(addr, fresh)
            &&& written.can_read(addr, fresh)
            &&& written.value(addr) == v
            &&& released.value(addr) == v
            &&& released.can_read(addr, outer)
        }),
{
    let n = h.scopes.len() as int;
    let active = h.opened(addr, Access::Reserved, fresh).activated();
    let written = active.stored(addr, v);
    let released = written.closed();
    assert(active.scope_is(n, addr, fresh));
    assert(written.scope_is(n, addr, fresh));
    assert(active.clear_above(addr, n));
    assert(written.quiet_above(addr, n));
    assert(released.scopes =~= h.scopes);
    if h.owner(addr) == outer && h.quiet_above(addr, -1) {
        assert(released.quiet_above(addr, -1));
    } else {
        let i = choose|i: int| #[trigger] h.scope_is(i, addr, outer) && h.quiet_above(addr, i);
        assert(released.scope_is(i, addr, outer) && released.quiet_above(addr, i));
    }
}

/// While a nested reservation is pending the outer view may still read; once it
/// is activated the outer view may neither read nor write; once it is released
/// the outer view may read again.
pub proof fn lemma_nested_reservation<T>(h: HeapView<T>, addr: usize, outer: u64, fresh: u64)
    requires
        h.wf(),
        h.tags_below(fresh as nat),
        h.can_read(addr, outer),
    ensures
        h.opened(addr, Access::Reserved, fresh).can_read(addr, fresh),
        h.opened(addr, Access::Reserved, fresh).can_read(addr, outer),
        !h.opened(addr, Access::Reserved, fresh).activated().can_read(addr, outer),
        !h.opened(addr, Access::Reserved, fresh).activated().can_write(addr, outer),
        h.opened(addr, Access::Reserved, fresh).activated().closed().can_read(addr, outer),
{
    let n = h.scopes.len() as int;
    let pending = h.opened(addr, Access::Reserved, fresh);
    let active = pending.activated();
    let released = active.closed();
    lemma_readable_tag_is_old(h, addr, outer, fresh as nat);
    assert(pending.scope_is(n, addr, fresh));
    assert(released.scopes =~= h.scopes);
    if h.owner(addr) == outer && h.quiet_above(addr, -1) {
        assert(pending.quiet_above(addr, -1));
        assert(released.quiet_above(addr, -1));
    } else {
        let i = choose|i: int| #[trigger] h.scope_is(i, addr, outer) && h.quiet_above(addr, i);
        assert(pending.scope_is(i, addr, outer) && pending.quiet_above(addr, i));
        assert(released.scope_is(i, addr, outer) && released.quiet_above(addr, i));
    }
    assert(active.scopes[n].addr == addr);
    assert(!active.quiet_above(addr, -1));
    assert forall|k: int| #[trigger] active.scope_is(k, addr, outer) implies !active.quiet_above(addr, k) by {
        assert(k < n);
    }
    if active.can_write(addr, outer) {
        lemma_write_implies_read(active, addr, outer);
    }
}

/// A fresh reservation never allows writing through its own tag: not while it
/// is pending, and not after a nested reservation on it was activated, written
/// and released.
pub proof fn lemma_reservation_never_writes<T>(
    h: HeapView<T>,
    addr: usize,
    fresh: u64,
    inner: u64,
    v: T,
)
    requires
        h.wf(),
        h.live(addr),
        h.tags_below(fresh as nat),
    ensures
        ({
            let reserved = h.opened(addr, Access::Reserved, fresh);
            let nested = reserved.opened(addr, Access::Reserved, inner).activated().stored(
                addr,
                v,
            ).closed();
            &&& !reserved.can_write(addr, fresh)
            &&& !nested.can_write(addr, fresh)
        }),
{
    let n = h.scopes.len() as int;
    let reserved = h.opened(addr, Access::Reserved, fresh);
    let nested = reserved.opened(addr, Access::Reserved, inner).activated().stored(addr, v).closed();
    assert(nested.scopes =~= reserved.scopes);
    assert forall|k: int| #[trigger] reserved.scope_is(k, addr, fresh) implies reserved.scopes[k].access != Access::Active by {
        if k < n {
            assert(h.scopes[k].tag < fresh);
        }
    }
    assert forall|k: int| #[trigger] nested.scope_is(k, addr, fresh) implies nested.scopes[k].access != Access::Active by {
        if k < n {
            assert(h.scopes[k].tag < fresh);
        }
    }
    assert(h.owners[addr as int] < fresh);
}

/// A tag whose scope has been released allows no access to any cell of the heap.
pub proof fn lemma_released_tag_is_dead<T>(h: HeapView<T>, addr: usize, access: Access, fresh: u64)
    requires
        h.wf(),
        h.tags_below(fresh as nat),
    ensures
        forall|a: usize| !#[trigger] h.opened(addr, access, fresh).closed().can_read(a, fresh),
        forall|a: usize| !#[trigger] h.opened(addr, access, fresh).closed().can_write(a, fresh),
{
    let released = h.opened(addr, access, fresh).closed();
    assert(released.scopes =~= h.scopes);
    assert(released == h);
    lemma_fresh_tag_is_unused(h, fresh as nat);
}

/// Storing into a live cell keeps every access right and the heap's well-formedness.
pub proof fn lemma_store_keeps_access<T>(h: HeapView<T>, addr: usize)
    requires
        h.wf(),
        h.live(addr),
    ensures
        forall|v: T| #[trigger] h.stored(addr, v).wf(),
        forall|v: T, n: nat| h.tags_below(n) ==> #[trigger] h.stored(addr, v).tags_below(n),
        forall|v: T, a: usize, t: u64|
            #[trigger] h.stored(addr, v).can_read(a, t) == h.can_read(a, t),
        forall|v: T, a: usize, t: u64|
            #[trigger] h.stored(addr, v).can_write(a, t) == h.can_write(a, t),
{
    assert forall|v: T, a: usize| #[trigger] h.stored(addr, v).live(a) == h.live(a) by {
        if a == addr {
            assert(h.stored(addr, v).cells[a as int] == Some(v));
        }
    }
    assert forall|v: T, a: usize, t: u64|
        #[trigger] h.stored(addr, v).can_read(a, t) == h.can_read(a, t) by {
        let s = h.stored(addr, v);
        assert(s.live(a) == h.live(a));
        if h.can_read(a, t) && !(h.owner(a) == t && h.quiet_above(a, -1)) {
            let i = choose|i: int| #[trigger] h.scope_is(i, a, t) && h.quiet_above(a, i);
            assert(s.scope_is(i, a, t));
        }
        if s.can_read(a, t) && !(s.owner(a) == t && s.quiet_above(a, -1)) {
            let i = choose|i: int| #[trigger] s.scope_is(i, a, t) && s.quiet_above(a, i);
            assert(h.scope_is(i, a, t));
        }
    }
    assert forall|v: T, a: usize, t: u64|
        #[trigger] h.stored(addr, v).can_write(a, t) == h.can_write(a, t) by {
        let s = h.stored(addr, v);
        assert(s.live(a) == h.live(a));
        if h.can_write(a, t) && !(h.owner(a) == t && h.clear_above(a, -1)) {
            let i = choose|i: int|
                #[trigger] h.scope_is(i, a, t) && h.scopes[i].access == Access::Active
                    && h.clear_above(a, i);
            assert(s.scope_is(i, a, t));
        }
        if s.can_write(a, t) && !(s.owner(a) == t && s.clear_above(a, -1)) {
            let i = choose|i: int|
                #[trigger] s.scope_is(i, a, t) && s.scopes[i].access == Access::Active
                    && s.clear_above(a, i);
            assert(h.scope_is(i, a, t));
        }
    }
    assert forall|v: T| #[trigger] h.stored(addr, v).wf() by {
        let s = h.stored(addr, v);
        assert forall|i: int| 0 <= i < s.scopes.len() implies s.live(s.scopes[i].addr) by {
            assert(h.live(h.scopes[i].addr));
            assert(s.live(h.scopes[i].addr) == h.live(h.scopes[i].addr));
        }
    }
}

/// Activation turns the innermost reservation into an exclusive scope under the
/// same tag, after which no second activation of it is possible.
pub proof fn lemma_activation_is_single<T>(h: HeapView<T>, addr: usize, tag: u64)
    requires
        h.wf(),
        h.top_is(addr, tag),
        h.top_reserved(),
    ensures
        h.activated().wf(),
        h.activated().top_is(addr, tag),
        !h.activated().top_reserved(),
        h.activated().can_write(addr, tag),
{
    let a = h.activated();
    let n = h.scopes.len() - 1;
    assert(a.scope_is(n, addr, tag));
    assert(a.clear_above(addr, n));
    assert forall|i: int| 0 <= i < a.scopes.len() implies a.live(a.scopes[i].addr) by {
        assert(h.scopes[i].addr == a.scopes[i].addr);
    }
}

/// A freed cell allows no access under any tag.
pub proof fn lemma_freed_cell_is_dead<T>(h: HeapView<T>, addr: usize)
    requires
        h.wf(),
        h.live(addr),
    ensures
        forall|t: u64| !#[trigger] h.freed(addr).can_read(addr, t),
        forall|t: u64| !#[trigger] h.freed(addr).can_write(addr, t),
{
}

} // verus!
