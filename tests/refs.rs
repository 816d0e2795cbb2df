use ghostborrows::{Dealloc, Heap, Pointer, Ref, RefMut, RefReserved, Tags, Value, Write};

#[test]
fn read_from_ref() {
    let mut tags = Tags::new();
    let mut heap = Heap::new();
    let value = Value::new(&mut heap, &mut tags, 1);
    let r = value.borrow(&mut heap, &mut tags);
    assert!(*r.get(&heap) == 1);
    assert!(*r.get(&heap) == *value.get(&heap));
    heap.release(r.pointer());
}

#[test]
fn write_from_ref() {
    let mut tags = Tags::new();
    let mut heap = Heap::new();
    let value = Value::new(&mut heap, &mut tags, 1);
    let (ptr, token) = value.borrow_mut(&mut heap, &mut tags);
    assert!(*ptr.get(&heap) == 1);
    let ptr_mut = ptr.activate(&mut heap, token);
    *ptr_mut.get_mut(&mut heap) = 3;
    assert!(*ptr_mut.get(&heap) == 3);
    heap.release(ptr_mut.pointer());
}

#[test]
fn can_create_and_use_multiple_refs() {
    let mut tags = Tags::new();
    let mut heap = Heap::new();
    let value = Value::new(&mut heap, &mut tags, 1);
    let r1 = value.borrow(&mut heap, &mut tags);
    let r2 = value.borrow(&mut heap, &mut tags);
    let r3 = value.borrow(&mut heap, &mut tags);
    assert!(*r1.get(&heap) == *r2.get(&heap));
    assert!(*r2.get(&heap) == *r3.get(&heap));
    assert!(*r3.get(&heap) == 1);
    heap.release(r3.pointer());
    heap.release(r2.pointer());
    heap.release(r1.pointer());
}

#[test]
fn immutable_reborrow() {
    let mut tags = Tags::new();
    let mut heap = Heap::new();
    let value = Value::new(&mut heap, &mut tags, 1);
    let r1 = value.borrow(&mut heap, &mut tags);
    let r2 = r1.borrow(&mut heap, &mut tags);
    assert!(*r1.get(&heap) == *r2.get(&heap));
    heap.release(r2.pointer());
    heap.release(r1.pointer());
}

#[test]
fn mutable_reborrow() {
    let mut tags = Tags::new();
    let mut heap = Heap::new();
    let value = Value::new(&mut heap, &mut tags, 1);
    let (r1, token1) = value.borrow_mut(&mut heap, &mut tags);
    let (r2, token2) = r1.borrow_mut(&mut heap, &mut tags, &token1);
    // reads through the outer reservation are allowed while the inner one is pending
    assert!(*r1.get(&heap) == *r2.get(&heap));
    let r2_mut = r2.activate(&mut heap, token2);
    *r2_mut.get_mut(&mut heap) = 2;
    assert!(*r2_mut.get(&heap) == 2);
    heap.release(r2_mut.pointer());
    heap.release(r1.pointer());
}

#[test]
fn unused_borrow() {
    let mut tags = Tags::new();
    let mut heap = Heap::new();
    let value = Value::new(&mut heap, &mut tags, 0);
    let (x, token) = value.borrow_mut(&mut heap, &mut tags);
    let mut_x = x.activate(&mut heap, token);
    let (pointer, perm) = mut_x.split();
    let y = pointer.as_ref(&heap, &perm);
    let _val = *y;
    let _z = pointer.as_mut(&mut heap, &perm);
    heap.release(pointer);
}

#[test]
fn concurrent_refs_see_same_contents() {
    let mut tags = Tags::new();
    let mut heap = Heap::new();
    let value = Value::new(&mut heap, &mut tags, 7);
    let r1 = value.borrow(&mut heap, &mut tags);
    let r2 = r1.borrow(&mut heap, &mut tags);
    let r3 = value.borrow(&mut heap, &mut tags);
    let r4 = r2.borrow(&mut heap, &mut tags);
    for r in [r1, r2, r3, r4] {
        assert!(heap.allows_read(r.pointer()));
        assert_eq!(*r.get(&heap), 7);
    }
    assert_eq!(*value.get(&heap), 7);
    assert_eq!(heap.depth(), 4);
    for r in [r4, r3, r2, r1] {
        heap.release(r.pointer());
    }
    assert_eq!(heap.depth(), 0);
}

#[test]
fn write_reads_back_before_and_after_release() {
    let mut tags = Tags::new();
    let mut heap = Heap::new();
    let value = Value::new(&mut heap, &mut tags, 10);
    let (reserved, token) = value.borrow_mut(&mut heap, &mut tags);
    let active = reserved.activate(&mut heap, token);
    assert!(heap.allows_write(active.pointer()));
    *active.get_mut(&mut heap) = 42;
    assert_eq!(*active.get(&heap), 42);
    assert!(!heap.allows_read(value.pointer()));
    heap.release(active.pointer());
    assert_eq!(*value.get(&heap), 42);
    assert!(heap.allows_read(value.pointer()));
    assert!(heap.allows_write(value.pointer()));
}

#[test]
fn outer_reads_only_while_inner_pending() {
    let mut tags = Tags::new();
    let mut heap = Heap::new();
    let value = Value::new(&mut heap, &mut tags, 5);
    let (outer, outer_token) = value.borrow_mut(&mut heap, &mut tags);
    let outer = outer.activate(&mut heap, outer_token);
    let (inner, inner_token) = outer.borrow_mut(&mut heap, &mut tags);
    assert!(heap.allows_read(outer.pointer()));
    assert!(!heap.allows_write(outer.pointer()));
    assert_eq!(*outer.get(&heap), 5);
    let inner = inner.activate(&mut heap, inner_token);
    assert!(!heap.allows_read(outer.pointer()));
    assert!(!heap.allows_write(outer.pointer()));
    *inner.get_mut(&mut heap) = 6;
    heap.release(inner.pointer());
    assert!(heap.allows_read(outer.pointer()));
    assert!(heap.allows_write(outer.pointer()));
    assert_eq!(*outer.get(&heap), 6);
    heap.release(outer.pointer());
}

#[test]
fn nested_reservation_leaves_outer_reserved() {
    let mut tags = Tags::new();
    let mut heap = Heap::new();
    let value = Value::new(&mut heap, &mut tags, 1);
    let (r1, t1) = value.borrow_mut(&mut heap, &mut tags);
    let (r2, t2) = r1.borrow_mut(&mut heap, &mut tags, &t1);
    let m2 = r2.activate(&mut heap, t2);
    *m2.get_mut(&mut heap) = 2;
    assert_eq!(*m2.get(&heap), 2);
    heap.release(m2.pointer());
    assert_eq!(*r1.get(&heap), 2);
    assert!(heap.allows_read(r1.pointer()));
    assert!(!heap.allows_write(r1.pointer()));
    heap.release(r1.pointer());
    assert_eq!(*value.get(&heap), 2);
}

#[test]
fn raw_round_trip_keeps_value() {
    let mut tags = Tags::new();
    let mut heap = Heap::new();
    let value = Value::new(&mut heap, &mut tags, 9);
    let (pointer, write, dealloc) = value.into_raw();
    assert_eq!(pointer.read(&heap, &write), 9);
    pointer.write(&mut heap, &write, 11);
    let value = Value::from_raw(pointer, write, dealloc);
    assert_eq!(*value.get(&heap), 11);
    assert!(heap.allows_write(value.pointer()));
    *value.get_mut(&mut heap) += 1;
    assert_eq!(*value.get(&heap), 12);
}

#[test]
fn released_tags_allow_nothing() {
    let mut tags = Tags::new();
    let mut heap = Heap::new();
    let value = Value::new(&mut heap, &mut tags, 3);
    let r1 = value.borrow(&mut heap, &mut tags);
    let r2 = r1.borrow(&mut heap, &mut tags);
    let (outer_ptr, _) = r1.split();
    let (inner_ptr, inner_perm) = r2.split();
    assert!(heap.allows_read(outer_ptr));
    assert!(heap.allows_read(inner_ptr));
    assert_eq!(*Ref::from_raw(inner_ptr, inner_perm).get(&heap), 3);
    heap.release(inner_ptr);
    assert!(!heap.allows_read(inner_ptr));
    assert!(heap.allows_read(outer_ptr));
    heap.release(outer_ptr);
    assert!(!heap.allows_read(outer_ptr));
    assert!(heap.allows_write(value.pointer()));
}

#[test]
fn split_reserved_rebuilds_view() {
    let mut tags = Tags::new();
    let mut heap = Heap::new();
    let value = Value::new(&mut heap, &mut tags, 4);
    let (reserved, token) = value.borrow_mut(&mut heap, &mut tags);
    let (pointer, perm) = reserved.split();
    assert_eq!(pointer.read(&heap, &perm), 4);
    let again = RefReserved::from_raw(reserved.pointer(), perm);
    assert_eq!(*again.get(&heap), 4);
    let active = again.activate(&mut heap, token);
    let (p, w) = active.split();
    let active = RefMut::from_raw(p, w);
    *active.get_mut(&mut heap) = 8;
    heap.release(active.pointer());
    assert_eq!(*value.get(&heap), 8);
}

#[test]
fn free_ends_allocation() {
    let mut tags = Tags::new();
    let mut heap = Heap::new();
    let a = Value::new(&mut heap, &mut tags, 1);
    let b = Value::new(&mut heap, &mut tags, 2);
    let pa = a.pointer();
    let pb = b.pointer();
    assert!(heap.is_live(pa));
    a.free(&mut heap);
    assert!(!heap.is_live(pa));
    assert!(!heap.allows_read(pa));
    assert!(heap.is_live(pb));
    assert_eq!(*b.get(&heap), 2);
    assert!(tags.can_mint());
}

struct Child {
    child_data: i32,
    parent: Pointer,
}

struct Parent {
    parent_data: i32,
    child: Option<(Pointer, Write, Dealloc)>,
}

fn init(
    parents: &mut Heap<Parent>,
    children: &mut Heap<Child>,
    tags: &mut Tags,
    parent: Pointer,
    perm: &Write,
) {
    let child = Value::new(children, tags, Child { child_data: 0, parent });
    let (pointer, write, dealloc) = child.into_raw();
    parent.as_mut(parents, perm).child = Some((pointer, write, dealloc));
}

fn deinit(parents: &mut Heap<Parent>, children: &mut Heap<Child>, parent: Pointer, perm: &Write) {
    let (pointer, write, dealloc) = parent.as_mut(parents, perm).child.take().unwrap();
    Value::from_raw(pointer, write, dealloc).free(children);
}

#[test]
fn cyclic_parent_and_child() {
    let mut tags = Tags::new();
    let mut parents = Heap::new();
    let mut children = Heap::new();
    let parent = Value::new(&mut parents, &mut tags, Parent { parent_data: 0, child: None });
    let (pointer, write, dealloc) = parent.into_raw();
    init(&mut parents, &mut children, &mut tags, pointer, &write);
    {
        let stored = pointer.as_ref(&parents, &write);
        let (child_pointer, child_write, _) = stored.child.as_ref().unwrap();
        let child = child_pointer.as_ref(&children, child_write);
        assert_eq!(child.child_data, 0);
        assert!(parents.allows_read(child.parent));
        assert_eq!(child.parent.as_ref(&parents, &write).parent_data, 0);
        assert!(!children.allows_read(child.parent));
        assert!(!parents.allows_read(*child_pointer));
    }
    let child_pointer = pointer.as_ref(&parents, &write).child.as_ref().unwrap().0;
    assert!(children.is_live(child_pointer));
    deinit(&mut parents, &mut children, pointer, &write);
    assert!(pointer.as_ref(&parents, &write).child.is_none());
    assert!(!children.is_live(child_pointer));
    Value::from_raw(pointer, write, dealloc).free(&mut parents);
    assert!(!parents.is_live(pointer));
}

#[test]
fn tags_are_fresh_across_heaps() {
    let mut tags = Tags::new();
    let mut first = Heap::new();
    let mut second = Heap::new();
    let a = Value::new(&mut first, &mut tags, 1);
    let b = Value::new(&mut second, &mut tags, 2);
    assert!(first.allows_write(a.pointer()));
    assert!(second.allows_write(b.pointer()));
    assert!(!second.allows_read(a.pointer()));
    assert!(!second.allows_write(a.pointer()));
    assert!(!first.allows_read(b.pointer()));
    let r = b.borrow(&mut second, &mut tags);
    assert!(!first.allows_read(r.pointer()));
    assert!(second.allows_read(r.pointer()));
    assert_eq!(*r.get(&second), 2);
    assert_eq!(*a.get(&first), 1);
    second.release(r.pointer());
}
