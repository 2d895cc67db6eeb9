use wry_bindgen::id_allocator::{BorrowIds, HeapIds, IdAllocator, IdSlab, ObjectHandles};
use wry_bindgen::{JSIDX_OFFSET, JSIDX_RESERVED};

#[test]
fn slab_reuses_recycled_ids_in_order() {
    let mut slab = IdSlab::new(10_u64);
    let first = slab.alloc_id();
    let second = slab.alloc_id();
    assert_eq!(first, 10);
    assert_eq!(second, 11);

    slab.release(second);
    slab.recycle(second);
    slab.release(first);
    slab.recycle(first);

    assert_eq!(slab.alloc_id(), 10);
    assert_eq!(slab.alloc_id(), 11);
}

#[test]
fn reserve_exact_removes_id_from_free_list() {
    let mut slab = IdSlab::new(10_u64);
    let id = slab.alloc_id();
    slab.release(id);
    slab.recycle(id);
    assert!(slab.is_reusable(id));

    slab.reserve_exact(id);
    assert!(slab.contains(id));
    assert!(!slab.is_reusable(id));
    assert_eq!(slab.alloc_id(), 11);
}

#[test]
fn recycle_if_released_leaves_reobserved_id_live() {
    let mut slab = IdSlab::new(10_u64);
    let id = slab.alloc_id();
    slab.release(id);
    slab.reserve_exact(id);

    assert!(!slab.recycle_if_released(id));
    assert!(slab.contains(id));
    assert!(!slab.is_reusable(id));
}

#[test]
fn heap_ids_start_at_js_reserved_and_reuse_after_recycle() {
    let mut heap = HeapIds::new();
    let id = heap.next_placeholder_id();
    assert_eq!(id, JSIDX_RESERVED);
    heap.release_heap_slot(id);
    heap.recycle_heap_id(id);
    assert_eq!(heap.next_placeholder_id(), id);
}

#[test]
fn inbound_drop_uses_normal_release_path() {
    let mut heap = HeapIds::new();
    let id = heap.next_inbound_js_heap_id();
    heap.release_heap_slot(id);

    let next = heap.next_placeholder_id();
    assert_ne!(next, id);

    let batch = heap.take_pending_install_ids();
    assert_eq!(batch, vec![id]);

    heap.recycle_heap_id(id);
    assert_eq!(heap.next_placeholder_id(), id);
}

#[test]
fn inbound_heap_ids_collapse_into_one_install_batch() {
    let mut heap = HeapIds::new();
    let ids = [heap.next_inbound_js_heap_id(), heap.next_inbound_js_heap_id()];
    assert_eq!(ids, [JSIDX_RESERVED, JSIDX_RESERVED + 1]);

    let batch = heap.take_pending_install_ids();
    assert_eq!(batch, ids);
    assert!(heap.take_pending_install_ids().is_empty());
}

#[test]
fn taking_with_no_inbound_ids_is_empty() {
    let mut heap = HeapIds::new();
    assert!(heap.take_pending_install_ids().is_empty());
}

#[test]
fn each_take_drains_only_ids_since_the_last_take() {
    let mut heap = HeapIds::new();
    let first = heap.next_inbound_js_heap_id();
    assert_eq!(heap.take_pending_install_ids(), vec![first]);

    let second = heap.next_inbound_js_heap_id();
    assert_eq!(heap.take_pending_install_ids(), vec![second]);
}

#[test]
fn observe_js_heap_id_reserves_recycled_id() {
    let mut heap = HeapIds::new();
    let id = heap.next_placeholder_id();
    heap.release_heap_slot(id);
    heap.recycle_heap_id(id);

    heap.observe_js_heap_id(id);
    assert_ne!(heap.next_placeholder_id(), id);
}

#[test]
fn borrow_frames_restore_stack_pointer() {
    let mut borrows = BorrowIds::new();
    assert_eq!(borrows.next_borrow_id(), JSIDX_OFFSET - 1);
    borrows.push_frame();
    assert_eq!(borrows.next_borrow_id(), JSIDX_OFFSET - 2);
    assert_eq!(borrows.next_borrow_id(), JSIDX_OFFSET - 3);
    borrows.pop_frame();
    assert_eq!(borrows.next_borrow_id(), JSIDX_OFFSET - 2);
}

#[test]
fn object_handles_reuse_released_handles() {
    let mut handles = ObjectHandles::new();
    let first = handles.next_handle();
    let second = handles.next_handle();
    assert_eq!(first, 1);
    handles.release_handle(first);
    assert_eq!(handles.next_handle(), first);
    assert_eq!(second, first + 1);
}

#[test]
fn allocator_keeps_heap_borrow_and_object_ids_apart() {
    let mut ids = IdAllocator::new();
    let heap = ids.next_placeholder_id();
    let borrow = ids.next_borrow_id();
    let handle = ids.next_object_handle();
    assert_eq!(heap, JSIDX_RESERVED);
    assert_eq!(borrow, JSIDX_OFFSET - 1);
    assert_eq!(handle, 1);
    assert!(ids.is_object_handle_live(handle));
    ids.release_object_handle(handle);
    assert!(!ids.is_object_handle_live(handle));
    assert_eq!(ids.next_object_handle(), handle);
}

#[test]
fn recycled_id_is_reused_before_fresh_ones() {
    let mut slab = IdSlab::new(100);
    let a = slab.alloc_id();
    let b = slab.alloc_id();
    let c = slab.alloc_id();
    slab.release(c);
    slab.recycle(c);
    slab.release(a);
    slab.recycle(a);
    assert_eq!((a, b, c), (100, 101, 102));
    assert_eq!(slab.alloc_id(), 100);
    assert_eq!(slab.alloc_id(), 102);
    assert_eq!(slab.alloc_id(), 103);
}

#[test]
fn released_but_unrecycled_id_is_not_reused() {
    let mut slab = IdSlab::new(5);
    let a = slab.alloc_id();
    slab.release(a);
    assert!(!slab.contains(a));
    assert!(!slab.is_reusable(a));
    assert_eq!(slab.alloc_id(), 6);
    assert!(slab.recycle_if_released(a));
    assert_eq!(slab.alloc_id(), a);
}
