//! The store of Rust objects exported to JavaScript, addressed by handle.

use crate::batch::{Runtime, RuntimeState};
use crate::id_allocator::{handles_can_alloc, AllocatorState};
use vstd::prelude::*;

verus! {

/// Handle to an exported object in the store.
#[derive(Clone, Copy, Debug, PartialEq, Eq, Structural, Hash)]
pub struct ObjectHandle(u32);

impl View for ObjectHandle {
    type V = u32;

    closed spec fn view(&self) -> u32 {
        self.0
    }
}

impl ObjectHandle {
    /// The handle's number.
    pub fn raw(self) -> (r: u32)
        ensures
            r == self@,
    {
        self.0
    }

    /// The handle with number `raw`, as it arrives over the wire.
    pub fn from_raw(raw: u32) -> (h: ObjectHandle)
        ensures
            h@ == raw,
    {
        ObjectHandle(raw)
    }
}

/// Store `obj` and return its handle: the smallest released handle, or the
/// next fresh one.
pub fn insert_object<T>(runtime: &mut Runtime<T>, obj: T) -> (handle: ObjectHandle)
    requires
        old(runtime)@.wf(),
        handles_can_alloc(old(runtime)@.ids.objects),
    ensures
        old(runtime)@.ids.objects.alloc_choice(handle@ as u64),
        !old(runtime)@.objects.contains_key(handle@),
        final(runtime)@ == (RuntimeState {
            ids: AllocatorState {
                objects: old(runtime)@.ids.objects.after_alloc(handle@ as u64),
                ..old(runtime)@.ids
            },
            objects: old(runtime)@.objects.insert(handle@, obj),
            ..old(runtime)@
        }),
        final(runtime)@.wf(),
{
    ObjectHandle(runtime.insert_object(obj))
}

/// Remove the object at `handle` and release the handle.
pub fn remove_object<T>(runtime: &mut Runtime<T>, handle: ObjectHandle) -> (r: T)
    requires
        old(runtime)@.wf(),
        old(runtime)@.objects.contains_key(handle@),
    ensures
        r == old(runtime)@.objects[handle@],
        final(runtime)@ == (RuntimeState {
            ids: AllocatorState {
                objects: old(runtime)@.ids.objects.after_release(handle@ as u64).after_recycle(
                    handle@ as u64,
                ),
                ..old(runtime)@.ids
            },
            objects: old(runtime)@.objects.remove(handle@),
            ..old(runtime)@
        }),
        final(runtime)@.wf(),
{
    runtime.remove_object(handle.0)
}

/// Drop the object at `handle`, if any; true when there was one.
pub fn drop_object<T>(runtime: &mut Runtime<T>, handle: ObjectHandle) -> (dropped: bool)
    requires
        old(runtime)@.wf(),
    ensures
        dropped == old(runtime)@.objects.contains_key(handle@),
        final(runtime)@ == (if dropped {
            RuntimeState {
                ids: AllocatorState {
                    objects: old(runtime)@.ids.objects.after_release(handle@ as u64).after_recycle(
                        handle@ as u64,
                    ),
                    ..old(runtime)@.ids
                },
                objects: old(runtime)@.objects.remove(handle@),
                ..old(runtime)@
            }
        } else {
            old(runtime)@
        }),
        final(runtime)@.wf(),
{
    let object = runtime.remove_object_untyped(handle.0);
    object.is_some()
}

/// Run `f` on the object at `handle`.
pub fn with_object<T, R, F: FnOnce(&T) -> R>(runtime: &Runtime<T>, handle: ObjectHandle, f: F) -> (r: R)
    requires
        runtime@.objects.contains_key(handle@),
        f.requires((&runtime@.objects[handle@],)),
    ensures
        f.ensures((&runtime@.objects[handle@],), r),
{
    let obj = runtime.get_object(handle.0);
    f(obj)
}

/// Check the object at `handle` out, let `f` update it, and put what `f`
/// hands back in its place.
pub fn with_object_mut<T, R, F: FnOnce(T) -> (T, R)>(
    runtime: &mut Runtime<T>,
    handle: ObjectHandle,
    f: F,
) -> (r: R)
    requires
        old(runtime)@.wf(),
        old(runtime)@.objects.contains_key(handle@),
        f.requires((old(runtime)@.objects[handle@],)),
    ensures
        exists|out: (T, R)|
            {
                &&& #[trigger] f.ensures((old(runtime)@.objects[handle@],), out)
                &&& r == out.1
                &&& final(runtime)@ == (RuntimeState {
                    objects: old(runtime)@.objects.insert(handle@, out.0),
                    ..old(runtime)@
                })
            },
        final(runtime)@.wf(),
{
    let obj = runtime.take_object(handle.0);
    let (obj, result) = f(obj);
    runtime.reinsert_object(handle.0, obj);
    assert(runtime@.objects =~= old(runtime)@.objects.insert(handle@, obj));
    result
}

} // verus!
