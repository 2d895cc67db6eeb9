use wry_bindgen::batch::{
    batch, encode_operation, force_flush, is_batching, prepend_rust_to_js_prelude, push_id_list,
    recycle_heap_id_after_js_drop,
    plan_js_call, recycle_heap_ids_after_flush, JsCallPlan, Runtime,
};
use wry_bindgen::cast::{JsCast, JsCastExt};
use wry_bindgen::closure::{CallbackOwnership, ScopedClosure};
use wry_bindgen::convert::{IntoAbiId, RefFromBinaryDecode, TryFromJsValue};
use wry_bindgen::encode::callbacks::{decode_js_value, encode_callback_type_def, CallbackKey, CallbackPolicy};
use wry_bindgen::encode::{BinaryEncode, EncodeTypeDef, TypeTag};
use wry_bindgen::error::{JsError, UnwrapThrowExt};
use wry_bindgen::events::{AppEventVariant, WryBindgenEvent};
use wry_bindgen::ipc::{DecodedData, EncodedData};
use wry_bindgen::object_store::{drop_object, insert_object, remove_object, with_object, with_object_mut, ObjectHandle};
use wry_bindgen::rt::{PromiseFuture, PromisePoll};
use wry_bindgen::sys::{JsOption, Null, Undefined};
use wry_bindgen::value::JsValue;
use wry_bindgen::JSIDX_RESERVED;

#[test]
fn js_value_constants_occupy_the_reserved_slots() {
    assert_eq!(JsValue::undefined().id(), 128);
    assert_eq!(JsValue::null().id(), 129);
    assert_eq!(JsValue::from_bool(true).id(), 130);
    assert_eq!(JsValue::from_bool(false).id(), 131);
    assert!(JsValue::undefined().is_undefined());
    assert!(JsValue::null().is_null());
    assert_eq!(JsValue::from_bool(true).as_bool(), Some(true));
    assert_eq!(JsValue::from_id(JSIDX_RESERVED).as_bool(), None);
    assert!(JsValue::from_bool(false).is_constant());
    assert!(!JsValue::from_id(JSIDX_RESERVED).is_constant());
    assert!(JsValue::from_id(5).is_borrowed());
}

#[test]
fn js_option_is_empty_for_undefined_and_null() {
    let empty: JsOption<JsValue> = JsOption::new();
    assert!(empty.is_empty());
    assert!(empty.as_option().is_none());
    let null: JsOption<JsValue> = JsOption::unchecked_from_js(JsValue::null());
    assert!(null.is_empty());
    let full = JsOption::wrap(JsValue::from_id(200));
    assert!(!full.is_empty());
    assert_eq!(full.as_option(), Some(JsValue::from_id(200)));
    assert_eq!(full.unwrap(), JsValue::from_id(200));
    let from_none: JsOption<JsValue> = JsOption::from_option(None);
    assert!(from_none.obj.is_undefined());
    let from_some = JsOption::from_option(Some(JsValue::from_id(300)));
    assert_eq!(from_some.into_option(), Some(JsValue::from_id(300)));
    let fallback: JsOption<JsValue> = JsOption::new();
    assert_eq!(fallback.unwrap_or_else(|| JsValue::from_id(7)), JsValue::from_id(7));
    let defaulted: JsOption<Undefined> = JsOption::new();
    assert!(defaulted.unwrap_or_default().obj.is_undefined());
    let held = JsOption::wrap(JsValue::from_id(400));
    assert_eq!(held.expect("present"), JsValue::from_id(400));
}

#[test]
fn casts_keep_the_js_value() {
    let v = JsValue::from_id(500);
    let as_null: Null = v.unchecked_into();
    assert_eq!(as_null.obj, v);
    assert!(v.has_type::<JsValue>());
    assert!(!v.has_type::<Undefined>());
    assert!(JsValue::undefined().has_type::<Undefined>());
    assert!(JsValue::undefined().is_instance_of::<JsOption<Null>>());
    match v.dyn_into::<Null>() {
        Err(back) => assert_eq!(back, v),
        Ok(_) => panic!("{} is not null", v.id()),
    }
    let n: Result<Null, JsValue> = JsValue::null().dyn_into::<Null>();
    assert!(n.is_ok());
    assert_eq!(<Null as TryFromJsValue>::try_from_js_value(v).err(), Some(v));
    assert_eq!(JsValue::from_id(0x1_0000_0005).into_abi_id(), 5);
}

#[test]
fn object_store_reuses_handles_and_keeps_objects() {
    let mut rt: Runtime<String> = Runtime::new(3);
    let a = insert_object(&mut rt, String::from("a"));
    let b = insert_object(&mut rt, String::from("b"));
    assert_eq!(a.raw(), 1);
    assert_eq!(b.raw(), 2);
    assert_eq!(with_object(&rt, a, |s: &String| s.len()), 1);
    let n = with_object_mut(&mut rt, b, |s: String| (s + "c", 5));
    assert_eq!(n, 5);
    assert_eq!(remove_object(&mut rt, b), "bc");
    assert!(!drop_object(&mut rt, b));
    let c = insert_object(&mut rt, String::from("c"));
    assert_eq!(c, b);
    assert!(drop_object(&mut rt, a));
    assert_eq!(insert_object(&mut rt, String::from("d")), a);
    assert_eq!(rt.webview_id(), 3);
}

#[test]
fn released_handles_wait_for_the_operation_frame() {
    let mut rt: Runtime<u8> = Runtime::new(0);
    let h = insert_object(&mut rt, 9u8);
    rt.push_ids_to_free();
    assert_eq!(rt.release_object_handle(h), None);
    assert_eq!(*rt.get_object(h.raw()), 9);
    rt.push_ids_to_free();
    assert!(rt.pop_and_release_objects().is_empty());
    assert_eq!(rt.pop_and_release_objects(), vec![h.raw()]);
    assert_eq!(rt.release_object_handle(h), Some(9));
    assert_eq!(rt.release_object_handle(h), None);
}

#[test]
fn id_lists_are_length_then_low_and_high_words() {
    let mut buf = vec![7];
    push_id_list(&mut buf, &[0x0000_0002_0000_0001, 5]);
    assert_eq!(buf, vec![7, 2, 1, 2, 5, 0]);
    let mut enc = EncodedData::new();
    enc.push_u32(99);
    prepend_rust_to_js_prelude(&mut enc, &[132], Some(&[]));
    assert_eq!(enc.u32_buf, vec![1, 132, 0, 0, 99]);
    let mut respond = EncodedData::new();
    prepend_rust_to_js_prelude(&mut respond, &[], None);
    assert_eq!(respond.u32_buf, vec![0]);
}

#[test]
fn take_message_frames_the_prelude_and_resets_the_batch() {
    let mut rt: Runtime<()> = Runtime::new(1);
    assert!(rt.is_empty());
    assert!(force_flush(&mut rt).is_none());
    let placeholder = rt.get_next_placeholder_id();
    assert_eq!(placeholder, JSIDX_RESERVED);
    rt.encoder.push_u32(42);
    assert!(rt.is_empty());
    rt.encoder.push_u32(43);
    rt.encoder.defer_heap_id_recycle_until_flush(300);
    assert!(!rt.is_empty());
    let (msg, recycle) = rt.take_message();
    assert!(msg.top_level);
    assert_eq!(recycle, vec![300]);
    let mut d = DecodedData::from_bytes(&msg.bytes).unwrap();
    assert_eq!(d.take_u8().unwrap(), 0);
    assert_eq!(d.take_u32().unwrap(), 0);
    assert_eq!(d.take_u32().unwrap(), 1);
    assert_eq!(d.take_u64().unwrap(), JSIDX_RESERVED);
    assert_eq!(d.take_u32().unwrap(), 42);
    assert_eq!(d.take_u32().unwrap(), 43);
    assert!(d.is_empty());
    assert!(rt.is_empty());
    rt.enter_inbound_evaluate();
    assert!(rt.in_inbound_evaluate());
    rt.encoder.push_u32(1);
    let (nested, _) = rt.take_message();
    assert!(!nested.top_level);
    rt.leave_inbound_evaluate();
    assert!(!rt.in_inbound_evaluate());
}

#[test]
fn batch_flushes_once_at_the_outermost_level() {
    let rt: Runtime<()> = Runtime::new(0);
    let mut flushed = 0;
    let (rt, answer) = batch(
        rt,
        |mut inner: Runtime<()>| {
            assert!(is_batching(&inner));
            inner.encoder.push_u32(5);
            inner.encoder.push_u32(6);
            (inner, 11)
        },
        |rt, msg, _ids| {
            flushed += 1;
            assert!(!msg.bytes.is_empty());
            rt
        },
    );
    assert_eq!(answer, 11);
    assert_eq!(flushed, 1);
    assert!(!is_batching(&rt));
    assert!(rt.is_empty());
}

#[test]
fn a_single_header_word_is_not_worth_flushing() {
    let rt: Runtime<()> = Runtime::new(0);
    let mut flushed = 0;
    let (rt, _) = batch(
        rt,
        |mut inner: Runtime<()>| {
            inner.encoder.push_u32(5);
            (inner, ())
        },
        |rt, _msg, _ids| {
            flushed += 1;
            rt
        },
    );
    assert_eq!(flushed, 0);
    assert!(!is_batching(&rt));
}

#[test]
fn type_ids_pass_through_the_runtime() {
    let mut rt: Runtime<()> = Runtime::new(0);
    assert_eq!(rt.get_or_create_type_id(&[1, 2]), (0, false));
    rt.encoder.pending_type_ids.push(0);
    rt.encoder.push_u32(1);
    let _ = rt.take_message();
    rt.pop_and_ack_type_cache_frame();
    assert_eq!(rt.get_or_create_type_id(&[1, 2]), (0, true));
}

#[test]
fn extend_encoder_skips_the_inner_message_type() {
    let mut rt: Runtime<()> = Runtime::new(0);
    let mut inner = Runtime::<()>::new_encoder_for_evaluate();
    inner.push_u8(9);
    inner.push_u32(3);
    inner.mark_needs_flush();
    rt.extend_encoder(&inner);
    assert_eq!(rt.encoder.u8_buf, vec![0, 9]);
    assert_eq!(rt.encoder.u32_buf, vec![3]);
    assert!(rt.encoder.needs_flush);
    let taken = rt.take_encoder();
    assert_eq!(taken.u8_buf, vec![0, 9]);
    assert_eq!(rt.encoder.u8_buf, vec![0]);
}

#[test]
fn borrowed_refs_come_from_the_borrow_stack() {
    let mut rt: Runtime<()> = Runtime::new(0);
    let bytes = EncodedData::new().to_bytes();
    let mut d = DecodedData::from_bytes(&bytes).unwrap();
    let anchor = <JsValue as RefFromBinaryDecode>::ref_decode(&mut d, &mut rt).unwrap();
    assert_eq!(anchor.id(), 127);
    assert_eq!(rt.get_next_borrow_id(), 126);
}

#[test]
fn callback_ownership_transitions() {
    let mut owned = CallbackOwnership::Owned;
    assert!(owned.needs_flush());
    assert!(owned.disposes_on_drop());
    owned.detach();
    assert_eq!(owned, CallbackOwnership::Detached);
    assert!(owned.needs_flush());
    assert!(!owned.disposes_on_drop());
    let mut none = CallbackOwnership::NoCallback;
    none.detach();
    assert_eq!(none, CallbackOwnership::NoCallback);
    assert!(!none.needs_flush());

    let mut c: ScopedClosure<'static, ()> = ScopedClosure::from_parts(JsValue::from_id(150), CallbackOwnership::Owned);
    assert_eq!(*c.as_js_value(), JsValue::from_id(150));
    c.detach();
    assert_eq!(c.callback_ownership(), CallbackOwnership::Detached);
    assert_eq!(c.into_js_value(), JsValue::from_id(150));
}

#[test]
fn callback_keys_encode_handle_then_policy() {
    let mut enc = EncodedData::new();
    CallbackKey::<()>::new_with_policy(ObjectHandle::from_raw(4), CallbackPolicy::JsOwnedOnce).encode(&mut enc);
    CallbackKey::<()>::new(ObjectHandle::from_raw(5)).encode(&mut enc);
    CallbackKey::<()>::new_with_policy(ObjectHandle::from_raw(6), CallbackPolicy::RustOwned).encode(&mut enc);
    assert_eq!(enc.u32_buf, vec![4, 2, 5, 1, 6, 0]);
    let mut heap = EncodedData::new();
    JsValue::from_id(0x0000_0003_0000_0004).encode(&mut heap);
    assert_eq!(heap.u32_buf, vec![4, 3]);
}

#[test]
fn callback_type_definitions() {
    let mut buf = Vec::new();
    encode_callback_type_def(&mut buf, false, &[vec![TypeTag::U32.to_u8()], vec![TypeTag::String.to_u8()]], &[TypeTag::Bool.to_u8()]);
    assert_eq!(buf, vec![18, 2, 4, 16, 1]);
    let mut borrowed = Vec::new();
    encode_callback_type_def(&mut borrowed, true, &[vec![TypeTag::U8.to_u8()]], &[TypeTag::Null.to_u8()]);
    assert_eq!(borrowed, vec![18, 2, 22, 2, 0]);
    let mut js = Vec::new();
    JsValue::encode_type_def(&mut js);
    ObjectHandle::encode_type_def(&mut js);
    assert_eq!(js, vec![17, 4]);
}

#[test]
fn promise_future_settles_once() {
    let mut f: PromiseFuture<&str, u8> = PromiseFuture::new();
    assert!(matches!(f.poll(1), PromisePoll::Pending));
    assert_eq!(f.attached("callbacks"), None);
    let (waker, dropped) = f.finish(Ok(JsValue::from_id(140)));
    assert_eq!(waker, Some(1));
    assert_eq!(dropped, Some("callbacks"));
    assert_eq!(f.finish(Err(JsValue::null())), (None, None));
    match f.poll(2) {
        PromisePoll::Ready(v) => assert_eq!(v, Ok(JsValue::from_id(140))),
        PromisePoll::Pending => panic!("{}", "the promise settled"),
    }
    assert_eq!(f.release(), None);
}

#[test]
fn promise_settling_while_attaching_drops_the_late_callbacks() {
    let mut f: PromiseFuture<&str, u8> = PromiseFuture::new();
    assert_eq!(f.finish(Err(JsValue::from_id(141))), (None, None));
    assert_eq!(f.attached("late"), Some("late"));
    let mut pending: PromiseFuture<&str, u8> = PromiseFuture::new();
    assert_eq!(pending.attached("kept"), None);
    assert_eq!(pending.release(), Some("kept"));
}

#[test]
fn unwrap_throw_gives_the_value() {
    assert_eq!(Some(3).unwrap_throw(), 3);
    assert_eq!(Ok::<u8, String>(4).expect_throw("four"), 4);
    let e = JsError::from_value(JsValue::from_id(160));
    assert_eq!(*e.as_value(), JsValue::from_id(160));
    assert_eq!(e.into_value(), JsValue::from_id(160));
}

#[test]
fn events_carry_their_webview() {
    let e = WryBindgenEvent::webview_loaded(8);
    assert_eq!(e.id(), 8);
    assert!(matches!(e.into_variant(), AppEventVariant::WebviewLoaded));
    let mut rt: Runtime<()> = Runtime::new(8);
    rt.encoder.push_u32(1);
    let (msg, _) = rt.take_message();
    let ipc = WryBindgenEvent::ipc(9, msg);
    assert_eq!(ipc.id(), 9);
    assert!(matches!(ipc.into_variant(), AppEventVariant::Ipc(_)));
}

#[test]
fn dropped_heap_id_is_reusable_at_once_outside_a_batch() {
    let mut rt: Runtime<u32> = Runtime::new(1);
    let id = rt.id_allocator.next_placeholder_id();
    rt.id_allocator.release_heap_slot(id);
    recycle_heap_id_after_js_drop(&mut rt, id);
    assert_eq!(rt.id_allocator.next_placeholder_id(), id);
}

#[test]
fn dropped_heap_id_waits_for_the_flush_inside_a_batch() {
    let mut rt: Runtime<u32> = Runtime::new(1);
    let id = rt.id_allocator.next_placeholder_id();
    rt.id_allocator.release_heap_slot(id);
    rt.set_batching(true);
    recycle_heap_id_after_js_drop(&mut rt, id);
    let (_msg, ids) = rt.take_message();
    assert_eq!(ids, vec![id]);
    let other = rt.id_allocator.next_placeholder_id();
    assert_ne!(other, id);
    recycle_heap_ids_after_flush(&mut rt, ids);
    assert_eq!(rt.id_allocator.next_placeholder_id(), id);
}

#[test]
fn a_reobserved_heap_id_is_not_recycled_after_the_flush() {
    let mut rt: Runtime<u32> = Runtime::new(1);
    let id = rt.id_allocator.next_placeholder_id();
    rt.id_allocator.release_heap_slot(id);
    rt.id_allocator.observe_js_heap_id(id);
    recycle_heap_ids_after_flush(&mut rt, vec![id]);
    assert_ne!(rt.id_allocator.next_placeholder_id(), id);
}

#[test]
fn an_operation_outside_a_batch_must_be_flushed() {
    let mut rt: Runtime<u32> = Runtime::new(1);
    assert!(rt.is_empty());
    assert!(encode_operation(&mut rt, 7, 5u32));
    assert!(!rt.is_empty());
}

#[test]
fn an_operation_inside_a_batch_can_wait() {
    let mut rt: Runtime<u32> = Runtime::new(1);
    rt.set_batching(true);
    assert!(!encode_operation(&mut rt, 7, 5u32));
    let (msg, _) = rt.take_message();
    let mut data = DecodedData::from_bytes(&msg.bytes).unwrap();
    assert_eq!(data.take_u8().unwrap(), 0);
    // Two empty ID lists (install, reserve), then the operation.
    assert_eq!(data.take_u32().unwrap(), 0);
    assert_eq!(data.take_u32().unwrap(), 0);
    assert_eq!(data.take_u32().unwrap(), 7);
    assert_eq!(data.take_u32().unwrap(), 5);
    assert!(data.is_empty());
}

#[test]
fn a_second_flush_sends_nothing() {
    let mut rt: Runtime<u32> = Runtime::new(1);
    encode_operation(&mut rt, 3, 9u32);
    assert!(force_flush(&mut rt).is_some());
    assert!(rt.is_empty());
    assert!(force_flush(&mut rt).is_none());
}

#[test]
fn handle_results_are_placeholders_that_need_no_flush_while_batching() {
    let mut rt: Runtime<u32> = Runtime::new(1);
    rt.set_batching(true);
    let plan: JsCallPlan<JsValue> = plan_js_call(&mut rt, 4, 1u8);
    assert_eq!(plan.placeholder.map(|v| v.id()), Some(JSIDX_RESERVED));
    assert!(!plan.send_now);
    let unit: JsCallPlan<()> = plan_js_call(&mut rt, 5, 2u8);
    assert_eq!(unit.placeholder, Some(()));
    assert!(!unit.send_now);
}

#[test]
fn value_results_always_send_the_batch() {
    let mut rt: Runtime<u32> = Runtime::new(1);
    rt.set_batching(true);
    let plan: JsCallPlan<u32> = plan_js_call(&mut rt, 4, 1u8);
    assert!(plan.placeholder.is_none());
    assert!(plan.send_now);
}

#[test]
fn outside_a_batch_every_call_is_sent() {
    let mut rt: Runtime<u32> = Runtime::new(1);
    let plan: JsCallPlan<JsValue> = plan_js_call(&mut rt, 4, 1u8);
    assert!(plan.placeholder.is_some());
    assert!(plan.send_now);
}

#[test]
fn inbound_values_get_fresh_slots_that_js_is_told_to_install() {
    let mut rt: Runtime<u32> = Runtime::new(1);
    let a = decode_js_value(&mut rt);
    let b = decode_js_value(&mut rt);
    assert_eq!(a.id(), JSIDX_RESERVED);
    assert_eq!(b.id(), JSIDX_RESERVED + 1);
    rt.encoder.push_u32(1);
    rt.encoder.push_u32(2);
    let (msg, _) = rt.take_message();
    let mut d = DecodedData::from_bytes(&msg.bytes).unwrap();
    assert_eq!(d.take_u8().unwrap(), 0);
    // The install list: its length, then each ID as a low and a high word.
    assert_eq!(d.take_u32().unwrap(), 2);
    assert_eq!(d.take_u32().unwrap(), JSIDX_RESERVED as u32);
    assert_eq!(d.take_u32().unwrap(), 0);
    assert_eq!(d.take_u32().unwrap(), JSIDX_RESERVED as u32 + 1);
    assert_eq!(d.take_u32().unwrap(), 0);
}
