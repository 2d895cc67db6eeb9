use wry_bindgen::type_cache::TypeCache;

fn type_bytes(tag: u8) -> Vec<u8> {
    vec![tag]
}

#[test]
fn type_id_is_cached_after_pending_frame_is_acked() {
    let mut cache = TypeCache::new();
    let bytes = type_bytes(1);

    let (id, cached) = cache.get_or_create_type_id(&bytes);
    assert_eq!(id, 0);
    assert!(!cached);

    cache.push_pending_frame(vec![id]);
    assert_eq!(cache.get_or_create_type_id(&bytes), (id, false));

    cache.pop_and_ack_pending_frame();
    assert_eq!(cache.get_or_create_type_id(&bytes), (id, true));
}

#[test]
fn ack_only_caches_types_in_the_top_frame() {
    let mut cache = TypeCache::new();
    let first = type_bytes(1);
    let second = type_bytes(2);

    let (first_id, _) = cache.get_or_create_type_id(&first);
    let (second_id, _) = cache.get_or_create_type_id(&second);

    cache.push_pending_frame(vec![first_id]);
    cache.push_pending_frame(vec![second_id]);

    cache.pop_and_ack_pending_frame();

    assert_eq!(cache.get_or_create_type_id(&first), (first_id, false));
    assert_eq!(cache.get_or_create_type_id(&second), (second_id, true));
}

#[test]
fn empty_pop_is_a_noop() {
    let mut cache = TypeCache::new();
    cache.pop_and_ack_pending_frame();
    let (id, cached) = cache.get_or_create_type_id(&type_bytes(1));
    assert_eq!(id, 0);
    assert!(!cached);
}

#[test]
fn type_ids_follow_first_appearance() {
    let mut cache = TypeCache::new();
    assert_eq!(cache.get_or_create_type_id(&[3, 4]), (0, false));
    assert_eq!(cache.get_or_create_type_id(&[5]), (1, false));
    assert_eq!(cache.get_or_create_type_id(&[3, 4]), (0, false));
    cache.ack_type_ids(&[1]);
    assert_eq!(cache.get_or_create_type_id(&[5]), (1, true));
    assert_eq!(cache.get_or_create_type_id(&[3, 4]), (0, false));
}
