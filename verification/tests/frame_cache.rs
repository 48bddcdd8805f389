use reasonix_render::frame_cache::FrameCache;

#[test]
fn first_frame_is_always_new() {
    let mut cache = FrameCache::default();
    assert!(cache.is_new(r#"{"v":1}"#));
}

#[test]
fn identical_frame_is_skipped() {
    let mut cache = FrameCache::default();
    assert!(cache.is_new(r#"{"v":1}"#));
    assert!(!cache.is_new(r#"{"v":1}"#));
    assert_eq!(cache.skipped_count(), 1);
}

#[test]
fn changed_frame_is_not_skipped() {
    let mut cache = FrameCache::default();
    assert!(cache.is_new(r#"{"v":1}"#));
    assert!(cache.is_new(r#"{"v":2}"#));
    assert_eq!(cache.skipped_count(), 0);
}

#[test]
fn empty_string_is_valid_frame() {
    let mut cache = FrameCache::default();
    assert!(cache.is_new(""));
    assert!(!cache.is_new(""));
}

#[test]
fn repeats_are_counted_until_a_change_resets_them() {
    let mut cache = FrameCache::default();
    assert!(cache.is_new("a"));
    assert!(!cache.is_new("a"));
    assert!(!cache.is_new("a"));
    assert!(!cache.is_new("a"));
    assert_eq!(cache.skipped_count(), 3);
    assert!(cache.is_new("b"));
    assert_eq!(cache.skipped_count(), 0);
    assert!(cache.is_new("a"));
    assert!(!cache.is_new("a"));
    assert_eq!(cache.skipped_count(), 1);
}

#[test]
fn skip_count_is_the_final_run_of_repeats() {
    let mut cache = FrameCache::default();
    assert_eq!(cache.skipped_count(), 0);
    let frames = ["a", "a", "a", "b", "b", "c", "c", "c", "c"];
    let mut expected_new = Vec::new();
    let mut counts = Vec::new();
    for f in frames {
        expected_new.push(cache.is_new(f));
        counts.push(cache.skipped_count());
    }
    assert_eq!(expected_new, vec![true, false, false, true, false, true, false, false, false]);
    assert_eq!(counts, vec![0, 1, 2, 0, 1, 0, 1, 2, 3]);
}
