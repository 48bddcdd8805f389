use reasonix_render::frame_cache::FrameCache;
use reasonix_render::stream::{accept_line, drag_scroll, wheel_scroll};

#[test]
fn blank_and_repeated_lines_are_not_frames() {
    let mut cache = FrameCache::default();
    assert!(!accept_line(&mut cache, "   "));
    assert_eq!(cache.skipped_count(), 0);
    assert!(accept_line(&mut cache, "{\"a\":1}"));
    assert!(!accept_line(&mut cache, "{\"a\":1}"));
    assert_eq!(cache.skipped_count(), 1);
    assert!(!accept_line(&mut cache, ""));
    assert_eq!(cache.skipped_count(), 1);
    assert!(accept_line(&mut cache, "{\"a\":2}"));
    assert_eq!(cache.skipped_count(), 0);
}

#[test]
fn wheel_and_drag_scroll() {
    assert_eq!(wheel_scroll(0, true), 3);
    assert_eq!(wheel_scroll(65534, true), 65535);
    assert_eq!(wheel_scroll(2, false), 0);
    assert_eq!(wheel_scroll(10, false), 7);
    assert_eq!(drag_scroll(5, 1, 2, 20), 6);
    assert_eq!(drag_scroll(5, 19, 2, 20), 4);
    assert_eq!(drag_scroll(0, 25, 2, 20), 0);
    assert_eq!(drag_scroll(5, 10, 2, 20), 5);
}
