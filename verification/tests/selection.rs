use reasonix_render::selection::Selection;
use reasonix_render::viewport::{transcript_window, TranscriptWindow};

#[test]
fn selection_contains_handles_single_line_and_multi_line() {
    let mut sel = Selection::new(5, 10);
    sel.extend(20, 10);
    assert!(sel.contains_virt(5, 10));
    assert!(sel.contains_virt(20, 10));
    assert!(sel.contains_virt(12, 10));
    assert!(!sel.contains_virt(4, 10));
    assert!(!sel.contains_virt(21, 10));
    assert!(!sel.contains_virt(5, 11));

    let mut multi = Selection::new(5, 10);
    multi.extend(3, 12);
    assert!(multi.contains_virt(20, 10), "first row right of anchor");
    assert!(multi.contains_virt(0, 11), "middle row anywhere");
    assert!(multi.contains_virt(3, 12), "last row up to head");
    assert!(!multi.contains_virt(4, 12), "past head on last row");
}

#[test]
fn a_backwards_drag_selects_the_same_cells() {
    let mut fwd = Selection::new(2, 1);
    fwd.extend(7, 3);
    let mut back = Selection::new(7, 3);
    back.extend(2, 1);
    for y in 0..5u32 {
        for c in 0..10u16 {
            assert_eq!(fwd.contains_virt(c, y), back.contains_virt(c, y));
        }
    }
    assert_eq!(back.ordered(), ((2, 1), (7, 3)));
    assert!(Selection::new(4, 4).is_empty());
    assert!(!fwd.is_empty());
}

#[test]
fn the_view_shows_the_bottom_of_the_transcript() {
    assert_eq!(
        transcript_window(100, 20, 0, 30),
        TranscriptWindow { offset: 0, view_h: 20, view_top: 80, dest_top: 10 }
    );
    assert_eq!(
        transcript_window(100, 20, 500, 30),
        TranscriptWindow { offset: 80, view_h: 20, view_top: 0, dest_top: 10 }
    );
    assert_eq!(
        transcript_window(5, 20, 3, 30),
        TranscriptWindow { offset: 0, view_h: 5, view_top: 0, dest_top: 25 }
    );
}

#[test]
fn scrolling_up_never_moves_the_view_down() {
    let mut last = transcript_window(60, 25, 0, 40).view_top;
    for o in 1..80u16 {
        let w = transcript_window(60, 25, o, 40);
        assert!(w.view_top <= last);
        assert_eq!(w.view_h, 25);
        last = w.view_top;
    }
}
