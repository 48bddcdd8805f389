use reasonix_render::overlay_at::{
    at_popup, case_insensitive_split, clip_to_budget, empty_label, entry_label, header_lead,
    header_status, AtPopup,
};
use reasonix_render::state::{AtPickerEntry, AtState};

fn entry(label: &str, is_dir: bool) -> AtPickerEntry {
    AtPickerEntry {
        label: label.to_string(),
        insert_path: label.to_string(),
        dir_suffix: String::new(),
        is_dir,
    }
}

fn browse(base: &str, loading: bool) -> AtState {
    AtState::Browse { base_dir: base.to_string(), entries: Vec::new(), loading }
}

fn search(filter: &str, searching: bool) -> AtState {
    AtState::Search { filter: filter.to_string(), entries: Vec::new(), scanned: 0, searching }
}

#[test]
fn popup_window_holds_the_selection() {
    assert_eq!(
        at_popup(0, 20, 100, 5, 3),
        Some(AtPopup { x: 2, y: 12, w: 96, h: 8, selected: 3, start: 0, visible: 5 })
    );
    assert_eq!(
        at_popup(0, 8, 100, 10, 9),
        Some(AtPopup { x: 2, y: 0, w: 96, h: 8, selected: 9, start: 5, visible: 5 })
    );
    assert_eq!(
        at_popup(0, 20, 100, 0, 0),
        Some(AtPopup { x: 2, y: 17, w: 96, h: 3, selected: 0, start: 0, visible: 0 })
    );
    assert_eq!(at_popup(0, 20, 30, 5, 0), None);
    assert_eq!(at_popup(0, 3, 100, 5, 0), None);
}

#[test]
fn labels_of_the_listing() {
    assert_eq!(entry_label(&entry("src//", true)), "src/");
    assert_eq!(entry_label(&entry("a.rs", false)), "a.rs");
    assert_eq!(header_lead(&browse("", false)), "/");
    assert_eq!(header_lead(&browse("src", false)), "src/");
    assert_eq!(header_lead(&search("par", false)), "search: par");
    assert_eq!(header_status(&browse("", true)), " \u{b7} loading\u{2026}");
    assert_eq!(header_status(&search("", true)), " \u{b7} scanning\u{2026}");
    assert_eq!(header_status(&search("", false)), "");
    assert_eq!(empty_label(&browse("", true)), "loading\u{2026}");
    assert_eq!(empty_label(&browse("", false)), "(empty directory)");
    assert_eq!(empty_label(&search("", true)), "scanning\u{2026}");
    assert_eq!(empty_label(&search("", false)), "(no matches)");
}

#[test]
fn matches_split_ignoring_case() {
    assert_eq!(
        case_insensitive_split("src/Parser.ts", "parser"),
        Some(("src/".to_string(), "Parser".to_string(), ".ts".to_string()))
    );
    assert_eq!(
        case_insensitive_split("abcab", "AB"),
        Some((String::new(), "ab".to_string(), "cab".to_string()))
    );
    assert_eq!(case_insensitive_split("abc", ""), None);
    assert_eq!(case_insensitive_split("abc", "x"), None);
    assert_eq!(case_insensitive_split("ab", "abc"), None);
}

#[test]
fn clipping_to_a_column_budget() {
    assert_eq!(clip_to_budget("h\u{e9}llo", 3), ("h\u{e9}l".to_string(), 3));
    assert_eq!(clip_to_budget("\u{65e5}\u{672c}", 3), ("\u{65e5}".to_string(), 2));
    assert_eq!(clip_to_budget("abc", 0), (String::new(), 0));
    assert_eq!(clip_to_budget("ab", 10), ("ab".to_string(), 2));
}
