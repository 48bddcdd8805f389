//! The stand-alone demo screen: a composer that edits locally and turns
//! each submitted text into a user card, with the slash and file popups.
use crate::controller::{
    at_pick, char_count, char_of, clamp_idx, edited, is_char_code, slash_count, slash_pick,
    step_down, step_up, with_text, wrap_back, ActionView, EventView, HostEvent, UiAction, UiState,
    UiView,
};
use crate::editor::{
    insert_char_at, inserted, move_cursor_line, moved_cursor, next_word, next_word_boundary,
    prev_word, prev_word_boundary, remove_char_at, removed,
};
use crate::keys::{Key, KeyCode};
use crate::overlay::{exact_command, slash_completion, slash_is_exact, slash_match_count};
use crate::overlay_at::{at_completion, at_entries, at_match_count, at_token};
use crate::state::SceneState;
use crate::text::{chars_of, string_from_range, trim, trim_end, trim_end_ws, trim_ws};
use vstd::prelude::*;

verus! {

/// Number of file entries offered in the demo: none while slash matches
/// show.
pub open spec fn demo_at_count(buf: Seq<char>, scene: SceneState) -> int {
    if slash_count(buf, scene) > 0 {
        0
    } else if at_token(buf) is Some {
        match at_entries(scene) {
            Some(e) => e.len() as int,
            None => 0,
        }
    } else {
        0
    }
}

/// The demo state before a key is read: the cursor within the text and
/// each popup highlight within its list.
pub open spec fn demo_synced(v: UiView, scene: SceneState) -> UiView {
    UiView {
        cursor: if v.cursor > v.buffer.len() {
            v.buffer.len() as int
        } else {
            v.cursor
        },
        slash_idx: clamp_idx(v.slash_idx, slash_count(v.buffer, scene)),
        at_idx: clamp_idx(v.at_idx, demo_at_count(v.buffer, scene)),
        ..v
    }
}

/// Clamps the cursor and the popup highlights (see `demo_synced`).
pub fn demo_sync(st: &mut UiState, scene: &SceneState)
    ensures
        final(st)@ == demo_synced(old(st)@, *scene),
{
    let n = char_count(&st.buffer);
    if st.cursor > n {
        st.cursor = n;
    }
    let sc = slash_match_count(st.buffer.as_str(), scene);
    if sc == 0 {
        st.slash_idx = 0;
    } else if st.slash_idx >= sc {
        st.slash_idx = sc - 1;
    }
    let ac = if sc > 0 {
        0
    } else {
        at_match_count(st.buffer.as_str(), scene)
    };
    if ac == 0 {
        st.at_idx = 0;
    } else if st.at_idx >= ac {
        st.at_idx = ac - 1;
    }
}

/// What a key does in the demo: the quit chord copies an active selection
/// (else quits), Ctrl+D quits, Ctrl+B shows or hides the sidebar; then the
/// slash popup, then the file popup, then cursor movement, editing and
/// submitting (the submitted text, trimmed, becomes a user card).
pub open spec fn demo_step(v: UiView, k: Key, scene: SceneState) -> (UiView, ActionView) {
    let buf = v.buffer;
    let sc = slash_count(buf, scene);
    let ac = demo_at_count(buf, scene);
    let sa = sc > 0;
    let aa = !sa && ac > 0;
    let complete_only = sa && !exact_command(buf, scene);
    let code = k.code;
    let n = buf.len() as int;
    if k.quit {
        if v.selection {
            (UiView { selection: false, ..v }, ActionView::CopySelection)
        } else {
            (v, ActionView::Quit)
        }
    } else if code == KeyCode::Char('d') && k.ctrl {
        (v, ActionView::Quit)
    } else if code == KeyCode::Char('b') && k.ctrl {
        (UiView { sidebar: !v.sidebar, ..v }, ActionView::Nothing)
    } else if code == KeyCode::Up && sa {
        (UiView { slash_idx: step_up(v.slash_idx), ..v }, ActionView::Nothing)
    } else if code == KeyCode::Down && sa {
        (UiView { slash_idx: step_down(v.slash_idx, sc), ..v }, ActionView::Nothing)
    } else if code == KeyCode::Tab && sa {
        (
            match slash_pick(buf, v.slash_idx, scene) {
                Some(c) => with_text(v, trim_end_ws(c)),
                None => v,
            },
            ActionView::Nothing,
        )
    } else if code == KeyCode::BackTab && sa {
        (UiView { slash_idx: wrap_back(v.slash_idx, sc), ..v }, ActionView::Nothing)
    } else if code == KeyCode::Enter && complete_only {
        (
            match slash_pick(buf, v.slash_idx, scene) {
                Some(c) => with_text(v, c),
                None => v,
            },
            ActionView::Nothing,
        )
    } else if code == KeyCode::Up && aa {
        (UiView { at_idx: step_up(v.at_idx), ..v }, ActionView::Nothing)
    } else if code == KeyCode::Down && aa {
        (UiView { at_idx: step_down(v.at_idx, ac), ..v }, ActionView::Nothing)
    } else if (code == KeyCode::Tab || code == KeyCode::Enter) && aa {
        (
            match at_pick(buf, v.at_idx, scene) {
                Some(c) => with_text(v, c),
                None => v,
            },
            ActionView::Nothing,
        )
    } else if code == KeyCode::BackTab && aa {
        (UiView { at_idx: wrap_back(v.at_idx, ac), ..v }, ActionView::Nothing)
    } else if code == KeyCode::Up {
        (UiView { cursor: moved_cursor(buf, v.cursor, -1), ..v }, ActionView::Nothing)
    } else if code == KeyCode::Down {
        (UiView { cursor: moved_cursor(buf, v.cursor, 1), ..v }, ActionView::Nothing)
    } else if code == KeyCode::Esc {
        if v.selection {
            (UiView { selection: false, ..v }, ActionView::Nothing)
        } else {
            (UiView { buffer: Seq::empty(), cursor: 0, slash_idx: 0, at_idx: 0, ..v }, ActionView::Nothing)
        }
    } else if code == KeyCode::PageUp {
        (
            UiView { scroll: if v.scroll + 10 > u16::MAX { u16::MAX as int } else { v.scroll + 10 }, ..v },
            ActionView::Nothing,
        )
    } else if code == KeyCode::PageDown {
        (UiView { scroll: if v.scroll < 10 { 0 } else { v.scroll - 10 }, ..v }, ActionView::Nothing)
    } else if code == KeyCode::Left && k.ctrl {
        (UiView { cursor: prev_word(buf, v.cursor), ..v }, ActionView::Nothing)
    } else if code == KeyCode::Right && k.ctrl {
        (UiView { cursor: next_word(buf, v.cursor), ..v }, ActionView::Nothing)
    } else if code == KeyCode::Left {
        (UiView { cursor: step_up(v.cursor), ..v }, ActionView::Nothing)
    } else if code == KeyCode::Right {
        (UiView { cursor: if v.cursor + 1 < n { v.cursor + 1 } else { n }, ..v }, ActionView::Nothing)
    } else if code == KeyCode::Home {
        (UiView { cursor: 0, ..v }, ActionView::Nothing)
    } else if code == KeyCode::End {
        (UiView { cursor: n, ..v }, ActionView::Nothing)
    } else if code matches KeyCode::Char(_) && !k.ctrl {
        (
            UiView { scroll: 0, ..edited(v, inserted(buf, v.cursor, code->Char_0), v.cursor + 1) },
            ActionView::Nothing,
        )
    } else if code == KeyCode::Backspace && k.ctrl {
        let nc = prev_word(buf, v.cursor);
        (edited(v, buf.take(nc) + buf.skip(v.cursor), nc), ActionView::Nothing)
    } else if code == KeyCode::Backspace {
        if v.cursor > 0 {
            (edited(v, removed(buf, v.cursor - 1), v.cursor - 1), ActionView::Nothing)
        } else {
            (edited(v, buf, v.cursor), ActionView::Nothing)
        }
    } else if code == KeyCode::Delete {
        (UiView { buffer: removed(buf, v.cursor), slash_idx: 0, at_idx: 0, ..v }, ActionView::Nothing)
    } else if code == KeyCode::Enter && k.shift {
        (edited(v, inserted(buf, v.cursor, '\n'), v.cursor + 1), ActionView::Nothing)
    } else if code == KeyCode::Enter {
        let t = trim_ws(buf);
        (
            UiView { scroll: 0, ..edited(v, Seq::empty(), 0) },
            if t.len() > 0 {
                ActionView::Emit(EventView::Submit(t))
            } else {
                ActionView::Nothing
            },
        )
    } else {
        (v, ActionView::Nothing)
    }
}

/// Handles a key in the demo (see `demo_step`); a submitted text comes
/// back as `Emit(Submit(..))` for the loop to add as a user card.
#[verifier::rlimit(50)]
pub fn demo_key(st: &mut UiState, key: &Key, scene: &SceneState) -> (r: UiAction)
    requires
        old(st).wf(),
    ensures
        final(st)@ == demo_step(old(st)@, *key, *scene).0,
        r@ == demo_step(old(st)@, *key, *scene).1,
{
    if key.quit {
        if st.selection_active {
            st.selection_active = false;
            return UiAction::CopySelection;
        }
        return UiAction::Quit;
    }
    if key.code == KeyCode::Char('d') && key.ctrl {
        return UiAction::Quit;
    }
    if key.code == KeyCode::Char('b') && key.ctrl {
        st.sidebar_visible = !st.sidebar_visible;
        return UiAction::Nothing;
    }
    let sc = slash_match_count(st.buffer.as_str(), scene);
    let ac = if sc > 0 {
        0
    } else {
        at_match_count(st.buffer.as_str(), scene)
    };
    let sa = sc > 0;
    let aa = !sa && ac > 0;
    let complete_only = sa && !slash_is_exact(st.buffer.as_str(), scene);
    let code = key.code;
    let n = char_count(&st.buffer);
    if code == KeyCode::Up && sa {
        st.slash_idx = if st.slash_idx > 0 {
            st.slash_idx - 1
        } else {
            0
        };
    } else if code == KeyCode::Down && sa {
        st.slash_idx = if sc >= 2 && st.slash_idx < sc - 2 {
            st.slash_idx + 1
        } else {
            sc - 1
        };
    } else if code == KeyCode::Tab && sa {
        if let Some(c) = slash_completion(st.buffer.as_str(), st.slash_idx, scene) {
            st.buffer = trim_end(c.as_str());
            st.cursor = char_count(&st.buffer);
        }
    } else if code == KeyCode::BackTab && sa {
        st.slash_idx = if st.slash_idx == 0 {
            sc - 1
        } else {
            st.slash_idx - 1
        };
    } else if code == KeyCode::Enter && complete_only {
        if let Some(c) = slash_completion(st.buffer.as_str(), st.slash_idx, scene) {
            st.cursor = char_count(&c);
            st.buffer = c;
        }
    } else if code == KeyCode::Up && aa {
        st.at_idx = if st.at_idx > 0 {
            st.at_idx - 1
        } else {
            0
        };
    } else if code == KeyCode::Down && aa {
        st.at_idx = if ac >= 2 && st.at_idx < ac - 2 {
            st.at_idx + 1
        } else {
            ac - 1
        };
    } else if (code == KeyCode::Tab || code == KeyCode::Enter) && aa {
        if let Some(c) = at_completion(st.buffer.as_str(), st.at_idx, scene) {
            st.cursor = char_count(&c);
            st.buffer = c;
        }
    } else if code == KeyCode::BackTab && aa {
        st.at_idx = if st.at_idx == 0 {
            ac - 1
        } else {
            st.at_idx - 1
        };
    } else if code == KeyCode::Up {
        st.cursor = move_cursor_line(st.buffer.as_str(), st.cursor, -1);
    } else if code == KeyCode::Down {
        st.cursor = move_cursor_line(st.buffer.as_str(), st.cursor, 1);
    } else if code == KeyCode::Esc {
        if st.selection_active {
            st.selection_active = false;
        } else {
            st.buffer = String::new();
            st.cursor = 0;
            st.slash_idx = 0;
            st.at_idx = 0;
        }
    } else if code == KeyCode::PageUp {
        st.scroll_offset = st.scroll_offset.saturating_add(10);
    } else if code == KeyCode::PageDown {
        st.scroll_offset = st.scroll_offset.saturating_sub(10);
    } else if code == KeyCode::Left && key.ctrl {
        st.cursor = prev_word_boundary(st.buffer.as_str(), st.cursor);
    } else if code == KeyCode::Right && key.ctrl {
        st.cursor = next_word_boundary(st.buffer.as_str(), st.cursor);
    } else if code == KeyCode::Left {
        st.cursor = if st.cursor > 0 {
            st.cursor - 1
        } else {
            0
        };
    } else if code == KeyCode::Right {
        st.cursor = if st.cursor + 1 < n {
            st.cursor + 1
        } else {
            n
        };
    } else if code == KeyCode::Home {
        st.cursor = 0;
    } else if code == KeyCode::End {
        st.cursor = n;
    } else if is_char_code(code) && !key.ctrl {
        let c = char_of(code);
        st.selection_active = false;
        insert_char_at(&mut st.buffer, st.cursor, c);
        st.cursor = st.cursor + 1;
        st.slash_idx = 0;
        st.at_idx = 0;
        st.scroll_offset = 0;
    } else if code == KeyCode::Backspace && key.ctrl {
        st.selection_active = false;
        let nc = prev_word_boundary(st.buffer.as_str(), st.cursor);
        let cs = chars_of(st.buffer.as_str());
        let mut t = string_from_range(cs.as_slice(), 0, nc);
        let rest = string_from_range(cs.as_slice(), st.cursor, cs.len());
        crate::text::push_str(&mut t, rest.as_str());
        assert(t@ =~= cs@.take(nc as int) + cs@.skip(st.cursor as int));
        st.buffer = t;
        st.cursor = nc;
        st.slash_idx = 0;
        st.at_idx = 0;
    } else if code == KeyCode::Backspace {
        st.selection_active = false;
        if st.cursor > 0 {
            remove_char_at(&mut st.buffer, st.cursor - 1);
            st.cursor = st.cursor - 1;
        }
        st.slash_idx = 0;
        st.at_idx = 0;
    } else if code == KeyCode::Delete {
        if st.cursor < n {
            remove_char_at(&mut st.buffer, st.cursor);
        }
        st.slash_idx = 0;
        st.at_idx = 0;
    } else if code == KeyCode::Enter && key.shift {
        st.selection_active = false;
        insert_char_at(&mut st.buffer, st.cursor, '\n');
        st.cursor = st.cursor + 1;
        st.slash_idx = 0;
        st.at_idx = 0;
    } else if code == KeyCode::Enter {
        st.selection_active = false;
        let text = trim(st.buffer.as_str());
        st.buffer = String::new();
        st.cursor = 0;
        st.slash_idx = 0;
        st.at_idx = 0;
        st.scroll_offset = 0;
        if char_count(&text) > 0 {
            return UiAction::Emit(HostEvent::Submit(text));
        }
    }
    UiAction::Nothing
}

} // verus!
