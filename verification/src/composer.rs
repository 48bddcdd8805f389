//! The composer box of the dock: the text wrapped into visual lines, where
//! the cursor lands among them, which lines show, and what the prompt shows.
use crate::cards::{char_wrap, char_wrap_exec, flatten, law_wrap_keeps_text, string_views};
use crate::state::{PromptInput, SceneState};
use crate::text::{chars_of, push_char, split_char, split_on};
use vstd::prelude::*;

verus! {

/// The visual lines of one logical line at `width` columns: one empty line
/// for an empty line, else its character wrap.
pub open spec fn visual_chars_spec(line: Seq<char>, width: nat) -> Seq<Seq<char>> {
    if line.len() == 0 {
        seq![Seq::<char>::empty()]
    } else {
        char_wrap(line, width)
    }
}

/// The visual lines of one logical line (see `visual_chars_spec`).
pub fn wrap_visual_chars(line: &str, width: usize) -> (r: Vec<String>)
    ensures
        string_views(r@) == visual_chars_spec(line@, width as nat),
{
    let cs = chars_of(line);
    if cs.len() == 0 {
        let mut v: Vec<String> = Vec::new();
        v.push(String::new());
        assert(string_views(v@) =~= seq![Seq::<char>::empty()]);
        return v;
    }
    char_wrap_exec(cs.as_slice(), width)
}

/// The layout state: the visual lines so far, the cursor's row and column,
/// and how many characters (line breaks included) come before the next one.
#[verifier::ext_equal]
pub struct CState {
    pub out: Seq<Seq<char>>,
    pub row: nat,
    pub col: nat,
    pub so_far: nat,
}

/// One visual line placed: the cursor is on it when it falls within it or
/// at its end (a later line that also holds it wins).
pub open spec fn place_seg(st: CState, seg: Seq<char>, cursor: nat) -> CState {
    let start = st.so_far;
    let end = st.so_far + seg.len();
    let on = start <= cursor && cursor <= end;
    CState {
        out: st.out.push(seg),
        row: if on {
            st.out.len()
        } else {
            st.row
        },
        col: if on {
            (cursor - start) as nat
        } else {
            st.col
        },
        so_far: end,
    }
}

pub open spec fn place_segs(st: CState, segs: Seq<Seq<char>>, cursor: nat) -> CState
    decreases segs.len(),
{
    if segs.len() == 0 {
        st
    } else {
        place_seg(place_segs(st, segs.drop_last(), cursor), segs.last(), cursor)
    }
}

/// The logical lines placed, a line break counted between two of them.
pub open spec fn place_lines(lines: Seq<Seq<char>>, w: nat, cursor: nat) -> CState
    decreases lines.len(),
{
    if lines.len() == 0 {
        CState { out: Seq::empty(), row: 0, col: 0, so_far: 0 }
    } else {
        let prev = place_lines(lines.drop_last(), w, cursor);
        let st = if lines.len() > 1 {
            CState { so_far: prev.so_far + 1, ..prev }
        } else {
            prev
        };
        place_segs(st, visual_chars_spec(lines.last(), w), cursor)
    }
}

/// The visual lines of the composer text at `width` columns (at least 1)
/// and the row and column of the cursor, a character index: one empty line
/// for an empty text.
pub open spec fn composer_lines_spec(text: Seq<char>, cursor: nat, width: nat) -> (Seq<Seq<char>>, nat, nat) {
    if text.len() == 0 {
        (seq![Seq::<char>::empty()], 0, 0)
    } else {
        let w = if width == 0 {
            1
        } else {
            width
        };
        let st = place_lines(split_on(text, '\n'), w, cursor);
        (st.out, st.row, st.col)
    }
}

pub open spec fn cstate_of(out: Seq<String>, row: usize, col: usize, so_far: usize) -> CState {
    CState { out: string_views(out), row: row as nat, col: col as nat, so_far: so_far as nat }
}

/// The total length of `ss`.
pub open spec fn total_len(ss: Seq<Seq<char>>) -> nat
    decreases ss.len(),
{
    if ss.len() == 0 {
        0
    } else {
        total_len(ss.drop_last()) + ss.last().len()
    }
}

proof fn lemma_wrap_len(cs: Seq<char>, w: nat)
    ensures
        total_len(char_wrap(cs, w)) == cs.len(),
    decreases cs.len(),
{
    if cs.len() > 0 {
        lemma_wrap_len(cs.drop_last(), w);
        let prev = char_wrap(cs.drop_last(), w);
        let c = cs.last();
        if prev.len() == 0 {
            assert(seq![seq![c]].drop_last() =~= Seq::<Seq<char>>::empty());
        } else if crate::text::sum_width(prev.last()) + crate::text::cw(c) > w {
            assert(prev.push(seq![c]).drop_last() =~= prev);
        } else {
            let upd = prev.update(prev.len() - 1, prev.last().push(c));
            assert(upd.drop_last() =~= prev.drop_last());
        }
    }
}

proof fn lemma_split_len(s: Seq<char>, sep: char)
    ensures
        total_len(split_on(s, sep)) + split_on(s, sep).len() == s.len() + 1,
    decreases s.len(),
{
    if s.len() > 0 {
        lemma_split_len(s.drop_last(), sep);
        crate::text::lemma_split_nonempty(s.drop_last(), sep);
        let prev = split_on(s.drop_last(), sep);
        if s.last() == sep {
            assert(prev.push(Seq::<char>::empty()).drop_last() =~= prev);
        } else {
            let upd = prev.update(prev.len() - 1, prev.last().push(s.last()));
            assert(upd.drop_last() =~= prev.drop_last());
            assert(total_len(prev) == total_len(prev.drop_last()) + prev.last().len());
        }
    } else {
        assert(seq![Seq::<char>::empty()].drop_last() =~= Seq::<Seq<char>>::empty());
        assert(total_len(seq![Seq::<char>::empty()]) == 0) by {
            reveal_with_fuel(total_len, 2);
        }
    }
}

proof fn lemma_total_len_take(ss: Seq<Seq<char>>, k: int)
    requires
        0 <= k <= ss.len(),
    ensures
        total_len(ss.take(k)) <= total_len(ss),
    decreases ss.len() - k,
{
    if k < ss.len() {
        lemma_total_len_take(ss, k + 1);
        assert(ss.take(k + 1).drop_last() =~= ss.take(k));
    } else {
        assert(ss.take(k) =~= ss);
    }
}

proof fn lemma_place_segs_so_far(st: CState, segs: Seq<Seq<char>>, cursor: nat)
    ensures
        place_segs(st, segs, cursor).so_far == st.so_far + total_len(segs),
        place_segs(st, segs, cursor).out == st.out + segs,
    decreases segs.len(),
{
    if segs.len() > 0 {
        lemma_place_segs_so_far(st, segs.drop_last(), cursor);
        assert(st.out + segs.drop_last() + seq![segs.last()] =~= st.out + segs);
    } else {
        assert(st.out + segs =~= st.out);
    }
}

/// `s` with every `c` taken out.
pub open spec fn without_char(s: Seq<char>, c: char) -> Seq<char>
    decreases s.len(),
{
    if s.len() == 0 {
        s
    } else if s.last() == c {
        without_char(s.drop_last(), c)
    } else {
        without_char(s.drop_last(), c).push(s.last())
    }
}

proof fn lemma_flatten_push(ls: Seq<Seq<char>>, l: Seq<char>)
    ensures
        flatten(ls.push(l)) == flatten(ls) + l,
{
    assert(ls.push(l).drop_last() =~= ls);
}

proof fn lemma_flatten_split(s: Seq<char>, sep: char)
    ensures
        flatten(split_on(s, sep)) == without_char(s, sep),
    decreases s.len(),
{
    if s.len() == 0 {
        let one = seq![Seq::<char>::empty()];
        assert(one.drop_last() =~= Seq::<Seq<char>>::empty());
        assert(flatten(one) == flatten(one.drop_last()) + one.last());
        assert(flatten(one) =~= s);
    } else {
        lemma_flatten_split(s.drop_last(), sep);
        crate::text::lemma_split_nonempty(s.drop_last(), sep);
        let prev = split_on(s.drop_last(), sep);
        if s.last() == sep {
            lemma_flatten_push(prev, Seq::empty());
            assert(flatten(prev) + Seq::<char>::empty() =~= flatten(prev));
        } else {
            let c = s.last();
            let upd = prev.update(prev.len() - 1, prev.last().push(c));
            assert(upd.drop_last() =~= prev.drop_last());
            assert(upd.last() == prev.last().push(c));
            assert(flatten(upd) == flatten(upd.drop_last()) + upd.last());
            assert(flatten(prev) == flatten(prev.drop_last()) + prev.last());
            assert(flatten(prev.drop_last()) + prev.last().push(c) =~= (flatten(prev.drop_last()) + prev.last()).push(c));
            assert(flatten(upd) == flatten(prev).push(c));
        }
    }
}

proof fn lemma_flatten_place_segs(st: CState, segs: Seq<Seq<char>>, cursor: nat)
    ensures
        flatten(place_segs(st, segs, cursor).out) == flatten(st.out) + flatten(segs),
    decreases segs.len(),
{
    if segs.len() == 0 {
        assert(flatten(st.out) + flatten(segs) =~= flatten(st.out));
    } else {
        lemma_flatten_place_segs(st, segs.drop_last(), cursor);
        let inner = place_segs(st, segs.drop_last(), cursor);
        lemma_flatten_push(inner.out, segs.last());
        assert(flatten(st.out) + flatten(segs.drop_last()) + segs.last() =~= flatten(st.out) + (flatten(segs.drop_last()) + segs.last()));
    }
}

proof fn lemma_flatten_visual(line: Seq<char>, w: nat)
    ensures
        flatten(visual_chars_spec(line, w)) == line,
{
    if line.len() == 0 {
        let one = seq![Seq::<char>::empty()];
        assert(one.drop_last() =~= Seq::<Seq<char>>::empty());
        assert(flatten(one) == flatten(one.drop_last()) + one.last());
        assert(flatten(one) =~= line);
    } else {
        law_wrap_keeps_text(line, w);
    }
}

proof fn lemma_flatten_place_lines(lines: Seq<Seq<char>>, w: nat, cursor: nat)
    ensures
        flatten(place_lines(lines, w, cursor).out) == flatten(lines),
    decreases lines.len(),
{
    if lines.len() > 0 {
        lemma_flatten_place_lines(lines.drop_last(), w, cursor);
        let prev = place_lines(lines.drop_last(), w, cursor);
        let st = if lines.len() > 1 {
            CState { so_far: prev.so_far + 1, ..prev }
        } else {
            prev
        };
        lemma_flatten_place_segs(st, visual_chars_spec(lines.last(), w), cursor);
        lemma_flatten_visual(lines.last(), w);
    }
}

/// Wrapping the composer text keeps it: the visual lines put back together
/// are the text without its line breaks.
pub proof fn law_composer_lines_keep_text(text: Seq<char>, cursor: nat, width: nat)
    ensures
        flatten(composer_lines_spec(text, cursor, width).0) == without_char(text, '\n'),
{
    if text.len() == 0 {
        let one = seq![Seq::<char>::empty()];
        assert(one.drop_last() =~= Seq::<Seq<char>>::empty());
        assert(flatten(one) == flatten(one.drop_last()) + one.last());
        assert(flatten(one) =~= without_char(text, '\n'));
    } else {
        let w: nat = if width == 0 {
            1
        } else {
            width
        };
        lemma_flatten_place_lines(split_on(text, '\n'), w, cursor);
        lemma_flatten_split(text, '\n');
    }
}

/// The visual lines of the composer text and the cursor's row and column
/// (see `composer_lines_spec`).
pub fn build_composer_visual_lines(text: &str, cursor: usize, width: usize) -> (r: (Vec<String>, usize, usize))
    ensures
        string_views(r.0@) == composer_lines_spec(text@, cursor as nat, width as nat).0,
        r.1 as nat == composer_lines_spec(text@, cursor as nat, width as nat).1,
        r.2 as nat == composer_lines_spec(text@, cursor as nat, width as nat).2,
        r.1 < r.0@.len(),
{
    let mut out: Vec<String> = Vec::new();
    let tc = chars_of(text);
    if tc.len() == 0 {
        out.push(String::new());
        assert(string_views(out@) =~= seq![Seq::<char>::empty()]);
        return (out, 0, 0);
    }
    let w: usize = if width == 0 {
        1
    } else {
        width
    };
    let tn = tc.len();
    let logical = split_char(text, '\n');
    let ghost lv = logical@.map_values(|x: String| x@);
    proof {
        lemma_split_len(text@, '\n');
        crate::text::lemma_split_nonempty(text@, '\n');
    }
    let mut cur_row: usize = 0;
    let mut cur_col: usize = 0;
    let mut so_far: usize = 0;
    let mut li: usize = 0;
    assert(lv.take(0) =~= Seq::<Seq<char>>::empty());
    while li < logical.len()
        invariant
            li <= logical@.len(),
            lv == logical@.map_values(|x: String| x@),
            lv == split_on(text@, '\n'),
            lv.len() >= 1,
            total_len(lv) + lv.len() == text@.len() + 1,
            tc@.len() == text@.len(),
            tn == text@.len(),
            w == (if width == 0 { 1 } else { width }),
            so_far as nat == total_len(lv.take(li as int)) + (if li > 0 { (li - 1) as nat } else { 0nat }),
            cstate_of(out@, cur_row, cur_col, so_far) == place_lines(lv.take(li as int), w as nat, cursor as nat),
            cur_row < out@.len() || cur_row == 0,
            li > 0 ==> out@.len() > 0,
        decreases logical@.len() - li,
    {
        assert(lv.take(li + 1).drop_last() =~= lv.take(li as int));
        assert(lv.take(li + 1).last() == logical@[li as int]@);
        proof {
            lemma_total_len_take(lv, li + 1);
            assert(total_len(lv.take(li + 1)) == total_len(lv.take(li as int)) + lv[li as int].len());
        }
        if li > 0 {
            so_far = so_far + 1;
        }
        let ghost st0 = cstate_of(out@, cur_row, cur_col, so_far);
        let ghost base = so_far as nat;
        let segs = wrap_visual_chars(logical[li].as_str(), w);
        let ghost sv = string_views(segs@);
        proof {
            if logical@[li as int]@.len() > 0 {
                lemma_wrap_len(logical@[li as int]@, w as nat);
            } else {
                assert(seq![Seq::<char>::empty()].drop_last() =~= Seq::<Seq<char>>::empty());
                assert(total_len(seq![Seq::<char>::empty()]) == 0) by {
                    reveal_with_fuel(total_len, 2);
                }
            }
        }
        assert(total_len(sv) == logical@[li as int]@.len());
        assert(base + total_len(sv) <= text@.len());
        assert(sv.len() > 0) by {
            if sv.len() == 0 {
                assert(sv == visual_chars_spec(logical@[li as int]@, w as nat));
            }
        }
        let mut j: usize = 0;
        while j < segs.len()
            invariant
                j <= segs@.len(),
                sv == string_views(segs@),
                total_len(sv) + base <= text@.len(),
                tn == text@.len(),
                so_far as nat == base + total_len(sv.take(j as int)),
                cstate_of(out@, cur_row, cur_col, so_far) == place_segs(st0, sv.take(j as int), cursor as nat),
                cur_row < out@.len() || cur_row == 0,
                j > 0 ==> out@.len() > 0,
            decreases segs@.len() - j,
        {
            proof {
                lemma_total_len_take(sv, j + 1);
                assert(sv.take(j + 1).drop_last() =~= sv.take(j as int));
            }
            let seg_chars = chars_of(segs[j].as_str()).len();
            let seg_start = so_far;
            let seg_end = so_far + seg_chars;
            if cursor >= seg_start && cursor <= seg_end {
                cur_row = out.len();
                cur_col = cursor - seg_start;
            }
            so_far = seg_end;
            let ghost before = string_views(out@);
            out.push(crate::text::string_of(segs[j].as_str()));
            assert(string_views(out@) =~= before.push(sv[j as int]));
            j += 1;
        }
        assert(sv.take(segs@.len() as int) =~= sv);
        li += 1;
    }
    assert(lv.take(logical@.len() as int) =~= lv);
    (out, cur_row, cur_col)
}

/// What the composer's prompt shows, by what is being typed.
#[derive(Clone, Copy, Debug, PartialEq, Eq, Structural)]
pub enum PromptKind {
    /// The host asked for a value.
    Input,
    /// A shell command (`!`).
    Shell,
    /// A slash command (`/`).
    Command,
    /// A file reference (`@`).
    File,
    /// Plain text.
    Plain,
}

/// The prompt kind: a pending input request, else by the text's first
/// character.
pub open spec fn prompt_kind_spec(has_input: bool, text: Seq<char>) -> PromptKind {
    if has_input {
        PromptKind::Input
    } else if text.len() > 0 && text[0] == '!' {
        PromptKind::Shell
    } else if text.len() > 0 && text[0] == '/' {
        PromptKind::Command
    } else if text.len() > 0 && text[0] == '@' {
        PromptKind::File
    } else {
        PromptKind::Plain
    }
}

/// The text shown in the composer: a secret value as one bullet per
/// character.
pub open spec fn shown_text_spec(raw: Seq<char>, secret: bool) -> Seq<char> {
    if secret {
        Seq::new(raw.len(), |i: int| '\u{2022}')
    } else {
        raw
    }
}

/// The composer's content as drawn in a box `width` columns wide and
/// `rows` high at animation tick `tick`.
#[derive(Debug)]
pub struct ComposerView {
    pub prompt: PromptKind,
    /// The text shown (a secret is masked).
    pub text: String,
    /// The visual lines of the text.
    pub lines: Vec<String>,
    pub cursor_row: usize,
    pub cursor_col: usize,
    /// The first visual line shown.
    pub scroll_off: usize,
    pub more_above: bool,
    pub more_below: bool,
    /// The caret blinks: shown for six ticks, hidden for six.
    pub show_caret: bool,
}

/// The text width inside the box: six columns less than the box.
pub open spec fn inner_width(width: nat) -> nat {
    if width > 6 {
        (width - 6) as nat
    } else {
        0
    }
}

/// The composer as drawn (see the fields of `ComposerView`): the cursor is
/// the scene's, at most the text's length (the end when unset); the lines
/// scroll so that the cursor's line is the last one shown when it would be
/// below the box.
pub fn composer_view(state: &SceneState, width: u16, rows: u16, tick: u32) -> (r: ComposerView)
    ensures
        ({
            let raw = match state.composer_text {
                Some(t) => t@,
                None => Seq::<char>::empty(),
            };
            let secret = match state.prompt_input {
                Some(p) => p.secret,
                None => false,
            };
            let text = shown_text_spec(raw, secret);
            let cursor = match state.composer_cursor {
                Some(c) => if (c as nat) < text.len() {
                    c as nat
                } else {
                    text.len()
                },
                None => text.len(),
            };
            let lay = composer_lines_spec(text, cursor, inner_width(width as nat));
            let content = if rows >= 2 {
                (rows - 2) as nat
            } else {
                0
            };
            let scroll = if lay.1 + 1 > content {
                (lay.1 + 1 - content) as nat
            } else {
                0
            };
            &&& r.prompt == prompt_kind_spec(state.prompt_input is Some, raw)
            &&& r.text@ == text
            &&& string_views(r.lines@) == lay.0
            &&& r.cursor_row as nat == lay.1
            &&& r.cursor_col as nat == lay.2
            &&& r.scroll_off as nat == scroll
            &&& r.more_above == (scroll > 0)
            &&& r.more_below == (scroll + content < lay.0.len())
            &&& r.show_caret == ((tick / 6) % 2 == 0)
        }),
        rows >= 3 ==> r.scroll_off <= r.cursor_row && r.cursor_row < r.scroll_off + (rows - 2),
        r.cursor_row < r.lines@.len(),
{
    let raw: String = match &state.composer_text {
        Some(t) => crate::text::string_of(t.as_str()),
        None => String::new(),
    };
    let rc = chars_of(raw.as_str());
    let secret = match &state.prompt_input {
        Some(p) => p.secret,
        None => false,
    };
    let prompt = if state.prompt_input.is_some() {
        PromptKind::Input
    } else if rc.len() > 0 && rc[0] == '!' {
        PromptKind::Shell
    } else if rc.len() > 0 && rc[0] == '/' {
        PromptKind::Command
    } else if rc.len() > 0 && rc[0] == '@' {
        PromptKind::File
    } else {
        PromptKind::Plain
    };
    let text = if secret {
        let mut m = String::new();
        let mut i: usize = 0;
        while i < rc.len()
            invariant
                i <= rc@.len(),
                m@ == Seq::new(i as nat, |k: int| '\u{2022}'),
            decreases rc@.len() - i,
        {
            push_char(&mut m, '\u{2022}');
            assert(m@ =~= Seq::new((i + 1) as nat, |k: int| '\u{2022}'));
            i += 1;
        }
        m
    } else {
        raw
    };
    let total = chars_of(text.as_str()).len();
    let cursor = match state.composer_cursor {
        Some(c) => if c < total {
            c
        } else {
            total
        },
        None => total,
    };
    let inner: usize = if width > 6 {
        (width - 6) as usize
    } else {
        0
    };
    let (lines, cursor_row, cursor_col) = build_composer_visual_lines(text.as_str(), cursor, inner);
    let content: usize = if rows >= 2 {
        (rows - 2) as usize
    } else {
        0
    };
    let ghost lay = composer_lines_spec(text@, cursor as nat, inner as nat);
    let nlines = lines.len();
    let scroll_off: usize = if cursor_row >= content {
        cursor_row + 1 - content
    } else {
        0
    };
    let more_below = scroll_off < lines.len() && content < lines.len() - scroll_off;
    ComposerView {
        prompt,
        text,
        lines,
        cursor_row,
        cursor_col,
        scroll_off,
        more_above: scroll_off > 0,
        more_below,
        show_caret: (tick / 6) % 2 == 0,
    }
}

/// The label of the model pill in the status bar: the known presets by
/// name, any other preset upper-cased.
pub open spec fn preset_label_spec(preset: Seq<char>) -> Seq<char> {
    if preset == "auto"@ {
        "AUTO"@
    } else if preset == "flash"@ {
        "FLASH"@
    } else if preset == "pro"@ {
        "PRO"@
    } else {
        crate::text::upper_all(preset)
    }
}

/// The label of the model pill (see `preset_label_spec`).
pub fn preset_label(preset: &str) -> (r: String)
    ensures
        r@ == preset_label_spec(preset@),
{
    if crate::text::str_eq(preset, "auto") {
        crate::text::string_of("AUTO")
    } else if crate::text::str_eq(preset, "flash") {
        crate::text::string_of("FLASH")
    } else if crate::text::str_eq(preset, "pro") {
        crate::text::string_of("PRO")
    } else {
        crate::text::uppercase_each(preset)
    }
}

/// The dock's height for the composer text: `base` rows, and one more per
/// line of the text beyond the first, up to `max_rows` lines in all.
pub open spec fn dock_height_spec(text: Seq<char>, base: nat, max_rows: nat) -> nat {
    let lines: nat = if text.len() == 0 {
        1
    } else {
        let n = split_on(text, '\n').len();
        if n < 1 {
            1
        } else if n > max_rows {
            max_rows
        } else {
            n
        }
    };
    let extra: nat = if lines >= 1 {
        (lines - 1) as nat
    } else {
        0
    };
    if base + extra > u16::MAX {
        u16::MAX as nat
    } else {
        base + extra
    }
}

/// The dock's height for the composer text (see `dock_height_spec`).
pub fn dock_height_for(text: &str, base: u16, max_rows: u16) -> (r: u16)
    requires
        max_rows >= 1,
    ensures
        r as nat == dock_height_spec(text@, base as nat, max_rows as nat),
{
    let lines: u16 = if chars_of(text).len() == 0 {
        1
    } else {
        let n = split_char(text, '\n').len();
        if n < 1 {
            1
        } else if n > max_rows as usize {
            max_rows
        } else {
            n as u16
        }
    };
    base.saturating_add(lines - 1)
}

/// The main column and the sidebar across a screen `width` wide, as
/// (main width, sidebar width): the sidebar takes `side_w` columns when it
/// is shown and the screen is more than 30 columns wider than it.
pub fn split_main_sidebar(width: u16, sidebar_visible: bool, side_w: u16) -> (r: (u16, u16))
    ensures
        (!sidebar_visible || width as int <= side_w as int + 30) ==> r == (width, 0u16),
        (sidebar_visible && width as int > side_w as int + 30) ==> r == ((width - side_w) as u16, side_w),
{
    if !sidebar_visible || width as u32 <= side_w as u32 + 30 {
        (width, 0)
    } else {
        (width - side_w, side_w)
    }
}

} // verus!
