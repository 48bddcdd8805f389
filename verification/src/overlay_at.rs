//! The `@` file-reference picker: when the composer ends in an `@token`,
//! the host's entries are offered, and a pick replaces the token.
use crate::state::{AtPickerEntry, AtState, SceneState};
use crate::text::{
    any_whitespace, chars_of, has_ws, is_whitespace, is_ws, push_char, push_str, rfind_char,
    string_from_chars, string_from_range,
};
use vstd::prelude::*;

verus! {

/// `i` is the position of the last `c` in `s`.
pub open spec fn is_last_index(s: Seq<char>, c: char, i: int) -> bool {
    0 <= i < s.len() && s[i] == c && forall|j: int| i < j < s.len() ==> s[j] != c
}

/// The position of the last `c` in `s` (meaningful when `s` contains `c`).
pub open spec fn last_pos(s: Seq<char>, c: char) -> int {
    choose|i: int| is_last_index(s, c, i)
}

proof fn lemma_last_pos(s: Seq<char>, c: char, i: int)
    requires
        is_last_index(s, c, i),
    ensures
        last_pos(s, c) == i,
{
    let k = last_pos(s, c);
    assert(is_last_index(s, c, k));
    if k < i {
        assert(s[i] != c);
    }
    if i < k {
        assert(s[k] != c);
    }
}

/// The position of the `@` that starts the reference being typed: the
/// last `@` of the text, when it starts the text or follows whitespace and
/// no whitespace comes after it.
pub open spec fn at_token(b: Seq<char>) -> Option<int> {
    if b.contains('@') {
        let p = last_pos(b, '@');
        let prefix = b.take(p);
        if (prefix.len() == 0 || is_ws(prefix.last())) && !has_ws(b.skip(p + 1)) {
            Some(p)
        } else {
            None
        }
    } else {
        None
    }
}

/// The picker entries, when the picker is open.
pub open spec fn at_entries(state: SceneState) -> Option<Seq<AtPickerEntry>> {
    match state.at_state {
        Some(AtState::Browse { entries, .. }) => Some(entries@),
        Some(AtState::Search { entries, .. }) => Some(entries@),
        None => None,
    }
}

/// `s` without its trailing `/` characters.
pub open spec fn trim_end_slashes(s: Seq<char>) -> Seq<char>
    decreases s.len(),
{
    if s.len() > 0 && s.last() == '/' {
        trim_end_slashes(s.drop_last())
    } else {
        s
    }
}

/// The text that replaces the token for an entry: a directory keeps
/// exactly one trailing `/`, a file is followed by a space.
pub open spec fn entry_insert_text(e: AtPickerEntry) -> Seq<char> {
    if e.is_dir {
        trim_end_slashes(e.insert_path@) + seq!['/']
    } else {
        e.insert_path@ + seq![' ']
    }
}

/// Position of the `@` token being typed.
fn at_token_exec(b: &[char]) -> (r: Option<usize>)
    ensures
        match r {
            Some(p) => at_token(b@) == Some(p as int) && p < b@.len(),
            None => at_token(b@) is None,
        },
{
    let p = match rfind_char(b, '@') {
        Some(p) => p,
        None => return None,
    };
    proof {
        lemma_last_pos(b@, '@', p as int);
    }
    let valid_prefix = p == 0 || is_whitespace(b[p - 1]);
    assert(b@.take(p as int).len() == p);
    if p > 0 {
        assert(b@.take(p as int).last() == b@[p - 1]);
    }
    if !valid_prefix {
        return None;
    }
    let suffix_s = string_from_range(b, p + 1, b.len());
    let suffix = chars_of(suffix_s.as_str());
    assert(suffix@ =~= b@.skip(p + 1));
    if any_whitespace(suffix.as_slice()) {
        return None;
    }
    Some(p)
}

/// Whether the text ends in an `@token` being typed (see `at_token`).
pub fn has_at_token(buffer: &str) -> (r: bool)
    ensures
        r == at_token(buffer@) is Some,
{
    let b = chars_of(buffer);
    at_token_exec(b.as_slice()).is_some()
}

fn entries_for(state: &SceneState) -> (r: Option<&Vec<AtPickerEntry>>)
    ensures
        match r {
            Some(v) => at_entries(*state) == Some(v@),
            None => at_entries(*state) is None,
        },
{
    match &state.at_state {
        Some(AtState::Browse { entries, .. }) => Some(entries),
        Some(AtState::Search { entries, .. }) => Some(entries),
        None => None,
    }
}

/// Number of picker entries offered: the entries when the text ends in an
/// `@token` and the picker is open, otherwise 0.
pub fn at_match_count(buffer: &str, state: &SceneState) -> (r: usize)
    ensures
        r == if at_token(buffer@) is Some {
            match at_entries(*state) {
                Some(e) => e.len(),
                None => 0,
            }
        } else {
            0
        },
{
    let b = chars_of(buffer);
    if at_token_exec(b.as_slice()).is_none() {
        return 0;
    }
    match entries_for(state) {
        Some(e) => e.len(),
        None => 0,
    }
}

fn trim_end_slashes_exec(s: &[char]) -> (r: Vec<char>)
    ensures
        r@ == trim_end_slashes(s@),
{
    let mut n = s.len();
    assert(s@.take(n as int) =~= s@);
    while n > 0 && s[n - 1] == '/'
        invariant
            n <= s@.len(),
            trim_end_slashes(s@) == trim_end_slashes(s@.take(n as int)),
        decreases n,
    {
        assert(s@.take(n as int).drop_last() =~= s@.take(n - 1));
        n -= 1;
    }
    let t = string_from_range(s, 0, n);
    let r = chars_of(t.as_str());
    assert(r@ =~= s@.take(n as int));
    r
}

/// The composer text after picking entry `idx`: the text before the `@`,
/// then `@` and the entry's insert text; `None` without a token, without
/// the picker, or without such an entry.
pub fn at_completion(buffer: &str, idx: usize, state: &SceneState) -> (r: Option<String>)
    ensures
        match r {
            Some(s) => at_token(buffer@) matches Some(p) && at_entries(*state) matches Some(e)
                && idx < e.len() && s@ == buffer@.take(p) + seq!['@'] + entry_insert_text(
                e[idx as int],
            ),
            None => at_token(buffer@) is None || at_entries(*state) is None || idx
                >= at_entries(*state).unwrap().len(),
        },
{
    let b = chars_of(buffer);
    let p = match at_token_exec(b.as_slice()) {
        Some(p) => p,
        None => return None,
    };
    let entries = match entries_for(state) {
        Some(e) => e,
        None => return None,
    };
    if idx >= entries.len() {
        return None;
    }
    let entry = &entries[idx];
    let mut out = string_from_range(b.as_slice(), 0, p);
    push_char(&mut out, '@');
    if entry.is_dir {
        let path = chars_of(entry.insert_path.as_str());
        let trimmed = trim_end_slashes_exec(path.as_slice());
        let t = string_from_chars(trimmed.as_slice());
        push_str(&mut out, t.as_str());
        push_char(&mut out, '/');
    } else {
        push_str(&mut out, entry.insert_path.as_str());
        push_char(&mut out, ' ');
    }
    assert(out@ =~= b@.take(p as int) + seq!['@'] + entry_insert_text(entries@[idx as int]));
    Some(out)
}

/// Where and how the `@` popup is drawn.
#[derive(Clone, Copy, Debug, PartialEq, Eq, Structural)]
pub struct AtPopup {
    pub x: u16,
    pub y: u16,
    pub w: u16,
    pub h: u16,
    /// The selected entry.
    pub selected: usize,
    /// The entries `[start, start + visible)` are shown.
    pub start: usize,
    pub visible: usize,
}

pub open spec fn min_n(a: nat, b: nat) -> nat {
    if a <= b {
        a
    } else {
        b
    }
}

pub open spec fn sub_n(a: nat, b: nat) -> nat {
    if a >= b {
        (a - b) as nat
    } else {
        0
    }
}

/// The `@` popup over a dock at (`dock_x`, `dock_y`) `dock_w` wide with
/// `total` entries and entry `sel_idx` selected (the last when past the
/// end): at most 120 columns and 4 narrower than the dock, two columns in,
/// just above the dock; as many rows as entries fit in the space above the
/// dock (between 1 and 24, three taken by the frame), the window ending at
/// the selected entry when it can; 3 rows for an empty list. None when
/// narrower than 30 columns or when it does not fit.
pub open spec fn at_popup_spec(dock_x: nat, dock_y: nat, dock_w: nat, total: nat, sel_idx: nat) -> Option<AtPopup> {
    let avail = sub_n(dock_y, 3);
    let cap: nat = if avail < 1 {
        1
    } else if avail > 24 {
        24
    } else {
        avail
    };
    let pw = min_n(sub_n(dock_w, 4), 120);
    if pw < 30 {
        None
    } else if total == 0 {
        if dock_y < 3 {
            None
        } else {
            Some(AtPopup { x: (dock_x + 2) as u16, y: (dock_y - 3) as u16, w: pw as u16, h: 3, selected: 0, start: 0, visible: 0 })
        }
    } else {
        let sel = min_n(sel_idx, (total - 1) as nat);
        let vis: nat = if min_n(total, cap) < 1 {
            1
        } else {
            min_n(total, cap)
        };
        let s0 = sub_n(sel, sub_n(vis, 1));
        let start = if s0 + vis > total {
            sub_n(total, vis)
        } else {
            s0
        };
        let ph = 3 + vis;
        if ph > dock_y {
            None
        } else {
            Some(AtPopup { x: (dock_x + 2) as u16, y: (dock_y - ph) as u16, w: pw as u16, h: ph as u16, selected: sel as usize, start: start as usize, visible: vis as usize })
        }
    }
}

/// The `@` popup (see `at_popup_spec`). The selected entry is always in
/// the window.
pub fn at_popup(dock_x: u16, dock_y: u16, dock_w: u16, total: usize, selected_idx: usize) -> (r: Option<AtPopup>)
    requires
        dock_x <= u16::MAX - 2,
    ensures
        r == at_popup_spec(dock_x as nat, dock_y as nat, dock_w as nat, total as nat, selected_idx as nat),
        match r {
            Some(p) => total > 0 ==> p.start <= p.selected < p.start + p.visible <= total,
            None => true,
        },
{
    let avail: usize = if dock_y >= 3 {
        (dock_y - 3) as usize
    } else {
        0
    };
    let cap: usize = if avail < 1 {
        1
    } else if avail > 24 {
        24
    } else {
        avail
    };
    let narrowed: u16 = if dock_w >= 4 {
        dock_w - 4
    } else {
        0
    };
    let pw: u16 = if narrowed < 120 {
        narrowed
    } else {
        120
    };
    if pw < 30 {
        return None;
    }
    if total == 0 {
        if dock_y < 3 {
            return None;
        }
        return Some(AtPopup { x: dock_x + 2, y: dock_y - 3, w: pw, h: 3, selected: 0, start: 0, visible: 0 });
    }
    let sel = if selected_idx < total - 1 {
        selected_idx
    } else {
        total - 1
    };
    let m = if total < cap {
        total
    } else {
        cap
    };
    let vis: usize = if m < 1 {
        1
    } else {
        m
    };
    let back = vis - 1;
    let s0 = if sel >= back {
        sel - back
    } else {
        0
    };
    let start = if s0 + vis > total {
        total - vis
    } else {
        s0
    };
    let ph: u16 = 3 + vis as u16;
    if ph > dock_y {
        return None;
    }
    Some(AtPopup { x: dock_x + 2, y: dock_y - ph, w: pw, h: ph, selected: sel, start, visible: vis })
}

/// The label of an entry: a directory's with exactly one trailing `/`.
pub open spec fn entry_label_spec(e: AtPickerEntry) -> Seq<char> {
    if e.is_dir {
        trim_end_slashes(e.label@) + seq!['/']
    } else {
        e.label@
    }
}

/// The label of an entry (see `entry_label_spec`).
pub fn entry_label(e: &AtPickerEntry) -> (r: String)
    ensures
        r@ == entry_label_spec(*e),
{
    if e.is_dir {
        let cs = chars_of(e.label.as_str());
        let t = trim_end_slashes_exec(cs.as_slice());
        let mut s = string_from_chars(t.as_slice());
        push_char(&mut s, '/');
        s
    } else {
        crate::text::string_of(e.label.as_str())
    }
}

/// What the header says of the listing: the directory browsed (with a
/// trailing `/`, or `/` alone), or the search filter.
pub open spec fn header_lead_spec(st: AtState) -> Seq<char> {
    match st {
        AtState::Browse { base_dir, .. } => if base_dir@.len() == 0 {
            seq!['/']
        } else {
            base_dir@ + seq!['/']
        },
        AtState::Search { filter, .. } => "search: "@ + filter@,
    }
}

/// What the header says of the listing (see `header_lead_spec`).
pub fn header_lead(st: &AtState) -> (r: String)
    ensures
        r@ == header_lead_spec(*st),
{
    let mut s = String::new();
    match st {
        AtState::Browse { base_dir, .. } => {
            push_str(&mut s, base_dir.as_str());
            push_char(&mut s, '/');
        },
        AtState::Search { filter, .. } => {
            push_str(&mut s, "search: ");
            push_str(&mut s, filter.as_str());
        },
    }
    assert(s@ =~= header_lead_spec(*st));
    s
}

/// The activity shown after the header's position, if any.
pub fn header_status(st: &AtState) -> (r: &'static str)
    ensures
        r@ == (match *st {
            AtState::Browse { loading, .. } => if loading {
                " \u{b7} loading\u{2026}"@
            } else {
                ""@
            },
            AtState::Search { searching, .. } => if searching {
                " \u{b7} scanning\u{2026}"@
            } else {
                ""@
            },
        }),
{
    match st {
        AtState::Browse { loading, .. } => if *loading {
            " \u{b7} loading\u{2026}"
        } else {
            ""
        },
        AtState::Search { searching, .. } => if *searching {
            " \u{b7} scanning\u{2026}"
        } else {
            ""
        },
    }
}

/// What an empty listing shows.
pub fn empty_label(st: &AtState) -> (r: &'static str)
    ensures
        r@ == (match *st {
            AtState::Browse { loading, .. } => if loading {
                "loading\u{2026}"@
            } else {
                "(empty directory)"@
            },
            AtState::Search { searching, .. } => if searching {
                "scanning\u{2026}"@
            } else {
                "(no matches)"@
            },
        }),
{
    match st {
        AtState::Browse { loading, .. } => if *loading {
            "loading\u{2026}"
        } else {
            "(empty directory)"
        },
        AtState::Search { searching, .. } => if *searching {
            "scanning\u{2026}"
        } else {
            "(no matches)"
        },
    }
}

/// Whether the lower-cased `needle` matches `label` from `start`, each
/// character of the label lower-casing to exactly the needle's character.
pub open spec fn matches_at(label: Seq<char>, needle: Seq<char>, start: int) -> bool {
    &&& 0 <= start
    &&& start + needle.len() <= label.len()
    &&& forall|j: int| 0 <= j < needle.len() ==> #[trigger] crate::text::char_lower(label[start + j]) == seq![needle[j]]
}

/// The first position where the filter matches the label, case ignored.
pub open spec fn first_match(label: Seq<char>, needle: Seq<char>, from: int) -> Option<int>
    decreases label.len() - from,
{
    if from >= label.len() {
        None
    } else if matches_at(label, needle, from) {
        Some(from)
    } else {
        first_match(label, needle, from + 1)
    }
}

/// The label split around the first match of `filter`, case ignored:
/// (before, match, after). None for an empty filter or without a match.
pub open spec fn ci_split_spec(label: Seq<char>, filter: Seq<char>) -> Option<(Seq<char>, Seq<char>, Seq<char>)> {
    let needle = crate::text::lower_all(filter);
    if filter.len() == 0 || needle.len() == 0 {
        None
    } else {
        match first_match(label, needle, 0) {
            Some(p) => Some((label.take(p), label.subrange(p, p + needle.len()), label.skip(p + needle.len()))),
            None => None,
        }
    }
}

fn lower_all_exec(cs: &[char]) -> (r: Vec<char>)
    ensures
        r@ == crate::text::lower_all(cs@),
{
    let mut out: Vec<char> = Vec::new();
    let mut i: usize = 0;
    while i < cs.len()
        invariant
            i <= cs@.len(),
            out@ == crate::text::lower_all(cs@.take(i as int)),
        decreases cs@.len() - i,
    {
        let l = crate::text::to_lowercase_char(cs[i]);
        let mut k: usize = 0;
        let ghost base = out@;
        while k < l.len()
            invariant
                k <= l@.len(),
                out@ == base + l@.take(k as int),
            decreases l@.len() - k,
        {
            out.push(l[k]);
            assert(l@.take(k + 1) =~= l@.take(k as int).push(l@[k as int]));
            k += 1;
        }
        assert(l@.take(l@.len() as int) =~= l@);
        assert(cs@.take(i + 1).drop_last() =~= cs@.take(i as int));
        i += 1;
    }
    assert(cs@.take(cs@.len() as int) =~= cs@);
    out
}

/// `label` split around the first case-ignoring match of `filter` (see
/// `ci_split_spec`).
pub fn case_insensitive_split(label: &str, filter: &str) -> (r: Option<(String, String, String)>)
    ensures
        match r {
            Some(t) => ci_split_spec(label@, filter@) == Some((t.0@, t.1@, t.2@)),
            None => ci_split_spec(label@, filter@) is None,
        },
{
    let fc = chars_of(filter);
    if fc.len() == 0 {
        return None;
    }
    let needle = lower_all_exec(fc.as_slice());
    if needle.len() == 0 {
        return None;
    }
    let lc = chars_of(label);
    let n = lc.len();
    let mut start: usize = 0;
    while start < n
        invariant
            start <= n == lc@.len(),
            lc@ == label@,
            needle@.len() > 0,
            fc@.len() > 0,
            fc@ == filter@,
            needle@ == crate::text::lower_all(filter@),
            first_match(lc@, needle@, 0) == first_match(lc@, needle@, start as int),
        decreases n - start,
    {
        let mut j: usize = 0;
        let mut ok = true;
        while j < needle.len() && ok
            invariant
                j <= needle@.len(),
                start < n == lc@.len(),
                ok ==> start + j <= n,
                ok ==> forall|q: int| 0 <= q < j ==> #[trigger] crate::text::char_lower(lc@[start + q]) == seq![needle@[q]],
                !ok ==> !matches_at(lc@, needle@, start as int),
                lc@ == label@,
                needle@.len() > 0,
                fc@.len() > 0,
                fc@ == filter@,
                needle@ == crate::text::lower_all(filter@),
                first_match(lc@, needle@, 0) == first_match(lc@, needle@, start as int),
            decreases needle@.len() - j + (if ok { 1int } else { 0int }),
        {
            if start + j >= n {
                ok = false;
            } else {
                let l = crate::text::to_lowercase_char(lc[start + j]);
                if l.len() != 1 || l[0] != needle[j] {
                    ok = false;
                    assert(crate::text::char_lower(lc@[start + j]) != seq![needle@[j as int]]) by {
                        if l.len() == 1 {
                            assert(l@ == seq![l@[0]]);
                        }
                    }
                } else {
                    assert(l@ =~= seq![needle@[j as int]]);
                    j += 1;
                }
            }
        }
        if ok {
            assert(matches_at(lc@, needle@, start as int));
            let end = start + needle.len();
            let a = string_from_range(lc.as_slice(), 0, start);
            let b = string_from_range(lc.as_slice(), start, end);
            let c = string_from_range(lc.as_slice(), end, n);
            assert(lc@.subrange(0, start as int) =~= lc@.take(start as int));
            assert(lc@.subrange(end as int, n as int) =~= lc@.skip(end as int));
            assert(first_match(lc@, needle@, start as int) == Some(start as int));
            return Some((a, b, c));
        }
        start += 1;
    }
    None
}

/// `s` clipped to `budget` columns, each character counting its width (1
/// for a control character), and the columns taken.
pub open spec fn budget_prefix(cs: Seq<char>, used: nat, budget: nat) -> (Seq<char>, nat)
    decreases cs.len(),
{
    if cs.len() == 0 {
        (Seq::empty(), used)
    } else {
        let c = match crate::text::char_width_of(cs[0]) {
            Some(w) => w as nat,
            None => 1nat,
        };
        if used + c > budget {
            (Seq::empty(), used)
        } else {
            let rest = budget_prefix(cs.drop_first(), used + c, budget);
            (seq![cs[0]] + rest.0, rest.1)
        }
    }
}

/// `s` clipped to `budget` columns and the columns it takes (see
/// `budget_prefix`).
pub fn clip_to_budget(s: &str, budget: u16) -> (r: (String, u16))
    ensures
        r.0@ == budget_prefix(s@, 0, budget as nat).0,
        r.1 as nat == budget_prefix(s@, 0, budget as nat).1,
        r.1 <= budget,
{
    let cs = chars_of(s);
    let mut out = String::new();
    let mut w: u16 = 0;
    let mut i: usize = 0;
    let mut done = false;
    assert(cs@.skip(0) =~= cs@);
    assert(out@ + budget_prefix(cs@.skip(0), 0, budget as nat).0 =~= budget_prefix(cs@, 0, budget as nat).0);
    while i < cs.len() && !done
        invariant
            i <= cs@.len(),
            w <= budget,
            !done ==> out@ + budget_prefix(cs@.skip(i as int), w as nat, budget as nat).0 == budget_prefix(cs@, 0, budget as nat).0,
            !done ==> budget_prefix(cs@.skip(i as int), w as nat, budget as nat).1 == budget_prefix(cs@, 0, budget as nat).1,
            done ==> out@ == budget_prefix(cs@, 0, budget as nat).0 && w as nat == budget_prefix(cs@, 0, budget as nat).1,
        decreases cs@.len() - i,
    {
        let c: u16 = match crate::text::char_width(cs[i]) {
            Some(x) => x as u16,
            None => 1,
        };
        assert(cs@.skip(i as int)[0] == cs@[i as int]);
        assert(cs@.skip(i as int).drop_first() =~= cs@.skip(i + 1));
        if c > budget - w {
            assert(out@ + Seq::<char>::empty() =~= out@);
            done = true;
        } else {
            let ghost before = out@;
            push_char(&mut out, cs[i]);
            assert(before + budget_prefix(cs@.skip(i as int), w as nat, budget as nat).0 =~= out@ + budget_prefix(cs@.skip(i + 1), (w + c) as nat, budget as nat).0);
            w = w + c;
        }
        i += 1;
    }
    if !done {
        assert(cs@.skip(i as int) =~= Seq::<char>::empty());
        assert(out@ + Seq::<char>::empty() =~= out@);
    }
    (out, w)
}

/// A sequence that holds `c` has a last `c`.
proof fn lemma_has_last(s: Seq<char>, c: char)
    requires
        s.contains(c),
    ensures
        is_last_index(s, c, last_pos(s, c)),
    decreases s.len(),
{
    if s.last() == c {
        lemma_last_pos(s, c, s.len() - 1);
    } else {
        let i = choose|i: int| 0 <= i < s.len() && s[i] == c;
        assert(s.drop_last()[i] == c);
        lemma_has_last(s.drop_last(), c);
        let k = last_pos(s.drop_last(), c);
        assert forall|j: int| k < j < s.len() implies s[j] != c by {
            if j < s.len() - 1 {
                assert(s[j] == s.drop_last()[j]);
            }
        }
        assert(is_last_index(s, c, k));
        lemma_last_pos(s, c, k);
    }
}

/// `trim_end_slashes(s)` is a prefix of `s`.
proof fn lemma_trim_end_slashes_prefix(s: Seq<char>)
    ensures
        trim_end_slashes(s).len() <= s.len(),
        forall|i: int| 0 <= i < trim_end_slashes(s).len() ==> #[trigger] trim_end_slashes(s)[i] == s[i],
    decreases s.len(),
{
    if s.len() > 0 && s.last() == '/' {
        lemma_trim_end_slashes_prefix(s.drop_last());
    }
}

/// Picking a file ends the `@` reference being typed, so the picker
/// closes; picking a directory whose path holds no whitespace and no `@`
/// leaves the reference open at the same `@`, so the picker goes on
/// browsing inside it.
pub proof fn law_pick_file_closes_dir_keeps(buffer: Seq<char>, e: AtPickerEntry)
    requires
        at_token(buffer) is Some,
    ensures
        !e.is_dir ==> at_token(
            buffer.take(at_token(buffer).unwrap()) + seq!['@'] + entry_insert_text(e),
        ) is None,
        e.is_dir && !has_ws(e.insert_path@) && !e.insert_path@.contains('@') ==> at_token(
            buffer.take(at_token(buffer).unwrap()) + seq!['@'] + entry_insert_text(e),
        ) == at_token(buffer),
{
    let p = at_token(buffer).unwrap();
    lemma_has_last(buffer, '@');
    let a = buffer.take(p);
    let s = a + seq!['@'] + entry_insert_text(e);
    assert(s[p] == '@');
    assert(s.contains('@'));
    lemma_has_last(s, '@');
    let k = last_pos(s, '@');
    if !e.is_dir {
        let last = s.len() - 1;
        assert(s[last] == ' ');
        assert(k < last);
        assert(s.skip(k + 1)[last - (k + 1)] == ' ');
        assert(is_ws(' '));
        assert(has_ws(s.skip(k + 1)));
    }
    if e.is_dir && !has_ws(e.insert_path@) && !e.insert_path@.contains('@') {
        let path = e.insert_path@;
        let tp = trim_end_slashes(path);
        lemma_trim_end_slashes_prefix(path);
        assert(s =~= a + seq!['@'] + tp + seq!['/']);
        assert forall|j: int| p < j < s.len() implies s[j] != '@' by {
            if j < s.len() - 1 {
                assert(s[j] == tp[j - p - 1]);
                assert(tp[j - p - 1] == path[j - p - 1]);
            }
        }
        assert(is_last_index(s, '@', p));
        lemma_last_pos(s, '@', p);
        assert(s.take(p) =~= a);
        assert(s.skip(p + 1) =~= tp + seq!['/']);
        if has_ws(s.skip(p + 1)) {
            let j = choose|j: int| 0 <= j < s.skip(p + 1).len() && is_ws(#[trigger] s.skip(p + 1)[j]);
            if j < tp.len() {
                assert(tp[j] == path[j]);
                assert(false);
            } else {
                assert(s.skip(p + 1)[j] == '/');
                assert(!is_ws('/'));
            }
        }
    }
}

} // verus!
