//! Text layout of the transcript cards: wrapping to a column width, card
//! heights, to-do items, diff lines and hunk headers.
use crate::state::SceneCard;
use crate::text::{
    char_width_or_zero, chars_of, cw, is_whitespace, is_ws, push_char, push_str, str_width, str_width_of,
    string_from_chars, string_from_range, string_of, trim_start_ws, decimal, push_decimal,
};
use vstd::prelude::*;

verus! {

/// The lines of a greedy character wrap of `cs` at `w` columns: a line is
/// broken before a character that would make it wider than `w`, unless the
/// line is still empty.
pub open spec fn char_wrap(cs: Seq<char>, w: nat) -> Seq<Seq<char>>
    decreases cs.len(),
{
    if cs.len() == 0 {
        Seq::empty()
    } else {
        let prev = char_wrap(cs.drop_last(), w);
        let c = cs.last();
        if prev.len() == 0 {
            seq![seq![c]]
        } else if crate::text::sum_width(prev.last()) + cw(c) > w {
            prev.push(seq![c])
        } else {
            prev.update(prev.len() - 1, prev.last().push(c))
        }
    }
}

/// The visual lines of one logical line at `width` columns: one empty line
/// for a zero width or an empty line, the line itself when it fits, and
/// otherwise its character wrap.
pub open spec fn wrap_visual_spec(line: Seq<char>, width: nat) -> Seq<Seq<char>> {
    if width == 0 || line.len() == 0 {
        seq![Seq::<char>::empty()]
    } else if str_width_of(line) <= width {
        seq![line]
    } else {
        char_wrap(line, width)
    }
}

/// Views of a vector of strings.
pub open spec fn string_views(v: Seq<String>) -> Seq<Seq<char>> {
    v.map_values(|s: String| s@)
}

/// Greedy character wrap of `cs` at `w` columns.
pub fn char_wrap_exec(cs: &[char], w: usize) -> (r: Vec<String>)
    ensures
        string_views(r@) == char_wrap(cs@, w as nat),
{
    let mut out: Vec<String> = Vec::new();
    let mut current: Vec<char> = Vec::new();
    let mut current_w: usize = 0;
    let mut i: usize = 0;
    while i < cs.len()
        invariant
            i <= cs@.len(),
            current_w == crate::text::sum_width(current@),
            current@.len() <= i,
            i == 0 ==> current@.len() == 0 && out@.len() == 0,
            i > 0 ==> current@.len() > 0,
            i > 0 ==> string_views(out@).push(current@) == char_wrap(cs@.take(i as int), w as nat),
        decreases cs@.len() - i,
    {
        let c = cs[i];
        let cwid = char_width_or_zero(c);
        let ghost old_out = string_views(out@);
        let ghost old_cur = current@;
        assert(cs@.take(i + 1).drop_last() =~= cs@.take(i as int));
        assert(cs@.take(i + 1).last() == c);
        if i > 0 && (cwid > w || current_w > w - cwid) {
            let s = string_from_chars(current.as_slice());
            out.push(s);
            current = Vec::new();
            current.push(c);
            current_w = cwid;
            assert(current@.drop_last() =~= Seq::<char>::empty());
            assert(crate::text::sum_width(current@) == crate::text::sum_width(Seq::<char>::empty()) + cw(c));
            assert(string_views(out@) =~= string_views(out@.drop_last()).push(out@.last()@));
            assert(string_views(out@) =~= old_out.push(old_cur));
            assert(string_views(out@).push(current@) =~= old_out.push(old_cur).push(seq![c]));
            assert(old_out.push(old_cur).last() == old_cur);
            assert(char_wrap(cs@.take(i + 1), w as nat) == char_wrap(cs@.take(i as int), w as nat).push(seq![c]));
        } else {
            let ghost before = current@;
            current.push(c);
            assert(current@.drop_last() =~= before);
            assert(crate::text::sum_width(current@) == crate::text::sum_width(before) + cw(c));
            current_w = current_w + cwid;
            if i == 0 {
                assert(before =~= Seq::<char>::empty());
                assert(current@ =~= seq![c]);
                assert(string_views(out@) =~= Seq::<Seq<char>>::empty());
                assert(string_views(out@).push(current@) =~= seq![seq![c]]);
                assert(cs@.take(0) =~= Seq::<char>::empty());
                assert(char_wrap(cs@.take(0), w as nat) =~= Seq::<Seq<char>>::empty());
                assert(char_wrap(cs@.take(1), w as nat) =~= seq![seq![c]]);
            } else {
                assert(string_views(out@).push(current@) =~= string_views(out@).push(before).update(
                    string_views(out@).len() as int,
                    before.push(c),
                ));
                assert(old_out.push(old_cur).last() == old_cur);
                assert(crate::text::sum_width(old_cur) + cw(c) <= w);
                let ghost prev = char_wrap(cs@.take(i as int), w as nat);
                assert(char_wrap(cs@.take(i + 1), w as nat) == prev.update(prev.len() - 1, prev.last().push(c)));
            }
        }
        i += 1;
    }
    assert(cs@.take(cs@.len() as int) =~= cs@);
    if current.len() > 0 {
        let s = string_from_chars(current.as_slice());
        out.push(s);
        assert(string_views(out@) =~= string_views(out@.drop_last()).push(out@.last()@));
    }
    out
}

/// Visual lines of one logical line at `width` columns.
pub fn wrap_visual(line: &str, width: u16) -> (r: Vec<String>)
    ensures
        string_views(r@) == wrap_visual_spec(line@, width as nat),
{
    let w = width as usize;
    let cs = chars_of(line);
    if w == 0 || cs.len() == 0 {
        let mut v: Vec<String> = Vec::new();
        v.push(String::new());
        assert(string_views(v@) =~= seq![Seq::<char>::empty()]);
        return v;
    }
    if str_width(line) <= w {
        let mut v: Vec<String> = Vec::new();
        v.push(string_of(line));
        assert(string_views(v@) =~= seq![line@]);
        return v;
    }
    char_wrap_exec(cs.as_slice(), w)
}

/// Number of visual rows of the logical lines `lines` at `width`, each
/// line counting at least one row.
pub open spec fn rows_of_lines(lines: Seq<Seq<char>>, width: nat) -> nat
    decreases lines.len(),
{
    if lines.len() == 0 {
        0
    } else {
        let n = wrap_visual_spec(lines.last(), width).len();
        rows_of_lines(lines.drop_last(), width) + if n == 0 {
            1
        } else {
            n
        }
    }
}

/// Height in rows of a card body at `width` columns, capped at `u16::MAX`.
pub open spec fn body_height(body: Seq<char>, width: nat) -> nat {
    let rows = rows_of_lines(crate::text::split_on(body, '\n'), width);
    if rows > u16::MAX {
        u16::MAX as nat
    } else {
        rows
    }
}

/// Height of a plain-text card body: the visual rows of its lines, capped
/// at `u16::MAX`.
pub fn body_lines_height(body: &str, width: u16) -> (r: u16)
    ensures
        r == body_height(body@, width as nat),
{
    let lines = crate::text::split_char(body, '\n');
    let ghost ls = lines@.map_values(|x: String| x@);
    let mut total: u32 = 0;
    let mut i: usize = 0;
    while i < lines.len()
        invariant
            i <= lines@.len(),
            ls == lines@.map_values(|x: String| x@),
            total == if rows_of_lines(ls.take(i as int), width as nat) > u16::MAX {
                u16::MAX as nat
            } else {
                rows_of_lines(ls.take(i as int), width as nat)
            },
        decreases lines@.len() - i,
    {
        let n = wrap_visual(lines[i].as_str(), width).len();
        let count: u32 = if n == 0 {
            1
        } else if n > 65535 {
            65535
        } else {
            n as u32
        };
        assert(ls.take(i + 1).drop_last() =~= ls.take(i as int));
        assert(ls.take(i + 1).last() == lines@[i as int]@);
        total = if total + count > 65535 {
            65535
        } else {
            total + count
        };
        i += 1;
    }
    assert(ls.take(lines@.len() as int) =~= ls);
    total as u16
}

/// The lines of `s` as `str::lines` gives them: split at `'\n'`, one
/// `'\r'` before a `'\n'` removed, and no final empty line after a
/// trailing `'\n'` (none at all for the empty text).
pub open spec fn lines_of(s: Seq<char>) -> Seq<Seq<char>> {
    let ps = crate::text::split_on(s, '\n');
    let n = ps.len() as int;
    let k = if ps.last().len() == 0 {
        n - 1
    } else {
        n
    };
    Seq::new(
        k as nat,
        |i: int|
            if i < n - 1 && ps[i].len() > 0 && ps[i].last() == '\r' {
                ps[i].drop_last()
            } else {
                ps[i]
            },
    )
}

/// `str::lines`.
pub fn lines(s: &str) -> (r: Vec<String>)
    ensures
        string_views(r@) == lines_of(s@),
{
    let ps = crate::text::split_char(s, '\n');
    let ghost pv = ps@.map_values(|x: String| x@);
    proof {
        crate::text::lemma_split_nonempty(s@, '\n');
    }
    let n = ps.len();
    let last = chars_of(ps[n - 1].as_str());
    let k = if last.len() == 0 {
        n - 1
    } else {
        n
    };
    assert(pv.last() == last@);
    assert(lines_of(s@).len() == k);
    let mut out: Vec<String> = Vec::new();
    let mut i: usize = 0;
    while i < k
        invariant
            k <= n == ps@.len(),
            pv == ps@.map_values(|x: String| x@),
            pv == crate::text::split_on(s@, '\n'),
            i <= k,
            string_views(out@) == lines_of(s@).take(i as int),
            lines_of(s@).len() == k,
        decreases k - i,
    {
        let cs = chars_of(ps[i].as_str());
        let m = cs.len();
        assert(cs@ == pv[i as int]);
        let piece = if i + 1 < n && m > 0 && cs[m - 1] == '\r' {
            string_from_range(cs.as_slice(), 0, m - 1)
        } else {
            string_of(ps[i].as_str())
        };
        proof {
            if m > 0 {
                assert(cs@.subrange(0, m - 1) =~= cs@.drop_last());
            }
        }
        assert(piece@ == lines_of(s@)[i as int]);
        let ghost old_out = string_views(out@);
        out.push(piece);
        assert(string_views(out@) =~= old_out.push(piece@));
        assert(string_views(out@) =~= lines_of(s@).take(i + 1));
        i += 1;
    }
    assert(lines_of(s@).take(k as int) =~= lines_of(s@));
    out
}

/// The state of a to-do item.
#[derive(Clone, Copy, Debug, PartialEq, Eq, Structural)]
pub enum TodoState {
    Done,
    Active,
    Pending,
}

/// The item of one line of a to-do card: `[x]`, `[~]` or `[ ]` after
/// leading whitespace, then the label without its leading whitespace.
pub open spec fn todo_item(line: Seq<char>) -> Option<(TodoState, Seq<char>)> {
    let t = trim_start_ws(line);
    if t.len() >= 3 && t[0] == '[' && t[2] == ']' && (t[1] == 'x' || t[1] == '~' || t[1] == ' ') {
        Some((
            if t[1] == 'x' {
                TodoState::Done
            } else if t[1] == '~' {
                TodoState::Active
            } else {
                TodoState::Pending
            },
            trim_start_ws(t.skip(3)),
        ))
    } else {
        None
    }
}

/// The items of the lines `ls`, in order; other lines are skipped.
pub open spec fn todo_items(ls: Seq<Seq<char>>) -> Seq<(TodoState, Seq<char>)>
    decreases ls.len(),
{
    if ls.len() == 0 {
        Seq::empty()
    } else {
        let rest = todo_items(ls.drop_last());
        match todo_item(ls.last()) {
            Some(it) => rest.push(it),
            None => rest,
        }
    }
}

pub open spec fn items_view(v: Seq<(TodoState, String)>) -> Seq<(TodoState, Seq<char>)> {
    v.map_values(|p: (TodoState, String)| (p.0, p.1@))
}

/// The to-do items of a card body (see `todo_items`).
pub fn parse_todo_items(body: &str) -> (r: Vec<(TodoState, String)>)
    ensures
        items_view(r@) == todo_items(lines_of(body@)),
{
    let ls = lines(body);
    let ghost lv = string_views(ls@);
    let mut out: Vec<(TodoState, String)> = Vec::new();
    let mut i: usize = 0;
    while i < ls.len()
        invariant
            i <= ls@.len(),
            lv == string_views(ls@),
            lv == lines_of(body@),
            items_view(out@) == todo_items(lv.take(i as int)),
        decreases ls@.len() - i,
    {
        assert(lv.take(i + 1).drop_last() =~= lv.take(i as int));
        let t = crate::text::trim_start(ls[i].as_str());
        let cs = chars_of(t.as_str());
        if cs.len() >= 3 && cs[0] == '[' && cs[2] == ']' && (cs[1] == 'x' || cs[1] == '~' || cs[1] == ' ') {
            let st = if cs[1] == 'x' {
                TodoState::Done
            } else if cs[1] == '~' {
                TodoState::Active
            } else {
                TodoState::Pending
            };
            let rest = string_from_range(cs.as_slice(), 3, cs.len());
            assert(cs@.subrange(3, cs@.len() as int) =~= cs@.skip(3));
            let label = crate::text::trim_start(rest.as_str());
            let ghost before = items_view(out@);
            out.push((st, label));
            assert(items_view(out@) =~= before.push((st, label@)));
        }
        i += 1;
    }
    assert(lv.take(ls@.len() as int) =~= lv);
    out
}

/// How many items are done.
pub open spec fn done_count(items: Seq<(TodoState, Seq<char>)>) -> nat
    decreases items.len(),
{
    if items.len() == 0 {
        0
    } else {
        done_count(items.drop_last()) + if items.last().0 == TodoState::Done {
            1nat
        } else {
            0nat
        }
    }
}

/// How many of `items` are done.
pub fn count_done(items: &Vec<(TodoState, String)>) -> (r: usize)
    ensures
        r == done_count(items_view(items@)),
        r <= items@.len(),
{
    let ghost iv = items_view(items@);
    let mut k: usize = 0;
    let mut i: usize = 0;
    while i < items.len()
        invariant
            i <= items@.len(),
            iv == items_view(items@),
            k == done_count(iv.take(i as int)),
            k <= i,
        decreases items@.len() - i,
    {
        assert(iv.take(i + 1).drop_last() =~= iv.take(i as int));
        if items[i].0 == TodoState::Done {
            k = k + 1;
        }
        i += 1;
    }
    assert(iv.take(items@.len() as int) =~= iv);
    k
}

/// The kind of a diff line.
#[derive(Clone, Copy, Debug, PartialEq, Eq, Structural)]
pub enum DiffKind {
    Ctx,
    Add,
    Del,
}

/// A diff line's kind and its code: `+` adds, `-` deletes, anything else is
/// context (a leading space is dropped).
pub open spec fn classify_spec(line: Seq<char>) -> (DiffKind, Seq<char>) {
    if line.len() > 0 && line[0] == '+' {
        (DiffKind::Add, line.drop_first())
    } else if line.len() > 0 && line[0] == '-' {
        (DiffKind::Del, line.drop_first())
    } else if line.len() > 0 && line[0] == ' ' {
        (DiffKind::Ctx, line.drop_first())
    } else {
        (DiffKind::Ctx, line)
    }
}

/// A diff line's kind and its code (see `classify_spec`).
pub fn classify_line(line: &str) -> (r: (DiffKind, String))
    ensures
        r.0 == classify_spec(line@).0,
        r.1@ == classify_spec(line@).1,
{
    let cs = chars_of(line);
    if cs.len() > 0 && (cs[0] == '+' || cs[0] == '-' || cs[0] == ' ') {
        let kind = if cs[0] == '+' {
            DiffKind::Add
        } else if cs[0] == '-' {
            DiffKind::Del
        } else {
            DiffKind::Ctx
        };
        let rest = string_from_range(cs.as_slice(), 1, cs.len());
        assert(cs@.subrange(1, cs@.len() as int) =~= cs@.drop_first());
        (kind, rest)
    } else {
        (DiffKind::Ctx, string_of(line))
    }
}

/// `s` padded on the left with spaces to `w` characters.
pub open spec fn pad_left(s: Seq<char>, w: nat) -> Seq<char> {
    if s.len() >= w {
        s
    } else {
        Seq::new((w - s.len()) as nat, |i: int| ' ') + s
    }
}

/// A line number right-aligned in three columns, or three spaces.
pub open spec fn lineno_spec(n: Option<u32>) -> Seq<char> {
    match n {
        Some(v) => pad_left(decimal(v as nat), 3),
        None => seq![' ', ' ', ' '],
    }
}

/// Appends `s` padded on the left with spaces to `w` characters.
pub fn push_padded(out: &mut String, s: &str, w: usize)
    ensures
        final(out)@ == old(out)@ + pad_left(s@, w as nat),
{
    let n = chars_of(s).len();
    let ghost base = out@;
    if n < w {
        let mut i: usize = 0;
        while i < w - n
            invariant
                n < w,
                i <= w - n,
                out@ == base + Seq::new(i as nat, |k: int| ' '),
            decreases w - n - i,
        {
            push_char(out, ' ');
            assert(out@ =~= base + Seq::new((i + 1) as nat, |k: int| ' '));
            i += 1;
        }
    }
    push_str(out, s);
    assert(out@ =~= base + pad_left(s@, w as nat));
}

/// A line number right-aligned in three columns (see `lineno_spec`).
pub fn fmt_lineno(n: Option<u32>) -> (r: String)
    ensures
        r@ == lineno_spec(n),
{
    match n {
        Some(v) => {
            let mut d = String::new();
            push_decimal(&mut d, v as u64);
            let mut out = String::new();
            push_padded(&mut out, d.as_str(), 3);
            assert(out@ =~= lineno_spec(n));
            out
        },
        None => {
            let mut out = String::new();
            push_str(&mut out, "   ");
            proof {
                reveal_strlit("   ");
            }
            assert(out@ =~= lineno_spec(n));
            out
        },
    }
}

pub open spec fn is_digit_char(c: char) -> bool {
    '0' <= c <= '9'
}

/// The number written by the decimal digits `d`.
pub open spec fn digits_value(d: Seq<char>) -> nat
    decreases d.len(),
{
    if d.len() == 0 {
        0
    } else {
        digits_value(d.drop_last()) * 10 + ((d.last() as u32) - 48) as nat
    }
}

pub open spec fn all_digits(d: Seq<char>) -> bool {
    forall|i: int| 0 <= i < d.len() ==> #[trigger] is_digit_char(d[i])
}

/// `u32::from_str`: an optional `+`, then one or more decimal digits
/// whose value fits in a `u32`.
pub open spec fn parse_u32_spec(s: Seq<char>) -> Option<u32> {
    let d = if s.len() > 0 && s[0] == '+' {
        s.drop_first()
    } else {
        s
    };
    if d.len() == 0 || !all_digits(d) || digits_value(d) > u32::MAX {
        None
    } else {
        Some(digits_value(d) as u32)
    }
}

proof fn lemma_digits_monotone(d: Seq<char>, k: int)
    requires
        0 <= k <= d.len(),
        all_digits(d),
    ensures
        digits_value(d.take(k)) <= digits_value(d),
    decreases d.len() - k,
{
    if k < d.len() {
        lemma_digits_monotone(d, k + 1);
        assert(d.take(k + 1).drop_last() =~= d.take(k));
        assert(is_digit_char(d[k]));
    } else {
        assert(d.take(k) =~= d);
    }
}

/// `u32::from_str` (see `parse_u32_spec`).
pub fn parse_u32(s: &[char]) -> (r: Option<u32>)
    ensures
        r == parse_u32_spec(s@),
{
    let start: usize = if s.len() > 0 && s[0] == '+' {
        1
    } else {
        0
    };
    let ghost d = if s@.len() > 0 && s@[0] == '+' {
        s@.drop_first()
    } else {
        s@
    };
    assert(s@.skip(start as int) =~= d);
    if start >= s.len() {
        return None;
    }
    let mut v: u64 = 0;
    let mut i: usize = start;
    while i < s.len()
        invariant
            start <= i <= s@.len(),
            start < s@.len(),
            d == s@.skip(start as int),
            d == (if s@.len() > 0 && s@[0] == '+' {
                s@.drop_first()
            } else {
                s@
            }),
            v as nat == digits_value(d.take(i - start)),
            v <= u32::MAX,
            all_digits(d.take(i - start)),
        decreases s@.len() - i,
    {
        let c = s[i];
        assert(d.take(i - start + 1).drop_last() =~= d.take(i - start));
        assert(d[i - start] == c);
        if !('0' <= c && c <= '9') {
            assert(!is_digit_char(d[i - start]));
            assert(!all_digits(d));
            return None;
        }
        let digit = (c as u32 - 48) as u64;
        let nv = v * 10 + digit;
        assert(d.take(i - start + 1).last() == c);
        assert(nv as nat == digits_value(d.take(i - start + 1)));
        assert(all_digits(d.take(i - start + 1))) by {
            assert forall|q: int| 0 <= q < i - start + 1 implies #[trigger] is_digit_char(d.take(i - start + 1)[q]) by {
                if q < i - start {
                    assert(d.take(i - start + 1)[q] == d.take(i - start)[q]);
                }
            }
        }
        if nv > 0xffff_ffff {
            proof {
                if all_digits(d) {
                    lemma_digits_monotone(d, i - start + 1);
                }
            }
            return None;
        }
        v = nv;
        i += 1;
    }
    assert(d.take(s@.len() - start) =~= d);
    Some(v as u32)
}

/// How many leading characters of `s` are digits or commas.
pub open spec fn digits_commas_len(s: Seq<char>) -> nat
    decreases s.len(),
{
    if s.len() == 0 || !(is_digit_char(s[0]) || s[0] == ',') {
        0
    } else {
        1 + digits_commas_len(s.drop_first())
    }
}

/// `s` up to its first comma (all of it without one).
pub open spec fn before_comma(s: Seq<char>) -> Seq<char> {
    match crate::text::split_once_spec(s, ',') {
        Some(p) => p.0,
        None => s,
    }
}

/// The old and new start lines of a hunk header `@@ -<old>[,n] +<new>[,n] @@`.
pub open spec fn hunk_spec(line: Seq<char>) -> Option<(u32, u32)> {
    if !(line.len() >= 4 && line[0] == '@' && line[1] == '@' && line[2] == ' ' && line[3] == '-') {
        None
    } else {
        match crate::text::split_once_spec(line.skip(4), ' ') {
            None => None,
            Some(p) => {
                let old_start = before_comma(p.0);
                let rest = p.1;
                if rest.len() == 0 || rest[0] != '+' {
                    None
                } else {
                    let np = rest.drop_first();
                    let new_start = before_comma(np.take(digits_commas_len(np) as int));
                    match (parse_u32_spec(old_start), parse_u32_spec(new_start)) {
                        (Some(o), Some(n)) => Some((o, n)),
                        _ => None,
                    }
                }
            },
        }
    }
}

fn before_comma_exec(s: &str) -> (r: Vec<char>)
    ensures
        r@ == before_comma(s@),
{
    match crate::text::split_once_char(s, ',') {
        Some((a, _)) => chars_of(a.as_str()),
        None => chars_of(s),
    }
}

/// The start lines of a hunk header (see `hunk_spec`).
pub fn parse_hunk_header(line: &str) -> (r: Option<(u32, u32)>)
    ensures
        r == hunk_spec(line@),
{
    let cs = chars_of(line);
    if !(cs.len() >= 4 && cs[0] == '@' && cs[1] == '@' && cs[2] == ' ' && cs[3] == '-') {
        return None;
    }
    let s = string_from_range(cs.as_slice(), 4, cs.len());
    assert(cs@.subrange(4, cs@.len() as int) =~= cs@.skip(4));
    let (old_part, rest) = match crate::text::split_once_char(s.as_str(), ' ') {
        Some(p) => p,
        None => {
            return None;
        },
    };
    let old_start = before_comma_exec(old_part.as_str());
    let rc = chars_of(rest.as_str());
    if rc.len() == 0 || rc[0] != '+' {
        return None;
    }
    let mut k: usize = 1;
    let ghost np = rc@.drop_first();
    assert(np.skip(0) =~= np);
    while k < rc.len() && (('0' <= rc[k] && rc[k] <= '9') || rc[k] == ',')
        invariant
            1 <= k <= rc@.len(),
            np == rc@.drop_first(),
            digits_commas_len(np) == (k - 1) + digits_commas_len(np.skip(k - 1)),
        decreases rc@.len() - k,
    {
        assert(np.skip(k - 1).drop_first() =~= np.skip(k as int));
        assert(np.skip(k - 1)[0] == rc@[k as int]);
        k += 1;
    }
    proof {
        if k < rc@.len() {
            assert(np.skip(k - 1)[0] == rc@[k as int]);
        } else {
            assert(np.skip(k - 1).len() == 0);
        }
    }
    let section = string_from_range(rc.as_slice(), 1, k);
    assert(rc@.subrange(1, k as int) =~= np.take(digits_commas_len(np) as int));
    let new_start = before_comma_exec(section.as_str());
    match (parse_u32(old_start.as_slice()), parse_u32(new_start.as_slice())) {
        (Some(o), Some(n)) => Some((o, n)),
        _ => None,
    }
}

/// `s` split at its first colon, or all of `s` and nothing.
pub open spec fn split_colon_spec(s: Seq<char>) -> (Seq<char>, Seq<char>) {
    match crate::text::split_once_spec(s, ':') {
        Some(p) => p,
        None => (s, Seq::empty()),
    }
}

/// `s` split at its first colon (see `split_colon_spec`).
pub fn split_first_colon(s: &str) -> (r: (String, String))
    ensures
        r.0@ == split_colon_spec(s@).0,
        r.1@ == split_colon_spec(s@).1,
{
    match crate::text::split_once_char(s, ':') {
        Some(p) => p,
        None => (string_of(s), String::new()),
    }
}

/// The frames of the running-tool spinner.
pub open spec fn spinner_frames() -> Seq<char> {
    seq!['\u{280b}', '\u{2819}', '\u{2839}', '\u{2838}', '\u{283c}', '\u{2834}', '\u{2826}', '\u{2827}', '\u{2807}', '\u{280f}']
}

/// The spinner frame shown at `tick`: the frames in turn.
pub fn spinner_frame(tick: u32) -> (r: char)
    ensures
        r == spinner_frames()[(tick % 10) as int],
{
    let frames: [char; 10] = ['\u{280b}', '\u{2819}', '\u{2839}', '\u{2838}', '\u{283c}', '\u{2834}', '\u{2826}', '\u{2827}', '\u{2807}', '\u{280f}'];
    assert(frames@ =~= spinner_frames());
    frames[(tick % 10) as usize]
}

/// Kinds whose body is markdown.
pub open spec fn is_markdown_kind(k: Seq<char>) -> bool {
    k == "assistant"@ || k == "streaming"@
}

/// Kinds drawn as a header, a body and a blank row.
pub open spec fn is_boxed_kind(k: Seq<char>) -> bool {
    k == "user"@ || k == "reasoning"@ || k == "think"@ || k == "thinking"@ || k == "assistant"@
        || k == "streaming"@ || k == "diff"@ || k == "cmd"@ || k == "fileview"@ || k == "search"@
        || k == "subagent"@ || k == "confirm"@ || k == "await"@ || k == "await_input"@
        || k == "error"@ || k == "info"@ || k == "warn"@ || k == "usage"@
}

pub open spec fn cap16(n: nat) -> nat {
    if n > 65535 {
        65535
    } else {
        n
    }
}

/// The rows of a card's body at `w` columns.
pub open spec fn body_rows_spec(card: SceneCard, w: nat) -> nat {
    match card.body {
        None => 0,
        Some(b) => if is_markdown_kind(card.kind@) {
            cap16(crate::md_render::cap(crate::md_render::blocks_rows(
                crate::markdown::blocks_of(crate::markdown::markdown_events(b@)),
                w,
            )))
        } else {
            body_height(b@, w)
        },
    }
}

/// The rows a card takes at a body width of `w` columns (at most
/// `u16::MAX`): header, body and a blank row for most kinds, a header, one
/// row per item and a blank row for a plan, one row for a tool call, none
/// for an unknown kind.
pub open spec fn card_height_spec(card: SceneCard, w: nat) -> nat {
    let k = card.kind@;
    if is_boxed_kind(k) {
        cap16(body_rows_spec(card, w) + 2)
    } else if k == "todo"@ || k == "plan"@ {
        let items = match card.body {
            Some(b) => (todo_items(lines_of(b@)).len() as u16) as nat,
            None => 0,
        };
        cap16(items + 2)
    } else if k == "tool"@ {
        1
    } else {
        0
    }
}

fn is_boxed_kind_exec(k: &str) -> (r: bool)
    ensures
        r == is_boxed_kind(k@),
{
    crate::text::str_eq(k, "user") || crate::text::str_eq(k, "reasoning") || crate::text::str_eq(k, "think")
        || crate::text::str_eq(k, "thinking") || crate::text::str_eq(k, "assistant")
        || crate::text::str_eq(k, "streaming") || crate::text::str_eq(k, "diff")
        || crate::text::str_eq(k, "cmd") || crate::text::str_eq(k, "fileview")
        || crate::text::str_eq(k, "search") || crate::text::str_eq(k, "subagent")
        || crate::text::str_eq(k, "confirm") || crate::text::str_eq(k, "await")
        || crate::text::str_eq(k, "await_input") || crate::text::str_eq(k, "error")
        || crate::text::str_eq(k, "info") || crate::text::str_eq(k, "warn")
        || crate::text::str_eq(k, "usage")
}

/// The rows a card takes (see `card_height_spec`).
pub fn card_height(card: &SceneCard, body_width: u16) -> (r: u16)
    ensures
        r as nat == card_height_spec(*card, body_width as nat),
{
    let k = card.kind.as_str();
    if is_boxed_kind_exec(k) {
        let body: u16 = match &card.body {
            None => 0,
            Some(b) => {
                if crate::text::str_eq(k, "assistant") || crate::text::str_eq(k, "streaming") {
                    let n = crate::md_render::count_visual_rows(b.as_str(), body_width);
                    if n > 65535 {
                        65535
                    } else {
                        n as u16
                    }
                } else {
                    body_lines_height(b.as_str(), body_width)
                }
            },
        };
        if body > 65533 {
            65535
        } else {
            body + 2
        }
    } else if crate::text::str_eq(k, "todo") || crate::text::str_eq(k, "plan") {
        let items: u16 = match &card.body {
            Some(b) => parse_todo_items(b.as_str()).len() as u16,
            None => 0,
        };
        if items > 65533 {
            65535
        } else {
            items + 2
        }
    } else if crate::text::str_eq(k, "tool") {
        1
    } else {
        0
    }
}

/// The rows of all the cards, added up (at most `u16::MAX`).
pub open spec fn cards_height_spec(cards: Seq<SceneCard>, w: nat) -> nat
    decreases cards.len(),
{
    if cards.len() == 0 {
        0
    } else {
        cap16(cards_height_spec(cards.drop_last(), w) + card_height_spec(cards.last(), w))
    }
}

/// The rows of all the cards (see `cards_height_spec`).
pub fn total_cards_height(cards: &Vec<SceneCard>, body_width: u16) -> (r: u16)
    ensures
        r as nat == cards_height_spec(cards@, body_width as nat),
{
    let mut t: u16 = 0;
    let mut i: usize = 0;
    while i < cards.len()
        invariant
            i <= cards@.len(),
            t as nat == cards_height_spec(cards@.take(i as int), body_width as nat),
        decreases cards@.len() - i,
    {
        assert(cards@.take(i + 1).drop_last() =~= cards@.take(i as int));
        let h = card_height(&cards[i], body_width);
        t = t.saturating_add(h);
        i += 1;
    }
    assert(cards@.take(cards@.len() as int) =~= cards@);
    t
}

/// The width of a card's body: four columns less than the cards' area.
pub fn body_width_for(width: u16) -> (r: u16)
    ensures
        r as nat == crate::md_render::sub_or_zero(width as nat, 4),
{
    if width >= 4 {
        width - 4
    } else {
        0
    }
}

/// One row of a diff card's body.
#[derive(Debug)]
pub enum DiffRow {
    /// A hunk header, shown as it is.
    Hunk(String),
    /// A line with the numbers it has on the old and the new side.
    Line { kind: DiffKind, old: Option<u32>, new: Option<u32>, code: String },
}

/// A diff row as plain values.
#[verifier::ext_equal]
pub enum DiffRowV {
    Hunk(Seq<char>),
    Line { kind: DiffKind, old: Option<u32>, new: Option<u32>, code: Seq<char> },
}

impl View for DiffRow {
    type V = DiffRowV;

    open spec fn view(&self) -> DiffRowV {
        match self {
            DiffRow::Hunk(s) => DiffRowV::Hunk(s@),
            DiffRow::Line { kind, old, new, code } => DiffRowV::Line { kind: *kind, old: *old, new: *new, code: code@ },
        }
    }
}

/// The next line number (wrapping at `u32::MAX`).
pub open spec fn next_no(n: u32) -> u32 {
    if n == u32::MAX {
        0
    } else {
        (n + 1) as u32
    }
}

/// The rows of the diff lines `ls`, numbering from old line `o` and new
/// line `n`: a hunk header restarts the numbers; a context line has both
/// numbers, an added line the new one, a deleted line the old one.
pub open spec fn diff_rows_from(ls: Seq<Seq<char>>, o: u32, n: u32) -> Seq<DiffRowV>
    decreases ls.len(),
{
    if ls.len() == 0 {
        Seq::empty()
    } else {
        let l = ls[0];
        match hunk_spec(l) {
            Some(h) => seq![DiffRowV::Hunk(l)] + diff_rows_from(ls.drop_first(), h.0, h.1),
            None => {
                let c = classify_spec(l);
                let row = match c.0 {
                    DiffKind::Ctx => DiffRowV::Line { kind: c.0, old: Some(o), new: Some(n), code: c.1 },
                    DiffKind::Add => DiffRowV::Line { kind: c.0, old: None, new: Some(n), code: c.1 },
                    DiffKind::Del => DiffRowV::Line { kind: c.0, old: Some(o), new: None, code: c.1 },
                };
                let o2 = if c.0 == DiffKind::Add {
                    o
                } else {
                    next_no(o)
                };
                let n2 = if c.0 == DiffKind::Del {
                    n
                } else {
                    next_no(n)
                };
                seq![row] + diff_rows_from(ls.drop_first(), o2, n2)
            },
        }
    }
}

pub open spec fn diff_rows_view(v: Seq<DiffRow>) -> Seq<DiffRowV> {
    v.map_values(|r: DiffRow| r@)
}

/// The rows of a diff card's body: its lines split at `\n`, numbered from
/// 0 until a hunk header.
pub fn diff_rows(body: &str) -> (r: Vec<DiffRow>)
    ensures
        diff_rows_view(r@) == diff_rows_from(crate::text::split_on(body@, '\n'), 0, 0),
{
    let ls = crate::text::split_char(body, '\n');
    let ghost lv = ls@.map_values(|x: String| x@);
    let mut out: Vec<DiffRow> = Vec::new();
    let mut o: u32 = 0;
    let mut n: u32 = 0;
    let mut i: usize = 0;
    assert(lv.skip(0) =~= lv);
    assert(diff_rows_view(out@) + diff_rows_from(lv.skip(0), o, n) =~= diff_rows_from(lv, 0, 0));
    while i < ls.len()
        invariant
            i <= ls@.len(),
            lv == ls@.map_values(|x: String| x@),
            lv == crate::text::split_on(body@, '\n'),
            diff_rows_view(out@) + diff_rows_from(lv.skip(i as int), o, n) == diff_rows_from(lv, 0, 0),
        decreases ls@.len() - i,
    {
        let line = ls[i].as_str();
        assert(lv.skip(i as int)[0] == line@);
        assert(lv.skip(i as int).drop_first() =~= lv.skip(i + 1));
        let ghost before = diff_rows_view(out@);
        let ghost o0 = o;
        let ghost n0 = n;
        match parse_hunk_header(line) {
            Some((a, b)) => {
                out.push(DiffRow::Hunk(string_of(line)));
                o = a;
                n = b;
            },
            None => {
                let (kind, code) = classify_line(line);
                let row = match kind {
                    DiffKind::Ctx => DiffRow::Line { kind, old: Some(o), new: Some(n), code },
                    DiffKind::Add => DiffRow::Line { kind, old: None, new: Some(n), code },
                    DiffKind::Del => DiffRow::Line { kind, old: Some(o), new: None, code },
                };
                out.push(row);
                if kind != DiffKind::Add {
                    o = if o == u32::MAX {
                        0
                    } else {
                        o + 1
                    };
                }
                if kind != DiffKind::Del {
                    n = if n == u32::MAX {
                        0
                    } else {
                        n + 1
                    };
                }
            },
        }
        assert(diff_rows_view(out@) =~= before.push(out@.last()@));
        assert(diff_rows_from(lv.skip(i as int), o0, n0) == seq![out@.last()@] + diff_rows_from(lv.skip(i + 1), o, n));
        assert(diff_rows_view(out@) + diff_rows_from(lv.skip(i + 1), o, n) =~= before + diff_rows_from(lv.skip(i as int), o0, n0));
        i += 1;
    }
    assert(lv.skip(ls@.len() as int) =~= Seq::<Seq<char>>::empty());
    assert(diff_rows_view(out@) + Seq::<DiffRowV>::empty() =~= diff_rows_view(out@));
    out
}

/// Whether `r` is a line of a kind other than `skip`: 1 when it is, else 0.
pub open spec fn counted_on(r: DiffRowV, skip: DiffKind) -> nat {
    if r matches DiffRowV::Line { kind, .. } && kind != skip {
        1
    } else {
        0
    }
}

/// How many rows of `rows[lo..hi)` are lines of a kind other than `skip`:
/// with `skip` = added, the lines that take an old-side number (deleted and
/// context lines); with `skip` = deleted, those that take a new-side one.
pub open spec fn side_count(rows: Seq<DiffRowV>, lo: int, hi: int, skip: DiffKind) -> nat
    decreases hi - lo,
{
    if hi <= lo {
        0
    } else {
        side_count(rows, lo, hi - 1, skip) + counted_on(rows[hi - 1], skip)
    }
}

/// The line number `k` lines after `start`, wrapping as `u32` does.
pub open spec fn line_no(start: u32, k: nat) -> u32 {
    ((start + k) % 0x1_0000_0000int) as u32
}

/// Whether no row of `rows[lo..hi)` is a hunk header.
pub open spec fn no_hunk(rows: Seq<DiffRowV>, lo: int, hi: int) -> bool {
    forall|k: int| lo <= k < hi ==> !(#[trigger] rows[k] is Hunk)
}

/// Whether row `i` of `rows` is numbered from old line `o` and new line
/// `n` counted from row `lo`: a deleted or context line has old number `o`
/// plus the deleted and context lines before it since `lo`, an added line
/// none; an added or context line has new number `n` plus the added and
/// context lines before it, a deleted line none.
pub open spec fn numbered_from(rows: Seq<DiffRowV>, lo: int, i: int, o: u32, n: u32) -> bool {
    match rows[i] {
        DiffRowV::Line { kind, old, new, .. } => {
            &&& old == if kind == DiffKind::Add {
                None
            } else {
                Some(line_no(o, side_count(rows, lo, i, DiffKind::Add)))
            }
            &&& new == if kind == DiffKind::Del {
                None
            } else {
                Some(line_no(n, side_count(rows, lo, i, DiffKind::Del)))
            }
        },
        DiffRowV::Hunk(_) => true,
    }
}

proof fn lemma_side_count_first(s: Seq<DiffRowV>, lo: int, hi: int, skip: DiffKind)
    requires
        0 <= lo < hi <= s.len(),
    ensures
        side_count(s, lo, hi, skip) == counted_on(s[lo], skip) + side_count(s, lo + 1, hi, skip),
    decreases hi - lo,
{
    if hi > lo + 1 {
        lemma_side_count_first(s, lo, hi - 1, skip);
    } else {
        assert(side_count(s, lo, lo, skip) == 0);
        assert(side_count(s, lo + 1, hi, skip) == 0);
    }
}

proof fn lemma_side_count_shift(s: Seq<DiffRowV>, d: int, lo: int, hi: int, skip: DiffKind)
    requires
        0 <= d <= lo <= hi <= s.len(),
    ensures
        side_count(s, lo, hi, skip) == side_count(s.skip(d), lo - d, hi - d, skip),
    decreases hi - lo,
{
    if hi > lo {
        lemma_side_count_shift(s, d, lo, hi - 1, skip);
        assert(s.skip(d)[hi - 1 - d] == s[hi - 1]);
    }
}

proof fn lemma_line_no_step(o: u32, c: nat)
    ensures
        line_no(next_no(o), c) == line_no(o, c + 1),
        line_no(o, 0) == o,
{
    let m = 0x1_0000_0000int;
    vstd::arithmetic::div_mod::lemma_add_mod_noop_right(c as int, o + 1, m);
    assert(next_no(o) as int == (o + 1) % m);
    vstd::arithmetic::div_mod::lemma_small_mod(o as nat, m as nat);
}

proof fn lemma_diff_rows_len(ls: Seq<Seq<char>>, o: u32, n: u32)
    ensures
        diff_rows_from(ls, o, n).len() == ls.len(),
    decreases ls.len(),
{
    if ls.len() > 0 {
        match hunk_spec(ls[0]) {
            Some(h) => lemma_diff_rows_len(ls.drop_first(), h.0, h.1),
            None => {
                let c = classify_spec(ls[0]);
                let o2 = if c.0 != DiffKind::Add { next_no(o) } else { o };
                let n2 = if c.0 != DiffKind::Del { next_no(n) } else { n };
                lemma_diff_rows_len(ls.drop_first(), o2, n2);
            },
        }
    }
}

/// The rows after the first are the rows of the other lines, numbered on.
proof fn lemma_diff_rows_rest(ls: Seq<Seq<char>>, o: u32, n: u32) -> (next: (u32, u32))
    requires
        ls.len() > 0,
    ensures
        diff_rows_from(ls, o, n).drop_first() == diff_rows_from(ls.drop_first(), next.0, next.1),
        diff_rows_from(ls, o, n)[0] is Hunk ==> hunk_spec(ls[0]) == Some(next),
        !(diff_rows_from(ls, o, n)[0] is Hunk) ==> ({
            let r0 = diff_rows_from(ls, o, n)[0];
            &&& next.0 == if counted_on(r0, DiffKind::Add) == 1 { next_no(o) } else { o }
            &&& next.1 == if counted_on(r0, DiffKind::Del) == 1 { next_no(n) } else { n }
            &&& numbered_from(seq![r0], 0, 0, o, n)
        }),
{
    match hunk_spec(ls[0]) {
        Some(h) => {
            assert(diff_rows_from(ls, o, n).drop_first() =~= diff_rows_from(ls.drop_first(), h.0, h.1));
            h
        },
        None => {
            let c = classify_spec(ls[0]);
            let o2 = if c.0 != DiffKind::Add { next_no(o) } else { o };
            let n2 = if c.0 != DiffKind::Del { next_no(n) } else { n };
            assert(diff_rows_from(ls, o, n).drop_first() =~= diff_rows_from(ls.drop_first(), o2, n2));
            lemma_line_no_step(o, 0);
            lemma_line_no_step(n, 0);
            let r0 = diff_rows_from(ls, o, n)[0];
            assert(side_count(seq![r0], 0, 0, DiffKind::Add) == 0);
            assert(side_count(seq![r0], 0, 0, DiffKind::Del) == 0);
            (o2, n2)
        },
    }
}

/// Before any hunk header, every row is numbered from `o` and `n`.
proof fn lemma_numbered_from_start(ls: Seq<Seq<char>>, o: u32, n: u32, i: int)
    requires
        0 <= i < ls.len(),
        no_hunk(diff_rows_from(ls, o, n), 0, i),
    ensures
        numbered_from(diff_rows_from(ls, o, n), 0, i, o, n),
    decreases i,
{
    let rows = diff_rows_from(ls, o, n);
    lemma_diff_rows_len(ls, o, n);
    let next = lemma_diff_rows_rest(ls, o, n);
    let rest = diff_rows_from(ls.drop_first(), next.0, next.1);
    if i == 0 {
        if !(rows[0] is Hunk) {
            assert(seq![rows[0]][0] == rows[0]);
        }
    } else {
        assert(!(rows[0] is Hunk));
        assert(rows.drop_first() == rest);
        assert(no_hunk(rest, 0, i - 1)) by {
            assert forall|k: int| 0 <= k < i - 1 implies !(#[trigger] rest[k] is Hunk) by {
                assert(rest[k] == rows[k + 1]);
            }
        }
        lemma_numbered_from_start(ls.drop_first(), next.0, next.1, i - 1);
        assert(rows[i] == rest[i - 1]);
        assert(rows.skip(1) =~= rest);
        lemma_side_count_first(rows, 0, i, DiffKind::Add);
        lemma_side_count_first(rows, 0, i, DiffKind::Del);
        lemma_side_count_shift(rows, 1, 1, i, DiffKind::Add);
        lemma_side_count_shift(rows, 1, 1, i, DiffKind::Del);
        let ca = side_count(rest, 0, i - 1, DiffKind::Add);
        let cd = side_count(rest, 0, i - 1, DiffKind::Del);
        lemma_line_no_step(o, ca);
        lemma_line_no_step(n, cd);
        assert(ca + 1 == 1 + ca);
        assert(cd + 1 == 1 + cd);
    }
}

/// After row `j`, the rows are those of the lines after `j`, numbered on
/// from some old and new line; after a hunk header, from its start lines.
proof fn lemma_diff_rows_suffix(ls: Seq<Seq<char>>, o: u32, n: u32, j: int)
    requires
        0 <= j < ls.len(),
        diff_rows_from(ls, o, n)[j] is Hunk,
    ensures
        ({
            let l = diff_rows_from(ls, o, n)[j]->Hunk_0;
            &&& hunk_spec(l) is Some
            &&& diff_rows_from(ls, o, n).skip(j + 1) == diff_rows_from(
                ls.skip(j + 1),
                hunk_spec(l).unwrap().0,
                hunk_spec(l).unwrap().1,
            )
        }),
    decreases j,
{
    let rows = diff_rows_from(ls, o, n);
    lemma_diff_rows_len(ls, o, n);
    let next = lemma_diff_rows_rest(ls, o, n);
    if j == 0 {
        assert(hunk_spec(ls[0]) is Some);
        assert(rows[0] == DiffRowV::Hunk(ls[0]));
        assert(rows.skip(1) =~= rows.drop_first());
        assert(ls.skip(1) =~= ls.drop_first());
    } else {
        let rest = diff_rows_from(ls.drop_first(), next.0, next.1);
        assert(rows.drop_first() == rest);
        assert(rows[j] == rest[j - 1]);
        lemma_diff_rows_suffix(ls.drop_first(), next.0, next.1, j - 1);
        assert(rows.skip(j + 1) =~= rest.skip(j));
        assert(ls.skip(j + 1) =~= ls.drop_first().skip(j));
    }
}

/// The numbering of diff rows: before any hunk header the rows are
/// numbered from `o` and `n`, and after a header from its old and new
/// start lines. A deleted or context line's old number is the start plus
/// the deleted and context lines before it since the header (so a deleted
/// line advances the old side); an added or context line's new number is
/// the start plus the added and context lines before it; an added line
/// has no old number and a deleted line no new one.
pub proof fn law_diff_numbering(ls: Seq<Seq<char>>, o: u32, n: u32)
    ensures
        diff_rows_from(ls, o, n).len() == ls.len(),
        forall|i: int|
            0 <= i < ls.len() && no_hunk(diff_rows_from(ls, o, n), 0, i) ==> numbered_from(
                #[trigger] diff_rows_from(ls, o, n),
                0,
                i,
                o,
                n,
            ),
        forall|j: int, i: int|
            0 <= j < i < ls.len() && #[trigger] diff_rows_from(ls, o, n)[j] is Hunk && #[trigger] no_hunk(
                diff_rows_from(ls, o, n),
                j + 1,
                i,
            ) ==> ({
                let h = hunk_spec(diff_rows_from(ls, o, n)[j]->Hunk_0);
                &&& h is Some
                &&& numbered_from(diff_rows_from(ls, o, n), j + 1, i, h.unwrap().0, h.unwrap().1)
            }),
{
    let rows = diff_rows_from(ls, o, n);
    lemma_diff_rows_len(ls, o, n);
    assert forall|i: int| 0 <= i < ls.len() && no_hunk(rows, 0, i) implies numbered_from(
        #[trigger] diff_rows_from(ls, o, n),
        0,
        i,
        o,
        n,
    ) by {
        lemma_numbered_from_start(ls, o, n, i);
    }
    assert forall|j: int, i: int|
        0 <= j < i < ls.len() && #[trigger] rows[j] is Hunk && #[trigger] no_hunk(rows, j + 1, i) implies ({
            let h = hunk_spec(rows[j]->Hunk_0);
            &&& h is Some
            &&& numbered_from(rows, j + 1, i, h.unwrap().0, h.unwrap().1)
        }) by {
        lemma_diff_rows_suffix(ls, o, n, j);
        let h = hunk_spec(rows[j]->Hunk_0).unwrap();
        let tail = ls.skip(j + 1);
        let srows = rows.skip(j + 1);
        assert(srows == diff_rows_from(tail, h.0, h.1));
        let ii = i - j - 1;
        assert(no_hunk(srows, 0, ii)) by {
            assert forall|k: int| 0 <= k < ii implies !(#[trigger] srows[k] is Hunk) by {
                assert(srows[k] == rows[k + j + 1]);
            }
        }
        lemma_numbered_from_start(tail, h.0, h.1, ii);
        assert(srows[ii] == rows[i]);
        lemma_side_count_shift(rows, j + 1, j + 1, i, DiffKind::Add);
        lemma_side_count_shift(rows, j + 1, j + 1, i, DiffKind::Del);
    }
}

/// The rows that `diff_rows` gives for `body` are numbered as
/// `law_diff_numbering` says, from line 0 on both sides before any hunk.
pub proof fn law_diff_rows_numbering(body: Seq<char>)
    ensures
        ({
            let ls = crate::text::split_on(body, '\n');
            let rows = diff_rows_from(ls, 0, 0);
            &&& forall|i: int| 0 <= i < rows.len() && no_hunk(rows, 0, i) ==> numbered_from(rows, 0, i, 0, 0)
            &&& forall|j: int, i: int|
                0 <= j < i < rows.len() && #[trigger] rows[j] is Hunk && #[trigger] no_hunk(rows, j + 1, i)
                    ==> (hunk_spec(rows[j]->Hunk_0) matches Some(h) && numbered_from(rows, j + 1, i, h.0, h.1))
        }),
{
    law_diff_numbering(crate::text::split_on(body, '\n'), 0, 0);
}

/// How a line of text is toned when drawn.
#[derive(Clone, Copy, Debug, PartialEq, Eq, Structural)]
pub enum Tone {
    Good,
    Bad,
    Muted,
    Plain,
}

/// The tone of a line of command output (trailing whitespace removed): a
/// pass or a check mark is good, a failure or a cross is bad, stream labels
/// and `RUN` lines are muted.
pub open spec fn output_tone_spec(t: Seq<char>) -> Tone {
    if crate::text::is_prefix("  \u{2713}"@, t) || crate::text::contains_seq(t, "passed"@) {
        Tone::Good
    } else if crate::text::is_prefix("  \u{2715}"@, t) || crate::text::contains_seq(t, "failed"@) {
        Tone::Bad
    } else if crate::text::is_prefix("stdout"@, t) || crate::text::is_prefix("stderr"@, t)
        || crate::text::is_prefix(" RUN"@, t) {
        Tone::Muted
    } else {
        Tone::Plain
    }
}

fn starts_with_str(s: &str, p: &str) -> (r: bool)
    ensures
        r == crate::text::is_prefix(p@, s@),
{
    crate::text::starts_with(chars_of(s).as_slice(), chars_of(p).as_slice())
}

/// The tone of a line of command output (see `output_tone_spec`).
pub fn output_tone(trimmed: &str) -> (r: Tone)
    ensures
        r == output_tone_spec(trimmed@),
{
    if starts_with_str(trimmed, "  \u{2713}") || crate::text::contains_str(trimmed, "passed") {
        Tone::Good
    } else if starts_with_str(trimmed, "  \u{2715}") || crate::text::contains_str(trimmed, "failed") {
        Tone::Bad
    } else if starts_with_str(trimmed, "stdout") || starts_with_str(trimmed, "stderr") || starts_with_str(trimmed, " RUN") {
        Tone::Muted
    } else {
        Tone::Plain
    }
}

/// The tone of a command card's meta: a zero exit is good, another exit
/// bad, anything else muted.
pub open spec fn exit_tone_spec(meta: Seq<char>) -> Tone {
    if crate::text::contains_seq(meta, "0"@) && crate::text::is_prefix("exit 0"@, meta) {
        Tone::Good
    } else if crate::text::is_prefix("exit "@, meta) {
        Tone::Bad
    } else {
        Tone::Muted
    }
}

/// The tone of a command card's meta (see `exit_tone_spec`).
pub fn exit_tone(meta: &str) -> (r: Tone)
    ensures
        r == exit_tone_spec(meta@),
{
    if crate::text::contains_str(meta, "0") && starts_with_str(meta, "exit 0") {
        Tone::Good
    } else if starts_with_str(meta, "exit ") {
        Tone::Bad
    } else {
        Tone::Muted
    }
}

/// Whether a line of an error card is a stack frame (`at ...` after
/// leading whitespace); those are muted.
pub fn is_trace_line(raw: &str) -> (r: bool)
    ensures
        r == crate::text::is_prefix("at "@, trim_start_ws(raw@)),
{
    let t = crate::text::trim_start(raw);
    starts_with_str(t.as_str(), "at ")
}

/// A confirmation option token `[k]label` split into its key and label;
/// a token without a leading bracketed key is all label.
pub open spec fn option_token_spec(tok: Seq<char>) -> (Seq<char>, Seq<char>) {
    if tok.len() > 0 && tok[0] == '[' {
        match crate::text::split_once_spec(tok.drop_first(), ']') {
            Some(p) => (p.0, p.1),
            None => (Seq::empty(), tok),
        }
    } else {
        (Seq::empty(), tok)
    }
}

/// A confirmation option token split (see `option_token_spec`).
pub fn option_token(tok: &str) -> (r: (String, String))
    ensures
        r.0@ == option_token_spec(tok@).0,
        r.1@ == option_token_spec(tok@).1,
{
    let cs = chars_of(tok);
    if cs.len() > 0 && cs[0] == '[' {
        let rest = string_from_range(cs.as_slice(), 1, cs.len());
        assert(cs@.subrange(1, cs@.len() as int) =~= cs@.drop_first());
        match crate::text::split_once_char(rest.as_str(), ']') {
            Some(p) => p,
            None => (String::new(), string_of(tok)),
        }
    } else {
        (String::new(), string_of(tok))
    }
}

/// An awaited-input option line `key) label` split into its key and label
/// (leading whitespace of the label removed); none without a `)`.
pub open spec fn await_option_spec(line: Seq<char>) -> Option<(Seq<char>, Seq<char>)> {
    match crate::text::split_once_spec(line, ')') {
        Some(p) => Some((p.0, trim_start_ws(p.1))),
        None => None,
    }
}

/// An awaited-input option line split (see `await_option_spec`).
pub fn await_option(line: &str) -> (r: Option<(String, String)>)
    ensures
        match r {
            Some(p) => await_option_spec(line@) == Some((p.0@, p.1@)),
            None => await_option_spec(line@) is None,
        },
{
    match crate::text::split_once_char(line, ')') {
        Some((k, rest)) => Some((k, crate::text::trim_start(rest.as_str()))),
        None => None,
    }
}

/// The body of the newest plan (`todo` or `plan`) card, or nothing.
pub open spec fn plan_body_spec(cards: Seq<SceneCard>) -> Seq<char>
    decreases cards.len(),
{
    if cards.len() == 0 {
        Seq::empty()
    } else if cards.last().kind@ == "todo"@ || cards.last().kind@ == "plan"@ {
        match cards.last().body {
            Some(b) => b@,
            None => Seq::empty(),
        }
    } else {
        plan_body_spec(cards.drop_last())
    }
}

/// The body of the newest plan card (see `plan_body_spec`).
pub fn plan_body(cards: &Vec<SceneCard>) -> (r: String)
    ensures
        r@ == plan_body_spec(cards@),
{
    let mut i: usize = cards.len();
    assert(cards@.take(i as int) =~= cards@);
    while i > 0
        invariant
            i <= cards@.len(),
            plan_body_spec(cards@) == plan_body_spec(cards@.take(i as int)),
        decreases i,
    {
        let c = &cards[i - 1];
        assert(cards@.take(i as int).drop_last() =~= cards@.take(i - 1));
        assert(cards@.take(i as int).last() == *c);
        if crate::text::str_eq(c.kind.as_str(), "todo") || crate::text::str_eq(c.kind.as_str(), "plan") {
            return match &c.body {
                Some(b) => string_of(b.as_str()),
                None => String::new(),
            };
        }
        i -= 1;
    }
    String::new()
}

/// The positions of the newest tool cards, newest first, at most `n`.
pub open spec fn recent_tools_spec(cards: Seq<SceneCard>, n: nat) -> Seq<usize>
    decreases cards.len(),
{
    if cards.len() == 0 || n == 0 {
        Seq::empty()
    } else if cards.last().kind@ == "tool"@ {
        seq![(cards.len() - 1) as usize] + recent_tools_spec(cards.drop_last(), (n - 1) as nat)
    } else {
        recent_tools_spec(cards.drop_last(), n)
    }
}

/// The positions of the four newest tool cards, newest first.
pub fn recent_tools(cards: &Vec<SceneCard>) -> (r: Vec<usize>)
    ensures
        r@ == recent_tools_spec(cards@, 4),
{
    let mut out: Vec<usize> = Vec::new();
    let mut i: usize = cards.len();
    assert(cards@.take(i as int) =~= cards@);
    assert(out@ + recent_tools_spec(cards@, 4) =~= recent_tools_spec(cards@, 4));
    while i > 0 && out.len() < 4
        invariant
            i <= cards@.len(),
            out@.len() <= 4,
            out@ + recent_tools_spec(cards@.take(i as int), (4 - out@.len()) as nat) == recent_tools_spec(cards@, 4),
        decreases i,
    {
        let ghost before = out@;
        assert(cards@.take(i as int).drop_last() =~= cards@.take(i - 1));
        assert(cards@.take(i as int).last() == cards@[i - 1]);
        if crate::text::str_eq(cards[i - 1].kind.as_str(), "tool") {
            out.push(i - 1);
            assert(out@ + recent_tools_spec(cards@.take(i - 1), (4 - out@.len()) as nat) =~= before + recent_tools_spec(cards@.take(i as int), (4 - before.len()) as nat));
        }
        i -= 1;
    }
    proof {
        if i == 0 {
            assert(cards@.take(0) =~= Seq::<SceneCard>::empty());
        }
        assert(out@ + Seq::<usize>::empty() =~= out@);
    }
    out
}

/// The label of a job in the sidebar: the tool's name, then its arguments.
pub open spec fn job_label_spec(card: SceneCard) -> Seq<char> {
    match card.args {
        Some(a) => card.summary@ + seq![' '] + a@,
        None => card.summary@,
    }
}

/// The label of a job in the sidebar (see `job_label_spec`).
pub fn job_label(card: &SceneCard) -> (r: String)
    ensures
        r@ == job_label_spec(*card),
{
    let mut s = string_of(card.summary.as_str());
    match &card.args {
        Some(a) => {
            push_char(&mut s, ' ');
            push_str(&mut s, a.as_str());
        },
        None => {},
    }
    s
}

/// The concatenation of `ls`.
pub open spec fn flatten(ls: Seq<Seq<char>>) -> Seq<char>
    decreases ls.len(),
{
    if ls.len() == 0 {
        Seq::empty()
    } else {
        flatten(ls.drop_last()) + ls.last()
    }
}

/// Wrapping keeps the text: the lines of a character wrap, put back
/// together, are the characters wrapped.
pub proof fn law_wrap_keeps_text(cs: Seq<char>, w: nat)
    ensures
        flatten(char_wrap(cs, w)) == cs,
    decreases cs.len(),
{
    if cs.len() > 0 {
        law_wrap_keeps_text(cs.drop_last(), w);
        let prev = char_wrap(cs.drop_last(), w);
        let c = cs.last();
        if prev.len() == 0 {
            assert(seq![seq![c]].drop_last() =~= Seq::<Seq<char>>::empty());
            assert(flatten(seq![seq![c]]) =~= cs);
        } else if crate::text::sum_width(prev.last()) + cw(c) > w {
            assert(prev.push(seq![c]).drop_last() =~= prev);
            assert(flatten(prev.push(seq![c])) =~= cs);
        } else {
            let upd = prev.update(prev.len() - 1, prev.last().push(c));
            assert(upd.drop_last() =~= prev.drop_last());
            assert(flatten(prev) == flatten(prev.drop_last()) + prev.last());
            assert(upd.last() == prev.last().push(c));
            assert(flatten(upd) == flatten(prev.drop_last()) + prev.last().push(c));
            assert(cs =~= cs.drop_last().push(c));
            assert(flatten(upd) =~= cs);
        }
    }
}

/// Wrapping respects the width: every line of a character wrap fits in
/// `w` columns, but a line of one character wider than `w`; and no line is
/// empty.
pub proof fn law_wrap_fits(cs: Seq<char>, w: nat)
    ensures
        forall|i: int|
            0 <= i < char_wrap(cs, w).len() ==> (crate::text::sum_width(#[trigger] char_wrap(cs, w)[i]) <= w
                || char_wrap(cs, w)[i].len() == 1) && char_wrap(cs, w)[i].len() > 0,
    decreases cs.len(),
{
    if cs.len() > 0 {
        law_wrap_fits(cs.drop_last(), w);
        let prev = char_wrap(cs.drop_last(), w);
        let c = cs.last();
        let cur = char_wrap(cs, w);
        if prev.len() == 0 {
        } else if crate::text::sum_width(prev.last()) + cw(c) > w {
            assert forall|i: int| 0 <= i < cur.len() implies (crate::text::sum_width(#[trigger] cur[i]) <= w
                || cur[i].len() == 1) && cur[i].len() > 0 by {
                if i < prev.len() {
                    assert(cur[i] == prev[i]);
                }
            }
        } else {
            assert forall|i: int| 0 <= i < cur.len() implies (crate::text::sum_width(#[trigger] cur[i]) <= w
                || cur[i].len() == 1) && cur[i].len() > 0 by {
                if i < prev.len() - 1 {
                    assert(cur[i] == prev[i]);
                } else {
                    assert(cur[i] == prev.last().push(c));
                    assert(prev.last().push(c).drop_last() =~= prev.last());
                }
            }
        }
    }
}

/// The spinner cycles through its ten frames: the frame at `tick` comes
/// back ten ticks later.
pub proof fn law_spinner_period(tick: u32)
    requires
        tick <= u32::MAX - 10,
    ensures
        spinner_frames()[(tick % 10) as int] == spinner_frames()[((tick + 10) % 10) as int],
{
}

} // verus!
