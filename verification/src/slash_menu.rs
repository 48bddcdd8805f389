//! Layout of the slash-command popup: its rows (one per matching command,
//! with group headers while browsing), the columns for names, argument
//! hints and descriptions, the wrapped description of the selected row, and
//! the window of rows that fits above the dock.
use crate::cards::flatten;
use crate::controller::opt_view;
use crate::overlay::{clone_strings, needle_exec, needle_of, name_matches, views};
use crate::state::{SceneState, SlashMatch};
use crate::text::{
    char_width_or_zero, chars_of, cw, decimal, push_char, push_decimal, push_str, str_eq,
    str_width, str_width_of, string_from_chars, string_of, sum_width,
};
use vstd::prelude::*;

verus! {

/// One row of the popup.
#[derive(Debug)]
pub struct SlashRow {
    pub name: String,
    pub desc: String,
    pub args_hint: Option<String>,
    pub aliases: Vec<String>,
    pub group: Option<String>,
    /// A group header is drawn just above this row.
    pub header_above: bool,
}

/// A row as plain values.
#[verifier::ext_equal]
pub struct RowV {
    pub name: Seq<char>,
    pub desc: Seq<char>,
    pub args_hint: Option<Seq<char>>,
    pub aliases: Seq<Seq<char>>,
    pub group: Option<Seq<char>>,
    pub header_above: bool,
}

impl View for SlashRow {
    type V = RowV;

    open spec fn view(&self) -> RowV {
        RowV {
            name: self.name@,
            desc: self.desc@,
            args_hint: opt_view(self.args_hint),
            aliases: views(self.aliases@),
            group: opt_view(self.group),
            header_above: self.header_above,
        }
    }
}

pub open spec fn rows_view(v: Seq<SlashRow>) -> Seq<RowV> {
    v.map_values(|r: SlashRow| r@)
}

/// The row of a catalog command.
pub open spec fn row_of(m: SlashMatch) -> RowV {
    RowV {
        name: seq!['/'] + m.cmd@,
        desc: m.summary@,
        args_hint: opt_view(m.args_hint),
        aliases: views(m.aliases@),
        group: opt_view(m.group),
        header_above: false,
    }
}

/// The rows offered when the host sent no catalog.
pub open spec fn fallback_rows() -> Seq<RowV> {
    seq![
        RowV { name: "/clear"@, desc: "reset conversation context"@, args_hint: None, aliases: Seq::empty(), group: None, header_above: false },
        RowV { name: "/compact"@, desc: "summarize history to free up tokens"@, args_hint: None, aliases: Seq::empty(), group: None, header_above: false },
        RowV { name: "/help"@, desc: "show help"@, args_hint: None, aliases: Seq::empty(), group: None, header_above: false },
    ]
}

/// The catalog commands matching `needle`, as rows, in order.
pub open spec fn catalog_rows(c: Seq<SlashMatch>, needle: Seq<char>) -> Seq<RowV>
    decreases c.len(),
{
    if c.len() == 0 {
        Seq::empty()
    } else {
        let rest = catalog_rows(c.drop_last(), needle);
        if name_matches(c.last().cmd@, needle) {
            rest.push(row_of(c.last()))
        } else {
            rest
        }
    }
}

/// The fallback rows whose name, without its `/`, matches `needle`.
pub open spec fn fallback_matching(rows: Seq<RowV>, needle: Seq<char>) -> Seq<RowV>
    decreases rows.len(),
{
    if rows.len() == 0 {
        Seq::empty()
    } else {
        let rest = fallback_matching(rows.drop_last(), needle);
        if name_matches(rows.last().name.drop_first(), needle) {
            rest.push(rows.last())
        } else {
            rest
        }
    }
}

/// The rows with a header above each row whose group differs from the
/// group of the row before it (for the first row: from no group).
pub open spec fn mark_groups(rows: Seq<RowV>) -> Seq<RowV> {
    Seq::new(
        rows.len(),
        |i: int|
            RowV {
                header_above: if i == 0 {
                    rows[0].group is Some
                } else {
                    rows[i].group != rows[i - 1].group
                },
                ..rows[i]
            },
    )
}

/// The rows of the popup for `query`: the matching commands; while browsing
/// (nothing typed after `/`) with group headers.
pub open spec fn collect_rows_spec(query: Seq<char>, state: SceneState) -> Seq<RowV> {
    let needle = needle_of(query);
    let raw = match state.slash_catalog {
        Some(c) => catalog_rows(c@, needle),
        None => fallback_matching(fallback_rows(), needle),
    };
    if needle.len() == 0 {
        mark_groups(raw)
    } else {
        raw
    }
}

proof fn lemma_catalog_rows_plain(c: Seq<SlashMatch>, needle: Seq<char>)
    ensures
        forall|i: int| 0 <= i < catalog_rows(c, needle).len() ==> !(#[trigger] catalog_rows(c, needle)[i]).header_above,
    decreases c.len(),
{
    if c.len() > 0 {
        lemma_catalog_rows_plain(c.drop_last(), needle);
    }
}

proof fn lemma_fallback_rows_plain(rows: Seq<RowV>, needle: Seq<char>)
    requires
        forall|i: int| 0 <= i < rows.len() ==> !(#[trigger] rows[i]).header_above,
    ensures
        forall|i: int| 0 <= i < fallback_matching(rows, needle).len() ==> !(#[trigger] fallback_matching(rows, needle)[i]).header_above,
    decreases rows.len(),
{
    if rows.len() > 0 {
        lemma_fallback_rows_plain(rows.drop_last(), needle);
    }
}

/// Group headers: once something is typed after `/` no row has one; while
/// browsing, a row has one exactly when its group differs from the row
/// before it (the first row: when it has a group). The rows are the same
/// commands either way.
pub proof fn law_group_headers(query: Seq<char>, state: SceneState)
    ensures
        ({
            let rows = collect_rows_spec(query, state);
            &&& needle_of(query).len() > 0 ==> forall|i: int| 0 <= i < rows.len() ==> !(#[trigger] rows[i]).header_above
            &&& needle_of(query).len() == 0 ==> forall|i: int| 0 < i < rows.len() ==> (#[trigger] rows[i]).header_above == (rows[i].group != rows[i - 1].group)
            &&& (needle_of(query).len() == 0 && rows.len() > 0) ==> (rows[0].header_above <==> rows[0].group is Some)
        }),
{
    let needle = needle_of(query);
    match state.slash_catalog {
        Some(c) => lemma_catalog_rows_plain(c@, needle),
        None => lemma_fallback_rows_plain(fallback_rows(), needle),
    }
}

fn copy_opt(o: &Option<String>) -> (r: Option<String>)
    ensures
        opt_view(r) == opt_view(*o),
{
    match o {
        Some(s) => Some(s.clone()),
        None => None,
    }
}

fn plain_row(name: &str, desc: &str) -> (r: SlashRow)
    ensures
        r@ == (RowV { name: name@, desc: desc@, args_hint: None, aliases: Seq::empty(), group: None, header_above: false }),
{
    let r = SlashRow {
        name: string_of(name),
        desc: string_of(desc),
        args_hint: None,
        aliases: Vec::new(),
        group: None,
        header_above: false,
    };
    assert(r@ =~= (RowV { name: name@, desc: desc@, args_hint: None, aliases: Seq::empty(), group: None, header_above: false }));
    r
}

fn fallback_rows_exec() -> (r: Vec<SlashRow>)
    ensures
        rows_view(r@) == fallback_rows(),
{
    let mut v: Vec<SlashRow> = Vec::new();
    v.push(plain_row("/clear", "reset conversation context"));
    v.push(plain_row("/compact", "summarize history to free up tokens"));
    v.push(plain_row("/help", "show help"));
    assert(rows_view(v@) =~= fallback_rows());
    v
}

/// The rows as shown: with group headers while browsing.
pub open spec fn shown_rows(raw: Seq<RowV>, group_mode: bool) -> Seq<RowV> {
    if group_mode {
        mark_groups(raw)
    } else {
        raw
    }
}

fn push_row(out: &mut Vec<SlashRow>, row: SlashRow, group_mode: bool, Ghost(raw): Ghost<Seq<RowV>>)
    requires
        rows_view(old(out)@) == shown_rows(raw, group_mode),
        !row.header_above,
    ensures
        rows_view(final(out)@) == shown_rows(raw.push(row@), group_mode),
{
    let mut row = row;
    let ghost rv = row@;
    if group_mode {
        let n = out.len();
        let header = if n == 0 {
            row.group.is_some()
        } else {
            !opt_str_eq(&row.group, &out[n - 1].group)
        };
        row.header_above = header;
        proof {
            if n > 0 {
                assert(rows_view(out@)[n - 1] == mark_groups(raw)[n - 1]);
            }
        }
    }
    let ghost before = rows_view(out@);
    let ghost pushed = row@;
    out.push(row);
    assert(rows_view(out@) =~= before.push(pushed));
    assert(rows_view(out@) =~= shown_rows(raw.push(rv), group_mode));
}

/// The rows of the popup for `query` (see `collect_rows_spec`).
pub fn collect_rows(query: &str, state: &SceneState) -> (r: Vec<SlashRow>)
    ensures
        rows_view(r@) == collect_rows_spec(query@, *state),
{
    let q = chars_of(query);
    let needle = needle_exec(q.as_slice());
    let group_mode = needle.len() == 0;
    let mut out: Vec<SlashRow> = Vec::new();
    assert(rows_view(out@) =~= shown_rows(Seq::empty(), group_mode));
    match &state.slash_catalog {
        Some(catalog) => {
            let mut i: usize = 0;
            while i < catalog.len()
                invariant
                    i <= catalog@.len(),
                    group_mode == (needle@.len() == 0),
                    rows_view(out@) == shown_rows(catalog_rows(catalog@.take(i as int), needle@), group_mode),
                decreases catalog@.len() - i,
            {
                let m = &catalog[i];
                assert(catalog@.take(i + 1).drop_last() =~= catalog@.take(i as int));
                if crate::overlay::matches_query(m.cmd.as_str(), needle.as_slice()) {
                    let mut name = String::new();
                    push_char(&mut name, '/');
                    push_str(&mut name, m.cmd.as_str());
                    let row = SlashRow {
                        name,
                        desc: m.summary.clone(),
                        args_hint: copy_opt(&m.args_hint),
                        aliases: clone_strings(&m.aliases),
                        group: copy_opt(&m.group),
                        header_above: false,
                    };
                    assert(row@ =~= row_of(*m));
                    push_row(&mut out, row, group_mode, Ghost(catalog_rows(catalog@.take(i as int), needle@)));
                }
                i += 1;
            }
            assert(catalog@.take(catalog@.len() as int) =~= catalog@);
        },
        None => {
            let fb = fallback_rows_exec();
            proof {
                reveal_strlit("/clear");
                reveal_strlit("/compact");
                reveal_strlit("/help");
            }
            let mut i: usize = 0;
            while i < fb.len()
                invariant
                    i <= fb@.len(),
                    group_mode == (needle@.len() == 0),
                    rows_view(fb@) == fallback_rows(),
                    forall|k: int| 0 <= k < 3 ==> #[trigger] fallback_rows()[k].name.len() >= 1,
                    rows_view(out@) == shown_rows(fallback_matching(fallback_rows().take(i as int), needle@), group_mode),
                decreases fb@.len() - i,
            {
                assert(fallback_rows().take(i + 1).drop_last() =~= fallback_rows().take(i as int));
                assert(fb@[i as int]@ == fallback_rows()[i as int]);
                assert(fallback_rows()[i as int].name.len() >= 1);
                let cs = chars_of(fb[i].name.as_str());
                let bare = crate::text::string_from_range(cs.as_slice(), 1, cs.len());
                assert(cs@.subrange(1, cs@.len() as int) =~= fallback_rows()[i as int].name.drop_first());
                if crate::overlay::matches_query(bare.as_str(), needle.as_slice()) {
                    let row = plain_row(fb[i].name.as_str(), fb[i].desc.as_str());
                    push_row(&mut out, row, group_mode, Ghost(fallback_matching(fallback_rows().take(i as int), needle@)));
                }
                i += 1;
            }
            assert(fallback_rows().take(3) =~= fallback_rows());
        },
    }
    out
}

/// Whether two optional strings are equal.
fn opt_str_eq(a: &Option<String>, b: &Option<String>) -> (r: bool)
    ensures
        r == (opt_view(*a) == opt_view(*b)),
{
    match (a, b) {
        (Some(x), Some(y)) => str_eq(x.as_str(), y.as_str()),
        (None, None) => true,
        _ => false,
    }
}

/// The description shown for a row: its description, then its aliases as
/// `/alias` after a dot when it has any.
pub open spec fn description_spec(r: RowV) -> Seq<char> {
    if r.aliases.len() == 0 {
        r.desc
    } else {
        r.desc + "  \u{b7} "@ + crate::approval::join(
            r.aliases.map_values(|a: Seq<char>| seq!['/'] + a),
            seq![' '],
        )
    }
}

/// The description shown for a row (see `description_spec`).
pub fn description_with_aliases(row: &SlashRow) -> (r: String)
    ensures
        r@ == description_spec(row@),
{
    let mut out = string_of(row.desc.as_str());
    if row.aliases.len() == 0 {
        return out;
    }
    push_str(&mut out, "  \u{b7} ");
    let ghost base = out@;
    let ghost parts = views(row.aliases@).map_values(|a: Seq<char>| seq!['/'] + a);
    let mut i: usize = 0;
    while i < row.aliases.len()
        invariant
            i <= row.aliases@.len(),
            row.aliases@.len() > 0,
            parts == views(row.aliases@).map_values(|a: Seq<char>| seq!['/'] + a),
            i > 0 ==> out@ == base + crate::approval::join(parts.take(i as int), seq![' ']),
            i == 0 ==> out@ == base,
        decreases row.aliases@.len() - i,
    {
        let ghost prev = out@;
        if i > 0 {
            push_char(&mut out, ' ');
        }
        push_char(&mut out, '/');
        push_str(&mut out, row.aliases[i].as_str());
        proof {
            let t = parts.take(i + 1);
            assert(t.drop_last() =~= parts.take(i as int));
            assert(t.last() == seq!['/'] + row.aliases@[i as int]@);
            if i == 0 {
                assert(t.len() == 1);
                assert(out@ =~= base + t[0]);
            } else {
                assert(out@ =~= prev + seq![' '] + t.last());
            }
        }
        i += 1;
    }
    assert(parts.take(row.aliases@.len() as int) =~= parts);
    out
}

/// The pieces of `s` that `str::split_inclusive(' ')` gives: each ends
/// with its space, but the last, which may not.
pub open spec fn words_of(s: Seq<char>) -> Seq<Seq<char>>
    decreases s.len(),
{
    if s.len() == 0 {
        Seq::empty()
    } else {
        let prev = words_of(s.drop_last());
        if prev.len() == 0 || prev.last().last() == ' ' {
            prev.push(seq![s.last()])
        } else {
            prev.update(prev.len() - 1, prev.last().push(s.last()))
        }
    }
}

proof fn lemma_words_nonempty(s: Seq<char>)
    ensures
        forall|k: int| 0 <= k < words_of(s).len() ==> #[trigger] words_of(s)[k].len() > 0,
        s.len() > 0 ==> words_of(s).len() > 0,
    decreases s.len(),
{
    if s.len() > 0 {
        lemma_words_nonempty(s.drop_last());
        let prev = words_of(s.drop_last());
        let cur = words_of(s);
        if prev.len() == 0 || prev.last().last() == ' ' {
            assert(cur == prev.push(seq![s.last()]));
            assert forall|k: int| 0 <= k < cur.len() implies #[trigger] cur[k].len() > 0 by {
                if k < prev.len() {
                    assert(cur[k] == prev[k]);
                }
            }
        } else {
            assert(cur == prev.update(prev.len() - 1, prev.last().push(s.last())));
            assert forall|k: int| 0 <= k < cur.len() implies #[trigger] cur[k].len() > 0 by {
                if k < prev.len() - 1 {
                    assert(cur[k] == prev[k]);
                }
            }
        }
    }
}

fn split_words(cs: &[char]) -> (r: Vec<Vec<char>>)
    ensures
        r@.map_values(|w: Vec<char>| w@) == words_of(cs@),
{
    let mut out: Vec<Vec<char>> = Vec::new();
    let mut cur: Vec<char> = Vec::new();
    let mut i: usize = 0;
    while i < cs.len()
        invariant
            i <= cs@.len(),
            i == 0 ==> out@.len() == 0 && cur@.len() == 0,
            i > 0 ==> cur@.len() > 0 && out@.map_values(|w: Vec<char>| w@).push(cur@) == words_of(cs@.take(i as int)),
        decreases cs@.len() - i,
    {
        let c = cs[i];
        assert(cs@.take(i + 1).drop_last() =~= cs@.take(i as int));
        let ghost ov = out@.map_values(|w: Vec<char>| w@);
        let ghost cv = cur@;
        if i > 0 && cur[cur.len() - 1] == ' ' {
            let mut done: Vec<char> = Vec::new();
            std::mem::swap(&mut done, &mut cur);
            out.push(done);
            assert(out@.map_values(|w: Vec<char>| w@) =~= ov.push(cv));
            cur.push(c);
            assert(out@.map_values(|w: Vec<char>| w@).push(cur@) =~= ov.push(cv).push(seq![c]));
        } else {
            cur.push(c);
            if i == 0 {
                assert(cs@.take(0) =~= Seq::<char>::empty());
                assert(words_of(cs@.take(0)) =~= Seq::<Seq<char>>::empty());
                assert(cs@.take(1).drop_last() =~= cs@.take(0));
                assert(words_of(cs@.take(1)) =~= seq![seq![c]]);
                assert(cur@ =~= seq![c]);
                assert(out@.map_values(|w: Vec<char>| w@) =~= Seq::<Seq<char>>::empty());
                assert(out@.map_values(|w: Vec<char>| w@).push(cur@) =~= seq![seq![c]]);
            } else {
                assert(out@.map_values(|w: Vec<char>| w@).push(cur@) =~= ov.push(cv).update(ov.len() as int, cv.push(c)));
            }
        }
        i += 1;
    }
    assert(cs@.take(cs@.len() as int) =~= cs@);
    if cur.len() > 0 {
        let ghost ov = out@.map_values(|w: Vec<char>| w@);
        let ghost cv = cur@;
        out.push(cur);
        assert(out@.map_values(|w: Vec<char>| w@) =~= ov.push(cv));
    } else {
        assert(out@.map_values(|w: Vec<char>| w@) =~= Seq::<Seq<char>>::empty());
    }
    out
}

/// The state of the word wrap: the finished lines, the current line and
/// its width.
#[verifier::ext_equal]
pub struct DescState {
    pub out: Seq<Seq<char>>,
    pub current: Seq<char>,
    pub cur_w: nat,
}

/// The current line is finished when `add` more columns would overflow `w`
/// and it holds something.
pub open spec fn desc_break(st: DescState, add: nat, w: nat) -> DescState {
    if st.cur_w + add > w && st.current.len() > 0 {
        DescState { out: st.out.push(st.current), current: Seq::empty(), cur_w: 0 }
    } else {
        st
    }
}

pub open spec fn desc_chars(st: DescState, cs: Seq<char>, w: nat) -> DescState
    decreases cs.len(),
{
    if cs.len() == 0 {
        st
    } else {
        let s1 = desc_break(desc_chars(st, cs.drop_last(), w), cw(cs.last()), w);
        DescState { current: s1.current.push(cs.last()), cur_w: s1.cur_w + cw(cs.last()), ..s1 }
    }
}

/// One word: it starts a new line when it does not fit; a word wider than
/// the whole line is broken between characters.
pub open spec fn desc_word(st: DescState, word: Seq<char>, w: nat) -> DescState {
    let ww = sum_width(word);
    let s1 = desc_break(st, ww, w);
    if ww > w {
        desc_chars(s1, word, w)
    } else {
        DescState { current: s1.current + word, cur_w: s1.cur_w + ww, ..s1 }
    }
}

pub open spec fn desc_words(words: Seq<Seq<char>>, w: nat) -> DescState
    decreases words.len(),
{
    if words.len() == 0 {
        DescState { out: Seq::empty(), current: Seq::empty(), cur_w: 0 }
    } else {
        desc_word(desc_words(words.drop_last(), w), words.last(), w)
    }
}

/// The lines of `text` wrapped at `width` columns (at least 1), breaking
/// after spaces: always at least one line.
pub open spec fn wrap_desc_spec(text: Seq<char>, width: nat) -> Seq<Seq<char>> {
    let w = if width == 0 {
        1
    } else {
        width
    };
    if text.len() == 0 {
        seq![Seq::<char>::empty()]
    } else {
        let st = desc_words(words_of(text), w);
        let out = if st.current.len() > 0 {
            st.out.push(st.current)
        } else {
            st.out
        };
        if out.len() == 0 {
            seq![Seq::<char>::empty()]
        } else {
            out
        }
    }
}

/// The text held by a wrap state: its finished lines, then its current line.
pub open spec fn desc_text(st: DescState) -> Seq<char> {
    flatten(st.out) + st.current
}

proof fn lemma_flatten_push(ls: Seq<Seq<char>>, l: Seq<char>)
    ensures
        flatten(ls.push(l)) == flatten(ls) + l,
{
    assert(ls.push(l).drop_last() =~= ls);
}

proof fn lemma_desc_break_text(st: DescState, add: nat, w: nat)
    ensures
        desc_text(desc_break(st, add, w)) == desc_text(st),
{
    if st.cur_w + add > w && st.current.len() > 0 {
        lemma_flatten_push(st.out, st.current);
        assert(desc_text(desc_break(st, add, w)) =~= desc_text(st));
    }
}

proof fn lemma_desc_chars_text(st: DescState, cs: Seq<char>, w: nat)
    ensures
        desc_text(desc_chars(st, cs, w)) == desc_text(st) + cs,
    decreases cs.len(),
{
    if cs.len() == 0 {
        assert(desc_text(st) + cs =~= desc_text(st));
    } else {
        lemma_desc_chars_text(st, cs.drop_last(), w);
        let inner = desc_chars(st, cs.drop_last(), w);
        let s1 = desc_break(inner, cw(cs.last()), w);
        lemma_desc_break_text(inner, cw(cs.last()), w);
        let s2 = desc_chars(st, cs, w);
        assert(s2.out == s1.out);
        assert(s2.current == s1.current.push(cs.last()));
        assert(desc_text(s2) =~= desc_text(s1).push(cs.last()));
        assert(cs =~= cs.drop_last().push(cs.last()));
        assert(desc_text(s2) =~= desc_text(st) + cs);
    }
}

proof fn lemma_desc_words_text(words: Seq<Seq<char>>, w: nat)
    ensures
        desc_text(desc_words(words, w)) == flatten(words),
    decreases words.len(),
{
    if words.len() == 0 {
        assert(desc_text(desc_words(words, w)) =~= flatten(words));
    } else {
        lemma_desc_words_text(words.drop_last(), w);
        let st = desc_words(words.drop_last(), w);
        let word = words.last();
        let s1 = desc_break(st, sum_width(word), w);
        lemma_desc_break_text(st, sum_width(word), w);
        if sum_width(word) > w {
            lemma_desc_chars_text(s1, word, w);
        } else {
            assert(desc_text(desc_word(st, word, w)) =~= desc_text(s1) + word);
        }
    }
}

proof fn lemma_words_flatten(s: Seq<char>)
    ensures
        flatten(words_of(s)) == s,
    decreases s.len(),
{
    if s.len() > 0 {
        lemma_words_flatten(s.drop_last());
        let prev = words_of(s.drop_last());
        if prev.len() == 0 || prev.last().last() == ' ' {
            lemma_flatten_push(prev, seq![s.last()]);
            assert(s =~= s.drop_last() + seq![s.last()]);
        } else {
            let c = s.last();
            let upd = prev.update(prev.len() - 1, prev.last().push(c));
            assert(upd.drop_last() =~= prev.drop_last());
            assert(upd.last() == prev.last().push(c));
            assert(flatten(upd) == flatten(upd.drop_last()) + upd.last());
            assert(flatten(prev) == flatten(prev.drop_last()) + prev.last());
            assert(flatten(prev.drop_last()) + prev.last().push(c) =~= (flatten(prev.drop_last()) + prev.last()).push(c));
            assert(flatten(upd) == flatten(prev).push(c));
            assert(s =~= s.drop_last().push(c));
        }
    }
}

/// Wrapping a description keeps its text: its lines put back together are
/// the description.
pub proof fn law_wrap_desc_keeps_text(text: Seq<char>, width: nat)
    ensures
        flatten(wrap_desc_spec(text, width)) == text,
{
    let w: nat = if width == 0 {
        1
    } else {
        width
    };
    if text.len() == 0 {
        let one = seq![Seq::<char>::empty()];
        assert(one.drop_last() =~= Seq::<Seq<char>>::empty());
        assert(flatten(one) == flatten(one.drop_last()) + one.last());
        assert(flatten(one) =~= Seq::<char>::empty());
        assert(text =~= Seq::<char>::empty());
    } else {
        let st = desc_words(words_of(text), w);
        lemma_desc_words_text(words_of(text), w);
        lemma_words_flatten(text);
        if st.current.len() > 0 {
            lemma_flatten_push(st.out, st.current);
        } else {
            assert(desc_text(st) =~= flatten(st.out));
        }
    }
}

pub open spec fn desc_state_of(out: Seq<String>, current: Seq<char>, cur_w: usize) -> DescState {
    DescState { out: views(out), current, cur_w: cur_w as nat }
}

/// The width of `cs`.
fn width_of(cs: &[char]) -> (r: u128)
    ensures
        r as nat == sum_width(cs@),
        r <= 3 * (usize::MAX as nat),
{
    let mut t: u128 = 0;
    let mut i: usize = 0;
    while i < cs.len()
        invariant
            i <= cs@.len(),
            t as nat == sum_width(cs@.take(i as int)),
            t <= 3 * i,
            i <= usize::MAX,
        decreases cs@.len() - i,
    {
        assert(cs@.take(i + 1).drop_last() =~= cs@.take(i as int));
        t = t + char_width_or_zero(cs[i]) as u128;
        i += 1;
    }
    assert(cs@.take(cs@.len() as int) =~= cs@);
    t
}

/// `text` wrapped at `width` columns after spaces (see `wrap_desc_spec`).
pub fn wrap_desc(text: &str, width: usize) -> (r: Vec<String>)
    ensures
        views(r@) == wrap_desc_spec(text@, width as nat),
{
    let w: usize = if width == 0 {
        1
    } else {
        width
    };
    let cs = chars_of(text);
    if cs.len() == 0 {
        let mut v: Vec<String> = Vec::new();
        v.push(String::new());
        assert(views(v@) =~= seq![Seq::<char>::empty()]);
        return v;
    }
    let words = split_words(cs.as_slice());
    let ghost wv = words@.map_values(|x: Vec<char>| x@);
    let mut out: Vec<String> = Vec::new();
    let mut current: Vec<char> = Vec::new();
    let mut cur_w: usize = 0;
    let mut i: usize = 0;
    assert(desc_state_of(out@, current@, cur_w) =~= desc_words(wv.take(0), w as nat));
    while i < words.len()
        invariant
            i <= words@.len(),
            1 <= w,
            wv == words@.map_values(|x: Vec<char>| x@),
            wv == words_of(cs@),
            cur_w <= w + 3,
            w == (if width == 0 { 1 } else { width }),
            current@.len() == 0 ==> cur_w == 0,
            desc_state_of(out@, current@, cur_w) == desc_words(wv.take(i as int), w as nat),
        decreases words@.len() - i,
    {
        let word = &words[i];
        assert(wv[i as int] == word@);
        let ww = width_of(word.as_slice());
        let ghost st0 = desc_state_of(out@, current@, cur_w);
        assert(wv.take(i + 1).drop_last() =~= wv.take(i as int));
        if (cur_w as u128) + ww > w as u128 && current.len() > 0 {
            let ghost ov = views(out@);
            let line = string_from_chars(current.as_slice());
            out.push(line);
            assert(views(out@) =~= ov.push(current@));
            current = Vec::new();
            cur_w = 0;
        }
        let ghost st1 = desc_state_of(out@, current@, cur_w);
        assert(st1 == desc_break(st0, sum_width(word@), w as nat));
        if ww > w as u128 {
            let mut j: usize = 0;
            assert(word@.take(0) =~= Seq::<char>::empty());
            while j < word.len()
                invariant
                    j <= word@.len(),
                    1 <= w,
                    cur_w <= w + 3,
                    current@.len() == 0 ==> cur_w == 0,
                    desc_state_of(out@, current@, cur_w) == desc_chars(st1, word@.take(j as int), w as nat),
                decreases word@.len() - j,
            {
                let ch = word[j];
                let c = char_width_or_zero(ch);
                assert(word@.take(j + 1).drop_last() =~= word@.take(j as int));
                let ghost s0 = desc_state_of(out@, current@, cur_w);
                if (cur_w > w || c > w - cur_w) && current.len() > 0 {
                    let ghost ov = views(out@);
                    let line = string_from_chars(current.as_slice());
                    out.push(line);
                    assert(views(out@) =~= ov.push(current@));
                    current = Vec::new();
                    cur_w = 0;
                }
                assert(desc_state_of(out@, current@, cur_w) == desc_break(s0, cw(ch), w as nat));
                current.push(ch);
                cur_w = cur_w + c;
                j += 1;
            }
            assert(word@.take(word@.len() as int) =~= word@);
        } else {
            let ghost cb = current@;
            let mut j: usize = 0;
            while j < word.len()
                invariant
                    j <= word@.len(),
                    current@ == cb + word@.take(j as int),
                decreases word@.len() - j,
            {
                current.push(word[j]);
                assert(word@.take(j + 1) =~= word@.take(j as int).push(word@[j as int]));
                j += 1;
            }
            assert(word@.take(word@.len() as int) =~= word@);
            cur_w = cur_w + ww as usize;
            proof {
                lemma_words_nonempty(cs@);
                assert(wv[i as int].len() > 0);
            }
        }
        i += 1;
    }
    assert(wv.take(words@.len() as int) =~= wv);
    if current.len() > 0 {
        let ghost ov = views(out@);
        let line = string_from_chars(current.as_slice());
        out.push(line);
        assert(views(out@) =~= ov.push(current@));
    }
    if out.len() == 0 {
        out.push(String::new());
        assert(views(out@) =~= seq![Seq::<char>::empty()]);
    }
    out
}

/// How many rows a row takes: one for its group header, and one, or the
/// lines of its wrapped description when it is selected.
pub open spec fn row_height_spec(r: RowV, desc_w: nat, selected: bool) -> nat {
    (if r.header_above {
        1nat
    } else {
        0nat
    }) + if !selected {
        1nat
    } else {
        let n = wrap_desc_spec(description_spec(r), desc_w).len();
        if n == 0 {
            1nat
        } else {
            n
        }
    }
}

/// How many rows `row` takes (see `row_height_spec`).
pub fn row_visual_height(row: &SlashRow, desc_w: u16, selected: bool) -> (r: usize)
    ensures
        r == min_nat(row_height_spec(row@, desc_w as nat, selected), usize::MAX as nat),
{
    let header: usize = if row.header_above {
        1
    } else {
        0
    };
    if !selected {
        return header + 1;
    }
    let desc = description_with_aliases(row);
    let n = wrap_desc(desc.as_str(), desc_w as usize).len();
    let lines: usize = if n == 0 {
        1
    } else {
        n
    };
    header.saturating_add(lines)
}

/// Where the columns of the popup start, and how wide the description is.
#[derive(Clone, Copy, Debug, PartialEq, Eq, Structural)]
pub struct ColumnLayout {
    pub name_col_off: u16,
    pub args_col_off: u16,
    pub desc_col_off: u16,
    pub desc_w: u16,
}

/// The widest name, if there is a row.
pub open spec fn widest_name(rows: Seq<RowV>) -> Option<nat>
    decreases rows.len(),
{
    if rows.len() == 0 {
        None
    } else {
        let w = str_width_of(rows.last().name);
        match widest_name(rows.drop_last()) {
            Some(m) => Some(if m >= w {
                m
            } else {
                w
            }),
            None => Some(w),
        }
    }
}

/// The widest argument hint (0 without any).
pub open spec fn widest_hint(rows: Seq<RowV>) -> nat
    decreases rows.len(),
{
    if rows.len() == 0 {
        0
    } else {
        let w = match rows.last().args_hint {
            Some(h) => str_width_of(h),
            None => 0,
        };
        let m = widest_hint(rows.drop_last());
        if m >= w {
            m
        } else {
            w
        }
    }
}

pub open spec fn min_nat(a: nat, b: nat) -> nat {
    if a <= b {
        a
    } else {
        b
    }
}

/// The column layout for rows whose widest name is `name_max` columns and
/// widest hint `hint_max`, in a popup `popup_w` wide. Names start at column
/// 4 and take at most 22 columns, hints at most 28, each followed by a gap
/// of 2; the description gets the rest up to 2 columns before the right
/// edge. When that leaves it fewer than 25 columns, names and hints share
/// what remains after 25 description columns, in proportion to their
/// widths, and the description gets at least 10.
pub open spec fn columns_spec(name_max: Option<nat>, hint_max: nat, popup_w: nat) -> ColumnLayout {
    let raw_name = min_nat(((match name_max {
        Some(m) => m,
        None => 8,
    }) as u16) as nat, 22);
    let raw_args = min_nat((hint_max as u16) as nat, 28);
    let right = minus_n(popup_w, 2);
    let want_args = 4 + raw_name + 2;
    let want_desc = if raw_args > 0 {
        want_args + raw_args + 2
    } else {
        want_args
    };
    if right >= want_desc + 25 {
        ColumnLayout {
            name_col_off: 4,
            args_col_off: want_args as u16,
            desc_col_off: want_desc as u16,
            desc_w: (right - want_desc) as u16,
        }
    } else {
        let gap_args: nat = if raw_args > 0 {
            2
        } else {
            0
        };
        let budget = minus_n(minus_n(minus_n(right, 4), 25), 2 + gap_args);
        let total = raw_name + raw_args;
        let name_w = if total > 0 {
            budget * raw_name / total
        } else {
            budget
        };
        let args_w = minus_n(budget, name_w);
        let args_off = 4 + name_w + 2;
        let desc_off = if args_w > 0 {
            args_off + args_w + gap_args
        } else {
            args_off
        };
        let dw = minus_n(right, desc_off);
        ColumnLayout {
            name_col_off: 4,
            args_col_off: args_off as u16,
            desc_col_off: desc_off as u16,
            desc_w: (if dw < 10 {
                10
            } else {
                dw
            }) as u16,
        }
    }
}

pub open spec fn minus_n(a: nat, b: nat) -> nat {
    if a >= b {
        (a - b) as nat
    } else {
        0
    }
}

/// The column layout of `rows` in a popup `popup_w` wide (see
/// `columns_spec`).
pub fn compute_columns(rows: &[SlashRow], popup_w: u16) -> (r: ColumnLayout)
    ensures
        r == columns_spec(widest_name(rows_view(rows@)), widest_hint(rows_view(rows@)), popup_w as nat),
{
    let ghost rv = rows_view(rows@);
    let mut name_max: Option<usize> = None;
    let mut hint_max: usize = 0;
    let mut i: usize = 0;
    while i < rows.len()
        invariant
            i <= rows@.len(),
            rv == rows_view(rows@),
            match name_max {
                Some(m) => widest_name(rv.take(i as int)) == Some(m as nat),
                None => widest_name(rv.take(i as int)) is None,
            },
            hint_max == widest_hint(rv.take(i as int)),
        decreases rows@.len() - i,
    {
        assert(rv.take(i + 1).drop_last() =~= rv.take(i as int));
        let w = str_width(rows[i].name.as_str());
        name_max = match name_max {
            Some(m) => Some(if m >= w {
                m
            } else {
                w
            }),
            None => Some(w),
        };
        let h: usize = match &rows[i].args_hint {
            Some(a) => str_width(a.as_str()),
            None => 0,
        };
        if h > hint_max {
            hint_max = h;
        }
        i += 1;
    }
    assert(rv.take(rows@.len() as int) =~= rv);
    columns_for(name_max, hint_max, popup_w)
}

/// The column layout from the widest name and hint (see `columns_spec`).
fn columns_for(name_max: Option<usize>, hint_max: usize, popup_w: u16) -> (r: ColumnLayout)
    ensures
        r == columns_spec(
            match name_max {
                Some(m) => Some(m as nat),
                None => None,
            },
            hint_max as nat,
            popup_w as nat,
        ),
{
    let nm: usize = match name_max {
        Some(m) => m,
        None => 8,
    };
    let raw_name: u16 = if (nm as u16) < 22 {
        nm as u16
    } else {
        22
    };
    let raw_args: u16 = if (hint_max as u16) < 28 {
        hint_max as u16
    } else {
        28
    };
    let right: u16 = if popup_w >= 2 {
        popup_w - 2
    } else {
        0
    };
    let want_args: u16 = 4 + raw_name + 2;
    let want_desc: u16 = if raw_args > 0 {
        want_args + raw_args + 2
    } else {
        want_args
    };
    if right >= want_desc + 25 {
        return ColumnLayout {
            name_col_off: 4,
            args_col_off: want_args,
            desc_col_off: want_desc,
            desc_w: right - want_desc,
        };
    }
    let gap_args: u16 = if raw_args > 0 {
        2
    } else {
        0
    };
    let b1: u16 = if right >= 4 {
        right - 4
    } else {
        0
    };
    let b2: u16 = if b1 >= 25 {
        b1 - 25
    } else {
        0
    };
    let gaps: u16 = 2 + gap_args;
    let budget: u16 = if b2 >= gaps {
        b2 - gaps
    } else {
        0
    };
    let total: u16 = raw_name + raw_args;
    let name_w: u16 = if total > 0 {
        assert(budget as int * raw_name as int <= 65535 * 22) by (nonlinear_arith)
            requires
                budget <= 65535,
                raw_name <= 22;
        let prod: u32 = budget as u32 * raw_name as u32;
        let q: u32 = prod / total as u32;
        proof {
            let bb = budget as int;
            let rn = raw_name as int;
            let tt = total as int;
            assert(bb * rn <= bb * tt) by (nonlinear_arith)
                requires
                    rn <= tt,
                    bb >= 0;
            assert((bb * rn) / tt <= bb) by (nonlinear_arith)
                requires
                    bb * rn <= bb * tt,
                    tt > 0,
                    bb >= 0,
                    rn >= 0;
        }
        q as u16
    } else {
        budget
    };
    let args_w: u16 = budget - name_w;
    let args_off: u16 = 4 + name_w + 2;
    let desc_off: u16 = if args_w > 0 {
        args_off + args_w + gap_args
    } else {
        args_off
    };
    let dw: u16 = if right >= desc_off {
        right - desc_off
    } else {
        0
    };
    ColumnLayout {
        name_col_off: 4,
        args_col_off: args_off,
        desc_col_off: desc_off,
        desc_w: if dw < 10 {
            10
        } else {
            dw
        },
    }
}

/// Sum of `h[s..e]`.
pub open spec fn range_sum(h: Seq<usize>, s: int, e: int) -> nat
    decreases e - s,
{
    if e <= s {
        0
    } else {
        range_sum(h, s, e - 1) + (h[e - 1] as nat)
    }
}

/// One growth of the window `[s, e)` holding `used` rows: the row below
/// when it fits in `cap`, else the row above when it fits, else none.
pub open spec fn grow_once(h: Seq<usize>, s: nat, e: nat, used: nat, cap: nat) -> Option<(nat, nat, nat)> {
    if e < h.len() && used + h[e as int] <= cap {
        Some((s, e + 1, used + (h[e as int] as nat)))
    } else if s > 0 && used + h[s - 1] <= cap {
        Some(((s - 1) as nat, e, used + (h[s - 1] as nat)))
    } else {
        None
    }
}

/// The window grown while it holds fewer than `cap` rows and can grow.
pub open spec fn grow_from(h: Seq<usize>, s: nat, e: nat, used: nat, cap: nat, fuel: nat) -> (nat, nat, nat)
    decreases fuel,
{
    if fuel == 0 || used >= cap {
        (s, e, used)
    } else {
        match grow_once(h, s, e, used, cap) {
            Some(t) => grow_from(h, t.0, t.1, t.2, cap, (fuel - 1) as nat),
            None => (s, e, used),
        }
    }
}

/// The window of rows shown around the selected row `sel`: it starts as
/// that row alone and grows, preferring the row below, while the rows fit
/// in `cap`.
pub open spec fn window_spec(h: Seq<usize>, sel: nat, cap: nat) -> (nat, nat, nat) {
    grow_from(h, sel, sel + 1, h[sel as int] as nat, cap, h.len())
}

proof fn lemma_range_sum_shift(h: Seq<usize>, s: int, e: int)
    requires
        0 < s <= e <= h.len(),
    ensures
        range_sum(h, s - 1, e) == h[s - 1] + range_sum(h, s, e),
    decreases e - s,
{
    if e > s {
        lemma_range_sum_shift(h, s, e - 1);
        assert(range_sum(h, s - 1, e) == range_sum(h, s - 1, e - 1) + (h[e - 1] as nat));
        assert(range_sum(h, s, e) == range_sum(h, s, e - 1) + (h[e - 1] as nat));
    } else {
        assert(range_sum(h, s - 1, e) == range_sum(h, s - 1, s - 1) + (h[s - 1] as nat));
    }
}

/// The window of rows `[start, end)` shown around row `selected` and the
/// rows it takes (see `window_spec`): it holds the selected row, and it
/// stays within `cap` rows unless that row alone is taller.
pub fn slash_window(heights: &[usize], selected: usize, cap: usize) -> (r: (usize, usize, usize))
    requires
        selected < heights@.len(),
    ensures
        (r.0 as nat, r.1 as nat, r.2 as nat) == window_spec(heights@, selected as nat, cap as nat),
        r.0 <= selected < r.1 <= heights@.len(),
        r.2 == range_sum(heights@, r.0 as int, r.1 as int),
        r.2 <= cap || (r.0 == selected && r.1 == selected + 1),
{
    let n = heights.len();
    let mut start = selected;
    let mut end = selected + 1;
    let mut used = heights[selected];
    let mut fuel: usize = n;
    assert(range_sum(heights@, selected as int, selected + 1) == heights@[selected as int]) by {
        assert(range_sum(heights@, selected as int, selected as int) == 0);
    }
    while fuel > 0 && used < cap
        invariant
            n == heights@.len(),
            start <= selected < end <= n,
            used == range_sum(heights@, start as int, end as int),
            used <= cap || (start == selected && end == selected + 1),
            grow_from(heights@, start as nat, end as nat, used as nat, cap as nat, fuel as nat)
                == window_spec(heights@, selected as nat, cap as nat),
        decreases fuel,
    {
        if end < n && heights[end] <= cap - used {
            assert(range_sum(heights@, start as int, end + 1) == range_sum(heights@, start as int, end as int) + (heights@[end as int] as nat));
            used = used + heights[end];
            end = end + 1;
            fuel = fuel - 1;
        } else if start > 0 && heights[start - 1] <= cap - used {
            proof {
                lemma_range_sum_shift(heights@, start as int, end as int);
            }
            used = used + heights[start - 1];
            start = start - 1;
            fuel = fuel - 1;
        } else {
            assert(grow_once(heights@, start as nat, end as nat, used as nat, cap as nat) is None);
            fuel = 0;
        }
    }
    (start, end, used)
}

/// Where and how the slash popup is drawn.
#[derive(Clone, Copy, Debug, PartialEq, Eq, Structural)]
pub struct SlashPopup {
    pub x: u16,
    pub y: u16,
    pub w: u16,
    pub h: u16,
    pub layout: ColumnLayout,
    /// The selected row.
    pub selected: usize,
    /// The rows `[start, end)` are shown.
    pub start: usize,
    pub end: usize,
}

/// The rows each row takes, the selected one with its description wrapped.
pub open spec fn heights_spec(rows: Seq<RowV>, desc_w: nat, sel: nat) -> Seq<usize> {
    Seq::new(rows.len(), |i: int| min_nat(row_height_spec(rows[i], desc_w, i == sel), usize::MAX as nat) as usize)
}

/// The slash popup over a dock at (`dock_x`, `dock_y`) `dock_w` wide, for
/// `rows` with row `sel_idx` selected (the last when it is past the end):
/// at most 140 columns and 4 narrower than the dock, two columns in, ending
/// just above the dock; a border, a header and the window of rows that
/// fits in the space above the dock (between 1 and 24 rows, three taken by
/// the frame). None without rows, when narrower than 40 columns, or when
/// it does not fit above the dock.
pub open spec fn slash_popup_spec(dock_x: nat, dock_y: nat, dock_w: nat, rows: Seq<RowV>, sel_idx: nat) -> Option<SlashPopup> {
    let total = rows.len();
    let sel = min_nat(sel_idx, minus_n(total, 1));
    let pw = min_nat(minus_n(dock_w, 4), 140);
    let layout = columns_spec(widest_name(rows), widest_hint(rows), pw);
    let heights = heights_spec(rows, layout.desc_w as nat, sel);
    let avail = minus_n(dock_y, 3);
    let maxr: nat = if avail < 1 {
        1
    } else if avail > 24 {
        24
    } else {
        avail
    };
    let win = window_spec(heights, sel, maxr);
    let visible = min_nat(range_sum(heights, win.0 as int, win.1 as int), maxr);
    let ph = 3 + visible;
    if total == 0 || pw < 40 || ph > dock_y {
        None
    } else {
        Some(SlashPopup {
            x: (dock_x + 2) as u16,
            y: (dock_y - ph) as u16,
            w: pw as u16,
            h: ph as u16,
            layout,
            selected: sel as usize,
            start: win.0 as usize,
            end: win.1 as usize,
        })
    }
}

/// The slash popup (see `slash_popup_spec`).
pub fn slash_popup(dock_x: u16, dock_y: u16, dock_w: u16, rows: &[SlashRow], selected_idx: usize) -> (r: Option<SlashPopup>)
    requires
        dock_x <= u16::MAX - 2,
    ensures
        r == slash_popup_spec(dock_x as nat, dock_y as nat, dock_w as nat, rows_view(rows@), selected_idx as nat),
{
    let ghost rv = rows_view(rows@);
    let total = rows.len();
    if total == 0 {
        return None;
    }
    let sel = if selected_idx < total - 1 {
        selected_idx
    } else {
        total - 1
    };
    let narrowed: u16 = if dock_w >= 4 {
        dock_w - 4
    } else {
        0
    };
    let pw: u16 = if narrowed < 140 {
        narrowed
    } else {
        140
    };
    if pw < 40 {
        return None;
    }
    let layout = compute_columns(rows, pw);
    let mut heights: Vec<usize> = Vec::new();
    let ghost hs = heights_spec(rv, layout.desc_w as nat, sel as nat);
    let mut i: usize = 0;
    while i < total
        invariant
            i <= total == rows@.len() == rv.len(),
            rv == rows_view(rows@),
            hs == heights_spec(rv, layout.desc_w as nat, sel as nat),
            heights@ == hs.take(i as int),
        decreases total - i,
    {
        let h = row_visual_height(&rows[i], layout.desc_w, i == sel);
        heights.push(h);
        assert(heights@ =~= hs.take(i + 1));
        i += 1;
    }
    assert(hs.take(total as int) =~= hs);
    let avail: usize = if dock_y >= 3 {
        (dock_y - 3) as usize
    } else {
        0
    };
    let maxr: usize = if avail < 1 {
        1
    } else if avail > 24 {
        24
    } else {
        avail
    };
    let (start, end, used) = slash_window(heights.as_slice(), sel, maxr);
    let visible: u16 = if used < maxr {
        used as u16
    } else {
        maxr as u16
    };
    let ph: u16 = 3 + visible;
    if ph > dock_y {
        return None;
    }
    Some(SlashPopup {
        x: dock_x + 2,
        y: dock_y - ph,
        w: pw,
        h: ph,
        layout,
        selected: sel,
        start,
        end,
    })
}

/// The popup shown when no command matches, as (x, y, width, height): at
/// most 80 columns, 4 narrower than the dock, 3 rows just above it; none
/// when narrower than 30 columns or when it does not fit.
pub fn no_match_popup(dock_x: u16, dock_y: u16, dock_w: u16) -> (r: Option<(u16, u16, u16, u16)>)
    requires
        dock_x <= u16::MAX - 2,
    ensures
        r == (if min_nat(minus_n(dock_w as nat, 4), 80) < 30 || dock_y < 3 {
            None
        } else {
            Some(((dock_x + 2) as u16, (dock_y - 3) as u16, min_nat(minus_n(dock_w as nat, 4), 80) as u16, 3u16))
        }),
{
    let narrowed: u16 = if dock_w >= 4 {
        dock_w - 4
    } else {
        0
    };
    let pw: u16 = if narrowed < 80 {
        narrowed
    } else {
        80
    };
    if pw < 30 || dock_y < 3 {
        return None;
    }
    Some((dock_x + 2, dock_y - 3, pw, 3))
}

/// The message of the no-match popup.
pub fn no_match_message(query: &str) -> (r: String)
    ensures
        r@ == "no command matches '"@ + query@ + "'"@,
{
    let mut s = String::new();
    push_str(&mut s, "no command matches '");
    push_str(&mut s, query);
    push_str(&mut s, "'");
    s
}

/// The position shown in a popup's header: `"  <total> <noun>"` when all
/// rows show, else `"  <first>-<last>/<total>"` of the window.
pub open spec fn position_spec(total: nat, start: nat, visible: nat, noun: Seq<char>) -> Seq<char> {
    if total <= visible {
        "  "@ + decimal(total) + seq![' '] + noun
    } else {
        "  "@ + decimal(start + 1) + seq!['-'] + decimal(min_nat(start + visible, total)) + seq!['/'] + decimal(total)
    }
}

/// The position shown in a popup's header (see `position_spec`).
pub fn position_text(total: usize, start: usize, visible: usize, noun: &str) -> (r: String)
    requires
        start < usize::MAX,
    ensures
        r@ == position_spec(total as nat, start as nat, visible as nat, noun@),
{
    let mut s = String::new();
    push_str(&mut s, "  ");
    if total <= visible {
        push_decimal(&mut s, total as u64);
        push_char(&mut s, ' ');
        push_str(&mut s, noun);
    } else {
        push_decimal(&mut s, (start + 1) as u64);
        push_char(&mut s, '-');
        let end: usize = if start <= total && visible <= total - start {
            start + visible
        } else {
            total
        };
        push_decimal(&mut s, end as u64);
        push_char(&mut s, '/');
        push_decimal(&mut s, total as u64);
    }
    assert(s@ =~= position_spec(total as nat, start as nat, visible as nat, noun@));
    s
}

/// The header label of a command group.
pub open spec fn group_label_spec(group: Seq<char>) -> Seq<char> {
    if group == "setup"@ {
        "SETUP"@
    } else if group == "info"@ {
        "INFO"@
    } else if group == "chat"@ {
        "CHAT"@
    } else if group == "extend"@ {
        "EXTEND"@
    } else if group == "session"@ {
        "SESSION"@
    } else if group == "code"@ {
        "CODE"@
    } else if group == "jobs"@ {
        "JOBS"@
    } else if group == "advanced"@ {
        "ADVANCED"@
    } else {
        "OTHER"@
    }
}

/// The header label of a command group (see `group_label_spec`).
pub fn group_label(group: &str) -> (r: &'static str)
    ensures
        r@ == group_label_spec(group@),
{
    if str_eq(group, "setup") {
        "SETUP"
    } else if str_eq(group, "info") {
        "INFO"
    } else if str_eq(group, "chat") {
        "CHAT"
    } else if str_eq(group, "extend") {
        "EXTEND"
    } else if str_eq(group, "session") {
        "SESSION"
    } else if str_eq(group, "code") {
        "CODE"
    } else if str_eq(group, "jobs") {
        "JOBS"
    } else if str_eq(group, "advanced") {
        "ADVANCED"
    } else {
        "OTHER"
    }
}

/// The characters of `cs` that fit in `budget` columns after `used`.
pub open spec fn fit_prefix(cs: Seq<char>, used: nat, budget: nat) -> Seq<char>
    decreases cs.len(),
{
    if cs.len() == 0 || used + cw(cs[0]) > budget {
        Seq::empty()
    } else {
        seq![cs[0]] + fit_prefix(cs.drop_first(), used + cw(cs[0]), budget)
    }
}

/// `text` when it fits in `width` columns (at least 1), else its head that
/// fits in one column less and an ellipsis.
pub open spec fn clip_ellipsis_spec(text: Seq<char>, width: nat) -> Seq<char> {
    let w = if width == 0 {
        1
    } else {
        width
    };
    if sum_width(text) <= w {
        text
    } else {
        fit_prefix(text, 0, (w - 1) as nat) + seq!['\u{2026}']
    }
}

/// `text` clipped to `width` columns with an ellipsis (see
/// `clip_ellipsis_spec`).
pub fn clip_with_ellipsis(text: &str, width: usize) -> (r: String)
    ensures
        r@ == clip_ellipsis_spec(text@, width as nat),
{
    let w: usize = if width == 0 {
        1
    } else {
        width
    };
    let cs = chars_of(text);
    let total = width_of(cs.as_slice());
    if total <= w as u128 {
        return string_of(text);
    }
    let budget = w - 1;
    let mut out = String::new();
    let mut used: usize = 0;
    let mut i: usize = 0;
    assert(cs@.skip(0) =~= cs@);
    assert(out@ + fit_prefix(cs@.skip(0), 0, budget as nat) =~= fit_prefix(cs@, 0, budget as nat));
    let mut done = false;
    while i < cs.len() && !done
        invariant
            i <= cs@.len(),
            used <= budget,
            !done ==> out@ + fit_prefix(cs@.skip(i as int), used as nat, budget as nat) == fit_prefix(cs@, 0, budget as nat),
            done ==> out@ == fit_prefix(cs@, 0, budget as nat),
        decreases cs@.len() - i,
    {
        let c = char_width_or_zero(cs[i]);
        assert(cs@.skip(i as int)[0] == cs@[i as int]);
        assert(cs@.skip(i as int).drop_first() =~= cs@.skip(i + 1));
        if c > budget - used {
            assert(out@ + Seq::<char>::empty() =~= out@);
            done = true;
        } else {
            let ghost before = out@;
            push_char(&mut out, cs[i]);
            assert(before + fit_prefix(cs@.skip(i as int), used as nat, budget as nat) =~= out@ + fit_prefix(cs@.skip(i + 1), (used + c) as nat, budget as nat));
            used = used + c;
        }
        i += 1;
    }
    if !done {
        assert(cs@.skip(i as int) =~= Seq::<char>::empty());
        assert(out@ + Seq::<char>::empty() =~= out@);
    }
    push_char(&mut out, '\u{2026}');
    out
}

/// The columns left for a row's name and its argument hint, one short of
/// the next column.
pub fn column_budgets(layout: ColumnLayout) -> (r: (usize, usize))
    ensures
        r.0 as nat == minus_n(layout.args_col_off as nat, layout.name_col_off as nat + 1),
        r.1 as nat == minus_n(layout.desc_col_off as nat, layout.args_col_off as nat + 1),
{
    let a: usize = if layout.args_col_off as usize >= layout.name_col_off as usize + 1 {
        layout.args_col_off as usize - (layout.name_col_off as usize + 1)
    } else {
        0
    };
    let b: usize = if layout.desc_col_off as usize >= layout.args_col_off as usize + 1 {
        layout.desc_col_off as usize - (layout.args_col_off as usize + 1)
    } else {
        0
    };
    (a, b)
}

/// The part of a shown name after what was typed, drawn dimmer: when the
/// name starts with the query and was not cut.
pub open spec fn typed_suffix_spec(name: Seq<char>, query: Seq<char>) -> Option<Seq<char>> {
    if crate::text::is_prefix(query, name) && !(name.len() > 0 && name.last() == '\u{2026}') {
        Some(name.skip(query.len() as int))
    } else {
        None
    }
}

/// The part of a shown name after what was typed (see `typed_suffix_spec`).
pub fn typed_suffix(name: &str, query: &str) -> (r: Option<String>)
    ensures
        match r {
            Some(t) => typed_suffix_spec(name@, query@) == Some(t@),
            None => typed_suffix_spec(name@, query@) is None,
        },
{
    let nc = chars_of(name);
    let qc = chars_of(query);
    if crate::text::starts_with(nc.as_slice(), qc.as_slice()) && !(nc.len() > 0 && nc[nc.len() - 1] == '\u{2026}') {
        let t = crate::text::string_from_range(nc.as_slice(), qc.len(), nc.len());
        assert(nc@.subrange(qc@.len() as int, nc@.len() as int) =~= nc@.skip(qc@.len() as int));
        Some(t)
    } else {
        None
    }
}

/// The part of an argument value after what was typed, case ignored: none
/// when nothing was typed or the value does not start with it.
pub open spec fn arg_suffix_spec(value: Seq<char>, partial: Seq<char>) -> Option<Seq<char>> {
    if partial.len() > 0 && crate::text::is_prefix(crate::text::lowercase(partial), crate::text::lowercase(value)) {
        Some(if partial.len() <= value.len() {
            value.skip(partial.len() as int)
        } else {
            Seq::empty()
        })
    } else {
        None
    }
}

/// The part of an argument value after what was typed (see
/// `arg_suffix_spec`).
pub fn arg_suffix(value: &str, partial: &str) -> (r: Option<String>)
    ensures
        match r {
            Some(t) => arg_suffix_spec(value@, partial@) == Some(t@),
            None => arg_suffix_spec(value@, partial@) is None,
        },
{
    let pc = chars_of(partial);
    if pc.len() == 0 {
        return None;
    }
    let lv = crate::text::to_lowercase(value);
    let lp = crate::text::to_lowercase(partial);
    if crate::text::starts_with(chars_of(lv.as_str()).as_slice(), chars_of(lp.as_str()).as_slice()) {
        let vc = chars_of(value);
        let k = if pc.len() < vc.len() {
            pc.len()
        } else {
            vc.len()
        };
        let t = crate::text::string_from_range(vc.as_slice(), k, vc.len());
        assert(vc@.subrange(k as int, vc@.len() as int) =~= (if pc@.len() <= vc@.len() {
            vc@.skip(pc@.len() as int)
        } else {
            Seq::<char>::empty()
        }));
        Some(t)
    } else {
        None
    }
}

/// Where the argument popup is drawn.
#[derive(Clone, Copy, Debug, PartialEq, Eq, Structural)]
pub struct ArgPopup {
    pub x: u16,
    pub y: u16,
    pub w: u16,
    pub h: u16,
    pub selected: usize,
    /// The values `[start, start + visible)` are shown.
    pub start: usize,
    pub visible: usize,
}

/// The argument popup for `count` values, the widest `value_w` columns,
/// under a header `header_w` wide, over a dock at (`dock_x`, `dock_y`)
/// `dock_w` wide: wide enough for the header and the values with a margin,
/// at most 4 narrower than the dock; up to 10 rows that fit above the dock;
/// the window ending at the selected value. None without values, when
/// narrower than 12 columns, or when it does not fit.
pub open spec fn arg_popup_spec(dock_x: nat, dock_y: nat, dock_w: nat, header_w: nat, value_w: nat, count: nat, sel_idx: nat) -> Option<ArgPopup> {
    let want = if header_w >= value_w + 4 {
        header_w
    } else {
        value_w + 4
    };
    let pw = min_nat(min_nat((want as u16) as nat + 4, 65535), minus_n(dock_w, 4));
    let avail = minus_n(dock_y, 3);
    let cap: nat = if avail < 1 {
        1
    } else if avail > 10 {
        10
    } else {
        avail
    };
    let visible = min_nat(count, cap);
    let ph = 3 + visible;
    let sel = min_nat(sel_idx, minus_n(count, 1));
    let start = if sel >= visible {
        (sel + 1 - visible) as nat
    } else {
        0
    };
    if count == 0 || pw < 12 || ph > dock_y {
        None
    } else {
        Some(ArgPopup { x: (dock_x + 2) as u16, y: (dock_y - ph) as u16, w: pw as u16, h: ph as u16, selected: sel as usize, start: start as usize, visible: visible as usize })
    }
}

/// The argument popup (see `arg_popup_spec`); the selected value is in the
/// window.
pub fn arg_popup(dock_x: u16, dock_y: u16, dock_w: u16, header_w: usize, value_w: usize, count: usize, selected_idx: usize) -> (r: Option<ArgPopup>)
    requires
        dock_x <= u16::MAX - 2,
        value_w <= usize::MAX - 4,
    ensures
        r == arg_popup_spec(dock_x as nat, dock_y as nat, dock_w as nat, header_w as nat, value_w as nat, count as nat, selected_idx as nat),
        match r {
            Some(p) => p.start <= p.selected < p.start + p.visible <= count,
            None => true,
        },
{
    if count == 0 {
        return None;
    }
    let want: usize = if header_w >= value_w + 4 {
        header_w
    } else {
        value_w + 4
    };
    let wide: u16 = (want as u16).saturating_add(4);
    let limit: u16 = if dock_w >= 4 {
        dock_w - 4
    } else {
        0
    };
    let pw: u16 = if wide < limit {
        wide
    } else {
        limit
    };
    if pw < 12 {
        return None;
    }
    let avail: usize = if dock_y >= 3 {
        (dock_y - 3) as usize
    } else {
        0
    };
    let cap: usize = if avail < 1 {
        1
    } else if avail > 10 {
        10
    } else {
        avail
    };
    let visible: usize = if count < cap {
        count
    } else {
        cap
    };
    let ph: u16 = 3 + visible as u16;
    if ph > dock_y {
        return None;
    }
    let sel = if selected_idx < count - 1 {
        selected_idx
    } else {
        count - 1
    };
    let start = if sel >= visible {
        sel + 1 - visible
    } else {
        0
    };
    Some(ArgPopup { x: dock_x + 2, y: dock_y - ph, w: pw, h: ph, selected: sel, start, visible })
}

/// The header of the argument popup: `/<cmd> <arg>`.
pub fn arg_header(cmd: &str) -> (r: String)
    ensures
        r@ == seq!['/'] + cmd@ + " <arg>"@,
{
    let mut s = String::new();
    push_char(&mut s, '/');
    push_str(&mut s, cmd);
    push_str(&mut s, " <arg>");
    s
}

/// How many values the argument popup offers, in words.
pub fn options_count_text(n: usize) -> (r: String)
    ensures
        r@ == crate::approval::counted(n as nat, "option"@),
{
    let mut s = String::new();
    push_decimal(&mut s, n as u64);
    push_char(&mut s, ' ');
    push_str(&mut s, "option");
    if n != 1 {
        push_char(&mut s, 's');
    }
    assert(s@ =~= crate::approval::counted(n as nat, "option"@));
    s
}

/// The widest of `values` (8 when there is none).
pub open spec fn widest_value(values: Seq<Seq<char>>) -> nat
    decreases values.len(),
{
    if values.len() == 0 {
        8
    } else if values.len() == 1 {
        str_width_of(values[0])
    } else {
        let m = widest_value(values.drop_last());
        let w = str_width_of(values.last());
        if m >= w {
            m
        } else {
            w
        }
    }
}

/// The widest of `values` (see `widest_value`).
pub fn widest_value_width(values: &Vec<String>) -> (r: usize)
    ensures
        r == widest_value(views(values@)),
{
    let ghost vv = views(values@);
    let mut m: usize = 8;
    let mut i: usize = 0;
    while i < values.len()
        invariant
            i <= values@.len(),
            vv == views(values@),
            i > 0 ==> m == widest_value(vv.take(i as int)),
            i == 0 ==> m == 8,
        decreases values@.len() - i,
    {
        assert(vv.take(i + 1).drop_last() =~= vv.take(i as int));
        let w = str_width(values[i].as_str());
        if i == 0 {
            m = w;
        } else if w > m {
            m = w;
        }
        i += 1;
    }
    assert(vv.take(values@.len() as int) =~= vv);
    m
}

} // verus!
