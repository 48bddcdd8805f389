//! Layout of markdown blocks in a column of text: wrapping styled spans,
//! clipping them, and the rows each block takes.
use crate::markdown::{
    blocks_view, cells_view, parse, spans_view, BlockV, CellAlign, InlineSpan, InlineStyle, MdBlock, SpanV,
    markdown_events, blocks_of,
};
use crate::cards::lines_of;
use crate::text::{char_width_or_zero, chars_of, cw, decimal, push_char, push_decimal, string_from_chars, sum_width};
use vstd::prelude::*;

verus! {

/// The state of the wrap while the characters are laid out: the finished
/// lines, the spans of the current line, its width, and the characters of
/// the span being cut.
#[verifier::ext_equal]
pub struct WrapState {
    pub out: Seq<Seq<SpanV>>,
    pub current: Seq<SpanV>,
    pub cur_w: nat,
    pub buf: Seq<char>,
}

pub open spec fn wrap_start() -> WrapState {
    WrapState { out: Seq::empty(), current: Seq::empty(), cur_w: 0, buf: Seq::empty() }
}

/// Whether `ch` starts a new line: it would overflow `w` and the line
/// already holds something.
pub open spec fn breaks_before(st: WrapState, ch: char, w: nat) -> bool {
    st.cur_w + cw(ch) > w && (st.cur_w > 0 || st.buf.len() > 0)
}

/// One character of a span with style `style` laid out at width `w`.
pub open spec fn wrap_char(st: WrapState, ch: char, style: InlineStyle, w: nat) -> WrapState {
    let st1 = if breaks_before(st, ch, w) {
        WrapState {
            out: st.out.push(
                if st.buf.len() > 0 {
                    st.current.push((st.buf, style))
                } else {
                    st.current
                },
            ),
            current: Seq::empty(),
            cur_w: 0,
            buf: Seq::empty(),
        }
    } else {
        st
    };
    WrapState { buf: st1.buf.push(ch), cur_w: st1.cur_w + cw(ch), ..st1 }
}

pub open spec fn wrap_chars(st: WrapState, cs: Seq<char>, style: InlineStyle, w: nat) -> WrapState
    decreases cs.len(),
{
    if cs.len() == 0 {
        st
    } else {
        wrap_char(wrap_chars(st, cs.drop_last(), style, w), cs.last(), style, w)
    }
}

/// One span laid out: its characters, then what is left of it joins the
/// current line.
pub open spec fn wrap_span(st: WrapState, sp: SpanV, w: nat) -> WrapState {
    let st1 = wrap_chars(WrapState { buf: Seq::empty(), ..st }, sp.0, sp.1, w);
    if st1.buf.len() > 0 {
        WrapState { current: st1.current.push((st1.buf, sp.1)), buf: Seq::empty(), ..st1 }
    } else {
        st1
    }
}

pub open spec fn wrap_all(spans: Seq<SpanV>, w: nat) -> WrapState
    decreases spans.len(),
{
    if spans.len() == 0 {
        wrap_start()
    } else {
        wrap_span(wrap_all(spans.drop_last(), w), spans.last(), w)
    }
}

/// The lines of `spans` wrapped at `width` columns (at least 1): a line
/// breaks before a character that would overflow it unless it is still
/// empty; a span cut by a break continues, with its style, on the next
/// line. There is always at least one line.
pub open spec fn wrap_spans_spec(spans: Seq<SpanV>, width: nat) -> Seq<Seq<SpanV>> {
    let w = if width == 0 {
        1
    } else {
        width
    };
    let st = wrap_all(spans, w);
    let out = if st.current.len() > 0 {
        st.out.push(st.current)
    } else {
        st.out
    };
    if out.len() == 0 {
        seq![Seq::<SpanV>::empty()]
    } else {
        out
    }
}

/// The executable state of the wrap.
pub open spec fn wrap_state_of(out: Seq<Vec<InlineSpan>>, current: Seq<InlineSpan>, cur_w: usize, buf: Seq<char>) -> WrapState {
    WrapState { out: cells_view(out), current: spans_view(current), cur_w: cur_w as nat, buf }
}

/// Wraps `spans` into lines of at most `width` columns (see
/// `wrap_spans_spec`).
pub fn wrap_spans(spans: &[InlineSpan], width: u16) -> (r: Vec<Vec<InlineSpan>>)
    ensures
        cells_view(r@) == wrap_spans_spec(spans_view(spans@), width as nat),
{
    let w: usize = if width == 0 {
        1
    } else {
        width as usize
    };
    let ghost sv = spans_view(spans@);
    let mut out: Vec<Vec<InlineSpan>> = Vec::new();
    let mut current: Vec<InlineSpan> = Vec::new();
    let mut current_w: usize = 0;
    let mut i: usize = 0;
    proof {
        assert(wrap_state_of(out@, current@, current_w, Seq::empty()) =~= wrap_start());
    }
    while i < spans.len()
        invariant
            i <= spans@.len(),
            sv == spans_view(spans@),
            1 <= w <= 65535,
            w == (if width == 0 { 1 } else { width as nat }),
            current_w <= w + 3,
            wrap_state_of(out@, current@, current_w, Seq::empty()) == wrap_all(sv.take(i as int), w as nat),
        decreases spans@.len() - i,
    {
        let style = spans[i].style;
        let cs = chars_of(spans[i].text.as_str());
        let ghost st0 = wrap_state_of(out@, current@, current_w, Seq::empty());
        let mut buf: Vec<char> = Vec::new();
        let mut j: usize = 0;
        assert(cs@.take(0) =~= Seq::<char>::empty());
        while j < cs.len()
            invariant
                j <= cs@.len(),
                1 <= w <= 65535,
                current_w <= w + 3,
                wrap_state_of(out@, current@, current_w, buf@) == wrap_chars(st0, cs@.take(j as int), style, w as nat),
            decreases cs@.len() - j,
        {
            let ch = cs[j];
            let c = char_width_or_zero(ch);
            let ghost before = wrap_state_of(out@, current@, current_w, buf@);
            if current_w + c > w && (current_w > 0 || buf.len() > 0) {
                let ghost cur_before = spans_view(current@);
                if buf.len() > 0 {
                    let piece = string_from_chars(buf.as_slice());
                    current.push(InlineSpan { text: piece, style });
                    assert(spans_view(current@) =~= cur_before.push((buf@, style)));
                }
                let ghost line = spans_view(current@);
                let mut done: Vec<InlineSpan> = Vec::new();
                std::mem::swap(&mut done, &mut current);
                let ghost out_before = cells_view(out@);
                out.push(done);
                assert(cells_view(out@) =~= out_before.push(line));
                current_w = 0;
                buf = Vec::new();
                assert(spans_view(current@) =~= Seq::<SpanV>::empty());
            }
            buf.push(ch);
            current_w = current_w + c;
            assert(cs@.take(j + 1).drop_last() =~= cs@.take(j as int));
            assert(wrap_state_of(out@, current@, current_w, buf@) =~= wrap_char(before, ch, style, w as nat));
            j += 1;
        }
        assert(cs@.take(cs@.len() as int) =~= cs@);
        assert(spans[i as int]@ == (cs@, style));
        let ghost after_chars = wrap_state_of(out@, current@, current_w, buf@);
        if buf.len() > 0 {
            let ghost cur_before = spans_view(current@);
            let piece = string_from_chars(buf.as_slice());
            current.push(InlineSpan { text: piece, style });
            assert(spans_view(current@) =~= cur_before.push((buf@, style)));
        }
        assert(sv.take(i + 1).drop_last() =~= sv.take(i as int));
        assert(st0 =~= WrapState { buf: Seq::empty(), ..st0 });
        assert(wrap_state_of(out@, current@, current_w, Seq::empty()) =~= wrap_span(st0, sv[i as int], w as nat));
        i += 1;
    }
    assert(sv.take(spans@.len() as int) =~= sv);
    if current.len() > 0 {
        let ghost out_before = cells_view(out@);
        let ghost line = spans_view(current@);
        out.push(current);
        assert(cells_view(out@) =~= out_before.push(line));
    }
    if out.len() == 0 {
        out.push(Vec::new());
        assert(cells_view(out@) =~= seq![Seq::<SpanV>::empty()]);
    }
    out
}

/// The characters of a line of spans, in order.
pub open spec fn spans_text(sv: Seq<SpanV>) -> Seq<char>
    decreases sv.len(),
{
    if sv.len() == 0 {
        Seq::empty()
    } else {
        spans_text(sv.drop_last()) + sv.last().0
    }
}

/// The characters of lines of spans, line after line.
pub open spec fn lines_text(ls: Seq<Seq<SpanV>>) -> Seq<char>
    decreases ls.len(),
{
    if ls.len() == 0 {
        Seq::empty()
    } else {
        lines_text(ls.drop_last()) + spans_text(ls.last())
    }
}

/// The characters laid out so far by a wrap in state `st`.
spec fn laid_out(st: WrapState) -> Seq<char> {
    lines_text(st.out) + spans_text(st.current) + st.buf
}

proof fn lemma_wrap_char_text(st: WrapState, ch: char, style: InlineStyle, w: nat)
    ensures
        laid_out(wrap_char(st, ch, style, w)) == laid_out(st).push(ch),
{
    let r = wrap_char(st, ch, style, w);
    if breaks_before(st, ch, w) {
        let line = if st.buf.len() > 0 {
            st.current.push((st.buf, style))
        } else {
            st.current
        };
        assert(r.out == st.out.push(line));
        assert(r.out.drop_last() =~= st.out);
        assert(lines_text(r.out) == lines_text(st.out) + spans_text(line));
        if st.buf.len() > 0 {
            assert(line.drop_last() =~= st.current);
            assert(spans_text(line) == spans_text(st.current) + st.buf);
        } else {
            assert(st.buf =~= Seq::<char>::empty());
        }
        assert(r.current =~= Seq::<SpanV>::empty());
        assert(r.buf =~= seq![ch]);
        assert(laid_out(r) =~= laid_out(st).push(ch));
    } else {
        assert(laid_out(r) =~= laid_out(st).push(ch));
    }
}

proof fn lemma_wrap_chars_text(st: WrapState, cs: Seq<char>, style: InlineStyle, w: nat)
    ensures
        laid_out(wrap_chars(st, cs, style, w)) == laid_out(st) + cs,
    decreases cs.len(),
{
    if cs.len() == 0 {
        assert(laid_out(st) + cs =~= laid_out(st));
    } else {
        lemma_wrap_chars_text(st, cs.drop_last(), style, w);
        lemma_wrap_char_text(wrap_chars(st, cs.drop_last(), style, w), cs.last(), style, w);
        assert((laid_out(st) + cs.drop_last()).push(cs.last()) =~= laid_out(st) + cs);
    }
}

proof fn lemma_wrap_all_text(spans: Seq<SpanV>, w: nat)
    ensures
        wrap_all(spans, w).buf.len() == 0,
        laid_out(wrap_all(spans, w)) == spans_text(spans),
    decreases spans.len(),
{
    if spans.len() == 0 {
        assert(laid_out(wrap_start()) =~= Seq::<char>::empty());
    } else {
        lemma_wrap_all_text(spans.drop_last(), w);
        let st = wrap_all(spans.drop_last(), w);
        let sp = spans.last();
        let st0 = WrapState { buf: Seq::empty(), ..st };
        assert(st.buf =~= Seq::<char>::empty());
        assert(laid_out(st0) == laid_out(st));
        lemma_wrap_chars_text(st0, sp.0, sp.1, w);
        let st1 = wrap_chars(st0, sp.0, sp.1, w);
        if st1.buf.len() > 0 {
            let cur = st1.current.push((st1.buf, sp.1));
            assert(cur.drop_last() =~= st1.current);
            assert(spans_text(cur) == spans_text(st1.current) + st1.buf);
            assert(laid_out(wrap_span(st, sp, w)) =~= laid_out(st1));
        } else {
            assert(st1.buf =~= Seq::<char>::empty());
        }
    }
}

/// Wrapping keeps the text: the lines of `wrap_spans`, read one after the
/// other, hold exactly the characters of the spans, in order.
pub proof fn law_wrap_spans_keeps_text(spans: Seq<SpanV>, width: nat)
    ensures
        lines_text(wrap_spans_spec(spans, width)) == spans_text(spans),
{
    let w = if width == 0 {
        1
    } else {
        width
    };
    lemma_wrap_all_text(spans, w);
    let st = wrap_all(spans, w);
    assert(st.buf =~= Seq::<char>::empty());
    let out = if st.current.len() > 0 {
        st.out.push(st.current)
    } else {
        st.out
    };
    if st.current.len() > 0 {
        assert(out.drop_last() =~= st.out);
        assert(lines_text(out) =~= laid_out(st));
    } else {
        assert(st.current =~= Seq::<SpanV>::empty());
        assert(lines_text(out) =~= laid_out(st));
    }
    if out.len() == 0 {
        let one = seq![Seq::<SpanV>::empty()];
        assert(one.drop_last() =~= Seq::<Seq<SpanV>>::empty());
        assert(one.last() == Seq::<SpanV>::empty());
        assert(spans_text(Seq::<SpanV>::empty()) == Seq::<char>::empty());
        assert(lines_text(Seq::<Seq<SpanV>>::empty()) == Seq::<char>::empty());
        assert(lines_text(one) =~= Seq::<char>::empty());
    }
}

/// `n`, or 1 when it is 0.
pub open spec fn at_least_one(n: nat) -> nat {
    if n == 0 {
        1
    } else {
        n
    }
}

/// `a - b`, or 0 when `b > a`.
pub open spec fn sub_or_zero(a: nat, b: nat) -> nat {
    if a >= b {
        (a - b) as nat
    } else {
        0
    }
}

/// `n`, or `usize::MAX` when it is larger.
pub open spec fn cap(n: nat) -> nat {
    if n > usize::MAX {
        usize::MAX as nat
    } else {
        n
    }
}

/// Width of a list item's marker: two columns per nesting level, then the
/// number and `". "` for an ordered item, or the bullet and a space.
pub open spec fn marker_width(ordered: bool, index: u32, depth: u8) -> nat {
    (depth as nat) * 2 + if ordered {
        decimal(index as nat).len() + 2
    } else {
        2
    }
}

/// The rows a block takes at `width` columns.
pub open spec fn block_rows_spec(b: BlockV, width: nat) -> nat {
    match b {
        BlockV::Paragraph(spans) => at_least_one(wrap_spans_spec(spans, width).len()),
        BlockV::Heading { .. } => 1,
        BlockV::Code { text, .. } => at_least_one(lines_of(text).len()),
        BlockV::ListItem { ordered, index, depth, spans } => at_least_one(
            wrap_spans_spec(spans, sub_or_zero(width, marker_width(ordered, index, depth))).len(),
        ),
        BlockV::BlockQuote(spans) => at_least_one(wrap_spans_spec(spans, sub_or_zero(width, 2)).len()),
        BlockV::Hr => 1,
        BlockV::Table { head, rows, .. } => 2 + (if head.len() == 0 {
            0nat
        } else {
            2nat
        }) + rows.len(),
    }
}

/// The rows of all the blocks of `bs`.
pub open spec fn blocks_rows(bs: Seq<BlockV>, width: nat) -> nat
    decreases bs.len(),
{
    if bs.len() == 0 {
        0
    } else {
        blocks_rows(bs.drop_last(), width) + block_rows_spec(bs.last(), width)
    }
}

proof fn lemma_decimal_len(n: nat)
    ensures
        n >= 10 ==> decimal(n).len() == decimal(n / 10).len() + 1,
        n < 10 ==> decimal(n).len() == 1,
        decimal(n).len() >= 1,
        n < 10000000000 ==> decimal(n).len() <= 10,
    decreases n,
{
    if n >= 10 {
        lemma_decimal_len(n / 10);
        if n < 10000000000 {
            assert(n / 10 < 1000000000);
            assert(pow10(9) == 1000000000) by {
                reveal_with_fuel(pow10, 10);
            }
            lemma_decimal_small(n / 10, 9);
        }
    }
}

spec fn pow10(k: nat) -> nat
    decreases k,
{
    if k == 0 {
        1
    } else {
        10 * pow10((k - 1) as nat)
    }
}

proof fn lemma_decimal_small(n: nat, k: nat)
    requires
        n < pow10(k),
        k >= 1,
    ensures
        decimal(n).len() <= k,
    decreases n,
{
    if n >= 10 {
        assert(k >= 2) by {
            if k == 1 {
                assert(pow10(1) == 10) by {
                    reveal_with_fuel(pow10, 2);
                }
            }
        }
        assert(n / 10 < pow10((k - 1) as nat)) by (nonlinear_arith)
            requires
                n < pow10(k),
                pow10(k) == 10 * pow10((k - 1) as nat);
        lemma_decimal_small(n / 10, (k - 1) as nat);
    }
}

/// Number of decimal digits of `n`.
fn decimal_len(n: u32) -> (r: usize)
    ensures
        r == decimal(n as nat).len(),
        1 <= r <= 10,
{
    let mut k: u32 = n;
    let mut d: usize = 1;
    proof {
        assert(pow10(9) == 1000000000) by {
            reveal_with_fuel(pow10, 10);
        }
        lemma_decimal_small(n as nat / 10, 9);
        lemma_decimal_len(n as nat);
    }
    while k >= 10
        invariant
            1 <= d,
            decimal(n as nat).len() == decimal(k as nat).len() + d - 1,
            decimal(n as nat).len() <= 10,
        decreases k,
    {
        proof {
            lemma_decimal_len(k as nat);
        }
        k = k / 10;
        d = d + 1;
    }
    proof {
        lemma_decimal_len(k as nat);
    }
    d
}

/// The rows a block takes at `width` columns (capped at `usize::MAX`).
pub fn block_rows(block: &MdBlock, width: u16) -> (r: usize)
    ensures
        r == cap(block_rows_spec(block@, width as nat)),
{
    match block {
        MdBlock::Paragraph(spans) => {
            let n = wrap_spans(spans.as_slice(), width).len();
            if n == 0 {
                1
            } else {
                n
            }
        },
        MdBlock::Heading { .. } => 1,
        MdBlock::Code { text, .. } => {
            let n = crate::cards::lines(text.as_str()).len();
            if n == 0 {
                1
            } else {
                n
            }
        },
        MdBlock::ListItem { ordered, index, depth, spans } => {
            let indent: u16 = (*depth as u16) * 2;
            let marker_w: u16 = if *ordered {
                indent + decimal_len(*index) as u16 + 2
            } else {
                indent + 2
            };
            let body_w: u16 = if width >= marker_w {
                width - marker_w
            } else {
                0
            };
            let n = wrap_spans(spans.as_slice(), body_w).len();
            if n == 0 {
                1
            } else {
                n
            }
        },
        MdBlock::BlockQuote(spans) => {
            let body_w: u16 = if width >= 2 {
                width - 2
            } else {
                0
            };
            let n = wrap_spans(spans.as_slice(), body_w).len();
            if n == 0 {
                1
            } else {
                n
            }
        },
        MdBlock::Hr => 1,
        MdBlock::Table { head, rows, .. } => {
            let head_rows: usize = if head.len() == 0 {
                0
            } else {
                2
            };
            rows.len().saturating_add(2 + head_rows)
        },
    }
}

/// How a text row of a block begins: nothing, a list item's marker, the
/// blank hang under it (its width), a quote bar, or a heading's mark.
#[derive(Clone, Debug)]
pub enum RowLead {
    Plain,
    Marker(String),
    Hang(u16),
    Quote,
    Heading(u8),
}

/// Which frame line of a table a border row is.
#[derive(Clone, Copy, Debug, PartialEq, Eq, Structural)]
pub enum BorderKind {
    Top,
    Middle,
    Bottom,
}

/// One painted row of a markdown block: styled text after its lead, a
/// line of code, a rule, a table border, or a row of table cells (the
/// head's or a body row's).
#[derive(Clone, Debug)]
pub enum MdRow {
    Text { lead: RowLead, spans: Vec<InlineSpan> },
    Code(String),
    Rule,
    Border(BorderKind),
    Cells { head: bool, cells: Vec<Vec<InlineSpan>> },
}

/// A row lead as plain values.
pub enum LeadV {
    Plain,
    Marker(Seq<char>),
    Hang(nat),
    Quote,
    Heading(u8),
}

/// A row as plain values.
pub enum RowV {
    Text(LeadV, Seq<SpanV>),
    Code(Seq<char>),
    Rule,
    Border(BorderKind),
    Cells(bool, Seq<Seq<SpanV>>),
}

impl View for RowLead {
    type V = LeadV;

    open spec fn view(&self) -> LeadV {
        match self {
            RowLead::Plain => LeadV::Plain,
            RowLead::Marker(m) => LeadV::Marker(m@),
            RowLead::Hang(w) => LeadV::Hang(*w as nat),
            RowLead::Quote => LeadV::Quote,
            RowLead::Heading(l) => LeadV::Heading(*l),
        }
    }
}

impl View for MdRow {
    type V = RowV;

    open spec fn view(&self) -> RowV {
        match self {
            MdRow::Text { lead, spans } => RowV::Text(lead@, spans_view(spans@)),
            MdRow::Code(s) => RowV::Code(s@),
            MdRow::Rule => RowV::Rule,
            MdRow::Border(k) => RowV::Border(*k),
            MdRow::Cells { head, cells } => RowV::Cells(*head, cells_view(cells@)),
        }
    }
}

pub open spec fn plan_view(v: Seq<MdRow>) -> Seq<RowV> {
    v.map_values(|r: MdRow| r@)
}

/// Text rows: one per wrapped line, each with the lead `lead(i)`.
pub open spec fn text_rows(lines: Seq<Seq<SpanV>>, lead: spec_fn(int) -> LeadV) -> Seq<RowV> {
    Seq::new(lines.len(), |i: int| RowV::Text(lead(i), lines[i]))
}

/// The rows of a table: its top border, the head and the border under it
/// when there is a head, one row per body row, and the bottom border; no
/// rows at all when the table has no column.
pub open spec fn table_plan(head: Seq<Seq<SpanV>>, rows: Seq<Seq<Seq<SpanV>>>) -> Seq<RowV> {
    if column_count(head, rows) == 0 {
        Seq::empty()
    } else {
        seq![RowV::Border(BorderKind::Top)] + (if head.len() > 0 {
            seq![RowV::Cells(true, head), RowV::Border(BorderKind::Middle)]
        } else {
            Seq::empty()
        }) + Seq::new(rows.len(), |i: int| RowV::Cells(false, rows[i])) + seq![
            RowV::Border(BorderKind::Bottom),
        ]
    }
}

/// The rows a block is painted as at `width` columns: a paragraph's, a
/// quote's (two columns narrower) and a list item's (narrower by its
/// marker) wrapped lines; a heading's one row; one row per line of code; a
/// rule; a table's frame and cells.
pub open spec fn plan_spec(b: BlockV, width: nat) -> Seq<RowV> {
    match b {
        BlockV::Paragraph(spans) => text_rows(wrap_spans_spec(spans, width), |i: int| LeadV::Plain),
        BlockV::Heading { level, spans } => seq![RowV::Text(LeadV::Heading(level), spans)],
        BlockV::Code { text, .. } => Seq::new(lines_of(text).len(), |i: int| RowV::Code(lines_of(text)[i])),
        BlockV::ListItem { ordered, index, depth, spans } => text_rows(
            wrap_spans_spec(spans, sub_or_zero(width, marker_width(ordered, index, depth))),
            |i: int| if i == 0 {
                LeadV::Marker(list_marker_spec(ordered, index, depth))
            } else {
                LeadV::Hang(marker_width(ordered, index, depth))
            },
        ),
        BlockV::BlockQuote(spans) => text_rows(wrap_spans_spec(spans, sub_or_zero(width, 2)), |i: int| LeadV::Quote),
        BlockV::Hr => seq![RowV::Rule],
        BlockV::Table { head, rows, .. } => table_plan(head, rows),
    }
}

/// A copy of `spans`.
fn copy_spans(spans: &[InlineSpan]) -> (r: Vec<InlineSpan>)
    ensures
        spans_view(r@) == spans_view(spans@),
{
    let mut out: Vec<InlineSpan> = Vec::new();
    let mut i: usize = 0;
    while i < spans.len()
        invariant
            i <= spans@.len(),
            spans_view(out@) == spans_view(spans@.take(i as int)),
        decreases spans@.len() - i,
    {
        let s = InlineSpan { text: crate::text::string_of(spans[i].text.as_str()), style: spans[i].style };
        assert(s@ == spans@[i as int]@);
        let ghost before = out@;
        out.push(s);
        assert(out@ == before.push(s));
        assert(spans_view(out@) =~= spans_view(spans@.take(i as int)).push(spans@[i as int]@));
        assert(spans@.take(i + 1) =~= spans@.take(i as int).push(spans@[i as int]));
        assert(spans_view(out@) =~= spans_view(spans@.take(i + 1)));
        i += 1;
    }
    assert(spans@.take(spans@.len() as int) =~= spans@);
    out
}

/// A copy of `cells`.
fn copy_cells(cells: &[Vec<InlineSpan>]) -> (r: Vec<Vec<InlineSpan>>)
    ensures
        cells_view(r@) == cells_view(cells@),
{
    let mut out: Vec<Vec<InlineSpan>> = Vec::new();
    let mut i: usize = 0;
    while i < cells.len()
        invariant
            i <= cells@.len(),
            cells_view(out@) == cells_view(cells@.take(i as int)),
        decreases cells@.len() - i,
    {
        let c = copy_spans(cells[i].as_slice());
        let ghost before = out@;
        out.push(c);
        assert(out@ == before.push(c));
        assert(cells_view(out@) =~= cells_view(cells@.take(i as int)).push(spans_view(cells@[i as int]@)));
        assert(cells@.take(i + 1) =~= cells@.take(i as int).push(cells@[i as int]));
        assert(cells_view(out@) =~= cells_view(cells@.take(i + 1)));
        i += 1;
    }
    assert(cells@.take(cells@.len() as int) =~= cells@);
    out
}

/// Appends one text row per line of `lines`, the first led by `first`
/// and the others by `rest`.
fn push_text_rows(out: &mut Vec<MdRow>, lines: &Vec<Vec<InlineSpan>>, first: &RowLead, rest: &RowLead)
    ensures
        plan_view(final(out)@) == plan_view(old(out)@) + text_rows(
            cells_view(lines@),
            |i: int| if i == 0 { first@ } else { rest@ },
        ),
{
    let ghost start = plan_view(out@);
    let ghost want = text_rows(cells_view(lines@), |i: int| if i == 0 { first@ } else { rest@ });
    let mut i: usize = 0;
    while i < lines.len()
        invariant
            i <= lines@.len(),
            want == text_rows(cells_view(lines@), |i: int| if i == 0 { first@ } else { rest@ }),
            plan_view(out@) == start + want.take(i as int),
        decreases lines@.len() - i,
    {
        let lead = if i == 0 {
            copy_lead(first)
        } else {
            copy_lead(rest)
        };
        let spans = copy_spans(lines[i].as_slice());
        let row = MdRow::Text { lead, spans };
        assert(row@ == want[i as int]);
        let ghost before = out@;
        out.push(row);
        assert(out@ == before.push(row));
        assert(plan_view(out@) =~= plan_view(before).push(row@));
        assert(want.take(i + 1) =~= want.take(i as int).push(want[i as int]));
        assert(plan_view(out@) =~= start + want.take(i + 1));
        i += 1;
    }
    assert(want.take(lines@.len() as int) =~= want);
}

/// A copy of a row lead.
fn copy_lead(l: &RowLead) -> (r: RowLead)
    ensures
        r@ == l@,
{
    match l {
        RowLead::Plain => RowLead::Plain,
        RowLead::Marker(m) => RowLead::Marker(crate::text::string_of(m.as_str())),
        RowLead::Hang(w) => RowLead::Hang(*w),
        RowLead::Quote => RowLead::Quote,
        RowLead::Heading(l) => RowLead::Heading(*l),
    }
}

/// The rows `block` is painted as at `width` columns (see `plan_spec`).
pub fn block_plan(block: &MdBlock, width: u16) -> (r: Vec<MdRow>)
    ensures
        plan_view(r@) == plan_spec(block@, width as nat),
{
    let mut out: Vec<MdRow> = Vec::new();
    match block {
        MdBlock::Paragraph(spans) => {
            let lines = wrap_spans(spans.as_slice(), width);
            push_text_rows(&mut out, &lines, &RowLead::Plain, &RowLead::Plain);
            assert(plan_view(out@) =~= plan_spec(block@, width as nat));
        },
        MdBlock::Heading { level, spans } => {
            out.push(MdRow::Text { lead: RowLead::Heading(*level), spans: copy_spans(spans.as_slice()) });
            assert(plan_view(out@) =~= plan_spec(block@, width as nat));
        },
        MdBlock::Code { text, .. } => {
            let ls = crate::cards::lines(text.as_str());
            let ghost want = plan_spec(block@, width as nat);
            let mut i: usize = 0;
            while i < ls.len()
                invariant
                    i <= ls@.len(),
                    crate::cards::string_views(ls@) == lines_of(text@),
                    want == Seq::new(lines_of(text@).len(), |k: int| RowV::Code(lines_of(text@)[k])),
                    plan_view(out@) == want.take(i as int),
                decreases ls@.len() - i,
            {
                let s = crate::text::string_of(ls[i].as_str());
                let row = MdRow::Code(s);
                assert(ls@[i as int]@ == lines_of(text@)[i as int]);
                assert(row@ == want[i as int]);
                let ghost before = out@;
                out.push(row);
                assert(out@ == before.push(row));
                assert(plan_view(out@) =~= plan_view(before).push(row@));
                assert(want.take(i + 1) =~= want.take(i as int).push(want[i as int]));
                assert(plan_view(out@) =~= want.take(i + 1));
                i += 1;
            }
            assert(want.take(ls@.len() as int) =~= want);
        },
        MdBlock::ListItem { ordered, index, depth, spans } => {
            let indent: u16 = (*depth as u16) * 2;
            let marker_w: u16 = if *ordered {
                indent + decimal_len(*index) as u16 + 2
            } else {
                indent + 2
            };
            let body_w: u16 = if width >= marker_w {
                width - marker_w
            } else {
                0
            };
            let lines = wrap_spans(spans.as_slice(), body_w);
            let first = RowLead::Marker(list_marker(*ordered, *index, *depth));
            let rest = RowLead::Hang(marker_w);
            push_text_rows(&mut out, &lines, &first, &rest);
            assert(plan_view(out@) =~= plan_spec(block@, width as nat));
        },
        MdBlock::BlockQuote(spans) => {
            let body_w: u16 = if width >= 2 {
                width - 2
            } else {
                0
            };
            let lines = wrap_spans(spans.as_slice(), body_w);
            push_text_rows(&mut out, &lines, &RowLead::Quote, &RowLead::Quote);
            assert(plan_view(out@) =~= plan_spec(block@, width as nat));
        },
        MdBlock::Hr => {
            out.push(MdRow::Rule);
            assert(plan_view(out@) =~= plan_spec(block@, width as nat));
        },
        MdBlock::Table { head, rows, .. } => {
            let widths = table_column_widths(head.as_slice(), rows.as_slice(), width);
            proof {
                lemma_table_widths_len(cells_view(head@), crate::markdown::rows_view(rows@), width as nat);
            }
            let ghost hv = cells_view(head@);
            assert(nat_view(widths@).len() == widths@.len());
            if widths.len() > 0 {
                out.push(MdRow::Border(BorderKind::Top));
                assert(plan_view(out@) =~= seq![RowV::Border(BorderKind::Top)]);
                if head.len() > 0 {
                    let h = MdRow::Cells { head: true, cells: copy_cells(head.as_slice()) };
                    assert(h@ == RowV::Cells(true, hv));
                    out.push(h);
                    out.push(MdRow::Border(BorderKind::Middle));
                    assert(plan_view(out@) =~= seq![RowV::Border(BorderKind::Top)] + seq![
                        RowV::Cells(true, hv),
                        RowV::Border(BorderKind::Middle),
                    ]);
                } else {
                    assert(plan_view(out@) =~= seq![RowV::Border(BorderKind::Top)] + Seq::<RowV>::empty());
                }
                let ghost start = plan_view(out@);
                let ghost rv = crate::markdown::rows_view(rows@);
                let ghost body = Seq::new(rv.len(), |k: int| RowV::Cells(false, rv[k]));
                let mut i: usize = 0;
                while i < rows.len()
                    invariant
                        i <= rows@.len(),
                        rv == crate::markdown::rows_view(rows@),
                        body == Seq::new(rv.len(), |k: int| RowV::Cells(false, rv[k])),
                        plan_view(out@) == start + body.take(i as int),
                    decreases rows@.len() - i,
                {
                    let row = MdRow::Cells { head: false, cells: copy_cells(rows[i].as_slice()) };
                    assert(row@ == body[i as int]);
                    let ghost before = out@;
                    out.push(row);
                    assert(out@ == before.push(row));
                    assert(plan_view(out@) =~= plan_view(before).push(row@));
                    assert(body.take(i + 1) =~= body.take(i as int).push(body[i as int]));
                    assert(plan_view(out@) =~= start + body.take(i + 1));
                    i += 1;
                }
                assert(body.take(rows@.len() as int) =~= body);
                let ghost before = out@;
                out.push(MdRow::Border(BorderKind::Bottom));
                assert(out@ == before.push(MdRow::Border(BorderKind::Bottom)));
                assert(plan_view(out@) =~= start + body + seq![RowV::Border(BorderKind::Bottom)]);
            } else {
                assert(plan_view(out@) =~= Seq::<RowV>::empty());
            }
            assert(plan_view(out@) =~= plan_spec(block@, width as nat));
        },
    }
    out
}

/// The widths of a table have one entry per column.
proof fn lemma_table_widths_len(head: Seq<Seq<SpanV>>, rows: Seq<Seq<Seq<SpanV>>>, width: nat)
    ensures
        table_widths_spec(head, rows, width).len() == column_count(head, rows),
{
    let ws = natural_widths(head, rows);
    let total = cap(sum_nat(ws) + ws.len() * 3 + 1);
    if total > width {
        lemma_shrink_len(ws, (total - width) as nat);
    }
}

proof fn lemma_shrink_len(ws: Seq<nat>, remaining: nat)
    ensures
        shrink_widths(ws, remaining).len() == ws.len(),
    decreases remaining,
{
    if remaining > 0 && ws.len() > 0 {
        lemma_last_max_index(ws);
        let m = last_max_index(ws);
        if ws[m] > 3 {
            lemma_shrink_len(ws.update(m, (ws[m] - 1) as nat), (remaining - 1) as nat);
        }
    }
}

/// Each block is painted in as many rows as `block_rows` counts for it,
/// except for a code block with no line (counted as one row, painted as
/// none) and a table with no column (counted by its frame, painted as
/// nothing).
pub proof fn law_painted_rows_are_counted(b: BlockV, width: nat)
    requires
        !(b matches BlockV::Code { text, .. } && lines_of(text).len() == 0),
        !(b matches BlockV::Table { head, rows, .. } && column_count(head, rows) == 0),
    ensures
        plan_spec(b, width).len() == block_rows_spec(b, width),
{
    match b {
        BlockV::Table { head, rows, .. } => {
            if head.len() > 0 {
                assert(table_plan(head, rows).len() == 1 + 2 + rows.len() + 1);
            } else {
                assert(table_plan(head, rows).len() == 1 + 0 + rows.len() + 1);
            }
        },
        _ => {},
    }
}

/// The rows the blocks `bs` are painted as at `width` columns, block
/// after block.
pub open spec fn plans_of(bs: Seq<BlockV>, width: nat) -> Seq<RowV>
    decreases bs.len(),
{
    if bs.len() == 0 {
        Seq::empty()
    } else {
        plans_of(bs.drop_last(), width) + plan_spec(bs.last(), width)
    }
}

/// Whether a block is painted in the rows counted for it: it is neither a
/// code block with no line nor a table with no column.
pub open spec fn painted_as_counted(b: BlockV) -> bool {
    &&& !(b matches BlockV::Code { text, .. } && lines_of(text).len() == 0)
    &&& !(b matches BlockV::Table { head, rows, .. } && column_count(head, rows) == 0)
}

/// A whole list of blocks is painted in as many rows as are counted for
/// it, when each of its blocks is.
pub proof fn law_blocks_painted_rows_are_counted(bs: Seq<BlockV>, width: nat)
    requires
        forall|i: int| 0 <= i < bs.len() ==> painted_as_counted(#[trigger] bs[i]),
    ensures
        plans_of(bs, width).len() == blocks_rows(bs, width),
    decreases bs.len(),
{
    if bs.len() > 0 {
        let d = bs.drop_last();
        assert forall|i: int| 0 <= i < d.len() implies painted_as_counted(#[trigger] d[i]) by {
            assert(d[i] == bs[i]);
        }
        law_blocks_painted_rows_are_counted(d, width);
        assert(painted_as_counted(bs[bs.len() - 1]));
        law_painted_rows_are_counted(bs.last(), width);
    }
}

/// A markdown text is painted (block after block, each as `block_plan`
/// gives it) in as many rows as `count_visual_rows` counts for it, when it
/// holds no empty code block and no table without a column; the count is
/// capped at `usize::MAX`, which no painted list of rows exceeds.
pub proof fn law_text_painted_rows_are_counted(text: Seq<char>, width: nat)
    requires
        forall|i: int|
            0 <= i < blocks_of(markdown_events(text)).len() ==> painted_as_counted(
                #[trigger] blocks_of(markdown_events(text))[i],
            ),
    ensures
        plans_of(blocks_of(markdown_events(text)), width).len() == blocks_rows(
            blocks_of(markdown_events(text)),
            width,
        ),
        plans_of(blocks_of(markdown_events(text)), width).len() <= usize::MAX ==> cap(
            blocks_rows(blocks_of(markdown_events(text)), width),
        ) == plans_of(blocks_of(markdown_events(text)), width).len(),
{
    law_blocks_painted_rows_are_counted(blocks_of(markdown_events(text)), width);
}

/// The rows of the blocks `blocks` at `width` columns, added up (capped at
/// `usize::MAX`).
pub fn rows_of_blocks(blocks: &[MdBlock], width: u16) -> (r: usize)
    ensures
        r == cap(blocks_rows(blocks_view(blocks@), width as nat)),
{
    let ghost bv = blocks_view(blocks@);
    let mut total: usize = 0;
    let mut i: usize = 0;
    while i < blocks.len()
        invariant
            i <= blocks@.len(),
            bv == blocks_view(blocks@),
            total == cap(blocks_rows(bv.take(i as int), width as nat)),
        decreases blocks@.len() - i,
    {
        let n = block_rows(&blocks[i], width);
        assert(bv.take(i + 1).drop_last() =~= bv.take(i as int));
        total = total.saturating_add(n);
        i += 1;
    }
    assert(bv.take(blocks@.len() as int) =~= bv);
    total
}

/// The rows that the markdown `text` takes at `width` columns.
pub fn count_visual_rows(text: &str, width: u16) -> (r: usize)
    ensures
        r == cap(blocks_rows(blocks_of(markdown_events(text@)), width as nat)),
{
    let blocks = parse(text);
    rows_of_blocks(blocks.as_slice(), width)
}

/// Total display width of the text of `spans`.
pub open spec fn spans_width(sv: Seq<SpanV>) -> nat
    decreases sv.len(),
{
    if sv.len() == 0 {
        0
    } else {
        spans_width(sv.drop_last()) + sum_width(sv.last().0)
    }
}

/// Total display width of the text of `spans` (capped at `usize::MAX`).
pub fn span_text_width(spans: &[InlineSpan]) -> (r: usize)
    ensures
        r == cap(spans_width(spans_view(spans@))),
{
    let ghost sv = spans_view(spans@);
    let mut total: usize = 0;
    let mut i: usize = 0;
    while i < spans.len()
        invariant
            i <= spans@.len(),
            sv == spans_view(spans@),
            total == cap(spans_width(sv.take(i as int))),
        decreases spans@.len() - i,
    {
        let cs = chars_of(spans[i].text.as_str());
        let ghost base = spans_width(sv.take(i as int));
        let mut j: usize = 0;
        assert(cs@.take(0) =~= Seq::<char>::empty());
        while j < cs.len()
            invariant
                j <= cs@.len(),
                total == cap(base + sum_width(cs@.take(j as int))),
            decreases cs@.len() - j,
        {
            assert(cs@.take(j + 1).drop_last() =~= cs@.take(j as int));
            total = total.saturating_add(char_width_or_zero(cs[j]));
            j += 1;
        }
        assert(cs@.take(cs@.len() as int) =~= cs@);
        assert(sv.take(i + 1).drop_last() =~= sv.take(i as int));
        assert(sv[i as int].0 == cs@);
        i += 1;
    }
    assert(sv.take(spans@.len() as int) =~= sv);
    total
}

/// The characters of `cs` that fit in `width` columns after `used` are
/// taken, with an ellipsis in place of the rest when one was cut and a
/// column is left for it; then the columns used and whether it was cut.
pub open spec fn clip_chars(cs: Seq<char>, used: nat, width: nat) -> (Seq<char>, nat, bool)
    decreases cs.len(),
{
    if cs.len() == 0 {
        (Seq::empty(), used, false)
    } else if used + cw(cs[0]) > width {
        (if width > 0 && used < width {
            seq!['\u{2026}']
        } else {
            Seq::empty()
        }, used, true)
    } else {
        let rest = clip_chars(cs.drop_first(), used + cw(cs[0]), width);
        (seq![cs[0]] + rest.0, rest.1, rest.2)
    }
}

/// The spans `sv` clipped to `width` columns after `used` are taken: every
/// span keeps its style; the first cut ends the result.
pub open spec fn clip_spans_from(sv: Seq<SpanV>, used: nat, width: nat) -> Seq<SpanV>
    decreases sv.len(),
{
    if sv.len() == 0 {
        Seq::empty()
    } else {
        let c = clip_chars(sv[0].0, used, width);
        let head = if c.0.len() > 0 {
            seq![(c.0, sv[0].1)]
        } else {
            Seq::empty()
        };
        if c.2 {
            head
        } else {
            head + clip_spans_from(sv.drop_first(), c.1, width)
        }
    }
}

/// `spans_width` and `spans_text` read from the front.
proof fn lemma_spans_first(sv: Seq<SpanV>)
    requires
        sv.len() > 0,
    ensures
        spans_width(sv) == sum_width(sv[0].0) + spans_width(sv.drop_first()),
        spans_text(sv) == sv[0].0 + spans_text(sv.drop_first()),
    decreases sv.len(),
{
    if sv.len() > 1 {
        lemma_spans_first(sv.drop_last());
        assert(sv.drop_last().drop_first() =~= sv.drop_first().drop_last());
        assert(sv.drop_first().last() == sv.last());
        assert(sv.drop_last()[0] == sv[0]);
        assert(spans_width(sv.drop_first()) == spans_width(sv.drop_first().drop_last()) + sum_width(sv.last().0));
        assert(spans_text(sv.drop_first()) == spans_text(sv.drop_first().drop_last()) + sv.last().0);
        assert(spans_text(sv) =~= sv[0].0 + spans_text(sv.drop_first()));
    } else {
        assert(spans_width(sv.drop_first()) == 0);
        assert(spans_width(sv.drop_last()) == 0);
        assert(spans_text(sv.drop_first()) == Seq::<char>::empty());
        assert(spans_text(sv.drop_last()) == Seq::<char>::empty());
        assert(sv.last() == sv[0]);
        assert(spans_text(sv) =~= sv[0].0 + spans_text(sv.drop_first()));
    }
}

proof fn lemma_clip_chars_fits(cs: Seq<char>, used: nat, width: nat)
    requires
        used + sum_width(cs) <= width,
    ensures
        clip_chars(cs, used, width) == (cs, used + sum_width(cs), false),
    decreases cs.len(),
{
    if cs.len() > 0 {
        crate::text::lemma_sum_width_first(cs);
        lemma_clip_chars_fits(cs.drop_first(), used + cw(cs[0]), width);
        assert(seq![cs[0]] + cs.drop_first() =~= cs);
    }
}

proof fn lemma_clip_spans_fits(sv: Seq<SpanV>, used: nat, width: nat)
    requires
        used + spans_width(sv) <= width,
    ensures
        spans_text(clip_spans_from(sv, used, width)) == spans_text(sv),
    decreases sv.len(),
{
    if sv.len() > 0 {
        lemma_spans_first(sv);
        lemma_clip_chars_fits(sv[0].0, used, width);
        lemma_clip_spans_fits(sv.drop_first(), used + sum_width(sv[0].0), width);
        let rest = clip_spans_from(sv.drop_first(), used + sum_width(sv[0].0), width);
        if sv[0].0.len() > 0 {
            let r = seq![(sv[0].0, sv[0].1)] + rest;
            lemma_spans_first(r);
            assert(r.drop_first() =~= rest);
        } else {
            assert(sv[0].0 + spans_text(sv.drop_first()) =~= spans_text(sv.drop_first()));
            assert(seq![] + rest =~= rest);
        }
    }
}

/// What fits is kept whole: clipping spans no wider than `width` columns
/// changes none of their text (and adds no ellipsis).
pub proof fn law_clip_keeps_what_fits(sv: Seq<SpanV>, width: nat)
    requires
        spans_width(sv) <= width,
    ensures
        spans_text(clip_spans_from(sv, 0, width)) == spans_text(sv),
{
    lemma_clip_spans_fits(sv, 0, width);
}

/// `spans` cut to `width` columns, an ellipsis marking the cut.
pub fn clip_spans(spans: &[InlineSpan], width: usize) -> (r: Vec<InlineSpan>)
    ensures
        spans_view(r@) == clip_spans_from(spans_view(spans@), 0, width as nat),
{
    let ghost sv = spans_view(spans@);
    let mut out: Vec<InlineSpan> = Vec::new();
    let mut used: usize = 0;
    let mut i: usize = 0;
    assert(sv.skip(0) =~= sv);
    assert(spans_view(out@) + clip_spans_from(sv.skip(0), 0, width as nat) =~= clip_spans_from(sv, 0, width as nat));
    while i < spans.len()
        invariant
            i <= spans@.len(),
            sv == spans_view(spans@),
            used <= width,
            spans_view(out@) + clip_spans_from(sv.skip(i as int), used as nat, width as nat) == clip_spans_from(sv, 0, width as nat),
        decreases spans@.len() - i,
    {
        let style = spans[i].style;
        let cs = chars_of(spans[i].text.as_str());
        assert(sv[i as int] == (cs@, style));
        assert(sv.skip(i as int)[0] == sv[i as int]);
        assert(sv.skip(i as int).drop_first() =~= sv.skip(i + 1));
        let ghost used0 = used as nat;
        let mut buf: Vec<char> = Vec::new();
        let mut j: usize = 0;
        assert(cs@.skip(0) =~= cs@);
        assert(buf@ + clip_chars(cs@.skip(0), used0, width as nat).0 =~= clip_chars(cs@, used0, width as nat).0);
        while j < cs.len()
            invariant
                j <= cs@.len(),
                used <= width,
                buf@ + clip_chars(cs@.skip(j as int), used as nat, width as nat).0 == clip_chars(cs@, used0, width as nat).0,
                clip_chars(cs@.skip(j as int), used as nat, width as nat).1 == clip_chars(cs@, used0, width as nat).1,
                clip_chars(cs@.skip(j as int), used as nat, width as nat).2 == clip_chars(cs@, used0, width as nat).2,
                sv == spans_view(spans@),
                i < spans@.len(),
                sv.skip(i as int)[0] == (cs@, style),
                sv.skip(i as int).len() > 0,
                spans_view(out@) + clip_spans_from(sv.skip(i as int), used0, width as nat) == clip_spans_from(sv, 0, width as nat),
            decreases cs@.len() - j,
        {
            let ch = cs[j];
            let c = char_width_or_zero(ch);
            assert(cs@.skip(j as int)[0] == ch);
            assert(cs@.skip(j as int).drop_first() =~= cs@.skip(j + 1));
            if c > width - used {
                if width > 0 && used < width {
                    buf.push('\u{2026}');
                }
                let ghost k = clip_chars(cs@, used0, width as nat);
                assert(buf@ =~= k.0);
                assert(k.2);
                let ghost head = if k.0.len() > 0 {
                    seq![(k.0, style)]
                } else {
                    Seq::<SpanV>::empty()
                };
                assert(clip_spans_from(sv.skip(i as int), used0, width as nat) == head);
                if buf.len() > 0 {
                    let ghost before = spans_view(out@);
                    let text = string_from_chars(buf.as_slice());
                    out.push(InlineSpan { text, style });
                    assert(spans_view(out@) =~= before + head);
                } else {
                    assert(spans_view(out@) =~= spans_view(out@) + head);
                }
                return out;
            }
            buf.push(ch);
            used = used + c;
            assert(buf@ + clip_chars(cs@.skip(j + 1), used as nat, width as nat).0 =~= buf@.drop_last() + clip_chars(cs@.skip(j as int), (used - c) as nat, width as nat).0);
            j += 1;
        }
        assert(cs@.skip(cs@.len() as int) =~= Seq::<char>::empty());
        assert(buf@ =~= clip_chars(cs@, used0, width as nat).0);
        let ghost k = clip_chars(cs@, used0, width as nat);
        let ghost head = if k.0.len() > 0 {
            seq![(k.0, style)]
        } else {
            Seq::<SpanV>::empty()
        };
        assert(!k.2 && k.1 == used);
        assert(clip_spans_from(sv.skip(i as int), used0, width as nat) == head + clip_spans_from(sv.skip(i + 1), used as nat, width as nat));
        if buf.len() > 0 {
            let ghost before = spans_view(out@);
            let text = string_from_chars(buf.as_slice());
            out.push(InlineSpan { text, style });
            assert(spans_view(out@) =~= before + seq![(buf@, style)]);
        }
        assert(spans_view(out@) + clip_spans_from(sv.skip(i + 1), used as nat, width as nat) =~= clip_spans_from(sv, 0, width as nat));
        i += 1;
    }
    assert(sv.skip(spans@.len() as int) =~= Seq::<SpanV>::empty());
    assert(spans_view(out@) + Seq::<SpanV>::empty() =~= spans_view(out@));
    out
}

/// The width of cell `i` of a row (0 where the row has no such cell).
pub open spec fn cell_width(cells: Seq<Seq<SpanV>>, i: int) -> nat {
    if 0 <= i < cells.len() {
        cap(spans_width(cells[i]))
    } else {
        0
    }
}

pub open spec fn max_nat(a: nat, b: nat) -> nat {
    if a >= b {
        a
    } else {
        b
    }
}

/// The widest cell `i` over the rows.
pub open spec fn column_max(rows: Seq<Seq<Seq<SpanV>>>, i: int) -> nat
    decreases rows.len(),
{
    if rows.len() == 0 {
        0
    } else {
        max_nat(column_max(rows.drop_last(), i), cell_width(rows.last(), i))
    }
}

/// The number of columns: the most cells of the head or of any row.
pub open spec fn column_count(head: Seq<Seq<SpanV>>, rows: Seq<Seq<Seq<SpanV>>>) -> nat
    decreases rows.len(),
{
    if rows.len() == 0 {
        head.len()
    } else {
        max_nat(column_count(head, rows.drop_last()), rows.last().len())
    }
}

/// The width each column needs: its widest cell, head included.
pub open spec fn natural_widths(head: Seq<Seq<SpanV>>, rows: Seq<Seq<Seq<SpanV>>>) -> Seq<nat> {
    Seq::new(column_count(head, rows), |i: int| max_nat(cell_width(head, i), column_max(rows, i)))
}

pub open spec fn sum_nat(ws: Seq<nat>) -> nat
    decreases ws.len(),
{
    if ws.len() == 0 {
        0
    } else {
        sum_nat(ws.drop_last()) + ws.last()
    }
}

/// The index of the last widest column (`Iterator::max_by_key` keeps the
/// last of equal maxima).
pub open spec fn last_max_index(ws: Seq<nat>) -> int
    decreases ws.len(),
{
    if ws.len() <= 1 {
        0
    } else {
        let m = last_max_index(ws.drop_last());
        if ws.last() >= ws[m] {
            ws.len() - 1
        } else {
            m
        }
    }
}

/// Narrowing the columns by up to `remaining` columns in all: one column at a
/// time from the widest, never below 4 before the cut.
pub open spec fn shrink_widths(ws: Seq<nat>, remaining: nat) -> Seq<nat>
    decreases remaining,
{
    if remaining == 0 || ws.len() == 0 {
        ws
    } else {
        let m = last_max_index(ws);
        if ws[m] <= 3 {
            ws
        } else {
            shrink_widths(ws.update(m, (ws[m] - 1) as nat), (remaining - 1) as nat)
        }
    }
}

/// The column widths of a table drawn in `width` columns: the natural
/// widths, narrowed by how much the table with its frame (three columns per
/// column and one more) overflows `width`.
pub open spec fn table_widths_spec(head: Seq<Seq<SpanV>>, rows: Seq<Seq<Seq<SpanV>>>, width: nat) -> Seq<nat> {
    let ws = natural_widths(head, rows);
    let total = cap(sum_nat(ws) + ws.len() * 3 + 1);
    if total > width {
        shrink_widths(ws, (total - width) as nat)
    } else {
        ws
    }
}

proof fn lemma_last_max_index(ws: Seq<nat>)
    requires
        ws.len() >= 1,
    ensures
        0 <= last_max_index(ws) < ws.len(),
        forall|k: int| 0 <= k < ws.len() ==> #[trigger] ws[k] <= ws[last_max_index(ws)],
        forall|k: int| last_max_index(ws) < k < ws.len() ==> #[trigger] ws[k] < ws[last_max_index(ws)],
    decreases ws.len(),
{
    if ws.len() > 1 {
        let d = ws.drop_last();
        lemma_last_max_index(d);
        assert forall|k: int| 0 <= k < d.len() implies d[k] == ws[k] by {}
    }
}

pub open spec fn nat_view(v: Seq<usize>) -> Seq<nat> {
    v.map_values(|x: usize| x as nat)
}

/// The index of the last largest entry of `ws`.
fn last_max_exec(ws: &Vec<usize>) -> (r: usize)
    requires
        ws@.len() >= 1,
    ensures
        r == last_max_index(nat_view(ws@)),
{
    let ghost nv = nat_view(ws@);
    let mut m: usize = 0;
    let mut k: usize = 1;
    assert(nv.take(1).len() == 1);
    while k < ws.len()
        invariant
            1 <= k <= ws@.len(),
            nv == nat_view(ws@),
            m < k,
            m == last_max_index(nv.take(k as int)),
        decreases ws@.len() - k,
    {
        assert(nv.take(k + 1).drop_last() =~= nv.take(k as int));
        proof {
            lemma_last_max_index(nv.take(k as int));
        }
        if ws[k] >= ws[m] {
            m = k;
        }
        k += 1;
    }
    assert(nv.take(ws@.len() as int) =~= nv);
    m
}

/// The widths of the columns of a table with head `head` and body `rows`
/// drawn in `width` columns (see `table_widths_spec`); none for a table
/// with no cell.
pub fn table_column_widths(head: &[Vec<InlineSpan>], rows: &[Vec<Vec<InlineSpan>>], width: u16) -> (r: Vec<usize>)
    ensures
        nat_view(r@) == table_widths_spec(cells_view(head@), crate::markdown::rows_view(rows@), width as nat),
{
    let ghost hv = cells_view(head@);
    let ghost rv = crate::markdown::rows_view(rows@);
    let mut n: usize = head.len();
    let mut i: usize = 0;
    while i < rows.len()
        invariant
            i <= rows@.len(),
            rv == crate::markdown::rows_view(rows@),
            n == column_count(hv, rv.take(i as int)),
        decreases rows@.len() - i,
    {
        assert(rv.take(i + 1).drop_last() =~= rv.take(i as int));
        if rows[i].len() > n {
            n = rows[i].len();
        }
        i += 1;
    }
    assert(rv.take(rows@.len() as int) =~= rv);
    let ghost nat_ws = natural_widths(hv, rv);
    let mut ws: Vec<usize> = Vec::new();
    let mut c: usize = 0;
    while c < n
        invariant
            c <= n,
            n == column_count(hv, rv),
            hv == cells_view(head@),
            rv == crate::markdown::rows_view(rows@),
            nat_ws == natural_widths(hv, rv),
            nat_view(ws@) == nat_ws.take(c as int),
        decreases n - c,
    {
        let mut w: usize = if c < head.len() {
            span_text_width(head[c].as_slice())
        } else {
            0
        };
        assert(w == cell_width(hv, c as int));
        let mut j: usize = 0;
        while j < rows.len()
            invariant
                j <= rows@.len(),
                c < n,
                n == column_count(hv, rv),
                hv == cells_view(head@),
                nat_ws == natural_widths(hv, rv),
                nat_view(ws@) == nat_ws.take(c as int),
                rv == crate::markdown::rows_view(rows@),
                w == max_nat(cell_width(hv, c as int), column_max(rv.take(j as int), c as int)),
            decreases rows@.len() - j,
        {
            assert(rv.take(j + 1).drop_last() =~= rv.take(j as int));
            if c < rows[j].len() {
                let cw_ = span_text_width(rows[j][c].as_slice());
                assert(rv[j as int][c as int] == spans_view(rows@[j as int]@[c as int]@));
                if cw_ > w {
                    w = cw_;
                }
            }
            j += 1;
        }
        assert(rv.take(rows@.len() as int) =~= rv);
        assert(nat_ws[c as int] == w as nat);
        let ghost before = nat_view(ws@);
        ws.push(w);
        assert(nat_view(ws@) =~= before.push(w as nat));
        assert(nat_ws.take(c + 1) =~= nat_ws.take(c as int).push(nat_ws[c as int]));
        assert(nat_view(ws@) =~= nat_ws.take(c + 1));
        c += 1;
    }
    assert(nat_ws.take(n as int) =~= nat_ws);
    if n == 0 {
        return ws;
    }
    let mut total: usize = 0;
    let mut k: usize = 0;
    while k < n
        invariant
            k <= n == ws@.len(),
            nat_view(ws@) == nat_ws,
            total == cap(sum_nat(nat_ws.take(k as int))),
        decreases n - k,
    {
        assert(nat_ws.take(k + 1).drop_last() =~= nat_ws.take(k as int));
        total = total.saturating_add(ws[k]);
        k += 1;
    }
    assert(nat_ws.take(n as int) =~= nat_ws);
    let frame: usize = if n > (usize::MAX - 1) / 3 {
        usize::MAX
    } else {
        n * 3 + 1
    };
    let total_min = total.saturating_add(frame);
    assert(total_min == cap(sum_nat(nat_ws) + (n as nat) * 3 + 1));
    let avail = width as usize;
    if total_min > avail {
        let mut remaining: usize = total_min - avail;
        let ghost target = shrink_widths(nat_ws, remaining as nat);
        while remaining > 0
            invariant
                ws@.len() == n >= 1,
                shrink_widths(nat_view(ws@), remaining as nat) == target,
            decreases remaining,
        {
            let m = last_max_exec(&ws);
            proof {
                lemma_last_max_index(nat_view(ws@));
            }
            if ws[m] <= 3 {
                remaining = 0;
            } else {
                let ghost before = nat_view(ws@);
                let v = ws[m] - 1;
                ws.set(m, v);
                assert(nat_view(ws@) =~= before.update(m as int, (before[m as int] - 1) as nat));
                remaining -= 1;
            }
        }
        assert(shrink_widths(nat_view(ws@), remaining as nat) == nat_view(ws@));
    }
    ws
}

/// The blank columns left and right of a cell whose text takes `used` of
/// its `width` columns, by the column's alignment: all on the right for
/// left, all on the left for right, split with the extra column on the
/// right for center.
pub fn cell_padding(align: CellAlign, width: usize, used: usize) -> (r: (usize, usize))
    ensures
        r.0 + r.1 == sub_or_zero(width as nat, used as nat),
        align == CellAlign::Left ==> r.0 == 0,
        align == CellAlign::Right ==> r.1 == 0,
        align == CellAlign::Center ==> r.0 == sub_or_zero(width as nat, used as nat) / 2,
{
    let pad = if width >= used {
        width - used
    } else {
        0
    };
    match align {
        CellAlign::Left => (0, pad),
        CellAlign::Right => (pad, 0),
        CellAlign::Center => (pad / 2, pad - pad / 2),
    }
}

/// The text before a list item's first line: two spaces per nesting level,
/// then the number and `". "` for an ordered item, or `"• "`.
pub open spec fn list_marker_spec(ordered: bool, index: u32, depth: u8) -> Seq<char> {
    Seq::new((depth as nat) * 2, |i: int| ' ') + if ordered {
        decimal(index as nat) + seq!['.', ' ']
    } else {
        seq!['\u{2022}', ' ']
    }
}

/// The marker of a list item (see `list_marker_spec`).
pub fn list_marker(ordered: bool, index: u32, depth: u8) -> (r: String)
    ensures
        r@ == list_marker_spec(ordered, index, depth),
{
    let mut s = String::new();
    let n: usize = (depth as usize) * 2;
    let mut i: usize = 0;
    while i < n
        invariant
            i <= n == (depth as nat) * 2,
            s@ == Seq::new(i as nat, |k: int| ' '),
        decreases n - i,
    {
        push_char(&mut s, ' ');
        assert(s@ =~= Seq::new((i + 1) as nat, |k: int| ' '));
        i += 1;
    }
    let ghost pre = s@;
    if ordered {
        push_decimal(&mut s, index as u64);
        push_char(&mut s, '.');
        push_char(&mut s, ' ');
        assert(s@ =~= pre + (decimal(index as nat) + seq!['.', ' ']));
    } else {
        push_char(&mut s, '\u{2022}');
        push_char(&mut s, ' ');
        assert(s@ =~= pre + seq!['\u{2022}', ' ']);
    }
    s
}

} // verus!
