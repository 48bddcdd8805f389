//! Markdown blocks (paragraphs, headings, code, list items, quotes, rules and
//! tables) folded from the event stream of a CommonMark parser.
use crate::text::{chars_of, is_whitespace, is_ws, push_str, string_from_range, trim_start_ws};
use pulldown_cmark::{CodeBlockKind, Event, Options, Parser, Tag, TagEnd};
use vstd::prelude::*;

verus! {

/// Inline styling of a run of text.
#[derive(Clone, Copy, Debug, PartialEq, Eq, Structural)]
pub struct InlineStyle {
    pub bold: bool,
    pub italic: bool,
    pub code: bool,
    pub strike: bool,
    pub link: bool,
}

/// The style with no attribute set.
pub open spec fn plain_style() -> InlineStyle {
    InlineStyle { bold: false, italic: false, code: false, strike: false, link: false }
}

impl Default for InlineStyle {
    fn default() -> (r: Self)
        ensures
            r == plain_style(),
    {
        InlineStyle { bold: false, italic: false, code: false, strike: false, link: false }
    }
}

/// A run of text with one style.
#[derive(Clone, Debug)]
pub struct InlineSpan {
    pub text: String,
    pub style: InlineStyle,
}

/// A span as plain values: its characters and its style.
pub type SpanV = (Seq<char>, InlineStyle);

impl View for InlineSpan {
    type V = SpanV;

    open spec fn view(&self) -> SpanV {
        (self.text@, self.style)
    }
}

/// Alignment of a table column.
#[derive(Clone, Copy, Debug, PartialEq, Eq, Structural)]
pub enum CellAlign {
    Left,
    Center,
    Right,
}

/// One block of a markdown document.
#[derive(Clone, Debug)]
pub enum MdBlock {
    Paragraph(Vec<InlineSpan>),
    Heading { level: u8, spans: Vec<InlineSpan> },
    Code { lang: String, text: String },
    ListItem { ordered: bool, index: u32, depth: u8, spans: Vec<InlineSpan> },
    BlockQuote(Vec<InlineSpan>),
    Hr,
    Table { aligns: Vec<CellAlign>, head: Vec<Vec<InlineSpan>>, rows: Vec<Vec<Vec<InlineSpan>>> },
}

/// A block as plain values.
#[verifier::ext_equal]
pub enum BlockV {
    Paragraph(Seq<SpanV>),
    Heading { level: u8, spans: Seq<SpanV> },
    Code { lang: Seq<char>, text: Seq<char> },
    ListItem { ordered: bool, index: u32, depth: u8, spans: Seq<SpanV> },
    BlockQuote(Seq<SpanV>),
    Hr,
    Table { aligns: Seq<CellAlign>, head: Seq<Seq<SpanV>>, rows: Seq<Seq<Seq<SpanV>>> },
}

pub open spec fn spans_view(v: Seq<InlineSpan>) -> Seq<SpanV> {
    v.map_values(|s: InlineSpan| s@)
}

pub open spec fn cells_view(v: Seq<Vec<InlineSpan>>) -> Seq<Seq<SpanV>> {
    v.map_values(|c: Vec<InlineSpan>| spans_view(c@))
}

pub open spec fn rows_view(v: Seq<Vec<Vec<InlineSpan>>>) -> Seq<Seq<Seq<SpanV>>> {
    v.map_values(|r: Vec<Vec<InlineSpan>>| cells_view(r@))
}

impl View for MdBlock {
    type V = BlockV;

    open spec fn view(&self) -> BlockV {
        match self {
            MdBlock::Paragraph(s) => BlockV::Paragraph(spans_view(s@)),
            MdBlock::Heading { level, spans } => BlockV::Heading {
                level: *level,
                spans: spans_view(spans@),
            },
            MdBlock::Code { lang, text } => BlockV::Code { lang: lang@, text: text@ },
            MdBlock::ListItem { ordered, index, depth, spans } => BlockV::ListItem {
                ordered: *ordered,
                index: *index,
                depth: *depth,
                spans: spans_view(spans@),
            },
            MdBlock::BlockQuote(s) => BlockV::BlockQuote(spans_view(s@)),
            MdBlock::Hr => BlockV::Hr,
            MdBlock::Table { aligns, head, rows } => BlockV::Table {
                aligns: aligns@,
                head: cells_view(head@),
                rows: rows_view(rows@),
            },
        }
    }
}

pub open spec fn blocks_view(v: Seq<MdBlock>) -> Seq<BlockV> {
    v.map_values(|b: MdBlock| b@)
}

/// Kind of a tag, at its start or at its end.
#[derive(Clone, Copy, Debug, PartialEq, Eq, Structural)]
pub enum MdTag {
    Paragraph,
    Heading(u8),
    BlockQuote,
    CodeBlock,
    List,
    Item,
    Table,
    TableHead,
    TableRow,
    TableCell,
    Emphasis,
    Strong,
    Strikethrough,
    Link,
    Other,
}

/// One parser event in plain values. The start of a fenced code block
/// carries its info string, the start of a list its first number (none for a
/// bullet list), the start of a table the alignment of each column (0 for
/// none, 1 left, 2 center, 3 right).
#[derive(Debug)]
pub enum MdEvent {
    Start(MdTag),
    End(MdTag),
    FencedCode(String),
    ListStart(Option<u64>),
    TableStart(Vec<u8>),
    Text(String),
    Code(String),
    SoftBreak,
    HardBreak,
    Rule,
    Other,
}

/// An event as plain values.
#[verifier::ext_equal]
pub enum EvV {
    Start(MdTag),
    End(MdTag),
    FencedCode(Seq<char>),
    ListStart(Option<u64>),
    TableStart(Seq<u8>),
    Text(Seq<char>),
    Code(Seq<char>),
    SoftBreak,
    HardBreak,
    Rule,
    Other,
}

impl View for MdEvent {
    type V = EvV;

    open spec fn view(&self) -> EvV {
        match self {
            MdEvent::Start(t) => EvV::Start(*t),
            MdEvent::End(t) => EvV::End(*t),
            MdEvent::FencedCode(s) => EvV::FencedCode(s@),
            MdEvent::ListStart(n) => EvV::ListStart(*n),
            MdEvent::TableStart(a) => EvV::TableStart(a@),
            MdEvent::Text(s) => EvV::Text(s@),
            MdEvent::Code(s) => EvV::Code(s@),
            MdEvent::SoftBreak => EvV::SoftBreak,
            MdEvent::HardBreak => EvV::HardBreak,
            MdEvent::Rule => EvV::Rule,
            MdEvent::Other => EvV::Other,
        }
    }
}

pub open spec fn events_view(v: Seq<MdEvent>) -> Seq<EvV> {
    v.map_values(|e: MdEvent| e@)
}

/// The events that the CommonMark parser of `pulldown_cmark`, with
/// strikethrough, task lists and tables enabled, yields for `text`.
pub uninterp spec fn markdown_events(text: Seq<char>) -> Seq<EvV>;

/// An open list while the events are folded.
#[derive(Clone, Copy, Debug, PartialEq, Eq, Structural)]
pub struct ListFrame {
    pub ordered: bool,
    pub next_index: u32,
    pub depth: u8,
}

/// The kind of the block whose spans are being gathered.
#[derive(Clone, Copy, Debug, PartialEq, Eq, Structural)]
pub enum TagKind {
    Paragraph,
    Heading(u8),
    BlockQuote,
    ListItem,
    ListItemFor(ListFrame),
}

/// The state of the fold over the events, as plain values.
#[verifier::ext_equal]
pub struct PState {
    pub out: Seq<BlockV>,
    pub style: InlineStyle,
    pub spans: Seq<SpanV>,
    pub kind: Option<TagKind>,
    pub lists: Seq<ListFrame>,
    pub lang: Seq<char>,
    pub code: Seq<char>,
    pub in_code: bool,
    pub aligns: Seq<CellAlign>,
    pub head: Seq<Seq<SpanV>>,
    pub rows: Seq<Seq<Seq<SpanV>>>,
    pub row: Seq<Seq<SpanV>>,
}

pub open spec fn init_state() -> PState {
    PState {
        out: Seq::empty(),
        style: plain_style(),
        spans: Seq::empty(),
        kind: None,
        lists: Seq::empty(),
        lang: Seq::empty(),
        code: Seq::empty(),
        in_code: false,
        aligns: Seq::empty(),
        head: Seq::empty(),
        rows: Seq::empty(),
        row: Seq::empty(),
    }
}

/// The innermost open list, if any.
pub open spec fn last_frame(lists: Seq<ListFrame>) -> Option<ListFrame> {
    if lists.len() > 0 {
        Some(lists.last())
    } else {
        None
    }
}

/// `out` with the block that `spans` of `kind` make (a paragraph only when
/// `spans` is not empty; an unattached list item takes `frame`, or an
/// unordered first item at depth 0).
pub open spec fn flush_spec(
    out: Seq<BlockV>,
    spans: Seq<SpanV>,
    kind: Option<TagKind>,
    frame: Option<ListFrame>,
) -> Seq<BlockV> {
    match kind {
        Some(TagKind::Heading(level)) => out.push(BlockV::Heading { level, spans }),
        Some(TagKind::BlockQuote) => out.push(BlockV::BlockQuote(spans)),
        Some(TagKind::ListItem) => {
            let f = match frame {
                Some(f) => f,
                None => ListFrame { ordered: false, next_index: 1, depth: 0 },
            };
            out.push(BlockV::ListItem { ordered: f.ordered, index: f.next_index, depth: f.depth, spans })
        },
        Some(TagKind::ListItemFor(f)) => out.push(
            BlockV::ListItem { ordered: f.ordered, index: f.next_index, depth: f.depth, spans },
        ),
        _ => if spans.len() > 0 {
            out.push(BlockV::Paragraph(spans))
        } else {
            out
        },
    }
}

/// Opening a block: pending spans are flushed under the previous kind.
pub open spec fn start_spec(st: PState, k: TagKind) -> PState {
    PState {
        out: if st.spans.len() > 0 {
            flush_spec(st.out, st.spans, st.kind, None)
        } else {
            st.out
        },
        spans: Seq::empty(),
        kind: Some(k),
        ..st
    }
}

pub open spec fn is_list_kind(k: Option<TagKind>) -> bool {
    match k {
        Some(TagKind::ListItem) | Some(TagKind::ListItemFor(_)) => true,
        _ => false,
    }
}

/// Closing a block: its spans make a block (a list item even when empty).
pub open spec fn end_spec(st: PState) -> PState {
    PState {
        out: if st.spans.len() > 0 || is_list_kind(st.kind) {
            flush_spec(st.out, st.spans, st.kind, last_frame(st.lists))
        } else {
            st.out
        },
        spans: Seq::empty(),
        kind: None,
        ..st
    }
}

/// The first whitespace-separated word of `s`, or nothing.
pub open spec fn word_at(t: Seq<char>) -> Seq<char>
    decreases t.len(),
{
    if t.len() == 0 || is_ws(t[0]) {
        Seq::empty()
    } else {
        seq![t[0]] + word_at(t.drop_first())
    }
}

pub open spec fn first_word(s: Seq<char>) -> Seq<char> {
    word_at(trim_start_ws(s))
}

/// `s` without trailing line feeds.
pub open spec fn trim_newlines(s: Seq<char>) -> Seq<char>
    decreases s.len(),
{
    if s.len() > 0 && s.last() == '\n' {
        trim_newlines(s.drop_last())
    } else {
        s
    }
}

/// The alignment of a column from its number (none and left are left).
pub open spec fn align_of(a: u8) -> CellAlign {
    if a == 2 {
        CellAlign::Center
    } else if a == 3 {
        CellAlign::Right
    } else {
        CellAlign::Left
    }
}

pub open spec fn aligns_of(a: Seq<u8>) -> Seq<CellAlign> {
    a.map_values(|x: u8| align_of(x))
}

/// The style `st` with one attribute set to `on`, by the tag that holds it.
pub open spec fn restyle(st: InlineStyle, t: MdTag, on: bool) -> InlineStyle {
    match t {
        MdTag::Strong => InlineStyle { bold: on, ..st },
        MdTag::Emphasis => InlineStyle { italic: on, ..st },
        MdTag::Strikethrough => InlineStyle { strike: on, ..st },
        MdTag::Link => InlineStyle { link: on, ..st },
        _ => st,
    }
}

pub open spec fn is_style_tag(t: MdTag) -> bool {
    t == MdTag::Strong || t == MdTag::Emphasis || t == MdTag::Strikethrough || t == MdTag::Link
}

/// One event applied to the fold state.
pub open spec fn step_spec(st: PState, ev: EvV) -> PState {
    match ev {
        EvV::Start(MdTag::Paragraph) => start_spec(st, TagKind::Paragraph),
        EvV::Start(MdTag::Heading(l)) => start_spec(st, TagKind::Heading(l)),
        EvV::Start(MdTag::BlockQuote) => start_spec(st, TagKind::BlockQuote),
        EvV::End(MdTag::Paragraph) | EvV::End(MdTag::Heading(_)) | EvV::End(MdTag::BlockQuote) => end_spec(st),
        EvV::FencedCode(info) => PState { in_code: true, lang: first_word(info), code: Seq::empty(), ..st },
        EvV::Start(MdTag::CodeBlock) => PState { in_code: true, lang: Seq::empty(), code: Seq::empty(), ..st },
        EvV::End(MdTag::CodeBlock) => PState {
            out: st.out.push(BlockV::Code { lang: st.lang, text: trim_newlines(st.code) }),
            lang: Seq::empty(),
            in_code: false,
            code: Seq::empty(),
            ..st
        },
        EvV::ListStart(n) => PState {
            lists: st.lists.push(ListFrame {
                ordered: n is Some,
                next_index: match n {
                    Some(v) => v as u32,
                    None => 1,
                },
                depth: st.lists.len() as u8,
            }),
            ..st
        },
        EvV::End(MdTag::List) => PState {
            lists: if st.lists.len() > 0 {
                st.lists.drop_last()
            } else {
                st.lists
            },
            ..st
        },
        EvV::Start(MdTag::Item) => {
            let s1 = start_spec(st, TagKind::ListItem);
            match last_frame(st.lists) {
                Some(f) => PState { kind: Some(TagKind::ListItemFor(f)), ..s1 },
                None => s1,
            }
        },
        EvV::End(MdTag::Item) => {
            let s1 = end_spec(st);
            if st.lists.len() > 0 && st.lists.last().ordered {
                let f = st.lists.last();
                PState {
                    lists: st.lists.update(
                        st.lists.len() - 1,
                        ListFrame { next_index: (if f.next_index == u32::MAX { 0 } else { f.next_index + 1 }) as u32, ..f },
                    ),
                    ..s1
                }
            } else {
                s1
            }
        },
        EvV::Rule => PState { out: st.out.push(BlockV::Hr), ..st },
        EvV::TableStart(a) => PState { aligns: aligns_of(a), head: Seq::empty(), rows: Seq::empty(), ..st },
        EvV::End(MdTag::Table) => PState {
            out: st.out.push(BlockV::Table { aligns: st.aligns, head: st.head, rows: st.rows }),
            aligns: Seq::empty(),
            head: Seq::empty(),
            rows: Seq::empty(),
            ..st
        },
        EvV::Start(MdTag::TableHead) | EvV::Start(MdTag::TableRow) => PState { row: Seq::empty(), ..st },
        EvV::End(MdTag::TableHead) => PState { head: st.row, row: Seq::empty(), ..st },
        EvV::End(MdTag::TableRow) => PState { rows: st.rows.push(st.row), row: Seq::empty(), ..st },
        EvV::Start(MdTag::TableCell) => PState { spans: Seq::empty(), ..st },
        EvV::End(MdTag::TableCell) => PState { row: st.row.push(st.spans), spans: Seq::empty(), ..st },
        EvV::Start(t) => if is_style_tag(t) {
            PState { style: restyle(st.style, t, true), ..st }
        } else {
            st
        },
        EvV::End(t) => if is_style_tag(t) {
            PState { style: restyle(st.style, t, false), ..st }
        } else {
            st
        },
        EvV::Code(s) => PState { spans: st.spans.push((s, InlineStyle { code: true, ..st.style })), ..st },
        EvV::Text(s) => if st.in_code {
            PState { code: st.code + s, ..st }
        } else {
            PState { spans: st.spans.push((s, st.style)), ..st }
        },
        EvV::SoftBreak | EvV::HardBreak => if st.in_code {
            st
        } else {
            PState { spans: st.spans.push((seq![' '], st.style)), ..st }
        },
        EvV::Other => st,
    }
}

/// The state after folding `evs`.
pub open spec fn run_spec(evs: Seq<EvV>) -> PState
    decreases evs.len(),
{
    if evs.len() == 0 {
        init_state()
    } else {
        step_spec(run_spec(evs.drop_last()), evs.last())
    }
}

/// The blocks of an event stream: the fold, then the pending block closed.
pub open spec fn blocks_of(evs: Seq<EvV>) -> Seq<BlockV> {
    end_spec(run_spec(evs)).out
}

/// The first whitespace-separated word of `s`, or the empty string.
fn first_word_of(s: &str) -> (r: String)
    ensures
        r@ == first_word(s@),
{
    let t = crate::text::trim_start(s);
    let cs = chars_of(t.as_str());
    let mut n: usize = 0;
    assert(cs@.skip(0) =~= cs@);
    assert(cs@.take(0) + word_at(cs@) =~= word_at(cs@));
    while n < cs.len() && !is_whitespace(cs[n])
        invariant
            n <= cs@.len(),
            word_at(cs@) == cs@.take(n as int) + word_at(cs@.skip(n as int)),
        decreases cs@.len() - n,
    {
        assert(cs@.skip(n as int).drop_first() =~= cs@.skip(n + 1));
        assert(cs@.take(n + 1) =~= cs@.take(n as int) + seq![cs@[n as int]]);
        assert(cs@.skip(n as int)[0] == cs@[n as int]);
        assert(cs@.take(n as int) + word_at(cs@.skip(n as int)) =~= cs@.take(n + 1) + word_at(cs@.skip(n + 1)));
        n += 1;
    }
    proof {
        assert(word_at(cs@.skip(n as int)) =~= Seq::<char>::empty());
        assert(cs@.subrange(0, n as int) =~= cs@.take(n as int));
        assert(cs@.skip(0) =~= cs@);
    }
    string_from_range(cs.as_slice(), 0, n)
}

/// `str::trim_end_matches('\n')`, as a new `String`.
fn trim_newlines_of(s: &str) -> (r: String)
    ensures
        r@ == trim_newlines(s@),
{
    let cs = chars_of(s);
    let mut n = cs.len();
    assert(cs@.take(n as int) =~= cs@);
    while n > 0 && cs[n - 1] == '\n'
        invariant
            n <= cs@.len(),
            trim_newlines(cs@) == trim_newlines(cs@.take(n as int)),
        decreases n,
    {
        assert(cs@.take(n as int).drop_last() =~= cs@.take(n - 1));
        n -= 1;
    }
    assert(cs@.subrange(0, n as int) =~= cs@.take(n as int));
    string_from_range(cs.as_slice(), 0, n)
}

/// `out` with the block that `spans` of `kind` make.
fn flush(out: &mut Vec<MdBlock>, spans: Vec<InlineSpan>, kind: Option<TagKind>, frame: Option<ListFrame>)
    ensures
        blocks_view(final(out)@) == flush_spec(blocks_view(old(out)@), spans_view(spans@), kind, frame),
{
    let ghost before = blocks_view(out@);
    match kind {
        Some(TagKind::Heading(level)) => {
            out.push(MdBlock::Heading { level, spans });
        },
        Some(TagKind::BlockQuote) => {
            out.push(MdBlock::BlockQuote(spans));
        },
        Some(TagKind::ListItem) => {
            let f = match frame {
                Some(f) => f,
                None => ListFrame { ordered: false, next_index: 1, depth: 0 },
            };
            out.push(MdBlock::ListItem { ordered: f.ordered, index: f.next_index, depth: f.depth, spans });
        },
        Some(TagKind::ListItemFor(f)) => {
            out.push(MdBlock::ListItem { ordered: f.ordered, index: f.next_index, depth: f.depth, spans });
        },
        _ => {
            if spans.len() > 0 {
                out.push(MdBlock::Paragraph(spans));
            }
        },
    }
    assert(blocks_view(out@) =~= flush_spec(before, spans_view(spans@), kind, frame));
}

/// The column alignments from their numbers.
fn aligns_exec(a: &[u8]) -> (r: Vec<CellAlign>)
    ensures
        r@ == aligns_of(a@),
{
    let mut aligns: Vec<CellAlign> = Vec::new();
    let mut i: usize = 0;
    while i < a.len()
        invariant
            i <= a@.len(),
            aligns@ == aligns_of(a@.take(i as int)),
        decreases a@.len() - i,
    {
        let x = a[i];
        let c = if x == 2 {
            CellAlign::Center
        } else if x == 3 {
            CellAlign::Right
        } else {
            CellAlign::Left
        };
        aligns.push(c);
        assert(aligns_of(a@.take(i + 1)) =~= aligns_of(a@.take(i as int)).push(align_of(x)));
        i += 1;
    }
    assert(a@.take(a@.len() as int) =~= a@);
    aligns
}

/// The fold over the events, in executable values.
struct Builder {
    out: Vec<MdBlock>,
    style: InlineStyle,
    spans: Vec<InlineSpan>,
    kind: Option<TagKind>,
    lists: Vec<ListFrame>,
    lang: String,
    code: String,
    in_code: bool,
    aligns: Vec<CellAlign>,
    head: Vec<Vec<InlineSpan>>,
    rows: Vec<Vec<Vec<InlineSpan>>>,
    row: Vec<Vec<InlineSpan>>,
}

impl View for Builder {
    type V = PState;

    closed spec fn view(&self) -> PState {
        PState {
            out: blocks_view(self.out@),
            style: self.style,
            spans: spans_view(self.spans@),
            kind: self.kind,
            lists: self.lists@,
            lang: self.lang@,
            code: self.code@,
            in_code: self.in_code,
            aligns: self.aligns@,
            head: cells_view(self.head@),
            rows: rows_view(self.rows@),
            row: cells_view(self.row@),
        }
    }
}

impl Builder {
    fn new() -> (r: Builder)
        ensures
            r@ == init_state(),
    {
        let r = Builder {
            out: Vec::new(),
            style: InlineStyle::default(),
            spans: Vec::new(),
            kind: None,
            lists: Vec::new(),
            lang: String::new(),
            code: String::new(),
            in_code: false,
            aligns: Vec::new(),
            head: Vec::new(),
            rows: Vec::new(),
            row: Vec::new(),
        };
        assert(r@ =~= init_state());
        r
    }

    fn take_spans(&mut self) -> (r: Vec<InlineSpan>)
        ensures
            r@ == old(self).spans@,
            final(self).spans@.len() == 0,
            final(self).out == old(self).out,
            final(self).style == old(self).style,
            final(self).kind == old(self).kind,
            final(self).lists == old(self).lists,
            final(self).lang == old(self).lang,
            final(self).code == old(self).code,
            final(self).in_code == old(self).in_code,
            final(self).aligns == old(self).aligns,
            final(self).head == old(self).head,
            final(self).rows == old(self).rows,
            final(self).row == old(self).row,
    {
        let mut taken: Vec<InlineSpan> = Vec::new();
        std::mem::swap(&mut taken, &mut self.spans);
        taken
    }

    fn take_row(&mut self) -> (r: Vec<Vec<InlineSpan>>)
        ensures
            r@ == old(self).row@,
            final(self).row@.len() == 0,
            final(self).out == old(self).out,
            final(self).style == old(self).style,
            final(self).spans == old(self).spans,
            final(self).kind == old(self).kind,
            final(self).lists == old(self).lists,
            final(self).lang == old(self).lang,
            final(self).code == old(self).code,
            final(self).in_code == old(self).in_code,
            final(self).aligns == old(self).aligns,
            final(self).head == old(self).head,
            final(self).rows == old(self).rows,
    {
        let mut taken: Vec<Vec<InlineSpan>> = Vec::new();
        std::mem::swap(&mut taken, &mut self.row);
        taken
    }

    fn start_block(&mut self, k: TagKind)
        ensures
            final(self)@ == start_spec(old(self)@, k),
    {
        if self.spans.len() > 0 {
            let taken = self.take_spans();
            flush(&mut self.out, taken, self.kind, None);
        }
        self.kind = Some(k);
        assert(spans_view(self.spans@) =~= Seq::<SpanV>::empty());
        assert(self@ =~= start_spec(old(self)@, k));
    }

    fn end_block(&mut self)
        ensures
            final(self)@ == end_spec(old(self)@),
    {
        let taken = self.take_spans();
        let k = self.kind;
        self.kind = None;
        let listy = match k {
            Some(TagKind::ListItem) | Some(TagKind::ListItemFor(_)) => true,
            _ => false,
        };
        if taken.len() > 0 || listy {
            let frame = if self.lists.len() > 0 {
                Some(self.lists[self.lists.len() - 1])
            } else {
                None
            };
            flush(&mut self.out, taken, k, frame);
        }
        assert(spans_view(self.spans@) =~= Seq::<SpanV>::empty());
        assert(self@ =~= end_spec(old(self)@));
    }

    fn start_tag(&mut self, t: MdTag)
        ensures
            final(self)@ == step_spec(old(self)@, EvV::Start(t)),
    {
        match t {
            MdTag::Paragraph => self.start_block(TagKind::Paragraph),
            MdTag::Heading(l) => self.start_block(TagKind::Heading(l)),
            MdTag::BlockQuote => self.start_block(TagKind::BlockQuote),
            MdTag::CodeBlock => {
                self.in_code = true;
                self.lang = String::new();
                self.code = String::new();
                assert(self@ =~= step_spec(old(self)@, EvV::Start(t)));
            },
            MdTag::Item => {
                let frame = if self.lists.len() > 0 {
                    Some(self.lists[self.lists.len() - 1])
                } else {
                    None
                };
                self.start_block(TagKind::ListItem);
                match frame {
                    Some(f) => {
                        self.kind = Some(TagKind::ListItemFor(f));
                    },
                    None => {},
                }
                assert(self@ =~= step_spec(old(self)@, EvV::Start(t)));
            },
            MdTag::TableHead | MdTag::TableRow => {
                self.row = Vec::new();
                assert(self@ =~= step_spec(old(self)@, EvV::Start(t)));
            },
            MdTag::TableCell => {
                self.spans = Vec::new();
                assert(self@ =~= step_spec(old(self)@, EvV::Start(t)));
            },
            MdTag::Strong => {
                self.style.bold = true;
                assert(self@ =~= step_spec(old(self)@, EvV::Start(t)));
            },
            MdTag::Emphasis => {
                self.style.italic = true;
                assert(self@ =~= step_spec(old(self)@, EvV::Start(t)));
            },
            MdTag::Strikethrough => {
                self.style.strike = true;
                assert(self@ =~= step_spec(old(self)@, EvV::Start(t)));
            },
            MdTag::Link => {
                self.style.link = true;
                assert(self@ =~= step_spec(old(self)@, EvV::Start(t)));
            },
            _ => {},
        }
    }

    fn end_tag(&mut self, t: MdTag)
        ensures
            final(self)@ == step_spec(old(self)@, EvV::End(t)),
    {
        match t {
            MdTag::Paragraph | MdTag::Heading(_) | MdTag::BlockQuote => self.end_block(),
            MdTag::CodeBlock => {
                let text = trim_newlines_of(self.code.as_str());
                let mut lang = String::new();
                std::mem::swap(&mut lang, &mut self.lang);
                let ghost before = blocks_view(self.out@);
                self.out.push(MdBlock::Code { lang, text });
                assert(blocks_view(self.out@) =~= before.push(BlockV::Code { lang: lang@, text: text@ }));
                self.in_code = false;
                self.code = String::new();
                assert(self@ =~= step_spec(old(self)@, EvV::End(t)));
            },
            MdTag::List => {
                if self.lists.len() > 0 {
                    self.lists.pop();
                }
                assert(self@ =~= step_spec(old(self)@, EvV::End(t)));
            },
            MdTag::Item => {
                self.end_block();
                let n = self.lists.len();
                if n > 0 && self.lists[n - 1].ordered {
                    let f = self.lists[n - 1];
                    let next: u32 = if f.next_index == u32::MAX {
                        0
                    } else {
                        f.next_index + 1
                    };
                    self.lists.set(n - 1, ListFrame { next_index: next, ..f });
                }
                assert(self@ =~= step_spec(old(self)@, EvV::End(t)));
            },
            MdTag::Table => {
                let mut aligns: Vec<CellAlign> = Vec::new();
                std::mem::swap(&mut aligns, &mut self.aligns);
                let mut head: Vec<Vec<InlineSpan>> = Vec::new();
                std::mem::swap(&mut head, &mut self.head);
                let mut rows: Vec<Vec<Vec<InlineSpan>>> = Vec::new();
                std::mem::swap(&mut rows, &mut self.rows);
                let ghost before = blocks_view(self.out@);
                let ghost b = BlockV::Table { aligns: aligns@, head: cells_view(head@), rows: rows_view(rows@) };
                self.out.push(MdBlock::Table { aligns, head, rows });
                assert(blocks_view(self.out@) =~= before.push(b));
                assert(self@ =~= step_spec(old(self)@, EvV::End(t)));
            },
            MdTag::TableHead => {
                let row = self.take_row();
                self.head = row;
                assert(self@ =~= step_spec(old(self)@, EvV::End(t)));
            },
            MdTag::TableRow => {
                let row = self.take_row();
                let ghost before = rows_view(self.rows@);
                self.rows.push(row);
                assert(rows_view(self.rows@) =~= before.push(cells_view(row@)));
                assert(self@ =~= step_spec(old(self)@, EvV::End(t)));
            },
            MdTag::TableCell => {
                let cell = self.take_spans();
                let ghost before = cells_view(self.row@);
                self.row.push(cell);
                assert(cells_view(self.row@) =~= before.push(spans_view(cell@)));
                assert(self@ =~= step_spec(old(self)@, EvV::End(t)));
            },
            MdTag::Strong => {
                self.style.bold = false;
                assert(self@ =~= step_spec(old(self)@, EvV::End(t)));
            },
            MdTag::Emphasis => {
                self.style.italic = false;
                assert(self@ =~= step_spec(old(self)@, EvV::End(t)));
            },
            MdTag::Strikethrough => {
                self.style.strike = false;
                assert(self@ =~= step_spec(old(self)@, EvV::End(t)));
            },
            MdTag::Link => {
                self.style.link = false;
                assert(self@ =~= step_spec(old(self)@, EvV::End(t)));
            },
            _ => {},
        }
    }

    fn push_span(&mut self, text: String, style: InlineStyle)
        ensures
            final(self)@ == (PState { spans: old(self)@.spans.push((text@, style)), ..old(self)@ }),
    {
        let ghost before = spans_view(self.spans@);
        self.spans.push(InlineSpan { text, style });
        assert(spans_view(self.spans@) =~= before.push((text@, style)));
        assert(self@ =~= PState { spans: old(self)@.spans.push((text@, style)), ..old(self)@ });
    }

    fn step(&mut self, ev: &MdEvent)
        ensures
            final(self)@ == step_spec(old(self)@, ev@),
    {
        match ev {
            MdEvent::Start(t) => self.start_tag(*t),
            MdEvent::End(t) => self.end_tag(*t),
            MdEvent::FencedCode(info) => {
                self.in_code = true;
                self.lang = first_word_of(info.as_str());
                self.code = String::new();
                assert(self@ =~= step_spec(old(self)@, ev@));
            },
            MdEvent::ListStart(n) => {
                let next: u32 = match n {
                    Some(v) => *v as u32,
                    None => 1,
                };
                let depth = self.lists.len() as u8;
                self.lists.push(ListFrame { ordered: n.is_some(), next_index: next, depth });
                assert(self@ =~= step_spec(old(self)@, ev@));
            },
            MdEvent::TableStart(a) => {
                let aligns = aligns_exec(a.as_slice());
                self.aligns = aligns;
                self.head = Vec::new();
                self.rows = Vec::new();
                assert(self@ =~= step_spec(old(self)@, ev@));
            },
            MdEvent::Text(s) => {
                if self.in_code {
                    push_str(&mut self.code, s.as_str());
                    assert(self@ =~= step_spec(old(self)@, ev@));
                } else {
                    let style = self.style;
                    self.push_span(s.clone(), style);
                }
            },
            MdEvent::Code(s) => {
                let style = InlineStyle { code: true, ..self.style };
                self.push_span(s.clone(), style);
            },
            MdEvent::SoftBreak | MdEvent::HardBreak => {
                if !self.in_code {
                    let style = self.style;
                    let sp = crate::text::string_lit(" ");
                    proof {
                        reveal_strlit(" ");
                    }
                    assert(sp@ =~= seq![' ']);
                    self.push_span(sp, style);
                }
            },
            MdEvent::Rule => {
                let ghost before = blocks_view(self.out@);
                self.out.push(MdBlock::Hr);
                assert(blocks_view(self.out@) =~= before.push(BlockV::Hr));
                assert(self@ =~= step_spec(old(self)@, ev@));
            },
            MdEvent::Other => {},
        }
    }
}

/// The blocks that the events `events` describe, folded in order: a block
/// is opened at the start of a paragraph, heading, quote or list item and
/// made when it closes (a paragraph only when it has text); fenced and
/// indented code, rules and tables become blocks of their own.
pub fn parse_events(events: &[MdEvent]) -> (r: Vec<MdBlock>)
    ensures
        blocks_view(r@) == blocks_of(events_view(events@)),
{
    let mut b = Builder::new();
    let ghost evs = events_view(events@);
    let mut i: usize = 0;
    while i < events.len()
        invariant
            i <= events@.len(),
            evs == events_view(events@),
            b@ == run_spec(evs.take(i as int)),
        decreases events@.len() - i,
    {
        assert(evs.take(i + 1).drop_last() =~= evs.take(i as int));
        b.step(&events[i]);
        i += 1;
    }
    assert(evs.take(events@.len() as int) =~= evs);
    b.end_block();
    b.out
}

/// The markdown blocks of `text`.
pub fn parse(text: &str) -> (r: Vec<MdBlock>)
    ensures
        blocks_view(r@) == blocks_of(markdown_events(text@)),
{
    let events = md_events(text);
    parse_events(events.as_slice())
}

/// Declares `pulldown_cmark::TagEnd`.
#[verifier::external_type_specification]
#[verifier::external_body]
pub struct ExTagEnd(TagEnd);

/// Declares `pulldown_cmark::Tag`.
#[verifier::external_type_specification]
#[verifier::external_body]
pub struct ExTag<'a>(Tag<'a>);

/// Runs `pulldown_cmark::Parser::new_ext` over `text`, with strikethrough,
/// task lists and tables enabled, and gives each event in plain values.
/// Claimed: the result is a function of `text` alone (`markdown_events`).
#[verifier::external_body]
fn md_events(text: &str) -> (r: Vec<MdEvent>)
    ensures
        events_view(r@) == markdown_events(text@),
{
    let opts = Options::ENABLE_STRIKETHROUGH | Options::ENABLE_TASKLISTS | Options::ENABLE_TABLES;
    let convert = |e: Event| match e {
        Event::Start(t) => md_start(t),
        Event::End(t) => MdEvent::End(md_tag(t)),
        Event::Text(s) => MdEvent::Text(s.into_string()),
        Event::Code(s) => MdEvent::Code(s.into_string()),
        Event::SoftBreak => MdEvent::SoftBreak,
        Event::HardBreak => MdEvent::HardBreak,
        Event::Rule => MdEvent::Rule,
        _ => MdEvent::Other,
    };
    Parser::new_ext(text, opts).map(convert).collect()
}

/// Converts the start of a `pulldown_cmark::Tag` for `md_events`: the info
/// string of a fenced code block, the first number of a list, the column
/// alignments of a table (by their declaration order), else the tag's kind.
#[verifier::external_body]
fn md_start(t: Tag<'_>) -> MdEvent {
    match t {
        Tag::CodeBlock(CodeBlockKind::Fenced(s)) => MdEvent::FencedCode(s.into_string()),
        Tag::List(n) => MdEvent::ListStart(n),
        Tag::Table(a) => MdEvent::TableStart(a.into_iter().map(|x| x as u8).collect()),
        t => MdEvent::Start(md_tag(t.to_end())),
    }
}

/// Converts a `pulldown_cmark::TagEnd` for `md_events`: one kind per variant
/// that the blocks use, the heading level as its number.
#[verifier::external_body]
fn md_tag(t: TagEnd) -> MdTag {
    match t {
        TagEnd::Paragraph => MdTag::Paragraph,
        TagEnd::Heading(level) => MdTag::Heading(level as u8),
        TagEnd::BlockQuote(_) => MdTag::BlockQuote, TagEnd::CodeBlock => MdTag::CodeBlock,
        TagEnd::List(_) => MdTag::List, TagEnd::Item => MdTag::Item,
        TagEnd::Table => MdTag::Table,
        TagEnd::TableHead => MdTag::TableHead,
        TagEnd::TableRow => MdTag::TableRow,
        TagEnd::TableCell => MdTag::TableCell,
        TagEnd::Emphasis => MdTag::Emphasis,
        TagEnd::Strong => MdTag::Strong,
        TagEnd::Strikethrough => MdTag::Strikethrough,
        TagEnd::Link => MdTag::Link,
        _ => MdTag::Other,
    }
}

} // verus!
