//! The markdown blocks checked against a direct fold of the parser's
//! events, written here with plain Rust, over a corpus of documents.
use pulldown_cmark::{Alignment, CodeBlockKind, Event, HeadingLevel, Options, Parser, Tag, TagEnd};
use reasonix_render::markdown::{parse, CellAlign, InlineSpan, InlineStyle, MdBlock};

#[derive(Clone, Copy)]
struct Frame {
    ordered: bool,
    next_index: u32,
    depth: u8,
}

#[derive(Clone, Copy)]
enum Kind {
    Paragraph,
    Heading(u8),
    Quote,
    Item(Option<Frame>),
}

fn push_block(out: &mut Vec<MdBlock>, spans: Vec<InlineSpan>, kind: Option<Kind>, active: Option<Frame>) {
    match kind {
        Some(Kind::Heading(level)) => out.push(MdBlock::Heading { level, spans }),
        Some(Kind::Quote) => out.push(MdBlock::BlockQuote(spans)),
        Some(Kind::Item(f)) => {
            let f = f.or(active).unwrap_or(Frame { ordered: false, next_index: 1, depth: 0 });
            out.push(MdBlock::ListItem { ordered: f.ordered, index: f.next_index, depth: f.depth, spans });
        }
        Some(Kind::Paragraph) | None => {
            if !spans.is_empty() {
                out.push(MdBlock::Paragraph(spans));
            }
        }
    }
}

fn begin(out: &mut Vec<MdBlock>, spans: &mut Vec<InlineSpan>, kind: &mut Option<Kind>, new: Kind) {
    if !spans.is_empty() {
        push_block(out, std::mem::take(spans), *kind, None);
    }
    *kind = Some(new);
}

fn finish(out: &mut Vec<MdBlock>, spans: &mut Vec<InlineSpan>, kind: &mut Option<Kind>, active: Option<Frame>) {
    let taken = std::mem::take(spans);
    let k = kind.take();
    if !taken.is_empty() || matches!(k, Some(Kind::Item(_))) {
        push_block(out, taken, k, active);
    }
}

fn expected_blocks(text: &str) -> Vec<MdBlock> {
    let opts = Options::ENABLE_STRIKETHROUGH | Options::ENABLE_TASKLISTS | Options::ENABLE_TABLES;
    let mut out = Vec::new();
    let mut style = InlineStyle::default();
    let mut spans: Vec<InlineSpan> = Vec::new();
    let mut kind: Option<Kind> = None;
    let mut lists: Vec<Frame> = Vec::new();
    let (mut lang, mut code, mut in_code) = (String::new(), String::new(), false);
    let mut aligns: Vec<CellAlign> = Vec::new();
    let mut head: Vec<Vec<InlineSpan>> = Vec::new();
    let mut rows: Vec<Vec<Vec<InlineSpan>>> = Vec::new();
    let mut row: Vec<Vec<InlineSpan>> = Vec::new();
    for ev in Parser::new_ext(text, opts) {
        match ev {
            Event::Start(Tag::Paragraph) => begin(&mut out, &mut spans, &mut kind, Kind::Paragraph),
            Event::Start(Tag::Heading { level, .. }) => {
                let l = match level {
                    HeadingLevel::H1 => 1,
                    HeadingLevel::H2 => 2,
                    HeadingLevel::H3 => 3,
                    HeadingLevel::H4 => 4,
                    HeadingLevel::H5 => 5,
                    HeadingLevel::H6 => 6,
                };
                begin(&mut out, &mut spans, &mut kind, Kind::Heading(l))
            }
            Event::Start(Tag::BlockQuote(_)) => begin(&mut out, &mut spans, &mut kind, Kind::Quote),
            Event::End(TagEnd::Paragraph) | Event::End(TagEnd::Heading(_)) | Event::End(TagEnd::BlockQuote(_)) => {
                finish(&mut out, &mut spans, &mut kind, lists.last().copied())
            }
            Event::Start(Tag::CodeBlock(k)) => {
                in_code = true;
                lang = match k {
                    CodeBlockKind::Fenced(s) => s.split_whitespace().next().unwrap_or("").to_string(),
                    CodeBlockKind::Indented => String::new(),
                };
                code.clear();
            }
            Event::End(TagEnd::CodeBlock) => {
                out.push(MdBlock::Code { lang: std::mem::take(&mut lang), text: code.trim_end_matches('\n').to_string() });
                in_code = false;
                code.clear();
            }
            Event::Start(Tag::List(start)) => lists.push(Frame {
                ordered: start.is_some(),
                next_index: start.unwrap_or(1) as u32,
                depth: lists.len() as u8,
            }),
            Event::End(TagEnd::List(_)) => {
                lists.pop();
            }
            Event::Start(Tag::Item) => {
                let f = lists.last().copied();
                begin(&mut out, &mut spans, &mut kind, Kind::Item(f));
            }
            Event::End(TagEnd::Item) => {
                finish(&mut out, &mut spans, &mut kind, lists.last().copied());
                if let Some(f) = lists.last_mut() {
                    if f.ordered {
                        f.next_index = f.next_index.wrapping_add(1);
                    }
                }
            }
            Event::Rule => out.push(MdBlock::Hr),
            Event::Start(Tag::Table(a)) => {
                aligns = a
                    .into_iter()
                    .map(|x| match x {
                        Alignment::Left | Alignment::None => CellAlign::Left,
                        Alignment::Center => CellAlign::Center,
                        Alignment::Right => CellAlign::Right,
                    })
                    .collect();
                head.clear();
                rows.clear();
            }
            Event::End(TagEnd::Table) => out.push(MdBlock::Table {
                aligns: std::mem::take(&mut aligns),
                head: std::mem::take(&mut head),
                rows: std::mem::take(&mut rows),
            }),
            Event::Start(Tag::TableHead) | Event::Start(Tag::TableRow) => row = Vec::new(),
            Event::End(TagEnd::TableHead) => head = std::mem::take(&mut row),
            Event::End(TagEnd::TableRow) => rows.push(std::mem::take(&mut row)),
            Event::Start(Tag::TableCell) => spans.clear(),
            Event::End(TagEnd::TableCell) => row.push(std::mem::take(&mut spans)),
            Event::Start(Tag::Strong) => style.bold = true,
            Event::End(TagEnd::Strong) => style.bold = false,
            Event::Start(Tag::Emphasis) => style.italic = true,
            Event::End(TagEnd::Emphasis) => style.italic = false,
            Event::Start(Tag::Strikethrough) => style.strike = true,
            Event::End(TagEnd::Strikethrough) => style.strike = false,
            Event::Start(Tag::Link { .. }) => style.link = true,
            Event::End(TagEnd::Link) => style.link = false,
            Event::Code(s) => {
                let mut st = style;
                st.code = true;
                spans.push(InlineSpan { text: s.into_string(), style: st });
            }
            Event::Text(s) => {
                if in_code {
                    code.push_str(&s);
                } else {
                    spans.push(InlineSpan { text: s.into_string(), style });
                }
            }
            Event::SoftBreak | Event::HardBreak if !in_code => {
                spans.push(InlineSpan { text: " ".to_string(), style })
            }
            _ => {}
        }
    }
    finish(&mut out, &mut spans, &mut kind, lists.last().copied());
    out
}

const CORPUS: [&str; 24] = [
    "",
    "   ",
    "plain words",
    "one\ntwo  \nthree",
    "# Title\n\nbody *em* **strong** ~~gone~~ `code` [link](http://x)",
    "###### six\n## two",
    "```rust extra\nfn main() {}\n\n```\n",
    "    indented\n    code\n",
    "- a\n- b\n  - nested\n  - more\n- c",
    "3. three\n4. four\n\n   second paragraph\n5. five",
    "- [x] done\n- [ ] todo",
    "> quoted *text*\n> still\n\n> again",
    "a\n\n---\n\nb",
    "| a | b | c |\n|:--|:-:|--:|\n| 1 | **2** | 3 |\n| x |",
    "| only |\n|---|",
    "text <span>html</span> more",
    "- \n- item",
    "1. \n2. x",
    "> - quoted list\n> - two",
    "* **bold *nested* end**",
    "para\n```\ncode in para\n```\nafter",
    "- a\n\n  ```\n  code in item\n  ```\n- b",
    "line with trailing spaces   \nnext",
    "\\# not a heading\n\n***",
];

#[test]
fn blocks_match_a_direct_fold_of_the_events() {
    for doc in CORPUS {
        assert_eq!(format!("{:?}", parse(doc)), format!("{:?}", expected_blocks(doc)), "document {doc:?}");
    }
}
