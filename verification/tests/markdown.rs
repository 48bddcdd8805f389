use reasonix_render::markdown::{parse, parse_events, CellAlign, InlineSpan, InlineStyle, MdBlock, MdEvent, MdTag};
use reasonix_render::md_render::{
    block_rows, cell_padding, clip_spans, count_visual_rows, list_marker, rows_of_blocks,
    span_text_width, table_column_widths, wrap_spans,
};

fn plain(t: &str) -> InlineSpan {
    InlineSpan { text: t.to_string(), style: InlineStyle::default() }
}

fn texts(spans: &[InlineSpan]) -> Vec<String> {
    spans.iter().map(|s| s.text.clone()).collect()
}

const DOC: &str = "# Title\n\nHello *world*\n\n- a\n- b\n\n1. x\n2. y\n\n```rust\nfn main() {}\n```\n\n> quote\n\n---\n\n| A | B |\n|:-|-:|\n| 1 | 2 |\n";

#[test]
fn parse_gives_the_blocks_in_order() {
    let blocks = parse(DOC);
    assert_eq!(blocks.len(), 10, "{blocks:?}");
    match &blocks[0] {
        MdBlock::Heading { level, spans } => {
            assert_eq!(*level, 1);
            assert_eq!(texts(spans), vec!["Title"]);
        }
        b => panic!("{b:?}"),
    }
    match &blocks[1] {
        MdBlock::Paragraph(spans) => {
            assert_eq!(texts(spans), vec!["Hello ", "world"]);
            assert!(!spans[0].style.italic);
            assert!(spans[1].style.italic);
        }
        b => panic!("{b:?}"),
    }
    match (&blocks[2], &blocks[3]) {
        (
            MdBlock::ListItem { ordered: false, index: 1, depth: 0, spans: a },
            MdBlock::ListItem { ordered: false, index: 1, depth: 0, spans: b },
        ) => {
            assert_eq!(texts(a), vec!["a"]);
            assert_eq!(texts(b), vec!["b"]);
        }
        b => panic!("{b:?}"),
    }
    match (&blocks[4], &blocks[5]) {
        (
            MdBlock::ListItem { ordered: true, index: 1, .. },
            MdBlock::ListItem { ordered: true, index: 2, .. },
        ) => {}
        b => panic!("{b:?}"),
    }
    match &blocks[6] {
        MdBlock::Code { lang, text } => {
            assert_eq!(lang, "rust");
            assert_eq!(text, "fn main() {}");
        }
        b => panic!("{b:?}"),
    }
    assert!(matches!(&blocks[7], MdBlock::Paragraph(s) if texts(s) == vec!["quote"]));
    assert!(matches!(&blocks[8], MdBlock::Hr));
    match &blocks[9] {
        MdBlock::Table { aligns, head, rows } => {
            assert_eq!(aligns, &vec![CellAlign::Left, CellAlign::Right]);
            assert_eq!(head.len(), 2);
            assert_eq!(texts(&head[0]), vec!["A"]);
            assert_eq!(rows.len(), 1);
            assert_eq!(texts(&rows[0][1]), vec!["2"]);
        }
        b => panic!("{b:?}"),
    }
}

#[test]
fn rows_of_the_document() {
    assert_eq!(count_visual_rows(DOC, 40), 14);
    assert_eq!(count_visual_rows("", 40), 0);
    let blocks = parse(DOC);
    assert_eq!(rows_of_blocks(&blocks, 40), 14);
}

#[test]
fn events_fold_into_blocks() {
    let events = vec![
        MdEvent::Start(MdTag::Paragraph),
        MdEvent::Text("one".to_string()),
        MdEvent::SoftBreak,
        MdEvent::Start(MdTag::Strong),
        MdEvent::Text("two".to_string()),
        MdEvent::End(MdTag::Strong),
        MdEvent::End(MdTag::Paragraph),
        MdEvent::ListStart(Some(7)),
        MdEvent::Start(MdTag::Item),
        MdEvent::End(MdTag::Item),
        MdEvent::Start(MdTag::Item),
        MdEvent::Code("c".to_string()),
        MdEvent::End(MdTag::Item),
        MdEvent::End(MdTag::List),
        MdEvent::FencedCode("py extra".to_string()),
        MdEvent::Text("x = 1\n\n".to_string()),
        MdEvent::End(MdTag::CodeBlock),
        MdEvent::Text("dangling".to_string()),
    ];
    let blocks = parse_events(&events);
    assert_eq!(blocks.len(), 5, "{blocks:?}");
    match &blocks[0] {
        MdBlock::Paragraph(s) => {
            assert_eq!(texts(s), vec!["one", " ", "two"]);
            assert!(s[2].style.bold);
            assert!(!s[0].style.bold);
        }
        b => panic!("{b:?}"),
    }
    assert!(matches!(&blocks[1], MdBlock::ListItem { ordered: true, index: 7, depth: 0, spans } if spans.is_empty()));
    match &blocks[2] {
        MdBlock::ListItem { ordered: true, index: 8, spans, .. } => {
            assert_eq!(texts(spans), vec!["c"]);
            assert!(spans[0].style.code);
        }
        b => panic!("{b:?}"),
    }
    assert!(matches!(&blocks[3], MdBlock::Code { lang, text } if lang == "py" && text == "x = 1"));
    assert!(matches!(&blocks[4], MdBlock::Paragraph(s) if texts(s) == vec!["dangling"]));
}

#[test]
fn spans_wrap_across_styles() {
    let spans = vec![plain("abc"), InlineSpan { text: "defg".to_string(), style: InlineStyle { bold: true, ..Default::default() } }];
    let lines = wrap_spans(&spans, 5);
    assert_eq!(lines.len(), 2);
    assert_eq!(texts(&lines[0]), vec!["abc", "de"]);
    assert_eq!(texts(&lines[1]), vec!["fg"]);
    assert!(lines[1][0].style.bold);
    assert_eq!(wrap_spans(&[], 5).len(), 1);
    assert_eq!(wrap_spans(&[plain("ab")], 0).len(), 2);
}

#[test]
fn clipping_marks_the_cut() {
    let spans = vec![plain("abc"), plain("defg")];
    assert_eq!(texts(&clip_spans(&spans, 5)), vec!["abc", "de"]);
    assert_eq!(texts(&clip_spans(&[plain("abc日本")], 4)), vec!["abc…"]);
    assert_eq!(texts(&clip_spans(&spans, 3)), vec!["abc"]);
    assert_eq!(texts(&clip_spans(&spans, 10)), vec!["abc", "defg"]);
    assert_eq!(span_text_width(&spans), 7);
}

#[test]
fn table_columns_shrink_to_fit() {
    let head = vec![vec![plain("name")], vec![plain("description")]];
    let rows = vec![vec![vec![plain("x")], vec![plain("a much longer cell")]]];
    assert_eq!(table_column_widths(&head, &rows, 80), vec![4, 18]);
    assert_eq!(table_column_widths(&head, &rows, 20), vec![4, 9]);
    assert_eq!(table_column_widths(&[], &[], 20), Vec::<usize>::new());
}

#[test]
fn cell_padding_by_alignment() {
    assert_eq!(cell_padding(CellAlign::Left, 10, 4), (0, 6));
    assert_eq!(cell_padding(CellAlign::Right, 10, 4), (6, 0));
    assert_eq!(cell_padding(CellAlign::Center, 10, 3), (3, 4));
    assert_eq!(cell_padding(CellAlign::Center, 2, 5), (0, 0));
}

#[test]
fn list_markers_and_rows() {
    assert_eq!(list_marker(true, 12, 1), "  12. ");
    assert_eq!(list_marker(false, 1, 0), "• ");
    let item = MdBlock::ListItem { ordered: true, index: 100, depth: 1, spans: vec![plain("abcdefgh")] };
    assert_eq!(block_rows(&item, 11), 2);
    assert_eq!(block_rows(&MdBlock::Hr, 3), 1);
    let table = MdBlock::Table { aligns: vec![], head: vec![vec![plain("h")]], rows: vec![vec![], vec![]] };
    assert_eq!(block_rows(&table, 10), 6);
}
