//! Markdown layout checked against direct loops written here with plain
//! Rust, over many documents and widths.
use reasonix_render::markdown::{parse, InlineSpan, InlineStyle, MdBlock};
use reasonix_render::md_render::{block_plan, BorderKind, MdRow, RowLead};
use reasonix_render::md_render::{block_rows, clip_spans, count_visual_rows, span_text_width, table_column_widths, wrap_spans};
use unicode_width::UnicodeWidthChar;

fn cw(c: char) -> usize {
    UnicodeWidthChar::width(c).unwrap_or(0)
}

fn expected_wrap(spans: &[InlineSpan], width: u16) -> Vec<Vec<InlineSpan>> {
    let w = width.max(1) as usize;
    let mut out: Vec<Vec<InlineSpan>> = Vec::new();
    let mut current: Vec<InlineSpan> = Vec::new();
    let mut current_w = 0usize;
    let mut buf = String::new();
    for span in spans {
        buf.clear();
        for ch in span.text.chars() {
            if current_w + cw(ch) > w && (current_w > 0 || !buf.is_empty()) {
                if !buf.is_empty() {
                    current.push(InlineSpan { text: std::mem::take(&mut buf), style: span.style });
                }
                out.push(std::mem::take(&mut current));
                current_w = 0;
            }
            buf.push(ch);
            current_w += cw(ch);
        }
        if !buf.is_empty() {
            current.push(InlineSpan { text: std::mem::take(&mut buf), style: span.style });
        }
    }
    if !current.is_empty() {
        out.push(current);
    }
    if out.is_empty() {
        out.push(Vec::new());
    }
    out
}

fn expected_clip(spans: &[InlineSpan], width: usize) -> Vec<InlineSpan> {
    let mut out = Vec::new();
    let mut used = 0usize;
    for span in spans {
        let mut buf = String::new();
        for ch in span.text.chars() {
            if used + cw(ch) > width {
                if width > 0 && used < width {
                    buf.push('…');
                }
                if !buf.is_empty() {
                    out.push(InlineSpan { text: buf, style: span.style });
                }
                return out;
            }
            buf.push(ch);
            used += cw(ch);
        }
        if !buf.is_empty() {
            out.push(InlineSpan { text: buf, style: span.style });
        }
    }
    out
}

fn digits(n: u32) -> u16 {
    n.max(1).to_string().len() as u16
}

fn expected_rows(block: &MdBlock, width: u16) -> usize {
    match block {
        MdBlock::Paragraph(spans) => expected_wrap(spans, width).len().max(1),
        MdBlock::Heading { .. } | MdBlock::Hr => 1,
        MdBlock::Code { text, .. } => text.lines().count().max(1),
        MdBlock::ListItem { ordered, index, depth, spans } => {
            let marker = (*depth as u16) * 2 + if *ordered { digits(*index) + 2 } else { 2 };
            expected_wrap(spans, width.saturating_sub(marker)).len().max(1)
        }
        MdBlock::BlockQuote(spans) => expected_wrap(spans, width.saturating_sub(2)).len().max(1),
        MdBlock::Table { head, rows, .. } => 2 + if head.is_empty() { 0 } else { 2 } + rows.len(),
    }
}

fn text_width(spans: &[InlineSpan]) -> usize {
    spans.iter().flat_map(|s| s.text.chars()).map(cw).sum()
}

fn expected_widths(head: &[Vec<InlineSpan>], rows: &[Vec<Vec<InlineSpan>>], width: u16) -> Vec<usize> {
    let n = head.len().max(rows.iter().map(|r| r.len()).max().unwrap_or(0));
    if n == 0 {
        return Vec::new();
    }
    let mut ws = vec![0usize; n];
    for (i, c) in head.iter().enumerate() {
        ws[i] = ws[i].max(text_width(c));
    }
    for r in rows {
        for (i, c) in r.iter().enumerate() {
            ws[i] = ws[i].max(text_width(c));
        }
    }
    let total: usize = ws.iter().sum::<usize>() + n * 3 + 1;
    if total > width as usize {
        let mut remaining = total - width as usize;
        while remaining > 0 {
            let idx = ws.iter().enumerate().max_by_key(|(_, w)| **w).map(|(i, _)| i).unwrap_or(0);
            if ws[idx] <= 3 {
                break;
            }
            ws[idx] -= 1;
            remaining -= 1;
        }
    }
    ws
}

fn span(text: &str, bold: bool) -> InlineSpan {
    InlineSpan { text: text.to_string(), style: InlineStyle { bold, ..InlineStyle::default() } }
}

const DOCS: [&str; 12] = [
    "a plain paragraph of several words that wraps around",
    "# heading\n\nsome *mixed* **styles** and `code` here and there",
    "- item one\n- item two with more words\n  - nested deeper item text",
    "9. nine\n10. ten\n11. eleven with text",
    "0. zero start\n1. one",
    "> a quote that goes on and on for a while",
    "```\nx\ny\n\nz\n```",
    "| col | other |\n|---|:-:|\n| 1 | 2 |\n| long cell text | x |",
    "日本語のテキストと English mixed together in one line",
    "---",
    "",
    "tab\tseparated\ttext and emoji 🎉🎉 wide",
];

#[test]
fn wrapping_and_clipping_match_the_direct_loops() {
    let spans = vec![span("hello ", false), span("wide 日本語 world", true), span("", false), span("!", false)];
    for w in 0..30u16 {
        assert_eq!(format!("{:?}", wrap_spans(&spans, w)), format!("{:?}", expected_wrap(&spans, w)), "width {w}");
        assert_eq!(format!("{:?}", clip_spans(&spans, w as usize)), format!("{:?}", expected_clip(&spans, w as usize)), "width {w}");
    }
    assert_eq!(span_text_width(&spans), text_width(&spans));
}

#[test]
fn block_rows_match_the_direct_count() {
    for doc in DOCS {
        let blocks = parse(doc);
        for w in [0u16, 1, 3, 8, 20, 80] {
            let mut total = 0usize;
            for b in &blocks {
                assert_eq!(block_rows(b, w), expected_rows(b, w), "doc {doc:?} width {w} block {b:?}");
                total += expected_rows(b, w);
            }
            assert_eq!(count_visual_rows(doc, w), total, "doc {doc:?} width {w}");
        }
    }
}

#[test]
fn table_widths_match_the_direct_shrink() {
    let head = vec![vec![span("name", true)], vec![span("description", false)], vec![span("x", false)]];
    let rows = vec![
        vec![vec![span("alpha", false)], vec![span("a long description text", false)], vec![span("1", false)]],
        vec![vec![span("beta", false)], vec![span("short", false)]],
        vec![vec![span("g", false)], vec![span("", false)], vec![span("3", false)], vec![span("extra", false)]],
    ];
    for w in 0..60u16 {
        assert_eq!(table_column_widths(&head, &rows, w), expected_widths(&head, &rows, w), "width {w}");
    }
    assert_eq!(table_column_widths(&[], &[], 10), Vec::<usize>::new());
}

#[test]
fn wrapped_lines_put_back_together_are_the_spans() {
    let spans = vec![span("hello ", false), span("wide 日本語 world", true), span("", false), span("!", false)];
    let whole: String = spans.iter().map(|s| s.text.as_str()).collect();
    for w in 0..30u16 {
        let lines = wrap_spans(&spans, w);
        assert!(!lines.is_empty());
        let back: String = lines.iter().flatten().map(|s| s.text.as_str()).collect();
        assert_eq!(back, whole, "width {w}");
    }
    let two = wrap_spans(&[span("abcdef", true)], 4);
    assert_eq!(two.len(), 2);
    assert_eq!(two[0][0].text, "abcd");
    assert_eq!(two[1][0].text, "ef");
    assert!(two[1][0].style.bold);
}

#[test]
fn clipping_keeps_what_fits_whole() {
    let spans = vec![span("ab", false), span("", true), span("日本", true)];
    let text = |v: &[InlineSpan]| v.iter().map(|s| s.text.as_str()).collect::<String>();
    for w in 6..12usize {
        assert_eq!(text(&clip_spans(&spans, w)), "ab日本", "width {w}");
    }
    assert_eq!(text(&clip_spans(&spans, 5)), "ab日\u{2026}");
    assert!(clip_spans(&spans, 0).is_empty());
}

#[test]
fn painted_rows_are_the_counted_rows() {
    for doc in DOCS {
        for b in parse(doc) {
            let empty_code = matches!(&b, MdBlock::Code { text, .. } if text.lines().count() == 0);
            for w in [0u16, 1, 3, 8, 20, 80] {
                if !empty_code {
                    assert_eq!(block_plan(&b, w).len(), block_rows(&b, w), "doc {doc:?} width {w}");
                }
            }
        }
    }
    let blocks = parse("1. first item text\n");
    let plan = block_plan(&blocks[0], 8);
    assert_eq!(plan.len(), 3);
    assert!(matches!(&plan[0], MdRow::Text { lead: RowLead::Marker(m), .. } if m == "1. "));
    assert!(matches!(&plan[1], MdRow::Text { lead: RowLead::Hang(3), .. }));
    let table = parse("| a | b |\n|---|---|\n| 1 | 2 |\n");
    let plan = block_plan(&table[0], 40);
    assert_eq!(plan.len(), 5);
    assert!(matches!(&plan[0], MdRow::Border(BorderKind::Top)));
    assert!(matches!(&plan[1], MdRow::Cells { head: true, .. }));
    assert!(matches!(&plan[2], MdRow::Border(BorderKind::Middle)));
    assert!(matches!(&plan[3], MdRow::Cells { head: false, .. }));
    assert!(matches!(&plan[4], MdRow::Border(BorderKind::Bottom)));
    let code = MdBlock::Code { lang: String::new(), text: String::new() };
    assert_eq!(block_plan(&code, 20).len(), 0);
    assert_eq!(block_rows(&code, 20), 1);
}

#[test]
fn a_whole_text_is_painted_in_the_rows_counted() {
    for doc in DOCS {
        let blocks = parse(doc);
        for w in [0u16, 1, 3, 8, 20, 80] {
            let painted: usize = blocks.iter().map(|b| block_plan(b, w).len()).sum();
            assert_eq!(painted, count_visual_rows(doc, w), "doc {doc:?} width {w}");
        }
    }
}
