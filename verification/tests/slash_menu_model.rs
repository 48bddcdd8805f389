//! The slash popup's layout checked against direct loops written here with
//! plain Rust.
use reasonix_render::slash_menu::{clip_with_ellipsis, compute_columns, slash_window, wrap_desc, ColumnLayout, SlashRow};
use unicode_width::{UnicodeWidthChar, UnicodeWidthStr};

fn cw(c: char) -> usize {
    UnicodeWidthChar::width(c).unwrap_or(0)
}

fn expected_wrap(text: &str, width: usize) -> Vec<String> {
    let w = width.max(1);
    if text.is_empty() {
        return vec![String::new()];
    }
    let mut out = Vec::new();
    let mut current = String::new();
    let mut current_w = 0usize;
    for word in text.split_inclusive(' ') {
        let word_w: usize = word.chars().map(cw).sum();
        if current_w + word_w > w && !current.is_empty() {
            out.push(std::mem::take(&mut current));
            current_w = 0;
        }
        if word_w > w {
            for ch in word.chars() {
                if current_w + cw(ch) > w && !current.is_empty() {
                    out.push(std::mem::take(&mut current));
                    current_w = 0;
                }
                current.push(ch);
                current_w += cw(ch);
            }
        } else {
            current.push_str(word);
            current_w += word_w;
        }
    }
    if !current.is_empty() {
        out.push(current);
    }
    if out.is_empty() {
        out.push(String::new());
    }
    out
}

fn expected_clip(text: &str, width: usize) -> String {
    let w = width.max(1);
    let total: usize = text.chars().map(cw).sum();
    if total <= w {
        return text.to_string();
    }
    let budget = w - 1;
    let mut out = String::new();
    let mut used = 0usize;
    for ch in text.chars() {
        if used + cw(ch) > budget {
            break;
        }
        out.push(ch);
        used += cw(ch);
    }
    out.push('…');
    out
}

fn expected_columns(rows: &[SlashRow], popup_w: u16) -> ColumnLayout {
    let raw_name_w = (rows.iter().map(|r| r.name.width()).max().unwrap_or(8) as u16).min(22);
    let raw_args_w =
        (rows.iter().map(|r| r.args_hint.as_deref().map(|s| s.width()).unwrap_or(0)).max().unwrap_or(0) as u16).min(28);
    let right = popup_w.saturating_sub(2);
    let name_col_off = 4;
    let want_args = name_col_off + raw_name_w + 2;
    let want_desc = if raw_args_w > 0 { want_args + raw_args_w + 2 } else { want_args };
    if right >= want_desc + 25 {
        return ColumnLayout { name_col_off, args_col_off: want_args, desc_col_off: want_desc, desc_w: right - want_desc };
    }
    let gap_args = if raw_args_w > 0 { 2 } else { 0 };
    let budget = right.saturating_sub(name_col_off).saturating_sub(25).saturating_sub(2 + gap_args);
    let natural = raw_name_w + raw_args_w;
    let max_name = if natural > 0 { ((u32::from(budget) * u32::from(raw_name_w)) / u32::from(natural)) as u16 } else { budget };
    let max_args = budget.saturating_sub(max_name);
    let args_col_off = name_col_off + max_name + 2;
    let desc_col_off = if max_args > 0 { args_col_off + max_args + gap_args } else { args_col_off };
    ColumnLayout { name_col_off, args_col_off, desc_col_off, desc_w: right.saturating_sub(desc_col_off).max(10) }
}

fn expected_window(heights: &[usize], selected: usize, cap: usize) -> (usize, usize, usize) {
    let total = heights.len();
    let (mut start, mut end, mut used) = (selected, selected + 1, heights[selected]);
    while used < cap {
        if end < total && used + heights[end] <= cap {
            used += heights[end];
            end += 1;
        } else if start > 0 && used + heights[start - 1] <= cap {
            used += heights[start - 1];
            start -= 1;
        } else {
            break;
        }
    }
    (start, end, used)
}

fn row(name: &str, hint: Option<&str>) -> SlashRow {
    SlashRow {
        name: name.to_string(),
        desc: String::new(),
        args_hint: hint.map(|h| h.to_string()),
        aliases: Vec::new(),
        group: None,
        header_above: false,
    }
}

const TEXTS: [&str; 7] = [
    "",
    "short",
    "summarize the conversation history to free up tokens",
    "averyveryverylongwordthatdoesnotfit at all",
    "日本語 の 説明 テキスト",
    "  leading and trailing  ",
    "a b c d e f g h i j k l m n o p",
];

#[test]
fn descriptions_wrap_and_clip_like_the_direct_loops() {
    for t in TEXTS {
        for w in 0..40usize {
            assert_eq!(wrap_desc(t, w), expected_wrap(t, w), "{t:?} {w}");
            assert_eq!(clip_with_ellipsis(t, w), expected_clip(t, w), "{t:?} {w}");
        }
    }
}

#[test]
fn columns_match_the_direct_layout() {
    let sets: Vec<Vec<SlashRow>> = vec![
        vec![],
        vec![row("/help", None)],
        vec![row("/model", Some("<id>")), row("/compact", None)],
        vec![row("/a-very-long-command-name-here", Some("<a very long argument hint text>"))],
        vec![row("/日本語", Some("<引数>")), row("/x", Some(""))],
    ];
    for rows in &sets {
        for w in 0..160u16 {
            assert_eq!(compute_columns(rows, w), expected_columns(rows, w), "width {w}");
        }
    }
}

#[test]
fn windows_match_the_direct_growth() {
    let lists: Vec<Vec<usize>> = vec![vec![1], vec![1, 2, 1, 3, 1], vec![4, 1, 1, 1, 5, 1, 2], vec![2; 10]];
    for hs in &lists {
        for sel in 0..hs.len() {
            for cap in 0..12usize {
                assert_eq!(slash_window(hs, sel, cap), expected_window(hs, sel, cap), "{hs:?} {sel} {cap}");
            }
        }
    }
}
