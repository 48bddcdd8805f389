//! The scene-frame tree: boxes with flex layout and runs of styled text.
use crate::text::chars_of;
use vstd::prelude::*;

verus! {

/// One frame of the scene protocol.
#[derive(Debug, PartialEq)]
pub struct SceneFrame {
    pub schema_version: u32,
    pub cols: u32,
    pub rows: u32,
    pub root: SceneNode,
}

/// A node of the scene tree.
#[derive(Debug, PartialEq)]
pub enum SceneNode {
    Text { runs: Vec<TextRun>, wrap: Option<Wrap> },
    Box { layout: Option<BoxLayout>, children: Vec<SceneNode> },
}

/// A run of text with one style.
#[derive(Debug, Clone, PartialEq)]
pub struct TextRun {
    pub text: String,
    pub style: Option<TextStyle>,
}

/// Text attributes; an absent field keeps the inherited value.
#[derive(Debug, Clone, Default, PartialEq)]
pub struct TextStyle {
    pub color: Option<Color>,
    pub bg: Option<Color>,
    pub bold: Option<bool>,
    pub dim: Option<bool>,
    pub italic: Option<bool>,
    pub underline: Option<bool>,
    pub inverse: Option<bool>,
    pub strikethrough: Option<bool>,
}

/// A named terminal color or a `#rrggbb` hex color.
#[derive(Debug, Clone, PartialEq)]
pub enum Color {
    Named(NamedColor),
    Hex { hex: String },
}

/// The named terminal colors.
#[derive(Debug, Clone, Copy, PartialEq, Eq)]
pub enum NamedColor {
    Default,
    Black,
    Red,
    Green,
    Yellow,
    Blue,
    Magenta,
    Cyan,
    White,
    Gray,
}

/// How text that does not fit is handled.
#[derive(Debug, Clone, Copy, PartialEq, Eq)]
pub enum Wrap {
    Wrap,
    Truncate,
    TruncateStart,
    TruncateMiddle,
    /// No wrapping or truncation (`"none"` in the protocol).
    NoWrap,
}

/// Flex layout attributes of a box.
#[derive(Debug, Clone, Default, PartialEq)]
pub struct BoxLayout {
    pub direction: Option<FlexDirection>,
    pub gap: Option<i32>,
    pub padding_x: Option<i32>,
    pub padding_y: Option<i32>,
    pub margin_x: Option<i32>,
    pub margin_y: Option<i32>,
    pub width: Option<Dim>,
    pub height: Option<Dim>,
    pub flex_grow: Option<i32>,
    pub flex_shrink: Option<i32>,
    pub align: Option<FlexAlign>,
    pub justify: Option<FlexJustify>,
    pub border_style: Option<BorderStyle>,
    pub border_color: Option<Color>,
    pub background: Option<Color>,
}

/// Main axis of a box.
#[derive(Debug, Clone, Copy, PartialEq, Eq)]
pub enum FlexDirection {
    Row,
    Column,
}

/// Cross-axis alignment.
#[derive(Debug, Clone, Copy, PartialEq, Eq)]
pub enum FlexAlign {
    Start,
    Center,
    End,
    Stretch,
}

/// Main-axis distribution.
#[derive(Debug, Clone, Copy, PartialEq, Eq)]
pub enum FlexJustify {
    Start,
    Center,
    End,
    Between,
    Around,
}

/// Border glyph families.
#[derive(Debug, Clone, Copy, PartialEq, Eq)]
pub enum BorderStyle {
    Single,
    Double,
    Round,
    Bold,
}

/// A size: a number of cells, or the remaining space.
#[derive(Debug, Clone, PartialEq)]
pub enum Dim {
    Cells(i32),
    Fill(FillToken),
}

/// The `fill` size token.
#[derive(Debug, Clone, Copy, PartialEq, Eq)]
pub enum FillToken {
    Fill,
}

/// The value of a hexadecimal digit.
pub open spec fn hex_val(c: char) -> Option<nat> {
    if '0' <= c && c <= '9' {
        Some((c as u32 - 48) as nat)
    } else if 'a' <= c && c <= 'f' {
        Some((c as u32 - 87) as nat)
    } else if 'A' <= c && c <= 'F' {
        Some((c as u32 - 55) as nat)
    } else {
        None
    }
}

/// `u8::from_str_radix` of two characters in base 16: an optional `+`
/// before one digit, or two digits.
pub open spec fn hex_pair(a: char, b: char) -> Option<u8> {
    if a == '+' {
        match hex_val(b) {
            Some(v) => Some(v as u8),
            None => None,
        }
    } else {
        match (hex_val(a), hex_val(b)) {
            (Some(x), Some(y)) => Some((16 * x + y) as u8),
            _ => None,
        }
    }
}

/// A `#rrggbb` color: `#` and six bytes, read as three hexadecimal pairs.
pub open spec fn parse_hex_spec(hex: Seq<char>) -> Option<(u8, u8, u8)> {
    if hex.len() == 0 || hex[0] != '#' {
        None
    } else {
        let s = hex.drop_first();
        if s.len() != 6 || crate::editor::utf8_size(s) != 6 {
            None
        } else {
            match (hex_pair(s[0], s[1]), hex_pair(s[2], s[3]), hex_pair(s[4], s[5])) {
                (Some(r), Some(g), Some(b)) => Some((r, g, b)),
                _ => None,
            }
        }
    }
}

/// Whether the bytes of `s` can be cut after 2 and after 4 bytes (the
/// pairs of a six-byte color text fall on character boundaries).
pub open spec fn pairs_on_boundaries(s: Seq<char>) -> bool {
    (exists|k: int| 0 <= k <= s.len() && crate::editor::utf8_size(#[trigger] s.take(k)) == 2)
        && (exists|k: int| 0 <= k <= s.len() && crate::editor::utf8_size(#[trigger] s.take(k)) == 4)
}

fn hex_val_exec(c: char) -> (r: Option<u32>)
    ensures
        match r {
            Some(v) => hex_val(c) == Some(v as nat),
            None => hex_val(c) is None,
        },
{
    if '0' <= c && c <= '9' {
        Some(c as u32 - 48)
    } else if 'a' <= c && c <= 'f' {
        Some(c as u32 - 87)
    } else if 'A' <= c && c <= 'F' {
        Some(c as u32 - 55)
    } else {
        None
    }
}

fn hex_pair_exec(a: char, b: char) -> (r: Option<u8>)
    ensures
        r == hex_pair(a, b),
{
    if a == '+' {
        match hex_val_exec(b) {
            Some(v) => Some(v as u8),
            None => None,
        }
    } else {
        match (hex_val_exec(a), hex_val_exec(b)) {
            (Some(x), Some(y)) => Some((16 * x + y) as u8),
            _ => None,
        }
    }
}

/// A `#rrggbb` color (see `parse_hex_spec`). A six-byte text with a
/// multi-byte character must still split into pairs on character
/// boundaries.
pub fn parse_hex(hex: &str) -> (r: Option<(u8, u8, u8)>)
    requires
        hex@.len() > 0 && hex@[0] == '#' && crate::editor::utf8_size(hex@.drop_first()) == 6
            ==> pairs_on_boundaries(hex@.drop_first()),
    ensures
        r == parse_hex_spec(hex@),
{
    let hc = chars_of(hex);
    if hc.len() == 0 || hc[0] != '#' {
        return None;
    }
    if hc.len() != 7 {
        return None;
    }
    let ghost sv = hc@.drop_first();
    let mut size: usize = 0;
    let mut i: usize = 1;
    while i < 7
        invariant
            1 <= i <= 7,
            hc@.len() == 7,
            sv == hc@.drop_first(),
            size as nat == crate::editor::utf8_size(sv.take(i - 1)),
            size <= 4 * (i - 1),
        decreases 7 - i,
    {
        assert(sv.take(i as int).drop_last() =~= sv.take(i - 1));
        let u = hc[i] as u32;
        let l: usize = if u <= 0x7F {
            1
        } else if u <= 0x7FF {
            2
        } else if u <= 0xFFFF {
            3
        } else {
            4
        };
        size = size + l;
        i += 1;
    }
    assert(sv.take(6) =~= sv);
    if size != 6 {
        return None;
    }
    match (hex_pair_exec(hc[1], hc[2]), hex_pair_exec(hc[3], hc[4]), hex_pair_exec(hc[5], hc[6])) {
        (Some(r), Some(g), Some(b)) => Some((r, g, b)),
        _ => None,
    }
}

} // verus!
