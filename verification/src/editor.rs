//! Cursor arithmetic for the composer: the cursor is a character index
//! into the text, and lines are separated by `'\n'`.
use crate::text::{chars_of, is_whitespace, is_ws, string_from_chars};
use vstd::prelude::*;

verus! {

/// `i` clamped to `n`.
pub open spec fn clamp(i: int, n: int) -> int {
    if i < n {
        i
    } else {
        n
    }
}

/// The text after inserting `c` at character index `i` (the end when `i`
/// is past it).
pub open spec fn inserted(s: Seq<char>, i: int, c: char) -> Seq<char> {
    let k = clamp(i, s.len() as int);
    s.take(k) + seq![c] + s.skip(k)
}

/// The text after removing the character at index `i` (unchanged when
/// there is none).
pub open spec fn removed(s: Seq<char>, i: int) -> Seq<char> {
    if 0 <= i < s.len() {
        s.remove(i)
    } else {
        s
    }
}

/// Number of bytes that UTF-8 uses for `c`.
pub open spec fn utf8_len(c: char) -> nat {
    let u = c as u32;
    if u <= 0x7F {
        1
    } else if u <= 0x7FF {
        2
    } else if u <= 0xFFFF {
        3
    } else {
        4
    }
}

/// Number of bytes of the UTF-8 encoding of `cs`.
pub open spec fn utf8_size(cs: Seq<char>) -> nat
    decreases cs.len(),
{
    if cs.len() == 0 {
        0
    } else {
        utf8_size(cs.drop_last()) + utf8_len(cs.last())
    }
}

/// Number of line breaks in `cs`: the line the end of `cs` is on.
pub open spec fn line_of(cs: Seq<char>) -> nat
    decreases cs.len(),
{
    if cs.len() == 0 {
        0
    } else if cs.last() == '\n' {
        line_of(cs.drop_last()) + 1
    } else {
        line_of(cs.drop_last())
    }
}

/// Number of characters since the last line break of `cs`: the column
/// the end of `cs` is at.
pub open spec fn col_of(cs: Seq<char>) -> nat
    decreases cs.len(),
{
    if cs.len() == 0 {
        0
    } else if cs.last() == '\n' {
        0
    } else {
        col_of(cs.drop_last()) + 1
    }
}

/// Line and column of cursor `cursor` (clamped to the end of the text).
pub open spec fn locate(cs: Seq<char>, cursor: int) -> (nat, nat) {
    let p = cs.take(clamp(cursor, cs.len() as int));
    (line_of(p), col_of(p))
}

/// Whether a scan for line `tl`, column `tc` stops at position `p`: the
/// position is at the target, or it holds the line break that ends the
/// target line, or it is the end of the text.
pub open spec fn stops_at(cs: Seq<char>, tl: int, tc: int, p: int) -> bool {
    ||| p == cs.len()
    ||| (line_of(cs.take(p)) == tl && col_of(cs.take(p)) == tc)
    ||| (cs[p] == '\n' && line_of(cs.take(p)) == tl)
}

/// The first position at or after `p` where the scan for (`tl`, `tc`) stops.
pub open spec fn first_stop(cs: Seq<char>, tl: int, tc: int, p: int) -> int
    decreases cs.len() - p,
{
    if p >= cs.len() {
        cs.len() as int
    } else if stops_at(cs, tl, tc, p) {
        p
    } else {
        first_stop(cs, tl, tc, p + 1)
    }
}

/// The cursor for line `tl`, column `tc`: the column is clamped to the
/// end of that line, and a line past the last one gives the end of the text.
pub open spec fn cursor_at(cs: Seq<char>, tl: int, tc: int) -> int {
    first_stop(cs, tl, tc, 0)
}

/// Positions `lo..hi` of `cs` are all whitespace.
pub open spec fn all_ws(cs: Seq<char>, lo: int, hi: int) -> bool {
    forall|t: int| lo <= t < hi ==> is_ws(#[trigger] cs[t])
}

/// Positions `lo..hi` of `cs` are all non-whitespace.
pub open spec fn no_ws(cs: Seq<char>, lo: int, hi: int) -> bool {
    forall|t: int| lo <= t < hi ==> !is_ws(#[trigger] cs[t])
}

/// The first-position property of `first_stop`.
pub proof fn lemma_first_stop(cs: Seq<char>, tl: int, tc: int, p: int)
    requires
        0 <= p <= cs.len(),
    ensures
        p <= first_stop(cs, tl, tc, p) <= cs.len(),
        stops_at(cs, tl, tc, first_stop(cs, tl, tc, p)),
        forall|q: int| p <= q < first_stop(cs, tl, tc, p) ==> !stops_at(cs, tl, tc, q),
    decreases cs.len() - p,
{
    if p < cs.len() && !stops_at(cs, tl, tc, p) {
        lemma_first_stop(cs, tl, tc, p + 1);
    }
}

proof fn lemma_line_col_step(cs: Seq<char>, i: int)
    requires
        0 <= i < cs.len(),
    ensures
        line_of(cs.take(i + 1)) == if cs[i] == '\n' {
            line_of(cs.take(i)) + 1
        } else {
            line_of(cs.take(i))
        },
        col_of(cs.take(i + 1)) == if cs[i] == '\n' {
            0nat
        } else {
            col_of(cs.take(i)) + 1
        },
        utf8_size(cs.take(i + 1)) == utf8_size(cs.take(i)) + utf8_len(cs[i]),
{
    assert(cs.take(i + 1).drop_last() =~= cs.take(i));
}

proof fn lemma_line_bound(cs: Seq<char>)
    ensures
        line_of(cs) <= cs.len(),
        col_of(cs) <= cs.len(),
    decreases cs.len(),
{
    if cs.len() > 0 {
        lemma_line_bound(cs.drop_last());
    }
}

proof fn lemma_utf8_size_bound(cs: Seq<char>)
    ensures
        utf8_size(cs) <= 4 * cs.len(),
    decreases cs.len(),
{
    if cs.len() > 0 {
        lemma_utf8_size_bound(cs.drop_last());
    }
}

/// Byte offset of character index `char_idx` in `buffer`; the byte length
/// of the text when the index is past its end.
pub fn char_to_byte(buffer: &str, char_idx: usize) -> (r: usize)
    requires
        utf8_size(buffer@) <= usize::MAX,
    ensures
        r == utf8_size(buffer@.take(clamp(char_idx as int, buffer@.len() as int))),
        r == vstd::utf8::encode_utf8(buffer@.take(clamp(char_idx as int, buffer@.len() as int))).len(),
        char_idx >= buffer@.len() ==> r == vstd::string::StringSliceAdditionalSpecFns::spec_bytes(buffer).len(),
{
    proof {
        lemma_utf8_size_encode(buffer@.take(clamp(char_idx as int, buffer@.len() as int)));
        assert(buffer@.take(buffer@.len() as int) =~= buffer@);
    }
    let cs = chars_of(buffer);
    let n = cs.len();
    let k = if char_idx < n {
        char_idx
    } else {
        n
    };
    let mut i: usize = 0;
    let mut bytes: usize = 0;
    while i < k
        invariant
            cs@ == buffer@,
            k <= cs@.len(),
            i <= k,
            bytes == utf8_size(cs@.take(i as int)),
            utf8_size(cs@) <= usize::MAX,
        decreases k - i,
    {
        proof {
            lemma_line_col_step(cs@, i as int);
            lemma_utf8_prefix_le(cs@, i + 1);
        }
        let c = cs[i];
        let u = c as u32;
        let w: usize = if u <= 0x7F {
            1
        } else if u <= 0x7FF {
            2
        } else if u <= 0xFFFF {
            3
        } else {
            4
        };
        bytes = bytes + w;
        i = i + 1;
    }
    bytes
}

proof fn lemma_utf8_size_first(cs: Seq<char>)
    requires
        cs.len() > 0,
    ensures
        utf8_size(cs) == utf8_len(cs[0]) + utf8_size(cs.drop_first()),
    decreases cs.len(),
{
    if cs.len() > 1 {
        lemma_utf8_size_first(cs.drop_last());
        assert(cs.drop_last().drop_first() =~= cs.drop_first().drop_last());
    } else {
        assert(cs.drop_first() =~= Seq::<char>::empty());
        assert(cs.drop_last() =~= Seq::<char>::empty());
    }
}

/// The byte count `utf8_size` is the length of the UTF-8 encoding.
pub proof fn lemma_utf8_size_encode(cs: Seq<char>)
    ensures
        utf8_size(cs) == vstd::utf8::encode_utf8(cs).len(),
    decreases cs.len(),
{
    if cs.len() > 0 {
        lemma_utf8_size_first(cs);
        lemma_utf8_size_encode(cs.drop_first());
        let c = cs[0];
        assert(vstd::utf8::is_scalar(c as u32)) by {
            vstd::utf8::char_is_scalar(c);
        }
    }
}

proof fn lemma_utf8_prefix_le(cs: Seq<char>, i: int)
    requires
        0 <= i <= cs.len(),
    ensures
        utf8_size(cs.take(i)) <= utf8_size(cs),
    decreases cs.len() - i,
{
    if i < cs.len() {
        lemma_utf8_prefix_le(cs, i + 1);
        lemma_line_col_step(cs, i);
    } else {
        assert(cs.take(i) =~= cs);
    }
}

/// Inserts `ch` at character index `char_idx` (at the end when the index
/// is past it).
pub fn insert_char_at(buffer: &mut String, char_idx: usize, ch: char)
    ensures
        final(buffer)@ == inserted(old(buffer)@, char_idx as int, ch),
{
    let cs = chars_of(buffer.as_str());
    let n = cs.len();
    let k = if char_idx < n {
        char_idx
    } else {
        n
    };
    let mut out: Vec<char> = Vec::new();
    let mut i: usize = 0;
    while i < k
        invariant
            k <= cs@.len(),
            i <= k,
            out@ == cs@.take(i as int),
        decreases k - i,
    {
        out.push(cs[i]);
        assert(cs@.take(i + 1) =~= cs@.take(i as int).push(cs@[i as int]));
        i = i + 1;
    }
    out.push(ch);
    while i < n
        invariant
            n == cs@.len(),
            k <= i <= n,
            out@ == cs@.take(k as int) + seq![ch] + cs@.subrange(k as int, i as int),
        decreases n - i,
    {
        out.push(cs[i]);
        assert(cs@.subrange(k as int, i + 1) =~= cs@.subrange(k as int, i as int).push(
            cs@[i as int],
        ));
        i = i + 1;
    }
    assert(cs@.subrange(k as int, n as int) =~= cs@.skip(k as int));
    *buffer = string_from_chars(out.as_slice());
}

/// Removes the character at index `char_idx`; nothing happens when there
/// is none.
pub fn remove_char_at(buffer: &mut String, char_idx: usize)
    ensures
        final(buffer)@ == removed(old(buffer)@, char_idx as int),
{
    let cs = chars_of(buffer.as_str());
    let n = cs.len();
    if char_idx >= n {
        return ;
    }
    let mut out: Vec<char> = Vec::new();
    let mut i: usize = 0;
    while i < n
        invariant
            n == cs@.len(),
            char_idx < n,
            i <= n,
            out@ == if i <= char_idx {
                cs@.take(i as int)
            } else {
                cs@.take(char_idx as int) + cs@.subrange(char_idx + 1, i as int)
            },
        decreases n - i,
    {
        if i != char_idx {
            out.push(cs[i]);
        }
        if i < char_idx {
            assert(cs@.take(i + 1) =~= cs@.take(i as int).push(cs@[i as int]));
        } else if i > char_idx {
            assert(cs@.subrange(char_idx + 1, i + 1) =~= cs@.subrange(char_idx + 1, i as int).push(
                cs@[i as int],
            ));
        } else {
            assert(cs@.subrange(char_idx + 1, i + 1) =~= Seq::<char>::empty());
        }
        i = i + 1;
    }
    assert(cs@.take(char_idx as int) + cs@.subrange(char_idx + 1, n as int) =~= cs@.remove(
        char_idx as int,
    ));
    *buffer = string_from_chars(out.as_slice());
}

/// The position reached by moving back from `i` over whitespace.
pub open spec fn back_over_ws(cs: Seq<char>, i: int) -> int
    decreases i,
{
    if i > 0 && is_ws(cs[i - 1]) {
        back_over_ws(cs, i - 1)
    } else {
        i
    }
}

/// The position reached by moving back from `i` over non-whitespace.
pub open spec fn back_over_word(cs: Seq<char>, i: int) -> int
    decreases i,
{
    if i > 0 && !is_ws(cs[i - 1]) {
        back_over_word(cs, i - 1)
    } else {
        i
    }
}

/// The position reached by moving forward from `i` over non-whitespace.
pub open spec fn fwd_over_word(cs: Seq<char>, i: int) -> int
    decreases cs.len() - i,
{
    if 0 <= i < cs.len() && !is_ws(cs[i]) {
        fwd_over_word(cs, i + 1)
    } else {
        i
    }
}

/// The position reached by moving forward from `i` over whitespace.
pub open spec fn fwd_over_ws(cs: Seq<char>, i: int) -> int
    decreases cs.len() - i,
{
    if 0 <= i < cs.len() && is_ws(cs[i]) {
        fwd_over_ws(cs, i + 1)
    } else {
        i
    }
}

/// Start of the word before `from`.
pub open spec fn prev_word(cs: Seq<char>, from: int) -> int {
    back_over_word(cs, back_over_ws(cs, clamp(from, cs.len() as int)))
}

/// Start of the word after `from`.
pub open spec fn next_word(cs: Seq<char>, from: int) -> int {
    fwd_over_ws(cs, fwd_over_word(cs, clamp(from, cs.len() as int)))
}

/// Start of the word before `from`: skips back over whitespace, then over
/// the word itself.
pub fn prev_word_boundary(buffer: &str, from: usize) -> (r: usize)
    ensures
        r == prev_word(buffer@, from as int),
        ({
            let cs = buffer@;
            let k = clamp(from as int, cs.len() as int);
            exists|j: int|
                #![trigger all_ws(cs, j, k)]
                {
                    &&& r <= j <= k
                    &&& all_ws(cs, j, k)
                    &&& (j == 0 || !is_ws(cs[j - 1]))
                    &&& no_ws(cs, r as int, j)
                    &&& (r == 0 || is_ws(cs[r - 1]))
                }
        }),
{
    let cs = chars_of(buffer);
    let n = cs.len();
    let k = if from < n {
        from
    } else {
        n
    };
    let mut i = k;
    while i > 0 && is_whitespace(cs[i - 1])
        invariant
            cs@ == buffer@,
            k <= cs@.len(),
            k == clamp(from as int, cs@.len() as int),
            i <= k,
            all_ws(cs@, i as int, k as int),
            back_over_ws(cs@, k as int) == back_over_ws(cs@, i as int),
        decreases i,
    {
        i -= 1;
    }
    let j = i;
    while i > 0 && !is_whitespace(cs[i - 1])
        invariant
            cs@ == buffer@,
            i <= j <= k <= cs@.len(),
            k == clamp(from as int, cs@.len() as int),
            all_ws(cs@, j as int, k as int),
            j == 0 || !is_ws(cs@[j - 1]),
            no_ws(cs@, i as int, j as int),
            j == back_over_ws(cs@, k as int),
            back_over_word(cs@, j as int) == back_over_word(cs@, i as int),
        decreases i,
    {
        i -= 1;
    }
    assert(all_ws(cs@, j as int, k as int));
    assert(j == 0 || !is_ws(cs@[j - 1]));
    assert(i == 0 || is_ws(cs@[i - 1]));
    assert(no_ws(cs@, i as int, j as int));
    i
}

/// Start of the word after `from`: skips forward over the rest of the
/// current word, then over the whitespace after it.
pub fn next_word_boundary(buffer: &str, from: usize) -> (r: usize)
    ensures
        r == next_word(buffer@, from as int),
        ({
            let cs = buffer@;
            let k = clamp(from as int, cs.len() as int);
            exists|j: int|
                #![trigger no_ws(cs, k, j)]
                {
                    &&& k <= j <= r <= cs.len()
                    &&& no_ws(cs, k, j)
                    &&& (j == cs.len() || is_ws(cs[j]))
                    &&& all_ws(cs, j, r as int)
                    &&& (r == cs.len() || !is_ws(cs[r as int]))
                }
        }),
{
    let cs = chars_of(buffer);
    let n = cs.len();
    let mut i = if from < n {
        from
    } else {
        n
    };
    let k = i;
    while i < n && !is_whitespace(cs[i])
        invariant
            cs@ == buffer@,
            n == cs@.len(),
            k <= i <= n,
            k == clamp(from as int, cs@.len() as int),
            no_ws(cs@, k as int, i as int),
            fwd_over_word(cs@, k as int) == fwd_over_word(cs@, i as int),
        decreases n - i,
    {
        i += 1;
    }
    let j = i;
    while i < n && is_whitespace(cs[i])
        invariant
            cs@ == buffer@,
            n == cs@.len(),
            k <= j <= i <= n,
            k == clamp(from as int, cs@.len() as int),
            no_ws(cs@, k as int, j as int),
            j == n || is_ws(cs@[j as int]),
            all_ws(cs@, j as int, i as int),
            j == fwd_over_word(cs@, k as int),
            fwd_over_ws(cs@, j as int) == fwd_over_ws(cs@, i as int),
        decreases n - i,
    {
        i += 1;
    }
    assert(no_ws(cs@, k as int, j as int));
    assert(j == n || is_ws(cs@[j as int]));
    assert(i == n || !is_ws(cs@[i as int]));
    assert(all_ws(cs@, j as int, i as int));
    i
}

/// Line and column of character index `cursor`.
pub fn locate_cursor_in(buffer: &str, cursor: usize) -> (r: (usize, usize))
    ensures
        (r.0 as nat, r.1 as nat) == locate(buffer@, cursor as int),
{
    let cs = chars_of(buffer);
    let n = cs.len();
    let mut line: usize = 0;
    let mut col: usize = 0;
    let mut idx: usize = 0;
    while idx < n
        invariant
            cs@ == buffer@,
            n == cs@.len(),
            idx <= n,
            idx <= cursor,
            line == line_of(cs@.take(idx as int)),
            col == col_of(cs@.take(idx as int)),
        decreases n - idx,
    {
        if idx == cursor {
            return (line, col);
        }
        proof {
            lemma_line_col_step(cs@, idx as int);
            lemma_line_bound(cs@.take(idx as int));
        }
        if cs[idx] == '\n' {
            line += 1;
            col = 0;
        } else {
            col += 1;
        }
        idx += 1;
    }
    assert(cs@.take(n as int) =~= cs@);
    (line, col)
}

/// Cursor for line `target_line`, column `target_col`: the column is
/// clamped to the end of that line, and a line past the last gives the end
/// of the text.
pub fn line_col_to_cursor(buffer: &str, target_line: usize, target_col: usize) -> (r: usize)
    ensures
        r == cursor_at(buffer@, target_line as int, target_col as int),
        r <= buffer@.len(),
        stops_at(buffer@, target_line as int, target_col as int, r as int),
        forall|q: int|
            0 <= q < r ==> !stops_at(buffer@, target_line as int, target_col as int, q),
{
    let cs = chars_of(buffer);
    let n = cs.len();
    let ghost tl = target_line as int;
    let ghost tc = target_col as int;
    let mut line: usize = 0;
    let mut col: usize = 0;
    let mut idx: usize = 0;
    proof {
        lemma_first_stop(cs@, tl, tc, 0);
    }
    while idx < n
        invariant
            cs@ == buffer@,
            n == cs@.len(),
            idx <= n,
            line == line_of(cs@.take(idx as int)),
            col == col_of(cs@.take(idx as int)),
            first_stop(cs@, tl, tc, 0) == first_stop(cs@, tl, tc, idx as int),
            tl == target_line as int,
            tc == target_col as int,
        decreases n - idx,
    {
        if line == target_line && col == target_col {
            proof {
                assert(stops_at(cs@, tl, tc, idx as int));
                assert(first_stop(cs@, tl, tc, idx as int) == idx);
                lemma_first_stop(cs@, tl, tc, 0);
            }
            return idx;
        }
        if cs[idx] == '\n' {
            if line == target_line {
                proof {
                    assert(stops_at(cs@, tl, tc, idx as int));
                    assert(first_stop(cs@, tl, tc, idx as int) == idx);
                    lemma_first_stop(cs@, tl, tc, 0);
                }
                return idx;
            }
        }
        proof {
            assert(!stops_at(cs@, tl, tc, idx as int));
            assert(first_stop(cs@, tl, tc, idx as int) == first_stop(cs@, tl, tc, idx + 1));
            lemma_line_col_step(cs@, idx as int);
            lemma_line_bound(cs@.take(idx as int));
        }
        if cs[idx] == '\n' {
            line += 1;
            col = 0;
        } else {
            col += 1;
        }
        idx += 1;
    }
    proof {
        lemma_first_stop(cs@, tl, tc, 0);
    }
    idx
}

/// The line that moving by `delta` lines from `line` reaches (not below 0).
pub open spec fn target_line(line: int, delta: int) -> int {
    if line + delta < 0 {
        0
    } else {
        line + delta
    }
}

/// Where the cursor goes when it moves `delta` lines: the end of the text
/// past the last line, unchanged when the line does not change, and
/// otherwise the same column on the new line, clamped to its end.
pub open spec fn moved_cursor(cs: Seq<char>, cursor: int, delta: int) -> int {
    let (line, col) = locate(cs, cursor);
    let nl = target_line(line as int, delta);
    if nl > line_of(cs) {
        cs.len() as int
    } else if nl == line {
        cursor
    } else {
        cursor_at(cs, nl, col as int)
    }
}

/// Moves the cursor by `delta` lines, keeping its column where the new
/// line is long enough.
pub fn move_cursor_line(buffer: &str, cursor: usize, delta: isize) -> (r: usize)
    ensures
        r == moved_cursor(buffer@, cursor as int, delta as int),
{
    let (line, col) = locate_cursor_in(buffer, cursor);
    let cs = chars_of(buffer);
    let n = cs.len();
    let max_line = count_newlines(&cs);
    proof {
        let p = cs@.take(clamp(cursor as int, n as int));
        lemma_line_prefix_le(cs@, clamp(cursor as int, n as int));
    }
    let new_line: usize;
    if delta < 0 {
        let back: usize = ((-(delta + 1)) as usize) + 1;
        if back >= line {
            new_line = 0;
        } else {
            new_line = line - back;
        }
    } else {
        let fwd: usize = delta as usize;
        if fwd > max_line - line {
            return n;
        }
        new_line = line + fwd;
    }
    if new_line > max_line {
        return n;
    }
    if new_line == line {
        return cursor;
    }
    line_col_to_cursor(buffer, new_line, col)
}

proof fn lemma_line_prefix_le(cs: Seq<char>, i: int)
    requires
        0 <= i <= cs.len(),
    ensures
        line_of(cs.take(i)) <= line_of(cs),
    decreases cs.len() - i,
{
    if i < cs.len() {
        lemma_line_prefix_le(cs, i + 1);
        lemma_line_col_step(cs, i);
    } else {
        assert(cs.take(i) =~= cs);
    }
}

/// Number of line breaks in `cs`.
fn count_newlines(cs: &Vec<char>) -> (r: usize)
    ensures
        r == line_of(cs@),
{
    let mut i: usize = 0;
    let mut count: usize = 0;
    while i < cs.len()
        invariant
            i <= cs@.len(),
            count == line_of(cs@.take(i as int)),
        decreases cs@.len() - i,
    {
        proof {
            lemma_line_col_step(cs@, i as int);
            lemma_line_bound(cs@.take(i as int));
        }
        if cs[i] == '\n' {
            count += 1;
        }
        i += 1;
    }
    assert(cs@.take(cs@.len() as int) =~= cs@);
    count
}

/// Whether the cursor is on the first line.
pub fn cursor_on_first_line(buffer: &str, cursor: usize) -> (r: bool)
    ensures
        r == (locate(buffer@, cursor as int).0 == 0),
{
    locate_cursor_in(buffer, cursor).0 == 0
}

/// Whether the cursor is on the last line.
pub fn cursor_on_last_line(buffer: &str, cursor: usize) -> (r: bool)
    ensures
        r == (locate(buffer@, cursor as int).0 >= line_of(buffer@)),
{
    let (line, _) = locate_cursor_in(buffer, cursor);
    let cs = chars_of(buffer);
    let last_line = count_newlines(&cs);
    line >= last_line
}


/// Positions `lo..hi` of `cs` hold no line break.
pub open spec fn no_newline(cs: Seq<char>, lo: int, hi: int) -> bool {
    forall|t: int| lo <= t < hi ==> #[trigger] cs[t] != '\n'
}

proof fn lemma_segment(cs: Seq<char>, q: int, p: int)
    requires
        0 <= q <= p <= cs.len(),
    ensures
        line_of(cs.take(q)) <= line_of(cs.take(p)),
        no_newline(cs, q, p) ==> line_of(cs.take(p)) == line_of(cs.take(q)) && col_of(cs.take(p))
            == col_of(cs.take(q)) + (p - q),
        !no_newline(cs, q, p) ==> line_of(cs.take(p)) >= line_of(cs.take(q)) + 1,
    decreases p - q,
{
    if p > q {
        lemma_segment(cs, q, p - 1);
        lemma_line_col_step(cs, p - 1);
        if !no_newline(cs, q, p) && no_newline(cs, q, p - 1) {
            assert(cs[p - 1] == '\n');
        }
    }
}

/// Inserting a character and then removing the character at the position
/// where it went gives back the text as it was.
pub proof fn law_remove_undoes_insert(s: Seq<char>, i: int, c: char)
    requires
        0 <= i,
    ensures
        removed(inserted(s, i, c), clamp(i, s.len() as int)) == s,
{
    let k = clamp(i, s.len() as int);
    assert(inserted(s, i, c).remove(k) =~= s);
}

/// Converting a cursor to its line and column and back gives the same
/// cursor.
pub proof fn law_locate_roundtrip(cs: Seq<char>, cursor: int)
    requires
        0 <= cursor <= cs.len(),
    ensures
        cursor_at(cs, locate(cs, cursor).0 as int, locate(cs, cursor).1 as int) == cursor,
{
    let (l, c) = locate(cs, cursor);
    let tl = l as int;
    let tc = c as int;
    assert(cs.take(clamp(cursor, cs.len() as int)) == cs.take(cursor));
    assert(stops_at(cs, tl, tc, cursor));
    assert forall|q: int| 0 <= q < cursor implies !stops_at(cs, tl, tc, q) by {
        lemma_segment(cs, q, cursor);
        if no_newline(cs, q, cursor) {
            assert(cs[q] != '\n');
        }
    }
    lemma_first_stop(cs, tl, tc, 0);
    let r = first_stop(cs, tl, tc, 0);
    if r < cursor {
        assert(!stops_at(cs, tl, tc, r));
    }
    if r > cursor {
        assert(!stops_at(cs, tl, tc, cursor));
    }
}

/// Moving the cursor by zero lines leaves it where it is.
pub proof fn law_move_by_zero(cs: Seq<char>, cursor: int)
    requires
        0 <= cursor,
    ensures
        moved_cursor(cs, cursor, 0) == cursor,
{
    lemma_line_prefix_le(cs, clamp(cursor, cs.len() as int));
}

/// After moving the cursor by a non-zero number of lines, the cursor is on
/// the target line, or at the end of the text when that line does not
/// exist.
pub proof fn law_move_reaches_target_line(cs: Seq<char>, cursor: int, delta: int)
    requires
        0 <= cursor <= cs.len(),
    ensures
        ({
            let nl = target_line(locate(cs, cursor).0 as int, delta);
            let r = moved_cursor(cs, cursor, delta);
            &&& 0 <= r <= cs.len()
            &&& nl <= line_of(cs) ==> locate(cs, r).0 == nl
        }),
{
    let (l, c) = locate(cs, cursor);
    let nl = target_line(l as int, delta);
    assert(cs.take(clamp(cursor, cs.len() as int)) == cs.take(cursor));
    if nl <= line_of(cs) && nl != l {
        lemma_first_stop(cs, nl, c as int, 0);
        let r = cursor_at(cs, nl, c as int);
        assert(cs.take(clamp(r, cs.len() as int)) == cs.take(r));
        lemma_cursor_at_line(cs, nl, c as int);
    } else if nl == l {
        lemma_line_prefix_le(cs, cursor);
    }
}

/// Whether line `line` of `cs` reaches column `col`: some position of the
/// text is on that line at that column.
pub open spec fn reaches(cs: Seq<char>, line: int, col: int) -> bool {
    exists|p: int| 0 <= p <= cs.len() && line_of(#[trigger] cs.take(p)) == line && col_of(cs.take(p)) == col
}

/// Moving the cursor down a line and back up returns it to where it was,
/// when there is a next line and it is long enough for the cursor's column.
pub proof fn law_down_then_up(cs: Seq<char>, cursor: int)
    requires
        0 <= cursor <= cs.len(),
        locate(cs, cursor).0 < line_of(cs),
        reaches(cs, locate(cs, cursor).0 as int + 1, locate(cs, cursor).1 as int),
    ensures
        moved_cursor(cs, moved_cursor(cs, cursor, 1), -1) == cursor,
{
    let (l, c) = locate(cs, cursor);
    let tl = l as int + 1;
    let tc = c as int;
    assert(cs.take(clamp(cursor, cs.len() as int)) == cs.take(cursor));
    let p = choose|p: int| 0 <= p <= cs.len() && line_of(#[trigger] cs.take(p)) == tl && col_of(cs.take(p)) == tc;
    assert(stops_at(cs, tl, tc, p));
    lemma_first_stop(cs, tl, tc, 0);
    let r = cursor_at(cs, tl, tc);
    assert(moved_cursor(cs, cursor, 1) == r);
    if r > p {
        assert(!stops_at(cs, tl, tc, p));
    }
    if r < p {
        assert(r < cs.len());
        if !(line_of(cs.take(r)) == tl && col_of(cs.take(r)) == tc) {
            assert(cs[r] == '\n' && line_of(cs.take(r)) == tl);
            lemma_segment(cs, r, p);
            assert(!no_newline(cs, r, p));
        }
    }
    assert(line_of(cs.take(r)) == tl && col_of(cs.take(r)) == tc);
    assert(cs.take(clamp(r, cs.len() as int)) == cs.take(r));
    assert(locate(cs, r) == (tl as nat, c));
    law_locate_roundtrip(cs, cursor);
}

proof fn lemma_cursor_at_line(cs: Seq<char>, tl: int, tc: int)
    requires
        0 <= tl <= line_of(cs),
    ensures
        line_of(cs.take(cursor_at(cs, tl, tc))) == tl,
{
    lemma_first_stop(cs, tl, tc, 0);
    let r = cursor_at(cs, tl, tc);
    if r == cs.len() && line_of(cs.take(r)) != tl {
        assert(cs.take(r) =~= cs);
        // the text ends on a line after tl: the break that ends line tl
        // would have stopped the scan earlier
        lemma_break_of_line(cs, tl);
        let t = choose|t: int| 0 <= t < cs.len() && cs[t] == '\n' && line_of(cs.take(t)) == tl;
        assert(stops_at(cs, tl, tc, t));
    }
}

proof fn lemma_break_of_line(cs: Seq<char>, tl: int)
    requires
        0 <= tl < line_of(cs),
    ensures
        exists|t: int| 0 <= t < cs.len() && cs[t] == '\n' && line_of(cs.take(t)) == tl,
    decreases cs.len(),
{
    let d = cs.drop_last();
    assert(cs.take(cs.len() - 1) =~= d);
    lemma_line_col_step(cs, cs.len() - 1);
    assert(cs.take(cs.len() as int) =~= cs);
    if tl < line_of(d) {
        lemma_break_of_line(d, tl);
        let t = choose|t: int| 0 <= t < d.len() && d[t] == '\n' && line_of(d.take(t)) == tl;
        assert(d.take(t) =~= cs.take(t));
        assert(cs[t] == d[t]);
    } else {
        let t = cs.len() - 1;
        assert(cs[t] == '\n');
        assert(line_of(cs.take(t)) == tl);
    }
}

} // verus!
