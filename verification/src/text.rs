//! Character-level helpers shared by the editor, the overlays and the
//! layout code: whitespace, ASCII case folding, display widths and the
//! conversions between `str`, `String` and `Vec<char>`.
use unicode_width::UnicodeWidthChar;
use unicode_width::UnicodeWidthStr;
use vstd::prelude::*;

verus! {

/// The characters of `s`, in order.
pub fn chars_of(s: &str) -> (r: Vec<char>)
    ensures
        r@ == s@,
{
    let mut out: Vec<char> = Vec::new();
    for c in it: s.chars()
        invariant
            out@ == it.seq().take(it.index()),
            it.seq() == s@,
    {
        out.push(c);
    }
    out
}

/// Appends one character to a `String` (`String::push`).
#[verifier::external_body]
pub(crate) fn push_char(s: &mut String, c: char)
    ensures
        final(s)@ == old(s)@.push(c),
{
    s.push(c);
}

/// Appends a string slice to a `String` (`String::push_str`).
#[verifier::external_body]
pub(crate) fn push_str(s: &mut String, t: &str)
    ensures
        final(s)@ == old(s)@ + t@,
{
    s.push_str(t);
}

/// A `String` holding exactly the characters of `cs`.
pub fn string_from_chars(cs: &[char]) -> (r: String)
    ensures
        r@ == cs@,
{
    let mut out = String::new();
    let mut i: usize = 0;
    while i < cs.len()
        invariant
            i <= cs@.len(),
            out@ == cs@.take(i as int),
        decreases cs@.len() - i,
    {
        push_char(&mut out, cs[i]);
        assert(cs@.take(i + 1) =~= cs@.take(i as int).push(cs@[i as int]));
        i += 1;
    }
    assert(cs@.take(cs@.len() as int) =~= cs@);
    out
}

/// A `String` holding the characters of `cs` in positions `lo..hi`.
pub fn string_from_range(cs: &[char], lo: usize, hi: usize) -> (r: String)
    requires
        lo <= hi <= cs@.len(),
    ensures
        r@ == cs@.subrange(lo as int, hi as int),
{
    let mut out = String::new();
    let mut i: usize = lo;
    while i < hi
        invariant
            lo <= i <= hi <= cs@.len(),
            out@ == cs@.subrange(lo as int, i as int),
        decreases hi - i,
    {
        push_char(&mut out, cs[i]);
        assert(cs@.subrange(lo as int, i + 1) =~= cs@.subrange(lo as int, i as int).push(
            cs@[i as int],
        ));
        i += 1;
    }
    out
}

/// A `String` equal to `s`.
pub fn string_of(s: &str) -> (r: String)
    ensures
        r@ == s@,
{
    let mut out = String::new();
    push_str(&mut out, s);
    assert(out@ =~= s@);
    out
}

/// The Unicode `White_Space` property, as `char::is_whitespace` defines it.
pub open spec fn is_ws(c: char) -> bool {
    let u = c as u32;
    ||| 0x09 <= u <= 0x0D
    ||| u == 0x20
    ||| u == 0x85
    ||| u == 0xA0
    ||| u == 0x1680
    ||| 0x2000 <= u <= 0x200A
    ||| u == 0x2028
    ||| u == 0x2029
    ||| u == 0x202F
    ||| u == 0x205F
    ||| u == 0x3000
}

/// Whether `c` has the Unicode `White_Space` property.
pub fn is_whitespace(c: char) -> (r: bool)
    ensures
        r == is_ws(c),
{
    let u = c as u32;
    (0x09 <= u && u <= 0x0D) || u == 0x20 || u == 0x85 || u == 0xA0 || u == 0x1680 || (0x2000
        <= u && u <= 0x200A) || u == 0x2028 || u == 0x2029 || u == 0x202F || u == 0x205F || u
        == 0x3000
}

/// ASCII lower-casing of one character; other characters are unchanged.
pub open spec fn ascii_lower(c: char) -> char {
    if 'A' <= c <= 'Z' {
        ((c as u32) + 32) as char
    } else {
        c
    }
}

/// ASCII lower-casing of one character.
pub fn to_ascii_lower(c: char) -> (r: char)
    ensures
        r == ascii_lower(c),
{
    if 'A' <= c && c <= 'Z' {
        (((c as u32) + 32) as u8) as char
    } else {
        c
    }
}

/// Case-insensitive equality in the sense of `str::eq_ignore_ascii_case`.
pub open spec fn eq_ascii_ci(a: Seq<char>, b: Seq<char>) -> bool {
    &&& a.len() == b.len()
    &&& forall|i: int| 0 <= i < a.len() ==> ascii_lower(#[trigger] a[i]) == ascii_lower(b[i])
}

/// `str::eq_ignore_ascii_case` on character slices.
pub fn eq_ignore_ascii_case(a: &[char], b: &[char]) -> (r: bool)
    ensures
        r == eq_ascii_ci(a@, b@),
{
    if a.len() != b.len() {
        return false;
    }
    let mut i: usize = 0;
    while i < a.len()
        invariant
            a@.len() == b@.len(),
            i <= a@.len(),
            forall|j: int| 0 <= j < i ==> ascii_lower(#[trigger] a@[j]) == ascii_lower(b@[j]),
        decreases a@.len() - i,
    {
        if to_ascii_lower(a[i]) != to_ascii_lower(b[i]) {
            return false;
        }
        i += 1;
    }
    true
}

/// Whether `p` is a prefix of `s`.
pub open spec fn is_prefix(p: Seq<char>, s: Seq<char>) -> bool {
    p.len() <= s.len() && s.take(p.len() as int) == p
}

/// `starts_with` on character slices.
pub fn starts_with(s: &[char], p: &[char]) -> (r: bool)
    ensures
        r == is_prefix(p@, s@),
{
    if p.len() > s.len() {
        return false;
    }
    let mut i: usize = 0;
    while i < p.len()
        invariant
            p@.len() <= s@.len(),
            i <= p@.len(),
            forall|j: int| 0 <= j < i ==> #[trigger] s@[j] == p@[j],
        decreases p@.len() - i,
    {
        if s[i] != p[i] {
            assert(s@.take(p@.len() as int)[i as int] != p@[i as int]);
            return false;
        }
        i += 1;
    }
    assert(s@.take(p@.len() as int) =~= p@);
    true
}

/// Whether `c` occurs in `s`.
pub fn contains_char(s: &[char], c: char) -> (r: bool)
    ensures
        r == s@.contains(c),
{
    let mut i: usize = 0;
    while i < s.len()
        invariant
            i <= s@.len(),
            forall|j: int| 0 <= j < i ==> s@[j] != c,
        decreases s@.len() - i,
    {
        if s[i] == c {
            assert(s@[i as int] == c);
            return true;
        }
        i += 1;
    }
    false
}

/// Whether some character of `s` is whitespace.
pub open spec fn has_ws(s: Seq<char>) -> bool {
    exists|i: int| 0 <= i < s.len() && is_ws(#[trigger] s[i])
}

/// Whether any character of `s` is whitespace.
pub fn any_whitespace(s: &[char]) -> (r: bool)
    ensures
        r == has_ws(s@),
{
    let mut i: usize = 0;
    while i < s.len()
        invariant
            i <= s@.len(),
            forall|j: int| 0 <= j < i ==> !is_ws(#[trigger] s@[j]),
        decreases s@.len() - i,
    {
        if is_whitespace(s[i]) {
            return true;
        }
        i += 1;
    }
    false
}

/// The position of the first `c` in `s` (`str::find` with a `char`).
pub fn find_char(s: &[char], c: char) -> (r: Option<usize>)
    ensures
        match r {
            Some(i) => i < s@.len() && s@[i as int] == c && forall|j: int| 0 <= j < i ==> s@[j] != c,
            None => !s@.contains(c),
        },
{
    let mut i: usize = 0;
    while i < s.len()
        invariant
            i <= s@.len(),
            forall|j: int| 0 <= j < i ==> s@[j] != c,
        decreases s@.len() - i,
    {
        if s[i] == c {
            return Some(i);
        }
        i += 1;
    }
    None
}

/// The position of the last `c` in `s` (`str::rfind` with a `char`).
pub fn rfind_char(s: &[char], c: char) -> (r: Option<usize>)
    ensures
        match r {
            Some(i) => i < s@.len() && s@[i as int] == c && forall|j: int|
                i < j < s@.len() ==> s@[j] != c,
            None => !s@.contains(c),
        },
{
    let mut i: usize = s.len();
    while i > 0
        invariant
            i <= s@.len(),
            forall|j: int| i <= j < s@.len() ==> s@[j] != c,
        decreases i,
    {
        if s[i - 1] == c {
            return Some(i - 1);
        }
        i -= 1;
    }
    None
}

/// The display width of one character as `unicode-width` computes it
/// (`None` for control characters).
pub uninterp spec fn char_width_of(c: char) -> Option<usize>;

/// `UnicodeWidthChar::width` from `unicode-width`. The crate's source
/// gives `None` for control characters below U+0020 and in U+007F..U+009F,
/// width 1 for the printable ASCII range, and a width of at most 3 for
/// everything else; those facts are stated here and the rest is named.
#[verifier::external_body]
pub(crate) fn char_width(c: char) -> (r: Option<usize>)
    ensures
        r == char_width_of(c),
        (c as u32) < 0x20 ==> r == None::<usize>,
        0x7F <= (c as u32) < 0xA0 ==> r == None::<usize>,
        0x20 <= (c as u32) < 0x7F ==> r == Some(1usize),
        (c as u32) >= 0xA0 ==> r == Some(r.unwrap()) && r.unwrap() <= 3,
{
    UnicodeWidthChar::width(c)
}

/// Width of one character with control characters counted as 0.
pub open spec fn cw(c: char) -> nat {
    match char_width_of(c) {
        Some(w) => w as nat,
        None => 0,
    }
}

/// Width of one character, 0 for control characters
/// (`UnicodeWidthChar::width(c).unwrap_or(0)`).
pub fn char_width_or_zero(c: char) -> (r: usize)
    ensures
        r == cw(c),
        r <= 3,
{
    match char_width(c) {
        Some(w) => w,
        None => 0,
    }
}

/// Sum of the per-character widths of `s` (control characters count 0).
pub open spec fn sum_width(s: Seq<char>) -> nat
    decreases s.len(),
{
    if s.len() == 0 {
        0
    } else {
        sum_width(s.drop_last()) + cw(s.last())
    }
}

/// `sum_width` read from the front.
pub proof fn lemma_sum_width_first(s: Seq<char>)
    requires
        s.len() > 0,
    ensures
        sum_width(s) == cw(s[0]) + sum_width(s.drop_first()),
    decreases s.len(),
{
    if s.len() > 1 {
        lemma_sum_width_first(s.drop_last());
        assert(s.drop_last().drop_first() =~= s.drop_first().drop_last());
        assert(s.drop_first().last() == s.last());
        assert(s.drop_last()[0] == s[0]);
        assert(sum_width(s.drop_first()) == sum_width(s.drop_first().drop_last()) + cw(s.last()));
    } else {
        assert(sum_width(s.drop_first()) == 0);
        assert(sum_width(s.drop_last()) == 0);
        assert(s.last() == s[0]);
    }
}

/// Whether two character slices are equal.
pub fn chars_eq(a: &[char], b: &[char]) -> (r: bool)
    ensures
        r == (a@ == b@),
{
    if a.len() != b.len() {
        return false;
    }
    let mut i: usize = 0;
    while i < a.len()
        invariant
            a@.len() == b@.len(),
            i <= a@.len(),
            forall|j: int| 0 <= j < i ==> a@[j] == b@[j],
        decreases a@.len() - i,
    {
        if a[i] != b[i] {
            return false;
        }
        i += 1;
    }
    assert(a@ =~= b@);
    true
}

/// Whether two strings are equal.
pub fn str_eq(a: &str, b: &str) -> (r: bool)
    ensures
        r == (a@ == b@),
{
    let x = chars_of(a);
    let y = chars_of(b);
    chars_eq(x.as_slice(), y.as_slice())
}

/// Lower-casing as `str::to_lowercase` defines it (the Unicode
/// `Lowercase` mapping, with its context rules).
pub uninterp spec fn lowercase(s: Seq<char>) -> Seq<char>;

/// `str::to_lowercase`. The result is a function of the text alone; the
/// Unicode case mapping is not spelled out here.
#[verifier::external_body]
pub(crate) fn to_lowercase(s: &str) -> (r: String)
    ensures
        r@ == lowercase(s@),
{
    s.to_lowercase()
}

/// Lower-cased characters of `cs`.
pub fn lowercase_chars(cs: &[char]) -> (r: Vec<char>)
    ensures
        r@ == lowercase(cs@),
{
    let s = string_from_chars(cs);
    let l = to_lowercase(s.as_str());
    chars_of(l.as_str())
}

/// `i` is the position of the first `c` in `s`.
pub open spec fn is_first_index(s: Seq<char>, c: char, i: int) -> bool {
    0 <= i < s.len() && s[i] == c && forall|j: int| 0 <= j < i ==> s[j] != c
}

/// The first position of `c` in `s` (meaningful when `s` contains `c`).
pub open spec fn first_pos(s: Seq<char>, c: char) -> int {
    choose|i: int| is_first_index(s, c, i)
}

/// The first occurrence of a character is unique, so `first_pos` names it.
pub proof fn lemma_first_pos(s: Seq<char>, c: char, i: int)
    requires
        is_first_index(s, c, i),
    ensures
        first_pos(s, c) == i,
{
    let k = first_pos(s, c);
    assert(is_first_index(s, c, k));
    if k < i {
        assert(s[k] != c);
    }
    if i < k {
        assert(s[i] != c);
    }
}

/// A string made of the given literal's characters (for constants).
pub fn string_lit(s: &'static str) -> (r: String)
    ensures
        r@ == s@,
{
    string_of(s)
}

/// `s` without trailing whitespace.
pub open spec fn trim_end_ws(s: Seq<char>) -> Seq<char>
    decreases s.len(),
{
    if s.len() > 0 && is_ws(s.last()) {
        trim_end_ws(s.drop_last())
    } else {
        s
    }
}

/// `s` without leading whitespace.
pub open spec fn trim_start_ws(s: Seq<char>) -> Seq<char>
    decreases s.len(),
{
    if s.len() > 0 && is_ws(s[0]) {
        trim_start_ws(s.drop_first())
    } else {
        s
    }
}

/// `s` without leading and trailing whitespace (`str::trim`).
pub open spec fn trim_ws(s: Seq<char>) -> Seq<char> {
    trim_start_ws(trim_end_ws(s))
}

/// `str::trim_end`, as a new `String`.
pub fn trim_end(s: &str) -> (r: String)
    ensures
        r@ == trim_end_ws(s@),
{
    let cs = chars_of(s);
    let mut n = cs.len();
    assert(cs@.take(n as int) =~= cs@);
    while n > 0 && is_whitespace(cs[n - 1])
        invariant
            n <= cs@.len(),
            trim_end_ws(cs@) == trim_end_ws(cs@.take(n as int)),
        decreases n,
    {
        assert(cs@.take(n as int).drop_last() =~= cs@.take(n - 1));
        n -= 1;
    }
    let r = string_from_range(cs.as_slice(), 0, n);
    assert(cs@.subrange(0, n as int) =~= cs@.take(n as int));
    r
}

/// `str::trim_start` on characters: the start index of the rest.
fn trim_start_index(cs: &[char], hi: usize) -> (r: usize)
    requires
        hi <= cs@.len(),
    ensures
        r <= hi,
        cs@.subrange(r as int, hi as int) == trim_start_ws(cs@.take(hi as int)),
{
    let mut i: usize = 0;
    assert(cs@.subrange(0, hi as int) =~= cs@.take(hi as int));
    while i < hi && is_whitespace(cs[i])
        invariant
            i <= hi <= cs@.len(),
            trim_start_ws(cs@.take(hi as int)) == trim_start_ws(cs@.subrange(i as int, hi as int)),
        decreases hi - i,
    {
        assert(cs@.subrange(i as int, hi as int).drop_first() =~= cs@.subrange(i + 1, hi as int));
        i += 1;
    }
    i
}

/// `str::trim_start`, as a new `String`.
pub fn trim_start(s: &str) -> (r: String)
    ensures
        r@ == trim_start_ws(s@),
{
    let cs = chars_of(s);
    let start = trim_start_index(cs.as_slice(), cs.len());
    assert(cs@.take(cs@.len() as int) =~= cs@);
    string_from_range(cs.as_slice(), start, cs.len())
}

/// `str::trim`, as a new `String`.
pub fn trim(s: &str) -> (r: String)
    ensures
        r@ == trim_ws(s@),
{
    let e = trim_end(s);
    let cs = chars_of(e.as_str());
    let start = trim_start_index(cs.as_slice(), cs.len());
    assert(cs@.take(cs@.len() as int) =~= cs@);
    string_from_range(cs.as_slice(), start, cs.len())
}

/// The decimal digit character for `d` (`d < 10`).
pub open spec fn digit_char(d: nat) -> char {
    ((d + 48) as u8) as char
}

/// The decimal representation of `n`, without leading zeros.
pub open spec fn decimal(n: nat) -> Seq<char>
    decreases n,
{
    if n < 10 {
        seq![digit_char(n)]
    } else {
        decimal(n / 10) + seq![digit_char(n % 10)]
    }
}

/// Appends the decimal representation of `n`.
pub fn push_decimal(s: &mut String, n: u64)
    ensures
        final(s)@ == old(s)@ + decimal(n as nat),
    decreases n,
{
    if n >= 10 {
        push_decimal(s, n / 10);
    }
    let d = (n % 10) as u8;
    push_char(s, (d + 48) as char);
    assert(final(s)@ =~= old(s)@ + decimal(n as nat));
}

/// The display width of a string as `unicode-width` computes it (it can
/// differ from the sum of the character widths: `"\r\n"` and emoji
/// sequences are ligatures).
pub uninterp spec fn str_width_of(s: Seq<char>) -> nat;

/// `UnicodeWidthStr::width` from `unicode-width`. The result is named;
/// no relation to the character widths is claimed.
#[verifier::external_body]
pub(crate) fn str_width(s: &str) -> (r: usize)
    ensures
        r == str_width_of(s@),
{
    UnicodeWidthStr::width(s)
}

/// Upper-casing of one character as `char::to_uppercase` defines it.
pub uninterp spec fn char_upper(c: char) -> Seq<char>;

/// `char::to_uppercase`, collected. The standard library documents that
/// the mapping has at least one character.
#[verifier::external_body]
pub(crate) fn to_uppercase_char(c: char) -> (r: Vec<char>)
    ensures
        r@ == char_upper(c),
        r@.len() >= 1,
{
    c.to_uppercase().collect()
}

/// Lower-casing of one character as `char::to_lowercase` defines it.
pub uninterp spec fn char_lower(c: char) -> Seq<char>;

/// `char::to_lowercase`, collected. The standard library documents that
/// the mapping has at least one character.
#[verifier::external_body]
pub(crate) fn to_lowercase_char(c: char) -> (r: Vec<char>)
    ensures
        r@ == char_lower(c),
        r@.len() >= 1,
{
    c.to_lowercase().collect()
}

/// The concatenation of the lower-case mappings of the characters of `s`.
pub open spec fn lower_all(s: Seq<char>) -> Seq<char>
    decreases s.len(),
{
    if s.len() == 0 {
        Seq::empty()
    } else {
        lower_all(s.drop_last()) + char_lower(s.last())
    }
}

/// The concatenation of the upper-case mappings of the characters of `s`.
pub open spec fn upper_all(s: Seq<char>) -> Seq<char>
    decreases s.len(),
{
    if s.len() == 0 {
        Seq::empty()
    } else {
        upper_all(s.drop_last()) + char_upper(s.last())
    }
}

/// `s.chars().flat_map(char::to_uppercase)`, collected into a `String`.
pub fn uppercase_each(s: &str) -> (r: String)
    ensures
        r@ == upper_all(s@),
{
    let cs = chars_of(s);
    let mut out = String::new();
    let mut i: usize = 0;
    while i < cs.len()
        invariant
            i <= cs@.len(),
            out@ == upper_all(cs@.take(i as int)),
        decreases cs@.len() - i,
    {
        let u = to_uppercase_char(cs[i]);
        let t = string_from_chars(u.as_slice());
        push_str(&mut out, t.as_str());
        assert(cs@.take(i + 1).drop_last() =~= cs@.take(i as int));
        i += 1;
    }
    assert(cs@.take(cs@.len() as int) =~= cs@);
    out
}

/// Number of UTF-8 bytes of a string (`str::len`).
pub fn byte_len(s: &str) -> (r: usize)
    ensures
        r == (vstd::utf8::encode_utf8(s@).len() as usize),
{
    s.len()
}

/// The pieces of `s` between occurrences of `sep` (`str::split` with a
/// character): always at least one piece.
pub open spec fn split_on(s: Seq<char>, sep: char) -> Seq<Seq<char>>
    decreases s.len(),
{
    if s.len() == 0 {
        seq![Seq::<char>::empty()]
    } else {
        let prev = split_on(s.drop_last(), sep);
        if s.last() == sep {
            prev.push(Seq::empty())
        } else {
            prev.update(prev.len() - 1, prev.last().push(s.last()))
        }
    }
}

/// `split_on` has at least one piece.
pub proof fn lemma_split_nonempty(s: Seq<char>, sep: char)
    ensures
        split_on(s, sep).len() >= 1,
    decreases s.len(),
{
    if s.len() > 0 {
        lemma_split_nonempty(s.drop_last(), sep);
    }
}

/// `str::split` with a character separator.
pub fn split_char(s: &str, sep: char) -> (r: Vec<String>)
    ensures
        r@.map_values(|x: String| x@) == split_on(s@, sep),
{
    let cs = chars_of(s);
    let mut out: Vec<String> = Vec::new();
    let mut current: Vec<char> = Vec::new();
    let mut i: usize = 0;
    while i < cs.len()
        invariant
            i <= cs@.len(),
            out@.map_values(|x: String| x@).push(current@) == split_on(cs@.take(i as int), sep),
        decreases cs@.len() - i,
    {
        let ghost old_out = out@.map_values(|x: String| x@);
        let ghost old_cur = current@;
        proof {
            lemma_split_nonempty(cs@.take(i as int), sep);
        }
        assert(cs@.take(i + 1).drop_last() =~= cs@.take(i as int));
        assert(cs@.take(i + 1).last() == cs@[i as int]);
        if cs[i] == sep {
            let piece = string_from_chars(current.as_slice());
            out.push(piece);
            current = Vec::new();
            assert(out@.map_values(|x: String| x@) =~= old_out.push(old_cur));
            assert(out@.map_values(|x: String| x@).push(current@) =~= old_out.push(old_cur).push(
                Seq::<char>::empty(),
            ));
        } else {
            current.push(cs[i]);
            assert(out@.map_values(|x: String| x@).push(current@) =~= old_out.push(old_cur).update(
                old_out.len() as int,
                old_cur.push(cs@[i as int]),
            ));
        }
        i += 1;
    }
    assert(cs@.take(cs@.len() as int) =~= cs@);
    let ghost old_out = out@.map_values(|x: String| x@);
    let last = string_from_chars(current.as_slice());
    out.push(last);
    assert(out@.map_values(|x: String| x@) =~= old_out.push(current@));
    out
}

/// `s` split at its first `c` (`str::split_once` with a `char`).
pub open spec fn split_once_spec(s: Seq<char>, c: char) -> Option<(Seq<char>, Seq<char>)>
    decreases s.len(),
{
    if s.len() == 0 {
        None
    } else if s[0] == c {
        Some((Seq::empty(), s.drop_first()))
    } else {
        match split_once_spec(s.drop_first(), c) {
            Some(p) => Some((seq![s[0]] + p.0, p.1)),
            None => None,
        }
    }
}

proof fn lemma_split_once(s: Seq<char>, c: char, i: int)
    requires
        0 <= i <= s.len(),
        forall|j: int| 0 <= j < i ==> s[j] != c,
    ensures
        i < s.len() && s[i] == c ==> split_once_spec(s, c) == Some((s.take(i), s.skip(i + 1))),
        i == s.len() ==> split_once_spec(s, c) is None,
    decreases i,
{
    if i > 0 {
        let t = s.drop_first();
        assert forall|j: int| 0 <= j < i - 1 implies t[j] != c by {
            assert(t[j] == s[j + 1]);
        }
        lemma_split_once(t, c, i - 1);
        if i < s.len() && s[i] == c {
            assert(t[i - 1] == s[i]);
            assert(seq![s[0]] + t.take(i - 1) =~= s.take(i));
            assert(t.skip(i) =~= s.skip(i + 1));
        }
    } else {
        if s.len() > 0 && s[0] == c {
            assert(s.take(0) =~= Seq::<char>::empty());
            assert(s.skip(1) =~= s.drop_first());
        }
    }
}

/// `str::split_once` with a `char`, as new strings.
pub fn split_once_char(s: &str, c: char) -> (r: Option<(String, String)>)
    ensures
        match r {
            Some(p) => split_once_spec(s@, c) == Some((p.0@, p.1@)),
            None => split_once_spec(s@, c) is None,
        },
{
    let cs = chars_of(s);
    match find_char(cs.as_slice(), c) {
        Some(i) => {
            proof {
                lemma_split_once(cs@, c, i as int);
            }
            let a = string_from_range(cs.as_slice(), 0, i);
            let b = string_from_range(cs.as_slice(), i + 1, cs.len());
            assert(cs@.subrange(0, i as int) =~= cs@.take(i as int));
            assert(cs@.subrange(i + 1, cs@.len() as int) =~= cs@.skip(i + 1));
            Some((a, b))
        },
        None => {
            proof {
                assert forall|j: int| 0 <= j < cs@.len() implies cs@[j] != c by {
                    if cs@[j] == c {
                        assert(cs@.contains(c));
                    }
                }
                lemma_split_once(cs@, c, cs@.len() as int);
            }
            None
        },
    }
}

/// Whether `p` occurs in `s` (`str::contains` with a string).
pub open spec fn contains_seq(s: Seq<char>, p: Seq<char>) -> bool {
    exists|i: int| 0 <= i && i + p.len() <= s.len() && #[trigger] s.subrange(i, i + p.len()) == p
}

/// `str::contains` with a string.
pub fn contains_str(s: &str, p: &str) -> (r: bool)
    ensures
        r == contains_seq(s@, p@),
{
    let sc = chars_of(s);
    let pc = chars_of(p);
    if pc.len() > sc.len() {
        return false;
    }
    if pc.len() == 0 {
        assert(s@.subrange(0, 0 + p@.len() as int) =~= p@);
        return true;
    }
    let sn = sc.len();
    let limit = sn - pc.len();
    let mut i: usize = 0;
    while i <= limit
        invariant
            1 <= pc@.len() <= sc@.len(),
            sc@ == s@,
            pc@ == p@,
            sn == sc@.len(),
            limit == sc@.len() - pc@.len(),
            i <= limit + 1,
            forall|k: int| 0 <= k < i ==> #[trigger] sc@.subrange(k, k + pc@.len()) != pc@,
        decreases sc@.len() - i,
    {
        let mut j: usize = 0;
        let mut same = true;
        while j < pc.len() && same
            invariant
                j <= pc@.len(),
                i <= limit,
                sn == sc@.len(),
                limit == sc@.len() - pc@.len(),
                1 <= pc@.len() <= sc@.len(),
                sc@ == s@,
                pc@ == p@,
                i + pc@.len() <= sc@.len(),
                same ==> forall|q: int| 0 <= q < j ==> sc@[i + q] == pc@[q],
                !same ==> sc@.subrange(i as int, i + pc@.len()) != pc@,
            decreases pc@.len() - j + (if same { 1int } else { 0int }),
        {
            if sc[i + j] != pc[j] {
                same = false;
                assert(sc@.subrange(i as int, i + pc@.len())[j as int] == sc@[i + j]);
            } else {
                j += 1;
            }
        }
        if same {
            assert(sc@.subrange(i as int, i + pc@.len()) =~= pc@);
            return true;
        }
        i += 1;
    }
    assert forall|k: int| 0 <= k && k + pc@.len() <= sc@.len() implies #[trigger] sc@.subrange(k, k + pc@.len()) != pc@ by {
        assert(k < i);
    }
    false
}

} // verus!
