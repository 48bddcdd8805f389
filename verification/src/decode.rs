//! Checking a stream of frames: each non-blank line must be one JSON value.
use crate::text::{push_decimal, push_str, trim, trim_ws};
use vstd::prelude::*;

verus! {

/// Whether `s` is one JSON value, as `serde_json` parses it.
pub uninterp spec fn is_json_value(s: Seq<char>) -> bool;

/// Parses `s` with `serde_json::from_str` into a `serde_json::Value`.
/// Claimed: success is a function of the text alone (`is_json_value`).
#[verifier::external_body]
fn json_value_ok(s: &str) -> (r: bool)
    ensures
        r == is_json_value(s@),
{
    serde_json::from_str::<serde_json::Value>(s).is_ok()
}

/// Counts the frames of `lines` when line `i` decodes exactly when
/// `decodes[i]`: blank lines are skipped; the count of the frames, or the
/// number (counted from 1) of the first non-blank line that does not
/// decode.
pub open spec fn tally_spec(lines: Seq<Seq<char>>, decodes: Seq<bool>) -> Result<nat, nat>
    decreases lines.len(),
{
    if lines.len() == 0 {
        Ok(0)
    } else {
        match tally_spec(lines.drop_last(), decodes) {
            Err(e) => Err(e),
            Ok(n) => if trim_ws(lines.last()).len() == 0 {
                Ok(n)
            } else if decodes[lines.len() - 1] {
                Ok(n + 1)
            } else {
                Err(lines.len())
            },
        }
    }
}

/// Counts the frames of `lines` (see `tally_spec`), each line decoded by
/// `serde_json`.
pub open spec fn frames_spec(lines: Seq<Seq<char>>) -> Result<nat, nat> {
    tally_spec(lines, Seq::new(lines.len(), |i: int| is_json_value(lines[i])))
}

proof fn lemma_tally_err_sticks(lv: Seq<Seq<char>>, decodes: Seq<bool>, e: nat, k: int)
    requires
        0 <= k <= lv.len(),
        tally_spec(lv.take(k), decodes) == Err::<nat, nat>(e),
    ensures
        tally_spec(lv, decodes) == Err::<nat, nat>(e),
    decreases lv.len() - k,
{
    if k < lv.len() {
        assert(lv.take(k + 1).drop_last() =~= lv.take(k));
        lemma_tally_err_sticks(lv, decodes, e, k + 1);
    } else {
        assert(lv.take(k) =~= lv);
    }
}

/// Counts the frames of `lines` given whether each line decodes (see
/// `tally_spec`): `Ok` with the count, or `Err` with the number of the
/// first line that does not decode.
pub fn tally_frames(lines: &Vec<String>, decodes: &Vec<bool>) -> (r: Result<u64, usize>)
    requires
        decodes@.len() == lines@.len(),
        lines@.len() < usize::MAX,
    ensures
        match r {
            Ok(n) => tally_spec(lines@.map_values(|l: String| l@), decodes@) == Ok::<nat, nat>(n as nat),
            Err(k) => tally_spec(lines@.map_values(|l: String| l@), decodes@) == Err::<nat, nat>(k as nat),
        },
{
    let ghost lv = lines@.map_values(|l: String| l@);
    let mut count: u64 = 0;
    let mut i: usize = 0;
    while i < lines.len()
        invariant
            i <= lines@.len() < usize::MAX,
            decodes@.len() == lines@.len(),
            lv == lines@.map_values(|l: String| l@),
            count <= i,
            tally_spec(lv.take(i as int), decodes@) == Ok::<nat, nat>(count as nat),
        decreases lines@.len() - i,
    {
        assert(lv.take(i + 1).drop_last() =~= lv.take(i as int));
        let t = trim(lines[i].as_str());
        if !t.as_str().is_empty() {
            if !decodes[i] {
                proof {
                    lemma_tally_err_sticks(lv, decodes@, (i + 1) as nat, i + 1);
                }
                return Err(i + 1);
            }
            count = count + 1;
        }
        i += 1;
    }
    assert(lv.take(lines@.len() as int) =~= lv);
    Ok(count)
}

/// Counts the frames of `lines` (see `frames_spec`): `Ok` with the count,
/// or `Err` with the number of the first line that does not decode.
pub fn count_frames(lines: &Vec<String>) -> (r: Result<u64, usize>)
    requires
        lines@.len() < usize::MAX,
    ensures
        match r {
            Ok(n) => frames_spec(lines@.map_values(|l: String| l@)) == Ok::<nat, nat>(n as nat),
            Err(k) => frames_spec(lines@.map_values(|l: String| l@)) == Err::<nat, nat>(k as nat),
        },
{
    let ghost lv = lines@.map_values(|l: String| l@);
    let mut decodes: Vec<bool> = Vec::new();
    let mut i: usize = 0;
    while i < lines.len()
        invariant
            i <= lines@.len(),
            lv == lines@.map_values(|l: String| l@),
            decodes@ == Seq::new(i as nat, |j: int| is_json_value(lv[j])),
        decreases lines@.len() - i,
    {
        decodes.push(json_value_ok(lines[i].as_str()));
        assert(decodes@ =~= Seq::new((i + 1) as nat, |j: int| is_json_value(lv[j])));
        i += 1;
    }
    assert(decodes@ =~= Seq::new(lv.len(), |j: int| is_json_value(lv[j])));
    tally_frames(lines, &decodes)
}

/// One line of a stream after `count` frames: `Ok(None)` when it is blank
/// (skipped), `Ok(Some(count + 1))` when it is one JSON value (a frame),
/// `Err(())` when it is not.
pub fn frame_step(count: u64, line: &str) -> (r: Result<Option<u64>, ()>)
    requires
        count < u64::MAX,
    ensures
        trim_ws(line@).len() == 0 ==> r == Ok::<Option<u64>, ()>(None),
        trim_ws(line@).len() > 0 && is_json_value(line@) ==> r == Ok::<Option<u64>, ()>(Some((count + 1) as u64)),
        trim_ws(line@).len() > 0 && !is_json_value(line@) ==> r == Err::<Option<u64>, ()>(()),
{
    let t = trim(line);
    if t.as_str().is_empty() {
        return Ok(None);
    }
    if json_value_ok(line) {
        Ok(Some(count + 1))
    } else {
        Err(())
    }
}

/// The line written for the `n`-th frame: `frame <n>`.
pub fn frame_line(n: u64) -> (r: String)
    ensures
        r@ == "frame "@ + crate::text::decimal(n as nat),
{
    let mut s = String::new();
    push_str(&mut s, "frame ");
    push_decimal(&mut s, n);
    s
}

/// The context given to a line that does not decode: `decode line <n>`.
pub fn decode_error_context(line: usize) -> (r: String)
    ensures
        r@ == "decode line "@ + crate::text::decimal(line as nat),
{
    let mut s = String::new();
    push_str(&mut s, "decode line ");
    push_decimal(&mut s, line as u64);
    s
}

} // verus!
