//! The text of the approval popup: its title, the lines of its body for each
//! kind of request, and the keys offered at its foot.
use crate::cards::{char_wrap, char_wrap_exec, lines, lines_of, string_views};
use crate::state::{Approval, ApprovalChoiceOption, PlanStepItem};
use crate::text::{
    char_width_or_zero, chars_of, cw, decimal, push_char, push_decimal, push_str, str_eq,
    sum_width, trim_ws,
};
use vstd::prelude::*;

verus! {

/// At most this many body lines are shown.
pub const MAX_BODY_ROWS: usize = 12;

/// The characters of `cs` that fit in `max` columns after `used`, with an
/// ellipsis in place of the rest when some are cut.
pub open spec fn chunk_from(cs: Seq<char>, used: nat, max: nat) -> Seq<char>
    decreases cs.len(),
{
    if cs.len() == 0 {
        Seq::empty()
    } else if used + cw(cs[0]) > max {
        seq!['\u{2026}']
    } else {
        seq![cs[0]] + chunk_from(cs.drop_first(), used + cw(cs[0]), max)
    }
}

/// The head of `s` that fits in `max` columns, an ellipsis marking a cut.
pub open spec fn chunk(s: Seq<char>, max: nat) -> Seq<char> {
    chunk_from(s, 0, max)
}

proof fn lemma_chunk_from_fits(cs: Seq<char>, used: nat, max: nat)
    requires
        used + sum_width(cs) <= max,
    ensures
        chunk_from(cs, used, max) == cs,
    decreases cs.len(),
{
    if cs.len() > 0 {
        crate::text::lemma_sum_width_first(cs);
        lemma_chunk_from_fits(cs.drop_first(), used + cw(cs[0]), max);
        assert(seq![cs[0]] + cs.drop_first() =~= cs);
    }
}

/// What fits is kept whole: the head of a text no wider than `max`
/// columns is the whole text, with no ellipsis.
pub proof fn law_chunk_keeps_what_fits(s: Seq<char>, max: nat)
    requires
        sum_width(s) <= max,
    ensures
        chunk(s, max) == s,
{
    lemma_chunk_from_fits(s, 0, max);
}

/// The head of `s` that fits in `max` columns (see `chunk`).
pub fn first_chunk(s: &str, max: usize) -> (r: String)
    ensures
        r@ == chunk(s@, max as nat),
{
    let cs = chars_of(s);
    let mut out = String::new();
    let mut w: usize = 0;
    let mut i: usize = 0;
    assert(cs@.skip(0) =~= cs@);
    assert(out@ + chunk_from(cs@.skip(0), 0, max as nat) =~= chunk(s@, max as nat));
    while i < cs.len()
        invariant
            i <= cs@.len(),
            w <= max,
            out@ + chunk_from(cs@.skip(i as int), w as nat, max as nat) == chunk(s@, max as nat),
        decreases cs@.len() - i,
    {
        let c = char_width_or_zero(cs[i]);
        assert(cs@.skip(i as int)[0] == cs@[i as int]);
        assert(cs@.skip(i as int).drop_first() =~= cs@.skip(i + 1));
        if c > max - w {
            let ghost before = out@;
            push_char(&mut out, '\u{2026}');
            assert(out@ =~= before + chunk_from(cs@.skip(i as int), w as nat, max as nat));
            return out;
        }
        let ghost before = out@;
        push_char(&mut out, cs[i]);
        assert(before + chunk_from(cs@.skip(i as int), w as nat, max as nat) =~= out@ + chunk_from(cs@.skip(i + 1), (w + c) as nat, max as nat));
        w = w + c;
        i += 1;
    }
    assert(cs@.skip(cs@.len() as int) =~= Seq::<char>::empty());
    assert(out@ + Seq::<char>::empty() =~= out@);
    out
}

/// The lines of `line` wrapped at `max` columns, never fewer than 10: one
/// empty line for an empty line.
pub open spec fn wrap_inline_spec(line: Seq<char>, max: nat) -> Seq<Seq<char>> {
    if line.len() == 0 {
        seq![Seq::<char>::empty()]
    } else {
        char_wrap(line, if max < 10 {
            10
        } else {
            max
        })
    }
}

/// `line` wrapped at `max` columns (at least 10).
pub fn wrap_inline(line: &str, max: usize) -> (r: Vec<String>)
    ensures
        string_views(r@) == wrap_inline_spec(line@, max as nat),
{
    let cs = chars_of(line);
    if cs.len() == 0 {
        let mut v: Vec<String> = Vec::new();
        v.push(String::new());
        assert(string_views(v@) =~= seq![Seq::<char>::empty()]);
        return v;
    }
    let w: usize = if max < 10 {
        10
    } else {
        max
    };
    char_wrap_exec(cs.as_slice(), w)
}

/// `a - b`, or 0.
pub open spec fn minus(a: nat, b: nat) -> nat {
    if a >= b {
        (a - b) as nat
    } else {
        0
    }
}

fn minus_exec(a: usize, b: usize) -> (r: usize)
    ensures
        r == minus(a as nat, b as nat),
{
    if a >= b {
        a - b
    } else {
        0
    }
}

/// The marker of a plan step by its status.
pub open spec fn step_marker(status: Seq<char>) -> Seq<char> {
    if status == "done"@ {
        "\u{2713}"@
    } else if status == "running"@ {
        "\u{25c6}"@
    } else if status == "failed"@ {
        "\u{2715}"@
    } else if status == "blocked"@ {
        "\u{2298}"@
    } else if status == "skipped"@ {
        "\u{b7}"@
    } else {
        "\u{25cb}"@
    }
}

fn step_marker_exec(status: &str) -> (r: &'static str)
    ensures
        r@ == step_marker(status@),
{
    if str_eq(status, "done") {
        "\u{2713}"
    } else if str_eq(status, "running") {
        "\u{25c6}"
    } else if str_eq(status, "failed") {
        "\u{2715}"
    } else if str_eq(status, "blocked") {
        "\u{2298}"
    } else if str_eq(status, "skipped") {
        "\u{b7}"
    } else {
        "\u{25cb}"
    }
}

/// The line of plan step `i` (counted from 0).
pub open spec fn step_line(step: PlanStepItem, i: nat, max_w: nat) -> Seq<char> {
    step_marker(step.status@) + " ["@ + decimal(i + 1) + "] "@ + chunk(step.title@, minus(max_w, 8))
}

/// All the lines of the plan body: each line wrapped.
pub open spec fn wrapped_body(ls: Seq<Seq<char>>, max_w: nat) -> Seq<Seq<char>>
    decreases ls.len(),
{
    if ls.len() == 0 {
        Seq::empty()
    } else {
        wrapped_body(ls.drop_last(), max_w) + wrap_inline_spec(ls.last(), max_w)
    }
}

/// The shell request's meta line parts.
pub open spec fn shell_meta(cwd: Option<String>, timeout: Option<u32>) -> Seq<Seq<char>> {
    (match cwd {
        Some(d) => seq!["cwd "@ + d@],
        None => Seq::empty(),
    }) + (match timeout {
        Some(t) => seq!["timeout "@ + decimal(t as nat) + "s"@],
        None => Seq::empty(),
    })
}

/// `parts` joined with `sep`.
pub open spec fn join(parts: Seq<Seq<char>>, sep: Seq<char>) -> Seq<char>
    decreases parts.len(),
{
    if parts.len() == 0 {
        Seq::empty()
    } else if parts.len() == 1 {
        parts[0]
    } else {
        join(parts.drop_last(), sep) + sep + parts.last()
    }
}

/// The diff lines of one side of an edit: up to four lines, each after
/// `sign`.
pub open spec fn edit_side(text: Seq<char>, sign: Seq<char>, max_w: nat) -> Seq<Seq<char>> {
    let ls = lines_of(text);
    let n = if ls.len() < 4 {
        ls.len()
    } else {
        4
    };
    Seq::new(n, |i: int| sign + chunk(ls[i], minus(max_w, 2)))
}

/// The lines of one option of a choice: the option's line, then its summary
/// when it has a non-empty one.
pub open spec fn option_lines(opt: ApprovalChoiceOption, i: nat, sel: nat, max_w: nat) -> Seq<Seq<char>> {
    let letter = ((97 + i) as u8) as char;
    let marker = if i == sel {
        "\u{25cf}"@
    } else {
        "\u{25cb}"@
    };
    let first = seq![letter] + ")  "@ + marker + "  "@ + chunk(opt.title@, minus(max_w, 8));
    match opt.summary {
        Some(s) => if s@.len() > 0 {
            seq![first, "        "@ + chunk(s@, minus(max_w, 8))]
        } else {
            seq![first]
        },
        None => seq![first],
    }
}

/// The option lines of the first `n` options.
pub open spec fn options_lines(opts: Seq<ApprovalChoiceOption>, n: nat, sel: nat, max_w: nat) -> Seq<Seq<char>>
    decreases n,
{
    if n == 0 {
        Seq::empty()
    } else {
        options_lines(opts, (n - 1) as nat, sel, max_w) + option_lines(opts[n - 1], (n - 1) as nat, sel, max_w)
    }
}

/// The body lines of the approval popup at `max_w` columns, the option
/// `choice_idx` marked for a choice.
pub open spec fn body_lines_spec(a: Approval, max_w: nat, choice_idx: nat) -> Seq<Seq<char>> {
    match a {
        Approval::Plan { body, steps } => {
            let raw = if steps@.len() > 0 {
                let n = if steps@.len() < 12 {
                    steps@.len()
                } else {
                    12
                };
                Seq::new(n, |i: int| step_line(steps@[i], i as nat, max_w))
            } else {
                let all = wrapped_body(lines_of(body@), max_w);
                if all.len() > 12 {
                    all.take(12)
                } else {
                    all
                }
            };
            if raw.len() == 0 {
                seq!["(plan body is empty)"@]
            } else {
                raw
            }
        },
        Approval::Shell { command, cwd, timeout_sec } => {
            let first = seq!["$ "@ + chunk(command@, minus(max_w, 2))];
            let meta = shell_meta(cwd, timeout_sec);
            if meta.len() > 0 {
                first + seq![Seq::<char>::empty(), join(meta, "   "@)]
            } else {
                first
            }
        },
        Approval::Path { path, intent, tool_name } => seq![
            "intent  "@ + intent@,
            "tool    "@ + tool_name@,
            "path    "@ + chunk(path@, minus(max_w, 8)),
        ],
        Approval::Edit { path, search, replace } => seq![
            path@ + "   -"@ + decimal(lines_of(search@).len()) + "  +"@ + decimal(lines_of(replace@).len()),
            Seq::<char>::empty(),
        ] + edit_side(search@, "- "@, max_w) + edit_side(replace@, "+ "@, max_w),
        Approval::Checkpoint { title, completed, total } => (match title {
            Some(t) => seq!["just finished: "@ + chunk(t@, minus(max_w, 15))],
            None => Seq::empty(),
        }) + seq![
            Seq::<char>::empty(),
            "progress: "@ + decimal(completed as nat) + " of "@ + decimal(total as nat) + " step(s) done"@,
            Seq::<char>::empty(),
            "continue executing, type a refinement, or stop here?"@,
        ],
        Approval::Choice { question, options, .. } => {
            let n = options@.len();
            let sel = if choice_idx < minus(n, 1) {
                choice_idx
            } else {
                minus(n, 1)
            };
            let shown = if n < 10 {
                n
            } else {
                10
            };
            seq![chunk(question@, max_w), Seq::<char>::empty()] + options_lines(options@, shown, sel, max_w)
        },
    }
}

fn plan_step_lines(steps: &Vec<PlanStepItem>, max_w: usize) -> (r: Vec<String>)
    requires
        steps@.len() > 0,
    ensures
        string_views(r@) == Seq::new(
            if steps@.len() < 12 {
                steps@.len()
            } else {
                12
            },
            |i: int| step_line(steps@[i], i as nat, max_w as nat),
        ),
{
    let n: usize = if steps.len() < 12 {
        steps.len()
    } else {
        12
    };
    let ghost target = Seq::new(n as nat, |i: int| step_line(steps@[i], i as nat, max_w as nat));
    let mut out: Vec<String> = Vec::new();
    let mut i: usize = 0;
    while i < n
        invariant
            i <= n <= steps@.len(),
            n <= 12,
            target == Seq::new(n as nat, |i: int| step_line(steps@[i], i as nat, max_w as nat)),
            string_views(out@) == target.take(i as int),
        decreases n - i,
    {
        let step = &steps[i];
        let mut line = String::new();
        push_str(&mut line, step_marker_exec(step.status.as_str()));
        push_str(&mut line, " [");
        push_decimal(&mut line, (i + 1) as u64);
        push_str(&mut line, "] ");
        let label = first_chunk(step.title.as_str(), minus_exec(max_w, 8));
        push_str(&mut line, label.as_str());
        assert(line@ =~= step_line(steps@[i as int], i as nat, max_w as nat));
        let ghost before = string_views(out@);
        out.push(line);
        assert(string_views(out@) =~= before.push(line@));
        assert(target.take(i + 1) =~= target.take(i as int).push(target[i as int]));
        i += 1;
    }
    assert(target.take(n as int) =~= target);
    out
}

fn plan_body_lines(body: &str, max_w: usize) -> (r: Vec<String>)
    ensures
        string_views(r@) == (if wrapped_body(lines_of(body@), max_w as nat).len() > 12 {
            wrapped_body(lines_of(body@), max_w as nat).take(12)
        } else {
            wrapped_body(lines_of(body@), max_w as nat)
        }),
{
    let raws = lines(body);
    let ghost ls = lines_of(body@);
    let mut out: Vec<String> = Vec::new();
    let mut i: usize = 0;
    while i < raws.len()
        invariant
            i <= raws@.len(),
            string_views(raws@) == ls,
            ls == lines_of(body@),
            string_views(out@) == wrapped_body(ls.take(i as int), max_w as nat),
            out@.len() < 12,
        decreases raws@.len() - i,
    {
        let wrapped = wrap_inline(raws[i].as_str(), max_w);
        let ghost prev = wrapped_body(ls.take(i as int), max_w as nat);
        let ghost wv = string_views(wrapped@);
        assert(ls.take(i + 1).drop_last() =~= ls.take(i as int));
        assert(ls[i as int] == raws@[i as int]@);
        assert(wrapped_body(ls.take(i + 1), max_w as nat) == prev + wv);
        let mut j: usize = 0;
        while j < wrapped.len()
            invariant
                j <= wrapped@.len(),
                i < raws@.len(),
                string_views(raws@) == ls,
                ls == lines_of(body@),
                wrapped_body(ls.take(i + 1), max_w as nat) == prev + wv,
                wv == string_views(wrapped@),
                string_views(out@) == prev + wv.take(j as int),
                out@.len() < 12,
            decreases wrapped@.len() - j,
        {
            let ghost before = string_views(out@);
            out.push(crate::text::string_of(wrapped[j].as_str()));
            assert(string_views(out@) =~= before.push(wv[j as int]));
            assert(wv.take(j + 1) =~= wv.take(j as int).push(wv[j as int]));
            if out.len() >= 12 {
                proof {
                    let all = wrapped_body(ls, max_w as nat);
                    lemma_wrapped_prefix(ls, i + 1, max_w as nat);
                    let part = wrapped_body(ls.take(i + 1), max_w as nat);
                    assert(string_views(out@) =~= part.take(12));
                    assert(all.take(part.len() as int) == part);
                    assert(all.take(12) =~= part.take(12));
                }
                return out;
            }
            j += 1;
        }
        assert(wv.take(wrapped@.len() as int) =~= wv);
        i += 1;
    }
    assert(ls.take(raws@.len() as int) =~= ls);
    out
}

/// `wrapped_body` of a prefix is a prefix of the whole.
proof fn lemma_wrapped_prefix(ls: Seq<Seq<char>>, k: int, max_w: nat)
    requires
        0 <= k <= ls.len(),
    ensures
        wrapped_body(ls.take(k), max_w).len() <= wrapped_body(ls, max_w).len(),
        wrapped_body(ls, max_w).take(wrapped_body(ls.take(k), max_w).len() as int) == wrapped_body(ls.take(k), max_w),
    decreases ls.len(),
{
    if k < ls.len() {
        assert(ls.drop_last().take(k) =~= ls.take(k));
        lemma_wrapped_prefix(ls.drop_last(), k, max_w);
        let a = wrapped_body(ls.take(k), max_w);
        let b = wrapped_body(ls.drop_last(), max_w);
        assert(wrapped_body(ls, max_w) == b + wrap_inline_spec(ls.last(), max_w));
        assert((b + wrap_inline_spec(ls.last(), max_w)).take(a.len() as int) =~= b.take(a.len() as int));
    } else {
        assert(ls.take(k) =~= ls);
        assert(wrapped_body(ls, max_w).take(wrapped_body(ls, max_w).len() as int) =~= wrapped_body(ls, max_w));
    }
}

fn shell_lines(command: &str, cwd: &Option<String>, timeout_sec: Option<u32>, max_w: usize) -> (r: Vec<String>)
    ensures
        string_views(r@) == ({
            let first = seq!["$ "@ + chunk(command@, minus(max_w as nat, 2))];
            let meta = shell_meta(*cwd, timeout_sec);
            if meta.len() > 0 {
                first + seq![Seq::<char>::empty(), join(meta, "   "@)]
            } else {
                first
            }
        }),
{
    let mut out: Vec<String> = Vec::new();
    let mut first = String::new();
    push_str(&mut first, "$ ");
    let head = first_chunk(command, minus_exec(max_w, 2));
    push_str(&mut first, head.as_str());
    out.push(first);
    let mut meta = String::new();
    let mut parts: usize = 0;
    match cwd {
        Some(dir) => {
            push_str(&mut meta, "cwd ");
            push_str(&mut meta, dir.as_str());
            parts = 1;
        },
        None => {},
    }
    let ghost m1 = meta@;
    match timeout_sec {
        Some(t) => {
            if parts > 0 {
                push_str(&mut meta, "   ");
            }
            push_str(&mut meta, "timeout ");
            push_decimal(&mut meta, t as u64);
            push_str(&mut meta, "s");
            parts = parts + 1;
        },
        None => {},
    }
    let ghost mv = shell_meta(*cwd, timeout_sec);
    assert(mv.len() == parts);
    proof {
        if parts == 2 {
            assert(mv.drop_last() =~= seq![mv[0]]);
            assert(join(mv, "   "@) == join(mv.drop_last(), "   "@) + "   "@ + mv.last());
        }
    }
    assert(parts > 0 ==> meta@ =~= join(mv, "   "@));
    if parts > 0 {
        out.push(String::new());
        out.push(meta);
    }
    assert(string_views(out@) =~= ({
        let first = seq!["$ "@ + chunk(command@, minus(max_w as nat, 2))];
        if mv.len() > 0 {
            first + seq![Seq::<char>::empty(), join(mv, "   "@)]
        } else {
            first
        }
    }));
    out
}

fn path_lines(path: &str, intent: &str, tool_name: &str, max_w: usize) -> (r: Vec<String>)
    ensures
        string_views(r@) == seq![
            "intent  "@ + intent@,
            "tool    "@ + tool_name@,
            "path    "@ + chunk(path@, minus(max_w as nat, 8)),
        ],
{
    let mut a = String::new();
    push_str(&mut a, "intent  ");
    push_str(&mut a, intent);
    let mut b = String::new();
    push_str(&mut b, "tool    ");
    push_str(&mut b, tool_name);
    let mut c = String::new();
    push_str(&mut c, "path    ");
    let p = first_chunk(path, minus_exec(max_w, 8));
    push_str(&mut c, p.as_str());
    let mut out: Vec<String> = Vec::new();
    out.push(a);
    out.push(b);
    out.push(c);
    assert(string_views(out@) =~= seq![
        "intent  "@ + intent@,
        "tool    "@ + tool_name@,
        "path    "@ + chunk(path@, minus(max_w as nat, 8)),
    ]);
    out
}

fn push_edit_side(out: &mut Vec<String>, text: &str, sign: &str, max_w: usize)
    ensures
        string_views(final(out)@) == string_views(old(out)@) + edit_side(text@, sign@, max_w as nat),
{
    let ls = lines(text);
    let n: usize = if ls.len() < 4 {
        ls.len()
    } else {
        4
    };
    let ghost base = string_views(out@);
    let ghost side = edit_side(text@, sign@, max_w as nat);
    let mut i: usize = 0;
    while i < n
        invariant
            i <= n <= ls@.len(),
            n == side.len(),
            string_views(ls@) == lines_of(text@),
            side == edit_side(text@, sign@, max_w as nat),
            string_views(out@) == base + side.take(i as int),
        decreases n - i,
    {
        let mut line = String::new();
        push_str(&mut line, sign);
        let body = first_chunk(ls[i].as_str(), minus_exec(max_w, 2));
        push_str(&mut line, body.as_str());
        assert(line@ == side[i as int]);
        let ghost before = string_views(out@);
        out.push(line);
        assert(string_views(out@) =~= before.push(line@));
        assert(side.take(i + 1) =~= side.take(i as int).push(side[i as int]));
        i += 1;
    }
    assert(side.take(n as int) =~= side);
}

fn edit_lines(path: &str, search: &str, replace: &str, max_w: usize) -> (r: Vec<String>)
    ensures
        string_views(r@) == seq![
            path@ + "   -"@ + decimal(lines_of(search@).len()) + "  +"@ + decimal(lines_of(replace@).len()),
            Seq::<char>::empty(),
        ] + edit_side(search@, "- "@, max_w as nat) + edit_side(replace@, "+ "@, max_w as nat),
{
    let s_lines = lines(search).len();
    let r_lines = lines(replace).len();
    let mut head = String::new();
    push_str(&mut head, path);
    push_str(&mut head, "   -");
    push_decimal(&mut head, s_lines as u64);
    push_str(&mut head, "  +");
    push_decimal(&mut head, r_lines as u64);
    let mut out: Vec<String> = Vec::new();
    out.push(head);
    out.push(String::new());
    assert(string_views(out@) =~= seq![
        path@ + "   -"@ + decimal(lines_of(search@).len()) + "  +"@ + decimal(lines_of(replace@).len()),
        Seq::<char>::empty(),
    ]);
    push_edit_side(&mut out, search, "- ", max_w);
    push_edit_side(&mut out, replace, "+ ", max_w);
    out
}

fn checkpoint_lines(title: &Option<String>, completed: u32, total: u32, max_w: usize) -> (r: Vec<String>)
    ensures
        string_views(r@) == (match *title {
            Some(t) => seq!["just finished: "@ + chunk(t@, minus(max_w as nat, 15))],
            None => Seq::empty(),
        }) + seq![
            Seq::<char>::empty(),
            "progress: "@ + decimal(completed as nat) + " of "@ + decimal(total as nat) + " step(s) done"@,
            Seq::<char>::empty(),
            "continue executing, type a refinement, or stop here?"@,
        ],
{
    let mut out: Vec<String> = Vec::new();
    match title {
        Some(t) => {
            let mut line = String::new();
            push_str(&mut line, "just finished: ");
            let c = first_chunk(t.as_str(), minus_exec(max_w, 15));
            push_str(&mut line, c.as_str());
            out.push(line);
        },
        None => {},
    }
    let ghost pre = string_views(out@);
    out.push(String::new());
    let mut progress = String::new();
    push_str(&mut progress, "progress: ");
    push_decimal(&mut progress, completed as u64);
    push_str(&mut progress, " of ");
    push_decimal(&mut progress, total as u64);
    push_str(&mut progress, " step(s) done");
    out.push(progress);
    out.push(String::new());
    let mut last = String::new();
    push_str(&mut last, "continue executing, type a refinement, or stop here?");
    out.push(last);
    assert(string_views(out@) =~= pre + seq![
        Seq::<char>::empty(),
        "progress: "@ + decimal(completed as nat) + " of "@ + decimal(total as nat) + " step(s) done"@,
        Seq::<char>::empty(),
        "continue executing, type a refinement, or stop here?"@,
    ]);
    out
}

fn choice_lines(question: &str, options: &Vec<ApprovalChoiceOption>, choice_idx: usize, max_w: usize) -> (r: Vec<String>)
    ensures
        string_views(r@) == ({
            let n = options@.len();
            let sel = if (choice_idx as nat) < minus(n, 1) {
                choice_idx as nat
            } else {
                minus(n, 1)
            };
            let shown = if n < 10 {
                n
            } else {
                10
            };
            seq![chunk(question@, max_w as nat), Seq::<char>::empty()] + options_lines(options@, shown, sel, max_w as nat)
        }),
{
    let n = options.len();
    let last = minus_exec(n, 1);
    let sel = if choice_idx < last {
        choice_idx
    } else {
        last
    };
    let shown: usize = if n < 10 {
        n
    } else {
        10
    };
    let mut out: Vec<String> = Vec::new();
    out.push(first_chunk(question, max_w));
    out.push(String::new());
    let ghost pre = string_views(out@);
    assert(pre =~= seq![chunk(question@, max_w as nat), Seq::<char>::empty()]);
    let mut i: usize = 0;
    while i < shown
        invariant
            i <= shown <= 10,
            shown <= options@.len(),
            string_views(out@) == pre + options_lines(options@, i as nat, sel as nat, max_w as nat),
        decreases shown - i,
    {
        let opt = &options[i];
        let letter = (97u8 + i as u8) as char;
        let mut line = String::new();
        push_char(&mut line, letter);
        push_str(&mut line, ")  ");
        if i == sel {
            push_str(&mut line, "\u{25cf}");
        } else {
            push_str(&mut line, "\u{25cb}");
        }
        push_str(&mut line, "  ");
        let t = first_chunk(opt.title.as_str(), minus_exec(max_w, 8));
        push_str(&mut line, t.as_str());
        let ghost before = string_views(out@);
        out.push(line);
        let mut extra = false;
        match &opt.summary {
            Some(summary) => {
                if !summary.as_str().is_empty() {
                    let mut l2 = String::new();
                    push_str(&mut l2, "        ");
                    let c = first_chunk(summary.as_str(), minus_exec(max_w, 8));
                    push_str(&mut l2, c.as_str());
                    out.push(l2);
                    extra = true;
                }
            },
            None => {},
        }
        assert(string_views(out@) =~= before + option_lines(options@[i as int], i as nat, sel as nat, max_w as nat));
        i += 1;
    }
    out
}

/// The lines of the popup's body at `max_w` columns (see
/// `body_lines_spec`).
pub fn body_lines(approval: &Approval, max_w: usize, choice_idx: usize) -> (r: Vec<String>)
    ensures
        string_views(r@) == body_lines_spec(*approval, max_w as nat, choice_idx as nat),
{
    match approval {
        Approval::Plan { body, steps } => {
            let mut out = if steps.len() > 0 {
                plan_step_lines(steps, max_w)
            } else {
                plan_body_lines(body.as_str(), max_w)
            };
            if out.len() == 0 {
                let mut s = String::new();
                push_str(&mut s, "(plan body is empty)");
                out.push(s);
                assert(string_views(out@) =~= seq!["(plan body is empty)"@]);
            }
            out
        },
        Approval::Shell { command, cwd, timeout_sec } => shell_lines(command.as_str(), cwd, *timeout_sec, max_w),
        Approval::Path { path, intent, tool_name } => path_lines(path.as_str(), intent.as_str(), tool_name.as_str(), max_w),
        Approval::Edit { path, search, replace } => edit_lines(path.as_str(), search.as_str(), replace.as_str(), max_w),
        Approval::Checkpoint { title, completed, total } => checkpoint_lines(title, *completed, *total, max_w),
        Approval::Choice { question, options, .. } => choice_lines(question.as_str(), options, choice_idx, max_w),
    }
}

/// How many of the lines `ls` hold more than whitespace.
pub open spec fn nonblank_count(ls: Seq<Seq<char>>) -> nat
    decreases ls.len(),
{
    if ls.len() == 0 {
        0
    } else {
        nonblank_count(ls.drop_last()) + if trim_ws(ls.last()).len() > 0 {
            1nat
        } else {
            0nat
        }
    }
}

/// `"{n} {word}"`, with an `s` unless `n` is 1.
pub open spec fn counted(n: nat, word: Seq<char>) -> Seq<char> {
    decimal(n) + seq![' '] + word + if n == 1 {
        Seq::<char>::empty()
    } else {
        seq!['s']
    }
}

/// The popup's title: glyph, kind, subtitle and the word for dismissing it.
pub open spec fn title_spec(a: Approval) -> (Seq<char>, Seq<char>, Seq<char>, Seq<char>) {
    match a {
        Approval::Plan { body, steps } => {
            let n = if steps@.len() == 0 {
                nonblank_count(lines_of(body@))
            } else {
                steps@.len()
            };
            ("\u{25c7}"@, "REVIEW PLAN"@, counted(n, "step"@), "skip"@)
        },
        Approval::Shell { command, .. } => ("\u{26a1}"@, "SHELL EXEC"@, chunk(command@, 40), "dismiss"@),
        Approval::Path { path, intent, .. } => ("\u{25b8}"@, "PATH ACCESS"@, intent@ + seq![' '] + chunk(path@, 50), "deny"@),
        Approval::Edit { path, .. } => ("\u{25a3}"@, "EDIT PREVIEW"@, chunk(path@, 50), "dismiss"@),
        Approval::Choice { options, .. } => ("\u{25c6}"@, "CHOOSE"@, counted(options@.len(), "option"@), "skip"@),
        Approval::Checkpoint { completed, total, .. } => (
            "\u{25c9}"@,
            "STEP CHECKPOINT"@,
            decimal(completed as nat) + seq!['/'] + decimal(total as nat),
            "stop"@,
        ),
    }
}

fn counted_exec(n: usize, word: &str) -> (r: String)
    ensures
        r@ == counted(n as nat, word@),
{
    let mut s = String::new();
    push_decimal(&mut s, n as u64);
    push_char(&mut s, ' ');
    push_str(&mut s, word);
    if n != 1 {
        push_char(&mut s, 's');
    }
    assert(s@ =~= counted(n as nat, word@));
    s
}

/// The popup's title parts (see `title_spec`).
pub fn title_parts(approval: &Approval) -> (r: (&'static str, &'static str, String, &'static str))
    ensures
        r.0@ == title_spec(*approval).0,
        r.1@ == title_spec(*approval).1,
        r.2@ == title_spec(*approval).2,
        r.3@ == title_spec(*approval).3,
{
    match approval {
        Approval::Plan { body, steps } => {
            let n = if steps.len() == 0 {
                let ls = lines(body.as_str());
                let ghost lv = string_views(ls@);
                let mut k: usize = 0;
                let mut i: usize = 0;
                while i < ls.len()
                    invariant
                        i <= ls@.len(),
                        lv == string_views(ls@),
                        k == nonblank_count(lv.take(i as int)),
                        k <= i,
                    decreases ls@.len() - i,
                {
                    assert(lv.take(i + 1).drop_last() =~= lv.take(i as int));
                    let t = crate::text::trim(ls[i].as_str());
                    if !t.as_str().is_empty() {
                        k = k + 1;
                    }
                    i += 1;
                }
                assert(lv.take(ls@.len() as int) =~= lv);
                k
            } else {
                steps.len()
            };
            ("\u{25c7}", "REVIEW PLAN", counted_exec(n, "step"), "skip")
        },
        Approval::Shell { command, .. } => ("\u{26a1}", "SHELL EXEC", first_chunk(command.as_str(), 40), "dismiss"),
        Approval::Path { path, intent, .. } => {
            let mut sub = String::new();
            push_str(&mut sub, intent.as_str());
            push_char(&mut sub, ' ');
            let c = first_chunk(path.as_str(), 50);
            push_str(&mut sub, c.as_str());
            ("\u{25b8}", "PATH ACCESS", sub, "deny")
        },
        Approval::Edit { path, .. } => ("\u{25a3}", "EDIT PREVIEW", first_chunk(path.as_str(), 50), "dismiss"),
        Approval::Choice { options, .. } => ("\u{25c6}", "CHOOSE", counted_exec(options.len(), "option"), "skip"),
        Approval::Checkpoint { completed, total, .. } => {
            let mut sub = String::new();
            push_decimal(&mut sub, *completed as u64);
            push_char(&mut sub, '/');
            push_decimal(&mut sub, *total as u64);
            ("\u{25c9}", "STEP CHECKPOINT", sub, "stop")
        },
    }
}

/// The keys offered at the foot of the popup, with what each does.
pub open spec fn actions_spec(a: Approval) -> Seq<(Seq<char>, Seq<char>)> {
    match a {
        Approval::Plan { .. } => seq![
            ("\u{21b5}"@, "approve"@),
            ("r"@, "refine"@),
            ("v"@, "revise"@),
            ("n"@, "cancel"@),
        ],
        Approval::Shell { .. } => seq![
            ("\u{21b5}"@, "run"@),
            ("a"@, "always allow this command"@),
            ("n"@, "cancel"@),
        ],
        Approval::Path { .. } => seq![("\u{21b5}"@, "allow once"@), ("a"@, "always allow"@), ("n"@, "deny"@)],
        Approval::Edit { .. } => seq![
            ("\u{21b5}"@, "apply"@),
            ("r"@, "reject"@),
            ("t"@, "rest of turn"@),
            ("y"@, "flip to auto"@),
        ],
        Approval::Checkpoint { .. } => seq![("\u{21b5}"@, "continue"@), ("r"@, "revise"@), ("s"@, "stop"@)],
        Approval::Choice { allow_custom, .. } => seq![
            ("\u{2191}\u{2193}"@, "move"@),
            ("\u{21b5}"@, "pick"@),
            ("1-9"@, "jump"@),
        ] + (if allow_custom {
            seq![("c"@, "custom"@)]
        } else {
            Seq::empty()
        }) + seq![("esc"@, "cancel"@)],
    }
}

pub open spec fn pairs_view(v: Seq<(&'static str, &'static str)>) -> Seq<(Seq<char>, Seq<char>)> {
    v.map_values(|p: (&'static str, &'static str)| (p.0@, p.1@))
}

fn push_pair(v: &mut Vec<(&'static str, &'static str)>, key: &'static str, what: &'static str)
    ensures
        pairs_view(final(v)@) == pairs_view(old(v)@).push((key@, what@)),
{
    v.push((key, what));
    assert(pairs_view(final(v)@) =~= pairs_view(old(v)@).push((key@, what@)));
}

/// The keys of the popup's foot (see `actions_spec`).
pub fn action_cells(approval: &Approval) -> (r: Vec<(&'static str, &'static str)>)
    ensures
        pairs_view(r@) == actions_spec(*approval),
{
    let mut v: Vec<(&'static str, &'static str)> = Vec::new();
    assert(pairs_view(v@) =~= Seq::<(Seq<char>, Seq<char>)>::empty());
    match approval {
        Approval::Plan { .. } => {
            push_pair(&mut v, "\u{21b5}", "approve");
            push_pair(&mut v, "r", "refine");
            push_pair(&mut v, "v", "revise");
            push_pair(&mut v, "n", "cancel");
        },
        Approval::Shell { .. } => {
            push_pair(&mut v, "\u{21b5}", "run");
            push_pair(&mut v, "a", "always allow this command");
            push_pair(&mut v, "n", "cancel");
        },
        Approval::Path { .. } => {
            push_pair(&mut v, "\u{21b5}", "allow once");
            push_pair(&mut v, "a", "always allow");
            push_pair(&mut v, "n", "deny");
        },
        Approval::Edit { .. } => {
            push_pair(&mut v, "\u{21b5}", "apply");
            push_pair(&mut v, "r", "reject");
            push_pair(&mut v, "t", "rest of turn");
            push_pair(&mut v, "y", "flip to auto");
        },
        Approval::Checkpoint { .. } => {
            push_pair(&mut v, "\u{21b5}", "continue");
            push_pair(&mut v, "r", "revise");
            push_pair(&mut v, "s", "stop");
        },
        Approval::Choice { allow_custom, .. } => {
            push_pair(&mut v, "\u{2191}\u{2193}", "move");
            push_pair(&mut v, "\u{21b5}", "pick");
            push_pair(&mut v, "1-9", "jump");
            if *allow_custom {
                push_pair(&mut v, "c", "custom");
            }
            push_pair(&mut v, "esc", "cancel");
        },
    }
    assert(pairs_view(v@) =~= actions_spec(*approval));
    v
}

/// Where the popup stands on a screen at (`x`, `y`) of `w` by `h` cells,
/// above a dock `dock_h` rows high, for a body of `body_len` lines: at most
/// 110 columns wide and 8 narrower than the screen, two columns in; its body
/// at most 12 rows, with a border row and a title row above and a footer of
/// three rows below; at least `max(dock_h, 5) + 1` rows above the screen's
/// bottom. None when it would be narrower than 50 columns or not fit.
pub open spec fn popup_spec(x: nat, y: nat, w: nat, h: nat, body_len: nat, dock_h: nat) -> Option<(nat, nat, nat, nat)> {
    let pw = if minus(w, 8) < 110 {
        minus(w, 8)
    } else {
        110
    };
    let body_h = if body_len < 12 {
        body_len
    } else {
        12
    };
    let ph = 2 + body_h + 3;
    let margin = (if dock_h < 5 {
        5
    } else {
        dock_h
    }) + 1;
    let bottom = if y + h > u16::MAX {
        u16::MAX as nat
    } else {
        y + h
    };
    let py = minus(bottom, ph + margin);
    if pw < 50 || ph + margin > h || py < y {
        None
    } else {
        Some((x + 2, py, pw, ph))
    }
}

/// The popup's rectangle as (x, y, width, height) (see `popup_spec`).
pub fn popup_rect(x: u16, y: u16, w: u16, h: u16, body_len: usize, dock_h: u16) -> (r: Option<(u16, u16, u16, u16)>)
    requires
        dock_h < u16::MAX,
        x <= u16::MAX - 2,
    ensures
        match r {
            Some(t) => popup_spec(x as nat, y as nat, w as nat, h as nat, body_len as nat, dock_h as nat)
                == Some((t.0 as nat, t.1 as nat, t.2 as nat, t.3 as nat)),
            None => popup_spec(x as nat, y as nat, w as nat, h as nat, body_len as nat, dock_h as nat) is None,
        },
{
    let narrowed: u16 = if w >= 8 {
        w - 8
    } else {
        0
    };
    let pw: u16 = if narrowed < 110 {
        narrowed
    } else {
        110
    };
    if pw < 50 {
        return None;
    }
    let body_h: u16 = if body_len < 12 {
        body_len as u16
    } else {
        12
    };
    let ph: u16 = 2 + body_h + 3;
    let margin: u16 = (if dock_h < 5 {
        5
    } else {
        dock_h
    }) + 1;
    if (ph as u32) + (margin as u32) > h as u32 {
        return None;
    }
    let bottom: u16 = if (y as u32) + (h as u32) > 65535 {
        65535
    } else {
        y + h
    };
    let need: u16 = ph + margin;
    let py: u16 = if bottom >= need {
        bottom - need
    } else {
        0
    };
    if py < y {
        return None;
    }
    Some((x + 2, py, pw, ph))
}

} // verus!
