//! The slash-command popup: which catalog commands match what the user
//! typed, how a pick completes the composer text, and which argument
//! values are offered for `/<cmd> <partial>`.
use crate::state::{SceneState, SlashArgState, SlashMatch};
use crate::text::{
    chars_of, contains_char, eq_ascii_ci, eq_ignore_ascii_case, find_char, first_pos,
    is_first_index, is_prefix, lemma_first_pos, lowercase, lowercase_chars, push_char, push_str,
    starts_with, string_from_chars, string_from_range, string_lit,
};
use vstd::prelude::*;

verus! {

/// The views of a list of strings.
pub open spec fn views(v: Seq<String>) -> Seq<Seq<char>> {
    v.map_values(|s: String| s@)
}

/// The command names offered when the host sent no catalog.
pub open spec fn fallback_names() -> Seq<Seq<char>> {
    seq!["clear"@, "compact"@, "help"@]
}

/// The command names to match against: the catalog's, or the fallback.
pub open spec fn command_names(state: SceneState) -> Seq<Seq<char>> {
    match state.slash_catalog {
        Some(v) => v@.map_values(|m: SlashMatch| m.cmd@),
        None => fallback_names(),
    }
}

/// The lower-cased search text of a query: everything after one leading
/// `/` (nothing when there is none).
pub open spec fn needle_of(query: Seq<char>) -> Seq<char> {
    if query.len() > 0 && query[0] == '/' {
        lowercase(query.drop_first())
    } else {
        lowercase(Seq::<char>::empty())
    }
}

/// A command matches an empty needle, and otherwise one that its
/// lower-cased name starts with.
pub open spec fn name_matches(cmd: Seq<char>, needle: Seq<char>) -> bool {
    needle.len() == 0 || is_prefix(needle, lowercase(cmd))
}

/// The names in `names` that match `needle`, in order.
pub open spec fn matching_names(names: Seq<Seq<char>>, needle: Seq<char>) -> Seq<Seq<char>>
    decreases names.len(),
{
    if names.len() == 0 {
        Seq::empty()
    } else {
        let rest = matching_names(names.drop_last(), needle);
        if name_matches(names.last(), needle) {
            rest.push(names.last())
        } else {
            rest
        }
    }
}

/// The commands that match `query`, in catalog order.
pub open spec fn slash_matches(query: Seq<char>, state: SceneState) -> Seq<Seq<char>> {
    matching_names(command_names(state), needle_of(query))
}

/// Whether the query starts with `/`.
pub open spec fn is_slash_query(query: Seq<char>) -> bool {
    query.len() > 0 && query[0] == '/'
}

/// The text `/<name> `.
pub open spec fn completion_text(name: Seq<char>) -> Seq<char> {
    seq!['/'] + name + seq![' ']
}

/// Whether the query names one command exactly: `/<cmd>` with a non-empty
/// `cmd` without spaces that equals a catalog name, ASCII case ignored.
pub open spec fn exact_command(query: Seq<char>, state: SceneState) -> bool {
    &&& is_slash_query(query)
    &&& query.drop_first().len() > 0
    &&& !query.drop_first().contains(' ')
    &&& exists|i: int|
        0 <= i < command_names(state).len() && eq_ascii_ci(
            #[trigger] command_names(state)[i],
            lowercase(query.drop_first()),
        )
}

fn fallback_names_exec() -> (r: Vec<String>)
    ensures
        views(r@) == fallback_names(),
{
    let mut v: Vec<String> = Vec::new();
    v.push(string_lit("clear"));
    v.push(string_lit("compact"));
    v.push(string_lit("help"));
    assert(views(v@) =~= fallback_names());
    v
}

fn command_names_exec(state: &SceneState) -> (r: Vec<String>)
    ensures
        views(r@) == command_names(*state),
{
    match &state.slash_catalog {
        Some(catalog) => {
            let mut out: Vec<String> = Vec::new();
            let mut i: usize = 0;
            while i < catalog.len()
                invariant
                    i <= catalog@.len(),
                    views(out@) == catalog@.take(i as int).map_values(|m: SlashMatch| m.cmd@),
                decreases catalog@.len() - i,
            {
                out.push(catalog[i].cmd.clone());
                assert(catalog@.take(i + 1).map_values(|m: SlashMatch| m.cmd@) =~= catalog@.take(
                    i as int,
                ).map_values(|m: SlashMatch| m.cmd@).push(catalog@[i as int].cmd@));
                assert(views(out@) =~= views(out@.drop_last()).push(out@.last()@));
                i += 1;
            }
            assert(catalog@.take(catalog@.len() as int) =~= catalog@);
            out
        },
        None => fallback_names_exec(),
    }
}

/// Whether `cmd` matches the lower-cased `needle`.
pub fn matches_query(cmd: &str, needle_lower: &[char]) -> (r: bool)
    ensures
        r == name_matches(cmd@, needle_lower@),
{
    if needle_lower.len() == 0 {
        return true;
    }
    let lc = lowercase_chars(chars_of(cmd).as_slice());
    starts_with(lc.as_slice(), needle_lower)
}

pub(crate) fn needle_exec(q: &[char]) -> (r: Vec<char>)
    ensures
        r@ == needle_of(q@),
{
    if q.len() > 0 && q[0] == '/' {
        let rest = string_from_range(q, 1, q.len());
        assert(q@.subrange(1, q@.len() as int) =~= q@.drop_first());
        lowercase_chars(chars_of(rest.as_str()).as_slice())
    } else {
        let e: Vec<char> = Vec::new();
        lowercase_chars(e.as_slice())
    }
}

/// The names of the commands that match `query`.
fn match_list(query: &str, state: &SceneState) -> (r: Vec<String>)
    ensures
        views(r@) == slash_matches(query@, *state),
{
    let q = chars_of(query);
    let needle = needle_exec(q.as_slice());
    let names = command_names_exec(state);
    let mut out: Vec<String> = Vec::new();
    let mut i: usize = 0;
    while i < names.len()
        invariant
            i <= names@.len(),
            views(out@) == matching_names(views(names@).take(i as int), needle@),
        decreases names@.len() - i,
    {
        let ghost pre = views(names@).take(i as int);
        let m = matches_query(names[i].as_str(), needle.as_slice());
        assert(views(names@).take(i + 1).drop_last() =~= pre);
        if m {
            out.push(names[i].clone());
            assert(views(out@) =~= views(out@.drop_last()).push(out@.last()@));
        }
        i += 1;
    }
    assert(views(names@).take(names@.len() as int) =~= views(names@));
    out
}

/// Number of commands matching `query`; 0 unless it starts with `/`.
pub fn slash_match_count(query: &str, state: &SceneState) -> (r: usize)
    ensures
        r == if is_slash_query(query@) {
            slash_matches(query@, *state).len()
        } else {
            0
        },
{
    let q = chars_of(query);
    if !(q.len() > 0 && q[0] == '/') {
        return 0;
    }
    let v = match_list(query, state);
    v.len()
}

/// True when `query` is `/<cmd>` for a `<cmd>` of the catalog (ASCII case
/// ignored): the composer then submits the command instead of completing it.
#[verifier::loop_isolation(false)]
pub fn slash_is_exact(query: &str, state: &SceneState) -> (r: bool)
    ensures
        r == exact_command(query@, *state),
{
    let q = chars_of(query);
    if !(q.len() > 0 && q[0] == '/') {
        return false;
    }
    let needle_s = string_from_range(q.as_slice(), 1, q.len());
    let needle = chars_of(needle_s.as_str());
    assert(needle@ =~= q@.drop_first());
    if needle.len() == 0 || contains_char(needle.as_slice(), ' ') {
        return false;
    }
    let needle_lower = lowercase_chars(needle.as_slice());
    let names = command_names_exec(state);
    let mut i: usize = 0;
    while i < names.len()
        invariant
            i <= names@.len(),
            views(names@) == command_names(*state),
            needle_lower@ == lowercase(q@.drop_first()),
            forall|j: int|
                0 <= j < i ==> !eq_ascii_ci(
                    #[trigger] command_names(*state)[j],
                    lowercase(q@.drop_first()),
                ),
        decreases names@.len() - i,
    {
        let name = chars_of(names[i].as_str());
        if eq_ignore_ascii_case(name.as_slice(), needle_lower.as_slice()) {
            assert(command_names(*state)[i as int] == names@[i as int]@);
            return true;
        }
        assert(command_names(*state)[i as int] == names@[i as int]@);
        i += 1;
    }
    false
}

/// The composer text after picking match `idx`: `/<name> `; `None` when
/// the query does not start with `/` or there is no such match.
pub fn slash_completion(query: &str, idx: usize, state: &SceneState) -> (r: Option<String>)
    ensures
        match r {
            Some(s) => is_slash_query(query@) && idx < slash_matches(query@, *state).len()
                && s@ == completion_text(slash_matches(query@, *state)[idx as int]),
            None => !is_slash_query(query@) || idx >= slash_matches(query@, *state).len(),
        },
{
    let q = chars_of(query);
    if !(q.len() > 0 && q[0] == '/') {
        return None;
    }
    let v = match_list(query, state);
    if idx >= v.len() {
        return None;
    }
    let mut out = string_lit("/");
    push_str(&mut out, v[idx].as_str());
    push_char(&mut out, ' ');
    proof {
        reveal_strlit("/");
    }
    assert(views(v@)[idx as int] == v@[idx as int]@);
    assert(out@ =~= completion_text(views(v@)[idx as int]));
    Some(out)
}

/// `/<cmd> <partial>` split at the first space after the leading `/`.
pub open spec fn split_arg(query: Seq<char>) -> Option<(Seq<char>, Seq<char>)> {
    if is_slash_query(query) && query.drop_first().contains(' ') {
        let rest = query.drop_first();
        let p = first_pos(rest, ' ');
        Some((rest.take(p), rest.skip(p + 1)))
    } else {
        None
    }
}

/// The index of the first catalog entry whose command equals `cmd`, ASCII
/// case ignored.
pub open spec fn first_cmd_index(catalog: Seq<SlashMatch>, cmd: Seq<char>) -> Option<int> {
    if exists|i: int| 0 <= i < catalog.len() && eq_ascii_ci(#[trigger] catalog[i].cmd@, cmd) {
        Some(
            choose|i: int|
                0 <= i < catalog.len() && eq_ascii_ci(catalog[i].cmd@, cmd) && forall|j: int|
                    0 <= j < i ==> !eq_ascii_ci(#[trigger] catalog[j].cmd@, cmd),
        )
    } else {
        None
    }
}

/// The completer values that start with `needle` once lower-cased.
pub open spec fn values_with_prefix(vals: Seq<Seq<char>>, needle: Seq<char>) -> Seq<Seq<char>>
    decreases vals.len(),
{
    if vals.len() == 0 {
        Seq::empty()
    } else {
        let rest = values_with_prefix(vals.drop_last(), needle);
        if is_prefix(needle, lowercase(vals.last())) {
            rest.push(vals.last())
        } else {
            rest
        }
    }
}

/// Whether the host's resolved argument state applies to this command and
/// partial argument.
pub open spec fn arg_state_applies(s: SlashArgState, cmd: Seq<char>, partial: Seq<char>) -> bool {
    eq_ascii_ci(s.cmd@, cmd) && s.partial@ == partial && s.matches@.len() > 0
}

/// The argument values offered for `/<cmd> <partial>`: none past the first
/// argument; the host's resolved list when it is for this command and
/// partial; otherwise the catalog's static completer, filtered by prefix
/// (ASCII-insensitive command lookup, lower-cased value comparison), and
/// none once the partial equals one of the values.
pub open spec fn arg_matches(query: Seq<char>, state: SceneState) -> Option<Seq<Seq<char>>> {
    match split_arg(query) {
        None => None,
        Some((cmd, partial)) => if partial.contains(' ') {
            None
        } else if state.slash_arg_state matches Some(s) && arg_state_applies(s, cmd, partial) {
            Some(views(state.slash_arg_state.unwrap().matches@))
        } else {
            match state.slash_catalog {
                None => None,
                Some(catalog) => match first_cmd_index(catalog@, cmd) {
                    None => None,
                    Some(i) => match catalog@[i].arg_completer {
                        None => None,
                        Some(completer) => {
                            let vals = views(completer@);
                            let needle = lowercase(partial);
                            if partial.len() > 0 && exists|k: int|
                                0 <= k < vals.len() && lowercase(#[trigger] vals[k]) == needle {
                                None
                            } else if partial.len() == 0 {
                                Some(vals)
                            } else {
                                Some(values_with_prefix(vals, needle))
                            }
                        },
                    },
                },
            }
        },
    }
}

fn split_slash_arg(q: &[char]) -> (r: Option<(Vec<char>, Vec<char>)>)
    ensures
        match r {
            Some((c, p)) => split_arg(q@) == Some((c@, p@)),
            None => split_arg(q@) is None,
        },
{
    if !(q.len() > 0 && q[0] == '/') {
        return None;
    }
    let rest_s = string_from_range(q, 1, q.len());
    let rest = chars_of(rest_s.as_str());
    assert(rest@ =~= q@.drop_first());
    match find_char(rest.as_slice(), ' ') {
        None => None,
        Some(p) => {
            proof {
                assert(is_first_index(rest@, ' ', p as int));
                lemma_first_pos(rest@, ' ', p as int);
            }
            let cmd_s = string_from_range(rest.as_slice(), 0, p);
            let partial_s = string_from_range(rest.as_slice(), p + 1, rest.len());
            let cmd = chars_of(cmd_s.as_str());
            let partial = chars_of(partial_s.as_str());
            assert(cmd@ =~= rest@.take(p as int));
            assert(partial@ =~= rest@.skip(p + 1));
            Some((cmd, partial))
        },
    }
}

/// The command and the partial argument of `/<cmd> <partial>` (see
/// `split_arg`).
pub fn slash_arg_parts(query: &str) -> (r: Option<(String, String)>)
    ensures
        match r {
            Some((c, p)) => split_arg(query@) == Some((c@, p@)),
            None => split_arg(query@) is None,
        },
{
    let q = chars_of(query);
    match split_slash_arg(q.as_slice()) {
        Some((c, p)) => Some((string_from_chars(c.as_slice()), string_from_chars(p.as_slice()))),
        None => None,
    }
}

pub(crate) fn clone_strings(v: &Vec<String>) -> (r: Vec<String>)
    ensures
        views(r@) == views(v@),
        r@.len() == v@.len(),
{
    let mut out: Vec<String> = Vec::new();
    let mut i: usize = 0;
    while i < v.len()
        invariant
            i <= v@.len(),
            views(out@) == views(v@.take(i as int)),
            out@.len() == i,
        decreases v@.len() - i,
    {
        out.push(v[i].clone());
        assert(views(v@.take(i + 1)) =~= views(v@.take(i as int)).push(v@[i as int]@));
        assert(views(out@) =~= views(out@.drop_last()).push(out@.last()@));
        i += 1;
    }
    assert(v@.take(v@.len() as int) =~= v@);
    out
}

fn find_cmd(catalog: &Vec<SlashMatch>, cmd: &[char]) -> (r: Option<usize>)
    ensures
        match r {
            Some(i) => i < catalog@.len() && first_cmd_index(catalog@, cmd@) == Some(i as int),
            None => first_cmd_index(catalog@, cmd@) is None,
        },
{
    let mut i: usize = 0;
    while i < catalog.len()
        invariant
            i <= catalog@.len(),
            forall|j: int| 0 <= j < i ==> !eq_ascii_ci(#[trigger] catalog@[j].cmd@, cmd@),
        decreases catalog@.len() - i,
    {
        let name = chars_of(catalog[i].cmd.as_str());
        if eq_ignore_ascii_case(name.as_slice(), cmd) {
            proof {
                let k = choose|k: int|
                    0 <= k < catalog@.len() && eq_ascii_ci(catalog@[k].cmd@, cmd@) && forall|j: int|
                        0 <= j < k ==> !eq_ascii_ci(#[trigger] catalog@[j].cmd@, cmd@);
                if k < i {
                } else if k > i {
                    assert(!eq_ascii_ci(catalog@[i as int].cmd@, cmd@));
                }
            }
            return Some(i);
        }
        i += 1;
    }
    None
}

/// A list the host resolved for another command or another partial
/// argument is never offered: the values are those the scene would give
/// without it.
pub proof fn law_stale_arg_state_ignored(query: Seq<char>, state: SceneState)
    requires
        split_arg(query) matches Some((cmd, partial)) && state.slash_arg_state matches Some(s)
            && !arg_state_applies(s, cmd, partial),
    ensures
        arg_matches(query, state) == arg_matches(query, SceneState { slash_arg_state: None, ..state }),
{
}

/// The argument values offered for `/<cmd> <partial>` (see `arg_matches`).
#[verifier::loop_isolation(false)]
pub fn slash_arg_values(query: &str, state: &SceneState) -> (r: Option<Vec<String>>)
    ensures
        match r {
            Some(v) => arg_matches(query@, *state) == Some(views(v@)),
            None => arg_matches(query@, *state) is None,
        },
{
    let q = chars_of(query);
    let (cmd, partial) = match split_slash_arg(q.as_slice()) {
        Some(x) => x,
        None => return None,
    };
    if contains_char(partial.as_slice(), ' ') {
        return None;
    }
    if let Some(s) = &state.slash_arg_state {
        let scmd = chars_of(s.cmd.as_str());
        let spartial = chars_of(s.partial.as_str());
        if eq_ignore_ascii_case(scmd.as_slice(), cmd.as_slice()) && crate::text::chars_eq(
            spartial.as_slice(),
            partial.as_slice(),
        ) && s.matches.len() > 0 {
            return Some(clone_strings(&s.matches));
        }
    }
    let catalog = match &state.slash_catalog {
        Some(c) => c,
        None => return None,
    };
    let idx = match find_cmd(catalog, cmd.as_slice()) {
        Some(i) => i,
        None => return None,
    };
    let completer = match &catalog[idx].arg_completer {
        Some(c) => c,
        None => return None,
    };
    let needle = lowercase_chars(partial.as_slice());
    let ghost vals = views(completer@);
    if partial.len() > 0 {
        let mut k: usize = 0;
        while k < completer.len()
            invariant
                k <= completer@.len(),
                vals == views(completer@),
                needle@ == lowercase(partial@),
                forall|j: int| 0 <= j < k ==> lowercase(#[trigger] vals[j]) != needle@,
            decreases completer@.len() - k,
        {
            let lv = lowercase_chars(chars_of(completer[k].as_str()).as_slice());
            if crate::text::chars_eq(lv.as_slice(), needle.as_slice()) {
                assert(lowercase(vals[k as int]) == needle@);
                return None;
            }
            k += 1;
        }
    } else {
        return Some(clone_strings(completer));
    }
    let mut out: Vec<String> = Vec::new();
    let mut i: usize = 0;
    while i < completer.len()
        invariant
            i <= completer@.len(),
            vals == views(completer@),
            needle@ == lowercase(partial@),
            views(out@) == values_with_prefix(vals.take(i as int), needle@),
        decreases completer@.len() - i,
    {
        let lv = lowercase_chars(chars_of(completer[i].as_str()).as_slice());
        assert(vals.take(i + 1).drop_last() =~= vals.take(i as int));
        if starts_with(lv.as_slice(), needle.as_slice()) {
            out.push(completer[i].clone());
            assert(views(out@) =~= views(out@.drop_last()).push(out@.last()@));
        }
        i += 1;
    }
    assert(vals.take(completer@.len() as int) =~= vals);
    Some(out)
}

/// Number of argument values offered for `/<cmd> <partial>` (0 when none
/// are offered).
pub fn slash_arg_match_count(query: &str, state: &SceneState) -> (r: usize)
    ensures
        r == match arg_matches(query@, *state) {
            Some(v) => v.len(),
            None => 0,
        },
{
    match slash_arg_values(query, state) {
        Some(v) => v.len(),
        None => 0,
    }
}

/// The composer text after picking argument `idx`: `/<cmd> <value>`; `None`
/// when there is no such value.
pub fn slash_arg_completion(query: &str, idx: usize, state: &SceneState) -> (r: Option<String>)
    ensures
        match r {
            Some(s) => arg_matches(query@, *state) matches Some(v) && idx < v.len() && s@ == seq![
                '/',
            ] + split_arg(query@).unwrap().0 + seq![' '] + v[idx as int],
            None => match arg_matches(query@, *state) {
                Some(v) => idx >= v.len(),
                None => true,
            },
        },
{
    let matches = match slash_arg_values(query, state) {
        Some(v) => v,
        None => return None,
    };
    if idx >= matches.len() {
        return None;
    }
    let q = chars_of(query);
    let (cmd, _partial) = match split_slash_arg(q.as_slice()) {
        Some(x) => x,
        None => return None,
    };
    let mut out = string_lit("/");
    let cmd_s = string_from_chars(cmd.as_slice());
    push_str(&mut out, cmd_s.as_str());
    push_char(&mut out, ' ');
    push_str(&mut out, matches[idx].as_str());
    proof {
        reveal_strlit("/");
    }
    assert(views(matches@)[idx as int] == matches@[idx as int]@);
    assert(split_arg(query@).unwrap().0 == cmd@);
    assert(out@ =~= seq!['/'] + split_arg(query@).unwrap().0 + seq![' '] + views(matches@)[idx as int]);
    Some(out)
}

} // verus!
