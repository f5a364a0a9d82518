//! The environment of a Visual Studio developer prompt, read through its
//! start-menu shortcut: the command that prints the environment such a
//! shortcut sets up, and the `(name, value)` list made from that output.
use vstd::prelude::*;
use crate::envsort::entry_views;
use crate::text::{append, chars_of, compatible, contains, lemma_replace_absent, lemma_replace_removes,
    lemma_replace_same_length, lemma_split_once_parts, lines,
    lines_chars, no_overlap, replace, replace_chars, split_once, split_once_chars, string_of,
    views};

verus! {

/// The shortcuts of the Visual Studio 2022 developer prompts.
pub const SHORTCUT_DIR: &'static str =
    "C:\\ProgramData\\Microsoft\\Windows\\Start Menu\\Programs\\Visual Studio 2022\\Visual Studio Tools\\VC";

/// Name under which the shortcut's own arguments are recorded.
pub const SHORTCUT_ARGS_NAME: &'static str = "VSCMD";

/// The option that keeps `cmd` open after running its command.
pub const KEEP_OPEN: &'static str = "/k ";

/// The option that makes `cmd` exit after running its command.
pub const RUN_AND_EXIT: &'static str = "/c ";

/// Start of the command that runs the shortcut's arguments.
pub const CMD_PREFIX: &'static str = "cmd ";

/// End of the command: print the environment afterwards.
pub const PRINT_ENV: &'static str = " && set";

/// The command that runs a shortcut's `cmd` arguments, exiting instead of
/// staying open, and then prints the environment they set up.
pub open spec fn env_query_command_spec(args: Seq<char>) -> Seq<char> {
    CMD_PREFIX@ + replace(args, KEEP_OPEN@, RUN_AND_EXIT@) + PRINT_ENV@
}

/// A `name=value` line cut at its first `=`.
pub open spec fn assignment() -> spec_fn(Seq<char>) -> Option<(Seq<char>, Seq<char>)> {
    |l: Seq<char>| split_once(l, '=')
}

/// The environment recorded for a shortcut: first its arguments under
/// `VSCMD`, then, in output order, every output line that holds a `=`, cut
/// at its first `=`.
pub open spec fn env_entries(args: Seq<char>, output: Seq<char>) -> Seq<(Seq<char>, Seq<char>)> {
    seq![(SHORTCUT_ARGS_NAME@, args)] + lines(output).filter_map(assignment())
}

/// The command that prints the environment set up by a shortcut whose
/// arguments are `args`.
pub fn env_query_command(args: &str) -> (r: String)
    ensures
        r@ == env_query_command_spec(args@),
{
    let mut out = chars_of(CMD_PREFIX);
    let pat = chars_of(KEEP_OPEN);
    let rep = chars_of(RUN_AND_EXIT);
    proof {
        reveal_strlit("/k ");
    }
    let replaced = replace_chars(&chars_of(args), &pat, &rep);
    append(&mut out, &replaced);
    append(&mut out, &chars_of(PRINT_ENV));
    string_of(&out)
}

/// The environment recorded for a shortcut with arguments `args` whose
/// environment query printed `output`.
pub fn parse_env_output(args: &str, output: &str) -> (r: Vec<(String, String)>)
    ensures
        entry_views(r@) == env_entries(args@, output@),
{
    let mut out: Vec<(String, String)> = Vec::new();
    out.push((string_of(&chars_of(SHORTCUT_ARGS_NAME)), args.to_owned()));
    let ls = lines_chars(&chars_of(output));
    let ghost head = seq![(SHORTCUT_ARGS_NAME@, args@)];
    let ghost lv = views(ls@);
    assert(lv.take(0).filter_map(assignment()) == Seq::<(Seq<char>, Seq<char>)>::empty());
    assert(entry_views(out@) == head + lv.take(0).filter_map(assignment()));
    let mut i: usize = 0;
    while i < ls.len()
        invariant
            i <= ls.len(),
            lv == views(ls@),
            entry_views(out@) == head + lv.take(i as int).filter_map(assignment()),
        decreases ls.len() - i,
    {
        proof {
            lv.lemma_filter_map_take_succ(assignment(), i as int);
        }
        match split_once_chars(&ls[i], '=') {
            Some((k, v)) => {
                let ghost old_out = out@;
                out.push((string_of(&k), string_of(&v)));
                assert(entry_views(out@) == entry_views(old_out).push((k@, v@)));
            },
            None => {},
        }
        i += 1;
    }
    assert(lv.take(ls.len() as int) == lv);
    out
}

/// The query runs the shortcut's command and exits: in the shortcut's
/// arguments as the query passes them to `cmd`, no `/k ` (keep the prompt
/// open) is left.
pub proof fn lemma_query_never_keeps_prompt_open(args: Seq<char>)
    ensures
        !contains(replace(args, KEEP_OPEN@, RUN_AND_EXIT@), KEEP_OPEN@),
{
    reveal_strlit("/k ");
    reveal_strlit("/c ");
    let p = KEEP_OPEN@;
    let rep = RUN_AND_EXIT@;
    assert(p == seq!['/', 'k', ' ']);
    assert(rep == seq!['/', 'c', ' ']);
    assert(no_overlap(p, rep)) by {
        assert forall|k: int| 0 <= k < rep.len() implies !compatible(#[trigger] rep.skip(k), p) by {
            if k == 0 {
                assert(rep.skip(k)[1] != p[1]);
            } else {
                assert(rep.skip(k)[0] != p[0]);
            }
        }
        assert forall|m: int| 1 <= m < p.len() implies !compatible(#[trigger] p.skip(m), rep) by {
            assert(p.skip(m)[0] != rep[0]);
        }
    }
    lemma_replace_removes(args, p, rep);
}

proof fn lemma_assignments_from_lines(ls: Seq<Seq<char>>)
    ensures
        forall|i: int|
            0 <= i < ls.filter_map(assignment()).len() ==> {
                let (k, v) = #[trigger] ls.filter_map(assignment())[i];
                &&& !k.contains('=')
                &&& ls.contains(k + seq!['='] + v)
            },
    decreases ls.len(),
{
    if ls.len() > 0 {
        let init = ls.drop_last();
        lemma_assignments_from_lines(init);
        let l = ls.last();
        lemma_split_once_parts(l, '=');
        let f = ls.filter_map(assignment());
        let fi = init.filter_map(assignment());
        assert forall|i: int| 0 <= i < f.len() implies {
            let (k, v) = #[trigger] f[i];
            &&& !k.contains('=')
            &&& ls.contains(k + seq!['='] + v)
        } by {
            if i < fi.len() {
                assert(f[i] == fi[i]);
                let (k, v) = fi[i];
                let j = choose|j: int| 0 <= j < init.len() && init[j] == k + seq!['='] + v;
                assert(ls[j] == init[j]);
            } else {
                assert(ls[ls.len() - 1] == l);
            }
        }
    }
}

/// Every variable recorded after the shortcut's arguments comes from one
/// output line `name=value`, cut at its first `=`: its name holds no `=`.
pub proof fn lemma_recorded_variables_are_output_lines(args: Seq<char>, output: Seq<char>)
    ensures
        env_entries(args, output)[0] == (SHORTCUT_ARGS_NAME@, args),
        forall|i: int|
            1 <= i < env_entries(args, output).len() ==> {
                let (name, value) = #[trigger] env_entries(args, output)[i];
                &&& !name.contains('=')
                &&& lines(output).contains(name + seq!['='] + value)
            },
{
    let ls = lines(output);
    lemma_assignments_from_lines(ls);
    let e = env_entries(args, output);
    let f = ls.filter_map(assignment());
    assert forall|i: int| 1 <= i < e.len() implies {
        let (name, value) = #[trigger] e[i];
        &&& !name.contains('=')
        &&& ls.contains(name + seq!['='] + value)
    } by {
        assert(e[i] == f[i - 1]);
    }
}

/// The query keeps the whole of the shortcut's arguments: arguments
/// without `/k ` pass unchanged, spaces included, between `cmd ` and
/// ` && set`; and whatever the arguments, the command is exactly 11
/// characters longer than them.
pub proof fn lemma_query_keeps_arguments(args: Seq<char>)
    ensures
        !contains(args, KEEP_OPEN@) ==> env_query_command_spec(args) == seq!['c', 'm', 'd', ' ']
            + args + seq![' ', '&', '&', ' ', 's', 'e', 't'],
        env_query_command_spec(args).len() == args.len() + 11,
        env_query_command_spec(args).take(4) == seq!['c', 'm', 'd', ' '],
{
    reveal_strlit("/k ");
    reveal_strlit("/c ");
    reveal_strlit("cmd ");
    reveal_strlit(" && set");
    assert(CMD_PREFIX@ == seq!['c', 'm', 'd', ' ']);
    assert(PRINT_ENV@ == seq![' ', '&', '&', ' ', 's', 'e', 't']);
    lemma_replace_same_length(args, KEEP_OPEN@, RUN_AND_EXIT@);
    if !contains(args, KEEP_OPEN@) {
        lemma_replace_absent(args, KEEP_OPEN@, RUN_AND_EXIT@);
    }
    let c = env_query_command_spec(args);
    assert(c.take(4) == CMD_PREFIX@);
}

proof fn lemma_lines_to_assignments(ls: Seq<Seq<char>>)
    ensures
        forall|i: int|
            0 <= i < ls.len() && (#[trigger] ls[i]).contains('=') ==> exists|k: Seq<char>, v: Seq<char>|
                ls.filter_map(assignment()).contains((k, v)) && ls[i] == k + seq!['='] + v,
    decreases ls.len(),
{
    if ls.len() > 0 {
        let init = ls.drop_last();
        lemma_assignments_from_lines(init);
        lemma_lines_to_assignments(init);
        let f = ls.filter_map(assignment());
        let fi = init.filter_map(assignment());
        assert forall|i: int|
            0 <= i < ls.len() && (#[trigger] ls[i]).contains('=') implies exists|
                k: Seq<char>,
                v: Seq<char>,
            | f.contains((k, v)) && ls[i] == k + seq!['='] + v by {
            lemma_split_once_parts(ls[i], '=');
            if i < init.len() {
                assert(init[i] == ls[i]);
                let (k, v) = choose|k: Seq<char>, v: Seq<char>|
                    fi.contains((k, v)) && init[i] == k + seq!['='] + v;
                let m = choose|m: int| 0 <= m < fi.len() && fi[m] == (k, v);
                match split_once(ls.last(), '=') {
                    Some(e) => {
                        assert(f == fi + seq![e]);
                        assert(f[m] == fi[m]);
                    },
                    None => {
                        assert(f == fi);
                    },
                }
                assert(f.contains((k, v)));
                assert(ls[i] == k + seq!['='] + v);
            } else {
                assert(ls[i] == ls.last());
                let (k, v) = split_once(ls[i], '=')->0;
                assert(f == fi + seq![(k, v)]);
                assert(f[fi.len() as int] == (k, v));
                assert(f.contains((k, v)));
                assert(ls[i] == k + seq!['='] + v);
            }
        }
    }
}

/// No variable is lost: every output line that holds a `=` is recorded, as
/// the entry whose name and value joined by `=` give the line back.
pub proof fn lemma_every_assignment_recorded(args: Seq<char>, output: Seq<char>)
    ensures
        forall|i: int|
            0 <= i < lines(output).len() && (#[trigger] lines(output)[i]).contains('=') ==> exists|
                k: Seq<char>,
                v: Seq<char>,
            | env_entries(args, output).contains((k, v)) && lines(output)[i] == k + seq!['='] + v,
{
    let ls = lines(output);
    lemma_lines_to_assignments(ls);
    let f = ls.filter_map(assignment());
    let e = env_entries(args, output);
    assert forall|i: int|
        0 <= i < ls.len() && (#[trigger] ls[i]).contains('=') implies exists|k: Seq<char>, v: Seq<char>|
            e.contains((k, v)) && ls[i] == k + seq!['='] + v by {
        let (k, v) = choose|k: Seq<char>, v: Seq<char>| f.contains((k, v)) && ls[i] == k + seq!['='] + v;
        let m = choose|m: int| 0 <= m < f.len() && f[m] == (k, v);
        assert(e[m + 1] == f[m]);
        assert(e.contains((k, v)));
    }
}

} // verus!
