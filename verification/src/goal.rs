//! `omni goal [set|show|clear] ...`: North Star context pinning. This module
//! decides what an invocation asks for and whether a goal is acceptable; the
//! store and the terminal are the caller's.
use vstd::prelude::*;

use crate::flags::{aliases, aliases_spec, flag_entries, name_part, HELP_FLAG};
use crate::text::{
    chars_eq, chars_of, has_prefix, starts_with, str_eq, string_of, trim, trim_bounds, utf8_len,
    utf8_len_in,
};

verus! {

/// Read by both the help printer and the guard in `run`.
pub const GOAL_FLAGS: [(&'static str, &'static str); 1] = [("--show, --status", "Print the current goal")];

/// What an invocation of `omni goal` asks for.
pub enum GoalCommand {
    /// Set the goal to this text (already trimmed).
    SetGoal(String),
    /// Forget the current goal.
    Clear,
    /// Print the current goal.
    Show,
    /// Print the help page.
    Help,
    /// A leading `--flag` this subcommand does not accept.
    UnknownFlag(String),
}

/// Why a goal was refused.
pub enum GoalError {
    /// Under five bytes once trimmed.
    TooShort,
    /// Over 500 bytes.
    TooLong,
}

/// The fewest bytes a goal may hold once trimmed.
pub const GOAL_MIN_BYTES: usize = 5;

/// The most bytes a goal may hold.
pub const GOAL_MAX_BYTES: usize = 500;

impl GoalError {
    /// What to tell the user.
    pub fn message(&self) -> (m: &'static str)
        ensures
            self is TooShort ==> m@ == "Goal is too short. Describe your project objective clearly."@,
            self is TooLong ==> m@ == "Goal too long (max 500 chars). Keep it concise."@,
    {
        match self {
            GoalError::TooShort => "Goal is too short. Describe your project objective clearly.",
            GoalError::TooLong => "Goal too long (max 500 chars). Keep it concise.",
        }
    }
}

/// Whether `goal` may be stored, and if not, why.
pub open spec fn goal_verdict(goal: Seq<char>) -> Result<(), GoalError> {
    if utf8_len(trim(goal)) < GOAL_MIN_BYTES {
        Err(GoalError::TooShort)
    } else if utf8_len(goal) > GOAL_MAX_BYTES {
        Err(GoalError::TooLong)
    } else {
        Ok(())
    }
}

/// Whether a goal may be stored: the check every goal passes first.
pub fn check_goal(goal: &str) -> (r: Result<(), GoalError>)
    ensures
        r == goal_verdict(goal@),
{
    let cs = chars_of(goal);
    let (a, b) = trim_bounds(cs.as_slice());
    if utf8_len_in(cs.as_slice(), a, b) < GOAL_MIN_BYTES {
        return Err(GoalError::TooShort);
    }
    assert(cs@.subrange(0, cs@.len() as int) =~= cs@);
    if utf8_len_in(cs.as_slice(), 0, cs.len()) > GOAL_MAX_BYTES {
        return Err(GoalError::TooLong);
    }
    Ok(())
}

/// `args` joined with single spaces.
pub open spec fn join_words(args: Seq<Seq<char>>) -> Seq<char>
    decreases args.len(),
{
    if args.len() == 0 {
        seq![]
    } else if args.len() == 1 {
        args[0]
    } else {
        join_words(args.drop_last()) + seq![' '] + args.last()
    }
}

/// The views of a sequence of strings.
pub open spec fn texts(args: Seq<String>) -> Seq<Seq<char>> {
    args.map_values(|a: String| a@)
}

/// `args[from..].join(" ")`.
fn join_from(args: &[String], from: usize) -> (out: Vec<char>)
    requires
        from <= args.len(),
    ensures
        out@ == join_words(texts(args@).subrange(from as int, args@.len() as int)),
{
    let ghost all = texts(args@);
    let mut out: Vec<char> = Vec::new();
    let mut k = from;
    assert(all.subrange(from as int, from as int) =~= seq![]);
    while k < args.len()
        invariant
            from <= k <= args.len(),
            all == texts(args@),
            out@ == join_words(all.subrange(from as int, k as int)),
        decreases args.len() - k,
    {
        let ghost next = all.subrange(from as int, k + 1);
        assert(next.drop_last() =~= all.subrange(from as int, k as int));
        if k > from {
            out.push(' ');
        }
        let cs = chars_of(args[k].as_str());
        let mut i: usize = 0;
        let ghost before = out@;
        while i < cs.len()
            invariant
                i <= cs.len(),
                out@ == before + cs@.take(i as int),
            decreases cs.len() - i,
        {
            out.push(cs[i]);
            i = i + 1;
            assert(out@ =~= before + cs@.take(i as int));
        }
        assert(cs@.take(cs.len() as int) =~= cs@);
        k = k + 1;
        assert(out@ =~= join_words(all.subrange(from as int, k as int)));
    }
    out
}

/// The goal text of `omni goal ...`: the words from `from` on, joined with
/// spaces and trimmed.
fn goal_text(args: &[String], from: usize) -> (s: String)
    requires
        from <= args.len(),
    ensures
        s@ == trim(join_words(texts(args@).subrange(from as int, args@.len() as int))),
{
    let cs = join_from(args, from);
    let (a, b) = trim_bounds(cs.as_slice());
    let mut t: Vec<char> = Vec::new();
    let mut i = a;
    while i < b
        invariant
            a <= i <= b <= cs.len(),
            t@ == cs@.subrange(a as int, i as int),
        decreases b - i,
    {
        t.push(cs[i]);
        i = i + 1;
        assert(t@ =~= cs@.subrange(a as int, i as int));
    }
    string_of(t.as_slice())
}

/// Whether `arg` names a flag `omni goal` accepts: one of its own or `--help`.
pub open spec fn goal_accepts(arg: Seq<char>) -> bool {
    exists|e: int, k: int|
        0 <= e < GOAL_FLAGS@.push(HELP_FLAG).len() && 0 <= k < aliases_spec(
            GOAL_FLAGS@.push(HELP_FLAG)[e].0@,
        ).len() && #[trigger] aliases_spec(GOAL_FLAGS@.push(HELP_FLAG)[e].0@)[k] == name_part(arg)
}

/// What an invocation asks for, as values.
pub enum GoalRequest {
    SetGoal(Seq<char>),
    Clear,
    Show,
    Help,
    UnknownFlag(Seq<char>),
}

impl View for GoalCommand {
    type V = GoalRequest;

    open spec fn view(&self) -> GoalRequest {
        match self {
            GoalCommand::SetGoal(s) => GoalRequest::SetGoal(s@),
            GoalCommand::Clear => GoalRequest::Clear,
            GoalCommand::Show => GoalRequest::Show,
            GoalCommand::Help => GoalRequest::Help,
            GoalCommand::UnknownFlag(s) => GoalRequest::UnknownFlag(s@),
        }
    }
}

/// What `omni goal` with these arguments asks for: a leading `--flag` it
/// does not accept is refused; otherwise the first word picks the
/// subcommand, `show` when there is none, and anything unrecognised is taken
/// as the goal text itself.
pub open spec fn goal_command(args: Seq<String>) -> GoalRequest {
    let all = texts(args);
    if args.len() > 0 && has_prefix(args[0]@, "--"@) && !goal_accepts(args[0]@) {
        GoalRequest::UnknownFlag(args[0]@)
    } else {
        let sub = if args.len() > 0 {
            args[0]@
        } else {
            "show"@
        };
        if sub == "set"@ {
            GoalRequest::SetGoal(trim(join_words(all.subrange(1, all.len() as int))))
        } else if sub == "clear"@ || sub == "unset"@ {
            GoalRequest::Clear
        } else if sub == "show"@ || sub == "--show"@ || sub == "--status"@ {
            GoalRequest::Show
        } else if sub == "--help"@ || sub == "-h"@ || sub == "help"@ {
            GoalRequest::Help
        } else {
            GoalRequest::SetGoal(trim(join_words(all)))
        }
    }
}

/// Whether `arg` names a flag `omni goal` accepts.
fn accepts(arg: &str) -> (r: bool)
    ensures
        r == goal_accepts(arg@),
{
    let entries = flag_entries(GOAL_FLAGS.as_slice());
    let name = chars_of(crate::flags::flag_name(arg));
    let mut e: usize = 0;
    while e < entries.len()
        invariant
            e <= entries.len(),
            entries@ == GOAL_FLAGS@.push(HELP_FLAG),
            name@ == name_part(arg@),
            forall|q: int, k: int|
                0 <= q < e && 0 <= k < aliases_spec(entries@[q].0@).len() ==> #[trigger] aliases_spec(
                    entries@[q].0@,
                )[k] != name_part(arg@),
        decreases entries.len() - e,
    {
        let al = aliases(entries[e].0);
        let mut k: usize = 0;
        while k < al.len()
            invariant
                e < entries.len(),
                k <= al.len(),
                entries@ == GOAL_FLAGS@.push(HELP_FLAG),
                name@ == name_part(arg@),
                al@.map_values(|a: &str| a@) == aliases_spec(entries@[e as int].0@),
                forall|j: int|
                    0 <= j < k ==> #[trigger] aliases_spec(entries@[e as int].0@)[j] != name_part(
                        arg@,
                    ),
            decreases al.len() - k,
        {
            let a = chars_of(al[k]);
            assert(al@.map_values(|a: &str| a@)[k as int] == al@[k as int]@);
            if chars_eq(a.as_slice(), name.as_slice()) {
                return true;
            }
            k = k + 1;
        }
        e = e + 1;
    }
    false
}

/// Entry point for `omni goal [set|show|clear] ...`: what the invocation asks
/// for.
///
/// Only the leading token is checked against the accepted flags. Free text is
/// the feature here (`omni goal build the auth module`) and a goal may
/// legitimately contain a flag (`omni goal set "ship with --release"`), but a
/// *leading* unknown flag would otherwise be stored as the goal text.
pub fn run(args: &[String]) -> (c: GoalCommand)
    ensures
        c@ == goal_command(args@),
{
    if args.len() > 0 && starts_with(chars_of(args[0].as_str()).as_slice(), "--") && !accepts(
        args[0].as_str(),
    ) {
        return GoalCommand::UnknownFlag(args[0].clone());
    }
    if args.len() == 0 {
        proof {
            reveal_strlit("show");
            reveal_strlit("set");
            reveal_strlit("clear");
            reveal_strlit("unset");
            assert("show"@.len() == 4);
            assert("set"@.len() == 3);
            assert("clear"@.len() == 5);
            assert("unset"@.len() == 5);
            assert("show"@ != "set"@);
            assert("show"@ != "clear"@);
            assert("show"@ != "unset"@);
        }
        return GoalCommand::Show;
    }
    let sub: &str = args[0].as_str();
    if str_eq(sub, "set") {
        let t = goal_text(args, 1);
        GoalCommand::SetGoal(t)
    } else if str_eq(sub, "clear") || str_eq(sub, "unset") {
        GoalCommand::Clear
    } else if str_eq(sub, "show") || str_eq(sub, "--show") || str_eq(sub, "--status") {
        GoalCommand::Show
    } else if str_eq(sub, "--help") || str_eq(sub, "-h") || str_eq(sub, "help") {
        GoalCommand::Help
    } else {
        let t = goal_text(args, 0);
        assert(texts(args@).subrange(0, args@.len() as int) =~= texts(args@));
        GoalCommand::SetGoal(t)
    }
}

} // verus!
