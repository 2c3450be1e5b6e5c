//! Dispatch planning for one read-loop turn: deciding between end of
//! input, an empty line, the built-ins (`exit`, `cd`), and a pipeline of
//! external stages, and planning how each stage's streams are wired.
//!
//! These functions compute decisions only; performing them (changing the
//! directory, spawning processes, exiting) is the caller's task.

use vstd::prelude::*;

use crate::lexer::{spec_split, spec_tokenize, spec_trim, split_subcommands, tokenize_comm,
    trim_line};

verus! {

/// `p` is a prefix of `s`.
pub open spec fn spec_starts_with(s: Seq<char>, p: Seq<char>) -> bool {
    p.len() <= s.len() && s.take(p.len() as int) == p
}

/// True exactly when `p` is a prefix of `s`.
pub fn has_prefix(s: &str, p: &str) -> (b: bool)
    ensures
        b == spec_starts_with(s@, p@),
{
    let sn = s.unicode_len();
    let pn = p.unicode_len();
    if pn > sn {
        return false;
    }
    let mut i: usize = 0;
    while i < pn
        invariant
            pn == p@.len(),
            sn == s@.len(),
            pn <= sn,
            i <= pn,
            forall|j: int| 0 <= j < i ==> s@[j] == p@[j],
        decreases pn - i,
    {
        if s.get_char(i) != p.get_char(i) {
            proof {
                assert(s@.take(pn as int)[i as int] == s@[i as int]);
            }
            return false;
        }
        i += 1;
    }
    proof {
        assert(s@.take(pn as int) =~= p@);
    }
    true
}

/// True exactly when the two strings hold the same characters.
pub fn str_eq(a: &str, b: &str) -> (r: bool)
    ensures
        r == (a@ == b@),
{
    let an = a.unicode_len();
    let bn = b.unicode_len();
    if an != bn {
        return false;
    }
    let mut i: usize = 0;
    while i < an
        invariant
            an == a@.len(),
            bn == b@.len(),
            an == bn,
            i <= an,
            forall|j: int| 0 <= j < i ==> a@[j] == b@[j],
        decreases an - i,
    {
        if a.get_char(i) != b.get_char(i) {
            return false;
        }
        i += 1;
    }
    proof {
        assert(a@ =~= b@);
    }
    true
}

/// What one read-loop turn does with what the blocking read returned.
#[derive(Debug, PartialEq, Eq)]
pub enum Turn {
    /// The read returned zero bytes: end of input, the loop terminates.
    EndOfInput,
    /// The line is blank: re-prompt without dispatching anything.
    Empty,
    /// The sole subcommand begins with `exit`: the loop terminates cleanly.
    Exit,
    /// The sole subcommand begins with `cd`: holds that subcommand, to be
    /// planned further with `plan_cd`.
    ChangeDir(String),
    /// An ordinary pipeline: holds the subcommands in left-to-right order.
    Pipeline(Vec<String>),
}

/// The dispatch decision demanded for a read of `read_len` bytes into
/// `buf`: end of input on a zero-length read, re-prompt on a blank line,
/// the built-ins when a single subcommand starts with their keyword, and
/// otherwise the pipeline of subcommands of the trimmed line.
pub open spec fn turn_ok(read_len: nat, buf: Seq<char>, t: Turn) -> bool {
    let line = spec_trim(buf);
    let subs = spec_split(line);
    if read_len == 0 {
        t is EndOfInput
    } else if line.len() == 0 {
        t is Empty
    } else if subs.len() == 1 && spec_starts_with(subs[0], "exit"@) {
        t is Exit
    } else if subs.len() == 1 && spec_starts_with(subs[0], "cd"@) {
        t matches Turn::ChangeDir(c) && c@ == subs[0]
    } else {
        t matches Turn::Pipeline(v) && v.deep_view() == subs
    }
}

/// Decides what one turn of the read loop does. `read_len` is the number
/// of bytes the blocking read returned (zero means end of input), `buf`
/// the text it read.
pub fn plan_turn(read_len: usize, buf: &str) -> (t: Turn)
    ensures
        turn_ok(read_len as nat, buf@, t),
{
    if read_len == 0 {
        return Turn::EndOfInput;
    }
    let line = trim_line(buf);
    if line.as_str().is_empty() {
        return Turn::Empty;
    }
    let subs = split_subcommands(line.as_str());
    proof {
        assert(subs@.len() == subs.deep_view().len());
    }
    if subs.len() == 1 {
        proof {
            assert(subs.deep_view()[0] == subs@[0]@);
        }
        if has_prefix(subs[0].as_str(), "exit") {
            return Turn::Exit;
        }
        if has_prefix(subs[0].as_str(), "cd") {
            return Turn::ChangeDir(subs[0].clone());
        }
    }
    Turn::Pipeline(subs)
}

/// How a `cd` subcommand is carried out.
#[derive(Debug, PartialEq, Eq)]
pub enum CdPlan {
    /// More than one argument was given: report an error, change nothing.
    TooManyArgs,
    /// Change the working directory to the held path.
    ChangeTo(String),
}

/// The plan demanded for the `cd` subcommand `comm` when the home
/// directory lookup gave `home`: with more than one argument, an error
/// and no change; with exactly one, that argument as the target; with
/// none, the home directory, or the root directory when no home is known.
pub open spec fn cd_ok(comm: Seq<char>, home: Option<&str>, p: CdPlan) -> bool {
    let toks = spec_tokenize(comm);
    if toks.len() > 2 {
        p is TooManyArgs
    } else if toks.len() == 2 {
        p matches CdPlan::ChangeTo(d) && d@ == toks[1]
    } else {
        p matches CdPlan::ChangeTo(d) && d@ == (match home {
            Some(h) => h@,
            None => "/"@,
        })
    }
}

/// Plans the effect of a `cd` subcommand. `home` is the value of the
/// home-directory environment variable, if it is set; it is the default
/// target when `cd` is given no argument.
pub fn plan_cd(comm: &str, home: Option<&str>) -> (p: CdPlan)
    ensures
        cd_ok(comm@, home, p),
{
    let toks = tokenize_comm(comm);
    proof {
        assert(toks@.len() == toks.deep_view().len());
    }
    if toks.len() > 2 {
        CdPlan::TooManyArgs
    } else if toks.len() == 2 {
        proof {
            assert(toks.deep_view()[1] == toks@[1]@);
        }
        CdPlan::ChangeTo(toks[1].clone())
    } else {
        match home {
            Some(h) => CdPlan::ChangeTo(String::from_str(h)),
            None => CdPlan::ChangeTo(String::from_str("/")),
        }
    }
}

/// An external command about to be spawned as one pipeline stage.
#[derive(Debug, PartialEq, Eq)]
pub struct StageCmd {
    /// The program to run: the stage's first token.
    pub program: String,
    /// The arguments, in order: the remaining tokens.
    pub args: Vec<String>,
    /// Whether the stage's output is piped onward (true for every stage
    /// but the last, whose output goes to the controlling terminal).
    pub pipe_output: bool,
}

/// What the executor does with one pipeline stage.
#[derive(Debug, PartialEq, Eq)]
pub enum StagePlan {
    /// No process is spawned: the stage has no tokens, or names a
    /// built-in in a position where built-ins are silently skipped.
    Skip,
    /// Spawn the held command.
    Run(StageCmd),
}

/// The plan demanded for a stage whose tokens are `toks`: skip it when
/// there are no tokens or the first token names a built-in; otherwise run
/// the first token as the program with the rest as arguments, piping the
/// output exactly when the stage is not the last.
pub open spec fn stage_ok(toks: Seq<Seq<char>>, is_last: bool, p: StagePlan) -> bool {
    if toks.len() == 0 || toks[0] == "cd"@ || toks[0] == "exit"@ {
        p is Skip
    } else {
        p matches StagePlan::Run(c) && c.program@ == toks[0] && c.args.deep_view()
            == toks.drop_first() && c.pipe_output == !is_last
    }
}

/// Plans one pipeline stage from its tokens and its position.
pub fn plan_stage(tokens: &Vec<String>, is_last: bool) -> (p: StagePlan)
    ensures
        stage_ok(tokens.deep_view(), is_last, p),
{
    proof {
        assert(tokens@.len() == tokens.deep_view().len());
    }
    if tokens.len() == 0 {
        return StagePlan::Skip;
    }
    proof {
        assert(tokens.deep_view()[0] == tokens@[0]@);
    }
    if str_eq(tokens[0].as_str(), "cd") || str_eq(tokens[0].as_str(), "exit") {
        return StagePlan::Skip;
    }
    let program = tokens[0].clone();
    let mut args: Vec<String> = Vec::new();
    let mut j: usize = 1;
    while j < tokens.len()
        invariant
            1 <= j <= tokens@.len(),
            tokens@.len() == tokens.deep_view().len(),
            args.deep_view() == tokens.deep_view().subrange(1, j as int),
        decreases tokens@.len() - j,
    {
        let ghost prev = args.deep_view();
        args.push(tokens[j].clone());
        proof {
            assert(tokens.deep_view()[j as int] == tokens@[j as int]@);
            assert(args.deep_view() =~= prev.push(tokens@[j as int]@));
            assert(tokens.deep_view().subrange(1, j + 1) =~= prev.push(
                tokens.deep_view()[j as int],
            ));
        }
        j += 1;
    }
    proof {
        assert(tokens.deep_view().subrange(1, tokens@.len() as int) =~= tokens.deep_view()
            .drop_first());
    }
    StagePlan::Run(StageCmd { program, args, pipe_output: !is_last })
}

/// Plans every stage of a pipeline from its subcommands: stage `i` is
/// planned from the tokens of subcommand `i`, and only the last stage
/// writes to the controlling terminal.
pub fn plan_pipeline(subs: &Vec<String>) -> (plans: Vec<StagePlan>)
    ensures
        plans@.len() == subs@.len(),
        forall|i: int| 0 <= i < plans@.len() ==> stage_ok(
            spec_tokenize(subs.deep_view()[i]),
            i == subs@.len() - 1,
            plans@[i],
        ),
{
    let n = subs.len();
    let mut plans: Vec<StagePlan> = Vec::new();
    let mut i: usize = 0;
    while i < n
        invariant
            n == subs@.len(),
            subs@.len() == subs.deep_view().len(),
            i <= n,
            plans@.len() == i,
            forall|j: int| 0 <= j < i ==> stage_ok(
                spec_tokenize(subs.deep_view()[j]),
                j == subs@.len() - 1,
                plans@[j],
            ),
        decreases n - i,
    {
        proof {
            assert(subs.deep_view()[i as int] == subs@[i as int]@);
        }
        let toks = tokenize_comm(subs[i].as_str());
        let p = plan_stage(&toks, i == n - 1);
        plans.push(p);
        i += 1;
    }
    plans
}

} // verus!
