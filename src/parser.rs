//! Splits a command line into program, subcommand and arguments.
use crate::text::{
    eq_fold, eq_ignore_ascii_case, first_is, is_space, same_text, starts_with_char, to_owned_string, trim,
    trim_bounds,
};
use vstd::prelude::*;

verus! {

/// Scanner state after a prefix of the input: inside single quotes, inside double quotes,
/// where the open token started, and the tokens closed so far.
pub type ScanState = (bool, bool, Option<int>, Seq<Seq<char>>);

/// The position where the open token starts, once the character at `i` has been read.
pub open spec fn open_at(st: ScanState, i: int) -> Option<int> {
    match st.2 {
        Some(a) => Some(a),
        None => Some(i),
    }
}

/// One step of the quote-aware scanner over the character at `i`.
pub open spec fn scan_step(s: Seq<char>, i: int, st: ScanState) -> ScanState {
    let c = s[i];
    if c == '\'' && !st.1 {
        (!st.0, st.1, open_at(st, i), st.3)
    } else if c == '"' && !st.0 {
        (st.0, !st.1, open_at(st, i), st.3)
    } else if (c == ' ' || c == '\t') && !st.0 && !st.1 {
        match st.2 {
            Some(a) => (st.0, st.1, None, st.3.push(s.subrange(a, i))),
            None => st,
        }
    } else {
        (st.0, st.1, open_at(st, i), st.3)
    }
}

/// Scanner state after the first `n` characters of `s`.
pub open spec fn scan(s: Seq<char>, n: nat) -> ScanState
    decreases n,
{
    if n == 0 {
        (false, false, None, Seq::empty())
    } else {
        scan_step(s, n - 1, scan(s, (n - 1) as nat))
    }
}

/// The tokens of `s`: runs separated by unquoted spaces or tabs, where a quoted region,
/// quotes included, belongs to the token around it.
pub open spec fn tokens(s: Seq<char>) -> Seq<Seq<char>> {
    let st = scan(s, s.len());
    match st.2 {
        Some(a) => st.3.push(s.subrange(a, s.len() as int)),
        None => st.3,
    }
}

pub open spec fn opt_int(o: Option<usize>) -> Option<int> {
    match o {
        Some(a) => Some(a as int),
        None => None,
    }
}

pub open spec fn views(v: Seq<String>) -> Seq<Seq<char>> {
    v.map_values(|t: String| t@)
}

pub open spec fn opt_view(o: Option<String>) -> Option<Seq<char>> {
    match o {
        Some(t) => Some(t@),
        None => None,
    }
}

/// Splits `cmd` into tokens; single and double quotes group white space into one token.
pub fn tokenize(cmd: &str) -> (r: Vec<String>)
    ensures
        views(r@) == tokens(cmd@),
{
    let n = cmd.unicode_len();
    let mut single = false;
    let mut double = false;
    let mut start: Option<usize> = None;
    let mut out: Vec<String> = Vec::new();
    let mut i: usize = 0;
    while i < n
        invariant
            i <= n,
            n == cmd@.len(),
            (single, double, opt_int(start), views(out@)) == scan(cmd@, i as nat),
            match start {
                Some(a) => a < i,
                None => true,
            },
        decreases n - i,
    {
        let c = cmd.get_char(i);
        proof {
            assert(scan(cmd@, (i + 1) as nat) == scan_step(cmd@, i as int, scan(cmd@, i as nat)));
        }
        if c == '\'' && !double {
            single = !single;
            if start.is_none() {
                start = Some(i);
            }
        } else if c == '"' && !single {
            double = !double;
            if start.is_none() {
                start = Some(i);
            }
        } else if (c == ' ' || c == '\t') && !single && !double {
            if let Some(a) = start {
                let t = to_owned_string(cmd.substring_char(a, i));
                out.push(t);
                proof {
                    assert(views(out@) =~= scan(cmd@, i as nat).3.push(cmd@.subrange(a as int, i as int)));
                }
                start = None;
            }
        } else {
            if start.is_none() {
                start = Some(i);
            }
        }
        i = i + 1;
    }
    if let Some(a) = start {
        let t = to_owned_string(cmd.substring_char(a, n));
        out.push(t);
        proof {
            assert(views(out@) =~= scan(cmd@, n as nat).3.push(cmd@.subrange(a as int, n as int)));
        }
    }
    out
}

/// Programs whose second word, when it is not a flag, names a subcommand.
pub open spec fn is_multi_level(p: Seq<char>) -> bool {
    eq_fold(p, "git"@) || eq_fold(p, "docker"@) || eq_fold(p, "docker-compose"@) || eq_fold(
        p,
        "kubectl"@,
    ) || eq_fold(p, "npm"@) || eq_fold(p, "yarn"@) || eq_fold(p, "pnpm"@) || eq_fold(p, "cargo"@)
        || eq_fold(p, "rustup"@) || eq_fold(p, "go"@) || eq_fold(p, "pip"@) || eq_fold(p, "poetry"@)
        || eq_fold(p, "conda"@) || eq_fold(p, "brew"@) || eq_fold(p, "apt"@) || eq_fold(
        p,
        "systemctl"@,
    ) || eq_fold(p, "journalctl"@) || eq_fold(p, "aws"@) || eq_fold(p, "gcloud"@) || eq_fold(
        p,
        "az"@,
    ) || eq_fold(p, "terraform"@) || eq_fold(p, "make"@) || eq_fold(p, "cmake"@) || eq_fold(
        p,
        "gradle"@,
    ) || eq_fold(p, "mvn"@) || eq_fold(p, "dotnet"@) || eq_fold(p, "mix"@) || eq_fold(p, "bundle"@)
}

pub fn is_multi_level_program(p: &str) -> (r: bool)
    ensures
        r == is_multi_level(p@),
{
    eq_ignore_ascii_case(p, "git") || eq_ignore_ascii_case(p, "docker") || eq_ignore_ascii_case(
        p,
        "docker-compose",
    ) || eq_ignore_ascii_case(p, "kubectl") || eq_ignore_ascii_case(p, "npm")
        || eq_ignore_ascii_case(p, "yarn") || eq_ignore_ascii_case(p, "pnpm")
        || eq_ignore_ascii_case(p, "cargo") || eq_ignore_ascii_case(p, "rustup")
        || eq_ignore_ascii_case(p, "go") || eq_ignore_ascii_case(p, "pip") || eq_ignore_ascii_case(
        p,
        "poetry",
    ) || eq_ignore_ascii_case(p, "conda") || eq_ignore_ascii_case(p, "brew")
        || eq_ignore_ascii_case(p, "apt") || eq_ignore_ascii_case(p, "systemctl")
        || eq_ignore_ascii_case(p, "journalctl") || eq_ignore_ascii_case(p, "aws")
        || eq_ignore_ascii_case(p, "gcloud") || eq_ignore_ascii_case(p, "az")
        || eq_ignore_ascii_case(p, "terraform") || eq_ignore_ascii_case(p, "make")
        || eq_ignore_ascii_case(p, "cmake") || eq_ignore_ascii_case(p, "gradle")
        || eq_ignore_ascii_case(p, "mvn") || eq_ignore_ascii_case(p, "dotnet")
        || eq_ignore_ascii_case(p, "mix") || eq_ignore_ascii_case(p, "bundle")
}

/// The tokens of `cmd` once it is trimmed.
pub open spec fn words(cmd: Seq<char>) -> Seq<Seq<char>> {
    tokens(trim(cmd))
}

/// The second word of `cmd` is a subcommand.
pub open spec fn has_subcommand(cmd: Seq<char>) -> bool {
    let w = words(cmd);
    w.len() > 1 && is_multi_level(w[0]) && !first_is(w[1], '-')
}

pub open spec fn program_of(cmd: Seq<char>) -> Seq<char> {
    if words(cmd).len() == 0 {
        Seq::empty()
    } else {
        words(cmd)[0]
    }
}

pub open spec fn subcommand_of(cmd: Seq<char>) -> Option<Seq<char>> {
    if has_subcommand(cmd) {
        Some(words(cmd)[1])
    } else {
        None
    }
}

pub open spec fn args_of(cmd: Seq<char>) -> Seq<Seq<char>> {
    let w = words(cmd);
    if w.len() == 0 {
        Seq::empty()
    } else if has_subcommand(cmd) {
        w.subrange(2, w.len() as int)
    } else {
        w.subrange(1, w.len() as int)
    }
}

/// A command line split into its parts.
#[derive(Debug, Clone, PartialEq)]
pub struct ParsedCommand {
    /// The first word: git, docker, npm, cargo, ...
    pub program: String,
    /// The second word, for programs with subcommands: commit, push, run, build, ...
    pub subcommand: Option<String>,
    /// The words after program and subcommand.
    pub args: Vec<String>,
    /// The command line as given.
    pub full: String,
}

/// `ParsedCommand` `p` is the parse of `cmd`.
pub open spec fn parses_as(p: ParsedCommand, cmd: Seq<char>) -> bool {
    &&& p.program@ == program_of(cmd)
    &&& opt_view(p.subcommand) == subcommand_of(cmd)
    &&& views(p.args@) == args_of(cmd)
    &&& p.full@ == cmd
}

/// The line ends in white space: the user is about to type an argument.
pub open spec fn ends_in_space(s: Seq<char>) -> bool {
    s.len() > 0 && is_space(s.last())
}

/// The key under which arguments of this command are learned: program and subcommand.
pub open spec fn lookup_key(program: Seq<char>, sub: Option<Seq<char>>) -> Seq<char> {
    match sub {
        Some(t) => program + " "@ + t,
        None => program,
    }
}

impl ParsedCommand {
    /// The command ends with white space, so an argument is expected next.
    pub fn is_partial(&self) -> (r: bool)
        ensures
            r == ends_in_space(self.full@),
    {
        let n = self.full.as_str().unicode_len();
        n > 0 && crate::text::is_space_char(self.full.as_str().get_char(n - 1))
    }

    /// Program and subcommand joined by a space, or the program alone.
    pub fn arg_lookup_key(&self) -> (r: String)
        ensures
            r@ == lookup_key(self.program@, opt_view(self.subcommand)),
    {
        match &self.subcommand {
            Some(sub) => {
                let key = self.program.clone().concat(" ");
                key.concat(sub.as_str())
            },
            None => self.program.clone(),
        }
    }
}

proof fn lemma_views_push(s: Seq<String>, x: String)
    ensures
        views(s.push(x)) == views(s).push(x@),
{
    assert(views(s.push(x)) =~= views(s).push(x@));
}

fn owned_range(v: &Vec<String>, from: usize) -> (r: Vec<String>)
    requires
        from <= v@.len(),
    ensures
        views(r@) == views(v@).subrange(from as int, v@.len() as int),
{
    let mut out: Vec<String> = Vec::new();
    let mut i = from;
    while i < v.len()
        invariant
            from <= i <= v@.len(),
            views(out@) == views(v@).subrange(from as int, i as int),
        decreases v@.len() - i,
    {
        let t = v[i].clone();
        assert(t@ == views(v@)[i as int]);
        proof {
            lemma_views_push(out@, t);
        }
        out.push(t);
        proof {
            assert(views(out@) =~= views(v@).subrange(from as int, i + 1));
        }
        i = i + 1;
    }
    out
}

/// Parses a command line into program, subcommand and arguments.
pub fn parse_command(cmd: &str) -> (r: ParsedCommand)
    ensures
        parses_as(r, cmd@),
{
    let (a, b) = trim_bounds(cmd);
    let trimmed = cmd.substring_char(a, b);
    let toks = tokenize(trimmed);
    let full = to_owned_string(cmd);
    if toks.len() == 0 {
        let args: Vec<String> = Vec::new();
        assert(views(args@) =~= Seq::<Seq<char>>::empty());
        return ParsedCommand { program: String::new(), subcommand: None, args, full };
    }
    let program = toks[0].clone();
    assert(views(toks@)[0] == toks@[0]@);
    let sub = toks.len() > 1 && is_multi_level_program(program.as_str()) && !starts_with_char(
        toks[1].as_str(),
        '-',
    );
    if sub {
        assert(views(toks@)[1] == toks@[1]@);
        let args = owned_range(&toks, 2);
        ParsedCommand { program, subcommand: Some(toks[1].clone()), args, full }
    } else {
        let args = owned_range(&toks, 1);
        ParsedCommand { program, subcommand: None, args, full }
    }
}

/// Flags whose next word is their value.
pub open spec fn takes_value(f: Seq<char>) -> bool {
    f == "-m"@ || f == "-b"@ || f == "--message"@ || f == "--branch"@ || f == "-f"@ || f
        == "--file"@
}

/// Flags whose value is a commit message.
pub open spec fn is_message_flag(f: Seq<char>) -> bool {
    f == "-m"@ || f == "--message"@
}

/// Whether the argument at `i` is worth learning: not a flag, not a commit message,
/// and, unless it is the value of a flag, at most 100 characters long.
pub open spec fn learnable_at(args: Seq<Seq<char>>, i: int) -> bool {
    if first_is(args[i], '-') {
        false
    } else if i > 0 && takes_value(args[i - 1]) {
        !is_message_flag(args[i - 1])
    } else {
        args[i].len() <= 100
    }
}

/// The learnable arguments among the first `n`, in order.
pub open spec fn learnable_prefix(args: Seq<Seq<char>>, n: nat) -> Seq<Seq<char>>
    decreases n,
{
    if n == 0 {
        Seq::empty()
    } else if learnable_at(args, n - 1) {
        learnable_prefix(args, (n - 1) as nat).push(args[n - 1])
    } else {
        learnable_prefix(args, (n - 1) as nat)
    }
}

pub open spec fn learnable(args: Seq<Seq<char>>) -> Seq<Seq<char>> {
    learnable_prefix(args, args.len())
}

fn is_value_flag(f: &str) -> (r: bool)
    ensures
        r == takes_value(f@),
{
    same_text(f, "-m") || same_text(f, "-b") || same_text(f, "--message") || same_text(
        f,
        "--branch",
    ) || same_text(f, "-f") || same_text(f, "--file")
}

fn is_message(f: &str) -> (r: bool)
    ensures
        r == is_message_flag(f@),
{
    same_text(f, "-m") || same_text(f, "--message")
}

/// The arguments worth learning for suggestions: branch names, file names, package names.
pub fn extract_learnable_args(parsed: &ParsedCommand) -> (r: Vec<String>)
    ensures
        views(r@) == learnable(views(parsed.args@)),
{
    let args = &parsed.args;
    let ghost va = views(args@);
    let mut out: Vec<String> = Vec::new();
    let mut i: usize = 0;
    while i < args.len()
        invariant
            i <= args@.len(),
            va == views(args@),
            views(out@) == learnable_prefix(va, i as nat),
        decreases args@.len() - i,
    {
        let arg = args[i].as_str();
        assert(va[i as int] == arg@);
        let keep = if starts_with_char(arg, '-') {
            false
        } else if i > 0 && is_value_flag(args[i - 1].as_str()) {
            assert(va[i - 1] == args@[i - 1]@);
            !is_message(args[i - 1].as_str())
        } else {
            arg.unicode_len() <= 100
        };
        if keep {
            out.push(args[i].clone());
            proof {
                assert(views(out@) =~= learnable_prefix(va, i as nat).push(va[i as int]));
            }
        }
        i = i + 1;
    }
    out
}

} // verus!
