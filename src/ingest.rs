//! What one ingestion writes, and the directory and path helpers around it.
use crate::parser::{
    extract_learnable_args, learnable, opt_view, parse_command,
    program_of, views, ParsedCommand,
};
use crate::protocol::StoreParams;
use crate::text::{first_is, same_text, starts_with_char, to_owned_string};
use vstd::prelude::*;

verus! {

/// What `std::path::Path::parent` makes of a path, as text.
pub uninterp spec fn parent_of(p: Seq<char>) -> Option<Seq<char>>;

/// Relies on `Path::parent`: the path without its last component, or `None` for a root or
/// an empty path; it works on the text alone.
#[verifier::external_body]
pub(crate) fn path_parent(p: &str) -> (r: Option<String>)
    ensures
        opt_view(r) == parent_of(p@),
{
    std::path::Path::new(p).parent().map(|q| q.to_string_lossy().to_string())
}

/// Up to `depth` ancestors of `cur`, nearest first, stopping at the root or an empty path.
pub open spec fn ancestors(cur: Seq<char>, depth: nat) -> Seq<Seq<char>>
    decreases depth,
{
    if depth == 0 {
        Seq::empty()
    } else {
        match parent_of(cur) {
            Some(p) => if p.len() > 0 && p != "/"@ {
                seq![p] + ancestors(p, (depth - 1) as nat)
            } else {
                Seq::empty()
            },
            None => Seq::empty(),
        }
    }
}

/// A directory followed by up to `max_depth` of its ancestors, nearest first.
pub fn get_directory_hierarchy(dir: &str, max_depth: usize) -> (r: Vec<String>)
    ensures
        views(r@) == seq![dir@] + ancestors(dir@, max_depth as nat),
{
    let mut out: Vec<String> = Vec::new();
    out.push(to_owned_string(dir));
    let mut cur = to_owned_string(dir);
    let mut k: usize = 0;
    let ghost full = seq![dir@] + ancestors(dir@, max_depth as nat);
    assert(views(out@) =~= seq![dir@]);
    while k < max_depth
        invariant
            k <= max_depth,
            full == seq![dir@] + ancestors(dir@, max_depth as nat),
            full == views(out@) + ancestors(cur@, (max_depth - k) as nat),
        decreases max_depth - k,
    {
        match path_parent(cur.as_str()) {
            Some(p) => {
                if p.as_str().unicode_len() == 0 || same_text(p.as_str(), "/") {
                    assert(ancestors(cur@, (max_depth - k) as nat) =~= Seq::empty());
                    assert(full =~= views(out@));
                    return out;
                }
                let ghost before = views(out@);
                out.push(p.clone());
                assert(views(out@) =~= before.push(p@));
                assert(ancestors(cur@, (max_depth - k) as nat) == seq![p@] + ancestors(
                    p@,
                    (max_depth - k - 1) as nat,
                ));
                assert(full =~= views(out@) + ancestors(p@, (max_depth - k - 1) as nat));
                cur = p;
            },
            None => {
                assert(full =~= views(out@));
                return out;
            },
        }
        k = k + 1;
    }
    assert(full =~= views(out@));
    out
}

/// Hour of the day of a Unix time: `(t mod 86400) / 3600`, with a non-negative `mod`.
pub open spec fn hour_of(t: i64) -> int {
    (t as int % 86400) / 3600
}

pub fn time_bucket(start_time: i64) -> (r: i64)
    ensures
        r == hour_of(start_time),
{
    let t = start_time as i128;
    let m2: i128 = if t >= 0 {
        t % 86400
    } else {
        let r = (-t) % 86400;
        proof {
            let (ti, ri) = (t as int, r as int);
            assert((if ri == 0 { 0 } else { 86400 - ri }) == ti % 86400) by (nonlinear_arith)
                requires
                    ti < 0,
                    ri == (-ti) % 86400,
            ;
        }
        if r == 0 {
            0
        } else {
            86400 - r
        }
    };
    (m2 / 3600) as i64
}

/// Joins the words with single spaces.
pub open spec fn joined(ws: Seq<Seq<char>>) -> Seq<char>
    decreases ws.len(),
{
    if ws.len() == 0 {
        Seq::empty()
    } else if ws.len() == 1 {
        ws[0]
    } else {
        joined(ws.drop_last()) + " "@ + ws.last()
    }
}

/// The first `n` characters of `s`, or all of it when it is shorter.
pub open spec fn head(s: Seq<char>, n: int) -> Seq<char> {
    if s.len() <= n {
        s
    } else {
        s.subrange(0, n)
    }
}

/// The stored summary of a command's arguments: their first 50 characters, joined by spaces.
pub fn args_digest(args: &Vec<String>) -> (r: String)
    ensures
        r@ == head(joined(views(args@)), 50),
{
    let mut s = String::new();
    let mut i: usize = 0;
    while i < args.len()
        invariant
            i <= args@.len(),
            s@ == joined(views(args@).subrange(0, i as int)),
        decreases args@.len() - i,
    {
        let ghost ws = views(args@).subrange(0, i + 1);
        assert(ws.drop_last() =~= views(args@).subrange(0, i as int));
        assert(ws.last() == args@[i as int]@);
        if i > 0 {
            s = s.concat(" ");
        }
        s = s.concat(args[i].as_str());
        i = i + 1;
    }
    assert(views(args@).subrange(0, args@.len() as int) =~= views(args@));
    let n = s.as_str().unicode_len();
    if n <= 50 {
        s
    } else {
        to_owned_string(s.as_str().substring_char(0, 50))
    }
}

/// Arguments kept as argument patterns: learnable ones of 2 to 100 characters.
pub open spec fn pattern_args(learned: Seq<Seq<char>>) -> Seq<Seq<char>>
    decreases learned.len(),
{
    if learned.len() == 0 {
        Seq::empty()
    } else if 2 <= learned.last().len() <= 100 {
        pattern_args(learned.drop_last()).push(learned.last())
    } else {
        pattern_args(learned.drop_last())
    }
}

/// The argument values an ingestion records for `parsed`.
pub fn pattern_values(parsed: &ParsedCommand) -> (r: Vec<String>)
    ensures
        views(r@) == pattern_args(learnable(views(parsed.args@))),
{
    let all = extract_learnable_args(parsed);
    let ghost va = views(all@);
    let mut out: Vec<String> = Vec::new();
    let mut i: usize = 0;
    while i < all.len()
        invariant
            i <= all@.len(),
            va == views(all@),
            views(out@) == pattern_args(va.subrange(0, i as int)),
        decreases all@.len() - i,
    {
        let n = all[i].as_str().unicode_len();
        proof {
            let p = va.subrange(0, i + 1);
            assert(p.drop_last() =~= va.subrange(0, i as int));
            assert(p.last() == all@[i as int]@);
        }
        if n >= 2 && n <= 100 {
            let ghost before = views(out@);
            out.push(all[i].clone());
            assert(views(out@) =~= before.push(all@[i as int]@));
        }
        i = i + 1;
    }
    assert(va.subrange(0, all@.len() as int) =~= va);
    out
}

/// `cwd` and a relative path joined by one separator (none after an empty or `/`-ended `cwd`).
pub open spec fn join_path(cwd: Seq<char>, rel: Seq<char>) -> Seq<char> {
    if cwd.len() == 0 {
        rel
    } else if cwd.last() == '/' {
        cwd + rel
    } else {
        cwd + "/"@ + rel
    }
}

/// The path an argument names: absolute paths stand as they are, `~` expands to the home
/// directory (none without one) and other paths are taken relative to `cwd`.
pub open spec fn path_of_arg(a: Seq<char>, cwd: Seq<char>, home: Option<Seq<char>>) -> Option<
    Seq<char>,
> {
    if first_is(a, '/') {
        Some(a)
    } else if first_is(a, '~') {
        match home {
            Some(h) => Some(h + a.subrange(1, a.len() as int)),
            None => None,
        }
    } else {
        Some(join_path(cwd, a))
    }
}

/// At most this many arguments are examined for paths.
pub const MAX_ARG_PATHS: usize = 5;

/// The arguments examined among the first `n`: the first five that are not flags.
pub open spec fn examined(args: Seq<Seq<char>>, n: nat) -> Seq<Seq<char>>
    decreases n,
{
    if n == 0 {
        Seq::empty()
    } else {
        let p = examined(args, (n - 1) as nat);
        if !first_is(args[n - 1], '-') && p.len() < MAX_ARG_PATHS {
            p.push(args[n - 1])
        } else {
            p
        }
    }
}

/// The paths that the examined arguments name, in order.
pub open spec fn resolved(ex: Seq<Seq<char>>, cwd: Seq<char>, home: Option<Seq<char>>) -> Seq<
    Seq<char>,
>
    decreases ex.len(),
{
    if ex.len() == 0 {
        Seq::empty()
    } else {
        let before = resolved(ex.drop_last(), cwd, home);
        match path_of_arg(ex.last(), cwd, home) {
            Some(p) => before.push(p),
            None => before,
        }
    }
}

fn join_exec(cwd: &str, rel: &str) -> (r: String)
    ensures
        r@ == join_path(cwd@, rel@),
{
    let n = cwd.unicode_len();
    if n == 0 {
        to_owned_string(rel)
    } else if cwd.get_char(n - 1) == '/' {
        to_owned_string(cwd).concat(rel)
    } else {
        to_owned_string(cwd).concat("/").concat(rel)
    }
}

fn path_of_arg_exec(a: &str, cwd: &str, home: &Option<String>) -> (r: Option<String>)
    ensures
        opt_view(r) == path_of_arg(a@, cwd@, opt_view(*home)),
{
    if starts_with_char(a, '/') {
        Some(to_owned_string(a))
    } else if starts_with_char(a, '~') {
        match home {
            Some(h) => Some(h.clone().concat(a.substring_char(1, a.unicode_len()))),
            None => None,
        }
    } else {
        Some(join_exec(cwd, a))
    }
}

/// The paths that the first five non-flag arguments of `parsed` name, resolved against
/// `cwd` and `home`.
pub fn candidate_paths(parsed: &ParsedCommand, cwd: &str, home: &Option<String>) -> (r: Vec<String>)
    ensures
        views(r@) == resolved(
            examined(views(parsed.args@), parsed.args@.len()),
            cwd@,
            opt_view(*home),
        ),
{
    let args = &parsed.args;
    let ghost va = views(args@);
    let mut out: Vec<String> = Vec::new();
    let mut count: usize = 0;
    let mut i: usize = 0;
    while i < args.len()
        invariant
            i <= args@.len(),
            va == views(args@),
            count == examined(va, i as nat).len(),
            views(out@) == resolved(examined(va, i as nat), cwd@, opt_view(*home)),
        decreases args@.len() - i,
    {
        assert(va[i as int] == args@[i as int]@);
        let arg = args[i].as_str();
        if !starts_with_char(arg, '-') && count < MAX_ARG_PATHS {
            let ghost ex = examined(va, (i + 1) as nat);
            assert(ex.drop_last() =~= examined(va, i as nat));
            match path_of_arg_exec(arg, cwd, home) {
                Some(p) => {
                    let ghost before = views(out@);
                    out.push(p);
                    assert(views(out@) =~= before.push(p@));
                },
                None => {},
            }
            count = count + 1;
        }
        i = i + 1;
    }
    out
}

/// What the file system holds at a path.
#[derive(Debug, Clone, Copy, PartialEq, Eq, Structural)]
pub enum PathKind {
    Missing,
    Dir,
    File,
    Other,
}

/// The bumps for the first `n` candidates: directories as 'd', files as 'f'; other kinds
/// and missing paths are not bumped.
pub open spec fn bumps_upto(paths: Seq<Seq<char>>, kinds: Seq<PathKind>, n: nat) -> Seq<
    (Seq<char>, char),
>
    decreases n,
{
    if n == 0 {
        Seq::empty()
    } else {
        let b = bumps_upto(paths, kinds, (n - 1) as nat);
        let k = kinds[n - 1];
        if k == PathKind::Dir {
            b.push((paths[n - 1], 'd'))
        } else if k == PathKind::File {
            b.push((paths[n - 1], 'f'))
        } else {
            b
        }
    }
}

pub open spec fn bump_views(v: Seq<(String, char)>) -> Seq<(Seq<char>, char)> {
    v.map_values(|e: (String, char)| (e.0@, e.1))
}

/// Chooses which candidate paths to bump, given what the file system holds at each.
pub fn paths_to_bump(paths: &Vec<String>, kinds: &Vec<PathKind>) -> (r: Vec<(String, char)>)
    requires
        paths@.len() == kinds@.len(),
    ensures
        bump_views(r@) == bumps_upto(views(paths@), kinds@, paths@.len()),
{
    let mut out: Vec<(String, char)> = Vec::new();
    let mut i: usize = 0;
    while i < paths.len()
        invariant
            i <= paths@.len(),
            paths@.len() == kinds@.len(),
            bump_views(out@) == bumps_upto(views(paths@), kinds@, i as nat),
        decreases paths@.len() - i,
    {
        let k = kinds[i];
        assert(views(paths@)[i as int] == paths@[i as int]@);
        if k == PathKind::Dir || k == PathKind::File {
            let t = if k == PathKind::Dir {
                'd'
            } else {
                'f'
            };
            let ghost before = bump_views(out@);
            out.push((paths[i].clone(), t));
            assert(bump_views(out@) =~= before.push((paths@[i as int]@, t)));
        }
        i = i + 1;
    }
    out
}

/// What one ingestion writes besides the history row.
#[derive(Debug, Clone)]
pub struct IngestPlan {
    /// Start time of the execution: the given one, else now.
    pub start_time: i64,
    /// Hour of the day of `start_time`.
    pub time_bucket: i64,
    /// The (previous, current) pair whose bigram count grows.
    pub bigram: Option<(String, String)>,
    /// The (second previous, previous, current) triple whose trigram count grows.
    pub trigram: Option<(String, String, String)>,
    /// The command split into its parts.
    pub parsed: ParsedCommand,
    /// Whether the parse is stored: only when there is a program.
    pub record_parse: bool,
    /// Stored summary of the arguments.
    pub args_digest: String,
    /// Argument values whose pattern counts grow.
    pub arg_values: Vec<String>,
}

/// Decides what ingesting `p` at time `now` records.
pub fn plan_ingestion(p: &StoreParams, now: i64) -> (r: IngestPlan)
    ensures
        r.start_time == (match p.start_time {
            Some(t) => t,
            None => now,
        }),
        r.time_bucket == hour_of(r.start_time),
        match p.prev_cmd {
            Some(prev) => r.bigram.is_some() && r.bigram.unwrap().0@ == prev@
                && r.bigram.unwrap().1@ == p.cmd@,
            None => r.bigram.is_none(),
        },
        match (p.prev_cmd, p.prev2_cmd) {
            (Some(prev), Some(prev2)) => r.trigram.is_some() && r.trigram.unwrap().0@ == prev2@
                && r.trigram.unwrap().1@ == prev@ && r.trigram.unwrap().2@ == p.cmd@,
            _ => r.trigram.is_none(),
        },
        crate::parser::parses_as(r.parsed, p.cmd@),
        r.record_parse == (program_of(p.cmd@).len() > 0),
        r.args_digest@ == head(joined(views(r.parsed.args@)), 50),
        views(r.arg_values@) == pattern_args(learnable(views(r.parsed.args@))),
{
    let start_time = match p.start_time {
        Some(t) => t,
        None => now,
    };
    let bigram = match &p.prev_cmd {
        Some(prev) => Some((prev.clone(), p.cmd.clone())),
        None => None,
    };
    let trigram = match (&p.prev_cmd, &p.prev2_cmd) {
        (Some(prev), Some(prev2)) => Some((prev2.clone(), prev.clone(), p.cmd.clone())),
        _ => None,
    };
    let parsed = parse_command(p.cmd.as_str());
    let record_parse = parsed.program.as_str().unicode_len() > 0;
    let args_digest = args_digest(&parsed.args);
    let arg_values = pattern_values(&parsed);
    IngestPlan {
        start_time,
        time_bucket: time_bucket(start_time),
        bigram,
        trigram,
        parsed,
        record_parse,
        args_digest,
        arg_values,
    }
}

} // verus!
