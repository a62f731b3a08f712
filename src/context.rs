//! Context signals: project type and version-control facts about a directory, and the
//! heuristics that relate commands to them.
use crate::fixed::ONE;
use crate::matcher::{contains_text, has_text, lower_of, lowercase};
use crate::parser::{opt_view, views};
use crate::ranking::min;
use crate::text::{has_prefix, same_text, starts_with, to_owned_string, trim, trim_bounds};
use vstd::prelude::*;

verus! {

/// Kinds of project, recognised by their manifest files.
#[derive(Debug, Clone, Copy, PartialEq, Eq, Structural)]
pub enum ProjectType {
    Rust,
    Node,
    Python,
    Go,
    Ruby,
    Java,
    CSharp,
    Cpp,
    C,
    Php,
    Elixir,
    Haskell,
    Scala,
    Kotlin,
    Swift,
    Zig,
}

/// The lower-case name of a project type.
pub open spec fn project_name(t: ProjectType) -> Seq<char> {
    match t {
        ProjectType::Rust => "rust"@,
        ProjectType::Node => "node"@,
        ProjectType::Python => "python"@,
        ProjectType::Go => "go"@,
        ProjectType::Ruby => "ruby"@,
        ProjectType::Java => "java"@,
        ProjectType::CSharp => "csharp"@,
        ProjectType::Cpp => "cpp"@,
        ProjectType::C => "c"@,
        ProjectType::Php => "php"@,
        ProjectType::Elixir => "elixir"@,
        ProjectType::Haskell => "haskell"@,
        ProjectType::Scala => "scala"@,
        ProjectType::Kotlin => "kotlin"@,
        ProjectType::Swift => "swift"@,
        ProjectType::Zig => "zig"@,
    }
}

impl ProjectType {
    /// The lower-case name of this project type.
    pub fn to_string(&self) -> (r: String)
        ensures
            r@ == project_name(*self),
    {
        let s: &str = match self {
            ProjectType::Rust => "rust",
            ProjectType::Node => "node",
            ProjectType::Python => "python",
            ProjectType::Go => "go",
            ProjectType::Ruby => "ruby",
            ProjectType::Java => "java",
            ProjectType::CSharp => "csharp",
            ProjectType::Cpp => "cpp",
            ProjectType::C => "c",
            ProjectType::Php => "php",
            ProjectType::Elixir => "elixir",
            ProjectType::Haskell => "haskell",
            ProjectType::Scala => "scala",
            ProjectType::Kotlin => "kotlin",
            ProjectType::Swift => "swift",
            ProjectType::Zig => "zig",
        };
        to_owned_string(s)
    }
}

/// Number of manifest markers.
pub const MARKER_COUNT: usize = 27;

/// Marker `i`, in the order they are tried: a file name, or (when the flag is set) a file
/// name ending, and the project type it signals.
pub open spec fn marker(i: int) -> (Seq<char>, bool, ProjectType) {
    if i == 0 {
        ("Cargo.toml"@, false, ProjectType::Rust)
    } else if i == 1 {
        ("package.json"@, false, ProjectType::Node)
    } else if i == 2 {
        ("pyproject.toml"@, false, ProjectType::Python)
    } else if i == 3 {
        ("setup.py"@, false, ProjectType::Python)
    } else if i == 4 {
        ("setup.cfg"@, false, ProjectType::Python)
    } else if i == 5 {
        ("requirements.txt"@, false, ProjectType::Python)
    } else if i == 6 {
        ("Pipfile"@, false, ProjectType::Python)
    } else if i == 7 {
        ("go.mod"@, false, ProjectType::Go)
    } else if i == 8 {
        ("go.sum"@, false, ProjectType::Go)
    } else if i == 9 {
        ("Gemfile"@, false, ProjectType::Ruby)
    } else if i == 10 {
        ("Rakefile"@, false, ProjectType::Ruby)
    } else if i == 11 {
        ("pom.xml"@, false, ProjectType::Java)
    } else if i == 12 {
        ("build.gradle"@, false, ProjectType::Java)
    } else if i == 13 {
        ("build.gradle.kts"@, false, ProjectType::Kotlin)
    } else if i == 14 {
        (".csproj"@, true, ProjectType::CSharp)
    } else if i == 15 {
        (".sln"@, true, ProjectType::CSharp)
    } else if i == 16 {
        ("CMakeLists.txt"@, false, ProjectType::Cpp)
    } else if i == 17 {
        ("Makefile"@, false, ProjectType::C)
    } else if i == 18 {
        ("meson.build"@, false, ProjectType::Cpp)
    } else if i == 19 {
        ("composer.json"@, false, ProjectType::Php)
    } else if i == 20 {
        ("mix.exs"@, false, ProjectType::Elixir)
    } else if i == 21 {
        ("stack.yaml"@, false, ProjectType::Haskell)
    } else if i == 22 {
        (".cabal"@, true, ProjectType::Haskell)
    } else if i == 23 {
        ("build.sbt"@, false, ProjectType::Scala)
    } else if i == 24 {
        ("build.gradle.kts"@, false, ProjectType::Kotlin)
    } else if i == 25 {
        ("Package.swift"@, false, ProjectType::Swift)
    } else {
        ("build.zig"@, false, ProjectType::Zig)
    }
}

fn marker_at(i: usize) -> (r: (&'static str, bool, ProjectType))
    requires
        i < MARKER_COUNT,
    ensures
        (r.0@, r.1, r.2) == marker(i as int),
{
    if i == 0 {
        ("Cargo.toml", false, ProjectType::Rust)
    } else if i == 1 {
        ("package.json", false, ProjectType::Node)
    } else if i == 2 {
        ("pyproject.toml", false, ProjectType::Python)
    } else if i == 3 {
        ("setup.py", false, ProjectType::Python)
    } else if i == 4 {
        ("setup.cfg", false, ProjectType::Python)
    } else if i == 5 {
        ("requirements.txt", false, ProjectType::Python)
    } else if i == 6 {
        ("Pipfile", false, ProjectType::Python)
    } else if i == 7 {
        ("go.mod", false, ProjectType::Go)
    } else if i == 8 {
        ("go.sum", false, ProjectType::Go)
    } else if i == 9 {
        ("Gemfile", false, ProjectType::Ruby)
    } else if i == 10 {
        ("Rakefile", false, ProjectType::Ruby)
    } else if i == 11 {
        ("pom.xml", false, ProjectType::Java)
    } else if i == 12 {
        ("build.gradle", false, ProjectType::Java)
    } else if i == 13 {
        ("build.gradle.kts", false, ProjectType::Kotlin)
    } else if i == 14 {
        (".csproj", true, ProjectType::CSharp)
    } else if i == 15 {
        (".sln", true, ProjectType::CSharp)
    } else if i == 16 {
        ("CMakeLists.txt", false, ProjectType::Cpp)
    } else if i == 17 {
        ("Makefile", false, ProjectType::C)
    } else if i == 18 {
        ("meson.build", false, ProjectType::Cpp)
    } else if i == 19 {
        ("composer.json", false, ProjectType::Php)
    } else if i == 20 {
        ("mix.exs", false, ProjectType::Elixir)
    } else if i == 21 {
        ("stack.yaml", false, ProjectType::Haskell)
    } else if i == 22 {
        (".cabal", true, ProjectType::Haskell)
    } else if i == 23 {
        ("build.sbt", false, ProjectType::Scala)
    } else if i == 24 {
        ("build.gradle.kts", false, ProjectType::Kotlin)
    } else if i == 25 {
        ("Package.swift", false, ProjectType::Swift)
    } else {
        ("build.zig", false, ProjectType::Zig)
    }
}

/// `s` ends with `e`.
pub open spec fn has_suffix(s: Seq<char>, e: Seq<char>) -> bool {
    e.len() <= s.len() && s.subrange(s.len() - e.len(), s.len() as int) == e
}

fn ends_with(s: &str, e: &str) -> (r: bool)
    ensures
        r == has_suffix(s@, e@),
{
    let n = s.unicode_len();
    let m = e.unicode_len();
    if m > n {
        return false;
    }
    same_text(s.substring_char(n - m, n), e)
}

/// A directory listing shows marker `i`.
pub open spec fn shows_marker(names: Seq<Seq<char>>, i: int) -> bool {
    let (m, glob, _t) = marker(i);
    exists|j: int|
        0 <= j < names.len() && if glob {
            has_suffix(#[trigger] names[j], m)
        } else {
            names[j] == m
        }
}

/// The type of the first marker from `i` on that the listing shows.
pub open spec fn detect_from(names: Seq<Seq<char>>, i: int) -> Option<ProjectType>
    decreases MARKER_COUNT - i,
{
    if i < 0 || i >= MARKER_COUNT {
        None
    } else if shows_marker(names, i) {
        Some(marker(i).2)
    } else {
        detect_from(names, i + 1)
    }
}

fn shows_marker_exec(names: &Vec<String>, i: usize) -> (r: bool)
    requires
        i < MARKER_COUNT,
    ensures
        r == shows_marker(views(names@), i as int),
{
    let (m, glob, _t) = marker_at(i);
    let mut j: usize = 0;
    while j < names.len()
        invariant
            j <= names@.len(),
            (m@, glob, _t) == marker(i as int),
            forall|k: int|
                0 <= k < j ==> !(if glob {
                    has_suffix(#[trigger] views(names@)[k], m@)
                } else {
                    views(names@)[k] == m@
                }),
        decreases names@.len() - j,
    {
        let name = names[j].as_str();
        assert(views(names@)[j as int] == name@);
        let hit = if glob {
            ends_with(name, m)
        } else {
            same_text(name, m)
        };
        if hit {
            return true;
        }
        j = j + 1;
    }
    false
}

/// The project type a directory listing reveals: the first marker, in order, that it shows.
pub fn detect_in_dir(names: &Vec<String>) -> (r: Option<ProjectType>)
    ensures
        r == detect_from(views(names@), 0),
{
    let mut i: usize = 0;
    while i < MARKER_COUNT
        invariant
            i <= MARKER_COUNT,
            detect_from(views(names@), 0) == detect_from(views(names@), i as int),
        decreases MARKER_COUNT - i,
    {
        if shows_marker_exec(names, i) {
            return Some(marker_at(i).2);
        }
        i = i + 1;
    }
    None
}

/// The first listing, nearest directory first, that reveals a project type.
pub open spec fn first_project(listings: Seq<Seq<String>>, j: int) -> Option<ProjectType>
    decreases listings.len() - j,
{
    if j < 0 || j >= listings.len() {
        None
    } else {
        match detect_from(views(listings[j]), 0) {
            Some(t) => Some(t),
            None => first_project(listings, j + 1),
        }
    }
}

/// Detects the project type from the listings of a directory and its ancestors, nearest
/// first.
pub fn detect_project_type(listings: &Vec<Vec<String>>) -> (r: Option<ProjectType>)
    ensures
        r == first_project(listings@.map_values(|l: Vec<String>| l@), 0),
{
    let ghost ls = listings@.map_values(|l: Vec<String>| l@);
    let mut j: usize = 0;
    while j < listings.len()
        invariant
            j <= listings@.len(),
            ls == listings@.map_values(|l: Vec<String>| l@),
            first_project(ls, 0) == first_project(ls, j as int),
        decreases listings@.len() - j,
    {
        assert(ls[j as int] == listings@[j as int]@);
        if let Some(t) = detect_in_dir(&listings[j]) {
            return Some(t);
        }
        j = j + 1;
    }
    None
}

/// Version control facts about a directory.
#[derive(Debug, Clone)]
pub struct VcsInfo {
    /// "git" or "hg".
    pub vcs_type: String,
    /// The repository root.
    pub root: String,
    /// The current branch, when known.
    pub branch: Option<String>,
}

/// The first of `dirs` (a directory, then its ancestors) that holds the repository marker.
pub open spec fn first_marked(dirs: Seq<Seq<char>>, marked: Seq<bool>, j: int) -> Option<Seq<char>>
    decreases dirs.len() - j,
{
    if j < 0 || j >= dirs.len() || j >= marked.len() {
        None
    } else if marked[j] {
        Some(dirs[j])
    } else {
        first_marked(dirs, marked, j + 1)
    }
}

/// The repository root: the nearest directory that holds the marker.
pub fn find_repo_root(dirs: &Vec<String>, marked: &Vec<bool>) -> (r: Option<String>)
    ensures
        opt_view(r) == first_marked(views(dirs@), marked@, 0),
{
    let mut j: usize = 0;
    while j < dirs.len() && j < marked.len()
        invariant
            first_marked(views(dirs@), marked@, 0) == first_marked(views(dirs@), marked@, j as int),
        decreases dirs@.len() - j,
    {
        if marked[j] {
            assert(views(dirs@)[j as int] == dirs@[j as int]@);
            return Some(dirs[j].clone());
        }
        j = j + 1;
    }
    None
}

/// The branch a `.git/HEAD` file names: the name after `ref: refs/heads/`, else (a detached
/// head) the first seven characters, else nothing.
pub open spec fn head_branch(content: Seq<char>) -> Option<Seq<char>> {
    let t = trim(content);
    let p = "ref: refs/heads/"@;
    if has_prefix(t, p) {
        Some(t.subrange(p.len() as int, t.len() as int))
    } else if t.len() >= 7 {
        Some(t.subrange(0, 7))
    } else {
        None
    }
}

pub fn git_branch_from_head(content: &str) -> (r: Option<String>)
    ensures
        opt_view(r) == head_branch(content@),
{
    let (a, b) = trim_bounds(content);
    let t = content.substring_char(a, b);
    let p = "ref: refs/heads/";
    let pl = p.unicode_len();
    if starts_with(t, p) {
        Some(to_owned_string(t.substring_char(pl, t.unicode_len())))
    } else if t.unicode_len() >= 7 {
        Some(to_owned_string(t.substring_char(0, 7)))
    } else {
        None
    }
}

/// The branch a command printed: its trimmed output, unless empty or `reject`.
pub open spec fn printed_branch(out: Seq<char>, reject: Option<Seq<char>>) -> Option<Seq<char>> {
    let t = trim(out);
    if t.len() == 0 || reject == Some(t) {
        None
    } else {
        Some(t)
    }
}

pub fn branch_from_output(out: &str, reject: Option<&str>) -> (r: Option<String>)
    ensures
        opt_view(r) == printed_branch(
            out@,
            match reject {
                Some(x) => Some(x@),
                None => None,
            },
        ),
{
    let (a, b) = trim_bounds(out);
    let t = out.substring_char(a, b);
    if t.unicode_len() == 0 {
        return None;
    }
    if let Some(x) = reject {
        if same_text(t, x) {
            return None;
        }
    }
    Some(to_owned_string(t))
}

/// A Git repository at `root`, if there is one.
pub fn detect_git(root: Option<String>, branch: Option<String>) -> (r: Option<VcsInfo>)
    ensures
        r.is_some() == root.is_some(),
        r.is_some() ==> r.unwrap().vcs_type@ == "git"@ && r.unwrap().root == root.unwrap()
            && r.unwrap().branch == branch,
{
    match root {
        Some(root) => Some(VcsInfo { vcs_type: to_owned_string("git"), root, branch }),
        None => None,
    }
}

/// A Mercurial repository at `root`, if there is one; its branch defaults to "default".
pub fn detect_hg(root: Option<String>, branch: Option<String>) -> (r: Option<VcsInfo>)
    ensures
        r.is_some() == root.is_some(),
        r.is_some() ==> r.unwrap().vcs_type@ == "hg"@ && r.unwrap().root == root.unwrap()
            && opt_view(r.unwrap().branch) == Some(
            match branch {
                Some(b) => b@,
                None => "default"@,
            },
        ),
{
    match root {
        Some(root) => {
            let b = match branch {
                Some(b) => b,
                None => to_owned_string("default"),
            };
            Some(VcsInfo { vcs_type: to_owned_string("hg"), root, branch: Some(b) })
        },
        None => None,
    }
}

/// Git wins over Mercurial.
pub fn detect_vcs(git: Option<VcsInfo>, hg: Option<VcsInfo>) -> (r: Option<VcsInfo>)
    ensures
        r == (if git.is_some() {
            git
        } else {
            hg
        }),
{
    if git.is_some() {
        git
    } else {
        hg
    }
}

/// What the ranker knows about where the user is.
#[derive(Debug, Clone)]
pub struct RankingContext {
    pub cwd: String,
    /// The project type name: rust, node, python, ...
    pub project_type: Option<String>,
    pub vcs_branch: Option<String>,
    /// Hour of the day, 0 to 23.
    pub hour: Option<u8>,
}

impl RankingContext {
    pub fn new(cwd: String) -> (r: Self)
        ensures
            r.cwd == cwd,
            r.project_type.is_none(),
            r.vcs_branch.is_none(),
            r.hour.is_none(),
    {
        RankingContext { cwd, project_type: None, vcs_branch: None, hour: None }
    }

    pub fn with_project(self, project: Option<String>) -> (r: Self)
        ensures
            r == (RankingContext { project_type: project, ..self }),
    {
        RankingContext { project_type: project, ..self }
    }

    pub fn with_branch(self, branch: Option<String>) -> (r: Self)
        ensures
            r == (RankingContext { vcs_branch: branch, ..self }),
    {
        RankingContext { vcs_branch: branch, ..self }
    }

    pub fn with_hour(self, hour: u8) -> (r: Self)
        ensures
            r == (RankingContext { hour: Some(hour), ..self }),
    {
        RankingContext { hour: Some(hour), ..self }
    }
}

/// The lower-cased command starts like a tool of the project type.
pub open spec fn typical_for(c: Seq<char>, project: Seq<char>) -> bool {
    if project == "rust"@ {
        has_prefix(c, "cargo "@) || has_prefix(c, "rustc "@) || has_prefix(c, "rustup "@)
    } else if project == "node"@ {
        has_prefix(c, "npm "@) || has_prefix(c, "yarn "@) || has_prefix(c, "pnpm "@) || has_prefix(
            c,
            "node "@,
        ) || has_prefix(c, "npx "@)
    } else if project == "python"@ {
        has_prefix(c, "python"@) || has_prefix(c, "pip "@) || has_prefix(c, "pytest"@)
            || has_prefix(c, "poetry "@) || has_prefix(c, "pdm "@)
    } else if project == "go"@ {
        has_prefix(c, "go "@)
    } else if project == "ruby"@ {
        has_prefix(c, "ruby "@) || has_prefix(c, "bundle "@) || has_prefix(c, "rake "@)
            || has_prefix(c, "rails "@)
    } else if project == "java"@ {
        has_prefix(c, "mvn "@) || has_prefix(c, "gradle "@) || has_prefix(c, "java "@)
    } else {
        false
    }
}

/// The lower-cased command fits the kind of work the lower-cased branch name suggests.
pub open spec fn fits_branch(c: Seq<char>, b: Seq<char>) -> bool {
    if has_prefix(b, "feature/"@) || has_prefix(b, "feat/"@) {
        has_text(c, "test"@) || has_text(c, "build"@)
    } else if has_prefix(b, "fix/"@) || has_prefix(b, "bugfix/"@) {
        has_text(c, "test"@) || has_text(c, "debug"@)
    } else if b == "main"@ || b == "master"@ {
        has_text(c, "deploy"@) || has_text(c, "release"@) || has_text(c, "push"@)
    } else {
        false
    }
}

/// Context score, in millionths: 0.30 times the share of this directory's executions
/// that ran the command (at most 1), 0.20 for a command typical of the project type, 0.15
/// for one that fits the branch; at most 1 in all.
pub open spec fn context_score_of(cmd: Seq<char>, ctx: RankingContext, dir_frequency: i64, total_in_dir: i64) -> int {
    let share = if total_in_dir > 0 {
        let d = if dir_frequency > 0 {
            dir_frequency as int
        } else {
            0
        };
        300_000 * min(d * ONE as int / total_in_dir as int, ONE as int) / ONE as int
    } else {
        0
    };
    let project = match ctx.project_type {
        Some(p) => if typical_for(lower_of(cmd), p@) {
            200_000int
        } else {
            0
        },
        None => 0,
    };
    let branch = match ctx.vcs_branch {
        Some(b) => if fits_branch(lower_of(cmd), lower_of(b@)) {
            150_000int
        } else {
            0
        },
        None => 0,
    };
    min(share + project + branch, ONE as int)
}

/// Combined score, in millionths: half the n-gram score, 0.3 of the context score and 0.2
/// of the recency, at most 1.
pub open spec fn combined_of(ngram: u64, context: u64, recency: u64) -> int {
    min((500_000 * ngram + 300_000 * context + 200_000 * recency) / ONE as int, ONE as int)
}

/// Scores commands against the ranking context.
pub struct ContextRanker;

impl ContextRanker {
    pub fn context_score(cmd: &str, context: &RankingContext, dir_frequency: i64, total_in_dir: i64) -> (r: u64)
        ensures
            r == context_score_of(cmd@, *context, dir_frequency, total_in_dir),
    {
        let share: u128 = if total_in_dir > 0 {
            let d: u128 = if dir_frequency > 0 {
                dir_frequency as u128
            } else {
                0
            };
            proof {
                assert(d * (ONE as int) <= 0x8000_0000_0000_0000 * 0x10_0000) by (nonlinear_arith)
                    requires
                        d <= 0x8000_0000_0000_0000,
                ;
            }
            let ratio = d * (ONE as u128) / (total_in_dir as u128);
            let capped: u128 = if ratio < ONE as u128 {
                ratio
            } else {
                ONE as u128
            };
            proof {
                assert(300_000 * capped <= 300_000 * (ONE as int)) by (nonlinear_arith)
                    requires
                        capped <= ONE,
                ;
            }
            300_000 * capped / (ONE as u128)
        } else {
            0
        };
        let project: u128 = match &context.project_type {
            Some(p) => if Self::matches_project_type(cmd, p.as_str()) {
                200_000
            } else {
                0
            },
            None => 0,
        };
        let branch: u128 = match &context.vcs_branch {
            Some(b) => if Self::matches_branch_pattern(cmd, b.as_str()) {
                150_000
            } else {
                0
            },
            None => 0,
        };
        let sum = share + project + branch;
        if sum < ONE as u128 {
            sum as u64
        } else {
            ONE
        }
    }

    pub fn combined_score(ngram_score: u64, context_score: u64, recency: u64) -> (r: u64)
        ensures
            r == combined_of(ngram_score, context_score, recency),
    {
        let sum: u128 = 500_000 * (ngram_score as u128) + 300_000 * (context_score as u128)
            + 200_000 * (recency as u128);
        let v = sum / (ONE as u128);
        if v < ONE as u128 {
            v as u64
        } else {
            ONE
        }
    }

    /// The command is one typically run in a project of this type.
    pub fn matches_project_type(cmd: &str, project: &str) -> (r: bool)
        ensures
            r == typical_for(lower_of(cmd@), project@),
    {
        let lc = lowercase(cmd);
        let c = lc.as_str();
        if same_text(project, "rust") {
            starts_with(c, "cargo ") || starts_with(c, "rustc ") || starts_with(c, "rustup ")
        } else if same_text(project, "node") {
            starts_with(c, "npm ") || starts_with(c, "yarn ") || starts_with(c, "pnpm ")
                || starts_with(c, "node ") || starts_with(c, "npx ")
        } else if same_text(project, "python") {
            starts_with(c, "python") || starts_with(c, "pip ") || starts_with(c, "pytest")
                || starts_with(c, "poetry ") || starts_with(c, "pdm ")
        } else if same_text(project, "go") {
            starts_with(c, "go ")
        } else if same_text(project, "ruby") {
            starts_with(c, "ruby ") || starts_with(c, "bundle ") || starts_with(c, "rake ")
                || starts_with(c, "rails ")
        } else if same_text(project, "java") {
            starts_with(c, "mvn ") || starts_with(c, "gradle ") || starts_with(c, "java ")
        } else {
            false
        }
    }

    /// The command fits the work the branch name suggests.
    pub fn matches_branch_pattern(cmd: &str, branch: &str) -> (r: bool)
        ensures
            r == fits_branch(lower_of(cmd@), lower_of(branch@)),
    {
        let lc = lowercase(cmd);
        let lb = lowercase(branch);
        let c = lc.as_str();
        let b = lb.as_str();
        if starts_with(b, "feature/") || starts_with(b, "feat/") {
            contains_text(c, "test") || contains_text(c, "build")
        } else if starts_with(b, "fix/") || starts_with(b, "bugfix/") {
            contains_text(c, "test") || contains_text(c, "debug")
        } else if same_text(b, "main") || same_text(b, "master") {
            contains_text(c, "deploy") || contains_text(c, "release") || contains_text(c, "push")
        } else {
            false
        }
    }
}

} // verus!
