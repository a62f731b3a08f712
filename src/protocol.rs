//! Request parameters and results of the service, as plain values.
use crate::ranking::RankingWeights;
use crate::text::same_text;
use vstd::prelude::*;

verus! {

/// Malformed JSON.
pub const PARSE_ERROR: i32 = -32700;

/// Not a valid request object.
pub const INVALID_REQUEST: i32 = -32600;

/// No such method.
pub const METHOD_NOT_FOUND: i32 = -32601;

/// Missing or ill-typed parameters.
pub const INVALID_PARAMS: i32 = -32602;

/// The response could not be serialised.
pub const INTERNAL_ERROR: i32 = -32603;

/// The store failed or a key was not found.
pub const APPLICATION_ERROR: i32 = -32000;

/// The methods the service answers.
#[derive(Debug, Clone, Copy, PartialEq, Eq, Structural)]
pub enum Method {
    Ping,
    Store,
    Predict,
    Search,
    Context,
    Delete,
    FrecentAdd,
    FrecentQuery,
}

/// The method a request names, if the service has it.
pub open spec fn method_named(name: Seq<char>) -> Option<Method> {
    if name == "ping"@ {
        Some(Method::Ping)
    } else if name == "store"@ {
        Some(Method::Store)
    } else if name == "predict"@ {
        Some(Method::Predict)
    } else if name == "search"@ {
        Some(Method::Search)
    } else if name == "context"@ {
        Some(Method::Context)
    } else if name == "delete"@ {
        Some(Method::Delete)
    } else if name == "frecent_add"@ {
        Some(Method::FrecentAdd)
    } else if name == "frecent_query"@ {
        Some(Method::FrecentQuery)
    } else {
        None
    }
}

impl Method {
    /// Looks a method up by its wire name; unknown names give `None` (`METHOD_NOT_FOUND`).
    pub fn from_name(name: &str) -> (r: Option<Method>)
        ensures
            r == method_named(name@),
    {
        if same_text(name, "ping") {
            Some(Method::Ping)
        } else if same_text(name, "store") {
            Some(Method::Store)
        } else if same_text(name, "predict") {
            Some(Method::Predict)
        } else if same_text(name, "search") {
            Some(Method::Search)
        } else if same_text(name, "context") {
            Some(Method::Context)
        } else if same_text(name, "delete") {
            Some(Method::Delete)
        } else if same_text(name, "frecent_add") {
            Some(Method::FrecentAdd)
        } else if same_text(name, "frecent_query") {
            Some(Method::FrecentQuery)
        } else {
            None
        }
    }
}

/// An error as the service reports it.
#[derive(Debug, Clone)]
pub struct RpcError {
    pub code: i32,
    pub message: String,
}

/// Parameters of `store`: one executed command.
#[derive(Debug, Clone)]
pub struct StoreParams {
    pub cmd: String,
    pub cwd: String,
    pub exit_status: Option<i32>,
    pub duration_ms: Option<i64>,
    pub start_time: Option<i64>,
    pub session_id: Option<i64>,
    pub prev_cmd: Option<String>,
    pub prev2_cmd: Option<String>,
}

/// Parameters of `predict`.
#[derive(Debug, Clone)]
pub struct PredictParams {
    pub prefix: String,
    pub cwd: String,
    /// Recent commands, most recent first.
    pub last_cmds: Vec<String>,
    pub limit: usize,
    pub frecent_boost: bool,
    pub weights: Option<RankingWeights>,
}

/// Parameters of `context`.
#[derive(Debug, Clone)]
pub struct ContextParams {
    pub cwd: String,
}

/// Version control and project facts about a directory.
#[derive(Debug, Clone)]
pub struct ContextInfo {
    pub vcs: Option<String>,
    pub branch: Option<String>,
    pub vcs_root: Option<String>,
    pub project: Option<String>,
}

/// Parameters of `delete`.
#[derive(Debug, Clone)]
pub struct DeleteParams {
    pub cmd: String,
}

/// Parameters of `search`; `last_cmds`, `cwd` and `ngram_boost` are reserved.
#[derive(Debug, Clone)]
pub struct SearchParams {
    pub pattern: String,
    pub limit: usize,
    pub dir: Option<String>,
    pub exit_status: Option<i32>,
    pub last_cmds: Vec<String>,
    pub cwd: Option<String>,
    pub ngram_boost: bool,
}

/// Parameters of `frecent_add`; `rank` is in millionths.
#[derive(Debug, Clone)]
pub struct FrecentAddParams {
    pub path: String,
    pub path_type: String,
    pub rank: Option<u64>,
    pub timestamp: Option<i64>,
}

/// Parameters of `frecent_query`.
#[derive(Debug, Clone)]
pub struct FrecentQueryParams {
    pub terms: Vec<String>,
    pub path_type: Option<String>,
    pub limit: usize,
    pub raw: bool,
}

/// Frecent boost is on unless the request turns it off.
pub fn default_true() -> (r: bool)
    ensures
        r,
{
    true
}

/// Suggestions per prediction unless the request says otherwise.
pub fn default_limit() -> (r: usize)
    ensures
        r == 5,
{
    5
}

/// Results per search unless the request says otherwise.
pub fn default_search_limit() -> (r: usize)
    ensures
        r == 20,
{
    20
}

/// Paths are directories unless the request says otherwise.
pub fn default_path_type() -> (r: String)
    ensures
        r@ == "d"@,
{
    String::from_str("d")
}

/// Results per frecency query unless the request says otherwise.
pub fn default_frecent_limit() -> (r: usize)
    ensures
        r == 20,
{
    20
}

/// The path type a query filters on: files for "f", directories for anything else.
pub open spec fn type_filter(pt: Option<Seq<char>>) -> Option<Seq<char>> {
    match pt {
        Some(t) => if t == "f"@ {
            Some("f"@)
        } else {
            Some("d"@)
        },
        None => None,
    }
}

pub fn path_type_filter(pt: &Option<String>) -> (r: Option<String>)
    ensures
        crate::parser::opt_view(r) == type_filter(crate::parser::opt_view(*pt)),
{
    match pt {
        Some(t) => if same_text(t.as_str(), "f") {
            Some(String::from_str("f"))
        } else {
            Some(String::from_str("d"))
        },
        None => None,
    }
}

} // verus!
