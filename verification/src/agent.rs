//! The agent side of the protocol: command-line options, and how a request
//! becomes a backend call and the call's outcome becomes the response.

use vstd::prelude::*;

use crate::json::{field_of, JsonValue};
use crate::order::string_eq;
use crate::protocol::{
    err_response, ok_response, Request, Response, ResponseOutcome, APPLICATION_ERROR,
    INVALID_PARAMS, METHOD_NOT_FOUND, PARSE_ERROR,
};
use crate::text::{concat2, concat3};
use crate::types::{error_text, BackendError, FileContentsBatchItem, RepoStatus};
use crate::wire::{is_items_json, is_opt_str_json, is_status_json, items_json, opt_str_json, opt_view, status_json};

verus! {

/// The agent's options: the repository to serve.
#[derive(Debug)]
pub struct Options {
    pub repo: String,
}

/// Reads the arguments from the front, with the flags seen so far.
pub open spec fn scan_args(args: Seq<Seq<char>>, stdio: bool, repo: Option<Seq<char>>) -> Result<
    (bool, Option<Seq<char>>),
    Seq<char>,
>
    decreases args.len(),
{
    if args.len() == 0 {
        Ok((stdio, repo))
    } else if args[0] == "--stdio"@ {
        scan_args(args.drop_first(), true, repo)
    } else if args[0] == "--repo"@ {
        if args.len() < 2 {
            Err("--repo requires a value"@)
        } else {
            scan_args(args.skip(2), stdio, Some(args[1]))
        }
    } else {
        Err("unknown argument: "@ + args[0])
    }
}

/// The repository named by `diff-agent --stdio --repo <path>`, or why the
/// arguments are refused. A later `--repo` overrides an earlier one.
pub open spec fn agent_args(args: Seq<Seq<char>>) -> Result<Seq<char>, Seq<char>> {
    match scan_args(args, false, None) {
        Err(e) => Err(e),
        Ok((stdio, repo)) => if !stdio {
            Err("--stdio is required (only stdio transport is supported in v1)"@)
        } else {
            match repo {
                None => Err("--repo is required"@),
                Some(r) => Ok(r),
            }
        },
    }
}

/// `--stdio --repo <path>`, in either order, serves `<path>`, whatever the path is.
pub proof fn law_agent_args_serve_the_given_repo(path: Seq<char>)
    ensures
        agent_args(seq!["--stdio"@, "--repo"@, path]) == Ok::<Seq<char>, Seq<char>>(path),
        agent_args(seq!["--repo"@, path, "--stdio"@]) == Ok::<Seq<char>, Seq<char>>(path),
{
    reveal_strlit("--stdio");
    reveal_strlit("--repo");
    assert("--stdio"@ != "--repo"@) by {
        assert("--stdio"@.len() != "--repo"@.len());
    };
    let a = seq!["--stdio"@, "--repo"@, path];
    let a1 = a.drop_first();
    assert(a1 =~= seq!["--repo"@, path]);
    assert(a1.skip(2) =~= Seq::<Seq<char>>::empty());
    assert(scan_args(a1.skip(2), true, Some(path)) == Ok::<(bool, Option<Seq<char>>), Seq<char>>(
        (true, Some(path)),
    ));
    assert(a1[0] == "--repo"@);
    assert(scan_args(a1, true, None) == scan_args(a1.skip(2), true, Some(path)));
    assert(a[0] == "--stdio"@);
    assert(scan_args(a, false, None) == scan_args(a1, true, None));
    let b = seq!["--repo"@, path, "--stdio"@];
    let b2 = b.skip(2);
    assert(b2 =~= seq!["--stdio"@]);
    assert(b2.drop_first() =~= Seq::<Seq<char>>::empty());
    assert(scan_args(b2.drop_first(), true, Some(path)) == Ok::<
        (bool, Option<Seq<char>>),
        Seq<char>,
    >((true, Some(path))));
    assert(b2[0] == "--stdio"@);
    assert(scan_args(b2, false, Some(path)) == scan_args(b2.drop_first(), true, Some(path)));
    assert(b[0] == "--repo"@);
    assert(b[1] == path);
    assert(scan_args(b, false, None) == scan_args(b2, false, Some(path)));
}

/// Parses the agent's command line (without the program name).
pub fn parse_args(args: &Vec<String>) -> (r: Result<Options, String>)
    ensures
        match r {
            Ok(o) => agent_args(args@.map_values(|s: String| s@)) == Ok::<Seq<char>, Seq<char>>(
                o.repo@,
            ),
            Err(e) => agent_args(args@.map_values(|s: String| s@)) == Err::<Seq<char>, Seq<char>>(
                e@,
            ),
        },
{
    let ghost av = args@.map_values(|s: String| s@);
    let mut stdio = false;
    let mut repo: Option<String> = None;
    let mut i: usize = 0;
    assert(av.skip(0) =~= av);
    while i < args.len()
        invariant
            i <= args.len(),
            av == args@.map_values(|s: String| s@),
            scan_args(av, false, None) == scan_args(av.skip(i as int), stdio, match repo {
                Some(s) => Some(s@),
                None => None,
            }),
        decreases args.len() - i,
    {
        let a = args[i].as_str();
        proof {
            assert(av.skip(i as int)[0] == a@);
            assert(av.skip(i as int).drop_first() =~= av.skip(i + 1));
            reveal_strlit("--stdio");
            reveal_strlit("--repo");
        }
        if string_eq(a, "--stdio") {
            stdio = true;
        } else if string_eq(a, "--repo") {
            i = i + 1;
            if i >= args.len() {
                return Err(String::from_str("--repo requires a value"));
            }
            proof {
                assert(av.skip(i - 1)[1] == av[i as int]);
                assert(av.skip(i - 1).skip(2) =~= av.skip(i + 1));
            }
            repo = Some(args[i].clone());
        } else {
            return Err(concat2("unknown argument: ", a));
        }
        i = i + 1;
    }
    if !stdio {
        return Err(String::from_str("--stdio is required (only stdio transport is supported in v1)"));
    }
    match repo {
        None => Err(String::from_str("--repo is required")),
        Some(r) => Ok(Options { repo: r }),
    }
}

/// The string parameter `field`, or why it is missing.
pub open spec fn str_param(params: JsonValue, field: Seq<char>) -> Result<Seq<char>, Seq<char>> {
    match field_of(params, field) {
        Some(JsonValue::Str(s)) => Ok(s@),
        _ => Err("missing or non-string field '"@ + field + "'"@),
    }
}

/// The string parameter `field` of a request.
pub fn params_str_field(params: &JsonValue, field: &str) -> (r: Result<String, String>)
    ensures
        match r {
            Ok(s) => str_param(*params, field@) == Ok::<Seq<char>, Seq<char>>(s@),
            Err(e) => str_param(*params, field@) == Err::<Seq<char>, Seq<char>>(e@),
        },
{
    match params.get(field) {
        Some(v) => match v.as_str() {
            Some(s) => Ok(String::from_str(s)),
            None => Err(concat3("missing or non-string field '", field, "'")),
        },
        None => Err(concat3("missing or non-string field '", field, "'")),
    }
}

/// A backend operation requested over the protocol.
#[derive(Debug)]
pub enum BackendCall {
    GetStatus,
    GetBranch,
    StageFile(String),
    UnstageFile(String),
    StageAll,
    UnstageAll,
    DiscardFile(String),
    Commit { message: String, amend: bool },
    /// The raw `requests` parameter, decoded by the caller.
    GetFileContentsBatch(JsonValue),
}

/// Where a request goes: a backend operation, or a refusal with a code and text.
pub enum Route {
    Status,
    Branch,
    Stage(Seq<char>),
    Unstage(Seq<char>),
    StageAll,
    UnstageAll,
    Discard(Seq<char>),
    Commit(Seq<char>, bool),
    Batch(JsonValue),
    Reject(i32, Seq<char>),
}

pub open spec fn call_route(c: BackendCall) -> Route {
    match c {
        BackendCall::GetStatus => Route::Status,
        BackendCall::GetBranch => Route::Branch,
        BackendCall::StageFile(p) => Route::Stage(p@),
        BackendCall::UnstageFile(p) => Route::Unstage(p@),
        BackendCall::StageAll => Route::StageAll,
        BackendCall::UnstageAll => Route::UnstageAll,
        BackendCall::DiscardFile(p) => Route::Discard(p@),
        BackendCall::Commit { message, amend } => Route::Commit(message@, amend),
        BackendCall::GetFileContentsBatch(v) => Route::Batch(v),
    }
}

/// A path-taking method: the call, or invalid params.
pub open spec fn with_path(params: JsonValue, make: spec_fn(Seq<char>) -> Route) -> Route {
    match str_param(params, "path"@) {
        Ok(p) => make(p),
        Err(e) => Route::Reject(INVALID_PARAMS, e),
    }
}

/// The flag `amend`, false unless it is a JSON boolean.
pub open spec fn amend_param(params: JsonValue) -> bool {
    match field_of(params, "amend"@) {
        Some(JsonValue::Bool(b)) => b,
        _ => false,
    }
}

/// Where the request with `method` and `params` goes. Method names are the
/// backend operations; an unknown method is refused with "method not found".
pub open spec fn route_of(method: Seq<char>, params: JsonValue) -> Route {
    if method == "get_status"@ {
        Route::Status
    } else if method == "get_branch"@ {
        Route::Branch
    } else if method == "stage_file"@ {
        with_path(params, |p: Seq<char>| Route::Stage(p))
    } else if method == "unstage_file"@ {
        with_path(params, |p: Seq<char>| Route::Unstage(p))
    } else if method == "stage_all"@ {
        Route::StageAll
    } else if method == "unstage_all"@ {
        Route::UnstageAll
    } else if method == "discard_file"@ {
        with_path(params, |p: Seq<char>| Route::Discard(p))
    } else if method == "commit"@ {
        match str_param(params, "message"@) {
            Ok(m) => Route::Commit(m, amend_param(params)),
            Err(e) => Route::Reject(INVALID_PARAMS, e),
        }
    } else if method == "get_file_contents_batch"@ {
        match field_of(params, "requests"@) {
            Some(v) => Route::Batch(v),
            None => Route::Reject(INVALID_PARAMS, "missing 'requests' field"@),
        }
    } else {
        Route::Reject(METHOD_NOT_FOUND, "unknown method: "@ + method)
    }
}

/// `resp` is the error response with `id`, `code` and `message`, without data.
pub open spec fn is_error_response(resp: Response, id: u64, code: i32, message: Seq<char>) -> bool {
    &&& resp.id == id
    &&& resp.outcome matches ResponseOutcome::Error(e)
    &&& e.code == code
    &&& e.message@ == message
    &&& e.data is None
}

fn path_call(
    id: u64,
    params: &JsonValue,
    which: u8,
) -> (r: Result<BackendCall, Response>)
    requires
        which < 3,
    ensures
        match str_param(*params, "path"@) {
            Ok(p) => r matches Ok(c) && call_route(c) == (if which == 0 {
                Route::Stage(p)
            } else if which == 1 {
                Route::Unstage(p)
            } else {
                Route::Discard(p)
            }),
            Err(e) => r matches Err(resp) && is_error_response(resp, id, INVALID_PARAMS, e),
        },
{
    match params_str_field(params, "path") {
        Ok(path) => {
            if which == 0 {
                Ok(BackendCall::StageFile(path))
            } else if which == 1 {
                Ok(BackendCall::UnstageFile(path))
            } else {
                Ok(BackendCall::DiscardFile(path))
            }
        },
        Err(e) => Err(err_response(id, INVALID_PARAMS, e)),
    }
}

/// The backend call that a request asks for, or the error response that
/// refuses it (`handle_request` up to the call itself).
pub fn route_request(req: Request) -> (r: Result<BackendCall, Response>)
    ensures
        match route_of(req.method@, req.params) {
            Route::Reject(code, msg) => r matches Err(resp) && is_error_response(
                resp,
                req.id,
                code,
                msg,
            ),
            route => r matches Ok(c) && call_route(c) == route,
        },
{
    let m = req.method.as_str();
    let id = req.id;
    proof {
        reveal_strlit("get_status");
        reveal_strlit("get_branch");
        reveal_strlit("stage_file");
        reveal_strlit("unstage_file");
        reveal_strlit("stage_all");
        reveal_strlit("unstage_all");
        reveal_strlit("discard_file");
        reveal_strlit("commit");
        reveal_strlit("get_file_contents_batch");
    }
    if string_eq(m, "get_status") {
        Ok(BackendCall::GetStatus)
    } else if string_eq(m, "get_branch") {
        Ok(BackendCall::GetBranch)
    } else if string_eq(m, "stage_file") {
        path_call(id, &req.params, 0)
    } else if string_eq(m, "unstage_file") {
        path_call(id, &req.params, 1)
    } else if string_eq(m, "stage_all") {
        Ok(BackendCall::StageAll)
    } else if string_eq(m, "unstage_all") {
        Ok(BackendCall::UnstageAll)
    } else if string_eq(m, "discard_file") {
        path_call(id, &req.params, 2)
    } else if string_eq(m, "commit") {
        match params_str_field(&req.params, "message") {
            Ok(message) => {
                let amend = match req.params.get("amend") {
                    Some(v) => match v.as_bool() {
                        Some(b) => b,
                        None => false,
                    },
                    None => false,
                };
                Ok(BackendCall::Commit { message, amend })
            },
            Err(e) => Err(err_response(id, INVALID_PARAMS, e)),
        }
    } else if string_eq(m, "get_file_contents_batch") {
        let params = req.params;
        match params.take_field("requests") {
            Some(v) => Ok(BackendCall::GetFileContentsBatch(v)),
            None => Err(
                err_response(id, INVALID_PARAMS, String::from_str("missing 'requests' field")),
            ),
        }
    } else {
        let msg = concat2("unknown method: ", m);
        Err(err_response(id, METHOD_NOT_FOUND, msg))
    }
}

/// The protocol's method names are pairwise distinct.
proof fn lemma_method_names_distinct()
    ensures
        "get_branch"@ != "get_status"@,
        "stage_file"@ != "get_status"@,
        "stage_file"@ != "get_branch"@,
        "unstage_file"@ != "get_status"@,
        "unstage_file"@ != "get_branch"@,
        "unstage_file"@ != "stage_file"@,
        "stage_all"@ != "get_status"@,
        "stage_all"@ != "get_branch"@,
        "stage_all"@ != "stage_file"@,
        "stage_all"@ != "unstage_file"@,
        "unstage_all"@ != "get_status"@,
        "unstage_all"@ != "get_branch"@,
        "unstage_all"@ != "stage_file"@,
        "unstage_all"@ != "unstage_file"@,
        "unstage_all"@ != "stage_all"@,
        "discard_file"@ != "get_status"@,
        "discard_file"@ != "get_branch"@,
        "discard_file"@ != "stage_file"@,
        "discard_file"@ != "unstage_file"@,
        "discard_file"@ != "stage_all"@,
        "discard_file"@ != "unstage_all"@,
        "commit"@ != "get_status"@,
        "commit"@ != "get_branch"@,
        "commit"@ != "stage_file"@,
        "commit"@ != "unstage_file"@,
        "commit"@ != "stage_all"@,
        "commit"@ != "unstage_all"@,
        "commit"@ != "discard_file"@,
        "get_file_contents_batch"@ != "get_status"@,
        "get_file_contents_batch"@ != "get_branch"@,
        "get_file_contents_batch"@ != "stage_file"@,
        "get_file_contents_batch"@ != "unstage_file"@,
        "get_file_contents_batch"@ != "stage_all"@,
        "get_file_contents_batch"@ != "unstage_all"@,
        "get_file_contents_batch"@ != "discard_file"@,
        "get_file_contents_batch"@ != "commit"@,
{
    reveal_strlit("get_status");
    reveal_strlit("get_branch");
    reveal_strlit("stage_file");
    reveal_strlit("unstage_file");
    reveal_strlit("stage_all");
    reveal_strlit("unstage_all");
    reveal_strlit("discard_file");
    reveal_strlit("commit");
    reveal_strlit("get_file_contents_batch");
    assert("get_branch"@[4] != "get_status"@[4]);
    assert("stage_file"@[0] != "get_status"@[0]);
    assert("stage_file"@[0] != "get_branch"@[0]);
    assert("unstage_file"@[0] != "get_status"@[0]);
    assert("unstage_file"@[0] != "get_branch"@[0]);
    assert("unstage_file"@[0] != "stage_file"@[0]);
    assert("stage_all"@[0] != "get_status"@[0]);
    assert("stage_all"@[0] != "get_branch"@[0]);
    assert("stage_all"@[6] != "stage_file"@[6]);
    assert("stage_all"@[0] != "unstage_file"@[0]);
    assert("unstage_all"@[0] != "get_status"@[0]);
    assert("unstage_all"@[0] != "get_branch"@[0]);
    assert("unstage_all"@[0] != "stage_file"@[0]);
    assert("unstage_all"@[8] != "unstage_file"@[8]);
    assert("unstage_all"@[0] != "stage_all"@[0]);
    assert("discard_file"@[0] != "get_status"@[0]);
    assert("discard_file"@[0] != "get_branch"@[0]);
    assert("discard_file"@[0] != "stage_file"@[0]);
    assert("discard_file"@[0] != "unstage_file"@[0]);
    assert("discard_file"@[0] != "stage_all"@[0]);
    assert("discard_file"@[0] != "unstage_all"@[0]);
    assert("commit"@[0] != "get_status"@[0]);
    assert("commit"@[0] != "get_branch"@[0]);
    assert("commit"@[0] != "stage_file"@[0]);
    assert("commit"@[0] != "unstage_file"@[0]);
    assert("commit"@[0] != "stage_all"@[0]);
    assert("commit"@[0] != "unstage_all"@[0]);
    assert("commit"@[0] != "discard_file"@[0]);
    assert("get_file_contents_batch"@[4] != "get_status"@[4]);
    assert("get_file_contents_batch"@[4] != "get_branch"@[4]);
    assert("get_file_contents_batch"@[0] != "stage_file"@[0]);
    assert("get_file_contents_batch"@[0] != "unstage_file"@[0]);
    assert("get_file_contents_batch"@[0] != "stage_all"@[0]);
    assert("get_file_contents_batch"@[0] != "unstage_all"@[0]);
    assert("get_file_contents_batch"@[0] != "discard_file"@[0]);
    assert("get_file_contents_batch"@[0] != "commit"@[0]);
}

/// A request built the way the remote backend builds it reaches the same
/// operation on the agent: each method name is its operation, and the
/// `path`, `message` and `amend`, and `requests` parameters come through
/// unchanged, whatever else the parameters hold.
pub proof fn law_requests_reach_their_operation(params: JsonValue, path: Seq<char>, message: Seq<char>, amend: bool)
    ensures
        route_of("get_status"@, params) == Route::Status,
        route_of("get_branch"@, params) == Route::Branch,
        route_of("stage_all"@, params) == Route::StageAll,
        route_of("unstage_all"@, params) == Route::UnstageAll,
        (field_of(params, "path"@) matches Some(JsonValue::Str(p)) && p@ == path) ==> {
            &&& route_of("stage_file"@, params) == Route::Stage(path)
            &&& route_of("unstage_file"@, params) == Route::Unstage(path)
            &&& route_of("discard_file"@, params) == Route::Discard(path)
        },
        (field_of(params, "message"@) matches Some(JsonValue::Str(m)) && m@ == message && field_of(
            params,
            "amend"@,
        ) == Some(JsonValue::Bool(amend))) ==> route_of("commit"@, params) == Route::Commit(
            message,
            amend,
        ),
        field_of(params, "requests"@) matches Some(v) ==> route_of(
            "get_file_contents_batch"@,
            params,
        ) == Route::Batch(v),
{
    lemma_method_names_distinct();
}

/// What a backend call returned.
#[derive(Debug)]
pub enum CallOutcome {
    Status(Result<RepoStatus, BackendError>),
    Branch(Result<Option<String>, BackendError>),
    Unit(Result<(), BackendError>),
    Oid(Result<String, BackendError>),
    Batch(Result<Vec<FileContentsBatchItem>, BackendError>),
}

/// A successful result or a backend error as a response.
pub fn map_result(id: u64, r: Result<JsonValue, BackendError>) -> (resp: Response)
    ensures
        match r {
            Ok(v) => resp.id == id && resp.outcome == ResponseOutcome::Result(v),
            Err(e) => is_error_response(resp, id, APPLICATION_ERROR, error_text(e)),
        },
{
    match r {
        Ok(v) => ok_response(id, v),
        Err(e) => err_response(id, APPLICATION_ERROR, e.message()),
    }
}

/// A unit result (`null`) or a backend error as a response.
pub fn map_unit(id: u64, r: Result<(), BackendError>) -> (resp: Response)
    ensures
        match r {
            Ok(_) => resp.id == id && resp.outcome == ResponseOutcome::Result(JsonValue::Null),
            Err(e) => is_error_response(resp, id, APPLICATION_ERROR, error_text(e)),
        },
{
    match r {
        Ok(()) => ok_response(id, JsonValue::Null),
        Err(e) => err_response(id, APPLICATION_ERROR, e.message()),
    }
}

/// `resp` answers `id` with a result that satisfies `good`.
pub open spec fn is_ok_response(resp: Response, id: u64, good: spec_fn(JsonValue) -> bool) -> bool {
    &&& resp.id == id
    &&& resp.outcome matches ResponseOutcome::Result(v)
    &&& good(v)
}

/// The response that reports what a backend call returned: its result in
/// JSON, or the error's text under the application error code.
pub fn respond(id: u64, outcome: CallOutcome) -> (resp: Response)
    ensures
        match outcome {
            CallOutcome::Status(Ok(s)) => is_ok_response(resp, id, |v: JsonValue| is_status_json(v, s)),
            CallOutcome::Branch(Ok(b)) => is_ok_response(
                resp,
                id,
                |v: JsonValue| is_opt_str_json(v, opt_view(b)),
            ),
            CallOutcome::Unit(Ok(_)) => is_ok_response(resp, id, |v: JsonValue| v is Null),
            CallOutcome::Oid(Ok(o)) => is_ok_response(
                resp,
                id,
                |v: JsonValue| v matches JsonValue::Str(t) && t@ == o@,
            ),
            CallOutcome::Batch(Ok(items)) => is_ok_response(
                resp,
                id,
                |v: JsonValue| is_items_json(v, items@),
            ),
            CallOutcome::Status(Err(e)) => is_error_response(resp, id, APPLICATION_ERROR, error_text(e)),
            CallOutcome::Branch(Err(e)) => is_error_response(resp, id, APPLICATION_ERROR, error_text(e)),
            CallOutcome::Unit(Err(e)) => is_error_response(resp, id, APPLICATION_ERROR, error_text(e)),
            CallOutcome::Oid(Err(e)) => is_error_response(resp, id, APPLICATION_ERROR, error_text(e)),
            CallOutcome::Batch(Err(e)) => is_error_response(resp, id, APPLICATION_ERROR, error_text(e)),
        },
{
    match outcome {
        CallOutcome::Status(r) => match r {
            Ok(s) => map_result(id, Ok(status_json(&s))),
            Err(e) => map_result(id, Err(e)),
        },
        CallOutcome::Branch(r) => match r {
            Ok(b) => map_result(id, Ok(opt_str_json(&b))),
            Err(e) => map_result(id, Err(e)),
        },
        CallOutcome::Unit(r) => map_unit(id, r),
        CallOutcome::Oid(r) => match r {
            Ok(o) => map_result(id, Ok(JsonValue::Str(o))),
            Err(e) => map_result(id, Err(e)),
        },
        CallOutcome::Batch(r) => match r {
            Ok(items) => map_result(id, Ok(items_json(&items))),
            Err(e) => map_result(id, Err(e)),
        },
    }
}

/// The answer to a line that is not valid JSON-RPC: id 0, the parse-error
/// code, and the parser's explanation.
pub fn parse_error_response(detail: &str) -> (resp: Response)
    ensures
        is_error_response(resp, 0, PARSE_ERROR, "parse error: "@ + detail@),
{
    err_response(0, PARSE_ERROR, concat2("parse error: ", detail))
}

} // verus!
