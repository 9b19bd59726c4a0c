//! The client side of the protocol: the requests the remote backend sends,
//! how a response becomes a result, and what the reader does with each
//! frame that arrives from the agent.

use std::collections::HashMap;

use vstd::prelude::*;

use crate::agent::is_error_response;
use crate::json::{field_of, JsonValue};
use crate::order::string_eq;
use crate::protocol::{JsonRpcVersion, Message, Request, Response, ResponseOutcome};
use crate::types::{BackendError, FileContentsRequest};
use crate::wire::is_str_json;

verus! {

/// A request frame for `method` with `params`.
pub fn build_request(id: u64, method: &str, params: JsonValue) -> (r: Request)
    ensures
        r.id == id,
        r.method@ == method@,
        r.params == params,
{
    Request { jsonrpc: JsonRpcVersion, id, method: String::from_str(method), params }
}

/// The result of a call as its response gives it: the value, or the
/// agent's error as a protocol error with its code and message.
pub open spec fn result_of(resp: Response) -> Result<JsonValue, BackendError> {
    match resp.outcome {
        ResponseOutcome::Result(v) => Ok(v),
        ResponseOutcome::Error(e) => Err(BackendError::Protocol { code: e.code, message: e.message }),
    }
}

/// The result of a call from its response.
pub fn response_result(resp: Response) -> (r: Result<JsonValue, BackendError>)
    ensures
        r == result_of(resp),
{
    match resp.outcome {
        ResponseOutcome::Result(v) => Ok(v),
        ResponseOutcome::Error(e) => Err(BackendError::Protocol { code: e.code, message: e.message }),
    }
}

/// What the agent answers reaches the caller unchanged: a result as that
/// value, a refusal or a backend failure as a protocol error with the same
/// code and text.
pub proof fn law_answers_reach_the_caller(resp: Response, id: u64, code: i32, message: Seq<char>)
    ensures
        is_error_response(resp, id, code, message) ==> (result_of(resp) matches Err(
            BackendError::Protocol { code: c, message: m },
        ) && c == code && m@ == message),
        resp.outcome matches ResponseOutcome::Result(v) ==> result_of(resp) == Ok::<
            JsonValue,
            BackendError,
        >(v),
{
}

/// What the reader does with a frame from the agent.
#[derive(Debug)]
pub enum FrameAction {
    /// Hand the response to the caller waiting for its id.
    Deliver(Response),
    /// Tell the subscriber that the repository changed.
    NotifyChanged,
    /// Nothing: other notifications, and requests (a server sends none).
    Ignore,
}

/// The notification that the working tree or the index changed.
pub open spec fn changed_method() -> Seq<char> {
    "repo:changed"@
}

/// Responses go to their callers; a `repo:changed` notification reaches the
/// subscriber; anything else is dropped.
pub fn frame_action(msg: Message) -> (a: FrameAction)
    ensures
        match msg {
            Message::Response(r) => a == FrameAction::Deliver(r),
            Message::Notification(n) => if n.method@ == changed_method() {
                a is NotifyChanged
            } else {
                a is Ignore
            },
            Message::Request(_) => a is Ignore,
        },
{
    match msg {
        Message::Response(r) => FrameAction::Deliver(r),
        Message::Notification(n) => {
            if string_eq(n.method.as_str(), "repo:changed") {
                FrameAction::NotifyChanged
            } else {
                FrameAction::Ignore
            }
        },
        Message::Request(_) => FrameAction::Ignore,
    }
}

fn key(s: &str) -> (r: String)
    ensures
        r@ == s@,
{
    String::from_str(s)
}

/// The parameters `{"path": path}`.
pub fn path_params(path: &str) -> (v: JsonValue)
    ensures
        field_of(v, "path"@) matches Some(JsonValue::Str(p)) && p@ == path@,
{
    let mut f: Vec<(String, JsonValue)> = Vec::new();
    f.push((key("path"), JsonValue::Str(String::from_str(path))));
    proof {
        reveal_strlit("path");
        assert(f@.drop_first().len() == 0);
    }
    JsonValue::Object(f)
}

/// The parameters `{"message": message, "amend": amend}`.
pub fn commit_params(message: &str, amend: bool) -> (v: JsonValue)
    ensures
        field_of(v, "message"@) matches Some(JsonValue::Str(m)) && m@ == message@,
        field_of(v, "amend"@) == Some(JsonValue::Bool(amend)),
{
    let mut f: Vec<(String, JsonValue)> = Vec::new();
    f.push((key("message"), JsonValue::Str(String::from_str(message))));
    f.push((key("amend"), JsonValue::Bool(amend)));
    proof {
        reveal_strlit("message");
        reveal_strlit("amend");
        assert("amend"@ != "message"@) by {
            assert("amend"@.len() != "message"@.len());
        };
        assert(f@.drop_first()[0] == f@[1]);
        assert(f@.drop_first().drop_first().len() == 0);
        assert(crate::json::first_field(f@.drop_first(), "amend"@) == Some(f@[1].1));
        assert(f@[0].0@ != "amend"@);
    }
    JsonValue::Object(f)
}

/// `v` is the JSON object of a file request.
pub open spec fn is_request_json(v: JsonValue, r: FileContentsRequest) -> bool {
    v matches JsonValue::Object(f) && f@.len() == 2 && f@[0].0@ == "path"@ && is_str_json(
        f@[0].1,
        r.path@,
    ) && f@[1].0@ == "staged"@ && f@[1].1 == JsonValue::Bool(r.staged)
}

/// The parameters `{"requests": [...]}` of a batch of file requests.
pub fn batch_params(requests: &Vec<FileContentsRequest>) -> (v: JsonValue)
    ensures
        field_of(v, "requests"@) matches Some(JsonValue::Array(a)) && a@.len() == requests@.len()
            && forall|i: int| 0 <= i < a@.len() ==> is_request_json(#[trigger] a@[i], requests@[i]),
{
    let mut a: Vec<JsonValue> = Vec::new();
    let mut i: usize = 0;
    while i < requests.len()
        invariant
            i <= requests.len(),
            a@.len() == i,
            forall|j: int| 0 <= j < i ==> is_request_json(#[trigger] a@[j], requests@[j]),
        decreases requests.len() - i,
    {
        let mut f: Vec<(String, JsonValue)> = Vec::new();
        f.push((key("path"), JsonValue::Str(requests[i].path.clone())));
        f.push((key("staged"), JsonValue::Bool(requests[i].staged)));
        a.push(JsonValue::Object(f));
        i = i + 1;
    }
    let mut f: Vec<(String, JsonValue)> = Vec::new();
    f.push((key("requests"), JsonValue::Array(a)));
    proof {
        reveal_strlit("requests");
        assert(f@.drop_first().len() == 0);
    }
    JsonValue::Object(f)
}

/// The calls that wait for their responses: each call gets the next id, and
/// a response goes to the waiter registered under its id.
pub struct PendingCalls<T> {
    next_id: u64,
    waiting: HashMap<u64, T>,
}

impl<T> PendingCalls<T> {
    /// The id the next call gets.
    pub closed spec fn next(&self) -> u64 {
        self.next_id
    }

    /// The waiters, by the id of their call.
    pub closed spec fn waiters(&self) -> Map<u64, T> {
        self.waiting@
    }

    /// Ids are handed out in increasing order from 1, so every waiting call
    /// holds an id below the next one.
    pub closed spec fn wf(&self) -> bool {
        &&& self.next_id >= 1
        &&& forall|k: u64| #[trigger] self.waiting@.contains_key(k) ==> k < self.next_id
    }

    /// No call is waiting; the first call gets id 1.
    pub fn new() -> (p: Self)
        ensures
            p.wf(),
            p.next() == 1,
            p.waiters() == Map::<u64, T>::empty(),
    {
        PendingCalls { next_id: 1, waiting: HashMap::new() }
    }

    /// Whether another call can get an id.
    pub fn can_register(&self) -> (b: bool)
        ensures
            b == (self.next() < u64::MAX),
    {
        self.next_id < u64::MAX
    }

    /// Registers a waiter under a fresh id and returns the id: no waiting
    /// call holds it, and no later call gets it again.
    pub fn register(&mut self, waiter: T) -> (id: u64)
        requires
            old(self).wf(),
            old(self).next() < u64::MAX,
        ensures
            final(self).wf(),
            id == old(self).next(),
            final(self).next() == id + 1,
            !old(self).waiters().contains_key(id),
            final(self).waiters() == old(self).waiters().insert(id, waiter),
    {
        broadcast use vstd::std_specs::hash::group_hash_axioms;

        let id = self.next_id;
        self.waiting.insert(id, waiter);
        self.next_id = id + 1;
        id
    }

    /// Takes the waiter registered under `id`, if one is; it is then no longer
    /// waiting, so a second response with the same id reaches nobody.
    pub fn take(&mut self, id: u64) -> (r: Option<T>)
        requires
            old(self).wf(),
        ensures
            final(self).wf(),
            final(self).next() == old(self).next(),
            final(self).waiters() == old(self).waiters().remove(id),
            match r {
                Some(w) => old(self).waiters().contains_key(id) && old(self).waiters()[id] == w,
                None => !old(self).waiters().contains_key(id),
            },
    {
        broadcast use vstd::std_specs::hash::group_hash_axioms;

        self.waiting.remove(&id)
    }

    /// The agent went away: no call waits any longer.
    pub fn clear(&mut self)
        requires
            old(self).wf(),
        ensures
            final(self).wf(),
            final(self).next() == old(self).next(),
            final(self).waiters() == Map::<u64, T>::empty(),
    {
        self.waiting.clear();
    }
}

} // verus!
