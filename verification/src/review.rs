//! The review bridge: the comments a review submits, the checks they pass
//! before leaving, how the review server's answer is read, the server's
//! addresses, and the event stream it pushes back.

use vstd::prelude::*;

use crate::order::string_eq;
use crate::paths::{join_path, joined};
use crate::text::{blank, concat2, concat3, decimal, has_prefix, is_blank, starts_with, u64_to_decimal};

verus! {

/// What a review comment asks of the author.
#[derive(Debug, Clone, Copy, PartialEq, Eq, Structural)]
pub enum ActionType {
    ChangeRequest,
    Question,
    Nit,
}

/// A comment on a line range of a file.
#[derive(Debug)]
pub struct ReviewComment {
    pub key: String,
    pub file_path: String,
    pub line_start: u32,
    pub line_end: u32,
    pub comment: String,
    pub action_type: ActionType,
}

/// The id the server gave to the comment with `key`.
#[derive(Debug)]
pub struct CommentIdMapping {
    pub key: String,
    pub id: String,
}

/// What a submitted review reports back to the frontend.
#[derive(Debug)]
pub struct SubmitReviewResponse {
    pub submitted_count: usize,
    pub comment_ids: Vec<CommentIdMapping>,
}

/// A comment's status changed on the server (pushed over the event stream).
#[derive(Debug)]
pub struct CommentStatusChanged {
    pub review_id: String,
    pub comment_id: String,
    pub status: String,
    pub summary: Option<String>,
    pub dismiss_reason: Option<String>,
}

/// The review server's answer to a submission, as it arrives.
#[derive(Debug)]
pub struct SubmitResponse {
    pub ok: bool,
    pub accepted_count: Option<usize>,
    pub comment_ids: Option<Vec<CommentIdMapping>>,
    pub error: Option<String>,
}

/// What is wrong with one comment, if anything.
pub open spec fn comment_problem(c: ReviewComment) -> Option<Seq<char>> {
    if blank(c.file_path@) {
        Some("review comment file path cannot be empty"@)
    } else if blank(c.comment@) {
        Some("review comment text cannot be empty"@)
    } else if c.line_end < c.line_start {
        Some(
            "invalid line range for "@ + c.file_path@ + ": "@ + decimal(c.line_start as nat) + ".."@
                + decimal(c.line_end as nat),
        )
    } else {
        None
    }
}

/// The problem of the first faulty comment among the first `n`.
pub open spec fn first_problem(cs: Seq<ReviewComment>, n: int) -> Option<Seq<char>>
    decreases n,
{
    if n <= 0 {
        None
    } else {
        match first_problem(cs, n - 1) {
            Some(p) => Some(p),
            None => comment_problem(cs[n - 1]),
        }
    }
}

proof fn lemma_first_problem_stays(cs: Seq<ReviewComment>, n: int, m: int)
    requires
        n <= m,
        first_problem(cs, n) is Some,
    ensures
        first_problem(cs, m) == first_problem(cs, n),
    decreases m - n,
{
    if n < m {
        lemma_first_problem_stays(cs, n, m - 1);
    }
}

/// A review is refused when it is empty or when a comment has a blank file
/// path, a blank text or a range that ends before it starts; the first faulty
/// comment is reported.
pub open spec fn review_problem(cs: Seq<ReviewComment>) -> Option<Seq<char>> {
    if cs.len() == 0 {
        Some("cannot submit an empty review"@)
    } else {
        first_problem(cs, cs.len() as int)
    }
}

fn check_comment(c: &ReviewComment) -> (r: Result<(), String>)
    ensures
        match comment_problem(*c) {
            None => r is Ok,
            Some(p) => r matches Err(m) && m@ == p,
        },
{
    if is_blank(c.file_path.as_str()) {
        return Err(String::from_str("review comment file path cannot be empty"));
    }
    if is_blank(c.comment.as_str()) {
        return Err(String::from_str("review comment text cannot be empty"));
    }
    if c.line_end < c.line_start {
        let mut m = concat3("invalid line range for ", c.file_path.as_str(), ": ");
        let a = u64_to_decimal(c.line_start as u64);
        let b = u64_to_decimal(c.line_end as u64);
        m.append(a.as_str());
        m.append("..");
        m.append(b.as_str());
        return Err(m);
    }
    Ok(())
}

/// Checks a review before it is submitted.
pub fn validate_comments(comments: &Vec<ReviewComment>) -> (r: Result<(), String>)
    ensures
        match review_problem(comments@) {
            None => r is Ok,
            Some(p) => r matches Err(m) && m@ == p,
        },
{
    if comments.len() == 0 {
        return Err(String::from_str("cannot submit an empty review"));
    }
    let mut i: usize = 0;
    while i < comments.len()
        invariant
            i <= comments.len(),
            first_problem(comments@, i as int) is None,
        decreases comments.len() - i,
    {
        let r = check_comment(&comments[i]);
        match r {
            Err(m) => {
                proof {
                    lemma_first_problem_stays(comments@, i + 1, comments@.len() as int);
                }
                return Err(m);
            },
            Ok(()) => {},
        }
        i = i + 1;
    }
    Ok(())
}

/// The outcome of a submission: refused with the server's reason (or
/// "unknown error"), refused when the server did not say how many comments
/// it accepted, and otherwise the count with the comment ids (none when the
/// server sent none).
pub fn interpret_submit_response(resp: SubmitResponse) -> (r: Result<SubmitReviewResponse, String>)
    ensures
        !resp.ok ==> (r matches Err(m) && m@ == "review server rejected submission: "@ + (
        match resp.error {
            Some(e) => e@,
            None => "unknown error"@,
        })),
        resp.ok && resp.accepted_count is None ==> (r matches Err(m) && m@
            == "server omitted accepted_count"@),
        resp.ok && resp.accepted_count is Some ==> (r matches Ok(s) && s.submitted_count
            == resp.accepted_count->0 && s.comment_ids@ == (match resp.comment_ids {
            Some(ids) => ids@,
            None => Seq::empty(),
        })),
{
    if !resp.ok {
        let msg = match resp.error {
            Some(e) => e,
            None => String::from_str("unknown error"),
        };
        return Err(concat2("review server rejected submission: ", msg.as_str()));
    }
    match resp.accepted_count {
        None => Err(String::from_str("server omitted accepted_count")),
        Some(submitted_count) => {
            let comment_ids = match resp.comment_ids {
                Some(ids) => ids,
                None => Vec::new(),
            };
            Ok(SubmitReviewResponse { submitted_count, comment_ids })
        },
    }
}

/// The local address of the review server on `port`.
pub open spec fn base_url(port: u16) -> Seq<char> {
    "http://127.0.0.1:"@ + decimal(port as nat)
}

/// The review server's base URL.
pub fn server_base_url(port: u16) -> (s: String)
    ensures
        s@ == base_url(port),
{
    let digits = u64_to_decimal(port as u64);
    concat2("http://127.0.0.1:", digits.as_str())
}

/// The review server's URL for `route` (such as "/health").
pub fn server_url(port: u16, route: &str) -> (s: String)
    ensures
        s@ == base_url(port) + route@,
{
    let mut s = server_base_url(port);
    s.append(route);
    s
}

/// The directory that holds the bridge's state: `.diff` under the home
/// directory (`HOME`, else `USERPROFILE`).
pub fn state_dir(home: Option<String>, user_profile: Option<String>) -> (r: Result<String, String>)
    ensures
        match (home, user_profile) {
            (Some(h), _) => r matches Ok(d) && d@ == joined(h@, ".diff"@),
            (None, Some(u)) => r matches Ok(d) && d@ == joined(u@, ".diff"@),
            (None, None) => r matches Err(m) && m@ == "failed to resolve home directory"@,
        },
{
    let base = match home {
        Some(h) => h,
        None => match user_profile {
            Some(u) => u,
            None => {
                return Err(String::from_str("failed to resolve home directory"));
            },
        },
    };
    Ok(join_path(base.as_str(), ".diff"))
}

/// Where the running review server records its port.
pub fn server_info_path(home: Option<String>, user_profile: Option<String>) -> (r: Result<
    String,
    String,
>)
    ensures
        match (home, user_profile) {
            (Some(h), _) => r matches Ok(d) && d@ == joined(joined(h@, ".diff"@), "review-bridge.json"@),
            (None, Some(u)) => r matches Ok(d) && d@ == joined(
                joined(u@, ".diff"@),
                "review-bridge.json"@,
            ),
            (None, None) => r matches Err(m) && m@ == "failed to resolve home directory"@,
        },
{
    let dir = state_dir(home, user_profile)?;
    Ok(join_path(dir.as_str(), "review-bridge.json"))
}

/// The two places where the sidecar script may lie under `root`:
/// `sidecar/diff-mcp.js`, then `diff-mcp.js`.
pub fn sidecar_candidates(root: &str) -> (r: (String, String))
    ensures
        r.0@ == joined(joined(root@, "sidecar"@), "diff-mcp.js"@),
        r.1@ == joined(root@, "diff-mcp.js"@),
{
    let dir = join_path(root, "sidecar");
    (join_path(dir.as_str(), "diff-mcp.js"), join_path(root, "diff-mcp.js"))
}

/// The sidecar script under `root`, given which of the two candidates exist;
/// the nested one wins.
pub fn sidecar_script_path(root: &str, nested_exists: bool, flat_exists: bool) -> (r: Result<
    String,
    String,
>)
    ensures
        nested_exists ==> (r matches Ok(p) && p@ == joined(
            joined(root@, "sidecar"@),
            "diff-mcp.js"@,
        )),
        !nested_exists && flat_exists ==> (r matches Ok(p) && p@ == joined(root@, "diff-mcp.js"@)),
        !nested_exists && !flat_exists ==> (r matches Err(m) && m@ == "missing sidecar script (checked "@
            + joined(joined(root@, "sidecar"@), "diff-mcp.js"@) + " and "@ + joined(
            root@,
            "diff-mcp.js"@,
        ) + ")"@),
{
    let (nested, flat) = sidecar_candidates(root);
    if nested_exists {
        return Ok(nested);
    }
    if flat_exists {
        return Ok(flat);
    }
    let mut m = concat3("missing sidecar script (checked ", nested.as_str(), " and ");
    m.append(flat.as_str());
    m.append(")");
    Err(m)
}

/// The state of a reader of the server's event stream: the event name and
/// the data gathered for the message being read.
#[derive(Debug)]
pub struct SseParser {
    pub event_name: String,
    pub data: String,
}

/// The event that a finished message is relayed for.
pub open spec fn relayed_event() -> Seq<char> {
    "comment_status_changed"@
}

/// One line of the event stream applied to the reader's event name and data:
/// the new name and data, and the data of a finished message to relay.
pub open spec fn sse_step(event: Seq<char>, data: Seq<char>, line: Seq<char>) -> (
    Seq<char>,
    Seq<char>,
    Option<Seq<char>>,
) {
    if has_prefix(line, "event: "@) {
        (line.skip(7), data, None)
    } else if has_prefix(line, "data: "@) {
        (event, data + line.skip(6), None)
    } else if line.len() == 0 {
        (
            Seq::empty(),
            Seq::empty(),
            if event == relayed_event() && data.len() > 0 {
                Some(data)
            } else {
                None
            },
        )
    } else {
        (event, data, None)
    }
}

/// A status-change message reaches the frontend whatever came before it: the
/// lines `event: comment_status_changed`, `data: <payload>` and a blank line
/// relay the data gathered with the payload, and the reader starts afresh.
pub proof fn law_status_message_is_relayed(event: Seq<char>, data: Seq<char>, payload: Seq<char>)
    requires
        payload.len() > 0,
    ensures
        ({
            let s1 = sse_step(event, data, "event: "@ + relayed_event());
            let s2 = sse_step(s1.0, s1.1, "data: "@ + payload);
            sse_step(s2.0, s2.1, Seq::empty()) == (
                Seq::<char>::empty(),
                Seq::<char>::empty(),
                Some(data + payload),
            )
        }),
{
    reveal_strlit("event: ");
    reveal_strlit("data: ");
    let l1 = "event: "@ + relayed_event();
    assert(l1.take(7) =~= "event: "@);
    assert(l1.skip(7) =~= relayed_event());
    let l2 = "data: "@ + payload;
    assert(l2.take(6) =~= "data: "@);
    assert(l2.skip(6) =~= payload);
    if l2.len() >= 7 {
        assert(l2.take(7)[0] != "event: "@[0]);
    }
    assert(!has_prefix(l2, "event: "@));
}

/// Each kind of line does one thing, whatever the reader holds: an
/// `event: ` line names the event, a `data: ` line appends its text to the
/// data without a separator, and a blank line ends the message, relaying its
/// data only when the event is the status change and there is data, and
/// starting afresh; no other line relays anything.
pub proof fn law_event_stream_lines(event: Seq<char>, data: Seq<char>, text: Seq<char>, line: Seq<char>)
    ensures
        sse_step(event, data, "event: "@ + text) == (text, data, None::<Seq<char>>),
        sse_step(event, data, "data: "@ + text) == (event, data + text, None::<Seq<char>>),
        sse_step(event, data, Seq::empty()) == (
            Seq::<char>::empty(),
            Seq::<char>::empty(),
            if event == relayed_event() && data.len() > 0 {
                Some(data)
            } else {
                None
            },
        ),
        line.len() > 0 ==> sse_step(event, data, line).2 is None,
{
    reveal_strlit("event: ");
    reveal_strlit("data: ");
    let l1 = "event: "@ + text;
    assert(l1.take(7) =~= "event: "@);
    assert(l1.skip(7) =~= text);
    let l2 = "data: "@ + text;
    assert(l2.take(6) =~= "data: "@);
    assert(l2.skip(6) =~= text);
    if l2.len() >= 7 {
        assert(l2.take(7)[0] != "event: "@[0]);
    }
    assert(!has_prefix(l2, "event: "@));
}

impl SseParser {
    /// A reader before the first line.
    pub fn new() -> (p: Self)
        ensures
            p.event_name@.len() == 0,
            p.data@.len() == 0,
    {
        SseParser { event_name: String::new(), data: String::new() }
    }

    /// Takes one line of the stream. An `event: ` line names the event, a
    /// `data: ` line appends to the data, and a blank line ends the message:
    /// its data is handed back when the event is the status change and there
    /// is data, and the reader starts afresh. Other lines (`:` comments, keep
    /// alives) change nothing.
    pub fn feed_line(&mut self, line: &str) -> (r: Option<String>)
        ensures
            sse_step(old(self).event_name@, old(self).data@, line@) == (
                final(self).event_name@,
                final(self).data@,
                match r {
                    Some(d) => Some(d@),
                    None => None,
                },
            ),
    {
        let n = line.unicode_len();
        proof {
            reveal_strlit("event: ");
            reveal_strlit("data: ");
        }
        if starts_with(line, "event: ") {
            let rest = line.substring_char(7, n);
            self.event_name = String::from_str(rest);
            None
        } else if starts_with(line, "data: ") {
            let rest = line.substring_char(6, n);
            self.data.append(rest);
            None
        } else if n == 0 {
            let relay = string_eq(self.event_name.as_str(), "comment_status_changed")
                && self.data.as_str().unicode_len() > 0;
            let data = self.data.clone();
            self.data = String::new();
            self.event_name = String::new();
            if relay {
                Some(data)
            } else {
                None
            }
        } else {
            None
        }
    }
}

} // verus!
