//! Decisions of the desktop application: the repository named on the command
//! line, repository windows (label, title, address), the message shown when
//! the remote agent cannot be reached, recent repositories and SSH hosts.

use vstd::prelude::*;
use vstd::utf8::encode_utf8;

use crate::order::{is_sorted_unique_order, sorted_unique_order, string_eq};
use crate::paths::{host_path_split, parse_host_path};
use crate::text::{concat2, concat3, decimal, has_prefix, starts_with, u64_to_decimal};
use crate::types::{error_text, BackendError};

verus! {

/// The repository to open at launch, from `diff <path>` or `diff <host>:<path>`.
#[derive(Debug)]
pub enum LaunchSpec {
    Local(String),
    Remote { host: String, path: String },
}

/// The slot after `spec` is offered to it: an empty slot takes it, a full
/// one keeps what it holds.
pub open spec fn launch_after(slot: Option<LaunchSpec>, spec: LaunchSpec) -> Option<LaunchSpec> {
    match slot {
        None => Some(spec),
        Some(s) => Some(s),
    }
}

/// Records the repository to open at launch. Only the first call counts; the
/// slot is never overwritten.
pub fn set_launch_spec(slot: &mut Option<LaunchSpec>, spec: LaunchSpec)
    ensures
        *final(slot) == launch_after(*old(slot), spec),
{
    if slot.is_none() {
        *slot = Some(spec);
    }
}

/// Once a launch repository is recorded, later ones never replace it: after
/// any number of offers the slot holds the first one.
pub proof fn law_launch_spec_first_wins(
    slot: Option<LaunchSpec>,
    first: LaunchSpec,
    later: LaunchSpec,
)
    ensures
        launch_after(launch_after(slot, first), later) == launch_after(slot, first),
        launch_after(launch_after(None, first), later) == Some(first),
{
}

/// The host and path of the window opened at launch: a local repository
/// opens on the host `local`.
pub fn launch_window_target(spec: &LaunchSpec) -> (r: (String, String))
    ensures
        match spec {
            LaunchSpec::Local(p) => r.0@ == "local"@ && r.1@ == p@,
            LaunchSpec::Remote { host, path } => r.0@ == host@ && r.1@ == path@,
        },
{
    match spec {
        LaunchSpec::Local(p) => (String::from_str("local"), p.clone()),
        LaunchSpec::Remote { host, path } => (host.clone(), path.clone()),
    }
}

/// What the desktop application does for its command line.
#[derive(Debug)]
pub enum CliAction {
    /// Run the MCP sidecar instead of the GUI (`--mcp` or `-m`).
    Mcp,
    /// Open the picker and the remote repository `host:path`.
    OpenRemote { host: String, path: String },
    /// Open the picker and the local repository at this (unresolved) path.
    OpenLocal(String),
    /// Open only the picker.
    PickerOnly,
}

/// Whether some argument is `--mcp` or `-m`.
pub open spec fn wants_mcp(args: Seq<Seq<char>>) -> bool {
    exists|i: int| 0 <= i < args.len() && (#[trigger] args[i] == "--mcp"@ || args[i] == "-m"@)
}

/// The position of the first argument that does not start with `-`.
pub open spec fn first_positional(args: Seq<Seq<char>>) -> Option<int>
    decreases args.len(),
{
    if args.len() == 0 {
        None
    } else if !has_prefix(args[0], "-"@) {
        Some(0)
    } else {
        match first_positional(args.drop_first()) {
            Some(i) => Some(i + 1),
            None => None,
        }
    }
}

/// The command-line action as plain values.
pub enum CliView {
    Mcp,
    Remote(Seq<char>, Seq<char>),
    Local(Seq<char>),
    Picker,
}

pub open spec fn cli_view(a: CliAction) -> CliView {
    match a {
        CliAction::Mcp => CliView::Mcp,
        CliAction::OpenRemote { host, path } => CliView::Remote(host@, path@),
        CliAction::OpenLocal(p) => CliView::Local(p@),
        CliAction::PickerOnly => CliView::Picker,
    }
}

/// `--mcp`/`-m` anywhere wins; otherwise the first positional argument is a
/// remote `host:path` when it splits as one, else a local path.
pub open spec fn cli_action(args: Seq<Seq<char>>) -> CliView {
    if wants_mcp(args) {
        CliView::Mcp
    } else {
        match first_positional(args) {
            None => CliView::Picker,
            Some(i) => match host_path_split(args[i]) {
                Some((h, p)) => CliView::Remote(h, p),
                None => CliView::Local(args[i]),
            },
        }
    }
}

proof fn lemma_first_positional_bounds(args: Seq<Seq<char>>)
    ensures
        first_positional(args) matches Some(i) ==> 0 <= i < args.len() && !has_prefix(
            args[i],
            "-"@,
        ),
    decreases args.len(),
{
    if args.len() > 0 && has_prefix(args[0], "-"@) {
        lemma_first_positional_bounds(args.drop_first());
    }
}

/// Classifies the desktop application's command line (without the program name).
pub fn classify_cli(args: &Vec<String>) -> (a: CliAction)
    ensures
        cli_view(a) == cli_action(args@.map_values(|s: String| s@)),
{
    let ghost av = args@.map_values(|s: String| s@);
    let mut i: usize = 0;
    while i < args.len()
        invariant
            i <= args.len(),
            av == args@.map_values(|s: String| s@),
            forall|j: int| 0 <= j < i ==> !(av[j] == "--mcp"@ || av[j] == "-m"@),
        decreases args.len() - i,
    {
        let a = args[i].as_str();
        if string_eq(a, "--mcp") || string_eq(a, "-m") {
            assert(av[i as int] == a@);
            return CliAction::Mcp;
        }
        i = i + 1;
    }
    assert(!wants_mcp(av));
    let mut k: usize = 0;
    assert(av.skip(0) =~= av);
    while k < args.len()
        invariant
            k <= args.len(),
            av == args@.map_values(|s: String| s@),
            !wants_mcp(av),
            first_positional(av) == (match first_positional(av.skip(k as int)) {
                Some(x) => Some(x + k),
                None => None::<int>,
            }),
        decreases args.len() - k,
    {
        proof {
            assert(av.skip(k as int)[0] == av[k as int]);
            assert(av.skip(k as int).drop_first() =~= av.skip(k + 1));
        }
        let a = args[k].as_str();
        assert(av[k as int] == a@);
        if !starts_with(a, "-") {
            assert(first_positional(av.skip(k as int)) == Some(0int));
            return match parse_host_path(a) {
                Some((host, path)) => CliAction::OpenRemote { host, path },
                None => CliAction::OpenLocal(String::from_str(a)),
            };
        }
        k = k + 1;
    }
    CliAction::PickerOnly
}

/// The exit code for a child's status code: 1 when it has none (killed by a
/// signal), clamped into 0..=255.
pub fn exit_code_from_status(code: Option<i32>) -> (r: u8)
    ensures
        r as int == (match code {
            None => 1int,
            Some(c) => if c < 0 {
                0int
            } else if c > 255 {
                255int
            } else {
                c as int
            },
        }),
{
    match code {
        None => 1,
        Some(c) => if c < 0 {
            0
        } else if c > 255 {
            255
        } else {
            c as u8
        },
    }
}

/// The label of the `n`-th repository window.
pub fn repo_window_label(n: u64) -> (s: String)
    ensures
        s@ == "repo-"@ + decimal(n as nat),
{
    let digits = u64_to_decimal(n);
    concat2("repo-", digits.as_str())
}

/// `s` without its trailing `/` characters.
pub open spec fn trim_trailing_slashes(s: Seq<char>) -> Seq<char>
    decreases s.len(),
{
    if s.len() > 0 && s.last() == '/' {
        trim_trailing_slashes(s.drop_last())
    } else {
        s
    }
}

/// What follows the last `/` of `s` (all of `s` when it has none).
pub open spec fn after_last_slash(s: Seq<char>) -> Seq<char>
    decreases s.len(),
{
    if s.len() == 0 {
        s
    } else if s.last() == '/' {
        Seq::empty()
    } else {
        after_last_slash(s.drop_last()).push(s.last())
    }
}

/// The name a repository window shows for `path`: its last non-empty
/// `/`-segment, or the whole path when there is none.
pub open spec fn window_basename(path: Seq<char>) -> Seq<char> {
    let b = after_last_slash(trim_trailing_slashes(path));
    if b.len() > 0 {
        b
    } else {
        path
    }
}

/// The basename of a repository path.
pub fn repo_basename(path: &str) -> (b: String)
    ensures
        b@ == window_basename(path@),
{
    let n = path.unicode_len();
    let mut end: usize = n;
    assert(path@.take(n as int) =~= path@);
    while end > 0 && path.get_char(end - 1) == '/'
        invariant
            n == path@.len(),
            end <= n,
            trim_trailing_slashes(path@) == trim_trailing_slashes(path@.take(end as int)),
        decreases end,
    {
        proof {
            assert(path@.take(end as int).drop_last() =~= path@.take(end - 1));
        }
        end = end - 1;
    }
    assert(trim_trailing_slashes(path@.take(end as int)) == path@.take(end as int));
    let ghost t = path@.take(end as int);
    let mut start: usize = end;
    assert(t.take(end as int) =~= t);
    while start > 0 && path.get_char(start - 1) != '/'
        invariant
            start <= end <= n,
            n == path@.len(),
            t == path@.take(end as int),
            after_last_slash(t) == after_last_slash(t.take(start as int)) + t.subrange(
                start as int,
                end as int,
            ),
        decreases start,
    {
        proof {
            let u = t.take(start as int);
            assert(u.drop_last() =~= t.take(start - 1));
            assert(u.last() == t[start - 1]);
            assert(t.subrange(start - 1, end as int) =~= seq![t[start - 1]] + t.subrange(
                start as int,
                end as int,
            ));
            assert(after_last_slash(u) == after_last_slash(t.take(start - 1)).push(t[start - 1]));
            assert(after_last_slash(t.take(start - 1)).push(t[start - 1]) + t.subrange(
                start as int,
                end as int,
            ) =~= after_last_slash(t.take(start - 1)) + t.subrange(start - 1, end as int));
        }
        start = start - 1;
    }
    proof {
        let u = t.take(start as int);
        if start > 0 {
            assert(u.last() == '/');
        }
        assert(after_last_slash(u).len() == 0);
        assert(after_last_slash(t) =~= t.subrange(start as int, end as int));
    }
    if start < end {
        let b = path.substring_char(start, end);
        assert(b@ =~= path@.subrange(start as int, end as int));
        String::from_str(b)
    } else {
        String::from_str(path)
    }
}

/// The title of a repository window: the basename for a local repository,
/// `host:basename` for a remote one.
pub fn window_title(host: &str, path: &str) -> (t: String)
    ensures
        host@ == "local"@ ==> t@ == window_basename(path@),
        host@ != "local"@ ==> t@ == host@ + ":"@ + window_basename(path@),
{
    let b = repo_basename(path);
    if string_eq(host, "local") {
        b
    } else {
        concat3(host, ":", b.as_str())
    }
}

/// Bytes that a URL component keeps as they are: ASCII letters and digits
/// and `-`, `.`, `_`, `~`.
pub open spec fn url_safe(b: u8) -> bool {
    ||| 48 <= b <= 57
    ||| 65 <= b <= 90
    ||| 97 <= b <= 122
    ||| b == 45
    ||| b == 46
    ||| b == 95
    ||| b == 126
}

/// An upper-case hexadecimal digit.
pub open spec fn hex_digit(d: nat) -> char {
    if d < 10 {
        (48 + d) as char
    } else {
        (55 + d) as char
    }
}

/// Percent-encoding of the bytes `bs`: safe bytes as they are, every other
/// byte as `%` and two upper-case hexadecimal digits.
pub open spec fn percent_encoded(bs: Seq<u8>) -> Seq<char>
    decreases bs.len(),
{
    if bs.len() == 0 {
        Seq::empty()
    } else {
        let b = bs[0];
        let head = if url_safe(b) {
            seq![b as char]
        } else {
            seq!['%', hex_digit((b / 16) as nat), hex_digit((b % 16) as nat)]
        };
        head + percent_encoded(bs.drop_first())
    }
}

/// `urlencoding::encode`: percent-encodes the UTF-8 bytes of `s` except
/// ASCII letters, digits and `-._~`, with upper-case hex digits.
#[verifier::external_body]
fn url_encode(s: &str) -> (r: String)
    ensures
        r@ == percent_encoded(encode_utf8(s@)),
{
    urlencoding::encode(s).into_owned()
}

/// The page a repository window loads: the frontend reads `host` and `path`
/// from the query string.
pub fn window_url(host: &str, path: &str) -> (u: String)
    ensures
        u@ == "index.html?kind=repo&host="@ + percent_encoded(encode_utf8(host@)) + "&path="@
            + percent_encoded(encode_utf8(path@)),
{
    let h = url_encode(host);
    let p = url_encode(path);
    let mut u = concat2("index.html?kind=repo&host=", h.as_str());
    u.append("&path=");
    u.append(p.as_str());
    u
}

/// The message shown when the agent on `host` does not answer its first
/// call: installation instructions for transport and agent errors, the
/// error's own text otherwise.
pub open spec fn connect_failure(host: Seq<char>, e: BackendError) -> Seq<char> {
    match e {
        BackendError::Transport(m) => install_hint(host, m@),
        BackendError::Protocol { message, .. } => install_hint(host, message@),
        _ => error_text(e),
    }
}

/// The installation instructions for the agent on `host`, with the details.
pub open spec fn install_hint(host: Seq<char>, details: Seq<char>) -> Seq<char> {
    "Could not connect to diff-agent on "@ + host
        + ". Install it on the host: git clone https://github.com/fourcadefran/diff && cd diff && cargo build --release --bin diff-agent\n\nDetails: "@
        + details
}

/// The message for a remote repository whose agent did not answer.
pub fn remote_connect_error(host: &str, e: BackendError) -> (m: String)
    ensures
        m@ == connect_failure(host@, e),
{
    let details = match &e {
        BackendError::Transport(m) => m.as_str(),
        BackendError::Protocol { message, .. } => message.as_str(),
        _ => {
            return e.message();
        },
    };
    let mut m = concat3(
        "Could not connect to diff-agent on ",
        host,
        ". Install it on the host: git clone https://github.com/fourcadefran/diff && cd diff && cargo build --release --bin diff-agent\n\nDetails: ",
    );
    m.append(details);
    m
}

/// The name under which a remote repository window reports what it opened.
pub fn remote_repo_name(host: &str, path: &str) -> (s: String)
    ensures
        s@ == host@ + ":"@ + path@,
{
    concat3(host, ":", path)
}

/// The arguments of `ssh` that start the agent for `path` on `host`: no port
/// forwarding (the agent talks over stdio only), then the agent's command.
pub open spec fn agent_ssh_command(host: Seq<char>, path: Seq<char>) -> Seq<Seq<char>> {
    seq![
        "-o"@,
        "ClearAllForwardings=yes"@,
        host,
        "diff-agent"@,
        "--stdio"@,
        "--repo"@,
        path,
    ]
}

/// The arguments of `ssh` that start the agent for `path` on `host`.
pub fn agent_ssh_args(host: &str, path: &str) -> (args: Vec<String>)
    ensures
        args@.map_values(|a: String| a@) == agent_ssh_command(host@, path@),
{
    let mut args: Vec<String> = Vec::new();
    args.push(String::from_str("-o"));
    args.push(String::from_str("ClearAllForwardings=yes"));
    args.push(String::from_str(host));
    args.push(String::from_str("diff-agent"));
    args.push(String::from_str("--stdio"));
    args.push(String::from_str("--repo"));
    args.push(String::from_str(path));
    assert(args@.map_values(|a: String| a@) =~= agent_ssh_command(host@, path@));
    args
}

/// The agent that the desktop application starts on a host serves exactly the
/// repository it was asked to open: the agent's own arguments in the `ssh`
/// command are accepted and name that path, whatever the path.
pub proof fn law_started_agent_serves_the_path(host: Seq<char>, path: Seq<char>)
    ensures
        agent_ssh_command(host, path).skip(4) == seq!["--stdio"@, "--repo"@, path],
        crate::agent::agent_args(agent_ssh_command(host, path).skip(4)) == Ok::<
            Seq<char>,
            Seq<char>,
        >(path),
{
    assert(agent_ssh_command(host, path).skip(4) =~= seq!["--stdio"@, "--repo"@, path]);
    crate::agent::law_agent_args_serve_the_given_repo(path);
}

/// Whether closing the window `label` ends the application: only closing the
/// picker does.
pub fn picker_closed(label: &str) -> (exit: bool)
    ensures
        exit == (label@ == "picker"@),
{
    string_eq(label, "picker")
}

/// A repository opened recently on a host.
#[derive(Debug)]
pub struct RecentRepo {
    pub host: String,
    pub path: String,
    /// Unix epoch seconds.
    pub last_opened_at: i64,
}

/// A host alias from the SSH configuration.
#[derive(Debug)]
pub struct SshHost {
    pub alias: String,
    pub hostname: Option<String>,
    pub user: Option<String>,
}

/// An SSH host as plain values.
pub open spec fn host_view(h: SshHost) -> (Seq<char>, Option<Seq<char>>, Option<Seq<char>>) {
    (h.alias@, match h.hostname {
        Some(s) => Some(s@),
        None => None,
    }, match h.user {
        Some(s) => Some(s@),
        None => None,
    })
}

/// An alias with `*` or `?` is a pattern, not a host to offer.
pub open spec fn is_wildcard(alias: Seq<char>) -> bool {
    alias.contains('*') || alias.contains('?')
}

/// The named hosts among the first `n` candidates, in order.
pub open spec fn named_hosts(cands: Seq<SshHost>, n: int) -> Seq<
    (Seq<char>, Option<Seq<char>>, Option<Seq<char>>),
>
    decreases n,
{
    if n <= 0 {
        Seq::empty()
    } else {
        let rest = named_hosts(cands, n - 1);
        if is_wildcard(cands[n - 1].alias@) {
            rest
        } else {
            rest.push(host_view(cands[n - 1]))
        }
    }
}

/// The aliases of host views.
pub open spec fn aliases_of(hs: Seq<(Seq<char>, Option<Seq<char>>, Option<Seq<char>>)>) -> Seq<
    Seq<char>,
> {
    hs.map_values(|h: (Seq<char>, Option<Seq<char>>, Option<Seq<char>>)| h.0)
}

fn copy_opt(o: &Option<String>) -> (r: Option<String>)
    ensures
        match (o, r) {
            (Some(a), Some(b)) => a@ == b@,
            (None, None) => true,
            _ => false,
        },
{
    match o {
        Some(s) => Some(s.clone()),
        None => None,
    }
}

fn copy_host(h: &SshHost) -> (r: SshHost)
    ensures
        host_view(r) == host_view(*h),
{
    SshHost { alias: h.alias.clone(), hostname: copy_opt(&h.hostname), user: copy_opt(&h.user) }
}

proof fn lemma_named_hosts_members(cands: Seq<SshHost>, n: int)
    requires
        0 <= n <= cands.len(),
    ensures
        forall|i: int|
            0 <= i < n && !cands[i].alias@.contains('*') && !cands[i].alias@.contains('?')
                ==> named_hosts(cands, n).contains(#[trigger] host_view(cands[i])),
        forall|k: int|
            0 <= k < named_hosts(cands, n).len() ==> !(#[trigger] named_hosts(cands, n)[k]).0.contains(
                '*',
            ) && !named_hosts(cands, n)[k].0.contains('?'),
    decreases n,
{
    if n > 0 {
        lemma_named_hosts_members(cands, n - 1);
        let rest = named_hosts(cands, n - 1);
        let all = named_hosts(cands, n);
        assert forall|i: int|
            0 <= i < n && !cands[i].alias@.contains('*') && !cands[i].alias@.contains('?') implies all.contains(
                #[trigger] host_view(cands[i]),
            ) by {
            if i < n - 1 {
                let k = choose|k: int| 0 <= k < rest.len() && rest[k] == host_view(cands[i]);
                if !is_wildcard(cands[n - 1].alias@) {
                    assert(all[k] == rest[k]);
                }
            } else {
                assert(all[rest.len() as int] == host_view(cands[i]));
            }
        };
        assert forall|k: int| 0 <= k < all.len() implies !(#[trigger] all[k]).0.contains('*')
            && !all[k].0.contains('?') by {
            if k < rest.len() {
                assert(all[k] == rest[k]);
            }
        };
    }
}

/// Every host that the SSH configuration names without a pattern is
/// offered: a candidate whose alias holds neither `*` nor `?` has its alias
/// among the hosts the order picks, and every picked host's alias holds
/// neither.
pub proof fn law_named_hosts_are_offered(cands: Seq<SshHost>, order: Seq<usize>)
    requires
        is_sorted_unique_order(aliases_of(named_hosts(cands, cands.len() as int)), order),
    ensures
        forall|i: int|
            0 <= i < cands.len() && !cands[i].alias@.contains('*') && !cands[i].alias@.contains('?')
                ==> exists|k: int|
                0 <= k < order.len() && #[trigger] named_hosts(cands, cands.len() as int)[order[k] as int].0
                    == cands[i].alias@,
        forall|k: int|
            0 <= k < order.len() ==> !(#[trigger] named_hosts(cands, cands.len() as int)[order[k] as int]).0.contains(
                '*',
            ) && !named_hosts(cands, cands.len() as int)[order[k] as int].0.contains('?'),
{
    let hs = named_hosts(cands, cands.len() as int);
    let keys = aliases_of(hs);
    lemma_named_hosts_members(cands, cands.len() as int);
    assert forall|i: int|
        0 <= i < cands.len() && !cands[i].alias@.contains('*') && !cands[i].alias@.contains('?') implies exists|k: int|
            0 <= k < order.len() && #[trigger] hs[order[k] as int].0 == cands[i].alias@ by {
        assert(hs.contains(host_view(cands[i])));
        let m = choose|m: int| 0 <= m < hs.len() && hs[m] == host_view(cands[i]);
        assert(keys[m] == cands[i].alias@);
        let k = choose|k: int| 0 <= k < order.len() && keys[#[trigger] order[k] as int] == #[trigger] keys[m];
        assert(order[k] < keys.len());
        assert(keys[order[k] as int] == hs[order[k] as int].0);
    };
    assert forall|k: int| 0 <= k < order.len() implies !(#[trigger] hs[order[k] as int]).0.contains('*')
        && !hs[order[k] as int].0.contains('?') by {
        assert(order[k] < keys.len());
    };
}

/// The hosts to offer from the host entries of an SSH configuration (one
/// candidate per pattern of each `Host` block): wildcard patterns are left
/// out, the rest sorted by alias with one entry per alias, the first met.
pub fn select_ssh_hosts(candidates: &Vec<SshHost>) -> (out: Vec<SshHost>)
    ensures
        forall|i: int|
            0 <= i < candidates@.len() && !candidates@[i].alias@.contains('*')
                && !candidates@[i].alias@.contains('?') ==> exists|k: int|
                0 <= k < out@.len() && #[trigger] out@[k].alias@ == candidates@[i].alias@,
        forall|k: int|
            0 <= k < out@.len() ==> !(#[trigger] out@[k].alias@).contains('*') && !out@[k].alias@.contains(
                '?',
            ),
        exists|order: Seq<usize>|
            #[trigger] is_sorted_unique_order(
                aliases_of(named_hosts(candidates@, candidates@.len() as int)),
                order,
            ) && out@.map_values(|h: SshHost| host_view(h)) == order.map_values(
                |i: usize| named_hosts(candidates@, candidates@.len() as int)[i as int],
            ),
{
    let mut named: Vec<SshHost> = Vec::new();
    let mut keys: Vec<String> = Vec::new();
    let mut i: usize = 0;
    while i < candidates.len()
        invariant
            i <= candidates.len(),
            named@.map_values(|h: SshHost| host_view(h)) == named_hosts(candidates@, i as int),
            keys@.map_values(|k: String| k@) == aliases_of(named_hosts(candidates@, i as int)),
        decreases candidates.len() - i,
    {
        let a = candidates[i].alias.as_str();
        let wild = crate::text::contains_char(a, '*') || crate::text::contains_char(a, '?');
        if !wild {
            let h = copy_host(&candidates[i]);
            let k = candidates[i].alias.clone();
            proof {
                assert(named@.push(h).map_values(|h: SshHost| host_view(h)) =~= named@.map_values(
                    |h: SshHost| host_view(h),
                ).push(host_view(h)));
                assert(keys@.push(k).map_values(|k: String| k@) =~= keys@.map_values(
                    |k: String| k@,
                ).push(k@));
                assert(aliases_of(named_hosts(candidates@, i + 1)) =~= aliases_of(
                    named_hosts(candidates@, i as int),
                ).push(k@));
            }
            named.push(h);
            keys.push(k);
        }
        i = i + 1;
    }
    let ghost hs = named_hosts(candidates@, candidates@.len() as int);
    let order = sorted_unique_order(&keys);
    let mut out: Vec<SshHost> = Vec::new();
    let mut j: usize = 0;
    while j < order.len()
        invariant
            j <= order.len(),
            hs == named@.map_values(|h: SshHost| host_view(h)),
            keys@.map_values(|k: String| k@) == aliases_of(hs),
            is_sorted_unique_order(keys@.map_values(|k: String| k@), order@),
            named@.len() == keys@.len(),
            out@.map_values(|h: SshHost| host_view(h)) == order@.take(j as int).map_values(
                |i: usize| hs[i as int],
            ),
        decreases order.len() - j,
    {
        let idx = order[j];
        proof {
            assert(order@[j as int] < keys@.len());
        }
        let h = copy_host(&named[idx]);
        proof {
            assert(out@.push(h).map_values(|h: SshHost| host_view(h)) =~= out@.map_values(
                |h: SshHost| host_view(h),
            ).push(host_view(h)));
            assert(order@.take(j + 1).map_values(|i: usize| hs[i as int]) =~= order@.take(
                j as int,
            ).map_values(|i: usize| hs[i as int]).push(hs[idx as int]));
        }
        out.push(h);
        j = j + 1;
    }
    assert(order@.take(order@.len() as int) =~= order@);
    proof {
        law_named_hosts_are_offered(candidates@, order@);
        let ov = out@.map_values(|h: SshHost| host_view(h));
        assert forall|k: int| 0 <= k < out@.len() implies out@[k].alias@ == hs[order@[k] as int].0 by {
            assert(ov[k] == host_view(out@[k]));
        };
        assert forall|i: int|
            0 <= i < candidates@.len() && !candidates@[i].alias@.contains('*')
                && !candidates@[i].alias@.contains('?') implies exists|k: int|
                0 <= k < out@.len() && #[trigger] out@[k].alias@ == candidates@[i].alias@ by {
            let k = choose|k: int|
                0 <= k < order@.len() && #[trigger] hs[order@[k] as int].0 == candidates@[i].alias@;
            assert(out@[k].alias@ == hs[order@[k] as int].0);
        };
        assert forall|k: int| 0 <= k < out@.len() implies !(#[trigger] out@[k].alias@).contains('*')
            && !out@[k].alias@.contains('?') by {
            assert(out@[k].alias@ == hs[order@[k] as int].0);
        };
    }
    out
}

} // verus!
