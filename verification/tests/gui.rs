use diff_core::agent::parse_args;
use diff_core::gui::{
    agent_ssh_args, classify_cli, exit_code_from_status, launch_window_target, picker_closed, remote_connect_error, remote_repo_name, repo_basename,
    repo_window_label, select_ssh_hosts, set_launch_spec, window_title, window_url, CliAction,
    LaunchSpec, SshHost,
};
use diff_core::types::BackendError;

fn args(a: &[&str]) -> Vec<String> {
    a.iter().map(|s| s.to_string()).collect()
}

#[test]
fn command_line() {
    assert!(matches!(classify_cli(&args(&["x", "--mcp"])), CliAction::Mcp));
    assert!(matches!(classify_cli(&args(&["-m"])), CliAction::Mcp));
    match classify_cli(&args(&["-v", "box:/srv/r"])) {
        CliAction::OpenRemote { host, path } => {
            assert_eq!(host, "box");
            assert_eq!(path, "/srv/r");
        }
        other => panic!("unexpected {other:?}"),
    }
    match classify_cli(&args(&["/home/u/repo"])) {
        CliAction::OpenLocal(p) => assert_eq!(p, "/home/u/repo"),
        other => panic!("unexpected {other:?}"),
    }
    assert!(matches!(classify_cli(&args(&[])), CliAction::PickerOnly));
    assert!(matches!(classify_cli(&args(&["--verbose"])), CliAction::PickerOnly));
}

#[test]
fn launch_spec_is_set_once() {
    let mut slot = None;
    set_launch_spec(&mut slot, LaunchSpec::Local("/a".into()));
    set_launch_spec(&mut slot, LaunchSpec::Remote { host: "h".into(), path: "/b".into() });
    match slot {
        Some(LaunchSpec::Local(p)) => assert_eq!(p, "/a"),
        other => panic!("unexpected {other:?}"),
    }
}

#[test]
fn exit_codes() {
    assert_eq!(exit_code_from_status(None), 1);
    assert_eq!(exit_code_from_status(Some(0)), 0);
    assert_eq!(exit_code_from_status(Some(3)), 3);
    assert_eq!(exit_code_from_status(Some(-7)), 0);
    assert_eq!(exit_code_from_status(Some(300)), 255);
}

#[test]
fn repo_windows() {
    assert_eq!(repo_window_label(12), "repo-12");
    assert_eq!(repo_basename("/home/u/proj/"), "proj");
    assert_eq!(repo_basename("proj"), "proj");
    assert_eq!(repo_basename("/"), "/");
    assert_eq!(repo_basename(""), "");
    assert_eq!(window_title("local", "/home/u/proj"), "proj");
    assert_eq!(window_title("box", "/srv/proj//"), "box:proj");
    assert_eq!(window_url("box", "/srv/my proj"), "index.html?kind=repo&host=box&path=%2Fsrv%2Fmy%20proj");
    assert_eq!(window_url("loc-al_.~", "é"), "index.html?kind=repo&host=loc-al_.~&path=%C3%A9");
    assert_eq!(remote_repo_name("box", "/srv/r"), "box:/srv/r");
}

#[test]
fn agent_unreachable_message() {
    let m = remote_connect_error("box", BackendError::Transport("agent closed before responding".into()));
    assert_eq!(
        m,
        "Could not connect to diff-agent on box. Install it on the host: git clone https://github.com/fourcadefran/diff && cd diff && cargo build --release --bin diff-agent\n\nDetails: agent closed before responding"
    );
    let m = remote_connect_error("box", BackendError::Protocol { code: -1, message: "nope".into() });
    assert!(m.ends_with("Details: nope"));
    assert_eq!(remote_connect_error("box", BackendError::BareRepo), "bare repositories are not supported");
}

fn host(alias: &str, name: Option<&str>) -> SshHost {
    SshHost { alias: alias.into(), hostname: name.map(Into::into), user: None }
}

#[test]
fn ssh_hosts_are_named_sorted_and_unique() {
    let out = select_ssh_hosts(&vec![
        host("zed", Some("z.example")),
        host("*", None),
        host("alpha", Some("first")),
        host("web-?", None),
        host("alpha", Some("second")),
    ]);
    let aliases: Vec<&str> = out.iter().map(|h| h.alias.as_str()).collect();
    assert_eq!(aliases, vec!["alpha", "zed"]);
    assert_eq!(out[0].hostname.as_deref(), Some("first"));
}

#[test]
fn agent_command_over_ssh() {
    let a = agent_ssh_args("box", "/srv/my repo");
    assert_eq!(
        a,
        args(&["-o", "ClearAllForwardings=yes", "box", "diff-agent", "--stdio", "--repo", "/srv/my repo"])
    );
    let served = parse_args(&a[4..].to_vec()).expect("the agent accepts its arguments");
    assert_eq!(served.repo, "/srv/my repo");
}

#[test]
fn closing_the_picker_ends_the_app() {
    assert!(picker_closed("picker"));
    assert!(!picker_closed("repo-1"));
    assert!(!picker_closed("Picker"));
}

#[test]
fn launch_windows_open_on_their_host() {
    let (h, p) = launch_window_target(&LaunchSpec::Local("/home/u/r".to_string()));
    assert_eq!((h.as_str(), p.as_str()), ("local", "/home/u/r"));
    let (h, p) = launch_window_target(&LaunchSpec::Remote { host: "box".into(), path: "/srv/r".into() });
    assert_eq!((h.as_str(), p.as_str()), ("box", "/srv/r"));
    assert_eq!(window_title(&h, &p), "box:r");
}

#[test]
fn drive_paths_open_locally() {
    match classify_cli(&args(&["C:/Users/x/repo"])) {
        CliAction::OpenLocal(p) => assert_eq!(p, "C:/Users/x/repo"),
        other => panic!("unexpected {other:?}"),
    }
}
