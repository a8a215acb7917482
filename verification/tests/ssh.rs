use libremarkable_utils::device::Device;
use libremarkable_utils::error::Error;
use libremarkable_utils::progress::{copy_with_progress, Progress, Transfer};
use libremarkable_utils::ssh::{
    checked, maybe_run_askpass, probe_command, probe_remarkable, shell_quote, Askpass, Auth,
    SshOptions, SshSession,
};
use std::cell::RefCell;

#[test]
fn default_ssh_target() {
    assert_eq!(Device::default().ssh_target(), "root@10.11.99.1");
}

#[test]
fn quote_passthrough_for_safe_strings() {
    assert_eq!(
        shell_quote("/home/root/.local/share"),
        "/home/root/.local/share"
    );
    assert_eq!(shell_quote("abc-123_x.y"), "abc-123_x.y");
}

struct Recorder(RefCell<Vec<(u64, Option<u64>)>>);

impl Progress for Recorder {
    fn step(&self, _: &str) {}
    fn bytes(&self, transferred: u64, total: Option<u64>) {
        self.0.borrow_mut().push((transferred, total));
    }
    fn bytes_done(&self) {}
    fn finished(&self) {}
}

#[test]
fn copy_reports_progress() {
    let data = vec![7u8; 100 * 1024]; // spans two 64 KiB chunks
    let recorder = Recorder(RefCell::new(Vec::new()));
    let mut out = Vec::new();
    let copied = copy_with_progress(&data[..], &mut out, Some(data.len() as u64), &recorder);
    assert_eq!(copied, data.len() as u64);
    assert_eq!(out, data);
    let events = recorder.0.borrow();
    assert_eq!(events.len(), 2);
    assert_eq!(events[0], (64 * 1024, Some(100 * 1024)));
    assert_eq!(events[1], (100 * 1024, Some(100 * 1024)));
}

#[test]
fn copying_appends_and_reports_nothing_for_no_bytes() {
    let recorder = Recorder(RefCell::new(Vec::new()));
    let mut out = vec![1u8];
    assert_eq!(copy_with_progress(&[], &mut out, None, &recorder), 0);
    assert_eq!(out, [1]);
    assert!(recorder.0.borrow().is_empty());
}

#[test]
fn transfers_count_their_bytes() {
    let mut transfer = Transfer::new(Some(10));
    assert_eq!(transfer.advance(4), (4, Some(10)));
    assert_eq!(transfer.advance(6), (10, Some(10)));
}

#[test]
fn quote_wraps_unsafe_strings() {
    assert_eq!(shell_quote("a b"), "'a b'");
    assert_eq!(shell_quote(""), "''");
    assert_eq!(shell_quote("x=y"), "'x=y'");
    assert_eq!(shell_quote("it's"), r"'it'\''s'");
    assert_eq!(shell_quote("$(rm -rf /)"), "'$(rm -rf /)'");
}

/// What a POSIX shell makes of a word of plain characters, quotes and backslashes.
fn unquote(word: &str) -> String {
    let mut out = String::new();
    let mut chars = word.chars();
    let mut quoted = false;
    while let Some(c) = chars.next() {
        match c {
            '\'' => quoted = !quoted,
            '\\' if !quoted => out.extend(chars.next()),
            _ => out.push(c),
        }
    }
    assert!(!quoted);
    out
}

#[test]
fn the_shell_undoes_quoting() {
    for text in ["", "plain", "it's", "''", "'", "a'b'c", "back\\slash", "\u{e9}\n\t$x"] {
        assert_eq!(unquote(&shell_quote(text)), text);
    }
}

fn session(auth: Auth, multiplex: bool) -> SshSession {
    let opts = SshOptions {
        destination: "me@tablet".to_string(),
        port: Some(2222),
        identity_file: Some("/keys/id".to_string()),
        extra_options: vec!["BatchMode=yes".to_string()],
        auth,
        multiplex,
    };
    SshSession::new(
        opts,
        Some("/bin/rmu".to_string()),
        Some("/tmp/rmu-12345678".to_string()),
    )
}

#[test]
fn calls_carry_all_options() {
    let call = session(Auth::Default, true).run("uname -a", false);
    assert_eq!(
        call.args,
        [
            "-p",
            "2222",
            "-i",
            "/keys/id",
            "-o",
            "BatchMode=yes",
            "-o",
            "ControlMaster=auto",
            "-o",
            "ControlPath=/tmp/rmu-12345678/cm-%C",
            "-o",
            "ControlPersist=30",
            "--",
            "me@tablet",
            "uname -a"
        ]
    );
    assert!(call.env.is_empty());
}

#[test]
fn passwords_go_through_the_environment_only() {
    let session = session(Auth::Password("hunter2".to_string()), false);
    assert!(session.control_dir.is_none());
    let call = session.run("true", false);
    assert!(!call.args.iter().any(|arg| arg.contains("hunter2")));
    assert!(call.args.contains(&"NumberOfPasswordPrompts=1".to_string()));
    assert_eq!(
        call.env,
        [
            ("SSH_ASKPASS".to_string(), "/bin/rmu".to_string()),
            ("SSH_ASKPASS_REQUIRE".to_string(), "force".to_string()),
            ("RMU_ASKPASS_MODE".to_string(), "1".to_string()),
            ("RMU_ASKPASS_PASSWORD".to_string(), "hunter2".to_string()),
            ("DISPLAY".to_string(), ":0".to_string()),
        ]
    );
    assert_eq!(session.run("true", true).env.len(), 4);
    assert_eq!(session.opts.auth.redacted(), "Password(<redacted>)");
}

#[test]
fn only_multiplexed_sessions_are_torn_down() {
    assert!(session(Auth::Default, false).teardown(true).is_none());
    let call = session(Auth::Default, true).teardown(true).unwrap();
    let n = call.args.len();
    assert_eq!(call.args[n - 4..], ["-O", "exit", "--", "me@tablet"]);
}

#[test]
fn files_are_read_and_written_by_quoted_paths() {
    let session = session(Auth::Default, true);
    let call = session.write_remote_file("/d/a b.metadata", true);
    assert_eq!(call.args.last().unwrap(), "cat > '/d/a b.metadata'");
    let call = session.download_remote_file("/d/a.pdf", true);
    assert_eq!(call.args.last().unwrap(), "cat /d/a.pdf");
}

#[test]
fn exit_codes_become_results() {
    assert!(checked(Some(0), "noise").is_ok());
    match checked(Some(9), "  gone\n") {
        Err(Error::Remote { status, stderr }) => {
            assert_eq!(status, 9);
            assert_eq!(stderr, "gone");
        }
        other => panic!("expected Remote, got {other:?}"),
    }
    match checked(None, "") {
        Err(e) => assert_eq!(e.message(), "remote command exited with status -1: "),
        Ok(()) => panic!("a signal is no success"),
    }
    let session = session(Auth::Default, true);
    assert_eq!(
        session.run_checked(Some(0), "out".to_string(), "").unwrap(),
        "out"
    );
    assert!(session.run_checked(Some(1), "out".to_string(), "").is_err());
    assert_eq!(
        session.run_checked_bytes(Some(0), vec![1, 2], "").unwrap(),
        [1, 2]
    );
    assert!(session.run_checked_bytes(None, vec![1, 2], "").is_err());
}

#[test]
fn probing_tells_tablets_from_other_hosts_and_failures() {
    assert_eq!(
        probe_command("/home/x y"),
        "test -d '/home/x y' && test -e /usr/bin/xochitl"
    );
    assert!(probe_remarkable(Some(0), "").unwrap());
    assert!(!probe_remarkable(Some(1), "").unwrap());
    assert!(matches!(
        probe_remarkable(Some(255), "no route"),
        Err(Error::Remote { status: 255, .. })
    ));
}

#[test]
fn passwords_change_one_variable() {
    let one = session(Auth::Password("p1".to_string()), true).base_command(false);
    let other = session(Auth::Password("p2".to_string()), true).base_command(false);
    assert_eq!(one.args, other.args);
    assert_eq!(one.env.len(), other.env.len());
    let differing: Vec<_> = one.env.iter().zip(&other.env).filter(|(a, b)| a != b).collect();
    assert_eq!(differing.len(), 1);
    assert_eq!(differing[0].0, &("RMU_ASKPASS_PASSWORD".to_string(), "p1".to_string()));
    assert_eq!(differing[0].1, &("RMU_ASKPASS_PASSWORD".to_string(), "p2".to_string()));
}

#[test]
fn the_helper_answers_password_prompts_alone() {
    let some = |s: &str| Some(s.to_string());
    assert!(matches!(
        maybe_run_askpass(None, None, some("pw")),
        Askpass::NotAsked
    ));
    assert!(matches!(
        maybe_run_askpass(some("0"), None, some("pw")),
        Askpass::NotAsked
    ));
    assert!(matches!(
        maybe_run_askpass(some("1"), some("confirm"), some("pw")),
        Askpass::Refuse
    ));
    assert!(matches!(
        maybe_run_askpass(some("1"), None, None),
        Askpass::Refuse
    ));
    match maybe_run_askpass(some("1"), some("none"), some("pw")) {
        Askpass::Answer(password) => assert_eq!(password, "pw"),
        other => panic!("expected an answer, got {other:?}"),
    }
}
