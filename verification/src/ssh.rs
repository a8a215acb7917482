//! The ssh command line for a tablet, and quoting for its shell.
//!
//! The system `ssh` binary does the transport: users get their ssh config, keys, agent and known
//! hosts. Password authentication re-executes the current binary as an askpass helper; the password
//! goes to the helper in an environment variable, never on a command line. Connections are
//! multiplexed by default, so that one logical operation authenticates once.
use vstd::prelude::*;
use crate::action::{from_file, into_file, read_command, write_command};
use crate::error::{agrees, Error, ErrorView};
use crate::number::{decimal, show_u64};
use crate::text::{cat3, extend, from_chars, str_eq, to_chars, trim, trim_in, Class};
pub use crate::device::{DEFAULT_SSH_USER, DEFAULT_USB_HOST};

verus! {

/// Default SSH port.
pub const DEFAULT_SSH_PORT: u16 = 22;

/// Set to `1` on child ssh processes; with it set, the current binary is an askpass helper.
pub const ASKPASS_MODE_ENV: &'static str = "RMU_ASKPASS_MODE";

/// Carries the password to the askpass helper.
pub const ASKPASS_PASSWORD_ENV: &'static str = "RMU_ASKPASS_PASSWORD";

/// How ssh should authenticate.
pub enum Auth {
    /// Whatever the user's ssh config, agent and keys provide.
    Default,
    /// Password authentication through the askpass helper.
    Password(String),
}

impl Default for Auth {
    fn default() -> (r: Self)
        ensures
            r is Default,
    {
        Auth::Default
    }
}

impl Clone for Auth {
    fn clone(&self) -> (r: Self)
        ensures
            match *self {
                Auth::Default => r is Default,
                Auth::Password(p) => r matches Auth::Password(q) && q@ == p@,
            },
    {
        match self {
            Auth::Default => Auth::Default,
            Auth::Password(p) => Auth::Password(p.clone()),
        }
    }
}

impl Auth {
    /// A description that never shows the password.
    pub fn redacted(&self) -> (r: &'static str)
        ensures
            r@ == match *self {
                Auth::Default => "Default"@,
                Auth::Password(_) => "Password(<redacted>)"@,
            },
    {
        match self {
            Auth::Default => "Default",
            Auth::Password(_) => "Password(<redacted>)",
        }
    }
}

/// Connection parameters for a device.
pub struct SshOptions {
    /// ssh destination, passed on verbatim: `host` or `user@host`.
    pub destination: String,
    /// Explicit port; `None` lets ssh config and defaults decide.
    pub port: Option<u16>,
    pub identity_file: Option<String>,
    /// Extra `-o` options passed on verbatim.
    pub extra_options: Vec<String>,
    pub auth: Auth,
    /// Multiplex connections (recommended).
    pub multiplex: bool,
}

impl Default for SshOptions {
    fn default() -> (r: Self)
        ensures
            r.destination@ == DEFAULT_SSH_USER@ + "@"@ + DEFAULT_USB_HOST@,
            r.port is None,
            r.identity_file is None,
            r.extra_options.len() == 0,
            r.auth is Default,
            r.multiplex,
    {
        SshOptions {
            destination: cat3(DEFAULT_SSH_USER, "@", DEFAULT_USB_HOST),
            port: None,
            identity_file: None,
            extra_options: Vec::new(),
            auth: Auth::Default,
            multiplex: true,
        }
    }
}

/// A (possibly multiplexed) ssh session to one device.
pub struct SshSession {
    pub opts: SshOptions,
    /// The binary that answers password prompts.
    pub askpass_exe: Option<String>,
    /// Directory of the multiplexing socket.
    pub control_dir: Option<String>,
}

/// A call of ssh: its arguments, and what is added to its environment.
#[derive(Debug)]
pub struct Invocation {
    pub args: Vec<String>,
    pub env: Vec<(String, String)>,
}

/// The arguments for an option.
pub open spec fn option_args(option: Seq<char>) -> Seq<Seq<char>> {
    seq!["-o"@, option]
}

/// The arguments for the first `n` options.
pub open spec fn options_args(options: Seq<Seq<char>>, n: nat) -> Seq<Seq<char>>
    decreases n,
{
    if n == 0 {
        Seq::empty()
    } else {
        options_args(options, (n - 1) as nat) + option_args(options[n - 1])
    }
}

impl SshSession {
    /// Whether a password is handed to the askpass helper.
    pub open spec fn uses_password(&self) -> bool {
        self.opts.auth is Password && self.askpass_exe is Some
    }

    /// The arguments before the destination: port, identity, extra options, multiplexing, and
    /// password authentication.
    pub open spec fn base_args(&self) -> Seq<Seq<char>> {
        (match self.opts.port {
            Some(port) => seq!["-p"@, decimal(port as nat)],
            None => Seq::empty(),
        }) + (match self.opts.identity_file {
            Some(file) => seq!["-i"@, file@],
            None => Seq::empty(),
        }) + options_args(
            self.opts.extra_options.deep_view(),
            self.opts.extra_options.len() as nat,
        ) + (match self.control_dir {
            Some(dir) => option_args("ControlMaster=auto"@) + option_args(
                "ControlPath="@ + dir@ + "/cm-%C"@,
            ) + option_args("ControlPersist=30"@),
            None => Seq::empty(),
        }) + (if self.uses_password() {
            option_args("PreferredAuthentications=password,keyboard-interactive"@) + option_args(
                "NumberOfPasswordPrompts=1"@,
            ) + option_args("StrictHostKeyChecking=accept-new"@)
        } else {
            Seq::empty()
        })
    }

    /// What is added to the environment: with a password, where the helper is, that it has to be
    /// asked, and the password itself; and a display, without which ssh would not ask it.
    pub open spec fn base_env(&self, display_set: bool) -> Seq<(Seq<char>, Seq<char>)> {
        if self.uses_password() {
            seq![
                ("SSH_ASKPASS"@, self.askpass_exe->Some_0@),
                ("SSH_ASKPASS_REQUIRE"@, "force"@),
                (ASKPASS_MODE_ENV@, "1"@),
                (ASKPASS_PASSWORD_ENV@, self.opts.auth->Password_0@),
            ] + (if display_set {
                Seq::empty()
            } else {
                seq![("DISPLAY"@, ":0"@)]
            })
        } else {
            Seq::empty()
        }
    }

    /// A session with the given options. `exe` is the binary that answers password prompts, which
    /// only password authentication needs; `control_dir` a directory for the multiplexing socket, if
    /// one could be made.
    pub fn new(opts: SshOptions, exe: Option<String>, control_dir: Option<String>) -> (r: Self)
        ensures
            r.opts == opts,
            r.askpass_exe == if opts.auth is Password {
                exe
            } else {
                None
            },
            r.control_dir == if opts.multiplex {
                control_dir
            } else {
                None
            },
    {
        let askpass_exe = match &opts.auth {
            Auth::Password(_) => exe,
            Auth::Default => None,
        };
        let control_dir = if opts.multiplex {
            control_dir
        } else {
            None
        };
        SshSession { opts, askpass_exe, control_dir }
    }

    /// The ssh destination (`host` or `user@host`).
    pub fn target(&self) -> (r: String)
        ensures
            r@ == self.opts.destination@,
    {
        self.opts.destination.clone()
    }

    /// A call of ssh with all options and the environment set, but no destination.
    pub fn base_command(&self, display_set: bool) -> (r: Invocation)
        ensures
            r.args.deep_view() == self.base_args(),
            r.env.deep_view() == self.base_env(display_set),
    {
        let mut args: Vec<String> = Vec::new();
        let mut env: Vec<(String, String)> = Vec::new();
        assert(args.deep_view() =~= Seq::empty());
        if let Some(port) = self.opts.port {
            push_arg(&mut args, "-p");
            let text = show_u64(port as u64);
            push_arg(&mut args, text.as_str());
        }
        if let Some(identity) = &self.opts.identity_file {
            push_arg(&mut args, "-i");
            push_arg(&mut args, identity.as_str());
        }
        let ghost start = args.deep_view();
        let ghost extra = self.opts.extra_options.deep_view();
        let mut i: usize = 0;
        assert(start + options_args(extra, 0) =~= start);
        while i < self.opts.extra_options.len()
            invariant
                i <= self.opts.extra_options.len(),
                extra == self.opts.extra_options.deep_view(),
                args.deep_view() == start + options_args(extra, i as nat),
            decreases self.opts.extra_options.len() - i,
        {
            assert(extra[i as int] == self.opts.extra_options[i as int]@);
            push_option(&mut args, self.opts.extra_options[i].as_str());
            assert(args.deep_view() =~= start + options_args(extra, (i + 1) as nat));
            i += 1;
        }
        if let Some(dir) = &self.control_dir {
            push_option(&mut args, "ControlMaster=auto");
            let path = cat3("ControlPath=", dir.as_str(), "/cm-%C");
            push_option(&mut args, path.as_str());
            push_option(&mut args, "ControlPersist=30");
        }
        if let Auth::Password(password) = &self.opts.auth {
            if let Some(exe) = &self.askpass_exe {
                push_option(
                    &mut args,
                    "PreferredAuthentications=password,keyboard-interactive",
                );
                push_option(&mut args, "NumberOfPasswordPrompts=1");
                // Host-key confirmation prompts would otherwise go to the askpass helper too; this
                // avoids them for first connections while still rejecting changed keys.
                push_option(&mut args, "StrictHostKeyChecking=accept-new");
                env.push(("SSH_ASKPASS".to_owned(), exe.clone()));
                env.push(("SSH_ASKPASS_REQUIRE".to_owned(), "force".to_owned()));
                env.push((ASKPASS_MODE_ENV.to_owned(), "1".to_owned()));
                env.push((ASKPASS_PASSWORD_ENV.to_owned(), password.clone()));
                if !display_set {
                    env.push(("DISPLAY".to_owned(), ":0".to_owned()));
                }
            }
        }
        assert(args.deep_view() =~= self.base_args());
        assert(env.deep_view() =~= self.base_env(display_set));
        Invocation { args, env }
    }

    /// The call of ssh that runs a remote command. `display_set` tells whether the environment
    /// names a display.
    pub fn run(&self, remote_cmd: &str, display_set: bool) -> (r: Invocation)
        ensures
            r.args.deep_view() == self.base_args() + seq![
                "--"@,
                self.opts.destination@,
                remote_cmd@,
            ],
            r.env.deep_view() == self.base_env(display_set),
    {
        let mut call = self.base_command(display_set);
        push_arg(&mut call.args, "--");
        push_arg(&mut call.args, self.opts.destination.as_str());
        push_arg(&mut call.args, remote_cmd);
        assert(call.args.deep_view() =~= self.base_args() + seq![
            "--"@,
            self.opts.destination@,
            remote_cmd@,
        ]);
        call
    }

    /// What a remote command printed, by how it ended; a failure is an error.
    pub fn run_checked(&self, code: Option<i32>, stdout: String, stderr: &str) -> (r: Result<
        String,
        Error,
    >)
        ensures
            agrees(
                r,
                match checked_result(code, stderr@) {
                    Ok(()) => Ok(stdout@),
                    Err(e) => Err(e),
                },
            ),
    {
        match checked(code, stderr) {
            Ok(()) => Ok(stdout),
            Err(e) => Err(e),
        }
    }

    /// [`SshSession::run_checked`] for bytes (e.g. tar streams).
    pub fn run_checked_bytes(&self, code: Option<i32>, stdout: Vec<u8>, stderr: &str) -> (r: Result<
        Vec<u8>,
        Error,
    >)
        ensures
            match r {
                Ok(bytes) => code == Some(0i32) && bytes@ == stdout@,
                Err(e) => checked_result(code, stderr@) == Err::<(), ErrorView>(e.deep_view()),
            },
    {
        match checked(code, stderr) {
            Ok(()) => Ok(stdout),
            Err(e) => Err(e),
        }
    }

    /// The call of ssh that writes its input to a remote file.
    pub fn write_remote_file(&self, remote_path: &str, display_set: bool) -> (r: Invocation)
        ensures
            r.args.deep_view() == self.base_args() + seq![
                "--"@,
                self.opts.destination@,
                into_file(remote_path@),
            ],
            r.env.deep_view() == self.base_env(display_set),
    {
        let command = write_command(remote_path);
        self.run(command.as_str(), display_set)
    }

    /// The call of ssh that prints a remote file.
    pub fn download_remote_file(&self, remote_path: &str, display_set: bool) -> (r: Invocation)
        ensures
            r.args.deep_view() == self.base_args() + seq![
                "--"@,
                self.opts.destination@,
                from_file(remote_path@),
            ],
            r.env.deep_view() == self.base_env(display_set),
    {
        let command = read_command(remote_path);
        self.run(command.as_str(), display_set)
    }

    /// The call of ssh that ends a multiplexed session.
    pub fn teardown(&self, display_set: bool) -> (r: Option<Invocation>)
        ensures
            r is Some <==> self.control_dir is Some,
            r matches Some(call) ==> call.args.deep_view() == self.base_args() + seq![
                "-O"@,
                "exit"@,
                "--"@,
                self.opts.destination@,
            ] && call.env.deep_view() == self.base_env(display_set),
    {
        if self.control_dir.is_none() {
            return None;
        }
        let mut call = self.base_command(display_set);
        push_arg(&mut call.args, "-O");
        push_arg(&mut call.args, "exit");
        push_arg(&mut call.args, "--");
        push_arg(&mut call.args, self.opts.destination.as_str());
        assert(call.args.deep_view() =~= self.base_args() + seq![
            "-O"@,
            "exit"@,
            "--"@,
            self.opts.destination@,
        ]);
        Some(call)
    }
}

fn push_arg(args: &mut Vec<String>, arg: &str)
    ensures
        final(args).deep_view() == old(args).deep_view().push(arg@),
{
    let ghost before = args.deep_view();
    args.push(arg.to_owned());
    assert(args.deep_view() =~= before.push(arg@));
}

fn push_option(args: &mut Vec<String>, option: &str)
    ensures
        final(args).deep_view() == old(args).deep_view() + option_args(option@),
{
    let ghost before = args.deep_view();
    push_arg(args, "-o");
    push_arg(args, option);
    assert(args.deep_view() =~= before + option_args(option@));
}

/// The result of a remote command that ended with the given code (none, if a signal ended it).
pub open spec fn checked_result(code: Option<i32>, stderr: Seq<char>) -> Result<(), ErrorView> {
    if code == Some(0i32) {
        Ok(())
    } else {
        Err(
            ErrorView::Remote {
                status: match code {
                    Some(status) => status,
                    None => -1i32,
                },
                stderr: trim(stderr, Class::White),
            },
        )
    }
}

fn remote_error(code: Option<i32>, stderr: &str) -> (r: Error)
    ensures
        r.deep_view() == (ErrorView::Remote {
            status: match code {
                Some(status) => status,
                None => -1i32,
            },
            stderr: trim(stderr@, Class::White),
        }),
{
    let chars = to_chars(stderr);
    Error::Remote {
        status: match code {
            Some(status) => status,
            None => -1i32,
        },
        stderr: from_chars(trim_in(&chars, &Class::White)),
    }
}

/// Errs unless a remote command succeeded.
pub fn checked(code: Option<i32>, stderr: &str) -> (r: Result<(), Error>)
    ensures
        agrees(r, checked_result(code, stderr@)),
{
    match code {
        Some(0) => Ok(()),
        _ => Err(remote_error(code, stderr)),
    }
}

/// The command that tells whether a host is a tablet: its data directory and its interface binary
/// are there.
pub fn probe_command(xochitl_dir: &str) -> (r: String)
    ensures
        r@ == "test -d "@ + quoted(xochitl_dir@) + " && test -e /usr/bin/xochitl"@,
{
    let dir = shell_quote(xochitl_dir);
    cat3("test -d ", dir.as_str(), " && test -e /usr/bin/xochitl")
}

/// Whether a host is a tablet, by the code that the probe ended with: "reachable but not a tablet"
/// is told from a failure to connect.
pub fn probe_remarkable(code: Option<i32>, stderr: &str) -> (r: Result<bool, Error>)
    ensures
        agrees(
            r,
            if code == Some(0i32) {
                Ok(true)
            } else if code == Some(1i32) {
                Ok(false)
            } else {
                Err(
                    ErrorView::Remote {
                        status: match code {
                            Some(status) => status,
                            None => -1i32,
                        },
                        stderr: trim(stderr@, Class::White),
                    },
                )
            },
        ),
{
    match code {
        Some(0) => Ok(true),
        Some(1) => Ok(false),
        _ => Err(remote_error(code, stderr)),
    }
}

/// What the askpass helper does.
#[derive(Debug)]
pub enum Askpass {
    /// Not called as a helper.
    NotAsked,
    /// Print the password and succeed.
    Answer(String),
    /// Fail.
    Refuse,
}

/// What the askpass helper does, by its environment. Yes/no questions (e.g. on a changed host key)
/// are never answered with the password.
pub fn maybe_run_askpass(mode: Option<String>, prompt: Option<String>, password: Option<String>) -> (r:
    Askpass)
    ensures
        match r {
            Askpass::NotAsked => !(mode matches Some(m) && m@ == "1"@),
            Askpass::Refuse => (mode matches Some(m) && m@ == "1"@) && ((prompt matches Some(p)
                && p@ == "confirm"@) || password is None),
            Askpass::Answer(text) => (mode matches Some(m) && m@ == "1"@) && !(prompt matches Some(p)
                && p@ == "confirm"@) && (password matches Some(w) && text@ == w@),
        },
{
    let asked = match &mode {
        Some(m) => str_eq(m.as_str(), "1"),
        None => false,
    };
    if !asked {
        return Askpass::NotAsked;
    }
    let confirm = match &prompt {
        Some(p) => str_eq(p.as_str(), "confirm"),
        None => false,
    };
    if confirm {
        return Askpass::Refuse;
    }
    match password {
        Some(text) => Askpass::Answer(text),
        None => Askpass::Refuse,
    }
}

/// Whether a character needs no quoting in a shell word.
pub open spec fn is_safe(c: char) -> bool {
    ||| 'a' <= c <= 'z'
    ||| 'A' <= c <= 'Z'
    ||| '0' <= c <= '9'
    ||| c == '.'
    ||| c == '_'
    ||| c == '-'
    ||| c == '/'
    ||| c == '@'
    ||| c == ':'
    ||| c == '+'
    ||| c == ','
    ||| c == '%'
}

/// Whether a text can stand in a shell command as it is.
pub open spec fn is_safe_word(s: Seq<char>) -> bool {
    s.len() > 0 && forall|i: int| 0 <= i < s.len() ==> is_safe(#[trigger] s[i])
}

/// A text with each single quote closed, escaped and opened again.
pub open spec fn quote_body(s: Seq<char>) -> Seq<char>
    decreases s.len(),
{
    if s.len() == 0 {
        Seq::empty()
    } else {
        quote_body(s.drop_last()) + (if s.last() == '\'' {
            seq!['\'', '\\', '\'', '\'']
        } else {
            seq![s.last()]
        })
    }
}

/// A text as one word of a POSIX shell.
pub open spec fn quoted(s: Seq<char>) -> Seq<char> {
    if is_safe_word(s) {
        s
    } else {
        seq!['\''] + quote_body(s) + seq!['\'']
    }
}

fn is_safe_char(c: char) -> (r: bool)
    ensures
        r == is_safe(c),
{
    ('a' <= c && c <= 'z') || ('A' <= c && c <= 'Z') || ('0' <= c && c <= '9') || c == '.' || c
        == '_' || c == '-' || c == '/' || c == '@' || c == ':' || c == '+' || c == ',' || c == '%'
}

/// Quotes a string for a POSIX shell.
pub fn shell_quote(s: &str) -> (r: String)
    ensures
        r@ == quoted(s@),
{
    let chars = to_chars(s);
    let mut safe = chars.len() > 0;
    let mut i: usize = 0;
    while i < chars.len() && safe
        invariant
            i <= chars.len(),
            safe ==> chars.len() > 0,
            safe ==> forall|k: int| 0 <= k < i ==> is_safe(#[trigger] chars@[k]),
            !safe ==> !is_safe_word(chars@),
        decreases chars.len() - i,
    {
        if !is_safe_char(chars[i]) {
            assert(!is_safe(chars@[i as int]));
            safe = false;
        }
        i += 1;
    }
    if safe {
        return s.to_owned();
    }
    let mut out: Vec<char> = Vec::new();
    out.push('\'');
    let escape: [char; 4] = ['\'', '\\', '\'', '\''];
    assert(escape@ =~= seq!['\'', '\\', '\'', '\'']);
    let mut j: usize = 0;
    assert(out@ =~= seq!['\''] + quote_body(chars@.take(0)));
    while j < chars.len()
        invariant
            j <= chars.len(),
            escape@ == seq!['\'', '\\', '\'', '\''],
            out@ == seq!['\''] + quote_body(chars@.take(j as int)),
        decreases chars.len() - j,
    {
        let ghost before = out@;
        let c = chars[j];
        assert(chars@.take(j + 1).drop_last() =~= chars@.take(j as int));
        if c == '\'' {
            extend(&mut out, &escape);
        } else {
            out.push(c);
            assert(out@ =~= before + seq![c]);
        }
        assert(out@ =~= seq!['\''] + quote_body(chars@.take(j + 1)));
        j += 1;
    }
    assert(chars@.take(j as int) =~= chars@);
    out.push('\'');
    assert(out@ =~= quoted(s@));
    from_chars(&out)
}

/// The text that a POSIX shell makes of one word: plain characters stand for themselves, a
/// backslash makes the next character plain, and everything between single quotes is plain. `None`
/// where a quote is left open or a special character stands unquoted.
pub open spec fn shell_word(s: Seq<char>, in_quotes: bool) -> Option<Seq<char>>
    decreases s.len(),
{
    if s.len() == 0 {
        if in_quotes {
            None
        } else {
            Some(Seq::empty())
        }
    } else if s[0] == '\'' {
        shell_word(s.skip(1), !in_quotes)
    } else if in_quotes || is_safe(s[0]) {
        match shell_word(s.skip(1), in_quotes) {
            Some(rest) => Some(seq![s[0]] + rest),
            None => None,
        }
    } else if s[0] == '\\' && s.len() > 1 {
        match shell_word(s.skip(2), false) {
            Some(rest) => Some(seq![s[1]] + rest),
            None => None,
        }
    } else {
        None
    }
}

proof fn safe_words_stand_for_themselves(s: Seq<char>)
    requires
        forall|i: int| 0 <= i < s.len() ==> is_safe(#[trigger] s[i]),
    ensures
        shell_word(s, false) == Some(s),
    decreases s.len(),
{
    if s.len() > 0 {
        assert(is_safe(s[0]));
        assert forall|i: int| 0 <= i < s.skip(1).len() implies is_safe(#[trigger] s.skip(1)[i]) by {
            assert(is_safe(s[i + 1]));
        }
        safe_words_stand_for_themselves(s.skip(1));
        assert(seq![s[0]] + s.skip(1) =~= s);
    } else {
        assert(s =~= Seq::empty());
    }
}

proof fn quote_body_from_front(s: Seq<char>)
    requires
        s.len() > 0,
    ensures
        quote_body(s) == (if s[0] == '\'' {
            seq!['\'', '\\', '\'', '\'']
        } else {
            seq![s[0]]
        }) + quote_body(s.skip(1)),
    decreases s.len(),
{
    let head = if s[0] == '\'' {
        seq!['\'', '\\', '\'', '\'']
    } else {
        seq![s[0]]
    };
    if s.len() == 1 {
        assert(s.drop_last() =~= Seq::empty());
        assert(s.skip(1) =~= Seq::empty());
        assert(quote_body(s) =~= head + quote_body(s.skip(1)));
    } else {
        quote_body_from_front(s.drop_last());
        assert(s.drop_last().skip(1) =~= s.skip(1).drop_last());
        assert(s.skip(1).last() == s.last());
        assert(quote_body(s) =~= head + quote_body(s.skip(1)));
    }
}

proof fn quoted_body_is_plain(s: Seq<char>)
    ensures
        shell_word(quote_body(s) + seq!['\''], true) == Some(s),
    decreases s.len(),
{
    let t = quote_body(s) + seq!['\''];
    if s.len() == 0 {
        assert(t =~= seq!['\'']);
        assert(t.skip(1) =~= Seq::empty());
        assert(shell_word(Seq::empty(), false) == Some(Seq::<char>::empty()));
        assert(s =~= Seq::empty());
    } else {
        quote_body_from_front(s);
        quoted_body_is_plain(s.skip(1));
        let rest = quote_body(s.skip(1)) + seq!['\''];
        assert(seq![s[0]] + s.skip(1) =~= s);
        if s[0] == '\'' {
            assert(t =~= seq!['\'', '\\', '\'', '\''] + rest);
            let t1 = t.skip(1);
            assert(t1 =~= seq!['\\', '\'', '\''] + rest);
            let t3 = t1.skip(2);
            assert(t3 =~= seq!['\''] + rest);
            assert(t3.skip(1) =~= rest);
            assert(shell_word(t3, false) == shell_word(rest, true));
            assert(shell_word(t1, false) == Some(seq!['\''] + s.skip(1)));
        } else {
            assert(t =~= seq![s[0]] + rest);
            assert(t.skip(1) =~= rest);
        }
    }
}

/// The shell makes of a quoted text the text itself, whatever it holds.
pub proof fn quoting_is_undone_by_the_shell(s: Seq<char>)
    ensures
        shell_word(quoted(s), false) == Some(s),
{
    if is_safe_word(s) {
        safe_words_stand_for_themselves(s);
    } else {
        quoted_body_is_plain(s);
        assert(quoted(s).skip(1) =~= quote_body(s) + seq!['\'']);
    }
}

/// The password is never on a command line: the arguments of a call are the same whatever it is.
/// What is added to the environment differs in the one variable that holds it, and in no other.
pub proof fn passwords_stay_off_the_command_line(a: SshSession, b: SshSession, display_set: bool)
    requires
        a.opts.port == b.opts.port,
        a.opts.identity_file == b.opts.identity_file,
        a.opts.extra_options == b.opts.extra_options,
        a.control_dir == b.control_dir,
        a.askpass_exe == b.askpass_exe,
        a.uses_password() == b.uses_password(),
    ensures
        a.base_args() == b.base_args(),
        a.base_env(display_set).len() == b.base_env(display_set).len(),
        forall|i: int|
            0 <= i < a.base_env(display_set).len() ==> {
                &&& (#[trigger] a.base_env(display_set)[i]).0 == b.base_env(display_set)[i].0
                &&& a.base_env(display_set)[i].1 == b.base_env(display_set)[i].1
                    || a.base_env(display_set)[i].0 == ASKPASS_PASSWORD_ENV@
            },
{
}

/// A text stands in a command as it is only where it holds nothing but letters, digits and a few
/// marks that mean nothing to a shell; any other text, the empty one too, is quoted.
pub proof fn only_harmless_words_stand_unquoted(s: Seq<char>)
    ensures
        quoted(s) == s <==> s.len() > 0 && forall|i: int|
            0 <= i < s.len() ==> ('a' <= #[trigger] s[i] <= 'z' || 'A' <= s[i] <= 'Z' || '0' <= s[i]
                <= '9' || s[i] == '.' || s[i] == '_' || s[i] == '-' || s[i] == '/' || s[i] == '@'
                || s[i] == ':' || s[i] == '+' || s[i] == ',' || s[i] == '%'),
        quoted(s) != s ==> quoted(s)[0] == '\'' && quoted(s).last() == '\'',
{
    quoting_never_shortens(s);
    if is_safe_word(s) {
        assert forall|i: int| 0 <= i < s.len() implies ('a' <= #[trigger] s[i] <= 'z' || 'A' <= s[i]
            <= 'Z' || '0' <= s[i] <= '9' || s[i] == '.' || s[i] == '_' || s[i] == '-' || s[i] == '/'
            || s[i] == '@' || s[i] == ':' || s[i] == '+' || s[i] == ',' || s[i] == '%') by {
            assert(is_safe(s[i]));
        }
    } else {
        assert(quoted(s).len() == quote_body(s).len() + 2);
        if s.len() > 0 {
            let i = choose|i: int| 0 <= i < s.len() && !is_safe(#[trigger] s[i]);
            let c = s[i];
        }
    }
}

proof fn quoting_never_shortens(s: Seq<char>)
    ensures
        quote_body(s).len() >= s.len(),
    decreases s.len(),
{
    if s.len() > 0 {
        quoting_never_shortens(s.drop_last());
    }
}

proof fn options_come_in_pairs(options: Seq<Seq<char>>, n: nat, k: int)
    requires
        n <= options.len(),
    ensures
        options_args(options, n).len() == 2 * n,
        0 <= k < n ==> options_args(options, n)[2 * k] == "-o"@ && options_args(options, n)[2 * k
            + 1] == options[k],
    decreases n,
{
    if n > 0 {
        options_come_in_pairs(options, (n - 1) as nat, k);
    }
}

/// Each extra option is handed on behind an `-o`, in order.
pub proof fn extra_options_are_handed_on(options: Seq<Seq<char>>, k: int)
    requires
        0 <= k < options.len(),
    ensures
        options_args(options, options.len()).len() == 2 * options.len(),
        options_args(options, options.len())[2 * k] == "-o"@,
        options_args(options, options.len())[2 * k + 1] == options[k],
{
    options_come_in_pairs(options, options.len(), k);
}

/// A call names the port, the identity and the extra options that were given, in this order, then the
/// shared connection where there is one, and then, where a password is used, that it is the only way to
/// log in and is asked for once. A session that nothing was said of needs no argument at all.
pub proof fn calls_say_what_was_given(session: SshSession)
    ensures
        ({
            let none = Seq::<Seq<char>>::empty();
            let port = match session.opts.port {
                Some(n) => seq!["-p"@, decimal(n as nat)],
                None => none,
            };
            let identity = match session.opts.identity_file {
                Some(file) => seq!["-i"@, file@],
                None => none,
            };
            let extra = options_args(
                session.opts.extra_options.deep_view(),
                session.opts.extra_options.len() as nat,
            );
            let shared = match session.control_dir {
                Some(dir) => seq![
                    "-o"@,
                    "ControlMaster=auto"@,
                    "-o"@,
                    "ControlPath="@ + dir@ + "/cm-%C"@,
                    "-o"@,
                    "ControlPersist=30"@,
                ],
                None => none,
            };
            let asked = if session.opts.auth is Password && session.askpass_exe is Some {
                seq![
                    "-o"@,
                    "PreferredAuthentications=password,keyboard-interactive"@,
                    "-o"@,
                    "NumberOfPasswordPrompts=1"@,
                    "-o"@,
                    "StrictHostKeyChecking=accept-new"@,
                ]
            } else {
                none
            };
            session.base_args() == port + identity + extra + shared + asked
        }),
{
    if let Some(dir) = session.control_dir {
        assert(option_args("ControlMaster=auto"@) + option_args(
            "ControlPath="@ + dir@ + "/cm-%C"@,
        ) + option_args("ControlPersist=30"@) =~= seq![
            "-o"@,
            "ControlMaster=auto"@,
            "-o"@,
            "ControlPath="@ + dir@ + "/cm-%C"@,
            "-o"@,
            "ControlPersist=30"@,
        ]);
    }
    assert(option_args("PreferredAuthentications=password,keyboard-interactive"@) + option_args(
        "NumberOfPasswordPrompts=1"@,
    ) + option_args("StrictHostKeyChecking=accept-new"@) =~= seq![
        "-o"@,
        "PreferredAuthentications=password,keyboard-interactive"@,
        "-o"@,
        "NumberOfPasswordPrompts=1"@,
        "-o"@,
        "StrictHostKeyChecking=accept-new"@,
    ]);
}

/// A password goes to the helper through the environment: nothing else is added, and nothing at all
/// where no password is used. A display is named only where there is none.
pub proof fn passwords_go_to_the_helper(session: SshSession, display_set: bool)
    ensures
        ({
            let env = session.base_env(display_set);
            if session.opts.auth is Password && session.askpass_exe is Some {
                &&& env.len() == if display_set {
                    4nat
                } else {
                    5nat
                }
                &&& env[0] == ("SSH_ASKPASS"@, session.askpass_exe->Some_0@)
                &&& env[1] == ("SSH_ASKPASS_REQUIRE"@, "force"@)
                &&& env[2] == (ASKPASS_MODE_ENV@, "1"@)
                &&& env[3] == (ASKPASS_PASSWORD_ENV@, session.opts.auth->Password_0@)
                &&& !display_set ==> env[4] == ("DISPLAY"@, ":0"@)
            } else {
                env.len() == 0
            }
        }),
{
}

/// A remote command succeeded exactly where its exit code is zero; otherwise the error tells the code,
/// or minus one where a signal ended it, and what it printed.
pub proof fn only_zero_is_success(code: Option<i32>, stderr: Seq<char>)
    ensures
        checked_result(code, stderr) is Ok <==> code == Some(0i32),
        checked_result(code, stderr) matches Err(e) ==> e == (ErrorView::Remote {
            status: if code is Some {
                code->Some_0
            } else {
                -1i32
            },
            stderr: trim(stderr, Class::White),
        }),
{
}

} // verus!
