//! Restarting the tablet's interface.
//!
//! Its service has a strict start limit: after a few restarts in a short time a plain restart can
//! reboot the whole tablet. The failure state is reset first, so that maintenance restarts do not
//! count against that limit.
use vstd::prelude::*;
use crate::client::Client;
use crate::error::{agrees, Error, ErrorView};
use crate::number::{decimal_i, show_i64};
use crate::text::{cat3, cat5, from_chars, same, to_chars, trim, trim_in, Class};

verus! {

/// Resets the failure state of the service; whether that works does not matter.
pub const RESET_COMMAND: &'static str = "systemctl reset-failed xochitl.service";

/// Restarts the service.
pub const RESTART_COMMAND: &'static str = "systemctl restart xochitl.service";

/// Asks whether the service runs.
pub const CHECK_COMMAND: &'static str = "systemctl is-active xochitl.service";

/// How far a restart is. Each stage has a command to run; what comes of it leads to the next one.
#[derive(Debug)]
pub enum Restart {
    /// The failure state is reset.
    Resetting,
    /// The service is restarted.
    Restarting,
    /// The restart command did not succeed. It can drop the connection even though the service
    /// comes back, so after a while the service is asked for.
    Checking { code: Option<i32>, stderr: String },
}

/// What a [`Restart`] holds.
pub enum RestartView {
    Resetting,
    Restarting,
    Checking { code: Option<i32>, stderr: Seq<char> },
}

impl DeepView for Restart {
    type V = RestartView;

    open spec fn deep_view(&self) -> RestartView {
        match *self {
            Restart::Resetting => RestartView::Resetting,
            Restart::Restarting => RestartView::Restarting,
            Restart::Checking { code, stderr } => RestartView::Checking { code, stderr: stderr@ },
        }
    }
}

/// An exit code for people to read.
pub open spec fn code_text(code: Option<i32>) -> Seq<char> {
    match code {
        Some(n) => "Some("@ + decimal_i(n as int) + ")"@,
        None => "None"@,
    }
}

fn show_code(code: Option<i32>) -> (r: String)
    ensures
        r@ == code_text(code),
{
    match code {
        Some(n) => {
            let shown = show_i64(n as i64);
            cat3("Some(", shown.as_str(), ")")
        },
        None => "None".to_owned(),
    }
}

/// What is said of a restart that failed.
pub open spec fn failure_text(
    code: Option<i32>,
    stderr: Seq<char>,
    check_code: Option<i32>,
    stdout: Seq<char>,
) -> Seq<char> {
    "restart exit="@ + code_text(code) + " stderr='"@ + trim(stderr, Class::White)
        + "'; is-active exit="@ + code_text(check_code) + " stdout='"@ + trim(stdout, Class::White)
        + "'"@
}

/// The stage behind another, by how its command ended (no code, if a signal ended it); none, where
/// the service runs.
pub open spec fn stage_after(
    stage: RestartView,
    code: Option<i32>,
    stdout: Seq<char>,
    stderr: Seq<char>,
) -> Result<Option<RestartView>, ErrorView> {
    match stage {
        RestartView::Resetting => Ok(Some(RestartView::Restarting)),
        RestartView::Restarting => if code == Some(0i32) {
            Ok(None)
        } else {
            Ok(Some(RestartView::Checking { code, stderr }))
        },
        RestartView::Checking { code: first, stderr: errors } => if code == Some(0i32) && trim(
            stdout,
            Class::White,
        ) == "active"@ {
            Ok(None)
        } else {
            Err(ErrorView::XochitlRestart(failure_text(first, errors, code, stdout)))
        },
    }
}

impl<P> Client<P> {
    /// Begins to restart the interface.
    pub fn restart_xochitl(&self) -> (r: Restart)
        ensures
            r.deep_view() == RestartView::Resetting,
    {
        Restart::Resetting
    }
}

impl Restart {
    /// The command to run.
    pub fn command(&self) -> (r: &'static str)
        ensures
            r@ == match self.deep_view() {
                RestartView::Resetting => RESET_COMMAND@,
                RestartView::Restarting => RESTART_COMMAND@,
                RestartView::Checking { .. } => CHECK_COMMAND@,
            },
    {
        match self {
            Restart::Resetting => RESET_COMMAND,
            Restart::Restarting => RESTART_COMMAND,
            Restart::Checking { .. } => CHECK_COMMAND,
        }
    }

    /// Whether to wait a second before the command.
    pub fn waits(&self) -> (r: bool)
        ensures
            r == (self.deep_view() is Checking),
    {
        match self {
            Restart::Checking { .. } => true,
            _ => false,
        }
    }

    /// Whether it does not matter that the command cannot be run at all.
    pub fn is_optional(&self) -> (r: bool)
        ensures
            r == (self.deep_view() is Resetting),
    {
        match self {
            Restart::Resetting => true,
            _ => false,
        }
    }

    /// The stage behind this one, by how the command ended and what it printed; none, where the
    /// service runs.
    pub fn next(&self, code: Option<i32>, stdout: &str, stderr: &str) -> (r: Result<
        Option<Restart>,
        Error,
    >)
        ensures
            agrees(r, stage_after(self.deep_view(), code, stdout@, stderr@)),
    {
        let succeeded = match code {
            Some(0) => true,
            _ => false,
        };
        match self {
            Restart::Resetting => Ok(Some(Restart::Restarting)),
            Restart::Restarting => {
                if succeeded {
                    Ok(None)
                } else {
                    Ok(Some(Restart::Checking { code, stderr: stderr.to_owned() }))
                }
            },
            Restart::Checking { code: first, stderr: errors } => {
                let printed = to_chars(stdout);
                let shown = trim_in(&printed, &Class::White);
                if succeeded && same(shown, &to_chars("active")) {
                    return Ok(None);
                }
                let errors = to_chars(errors.as_str());
                let errors = from_chars(trim_in(&errors, &Class::White));
                let first = show_code(*first);
                let second = show_code(code);
                let head = cat5(
                    "restart exit=",
                    first.as_str(),
                    " stderr='",
                    errors.as_str(),
                    "'; is-active exit=",
                );
                let shown = from_chars(shown);
                let text = cat5(head.as_str(), second.as_str(), " stdout='", shown.as_str(), "'");
                Err(Error::XochitlRestart(text))
            },
        }
    }
}

/// A restart always resets the failure state first and goes on to the restart whatever came of that. A
/// restart that succeeded is the end; otherwise the service is asked for, and only a service that says
/// that it is active counts as running.
pub proof fn restarts_end_with_a_running_service(
    code: Option<i32>,
    stdout: Seq<char>,
    stderr: Seq<char>,
    first: Option<i32>,
    errors: Seq<char>,
)
    ensures
        stage_after(RestartView::Resetting, code, stdout, stderr) == Ok::<
            Option<RestartView>,
            ErrorView,
        >(Some(RestartView::Restarting)),
        stage_after(RestartView::Restarting, code, stdout, stderr) == Ok::<
            Option<RestartView>,
            ErrorView,
        >(None) <==> code == Some(0i32),
        code != Some(0i32) ==> stage_after(RestartView::Restarting, code, stdout, stderr) == Ok::<
            Option<RestartView>,
            ErrorView,
        >(Some(RestartView::Checking { code, stderr })),
        stage_after(RestartView::Checking { code: first, stderr: errors }, code, stdout, stderr)
            is Ok <==> code == Some(0i32) && trim(stdout, Class::White) == "active"@,
        stage_after(
            RestartView::Checking { code: first, stderr: errors },
            code,
            stdout,
            stderr,
        ) matches Ok(next) ==> next is None,
        stage_after(
            RestartView::Checking { code: first, stderr: errors },
            code,
            stdout,
            stderr,
        ) matches Err(e) ==> e is XochitlRestart && (first matches Some(n) ==> (code matches Some(m)
            ==> e->XochitlRestart_0 == "restart exit="@ + ("Some("@ + decimal_i(n as int) + ")"@)
            + " stderr='"@ + trim(errors, Class::White) + "'; is-active exit="@ + ("Some("@
            + decimal_i(m as int) + ")"@) + " stdout='"@ + trim(stdout, Class::White) + "'"@)),
{
}

} // verus!
