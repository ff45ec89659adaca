//! The broker's command line, and how the macOS helper dispatches a request.

use crate::broker::protocol::{success, Request, RequestView, Response, ResponseView};
use crate::model::opt_view;
use crate::text::{same, views};
use vstd::prelude::*;

verus! {

/// A command of the macOS helper.
#[derive(Debug, Clone, Copy, PartialEq, Eq, Structural)]
pub enum HelperCommand {
    Run,
    Install,
    Uninstall,
    Status,
    /// None of them: say how the helper is used.
    Usage,
}

/// The command that a word names.
pub open spec fn helper_command_of(word: Option<Seq<char>>) -> HelperCommand {
    match word {
        Some(w) => if w == "run"@ {
            HelperCommand::Run
        } else if w == "install"@ {
            HelperCommand::Install
        } else if w == "uninstall"@ {
            HelperCommand::Uninstall
        } else if w == "status"@ {
            HelperCommand::Status
        } else {
            HelperCommand::Usage
        },
        None => HelperCommand::Usage,
    }
}

/// The command of the macOS helper that a word names.
pub fn helper_command(word: Option<&str>) -> (r: HelperCommand)
    ensures
        r == helper_command_of(
            match word {
                Some(w) => Some(w@),
                None => None,
            },
        ),
{
    match word {
        Some(w) => if same(w, "run") {
            HelperCommand::Run
        } else if same(w, "install") {
            HelperCommand::Install
        } else if same(w, "uninstall") {
            HelperCommand::Uninstall
        } else if same(w, "status") {
            HelperCommand::Status
        } else {
            HelperCommand::Usage
        },
        None => HelperCommand::Usage,
    }
}

/// What the macOS helper does about a request.
#[derive(Debug)]
pub enum HelperTask {
    Reply(Response),
    CharonStart,
    CharonStop,
    ApplyDns { conn: String, servers: Vec<String>, domain: Option<String> },
    RevertDns { conn: String },
    SslConnect {
        name: String,
        config: String,
        username: String,
        password: String,
        allow_full: bool,
    },
    SslDisconnect { name: String },
    SslStatus,
}

/// The content of a [`HelperTask`].
pub enum HelperTaskView {
    Reply(ResponseView),
    CharonStart,
    CharonStop,
    ApplyDns { conn: Seq<char>, servers: Seq<Seq<char>>, domain: Option<Seq<char>> },
    RevertDns { conn: Seq<char> },
    SslConnect {
        name: Seq<char>,
        config: Seq<char>,
        username: Seq<char>,
        password: Seq<char>,
        allow_full: bool,
    },
    SslDisconnect { name: Seq<char> },
    SslStatus,
}

impl View for HelperTask {
    type V = HelperTaskView;

    open spec fn view(&self) -> HelperTaskView {
        match self {
            HelperTask::Reply(r) => HelperTaskView::Reply(r@),
            HelperTask::CharonStart => HelperTaskView::CharonStart,
            HelperTask::CharonStop => HelperTaskView::CharonStop,
            HelperTask::ApplyDns { conn, servers, domain } => HelperTaskView::ApplyDns {
                conn: conn@,
                servers: views(servers@),
                domain: opt_view(*domain),
            },
            HelperTask::RevertDns { conn } => HelperTaskView::RevertDns { conn: conn@ },
            HelperTask::SslConnect { name, config, username, password, allow_full } =>
                HelperTaskView::SslConnect {
                    name: name@,
                    config: config@,
                    username: username@,
                    password: password@,
                    allow_full: *allow_full,
                },
            HelperTask::SslDisconnect { name } => HelperTaskView::SslDisconnect { name: name@ },
            HelperTask::SslStatus => HelperTaskView::SslStatus,
        }
    }
}

/// What the macOS helper does about a request: each has its verb, and the subnets of a DNS request
/// play no part.
pub open spec fn helper_task_of(req: RequestView) -> HelperTaskView {
    match req {
        RequestView::Ping => HelperTaskView::Reply(success("helper is running"@)),
        RequestView::CharonStart => HelperTaskView::CharonStart,
        RequestView::CharonStop => HelperTaskView::CharonStop,
        RequestView::ApplyDns { conn, servers, domain, .. } => HelperTaskView::ApplyDns {
            conn,
            servers,
            domain,
        },
        RequestView::RevertDns { conn } => HelperTaskView::RevertDns { conn },
        RequestView::SslConnect { name, config, username, password, allow_full } =>
            HelperTaskView::SslConnect { name, config, username, password, allow_full },
        RequestView::SslDisconnect { name } => HelperTaskView::SslDisconnect { name },
        RequestView::SslStatus => HelperTaskView::SslStatus,
    }
}

/// What the macOS helper does about a request.
pub fn helper_task(req: Request) -> (r: HelperTask)
    ensures
        r@ == helper_task_of(req@),
{
    match req {
        Request::Ping => HelperTask::Reply(Response::ok("helper is running".to_owned())),
        Request::CharonStart => HelperTask::CharonStart,
        Request::CharonStop => HelperTask::CharonStop,
        Request::ApplyDns { conn, servers, domain, subnets: _ } => HelperTask::ApplyDns {
            conn,
            servers,
            domain,
        },
        Request::RevertDns { conn } => HelperTask::RevertDns { conn },
        Request::SslConnect { name, config, username, password, allow_full } =>
            HelperTask::SslConnect { name, config, username, password, allow_full },
        Request::SslDisconnect { name } => HelperTask::SslDisconnect { name },
        Request::SslStatus => HelperTask::SslStatus,
    }
}

/// A truth value as text.
pub open spec fn truth(b: bool) -> Seq<char> {
    if b {
        "true"@
    } else {
        "false"@
    }
}

fn truth_text(b: bool) -> (r: &'static str)
    ensures
        r@ == truth(b),
{
    if b {
        "true"
    } else {
        "false"
    }
}

/// The report of the helper's status, and the exit code: 0 only when it is installed and answers.
pub fn helper_status(installed: bool, reachable: bool) -> (r: (String, i32))
    ensures
        r.0@ == "installed: "@ + truth(installed) + "\nreachable: "@ + truth(reachable),
        r.1 == (if installed && reachable {
            0i32
        } else {
            1i32
        }),
{
    let mut s = "installed: ".to_owned();
    s.append(truth_text(installed));
    s.append("\nreachable: ");
    s.append(truth_text(reachable));
    let code: i32 = if installed && reachable {
        0
    } else {
        1
    };
    (s, code)
}

/// What a client prints of a reply: its text, or `ok` when a success says nothing; and whether it
/// succeeded.
pub fn client_report(reply: &Result<Response, String>) -> (r: (bool, String))
    ensures
        match *reply {
            Ok(resp) => r.0 == resp.ok && r.1@ == (if resp.ok {
                if resp.msg@.len() == 0 {
                    "ok"@
                } else {
                    resp.msg@
                }
            } else {
                "error: "@ + resp.msg@
            }),
            Err(e) => !r.0 && r.1@ == e@,
        },
{
    match reply {
        Ok(resp) => {
            if resp.ok {
                if resp.msg.as_str().is_empty() {
                    (true, "ok".to_owned())
                } else {
                    (true, resp.msg.clone())
                }
            } else {
                let mut s = "error: ".to_owned();
                s.append(resp.msg.as_str());
                (false, s)
            }
        },
        Err(e) => (false, e.clone()),
    }
}

/// Each command has one word, and anything else asks how the helper is used.
pub proof fn law_commands_have_their_words(word: Seq<char>)
    ensures
        helper_command_of(Some(word)) == HelperCommand::Run <==> word == "run"@,
        helper_command_of(Some(word)) == HelperCommand::Install <==> word == "install"@,
        helper_command_of(Some(word)) == HelperCommand::Uninstall <==> word == "uninstall"@,
        helper_command_of(Some(word)) == HelperCommand::Status <==> word == "status"@,
        helper_command_of(None) == HelperCommand::Usage,
{
    reveal_strlit("run");
    reveal_strlit("install");
    reveal_strlit("uninstall");
    reveal_strlit("status");
    assert("status"@[0] == 's');
    assert("run"@[0] == 'r');
    assert("run"@.len() == 3 && "install"@.len() == 7 && "uninstall"@.len() == 9 && "status"@.len()
        == 6);
}

/// A request is carried out under its own verb, with its own name, credentials and servers: only a
/// ping is answered at once.
pub proof fn law_request_keeps_its_verb(
    name: Seq<char>,
    config: Seq<char>,
    username: Seq<char>,
    password: Seq<char>,
    allow_full: bool,
    servers: Seq<Seq<char>>,
    domain: Option<Seq<char>>,
    subnets: Seq<Seq<char>>,
)
    ensures
        helper_task_of(RequestView::Ping) == HelperTaskView::Reply(success("helper is running"@)),
        helper_task_of(RequestView::CharonStart) == HelperTaskView::CharonStart,
        helper_task_of(RequestView::CharonStop) == HelperTaskView::CharonStop,
        helper_task_of(RequestView::SslStatus) == HelperTaskView::SslStatus,
        helper_task_of(RequestView::RevertDns { conn: name }) == (HelperTaskView::RevertDns {
            conn: name,
        }),
        helper_task_of(RequestView::SslDisconnect { name }) == (HelperTaskView::SslDisconnect {
            name,
        }),
        helper_task_of(RequestView::ApplyDns { conn: name, servers, domain, subnets }) == (
        HelperTaskView::ApplyDns { conn: name, servers, domain }),
        helper_task_of(
            RequestView::SslConnect { name, config, username, password, allow_full },
        ) == (HelperTaskView::SslConnect { name, config, username, password, allow_full }),
{
}

/// A truth value is printed as the word for it.
pub proof fn law_truth_is_a_word(b: bool)
    ensures
        b ==> truth(b) == "true"@,
        !b ==> truth(b) == "false"@,
{
}

} // verus!
