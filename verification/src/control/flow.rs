//! The connect and disconnect flows, as the decisions between one answer of charon and the next
//! command.
//!
//! [`Connect`] says which command to issue, takes the answer, and ends in an outcome: it loads
//! the connection and its secrets, brings up every child, stops when the gateway rejects the
//! credentials, and tries the other IKE version once when the gateway accepted none of the
//! proposals.

use crate::control::bridge::{
    child_names, child_names_for, law_load_shared_carries_the_secret, law_user_secret_is_separate,
    load_conn_for, load_conn_message_for, load_shared, load_shared_message_for,
    load_shared_user_auth_message_for, load_user,
};
use crate::control::status::text_or_empty;
use crate::model::{
    holds, opt_view, push_new, ConfigView, ConnectionConfig, IkeVersion, Secret,
};
use crate::text::{
    contains, decimal, format_u64, has, number_i32, occurs_at, parse_i32, same, to_upper, trim,
    trimmed, uppercase, views,
};
use crate::vici;
use crate::vici::message::{
    empty_message, law_first_of_a_name_counts, law_written_is_read, Message, MessageView, ValueView,
};
use crate::vici::protocol::message_views;
use vstd::prelude::*;
use vstd::slice::slice_subrange;
use vstd::utf8::encode_utf8;

verus! {

/// The most handshake log lines that are captured from charon, so that a chatty daemon cannot
/// grow the buffer without bound.
pub const MAX_LOG_LINES: usize = 400;

/// One line of charon's log, captured during a connect.
#[derive(Debug)]
pub struct LogLine {
    /// charon subsystem: `IKE`, `CFG`, `KNL`, `NET`, `ENC` and so on.
    pub group: String,
    /// charon log level, from 0 (always) to 4 (most verbose).
    pub level: i32,
    /// The IKE SA that the line belongs to, when charon attributes it to one.
    pub ikesa: Option<String>,
    pub msg: String,
}

/// The content of a [`LogLine`].
pub struct LogView {
    pub group: Seq<char>,
    pub level: i32,
    pub ikesa: Option<Seq<char>>,
    pub msg: Seq<char>,
}

impl View for LogLine {
    type V = LogView;

    open spec fn view(&self) -> LogView {
        LogView {
            group: self.group@,
            level: self.level,
            ikesa: opt_view(self.ikesa),
            msg: self.msg@,
        }
    }
}

/// The contents of a list of log lines.
pub open spec fn log_views(v: Seq<LogLine>) -> Seq<LogView> {
    Seq::new(v.len(), |i: int| v[i]@)
}

/// The result of a connect: whether the tunnel came up, charon's error if not, and the captured
/// handshake log either way.
#[derive(Debug)]
pub struct ConnectOutcome {
    pub connected: bool,
    pub error: Option<String>,
    pub log: Vec<LogLine>,
}

/// The content of a [`ConnectOutcome`].
pub struct OutcomeView {
    pub connected: bool,
    pub error: Option<Seq<char>>,
    pub log: Seq<LogView>,
}

impl View for ConnectOutcome {
    type V = OutcomeView;

    open spec fn view(&self) -> OutcomeView {
        OutcomeView {
            connected: self.connected,
            error: opt_view(self.error),
            log: log_views(self.log@),
        }
    }
}

/// Why a flow failed.
#[derive(Debug)]
pub enum ControlError {
    Vici(vici::Error),
    Rejected(&'static str, String),
    NoUnixTransport,
    MissingUserPassword,
    NoRemoteNetworks,
}

/// The content of a [`ControlError`].
pub enum ControlErrorView {
    Vici(vici::protocol::ErrorView),
    Rejected(Seq<char>, Seq<char>),
    NoUnixTransport,
    MissingUserPassword,
    NoRemoteNetworks,
}

impl View for ControlError {
    type V = ControlErrorView;

    open spec fn view(&self) -> ControlErrorView {
        match self {
            ControlError::Vici(e) => ControlErrorView::Vici(e@),
            ControlError::Rejected(ctx, why) => ControlErrorView::Rejected(ctx@, why@),
            ControlError::NoUnixTransport => ControlErrorView::NoUnixTransport,
            ControlError::MissingUserPassword => ControlErrorView::MissingUserPassword,
            ControlError::NoRemoteNetworks => ControlErrorView::NoRemoteNetworks,
        }
    }
}

impl ControlErrorView {
    /// The text of the error.
    pub open spec fn text(self) -> Seq<char> {
        match self {
            ControlErrorView::Vici(e) => e.text(),
            ControlErrorView::Rejected(ctx, why) => ctx + " was rejected by charon: "@ + why,
            ControlErrorView::NoUnixTransport =>
                "the Unix vici socket is not available on this platform; use a TCP transport"@,
            ControlErrorView::MissingUserPassword =>
                "this profile's gateway asks for a username and password, which were not supplied"@,
            ControlErrorView::NoRemoteNetworks =>
                "this profile names no remote networks, so bringing it up would route all traffic through the VPN — and if the gateway does not carry it, cut off internet access. Add the subnet(s) you need to reach, or choose to route all traffic through the VPN on purpose"@,
        }
    }
}

impl ControlError {
    /// What to tell the user.
    pub fn message(&self) -> (r: String)
        ensures
            r@ == self@.text(),
    {
        match self {
            ControlError::Vici(e) => e.message(),
            ControlError::Rejected(ctx, why) => {
                let mut s = (*ctx).to_owned();
                s.append(" was rejected by charon: ");
                s.append(why.as_str());
                s
            },
            ControlError::NoUnixTransport => {
                "the Unix vici socket is not available on this platform; use a TCP transport".to_owned()
            },
            ControlError::MissingUserPassword => {
                "this profile's gateway asks for a username and password, which were not supplied".to_owned()
            },
            ControlError::NoRemoteNetworks => {
                "this profile names no remote networks, so bringing it up would route all traffic through the VPN — and if the gateway does not carry it, cut off internet access. Add the subnet(s) you need to reach, or choose to route all traffic through the VPN on purpose".to_owned()
            },
        }
    }
}

/// How to reach charon's vici interface.
#[derive(Debug)]
pub enum Transport {
    /// Unix domain socket path.
    Unix(String),
    /// `host:port` of a TCP vici socket.
    Tcp(String),
}

/// Whether charon reports success.
pub open spec fn succeeded(resp: MessageView) -> bool {
    resp.get_str("success"@) == Some("yes"@)
}

/// charon's reason for a rejection.
pub open spec fn rejection(resp: MessageView) -> Seq<char> {
    match resp.get_str("errmsg"@) {
        Some(s) => s,
        None => "unknown error"@,
    }
}

fn is_success(resp: &Message) -> (r: bool)
    ensures
        r == succeeded(resp@),
{
    match resp.get_str("success") {
        Some(s) => same(s.as_str(), "yes"),
        None => false,
    }
}

/// Turns the answer to a command into success or a rejection.
pub fn check(resp: &Message, ctx: &'static str) -> (r: Result<(), ControlError>)
    ensures
        match r {
            Ok(_) => succeeded(resp@),
            Err(e) => !succeeded(resp@) && e@ == ControlErrorView::Rejected(ctx@, rejection(resp@)),
        },
{
    if is_success(resp) {
        return Ok(());
    }
    let why = match resp.get_str("errmsg") {
        Some(s) => s,
        None => "unknown error".to_owned(),
    };
    Err(ControlError::Rejected(ctx, why))
}

/// A line of the client's own in the transcript, phrased like charon's.
pub open spec fn own_line(ike: Seq<char>, msg: Seq<char>) -> LogView {
    LogView { group: "CFG"@, level: 0, ikesa: Some(ike), msg }
}

fn note(ike: &str, msg: String) -> (r: LogLine)
    ensures
        r@ == own_line(ike@, msg@),
{
    LogLine { group: "CFG".to_owned(), level: 0, ikesa: Some(ike.to_owned()), msg }
}

/// The log line in a `log` event.
pub open spec fn line_of(event: MessageView) -> LogView {
    LogView {
        group: text_or_empty(event, "group"@),
        level: match event.get_str("level"@) {
            Some(s) => match number_i32(trimmed(s)) {
                Some(n) => n,
                None => 0,
            },
            None => 0,
        },
        ikesa: event.get_str("ikesa-name"@),
        msg: text_or_empty(event, "msg"@),
    }
}

/// Reads the log line in a `log` event.
pub fn parse_log_line(event: &Message) -> (r: LogLine)
    ensures
        r@ == line_of(event@),
{
    let group = match event.get_str("group") {
        Some(s) => s,
        None => String::new(),
    };
    let level: i32 = match event.get_str("level") {
        Some(s) => match parse_i32(trim(s.as_str()).as_str()) {
            Some(n) => n,
            None => 0,
        },
        None => 0,
    };
    let msg = match event.get_str("msg") {
        Some(s) => s,
        None => String::new(),
    };
    LogLine { group, level, ikesa: event.get_str("ikesa-name"), msg }
}

/// The other IKE version, for the second attempt.
pub open spec fn flipped(v: IkeVersion) -> IkeVersion {
    match v {
        IkeVersion::V1 => IkeVersion::V2,
        IkeVersion::V2 => IkeVersion::V1,
    }
}

/// The other IKE version.
pub fn other_version(v: IkeVersion) -> (r: IkeVersion)
    ensures
        r == flipped(v),
{
    match v {
        IkeVersion::V1 => IkeVersion::V2,
        IkeVersion::V2 => IkeVersion::V1,
    }
}

/// Whether a line says that no proposal was chosen: no policy matched at all, which is how a
/// wrong IKE version reads. Nothing else provokes a second attempt.
pub open spec fn line_rejects_version(msg: Seq<char>) -> bool {
    has(uppercase(msg), "NO_PROPOSAL_CHOSEN"@) || has(uppercase(msg), "NO_PROP"@)
}

/// Whether the log says that the gateway rejected the IKE version.
pub open spec fn rejects_version(log: Seq<LogView>) -> bool {
    exists|i: int| 0 <= i < log.len() && line_rejects_version((#[trigger] log[i]).msg)
}

/// Whether the log says that the gateway rejected the IKE version.
pub fn suggests_wrong_ike_version(log: &[LogLine]) -> (r: bool)
    ensures
        r == rejects_version(log_views(log@)),
{
    let ghost all = log_views(log@);
    let mut i: usize = 0;
    while i < log.len()
        invariant
            i <= log@.len(),
            all == log_views(log@),
            forall|k: int| 0 <= k < i ==> !line_rejects_version((#[trigger] all[k]).msg),
        decreases log@.len() - i,
    {
        let msg = to_upper(log[i].msg.as_str());
        assert(all[i as int] == log@[i as int]@);
        if contains(msg.as_str(), "NO_PROPOSAL_CHOSEN") || contains(msg.as_str(), "NO_PROP") {
            return true;
        }
        i = i + 1;
    }
    false
}

/// Whether a line says that the peer rejected who we are, in either authentication round.
pub open spec fn line_rejects_login(msg: Seq<char>) -> bool {
    let m = uppercase(msg);
    ||| has(m, "AUTHENTICATION_FAILED"@)
    ||| has(m, "AUTHENTICATION FAILED"@)
    ||| has(m, "XAUTH"@) && has(m, "FAILED"@)
    ||| has(m, "EAP"@) && has(m, "FAILED"@)
}

/// Whether the log says that the peer rejected who we are.
pub open spec fn rejects_login(log: Seq<LogView>) -> bool {
    exists|i: int| 0 <= i < log.len() && line_rejects_login((#[trigger] log[i]).msg)
}

/// Whether the log says that the peer rejected who we are. Narrow on purpose: it decides whether
/// the remaining networks are tried.
pub fn suggests_auth_failure(log: &[LogLine]) -> (r: bool)
    ensures
        r == rejects_login(log_views(log@)),
{
    let ghost all = log_views(log@);
    let mut i: usize = 0;
    while i < log.len()
        invariant
            i <= log@.len(),
            all == log_views(log@),
            forall|k: int| 0 <= k < i ==> !line_rejects_login((#[trigger] all[k]).msg),
        decreases log@.len() - i,
    {
        let m = to_upper(log[i].msg.as_str());
        assert(all[i as int] == log@[i as int]@);
        if contains(m.as_str(), "AUTHENTICATION_FAILED") || contains(
            m.as_str(),
            "AUTHENTICATION FAILED",
        ) || (contains(m.as_str(), "XAUTH") && contains(m.as_str(), "FAILED")) || (contains(
            m.as_str(),
            "EAP",
        ) && contains(m.as_str(), "FAILED")) {
            return true;
        }
        i = i + 1;
    }
    false
}

/// What must hold before anything is opened: a gateway that wants a second round gets the
/// password, and a full tunnel is never implied.
pub open spec fn refusal(c: ConfigView, has_password: bool) -> Option<ControlErrorView> {
    if c.user_auth is Some && !has_password {
        Some(ControlErrorView::MissingUserPassword)
    } else if c.remote_subnets.len() == 0 {
        Some(ControlErrorView::NoRemoteNetworks)
    } else {
        None
    }
}

/// Refuses a connect that cannot work or would capture the default route.
pub fn preflight(config: &ConnectionConfig, has_password: bool) -> (r: Result<(), ControlError>)
    ensures
        match r {
            Ok(_) => refusal(config@, has_password) is None,
            Err(e) => refusal(config@, has_password) == Some(e@),
        },
{
    if config.user_auth.is_some() && !has_password {
        return Err(ControlError::MissingUserPassword);
    }
    if config.remote_subnets.len() == 0 {
        return Err(ControlError::NoRemoteNetworks);
    }
    Ok(())
}

/// The children of one attempt and what has become of them so far.
pub struct Attempt {
    name: String,
    children: Vec<String>,
    /// How many children have been tried.
    tried: usize,
    /// How many of those came up.
    established: usize,
    first_error: Option<String>,
    log: Vec<LogLine>,
    /// The gateway rejected the credentials.
    stopped: bool,
}

/// The content of an [`Attempt`].
pub struct AttemptView {
    pub name: Seq<char>,
    pub children: Seq<Seq<char>>,
    pub tried: int,
    pub established: int,
    pub first_error: Option<Seq<char>>,
    pub log: Seq<LogView>,
    pub stopped: bool,
}

impl View for Attempt {
    type V = AttemptView;

    closed spec fn view(&self) -> AttemptView {
        AttemptView {
            name: self.name@,
            children: views(self.children@),
            tried: self.tried as int,
            established: self.established as int,
            first_error: opt_view(self.first_error),
            log: log_views(self.log@),
            stopped: self.stopped,
        }
    }
}

/// The log with the lines of the first `n` events, as far as it may grow.
pub open spec fn with_events(log: Seq<LogView>, events: Seq<MessageView>, n: int) -> Seq<LogView>
    decreases n,
{
    if n <= 0 {
        log
    } else {
        let before = with_events(log, events, n - 1);
        if before.len() >= MAX_LOG_LINES {
            before
        } else {
            before.push(line_of(events[n - 1]))
        }
    }
}

/// charon's reason for not bringing up a child.
pub open spec fn decline(resp: MessageView) -> Seq<char> {
    match resp.get_str("errmsg"@) {
        Some(s) => s,
        None => "charon declined to initiate the connection"@,
    }
}

impl AttemptView {
    /// What an attempt keeps to.
    pub open spec fn wf(self) -> bool {
        &&& self.children.len() > 0
        &&& 0 <= self.established <= self.tried <= self.children.len()
        &&& self.first_error is None ==> self.established == self.tried
        &&& self.stopped ==> self.tried > 0
    }

    /// Whether no child is left to try.
    pub open spec fn is_over(self) -> bool {
        self.stopped || self.tried >= self.children.len()
    }

    /// The attempt after the answer for the next child. A rejected login ends it: every further
    /// child would repeat the same login, and a gateway that locks accounts would lock this one.
    pub open spec fn after(self, events: Seq<MessageView>, resp: MessageView) -> AttemptView {
        let log = with_events(self.log, events, events.len() as int);
        if succeeded(resp) {
            AttemptView { tried: self.tried + 1, established: self.established + 1, log, ..self }
        } else {
            let several = self.children.len() > 1;
            let child = self.children[self.tried];
            let log = if several {
                log.push(own_line(self.name, child + " did not come up: "@ + decline(resp)))
            } else {
                log
            };
            let rejected = rejects_login(log.skip(self.log.len() as int));
            AttemptView {
                tried: self.tried + 1,
                first_error: match self.first_error {
                    Some(e) => Some(e),
                    None => Some(decline(resp)),
                },
                log: if rejected && several {
                    log.push(
                        own_line(
                            self.name,
                            "the gateway rejected these credentials — not trying the remaining networks, so a repeated attempt cannot lock the account"@,
                        ),
                    )
                } else {
                    log
                },
                stopped: rejected,
                ..self
            }
        }
    }

    /// What the attempt comes to. One established child means that the tunnel carries traffic.
    pub open spec fn outcome(self) -> OutcomeView {
        let connected = self.established > 0;
        OutcomeView {
            connected,
            error: if connected {
                None
            } else {
                self.first_error
            },
            log: if connected && self.established < self.children.len() {
                self.log.push(
                    own_line(
                        self.name,
                        decimal(self.established as nat) + " of "@ + decimal(self.children.len())
                            + " remote networks came up; the rest are not reachable over this tunnel"@,
                    ),
                )
            } else {
                self.log
            },
        }
    }
}

/// An attempt before its first child.
pub open spec fn fresh(c: ConfigView, name: Seq<char>, version: IkeVersion) -> AttemptView {
    AttemptView {
        name,
        children: child_names(c, name, version),
        tried: 0,
        established: 0,
        first_error: None,
        log: Seq::empty(),
        stopped: false,
    }
}

impl Attempt {
    fn new(config: &ConnectionConfig, name: &str, version: IkeVersion) -> (r: Attempt)
        ensures
            r@ == fresh(config@, name@, version),
            r@.wf(),
    {
        let r = Attempt {
            name: name.to_owned(),
            children: child_names_for(config, name, version),
            tried: 0,
            established: 0,
            first_error: None,
            log: Vec::new(),
            stopped: false,
        };
        assert(r@.log =~= Seq::empty());
        assert(child_names(config@, name@, version).len() > 0);
        r
    }

    /// Takes the answer for the next child.
    pub fn record(&mut self, events: &[Message], resp: &Message)
        requires
            old(self)@.wf(),
            !old(self)@.is_over(),
        ensures
            final(self)@ == old(self)@.after(message_views(events@), resp@),
            final(self)@.wf(),
    {
        let ghost all = message_views(events@);
        let ghost start = log_views(self.log@);
        assert(views(self.children@).len() == self.children@.len());
        assert(start.len() == self.log@.len());
        let before: usize = self.log.len();
        let count: usize = self.children.len();
        let mut i: usize = 0;
        while i < events.len()
            invariant
                i <= events@.len(),
                all == message_views(events@),
                start == log_views(old(self).log@),
                log_views(self.log@) == with_events(start, all, i as int),
                self.log@.len() >= before,
                self.name == old(self).name,
                self.children == old(self).children,
                self.tried == old(self).tried,
                self.established == old(self).established,
                self.first_error == old(self).first_error,
                self.stopped == old(self).stopped,
                self.tried < count,
                count == self.children@.len(),
            decreases events@.len() - i,
        {
            assert(all[i as int] == events@[i as int]@);
            assert(log_views(self.log@).len() == self.log@.len());
            if self.log.len() < MAX_LOG_LINES {
                let ghost seen = log_views(self.log@);
                let line = parse_log_line(&events[i]);
                let ghost shown = line@;
                self.log.push(line);
                assert(log_views(self.log@) =~= seen.push(shown));
            }
            i = i + 1;
        }
        let child: usize = self.tried;
        self.tried = self.tried + 1;
        if is_success(resp) {
            self.established = self.established + 1;
            return ;
        }
        let err = match resp.get_str("errmsg") {
            Some(s) => s,
            None => "charon declined to initiate the connection".to_owned(),
        };
        let several: bool = count > 1;
        if several {
            let mut msg = self.children[child].clone();
            msg.append(" did not come up: ");
            msg.append(err.as_str());
            let line = note(self.name.as_str(), msg);
            let ghost seen = log_views(self.log@);
            let ghost shown = line@;
            self.log.push(line);
            assert(log_views(self.log@) =~= seen.push(shown));
            assert(views(self.children@)[child as int] == self.children@[child as int]@);
        }
        if self.first_error.is_none() {
            self.first_error = Some(err);
        }
        let fresh_lines = slice_subrange(self.log.as_slice(), before, self.log.len());
        assert(log_views(fresh_lines@) =~= log_views(self.log@).skip(before as int));
        let rejected: bool = suggests_auth_failure(fresh_lines);
        self.stopped = rejected;
        if rejected && several {
            let line = note(
                self.name.as_str(),
                "the gateway rejected these credentials — not trying the remaining networks, so a repeated attempt cannot lock the account".to_owned(),
            );
            let ghost seen = log_views(self.log@);
            let ghost shown = line@;
            self.log.push(line);
            assert(log_views(self.log@) =~= seen.push(shown));
        }
    }

    /// What the attempt comes to.
    pub fn finish(self) -> (r: ConnectOutcome)
        requires
            self@.wf(),
        ensures
            r@ == self@.outcome(),
    {
        let mut log = self.log;
        let connected: bool = self.established > 0;
        assert(views(self.children@).len() == self.children@.len());
        if connected && self.established < self.children.len() {
            let mut msg = format_u64(self.established as u64);
            msg.append(" of ");
            msg.append(format_u64(self.children.len() as u64).as_str());
            msg.append(" remote networks came up; the rest are not reachable over this tunnel");
            let line = note(self.name.as_str(), msg);
            let ghost seen = log_views(log@);
            let ghost shown = line@;
            log.push(line);
            assert(log_views(log@) =~= seen.push(shown));
        }
        let error = if connected {
            None
        } else {
            self.first_error
        };
        ConnectOutcome { connected, error, log }
    }
}

/// Which command an attempt has come to.
#[derive(Debug, Clone, Copy, PartialEq, Eq, Structural)]
pub enum Stage {
    /// `load-conn`.
    LoadConn,
    /// `load-shared` with the pre-shared key.
    LoadShared,
    /// `load-shared` with the password of the second round.
    LoadUser,
    /// `initiate` for the next child.
    Initiate,
    /// Nothing is left to do.
    Finished,
}

/// What to do next.
pub enum Task {
    /// Issue a command and hand the answer to [`Connect::loaded`].
    Load(&'static str, Message),
    /// Issue `initiate` with the `log` event and hand the answer to [`Connect::initiated`].
    Initiate(Message),
    /// Take the outcome.
    Finished,
}

/// The content of a [`Task`].
pub enum TaskView {
    Load(Seq<char>, MessageView),
    Initiate(MessageView),
    Finished,
}

impl View for Task {
    type V = TaskView;

    open spec fn view(&self) -> TaskView {
        match self {
            Task::Load(command, m) => TaskView::Load(command@, m@),
            Task::Initiate(m) => TaskView::Initiate(m@),
            Task::Finished => TaskView::Finished,
        }
    }
}

/// A connect in progress.
pub struct Connect<'a> {
    config: &'a ConnectionConfig,
    name: String,
    password: Option<&'a Secret>,
    peers: Vec<String>,
    version: IkeVersion,
    stage: Stage,
    attempt: Attempt,
    /// What the attempt at the profile's own version came to, once the other is tried.
    earlier: Option<ConnectOutcome>,
    /// What the connect came to.
    result: Option<ConnectOutcome>,
}

/// The content of a [`Connect`].
pub struct ConnectView {
    pub config: ConfigView,
    pub name: Seq<char>,
    pub password: Option<Seq<char>>,
    pub peers: Seq<Seq<char>>,
    pub version: IkeVersion,
    pub stage: Stage,
    pub attempt: AttemptView,
    pub earlier: Option<OutcomeView>,
    pub result: Option<OutcomeView>,
}

/// The content of an outcome that may be absent.
pub open spec fn opt_outcome(o: Option<ConnectOutcome>) -> Option<OutcomeView> {
    match o {
        Some(x) => Some(x@),
        None => None,
    }
}

impl<'a> View for Connect<'a> {
    type V = ConnectView;

    closed spec fn view(&self) -> ConnectView {
        ConnectView {
            config: self.config@,
            name: self.name@,
            password: match self.password {
                Some(p) => Some(p@),
                None => None,
            },
            peers: views(self.peers@),
            version: self.version,
            stage: self.stage,
            attempt: self.attempt@,
            earlier: opt_outcome(self.earlier),
            result: opt_outcome(self.result),
        }
    }
}

/// What two attempts come to together. On a double failure the error is that of the profile's
/// own version, which is the one the user configured.
pub open spec fn merged(first: OutcomeView, retry: OutcomeView) -> OutcomeView {
    let log = first.log + retry.log;
    OutcomeView {
        connected: retry.connected,
        error: if retry.connected {
            None
        } else {
            first.error
        },
        log: if log.len() > MAX_LOG_LINES {
            log.take(MAX_LOG_LINES as int)
        } else {
            log
        },
    }
}

impl ConnectView {
    /// What a connect keeps to.
    pub open spec fn wf(self) -> bool {
        &&& self.attempt.wf()
        &&& !self.attempt.is_over()
        &&& self.stage == Stage::LoadUser ==> self.password is Some
        &&& self.stage == Stage::Finished <==> self.result is Some
    }

    /// The next command.
    pub open spec fn task(self) -> TaskView {
        match self.stage {
            Stage::LoadConn => TaskView::Load(
                "load-conn"@,
                load_conn_for(self.config, self.name, self.version),
            ),
            Stage::LoadShared => TaskView::Load(
                "load-shared"@,
                load_shared(self.config, self.name, self.peers),
            ),
            Stage::LoadUser => TaskView::Load(
                "load-shared"@,
                load_user(self.config, self.name, self.password->0, self.version, self.peers),
            ),
            Stage::Initiate => TaskView::Initiate(
                empty_message().with_str(
                    "child"@,
                    self.attempt.children[self.attempt.tried],
                ).with_str("ike"@, self.name),
            ),
            Stage::Finished => TaskView::Finished,
        }
    }

    /// The name under which a rejection of the loading command is reported.
    pub open spec fn context(self) -> Seq<char> {
        match self.stage {
            Stage::LoadConn => "load-conn"@,
            Stage::LoadShared => "load-shared"@,
            _ => "load-shared (user auth)"@,
        }
    }

    /// The connect after the answer to a loading command; a rejection ends it.
    pub open spec fn after_loaded(self, resp: MessageView) -> Result<ConnectView, ControlErrorView> {
        if !succeeded(resp) {
            Err(ControlErrorView::Rejected(self.context(), rejection(resp)))
        } else {
            let next = match self.stage {
                Stage::LoadConn => Stage::LoadShared,
                Stage::LoadShared => if self.password is Some && self.config.user_auth is Some {
                    Stage::LoadUser
                } else {
                    Stage::Initiate
                },
                _ => Stage::Initiate,
            };
            Ok(ConnectView { stage: next, ..self })
        }
    }

    /// The connect after an attempt that is over. The other IKE version is tried once, and only
    /// when the gateway chose none of the proposals.
    pub open spec fn after_attempt(self, attempt: AttemptView) -> ConnectView {
        let o = attempt.outcome();
        match self.earlier {
            Some(first) => ConnectView {
                attempt: fresh(self.config, self.name, self.version),
                stage: Stage::Finished,
                earlier: None,
                result: Some(merged(first, o)),
                ..self
            },
            None => if !o.connected && rejects_version(o.log) {
                let other = flipped(self.version);
                ConnectView {
                    attempt: fresh(self.config, self.name, other),
                    version: other,
                    stage: Stage::LoadConn,
                    earlier: Some(
                        OutcomeView {
                            log: o.log.push(
                                own_line(
                                    self.name,
                                    "the gateway did not accept IKEv"@ + self.version.digit()
                                        + "; retrying as IKEv"@ + other.digit(),
                                ),
                            ),
                            ..o
                        },
                    ),
                    ..self
                }
            } else {
                ConnectView {
                    attempt: fresh(self.config, self.name, self.version),
                    stage: Stage::Finished,
                    result: Some(o),
                    ..self
                }
            },
        }
    }

    /// The connect after the answer to `initiate`.
    pub open spec fn after_initiated(
        self,
        events: Seq<MessageView>,
        resp: MessageView,
    ) -> ConnectView {
        let attempt = self.attempt.after(events, resp);
        if attempt.is_over() {
            self.after_attempt(attempt)
        } else {
            ConnectView { attempt, ..self }
        }
    }
}

impl<'a> Connect<'a> {
    /// Begins a connect. It is refused where [`preflight`] refuses it.
    pub fn start(
        config: &'a ConnectionConfig,
        name: &str,
        password: Option<&'a Secret>,
        peers: Vec<String>,
    ) -> (r: Result<Connect<'a>, ControlError>)
        ensures
            match r {
                Ok(c) => {
                    &&& refusal(config@, password is Some) is None
                    &&& c@.wf()
                    &&& c@ == (ConnectView {
                        config: config@,
                        name: name@,
                        password: match password {
                            Some(p) => Some(p@),
                            None => None,
                        },
                        peers: views(peers@),
                        version: config@.ike_version,
                        stage: Stage::LoadConn,
                        attempt: fresh(config@, name@, config@.ike_version),
                        earlier: None,
                        result: None,
                    })
                },
                Err(e) => refusal(config@, password is Some) == Some(e@),
            },
    {
        preflight(config, password.is_some())?;
        Ok(
            Connect {
                config,
                name: name.to_owned(),
                password,
                peers,
                version: config.ike_version,
                stage: Stage::LoadConn,
                attempt: Attempt::new(config, name, config.ike_version),
                earlier: None,
                result: None,
            },
        )
    }

    /// The next command.
    pub fn next(&self) -> (r: Task)
        requires
            self@.wf(),
        ensures
            r@ == self@.task(),
    {
        match self.stage {
            Stage::LoadConn => Task::Load(
                "load-conn",
                load_conn_message_for(self.config, self.name.as_str(), self.version),
            ),
            Stage::LoadShared => Task::Load(
                "load-shared",
                load_shared_message_for(self.config, self.name.as_str(), &self.peers),
            ),
            Stage::LoadUser => match self.password {
                Some(p) => Task::Load(
                    "load-shared",
                    load_shared_user_auth_message_for(
                        self.config,
                        self.name.as_str(),
                        p,
                        self.version,
                        &self.peers,
                    ),
                ),
                None => Task::Finished,
            },
            Stage::Initiate => {
                let i: usize = self.attempt.tried;
                assert(views(self.attempt.children@).len() == self.attempt.children@.len());
                assert(views(self.attempt.children@)[i as int]
                    == self.attempt.children@[i as int]@);
                Task::Initiate(
                    Message::new().str("child", self.attempt.children[i].as_str()).str(
                        "ike",
                        self.name.as_str(),
                    ),
                )
            },
            Stage::Finished => Task::Finished,
        }
    }

    /// Takes the answer to a loading command.
    pub fn loaded(&mut self, resp: &Message) -> (r: Result<(), ControlError>)
        requires
            old(self)@.wf(),
            old(self)@.task() is Load,
        ensures
            match r {
                Ok(_) => {
                    &&& old(self)@.after_loaded(resp@) == Ok::<ConnectView, ControlErrorView>(
                        final(self)@,
                    )
                    &&& final(self)@.wf()
                },
                Err(e) => old(self)@.after_loaded(resp@) == Err::<ConnectView, ControlErrorView>(
                    e@,
                ),
            },
    {
        let ctx = match self.stage {
            Stage::LoadConn => "load-conn",
            Stage::LoadShared => "load-shared",
            _ => "load-shared (user auth)",
        };
        check(resp, ctx)?;
        self.stage = match self.stage {
            Stage::LoadConn => Stage::LoadShared,
            Stage::LoadShared => if self.password.is_some() && self.config.user_auth.is_some() {
                Stage::LoadUser
            } else {
                Stage::Initiate
            },
            _ => Stage::Initiate,
        };
        Ok(())
    }

    /// Takes the answer to `initiate`.
    pub fn initiated(self, events: &[Message], resp: &Message) -> (r: Connect<'a>)
        requires
            self@.wf(),
            self@.task() is Initiate,
        ensures
            r@ == self@.after_initiated(message_views(events@), resp@),
            r@.wf(),
    {
        let mut c = self;
        let mut attempt = Attempt::new(c.config, c.name.as_str(), c.version);
        std::mem::swap(&mut attempt, &mut c.attempt);
        attempt.record(events, resp);
        assert(views(attempt.children@).len() == attempt.children@.len());
        if !attempt.stopped && attempt.tried < attempt.children.len() {
            c.attempt = attempt;
            return c;
        }
        let outcome = attempt.finish();
        let mut earlier: Option<ConnectOutcome> = None;
        std::mem::swap(&mut earlier, &mut c.earlier);
        match earlier {
            Some(first) => {
                c.result = Some(merge(first, outcome));
                c.stage = Stage::Finished;
                c
            },
            None => {
                if !outcome.connected && suggests_wrong_ike_version(outcome.log.as_slice()) {
                    let other = other_version(c.version);
                    let mut msg = "the gateway did not accept IKEv".to_owned();
                    msg.append(c.version.swanctl_value());
                    msg.append("; retrying as IKEv");
                    msg.append(other.swanctl_value());
                    let line = note(c.name.as_str(), msg);
                    let mut first = outcome;
                    let ghost seen = log_views(first.log@);
                    let ghost shown = line@;
                    first.log.push(line);
                    assert(log_views(first.log@) =~= seen.push(shown));
                    c.attempt = Attempt::new(c.config, c.name.as_str(), other);
                    c.version = other;
                    c.stage = Stage::LoadConn;
                    c.earlier = Some(first);
                    c
                } else {
                    c.stage = Stage::Finished;
                    c.result = Some(outcome);
                    c
                }
            },
        }
    }

    /// What the connect came to, once nothing is left to do.
    pub fn outcome(self) -> (r: Option<ConnectOutcome>)
        ensures
            opt_outcome(r) == self@.result,
    {
        self.result
    }
}

/// What two attempts come to together.
fn merge(first: ConnectOutcome, retry: ConnectOutcome) -> (r: ConnectOutcome)
    ensures
        r@ == merged(first@, retry@),
{
    let mut log = first.log;
    let mut more = retry.log;
    let ghost a = log_views(log@);
    let ghost b = log_views(more@);
    log.append(&mut more);
    assert(log_views(log@) =~= a + b);
    if log.len() > MAX_LOG_LINES {
        log.truncate(MAX_LOG_LINES);
        assert(log_views(log@) =~= (a + b).take(MAX_LOG_LINES as int));
    }
    let error = if retry.connected {
        None
    } else {
        first.error
    };
    ConnectOutcome { connected: retry.connected, error, log }
}

/// The outcome of a connect as success or failure.
pub fn connect(outcome: ConnectOutcome) -> (r: Result<(), ControlError>)
    ensures
        match r {
            Ok(_) => outcome@.connected,
            Err(e) => !outcome@.connected && e@ == ControlErrorView::Rejected(
                "initiate"@,
                match outcome@.error {
                    Some(s) => s,
                    None => Seq::empty(),
                },
            ),
        },
{
    if outcome.connected {
        return Ok(());
    }
    let why = match outcome.error {
        Some(s) => s,
        None => String::new(),
    };
    Err(ControlError::Rejected("initiate", why))
}

/// Every identity that charon may use for the far end: the gateway as it is named and, when it
/// is a name, the addresses that it resolves to, each once.
pub open spec fn peers_of(gateway: Seq<char>, resolved: Seq<Seq<char>>, n: int) -> Seq<Seq<char>>
    decreases n,
{
    if n <= 0 {
        seq![gateway]
    } else {
        push_new(peers_of(gateway, resolved, n - 1), resolved[n - 1])
    }
}

/// Every identity that charon may use for the far end of a connection to `gateway`.
///
/// A connection that does not pin the peer's identity gets the gateway's address as the remote
/// ID, so that a profile which names its gateway needs the resolved addresses among the owners
/// of its secret too. For an address literal nothing is resolved.
pub fn peer_ids(gateway: &str, is_literal: bool, resolved: &Vec<String>) -> (r: Vec<String>)
    ensures
        views(r@) == peers_of(
            gateway@,
            views(resolved@),
            if is_literal {
                0
            } else {
                resolved@.len() as int
            },
        ),
{
    let ghost all = views(resolved@);
    let mut ids: Vec<String> = Vec::new();
    ids.push(gateway.to_owned());
    assert(views(ids@) =~= seq![gateway@]);
    if is_literal {
        return ids;
    }
    let mut i: usize = 0;
    while i < resolved.len()
        invariant
            i <= resolved@.len(),
            all == views(resolved@),
            views(ids@) == peers_of(gateway@, all, i as int),
        decreases resolved@.len() - i,
    {
        assert(all[i as int] == resolved@[i as int]@);
        if !holds(&ids, resolved[i].as_str()) {
            let ghost before = ids@;
            ids.push(resolved[i].clone());
            assert(views(ids@) =~= views(before).push(all[i as int]));
        }
        i = i + 1;
    }
    ids
}

/// The argument of `terminate`.
pub open spec fn terminate(name: Seq<char>) -> MessageView {
    empty_message().with_str("ike"@, name)
}

/// The commands that retire what was loaded for a connection.
pub open spec fn retirement(name: Seq<char>) -> Seq<(Seq<char>, MessageView)> {
    seq![
        ("unload-shared"@, empty_message().with_str("id"@, "ike-"@ + name)),
        ("unload-shared"@, empty_message().with_str("id"@, "user-"@ + name)),
        ("unload-conn"@, empty_message().with_str("name"@, name)),
    ]
}

/// The contents of a list of commands.
pub open spec fn command_views(v: Seq<(&'static str, Message)>) -> Seq<(Seq<char>, MessageView)> {
    Seq::new(v.len(), |i: int| (v[i].0@, v[i].1@))
}

/// The commands of a disconnect: `terminate`, whose answer counts, then those that drop the
/// credentials and the connection, whose answers do not. Everything pushed over vici outlives
/// the SA that it was pushed for, and a key left behind competes for every later connection.
pub fn disconnect(name: &str) -> (r: Vec<(&'static str, Message)>)
    ensures
        command_views(r@) == seq![("terminate"@, terminate(name@))] + retirement(name@),
{
    let mut ike = "ike-".to_owned();
    ike.append(name);
    let mut user = "user-".to_owned();
    user.append(name);
    let mut out: Vec<(&'static str, Message)> = Vec::new();
    out.push(("terminate", Message::new().str("ike", name)));
    out.push(("unload-shared", Message::new().str("id", ike.as_str())));
    out.push(("unload-shared", Message::new().str("id", user.as_str())));
    out.push(("unload-conn", Message::new().str("name", name)));
    assert(command_views(out@) =~= seq![("terminate"@, terminate(name@))] + retirement(name@));
    out
}

/// The other version of the other version is the version itself.
pub proof fn law_other_version_undoes_itself(v: IkeVersion)
    ensures
        flipped(flipped(v)) == v,
        flipped(v) != v,
{
}

/// An attempt that is over has either come up or says why it has not, never both.
pub proof fn law_failed_attempts_say_why(a: AttemptView)
    requires
        a.wf(),
        a.is_over(),
    ensures
        a.outcome().connected <==> a.outcome().error is None,
{
}

/// Once the gateway rejects the credentials, no further child is tried.
pub proof fn law_rejected_login_ends_the_attempt(
    a: AttemptView,
    events: Seq<MessageView>,
    resp: MessageView,
)
    requires
        a.wf(),
        !a.is_over(),
        !succeeded(resp),
        exists|i: int|
            0 <= i < events.len() && a.log.len() + i < MAX_LOG_LINES && line_rejects_login(
                line_of(#[trigger] events[i]).msg,
            ),
    ensures
        a.after(events, resp).is_over(),
{
    let n = events.len() as int;
    let log = with_events(a.log, events, n);
    lemma_with_events(a.log, events, n);
    let i = choose|i: int|
        0 <= i < n && a.log.len() + i < MAX_LOG_LINES && line_rejects_login(
            line_of(#[trigger] events[i]).msg,
        );
    let at = a.log.len() + i;
    assert(log[at] == line_of(events[i]));
    let several = a.children.len() > 1;
    let full = if several {
        log.push(
            own_line(a.name, a.children[a.tried] + " did not come up: "@ + decline(resp)),
        )
    } else {
        log
    };
    let fresh_part = full.skip(a.log.len() as int);
    assert(fresh_part[i] == log[at]);
    assert(line_rejects_login(fresh_part[i].msg));
    assert(rejects_login(fresh_part));
}

proof fn lemma_with_events(log: Seq<LogView>, events: Seq<MessageView>, n: int)
    requires
        0 <= n <= events.len(),
    ensures
        log.len() <= with_events(log, events, n).len() <= log.len() + n,
        log.len() <= MAX_LOG_LINES ==> with_events(log, events, n).len() <= MAX_LOG_LINES,
        with_events(log, events, n).take(log.len() as int) == log,
        forall|i: int|
            0 <= i < n && log.len() + i < MAX_LOG_LINES ==> log.len() + i < with_events(
                log,
                events,
                n,
            ).len() && with_events(log, events, n)[log.len() + i] == line_of(
                #[trigger] events[i],
            ),
        with_events(log, events, n).len() == log.len() + n || with_events(log, events, n).len()
            >= MAX_LOG_LINES,
    decreases n,
{
    if n > 0 {
        lemma_with_events(log, events, n - 1);
        let before = with_events(log, events, n - 1);
        let now = with_events(log, events, n);
        assert(now.take(log.len() as int) =~= before.take(log.len() as int));
        assert forall|i: int| 0 <= i < n && log.len() + i < MAX_LOG_LINES implies log.len() + i
            < now.len() && now[log.len() + i] == line_of(#[trigger] events[i]) by {
            if i < n - 1 {
                assert(now[log.len() + i] == before[log.len() + i]);
            }
        }
    } else {
        assert(log.take(log.len() as int) =~= log);
    }
}

/// What charon says during a connect never grows the log past its bound.
pub proof fn law_captured_log_is_bounded(log: Seq<LogView>, events: Seq<MessageView>)
    requires
        log.len() <= MAX_LOG_LINES,
    ensures
        with_events(log, events, events.len() as int).len() <= MAX_LOG_LINES,
{
    lemma_with_events(log, events, events.len() as int);
}

/// A second attempt is made only when the first did not come up and the gateway chose none of its
/// proposals, and it is made at the other version.
pub proof fn law_only_a_rejected_version_is_retried(
    c: ConnectView,
    events: Seq<MessageView>,
    resp: MessageView,
)
    requires
        c.wf(),
        c.stage == Stage::Initiate,
        c.after_initiated(events, resp).stage == Stage::LoadConn,
    ensures
        ({
            let o = c.attempt.after(events, resp).outcome();
            &&& c.earlier is None
            &&& !o.connected
            &&& rejects_version(o.log)
            &&& c.after_initiated(events, resp).version == flipped(c.version)
        }),
{
}

/// There is no third attempt: one that follows an earlier one ends the connect.
pub proof fn law_at_most_two_attempts(c: ConnectView, attempt: AttemptView)
    requires
        c.earlier is Some,
    ensures
        c.after_attempt(attempt).stage == Stage::Finished,
{
}

/// A retry that fails too reports the error of the version that the profile asked for.
pub proof fn law_double_failure_reports_the_first(first: OutcomeView, retry: OutcomeView)
    requires
        !retry.connected,
    ensures
        merged(first, retry).error == first.error,
        !merged(first, retry).connected,
        merged(first, retry).log.len() <= MAX_LOG_LINES,
{
}

/// A disconnect retires under their own names the secrets that a connect loaded.
pub proof fn law_disconnect_retires_what_was_loaded(
    c: ConfigView,
    name: Seq<char>,
    password: Seq<char>,
    version: IkeVersion,
    peers: Seq<Seq<char>>,
)
    ensures
        retirement(name)[0].1.get("id"@) == load_shared(c, name, peers).get("id"@),
        retirement(name)[1].1.get("id"@) == load_user(c, name, password, version, peers).get(
            "id"@,
        ),
{
    reveal_with_fuel(crate::vici::message::element_from, 2);
    assert(load_shared(c, name, peers).entries[0].0 == "id"@);
    assert(load_user(c, name, password, version, peers).entries[0].0 == "id"@);
}

proof fn lemma_peers(gateway: Seq<char>, resolved: Seq<Seq<char>>, n: int)
    requires
        0 <= n <= resolved.len(),
    ensures
        peers_of(gateway, resolved, n).len() >= 1,
        peers_of(gateway, resolved, n)[0] == gateway,
        peers_of(gateway, resolved, n).no_duplicates(),
        forall|k: int| 0 <= k < n ==> peers_of(gateway, resolved, n).contains(#[trigger] resolved[k]),
    decreases n,
{
    if n > 0 {
        lemma_peers(gateway, resolved, n - 1);
        let before = peers_of(gateway, resolved, n - 1);
        let now = peers_of(gateway, resolved, n);
        assert(now[0] == before[0]);
        assert forall|k: int| 0 <= k < n implies now.contains(#[trigger] resolved[k]) by {
            if k < n - 1 {
                let j = choose|j: int| 0 <= j < before.len() && before[j] == resolved[k];
                assert(now[j] == resolved[k]);
            } else if !before.contains(resolved[k]) {
                assert(now[before.len() as int] == resolved[k]);
            }
        }
    }
}

/// The gateway as it is named comes first among the peer's identities, then every address that it
/// resolves to, and none is there twice.
pub proof fn law_peers_begin_with_the_gateway(gateway: Seq<char>, resolved: Seq<Seq<char>>)
    ensures
        ({
            let ids = peers_of(gateway, resolved, resolved.len() as int);
            &&& ids.len() >= 1 && ids[0] == gateway
            &&& ids.no_duplicates()
            &&& forall|k: int| 0 <= k < resolved.len() ==> ids.contains(#[trigger] resolved[k])
        }),
{
    lemma_peers(gateway, resolved, resolved.len() as int);
}

/// A connect whose second attempt comes up is up, and has no error to report; one whose second
/// attempt fails is not up. The first attempt decides neither. What was logged before comes first,
/// and only the end is cut off when it is too long.
pub proof fn law_retry_decides(first: OutcomeView, retry: OutcomeView)
    ensures
        merged(first, retry).connected <==> retry.connected,
        retry.connected ==> merged(first, retry).error is None,
        !retry.connected ==> merged(first, retry).error == first.error,
        forall|i: int|
            0 <= i < first.log.len() && i < MAX_LOG_LINES ==> i < merged(first, retry).log.len()
                && #[trigger] merged(first, retry).log[i] == first.log[i],
        forall|i: int|
            0 <= i < retry.log.len() && first.log.len() + i < MAX_LOG_LINES ==> first.log.len() + i
                < merged(first, retry).log.len() && merged(first, retry).log[first.log.len() + i]
                == #[trigger] retry.log[i],
        merged(first, retry).log.len() <= first.log.len() + retry.log.len(),
{
}

/// Each answer counts once: the child is tried, and it is up exactly when charon says `yes`. The
/// first reason that charon gives is kept, nothing that was logged is lost, and only an answer that
/// is not `yes` can end the attempt early.
pub proof fn law_answer_counts_once(
    a: AttemptView,
    events: Seq<MessageView>,
    resp: MessageView,
)
    requires
        a.wf(),
        !a.is_over(),
    ensures
        ({
            let b = a.after(events, resp);
            let up = resp.get_str("success"@) == Some("yes"@);
            &&& b.name == a.name && b.children == a.children
            &&& b.tried == a.tried + 1
            &&& up ==> b.established == a.established + 1 && b.first_error == a.first_error
                && b.stopped == a.stopped
            &&& !up ==> b.established == a.established && b.first_error is Some
            &&& a.first_error is Some ==> b.first_error == a.first_error
            &&& !up && a.first_error is None && resp.get_str("errmsg"@) is Some ==> b.first_error
                == resp.get_str("errmsg"@)
            &&& b.stopped && !up ==> exists|i: int|
                a.log.len() <= i < b.log.len() && line_rejects_login((#[trigger] b.log[i]).msg)
            &&& b.log.len() >= a.log.len()
            &&& b.log.take(a.log.len() as int) == a.log
        }),
{
    let n = events.len() as int;
    lemma_with_events(a.log, events, n);
    let log = with_events(a.log, events, n);
    let b = a.after(events, resp);
    if resp.get_str("success"@) != Some("yes"@) {
        let several = a.children.len() > 1;
        let full = if several {
            log.push(
                own_line(a.name, a.children[a.tried] + " did not come up: "@ + decline(resp)),
            )
        } else {
            log
        };
        assert(full.take(a.log.len() as int) =~= log.take(a.log.len() as int));
        assert(b.log.take(a.log.len() as int) =~= full.take(a.log.len() as int));
        if b.stopped {
            let tail = full.skip(a.log.len() as int);
            let i = choose|i: int| 0 <= i < tail.len() && line_rejects_login((#[trigger] tail[i]).msg);
            assert(b.log[a.log.len() + i] == tail[i]);
        }
    }
}

/// The attempt after a list of answers.
pub open spec fn answered(
    a: AttemptView,
    answers: Seq<(Seq<MessageView>, MessageView)>,
    n: int,
) -> AttemptView
    decreases n,
{
    if n <= 0 {
        a
    } else {
        answered(a, answers, n - 1).after(answers[n - 1].0, answers[n - 1].1)
    }
}

proof fn lemma_answered(
    a: AttemptView,
    answers: Seq<(Seq<MessageView>, MessageView)>,
    n: int,
)
    requires
        0 <= n <= answers.len(),
        a.established == 0,
    ensures
        answered(a, answers, n).established >= 0,
        answered(a, answers, n).established > 0 <==> exists|i: int|
            0 <= i < n && (#[trigger] answers[i]).1.get_str("success"@) == Some("yes"@),
    decreases n,
{
    if n > 0 {
        lemma_answered(a, answers, n - 1);
        let last = answers[n - 1];
        if answered(a, answers, n).established > 0 {
            if last.1.get_str("success"@) != Some("yes"@) {
                let i = choose|i: int|
                    0 <= i < n - 1 && (#[trigger] answers[i]).1.get_str("success"@) == Some(
                        "yes"@,
                    );
                assert(answers[i].1.get_str("success"@) == Some("yes"@));
            }
        }
    }
}

/// An attempt connects exactly when charon answers `yes` for at least one of its children, whichever
/// that is and whatever becomes of the others; and then it has no error.
pub proof fn law_one_child_is_enough(
    c: ConfigView,
    name: Seq<char>,
    version: IkeVersion,
    answers: Seq<(Seq<MessageView>, MessageView)>,
)
    ensures
        ({
            let o = answered(fresh(c, name, version), answers, answers.len() as int).outcome();
            &&& o.connected <==> exists|i: int|
                0 <= i < answers.len() && (#[trigger] answers[i]).1.get_str("success"@) == Some(
                    "yes"@,
                )
            &&& o.connected ==> o.error is None
        }),
{
    lemma_answered(fresh(c, name, version), answers, answers.len() as int);
}

/// When the last answer of the only or the second attempt is in, the connect is over. It is up
/// exactly when a child of that attempt is, and reports no error then.
pub proof fn law_connect_ends_as_its_last_attempt(
    c: ConnectView,
    events: Seq<MessageView>,
    resp: MessageView,
)
    requires
        c.wf(),
        c.stage == Stage::Initiate,
        c.after_initiated(events, resp).stage == Stage::Finished,
    ensures
        ({
            let next = c.after_initiated(events, resp);
            let up = c.attempt.established > 0 || resp.get_str("success"@) == Some("yes"@);
            &&& next.result is Some
            &&& (next.result->0).connected <==> up
            &&& up ==> (next.result->0).error is None
            &&& !up ==> (next.result->0).error == (match c.earlier {
                Some(first) => first.error,
                None => match c.attempt.first_error {
                    Some(e) => Some(e),
                    None => Some(decline(resp)),
                },
            })
        }),
{
}

/// A first attempt that is over, with no child up and a line that says that no proposal was chosen,
/// is followed by another at the other version, of the same connection and with all of its children
/// before it. Any other first attempt ends the connect.
pub proof fn law_rejected_version_is_retried(
    c: ConnectView,
    events: Seq<MessageView>,
    resp: MessageView,
)
    requires
        c.wf(),
        c.stage == Stage::Initiate,
        c.earlier is None,
        c.attempt.after(events, resp).is_over(),
    ensures
        ({
            let next = c.after_initiated(events, resp);
            let up = c.attempt.established > 0 || resp.get_str("success"@) == Some("yes"@);
            let log = c.attempt.after(events, resp).log;
            let rejected = exists|i: int|
                0 <= i < log.len() && line_rejects_version((#[trigger] log[i]).msg);
            &&& !up && rejected ==> {
                &&& next.stage == Stage::LoadConn
                &&& next.version != c.version
                &&& next.config == c.config && next.name == c.name && next.password == c.password
                    && next.peers == c.peers
                &&& next.attempt.children == child_names(c.config, c.name, next.version)
                &&& next.attempt.tried == 0 && next.attempt.established == 0
                    && next.attempt.first_error is None
                &&& next.earlier matches Some(first) && !first.connected && first.error is Some
                    && first.log.take(log.len() as int) == log
            }
            &&& up || !rejected ==> next.stage == Stage::Finished
        }),
{
    let log = c.attempt.after(events, resp).log;
    let o = c.attempt.after(events, resp).outcome();
    if !o.connected {
        assert(o.log == log);
        assert(log.push(
            own_line(
                c.name,
                "the gateway did not accept IKEv"@ + c.version.digit() + "; retrying as IKEv"@
                    + flipped(c.version).digit(),
            ),
        ).take(log.len() as int) =~= log);
        if rejects_version(log) {
            let i = choose|i: int| 0 <= i < log.len() && line_rejects_version((#[trigger] log[i]).msg);
            assert(line_rejects_version(log[i].msg));
        }
    }
}

/// While children are left, the connect goes on to the next of them, in their order.
pub proof fn law_every_child_is_tried(
    c: ConnectView,
    events: Seq<MessageView>,
    resp: MessageView,
)
    requires
        c.wf(),
        c.stage == Stage::Initiate,
        !c.attempt.after(events, resp).is_over(),
    ensures
        ({
            let next = c.after_initiated(events, resp);
            &&& next.task() matches TaskView::Initiate(m) && m.get_str("child"@) == Some(
                c.attempt.children[c.attempt.tried + 1],
            ) && m.get_str("ike"@) == Some(c.name)
            &&& next.config == c.config && next.name == c.name && next.version == c.version
            &&& next.result is None && next.earlier == c.earlier
        }),
{
    let next = c.after_initiated(events, resp);
    law_initiate_names_the_child(next);
}

/// `initiate` names the next child and the connection that it belongs to.
pub proof fn law_initiate_names_the_child(c: ConnectView)
    requires
        c.wf(),
        c.stage == Stage::Initiate,
    ensures
        c.task() matches TaskView::Initiate(m) && m.get_str("child"@) == Some(
            c.attempt.children[c.attempt.tried],
        ) && m.get_str("ike"@) == Some(c.name),
{
    let child = c.attempt.children[c.attempt.tried];
    let none = empty_message();
    reveal_strlit("child");
    reveal_strlit("ike");
    assert("child"@.len() == 5 && "ike"@.len() == 3);
    law_first_of_a_name_counts(none, "child"@, ValueView::Str(Seq::empty()), "child"@);
    law_first_of_a_name_counts(none, "child"@, ValueView::Str(Seq::empty()), "ike"@);
    law_written_is_read(none, "child"@, child, Seq::empty(), none);
    let one = none.with_str("child"@, child);
    law_first_of_a_name_counts(none, "child"@, ValueView::Str(encode_utf8(child)), "ike"@);
    law_written_is_read(one, "ike"@, c.name, Seq::empty(), none);
    law_first_of_a_name_counts(one, "ike"@, ValueView::Str(encode_utf8(c.name)), "child"@);
}

/// A connect loads the connection, then its key, then the password where the profile has a second
/// round and a password is there, and then brings up the children. A command that charon does not
/// answer with `yes` ends it with charon's reason.
pub proof fn law_commands_come_in_order(c: ConnectView, resp: MessageView)
    requires
        c.wf(),
        c.task() is Load,
    ensures
        resp.get_str("success"@) != Some("yes"@) ==> {
            &&& c.after_loaded(resp) matches Err(ControlErrorView::Rejected(_, why))
            &&& resp.get_str("errmsg"@) is Some ==> why == resp.get_str("errmsg"@)->0
        },
        resp.get_str("success"@) == Some("yes"@) ==> {
            &&& c.after_loaded(resp) matches Ok(next)
            &&& next.config == c.config && next.name == c.name && next.password == c.password
            &&& next.peers == c.peers && next.version == c.version && next.attempt == c.attempt
            &&& next.earlier == c.earlier && next.result == c.result
            &&& c.stage == Stage::LoadConn ==> next.stage == Stage::LoadShared
            &&& c.stage == Stage::LoadShared && c.password is Some && c.config.user_auth is Some
                ==> next.stage == Stage::LoadUser
            &&& c.stage == Stage::LoadShared && (c.password is None || c.config.user_auth is None)
                ==> next.stage == Stage::Initiate
            &&& c.stage == Stage::LoadUser ==> next.stage == Stage::Initiate
        },
{
}

/// Each loading command carries what its stage is for, under the name of the connection and at the
/// version of the attempt.
pub proof fn law_commands_carry_their_stage(c: ConnectView)
    requires
        c.wf(),
    ensures
        c.stage == Stage::LoadConn ==> c.task() == TaskView::Load(
            "load-conn"@,
            load_conn_for(c.config, c.name, c.version),
        ),
        c.stage == Stage::LoadShared ==> (c.task() matches TaskView::Load(command, m) && command
            == "load-shared"@ && m.get_str("data"@) == Some(c.config.secret) && m.get_str("id"@)
            == Some("ike-"@ + c.name)),
        c.stage == Stage::LoadUser ==> (c.task() matches TaskView::Load(command, m) && command
            == "load-shared"@ && m.get_str("data"@) == c.password && m.get_str("id"@) == Some(
            "user-"@ + c.name,
        )),
        c.stage == Stage::Finished ==> c.task() is Finished,
{
    law_load_shared_carries_the_secret(c.config, c.name, c.peers);
    if c.stage == Stage::LoadUser {
        law_user_secret_is_separate(
            c.config,
            c.config.secret,
            c.name,
            c.password->0,
            c.version,
            c.peers,
        );
    }
}

/// A line means a rejected version exactly when `NO_PROP` stands somewhere in it, in any case: that
/// is what charon's full and its short spelling of the notification have in common.
pub proof fn law_no_proposal_is_recognised(msg: Seq<char>)
    ensures
        line_rejects_version(msg) <==> exists|i: int|
            0 <= i && i + 7 <= msg.len() && uppercase(#[trigger] msg.subrange(i, i + 7))
                == "NO_PROP"@,
{
    reveal_strlit("NO_PROP");
    reveal_strlit("NO_PROPOSAL_CHOSEN");
    let m = uppercase(msg);
    if has(m, "NO_PROPOSAL_CHOSEN"@) {
        let i = choose|i: int| occurs_at(m, "NO_PROPOSAL_CHOSEN"@, i);
        let part = m.subrange(i, i + "NO_PROPOSAL_CHOSEN"@.len());
        assert forall|k: int| 0 <= k < 7 implies m.subrange(i, i + 7)[k] == "NO_PROP"@[k] by {
            assert(m.subrange(i, i + 7)[k] == part[k]);
        }
        assert(m.subrange(i, i + 7) =~= "NO_PROP"@);
        assert(occurs_at(m, "NO_PROP"@, i));
    }
    if has(m, "NO_PROP"@) {
        let i = choose|i: int| occurs_at(m, "NO_PROP"@, i);
        assert(uppercase(msg.subrange(i, i + 7)) =~= m.subrange(i, i + 7));
    }
    if exists|i: int|
        0 <= i && i + 7 <= msg.len() && uppercase(#[trigger] msg.subrange(i, i + 7))
            == "NO_PROP"@ {
        let i = choose|i: int|
            0 <= i && i + 7 <= msg.len() && uppercase(#[trigger] msg.subrange(i, i + 7))
                == "NO_PROP"@;
        assert(uppercase(msg.subrange(i, i + 7)) =~= m.subrange(i, i + 7));
        assert(occurs_at(m, "NO_PROP"@, i));
    }
}

/// A connect is refused exactly when the profile wants a second round and there is no password for
/// it, or when it names no network.
pub proof fn law_refused_without_password_or_network(c: ConfigView, has_password: bool)
    ensures
        refusal(c, has_password) is None <==> (c.user_auth is Some ==> has_password)
            && c.remote_subnets.len() > 0,
        c.user_auth is Some && !has_password ==> refusal(c, has_password) == Some(
            ControlErrorView::MissingUserPassword,
        ),
        !(c.user_auth is Some && !has_password) && c.remote_subnets.len() == 0 ==> refusal(
            c,
            has_password,
        ) == Some(ControlErrorView::NoRemoteNetworks),
{
}

/// A log event is captured with what stands under charon's own keys.
pub proof fn law_log_line_says_what_the_event_says(event: MessageView)
    ensures
        ({
            let l = line_of(event);
            &&& event.get_str("msg"@) == Some(l.msg) || event.get_str("msg"@) is None && l.msg.len()
                == 0
            &&& event.get_str("group"@) == Some(l.group) || event.get_str("group"@) is None
                && l.group.len() == 0
            &&& l.ikesa == event.get_str("ikesa-name"@)
            &&& event.get_str("level"@) is None ==> l.level == 0
        }),
{
}

proof fn lemma_peers_come_from_somewhere(gateway: Seq<char>, resolved: Seq<Seq<char>>, n: int)
    requires
        0 <= n <= resolved.len(),
    ensures
        forall|k: int|
            0 <= k < peers_of(gateway, resolved, n).len() ==> #[trigger] peers_of(
                gateway,
                resolved,
                n,
            )[k] == gateway || resolved.contains(peers_of(gateway, resolved, n)[k]),
    decreases n,
{
    if n > 0 {
        lemma_peers_come_from_somewhere(gateway, resolved, n - 1);
        let before = peers_of(gateway, resolved, n - 1);
        let now = peers_of(gateway, resolved, n);
        assert forall|k: int| 0 <= k < now.len() implies #[trigger] now[k] == gateway
            || resolved.contains(now[k]) by {
            if k < before.len() {
                assert(now[k] == before[k]);
            } else {
                assert(now[k] == resolved[n - 1]);
            }
        }
    }
}

/// No one else is among the peer's identities: each is the gateway or an address that it resolves to.
pub proof fn law_peers_are_the_gateway(gateway: Seq<char>, resolved: Seq<Seq<char>>)
    ensures
        forall|k: int|
            0 <= k < peers_of(gateway, resolved, resolved.len() as int).len() ==> #[trigger] peers_of(
                gateway,
                resolved,
                resolved.len() as int,
            )[k] == gateway || resolved.contains(
                peers_of(gateway, resolved, resolved.len() as int)[k],
            ),
        peers_of(gateway, resolved, 0) == seq![gateway],
{
    lemma_peers_come_from_somewhere(gateway, resolved, resolved.len() as int);
}

/// A disconnect terminates the IKE SA of the connection before it drops anything, and drops the
/// connection itself under the name that it was loaded under.
pub proof fn law_disconnect_ends_the_connection(
    c: ConfigView,
    name: Seq<char>,
    version: IkeVersion,
)
    ensures
        terminate(name).get_str("ike"@) == Some(name),
        retirement(name).len() == 3,
        retirement(name)[0].0 == "unload-shared"@,
        retirement(name)[1].0 == "unload-shared"@,
        retirement(name)[2].0 == "unload-conn"@,
        retirement(name)[2].1.get_str("name"@) == Some(name),
        load_conn_for(c, name, version).get_section(name) is Some,
{
    let none = empty_message();
    law_first_of_a_name_counts(none, name, ValueView::Section(none), name);
    law_first_of_a_name_counts(none, name, ValueView::Section(none), "ike"@);
    law_first_of_a_name_counts(none, name, ValueView::Section(none), "name"@);
    law_written_is_read(none, "ike"@, name, Seq::empty(), none);
    law_written_is_read(none, "name"@, name, Seq::empty(), none);
    let conn = load_conn_for(c, name, version).entries[0].1->Section_0;
    law_written_is_read(none, name, name, Seq::empty(), conn);
}

/// Every error of a connect is told in its own words; a rejection names the step and what charon
/// said.
pub proof fn law_error_says_what_it_is_about(ctx: Seq<char>, why: Seq<char>)
    ensures
        ControlErrorView::Rejected(ctx, why).text() == ctx + " was rejected by charon: "@ + why,
        ControlErrorView::NoUnixTransport.text()
            == "the Unix vici socket is not available on this platform; use a TCP transport"@,
        ControlErrorView::MissingUserPassword.text()
            == "this profile's gateway asks for a username and password, which were not supplied"@,
        ControlErrorView::NoRemoteNetworks.text()
            == "this profile names no remote networks, so bringing it up would route all traffic through the VPN — and if the gateway does not carry it, cut off internet access. Add the subnet(s) you need to reach, or choose to route all traffic through the VPN on purpose"@,
{
}

/// A loading step that charon rejects ends the connect with the name of the step and charon's own
/// message, or with words for its absence.
pub proof fn law_rejected_step_is_named(c: ConnectView, resp: MessageView)
    requires
        !succeeded(resp),
    ensures
        ({
            let r = c.after_loaded(resp);
            let why = match resp.get_str("errmsg"@) {
                Some(s) => s,
                None => "unknown error"@,
            };
            &&& c.stage == Stage::LoadConn ==> r == Err::<ConnectView, ControlErrorView>(
                ControlErrorView::Rejected("load-conn"@, why),
            )
            &&& c.stage == Stage::LoadShared ==> r == Err::<ConnectView, ControlErrorView>(
                ControlErrorView::Rejected("load-shared"@, why),
            )
            &&& c.stage == Stage::LoadUser ==> r == Err::<ConnectView, ControlErrorView>(
                ControlErrorView::Rejected("load-shared (user auth)"@, why),
            )
        }),
{
}

/// The client's own lines in the transcript are in charon's group for configuration, at the lowest
/// level and for the connection: a child that did not come up beside others is named with the
/// reason, a tunnel with only some of its networks says how many, and a retry says which version
/// was refused and which comes next.
pub proof fn law_own_lines_say_what_happened(
    a: AttemptView,
    events: Seq<MessageView>,
    resp: MessageView,
    c: ConnectView,
)
    ensures
        ({
            let log = a.after(events, resp).log;
            let heard = with_events(a.log, events, events.len() as int);
            let told = LogView {
                group: "CFG"@,
                level: 0,
                ikesa: Some(a.name),
                msg: a.children[a.tried] + " did not come up: "@ + decline(resp),
            };
            &&& resp.get_str("success"@) == Some("yes"@) ==> log == heard
            &&& a.children.len() <= 1 ==> log == heard
            &&& resp.get_str("success"@) != Some("yes"@) && a.children.len() > 1 ==> log.len()
                > heard.len() && log[heard.len() as int] == told && log.take(heard.len() as int)
                == heard
        }),
        0 < a.established < a.children.len() ==> a.outcome().log == a.log.push(
            LogView {
                group: "CFG"@,
                level: 0,
                ikesa: Some(a.name),
                msg: decimal(a.established as nat) + " of "@ + decimal(a.children.len())
                    + " remote networks came up; the rest are not reachable over this tunnel"@,
            },
        ),
        a.established == 0 || a.established == a.children.len() ==> a.outcome().log == a.log,
        c.earlier is None && !a.outcome().connected && rejects_version(a.outcome().log) ==> (
        c.after_attempt(a).earlier matches Some(first) && first.log == a.outcome().log.push(
            LogView {
                group: "CFG"@,
                level: 0,
                ikesa: Some(c.name),
                msg: "the gateway did not accept IKEv"@ + c.version.digit()
                    + "; retrying as IKEv"@ + (if c.version == IkeVersion::V1 {
                    "2"@
                } else {
                    "1"@
                }),
            },
        )),
{
    let heard = with_events(a.log, events, events.len() as int);
    let log = a.after(events, resp).log;
    if resp.get_str("success"@) != Some("yes"@) && a.children.len() > 1 {
        assert(log.take(heard.len() as int) =~= heard);
    }
}

} // verus!
