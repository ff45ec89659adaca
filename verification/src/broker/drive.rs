//! OpenVPN's management interface, as the decisions between what it said and what to send next:
//! enable the reports once it has spoken, release its holds, and wait for CONNECTED or for a
//! reason why it never will be.

use crate::broker::protocol::FULL_TUNNEL_REFUSED;
use crate::model::opt_view;
use crate::text::{
    after, before, begins, contains, decimal, format_u64, has, index_of, join, join_all, joined,
    lemma_split_of_joined, lossy, lossy_text, occurs_at, rest_after, same, split, split_on,
    split_once, starts_with, strip_prefix, trim, trim_end, trimmed, trimmed_end, up_to, views,
};
use crate::vici::message::append_bytes;
use vstd::prelude::*;
use vstd::slice::slice_subrange;

verus! {

/// How many of OpenVPN's own lines are kept for the diagnosis of a failure.
pub const LOG_RING: usize = 40;

/// How many of them a failure quotes.
pub const LOG_TAIL: usize = 6;

/// What the gateway pushed at connect: whether it took the default route, and the search domain
/// it named.
#[derive(Debug)]
pub struct Pushed {
    pub full: bool,
    pub domain: Option<String>,
}

/// The content of a [`Pushed`].
pub struct PushedView {
    pub full: bool,
    pub domain: Option<Seq<char>>,
}

impl View for Pushed {
    type V = PushedView;

    open spec fn view(&self) -> PushedView {
        PushedView { full: self.full, domain: opt_view(self.domain) }
    }
}

/// A push without a default route or a domain.
pub open spec fn no_push() -> PushedView {
    PushedView { full: false, domain: None }
}

/// What one more pushed option adds.
pub open spec fn with_option(p: PushedView, option: Seq<char>) -> PushedView {
    if begins(option, "redirect-gateway"@) {
        PushedView { full: true, ..p }
    } else if begins(option, "dhcp-option DOMAIN "@) {
        PushedView { domain: Some(trimmed(option.skip("dhcp-option DOMAIN "@.len() as int))), ..p }
    } else {
        p
    }
}

/// What the first `n` pushed options say.
pub open spec fn options_say(options: Seq<Seq<char>>, n: int) -> PushedView
    decreases n,
{
    if n <= 0 {
        no_push()
    } else {
        with_option(options_say(options, n - 1), trimmed(options[n - 1]))
    }
}

/// What a line says of the gateway's push, when it reports one:
/// `PUSH: Received control message: 'PUSH_REPLY,option,option'`.
pub open spec fn push_of(line: Seq<char>) -> Option<PushedView> {
    match rest_after(line, "PUSH_REPLY,"@) {
        Some(rest) => {
            let options = split_on(up_to(rest, '\''), ',');
            Some(options_say(options, options.len() as int))
        },
        None => None,
    }
}

/// Reads what a line says of the gateway's push.
pub fn parse_push(line: &str) -> (r: Option<Pushed>)
    ensures
        match r {
            Some(p) => push_of(line@) == Some(p@),
            None => push_of(line@) is None,
        },
{
    let rest = match after(line, "PUSH_REPLY,") {
        Some(s) => s,
        None => {
            return None;
        },
    };
    let options = split(before(rest.as_str(), '\'').as_str(), ',');
    let ghost all = split_on(up_to(rest@, '\''), ',');
    let mut p = Pushed { full: false, domain: None };
    let mut i: usize = 0;
    while i < options.len()
        invariant
            i <= options@.len(),
            all == views(options@),
            p@ == options_say(all, i as int),
        decreases options@.len() - i,
    {
        assert(all[i as int] == options@[i as int]@);
        let option = trim(options[i].as_str());
        let o = option.as_str();
        if starts_with(o, "redirect-gateway") {
            p = Pushed { full: true, domain: p.domain };
        } else {
            match strip_prefix(o, "dhcp-option DOMAIN ") {
                Some(d) => {
                    p = Pushed { full: p.full, domain: Some(trim(d.as_str())) };
                },
                None => {},
            }
        }
        i = i + 1;
    }
    Some(p)
}

/// What is kept of a line: of a `>LOG:<time>,<flags>,<message>` the message, of any other all.
pub open spec fn shown(line: Seq<char>) -> Seq<char> {
    if begins(line, ">LOG:"@) {
        let rest = line.skip(">LOG:"@.len() as int);
        let i = index_of(rest, ',');
        let flags = rest.skip(i + 1);
        let j = index_of(flags, ',');
        if i < rest.len() && j < flags.len() {
            trimmed(flags.skip(j + 1))
        } else {
            trimmed(rest)
        }
    } else {
        trimmed(line)
    }
}

/// The kept lines after one more.
pub open spec fn noted(recent: Seq<Seq<char>>, line: Seq<char>) -> Seq<Seq<char>> {
    if shown(line).len() == 0 {
        recent
    } else if recent.len() == LOG_RING {
        recent.skip(1).push(shown(line))
    } else {
        recent.push(shown(line))
    }
}

/// The last kept lines as a clause to append to a message; nothing when there are none.
pub open spec fn tail_of(recent: Seq<Seq<char>>) -> Seq<char> {
    if recent.len() == 0 {
        Seq::empty()
    } else {
        let last = if recent.len() > LOG_TAIL {
            recent.skip(recent.len() - LOG_TAIL)
        } else {
            recent
        };
        " ("@ + join_all(last, " | "@) + ")"@
    }
}

/// What is said when the gateway rejects the login.
pub open spec fn login_rejected() -> Seq<char> {
    "the gateway rejected the username or password"@
}

/// What is said when OpenVPN exits, by the detail that it gives.
pub open spec fn exit_text(reason: Seq<char>, recent: Seq<Seq<char>>) -> Seq<char> {
    if reason == "auth-failure"@ {
        login_rejected()
    } else if reason.len() == 0 {
        "openvpn exited before connecting"@ + tail_of(recent)
    } else {
        "openvpn exited before connecting ("@ + reason + ")"@ + tail_of(recent)
    }
}

/// The driver of one connect.
pub struct Driver {
    /// The last lines that OpenVPN said.
    pub recent: Vec<String>,
    /// What has been read of a line that is not complete.
    pub pending: Vec<u8>,
    /// The reports are enabled and the first hold is released.
    pub setup_sent: bool,
    /// The tunnel may take the default route.
    pub allow_full: bool,
    pub pushed: Pushed,
}

/// The content of a [`Driver`].
pub struct DriverView {
    pub recent: Seq<Seq<char>>,
    pub pending: Seq<u8>,
    pub setup_sent: bool,
    pub allow_full: bool,
    pub pushed: PushedView,
}

impl View for Driver {
    type V = DriverView;

    open spec fn view(&self) -> DriverView {
        DriverView {
            recent: views(self.recent@),
            pending: self.pending@,
            setup_sent: self.setup_sent,
            allow_full: self.allow_full,
            pushed: self.pushed@,
        }
    }
}

/// What a line means for the connect.
#[derive(Debug)]
pub enum Heard {
    /// Nothing to do.
    Nothing,
    /// A reconnect went back on hold: let it proceed.
    Release,
    /// The tunnel is up, with the address that the gateway assigned.
    Connected(Option<String>),
    /// The tunnel will not come up, and why.
    Failed(String),
}

/// The content of a [`Heard`].
pub enum HeardView {
    Nothing,
    Release,
    Connected(Option<Seq<char>>),
    Failed(Seq<char>),
}

impl View for Heard {
    type V = HeardView;

    open spec fn view(&self) -> HeardView {
        match self {
            Heard::Nothing => HeardView::Nothing,
            Heard::Release => HeardView::Release,
            Heard::Connected(ip) => HeardView::Connected(opt_view(*ip)),
            Heard::Failed(why) => HeardView::Failed(why@),
        }
    }
}

/// The field at `i`; empty when there is none.
pub open spec fn field(fields: Seq<Seq<char>>, i: int) -> Seq<char> {
    if i < fields.len() {
        fields[i]
    } else {
        Seq::empty()
    }
}

/// The address in the fields of a CONNECTED report, when there is one.
pub open spec fn assigned(fields: Seq<Seq<char>>) -> Option<Seq<char>> {
    let ip = trimmed(field(fields, 3));
    if ip.len() > 0 {
        Some(ip)
    } else {
        None
    }
}

/// What a state report means: its fields are time, state, detail, local address and more.
pub open spec fn state_means(fields: Seq<Seq<char>>, recent: Seq<Seq<char>>) -> HeardView {
    if field(fields, 1) == "CONNECTED"@ {
        HeardView::Connected(assigned(fields))
    } else if field(fields, 1) == "EXITING"@ {
        HeardView::Failed(exit_text(field(fields, 2), recent))
    } else {
        HeardView::Nothing
    }
}

/// What a line means that is no state report.
pub open spec fn other_means(line: Seq<char>, setup_sent: bool, recent: Seq<Seq<char>>) -> HeardView {
    if setup_sent && begins(line, ">HOLD:"@) {
        HeardView::Release
    } else if begins(line, ">PASSWORD:"@) && has(
        line.skip(">PASSWORD:"@.len() as int),
        "Verification Failed"@,
    ) {
        HeardView::Failed(login_rejected())
    } else if begins(line, ">FATAL:"@) {
        HeardView::Failed(
            "openvpn could not start: "@ + trimmed(line.skip(">FATAL:"@.len() as int)) + tail_of(
                recent,
            ),
        )
    } else {
        HeardView::Nothing
    }
}

/// The driver after a line, and what the line means. A state report counts wherever it stands in
/// the line: it may come as it is or inside an echo of the log.
pub open spec fn heard(d: DriverView, line: Seq<char>) -> (DriverView, HeardView) {
    if line.len() == 0 {
        (d, HeardView::Nothing)
    } else {
        let recent = noted(d.recent, line);
        let pushed = match push_of(line) {
            Some(p) => p,
            None => d.pushed,
        };
        let next = DriverView { recent, pushed, ..d };
        if push_of(line) is Some && pushed.full && !d.allow_full {
            (next, HeardView::Failed(FULL_TUNNEL_REFUSED@))
        } else {
            match rest_after(line, ">STATE:"@) {
                Some(rest) => (next, state_means(split_on(rest, ','), recent)),
                None => (next, other_means(line, d.setup_sent, recent)),
            }
        }
    }
}

/// How far a connect has come.
#[derive(Debug)]
pub enum Progress {
    /// Read more.
    Wait,
    /// The tunnel is up.
    Connected(Option<String>),
    /// The tunnel will not come up, and why.
    Failed(String),
}

/// The content of a [`Progress`].
pub enum ProgressView {
    Wait,
    Connected(Option<Seq<char>>),
    Failed(Seq<char>),
}

impl View for Progress {
    type V = ProgressView;

    open spec fn view(&self) -> ProgressView {
        match self {
            Progress::Wait => ProgressView::Wait,
            Progress::Connected(ip) => ProgressView::Connected(opt_view(*ip)),
            Progress::Failed(why) => ProgressView::Failed(why@),
        }
    }
}

/// The position of the first line feed, or the length when there is none.
pub open spec fn line_feed_at(b: Seq<u8>) -> int
    decreases b.len(),
{
    if b.len() == 0 || b[0] == 10 {
        0
    } else {
        1 + line_feed_at(b.skip(1))
    }
}

/// The commands that enable the reports and release the first hold.
pub open spec fn setup_commands() -> Seq<Seq<char>> {
    seq!["state on"@, "log on"@, "hold release"@]
}

/// The driver after every complete line that is pending: the commands to send, after those of
/// `sent`, and how far the connect has come. The setup is sent once OpenVPN has spoken: what is
/// sent before its first line is lost.
pub open spec fn drained(d: DriverView, sent: Seq<Seq<char>>) -> (
    DriverView,
    Seq<Seq<char>>,
    ProgressView,
)
    decreases d.pending.len(),
{
    let i = line_feed_at(d.pending);
    if 0 <= i < d.pending.len() {
        let line = trimmed_end(lossy(d.pending.take(i + 1)));
        let (next, means) = heard(DriverView { pending: d.pending.skip(i + 1), ..d }, line);
        match means {
            HeardView::Nothing => drained(next, sent),
            HeardView::Release => drained(next, sent.push("hold release"@)),
            HeardView::Connected(ip) => (next, sent, ProgressView::Connected(ip)),
            HeardView::Failed(why) => (next, sent, ProgressView::Failed(why)),
        }
    } else if !d.setup_sent && d.recent.len() > 0 {
        (DriverView { setup_sent: true, ..d }, sent + setup_commands(), ProgressView::Wait)
    } else {
        (d, sent, ProgressView::Wait)
    }
}

/// The texts of a list of commands.
pub open spec fn commands(v: Seq<&'static str>) -> Seq<Seq<char>> {
    Seq::new(v.len(), |i: int| v[i]@)
}

proof fn lemma_line_feed_at(b: Seq<u8>, i: int)
    requires
        0 <= i <= b.len(),
        forall|k: int| 0 <= k < i ==> b[k] != 10,
        i == b.len() || b[i] == 10,
    ensures
        line_feed_at(b) == i,
    decreases i,
{
    if i > 0 {
        assert(b[0] != 10);
        let t = b.skip(1);
        assert forall|k: int| 0 <= k < i - 1 implies t[k] != 10 by {
            assert(t[k] == b[k + 1]);
        }
        lemma_line_feed_at(t, i - 1);
    }
}

fn find_line_feed(b: &Vec<u8>) -> (r: usize)
    ensures
        r <= b@.len(),
        r == line_feed_at(b@),
{
    let mut i: usize = 0;
    while i < b.len() && b[i] != 10
        invariant
            i <= b@.len(),
            forall|k: int| 0 <= k < i ==> b@[k] != 10,
        decreases b@.len() - i,
    {
        i = i + 1;
    }
    proof {
        lemma_line_feed_at(b@, i as int);
    }
    i
}

fn show(line: &str) -> (r: String)
    ensures
        r@ == shown(line@),
{
    match strip_prefix(line, ">LOG:") {
        Some(rest) => {
            match split_once(rest.as_str(), ',') {
                Some((_, flags)) => {
                    match split_once(flags.as_str(), ',') {
                        Some((_, msg)) => trim(msg.as_str()),
                        None => trim(rest.as_str()),
                    }
                },
                None => trim(rest.as_str()),
            }
        },
        None => trim(line),
    }
}

/// Appends a line to the kept ones.
pub fn push_recent(recent: &mut Vec<String>, line: &str)
    ensures
        views(final(recent)@) == noted(views(old(recent)@), line@),
{
    let text = show(line);
    if text.as_str().is_empty() {
        return;
    }
    let ghost all = views(recent@);
    let ghost seen = text@;
    if recent.len() == LOG_RING {
        let _ = recent.remove(0);
        assert(views(recent@) =~= all.skip(1));
    }
    let ghost kept = recent@;
    recent.push(text);
    assert(views(recent@) =~= views(kept).push(seen));
}

/// The last kept lines as a clause to append to a message.
pub fn tail(recent: &Vec<String>) -> (r: String)
    ensures
        r@ == tail_of(views(recent@)),
{
    let n: usize = recent.len();
    if n == 0 {
        return String::new();
    }
    let from: usize = if n > LOG_TAIL {
        n - LOG_TAIL
    } else {
        0
    };
    let ghost all = views(recent@);
    let mut last: Vec<String> = Vec::new();
    let mut i: usize = from;
    while i < n
        invariant
            n == recent@.len(),
            from <= i <= n,
            all == views(recent@),
            views(last@) == all.subrange(from as int, i as int),
        decreases n - i,
    {
        let ghost kept = last@;
        let line = recent[i].clone();
        let ghost seen = line@;
        assert(all[i as int] == recent@[i as int]@);
        last.push(line);
        assert(views(last@) =~= views(kept).push(seen));
        assert(views(last@) =~= all.subrange(from as int, i + 1));
        i = i + 1;
    }
    assert(all.subrange(from as int, n as int) =~= (if all.len() > LOG_TAIL {
        all.skip(all.len() - LOG_TAIL)
    } else {
        all
    }));
    let mut s = " (".to_owned();
    s.append(join(&last, " | ").as_str());
    s.append(")");
    s
}

/// What is said when OpenVPN exits.
pub fn exit_reason(reason: &str, recent: &Vec<String>) -> (r: String)
    ensures
        r@ == exit_text(reason@, views(recent@)),
{
    if same(reason, "auth-failure") {
        return "the gateway rejected the username or password".to_owned();
    }
    let mut s = "openvpn exited before connecting".to_owned();
    if !reason.is_empty() {
        s.append(" (");
        s.append(reason);
        s.append(")");
    }
    let ghost said = s@;
    s.append(tail(recent).as_str());
    proof {
        if reason@.len() > 0 {
            assert(said =~= "openvpn exited before connecting"@ + " ("@ + reason@ + ")"@);
            reveal_strlit("openvpn exited before connecting");
            reveal_strlit(" (");
            reveal_strlit("openvpn exited before connecting (");
            assert("openvpn exited before connecting"@ + " ("@
                =~= "openvpn exited before connecting ("@);
        }
    }
    s
}

fn nth(fields: &Vec<String>, i: usize) -> (r: &str)
    ensures
        r@ == field(views(fields@), i as int),
{
    if i < fields.len() {
        fields[i].as_str()
    } else {
        proof {
            reveal_strlit("");
            assert(""@ =~= Seq::empty());
        }
        ""
    }
}

impl Driver {
    /// A driver that has heard nothing.
    pub fn new(allow_full: bool) -> (r: Self)
        ensures
            r@ == (DriverView {
                recent: Seq::empty(),
                pending: Seq::empty(),
                setup_sent: false,
                allow_full,
                pushed: no_push(),
            }),
    {
        let r = Driver {
            recent: Vec::new(),
            pending: Vec::new(),
            setup_sent: false,
            allow_full,
            pushed: Pushed { full: false, domain: None },
        };
        assert(views(r.recent@) =~= Seq::empty());
        r
    }

    /// Takes in one line.
    pub fn hear(&mut self, line: &str) -> (r: Heard)
        ensures
            heard(old(self)@, line@) == (final(self)@, r@),
    {
        if line.is_empty() {
            return Heard::Nothing;
        }
        push_recent(&mut self.recent, line);
        match parse_push(line) {
            Some(p) => {
                let full: bool = p.full;
                self.pushed = p;
                if full && !self.allow_full {
                    return Heard::Failed(FULL_TUNNEL_REFUSED.to_owned());
                }
            },
            None => {},
        }
        match after(line, ">STATE:") {
            Some(rest) => {
                let fields = split(rest.as_str(), ',');
                if same(nth(&fields, 1), "CONNECTED") {
                    let ip = trim(nth(&fields, 3));
                    if ip.as_str().is_empty() {
                        return Heard::Connected(None);
                    }
                    return Heard::Connected(Some(ip));
                }
                if same(nth(&fields, 1), "EXITING") {
                    return Heard::Failed(exit_reason(nth(&fields, 2), &self.recent));
                }
                Heard::Nothing
            },
            None => self.other(line),
        }
    }

    fn other(&self, line: &str) -> (r: Heard)
        ensures
            r@ == other_means(line@, self.setup_sent, self@.recent),
    {
        if self.setup_sent && starts_with(line, ">HOLD:") {
            return Heard::Release;
        }
        match strip_prefix(line, ">PASSWORD:") {
            Some(rest) => {
                if contains(rest.as_str(), "Verification Failed") {
                    return Heard::Failed(
                        "the gateway rejected the username or password".to_owned(),
                    );
                }
            },
            None => {},
        }
        match strip_prefix(line, ">FATAL:") {
            Some(rest) => {
                let mut s = "openvpn could not start: ".to_owned();
                s.append(trim(rest.as_str()).as_str());
                s.append(tail(&self.recent).as_str());
                Heard::Failed(s)
            },
            None => Heard::Nothing,
        }
    }

    /// Takes in what was read of the management interface. Returns the commands to send, and how
    /// far the connect has come.
    pub fn received(&mut self, bytes: &[u8]) -> (r: (Vec<&'static str>, Progress))
        ensures
            drained(
                DriverView { pending: old(self)@.pending + bytes@, ..old(self)@ },
                Seq::empty(),
            ) == (final(self)@, commands(r.0@), r.1@),
    {
        let ghost start = DriverView { pending: self@.pending + bytes@, ..self@ };
        append_bytes(&mut self.pending, bytes);
        assert(self@ == start);
        let mut sent: Vec<&'static str> = Vec::new();
        assert(commands(sent@) =~= Seq::empty());
        loop
            invariant
                start == (DriverView { pending: old(self)@.pending + bytes@, ..old(self)@ }),
                drained(start, Seq::empty()) == drained(self@, commands(sent@)),
            decreases self.pending@.len(),
        {
            let i: usize = find_line_feed(&self.pending);
            if i == self.pending.len() {
                if !self.setup_sent && self.recent.len() > 0 {
                    let ghost before = sent@;
                    sent.push("state on");
                    sent.push("log on");
                    sent.push("hold release");
                    assert(commands(sent@) =~= commands(before) + setup_commands());
                    self.setup_sent = true;
                }
                return (sent, Progress::Wait);
            }
            let ghost whole = self@;
            let rest = self.pending.split_off(i + 1);
            let raw = lossy_text(slice_subrange(self.pending.as_slice(), 0, i + 1));
            assert(self.pending@.subrange(0, i + 1) =~= whole.pending.take(i + 1));
            assert(rest@ =~= whole.pending.skip(i + 1));
            let line = trim_end(raw.as_str());
            self.pending = rest;
            assert(self@ == (DriverView { pending: whole.pending.skip(i + 1), ..whole }));
            let means = self.hear(line.as_str());
            match means {
                Heard::Nothing => {},
                Heard::Release => {
                    let ghost before = sent@;
                    sent.push("hold release");
                    assert(commands(sent@) =~= commands(before).push("hold release"@));
                },
                Heard::Connected(ip) => {
                    return (sent, Progress::Connected(ip));
                },
                Heard::Failed(why) => {
                    return (sent, Progress::Failed(why));
                },
            }
        }
    }

    /// What is said when the tunnel did not come up in time.
    pub fn timed_out(&self, seconds: u64) -> (r: String)
        ensures
            r@ == "the SSL VPN did not connect within "@ + decimal(seconds as nat) + "s"@ + tail_of(
                self@.recent,
            ),
    {
        let mut s = "the SSL VPN did not connect within ".to_owned();
        s.append(format_u64(seconds).as_str());
        s.append("s");
        s.append(tail(&self.recent).as_str());
        s
    }

    /// What is said when the process ended.
    pub fn exited(&self, status: &str) -> (r: String)
        ensures
            r@ == "openvpn exited ("@ + status@ + ")"@ + tail_of(self@.recent),
    {
        let mut s = "openvpn exited (".to_owned();
        s.append(status);
        s.append(")");
        s.append(tail(&self.recent).as_str());
        s
    }

    /// What is said when the management interface was closed.
    pub fn closed(&self) -> (r: String)
        ensures
            r@ == "openvpn closed its management interface"@ + tail_of(self@.recent),
    {
        let mut s = "openvpn closed its management interface".to_owned();
        s.append(tail(&self.recent).as_str());
        s
    }

    /// What is said when the management interface could not be read.
    pub fn read_failed(&self, why: &str) -> (r: String)
        ensures
            r@ == "management read failed: "@ + why@ + tail_of(self@.recent),
    {
        let mut s = "management read failed: ".to_owned();
        s.append(why);
        s.append(tail(&self.recent).as_str());
        s
    }
}

impl DriverView {
    /// What holds of every driver: it keeps no more lines than it may.
    pub open spec fn bounded(self) -> bool {
        self.recent.len() <= LOG_RING
    }
}

/// The kept lines never grow past their bound, whatever OpenVPN says.
pub proof fn law_kept_lines_stay_bounded(d: DriverView, sent: Seq<Seq<char>>)
    requires
        d.bounded(),
    ensures
        drained(d, sent).0.bounded(),
    decreases d.pending.len(),
{
    let i = line_feed_at(d.pending);
    if 0 <= i < d.pending.len() {
        let line = trimmed_end(lossy(d.pending.take(i + 1)));
        let (next, means) = heard(DriverView { pending: d.pending.skip(i + 1), ..d }, line);
        match means {
            HeardView::Nothing => law_kept_lines_stay_bounded(next, sent),
            HeardView::Release => law_kept_lines_stay_bounded(next, sent.push("hold release"@)),
            _ => {},
        }
    }
}

/// Nothing is sent before OpenVPN has spoken: while no line is complete and none is kept, there
/// is no command.
pub proof fn law_nothing_is_sent_into_silence(d: DriverView)
    requires
        d.recent.len() == 0,
        line_feed_at(d.pending) == d.pending.len(),
    ensures
        drained(d, Seq::empty()) == (d, Seq::<Seq<char>>::empty(), ProgressView::Wait),
{
}

/// A tunnel that may not take the default route never comes up past a push of it: the push itself
/// ends the connect.
pub proof fn law_unwanted_default_route_ends_the_connect(d: DriverView, line: Seq<char>)
    requires
        !d.allow_full,
        line.len() > 0,
        push_of(line) matches Some(p) && p.full,
    ensures
        heard(d, line).1 == HeardView::Failed(FULL_TUNNEL_REFUSED@),
{
}

/// Whether a pushed option takes the default route.
pub open spec fn takes_default_route(option: Seq<char>) -> bool {
    begins(trimmed(option), "redirect-gateway"@)
}

/// Whether a pushed option names a search domain.
pub open spec fn names_domain(option: Seq<char>, domain: Seq<char>) -> bool {
    let t = trimmed(option);
    let key = "dhcp-option DOMAIN "@;
    begins(t, key) && domain == trimmed(t.skip(key.len() as int))
}

/// Whether a pushed option names any search domain.
pub open spec fn is_domain_option(option: Seq<char>) -> bool {
    begins(trimmed(option), "dhcp-option DOMAIN "@)
}

proof fn lemma_option_kinds(t: Seq<char>)
    ensures
        !(begins(t, "redirect-gateway"@) && begins(t, "dhcp-option DOMAIN "@)),
{
    reveal_strlit("redirect-gateway");
    reveal_strlit("dhcp-option DOMAIN ");
    if begins(t, "redirect-gateway"@) && begins(t, "dhcp-option DOMAIN "@) {
        assert(t.subrange(0, "redirect-gateway"@.len() as int)[0] == t[0]);
        assert(t.subrange(0, "dhcp-option DOMAIN "@.len() as int)[0] == t[0]);
    }
}

proof fn lemma_options_say(options: Seq<Seq<char>>, n: int)
    requires
        0 <= n <= options.len(),
    ensures
        options_say(options, n).full <==> exists|i: int|
            0 <= i < n && takes_default_route(#[trigger] options[i]),
        match options_say(options, n).domain {
            Some(d) => exists|i: int|
                0 <= i < n && names_domain(#[trigger] options[i], d) && forall|j: int|
                    i < j < n ==> !is_domain_option(#[trigger] options[j]),
            None => forall|i: int| 0 <= i < n ==> !is_domain_option(#[trigger] options[i]),
        },
    decreases n,
{
    if n > 0 {
        lemma_options_say(options, n - 1);
        let before = options_say(options, n - 1);
        let now = options_say(options, n);
        let last = options[n - 1];
        lemma_option_kinds(trimmed(last));
        if takes_default_route(last) {
            assert(takes_default_route(options[n - 1]));
        } else if before.full {
            let i = choose|i: int| 0 <= i < n - 1 && takes_default_route(#[trigger] options[i]);
            assert(takes_default_route(options[i]));
        }
        if is_domain_option(last) {
            assert(names_domain(options[n - 1], now.domain->0));
        } else {
            assert(now.domain == before.domain);
            if let Some(d) = before.domain {
                let i = choose|i: int|
                    0 <= i < n - 1 && names_domain(#[trigger] options[i], d) && forall|j: int|
                        i < j < n - 1 ==> !is_domain_option(#[trigger] options[j]);
                assert(names_domain(options[i], d));
            }
        }
    }
}

/// A push takes the default route exactly when one of its options does, and its domain is the last
/// that is named.
pub proof fn law_push_is_what_its_options_say(options: Seq<Seq<char>>)
    ensures
        ({
            let p = options_say(options, options.len() as int);
            &&& p.full <==> exists|i: int|
                0 <= i < options.len() && takes_default_route(#[trigger] options[i])
            &&& match p.domain {
                Some(d) => exists|i: int|
                    0 <= i < options.len() && names_domain(#[trigger] options[i], d) && forall|j: int|
                        i < j < options.len() ==> !is_domain_option(#[trigger] options[j]),
                None => forall|i: int|
                    0 <= i < options.len() ==> !is_domain_option(#[trigger] options[i]),
            }
        }),
{
    lemma_options_say(options, options.len() as int);
}

/// Whether a text has no comma in it.
pub open spec fn has_no_comma(s: Seq<char>) -> bool {
    forall|k: int| 0 <= k < s.len() ==> s[k] != ','
}

/// The report of a state, as OpenVPN writes it.
pub open spec fn state_report(
    time: Seq<char>,
    state: Seq<char>,
    detail: Seq<char>,
    address: Seq<char>,
) -> Seq<char> {
    ">STATE:"@ + joined(seq![time, state, detail, address], seq![','], 4)
}

proof fn lemma_report_fields(
    time: Seq<char>,
    state: Seq<char>,
    detail: Seq<char>,
    address: Seq<char>,
)
    requires
        has_no_comma(time) && has_no_comma(state) && has_no_comma(detail) && has_no_comma(address),
    ensures
        rest_after(state_report(time, state, detail, address), ">STATE:"@) matches Some(rest)
            && split_on(rest, ',') == seq![time, state, detail, address],
{
    let v = seq![time, state, detail, address];
    let line = state_report(time, state, detail, address);
    let key = ">STATE:"@;
    assert(line.subrange(0, key.len() as int) =~= key);
    assert(occurs_at(line, key, 0));
    assert(line.skip(key.len() as int) =~= joined(v, seq![','], 4));
    assert forall|i: int, k: int| 0 <= i < 4 && 0 <= k < v[i].len() implies #[trigger] v[i][k]
        != ',' by {}
    lemma_split_of_joined(v, ',', 4);
    assert(v.take(4) =~= v);
}

/// A report of `CONNECTED` means that the tunnel is up with the address in it. One of `EXITING` means
/// that it will not come up: for a rejected login where OpenVPN says so. Any other state means
/// nothing yet.
pub proof fn law_state_reports_decide(
    d: DriverView,
    time: Seq<char>,
    state: Seq<char>,
    detail: Seq<char>,
    address: Seq<char>,
)
    requires
        has_no_comma(time) && has_no_comma(state) && has_no_comma(detail) && has_no_comma(address),
        push_of(state_report(time, state, detail, address)) is None,
    ensures
        ({
            let means = heard(d, state_report(time, state, detail, address)).1;
            &&& state == "CONNECTED"@ && trimmed(address).len() > 0 ==> means
                == HeardView::Connected(Some(trimmed(address)))
            &&& state == "CONNECTED"@ && trimmed(address).len() == 0 ==> means
                == HeardView::Connected(None)
            &&& state == "EXITING"@ ==> means is Failed
            &&& state == "EXITING"@ && detail == "auth-failure"@ ==> means == HeardView::Failed(
                "the gateway rejected the username or password"@,
            )
            &&& state != "CONNECTED"@ && state != "EXITING"@ ==> means is Nothing
        }),
{
    let line = state_report(time, state, detail, address);
    lemma_report_fields(time, state, detail, address);
    reveal_strlit(">STATE:");
    reveal_strlit("CONNECTED");
    reveal_strlit("EXITING");
    assert("CONNECTED"@.len() == 9 && "EXITING"@.len() == 7);
    assert(line.len() > 0);
}

/// OpenVPN's other notices: a hold is released once the reports are on, a failed password check and a
/// fatal error end the connect.
pub proof fn law_notices_decide(d: DriverView, text: Seq<char>)
    requires
        push_of(">HOLD:"@ + text) is None && rest_after(">HOLD:"@ + text, ">STATE:"@) is None,
        push_of(">FATAL:"@ + text) is None && rest_after(">FATAL:"@ + text, ">STATE:"@) is None,
        push_of(">PASSWORD:"@ + text) is None && rest_after(">PASSWORD:"@ + text, ">STATE:"@) is None,
    ensures
        d.setup_sent ==> heard(d, ">HOLD:"@ + text).1 is Release,
        !d.setup_sent ==> heard(d, ">HOLD:"@ + text).1 is Nothing,
        heard(d, ">FATAL:"@ + text).1 is Failed,
        has(text, "Verification Failed"@) ==> heard(d, ">PASSWORD:"@ + text).1
            == HeardView::Failed("the gateway rejected the username or password"@),
        has(text, "Verification Failed"@) == false ==> heard(d, ">PASSWORD:"@ + text).1 is Nothing,
{
    reveal_strlit(">HOLD:");
    reveal_strlit(">FATAL:");
    reveal_strlit(">PASSWORD:");
    let a = ">HOLD:"@ + text;
    let b = ">FATAL:"@ + text;
    let c = ">PASSWORD:"@ + text;
    assert(a.subrange(0, 6) =~= ">HOLD:"@);
    assert(b.subrange(0, 7) =~= ">FATAL:"@);
    assert(c.subrange(0, 10) =~= ">PASSWORD:"@);
    assert(c.skip(10) =~= text);
    assert(a[1] == 'H' && b[1] == 'F' && c[1] == 'P');
    assert(!begins(a, ">FATAL:"@) && !begins(a, ">PASSWORD:"@)) by {
        if begins(a, ">FATAL:"@) {
            assert(a.subrange(0, 7)[1] == a[1]);
        }
        if begins(a, ">PASSWORD:"@) {
            assert(a.subrange(0, 10)[1] == a[1]);
        }
    }
    assert(!begins(b, ">HOLD:"@) && !begins(b, ">PASSWORD:"@)) by {
        if begins(b, ">HOLD:"@) {
            assert(b.subrange(0, 6)[1] == b[1]);
        }
        if begins(b, ">PASSWORD:"@) {
            assert(b.subrange(0, 10)[1] == b[1]);
        }
    }
    assert(!begins(c, ">HOLD:"@) && !begins(c, ">FATAL:"@)) by {
        if begins(c, ">HOLD:"@) {
            assert(c.subrange(0, 6)[1] == c[1]);
        }
        if begins(c, ">FATAL:"@) {
            assert(c.subrange(0, 7)[1] == c[1]);
        }
    }
}

/// A line changes nothing of a driver but the lines that it keeps and what was pushed: the newest line
/// is kept last, and of the others at most the oldest is lost.
pub proof fn law_line_is_kept(d: DriverView, line: Seq<char>)
    requires
        d.bounded(),
    ensures
        ({
            let next = heard(d, line).0;
            &&& next.pending == d.pending && next.setup_sent == d.setup_sent && next.allow_full
                == d.allow_full
            &&& line.len() > 0 && shown(line).len() > 0 ==> next.recent.len() > 0
                && next.recent.last() == shown(line)
            &&& line.len() > 0 && shown(line).len() > 0 && d.recent.len() < LOG_RING
                ==> next.recent.drop_last() == d.recent
            &&& line.len() > 0 && shown(line).len() > 0 && d.recent.len() == LOG_RING
                ==> next.recent.drop_last() == d.recent.skip(1)
            &&& line.len() == 0 || shown(line).len() == 0 ==> next.recent == d.recent
            &&& push_of(line) is None || line.len() == 0 ==> next.pushed == d.pushed
            &&& line.len() > 0 ==> (push_of(line) matches Some(p) ==> next.pushed == p)
        }),
{
    let next = heard(d, line).0;
    if line.len() > 0 && shown(line).len() > 0 {
        if d.recent.len() == LOG_RING {
            assert(next.recent.drop_last() =~= d.recent.skip(1));
        } else {
            assert(next.recent.drop_last() =~= d.recent);
        }
    }
}

/// Complete lines are heard one after the other: one that decides nothing leaves the rest to be heard,
/// one that releases a hold does so first, and one that decides ends the connect as it says.
pub proof fn law_lines_are_heard_in_turn(
    d: DriverView,
    line: Seq<u8>,
    rest: Seq<u8>,
    sent: Seq<Seq<char>>,
)
    requires
        d.pending == line + seq![10u8] + rest,
        forall|k: int| 0 <= k < line.len() ==> line[k] != 10,
    ensures
        ({
            let text = trimmed_end(lossy(line + seq![10u8]));
            let (next, means) = heard(DriverView { pending: rest, ..d }, text);
            match means {
                HeardView::Nothing => drained(d, sent) == drained(next, sent),
                HeardView::Release => drained(d, sent) == drained(next, sent.push("hold release"@)),
                HeardView::Connected(ip) => drained(d, sent).2 == ProgressView::Connected(ip)
                    && drained(d, sent).1 == sent,
                HeardView::Failed(why) => drained(d, sent).2 == ProgressView::Failed(why)
                    && drained(d, sent).1 == sent,
            }
        }),
{
    let b = d.pending;
    let i = line.len() as int;
    assert forall|k: int| 0 <= k < i implies b[k] != 10 by {
        assert(b[k] == line[k]);
    }
    assert(b[i] == 10);
    lemma_line_feed_at(b, i);
    assert(b.take(i + 1) =~= line + seq![10u8]);
    assert(b.skip(i + 1) =~= rest);
}

/// The reports are asked for once, with the first hold released, after OpenVPN has spoken and while
/// nothing is decided; from then on the only command is to release a hold.
pub proof fn law_setup_is_sent_once(d: DriverView, sent: Seq<Seq<char>>)
    ensures
        d.setup_sent ==> drained(d, sent).0.setup_sent && drained(d, sent).1.len() >= sent.len()
            && drained(d, sent).1.take(sent.len() as int) == sent && forall|k: int|
            sent.len() <= k < drained(d, sent).1.len() ==> #[trigger] drained(d, sent).1[k]
                == "hold release"@,
        !d.setup_sent && line_feed_at(d.pending) == d.pending.len() && d.recent.len() > 0
            ==> drained(d, sent).1 == sent + seq!["state on"@, "log on"@, "hold release"@]
            && drained(d, sent).0.setup_sent,
    decreases d.pending.len(),
{
    let i = line_feed_at(d.pending);
    if 0 <= i < d.pending.len() {
        let line = trimmed_end(lossy(d.pending.take(i + 1)));
        let (next, means) = heard(DriverView { pending: d.pending.skip(i + 1), ..d }, line);
        match means {
            HeardView::Nothing => law_setup_is_sent_once(next, sent),
            HeardView::Release => {
                let more = sent.push("hold release"@);
                law_setup_is_sent_once(next, more);
                if d.setup_sent {
                    let all = drained(d, sent).1;
                    assert(all.take(sent.len() as int) =~= all.take(more.len() as int).take(
                        sent.len() as int,
                    ));
                    assert(more.take(sent.len() as int) =~= sent);
                    assert forall|k: int| sent.len() <= k < all.len() implies #[trigger] all[k]
                        == "hold release"@ by {
                        if k == sent.len() {
                            assert(all.take(more.len() as int)[k] == more[k]);
                        }
                    }
                }
            },
            _ => {
                assert(sent.take(sent.len() as int) =~= sent);
            },
        }
    } else {
        assert(sent.take(sent.len() as int) =~= sent);
    }
}

/// Why OpenVPN ended before it connected is told by its reason, a rejected login in plain words,
/// and with the last lines that it wrote, when there are any.
pub proof fn law_exit_is_told(reason: Seq<char>, recent: Seq<Seq<char>>)
    ensures
        exit_text("auth-failure"@, recent) == "the gateway rejected the username or password"@,
        exit_text(Seq::empty(), recent) == "openvpn exited before connecting"@ + tail_of(recent),
        reason.len() > 0 && reason != "auth-failure"@ ==> exit_text(reason, recent)
            == "openvpn exited before connecting ("@ + reason + ")"@ + tail_of(recent),
        tail_of(Seq::empty()).len() == 0,
        0 < recent.len() <= LOG_TAIL ==> tail_of(recent) == " ("@ + join_all(recent, " | "@) + ")"@,
        recent.len() > LOG_TAIL ==> tail_of(recent) == tail_of(
            recent.skip(recent.len() - LOG_TAIL),
        ),
{
    reveal_strlit("auth-failure");
    assert("auth-failure"@.len() == 12);
}

} // verus!
