//! One OpenVPN process per SSL VPN tunnel: which profiles it is given, how it is launched, and
//! what its management interface says.
//!
//! An `.ovpn` profile is code: directives such as `up` or `plugin` name programs that OpenVPN runs
//! as the user it runs under. So [`sanitize`] refuses a profile with such a directive, and
//! [`arguments`] puts the hardening flags after `--config`, so that they override whatever the
//! profile says.

use crate::text::{
    begins, decimal, ends, ends_with, first_word, format_u64, index_of, is_space, join, join_all,
    law_first_word_ends_at_white_space, lemma_decimal, lines,
    lines_of, lowercase, same, split_once, starts_with, strip_prefixes, to_lower, trim, trimmed,
    views, without_prefixes, word,
};
use vstd::prelude::*;

verus! {

/// A line that says nothing: empty or a comment.
pub open spec fn is_blank(t: Seq<char>) -> bool {
    t.len() == 0 || begins(t, "#"@) || begins(t, ";"@)
}

/// A line that opens an inline block.
pub open spec fn opens_block(t: Seq<char>) -> bool {
    begins(t, "<"@) && !begins(t, "</"@)
}

/// Whether the line after the first `n` stands inside an inline block such as `<key>`.
pub open spec fn in_block(lines: Seq<Seq<char>>, n: int) -> bool
    decreases n,
{
    if n <= 0 {
        false
    } else {
        let t = trimmed(lines[n - 1]);
        let inside = in_block(lines, n - 1);
        if is_blank(t) {
            inside
        } else if inside {
            !begins(t, "</"@)
        } else {
            opens_block(t)
        }
    }
}

/// Whether line `i` is a directive: not blank, and neither inside a block nor the start of one.
pub open spec fn is_directive(lines: Seq<Seq<char>>, i: int) -> bool {
    let t = trimmed(lines[i]);
    !is_blank(t) && !in_block(lines, i) && !opens_block(t)
}

/// The keyword of a directive: its first word in lower case, without dashes before it.
pub open spec fn keyword_of(t: Seq<char>) -> Seq<char> {
    lowercase(without_prefixes(first_word(t), "--"@))
}

/// The directives that make OpenVPN run a program or read a path, or that would take over the
/// controls that this driver relies on.
pub open spec fn forbidden(k: Seq<char>) -> bool {
    ||| k == "up"@
    ||| k == "down"@
    ||| k == "route-up"@
    ||| k == "route-pre-down"@
    ||| k == "ipchange"@
    ||| k == "tls-verify"@
    ||| k == "auth-user-pass-verify"@
    ||| k == "client-connect"@
    ||| k == "client-disconnect"@
    ||| k == "learn-address"@
    ||| k == "plugin"@
    ||| k == "script-security"@
    ||| k == "setenv-safe"@
    ||| k == "management"@
    ||| k == "management-hold"@
    ||| k == "management-query-passwords"@
    ||| k == "config"@
}

/// Whether line `i` is a directive that is refused.
pub open spec fn refused(lines: Seq<Seq<char>>, i: int) -> bool {
    is_directive(lines, i) && forbidden(keyword_of(trimmed(lines[i])))
}

/// What is said of a refused directive.
pub open spec fn refusal_text(keyword: Seq<char>) -> Seq<char> {
    "the SSL VPN profile contains a '"@ + keyword
        + "' directive, which is not allowed for safety and cannot be imported"@
}

/// The first refused line, from line `i` on.
pub open spec fn first_refused(lines: Seq<Seq<char>>, i: int) -> Option<int>
    decreases lines.len() - i,
{
    if i < 0 || i >= lines.len() {
        None
    } else if refused(lines, i) {
        Some(i)
    } else {
        first_refused(lines, i + 1)
    }
}

fn is_forbidden(k: &str) -> (r: bool)
    ensures
        r == forbidden(k@),
{
    same(k, "up") || same(k, "down") || same(k, "route-up") || same(k, "route-pre-down") || same(
        k,
        "ipchange",
    ) || same(k, "tls-verify") || same(k, "auth-user-pass-verify") || same(k, "client-connect")
        || same(k, "client-disconnect") || same(k, "learn-address") || same(k, "plugin") || same(
        k,
        "script-security",
    ) || same(k, "setenv-safe") || same(k, "management") || same(k, "management-hold") || same(
        k,
        "management-query-passwords",
    ) || same(k, "config")
}

/// Refuses a profile that could run code or seize the driver's controls. Lines inside inline
/// blocks are data and are skipped.
pub fn sanitize(config: &str) -> (r: Result<(), String>)
    ensures
        match first_refused(lines_of(config@), 0) {
            None => r is Ok,
            Some(i) => r matches Err(e) && e@ == refusal_text(
                keyword_of(trimmed(lines_of(config@)[i])),
            ),
        },
{
    let all = lines(config);
    let ghost text = lines_of(config@);
    let mut inside: bool = false;
    let mut i: usize = 0;
    while i < all.len()
        invariant
            i <= all@.len(),
            text == views(all@),
            text == lines_of(config@),
            inside == in_block(text, i as int),
            first_refused(text, 0) == first_refused(text, i as int),
        decreases all@.len() - i,
    {
        assert(text[i as int] == all@[i as int]@);
        let line = trim(all[i].as_str());
        let t = line.as_str();
        i = i + 1;
        if t.is_empty() || starts_with(t, "#") || starts_with(t, ";") {
            continue;
        }
        if inside {
            if starts_with(t, "</") {
                inside = false;
            }
            continue;
        }
        if starts_with(t, "<") && !starts_with(t, "</") {
            inside = true;
            continue;
        }
        let keyword = to_lower(strip_prefixes(word(t).as_str(), "--").as_str());
        if is_forbidden(keyword.as_str()) {
            let mut s = "the SSL VPN profile contains a '".to_owned();
            s.append(keyword.as_str());
            s.append("' directive, which is not allowed for safety and cannot be imported");
            return Err(s);
        }
    }
    Ok(())
}

/// The first refused line is one, and no line before it is.
pub proof fn law_sanitize_finds_the_first(lines: Seq<Seq<char>>, i: int)
    requires
        0 <= i <= lines.len(),
    ensures
        match first_refused(lines, i) {
            Some(k) => i <= k < lines.len() && refused(lines, k) && forall|j: int|
                i <= j < k ==> !refused(lines, j),
            None => forall|j: int| i <= j < lines.len() ==> !refused(lines, j),
        },
    decreases lines.len() - i,
{
    if i < lines.len() && !refused(lines, i) {
        law_sanitize_finds_the_first(lines, i + 1);
    }
}

/// The adapter that the first tunnel uses. Named so that it never collides with charon's own.
pub const ADAPTER_NAME: &'static str = "OpenVPN Data Channel";

/// The most lines of OpenVPN's output that a failure carries.
pub const LOG_LINES: usize = 120;

/// The adapter of a slot: one per tunnel, numbered from the second on.
pub open spec fn adapter_of(slot: nat) -> Seq<char> {
    if slot == 0 {
        ADAPTER_NAME@
    } else {
        ADAPTER_NAME@ + " "@ + decimal(slot + 1)
    }
}

/// The adapter of a slot.
pub fn adapter_name(slot: usize) -> (r: String)
    requires
        slot < usize::MAX,
    ensures
        r@ == adapter_of(slot as nat),
{
    let mut s = ADAPTER_NAME.to_owned();
    if slot > 0 {
        s.append(" ");
        s.append(format_u64((slot + 1) as u64).as_str());
    }
    s
}

/// Whether a listing of adapters, `<guid>` and a tab and `<name>` on each line, has one of that
/// name.
pub open spec fn lists(listing: Seq<char>, name: Seq<char>) -> bool {
    exists|i: int| 0 <= i < lines_of(listing).len() && names_adapter(#[trigger] lines_of(listing)[i], name)
}

/// Whether a line of the listing names the adapter.
pub open spec fn names_adapter(line: Seq<char>, name: Seq<char>) -> bool {
    index_of(line, '\t') < line.len() && trimmed(line.skip(index_of(line, '\t') + 1)) == name
}

/// Whether a listing of adapters has one of that name.
pub fn lists_adapter(listing: &str, name: &str) -> (r: bool)
    ensures
        r == lists(listing@, name@),
{
    let all = lines(listing);
    let ghost text = lines_of(listing@);
    let mut i: usize = 0;
    while i < all.len()
        invariant
            i <= all@.len(),
            text == views(all@),
            text == lines_of(listing@),
            forall|k: int| 0 <= k < i ==> !names_adapter(#[trigger] text[k], name@),
        decreases all@.len() - i,
    {
        assert(text[i as int] == all@[i as int]@);
        match split_once(all[i].as_str(), '\t') {
            Some((_, found)) => {
                if same(trim(found.as_str()).as_str(), name) {
                    assert(names_adapter(text[i as int], name@));
                    return true;
                }
            },
            None => {},
        }
        i = i + 1;
    }
    false
}

/// The name of a file that belongs to the tunnel with the given management port.
pub open spec fn staged(port: nat, suffix: Seq<char>) -> Seq<char> {
    "sslvpn-"@ + decimal(port) + suffix
}

fn staged_name(port: u16, suffix: &str) -> (r: String)
    ensures
        r@ == staged(port as nat, suffix@),
{
    let mut s = "sslvpn-".to_owned();
    s.append(format_u64(port as u64).as_str());
    s.append(suffix);
    s
}

/// Whether a file of that name is one that a tunnel left behind: a profile with its private key,
/// or a login.
pub fn is_staged(name: &str) -> (r: bool)
    ensures
        r == (begins(name@, "sslvpn-"@) && (ends(name@, ".ovpn"@) || ends(name@, ".auth"@))),
{
    starts_with(name, "sslvpn-") && (ends_with(name, ".ovpn") || ends_with(name, ".auth"))
}

/// OpenVPN's output as a failure carries it: trimmed, and no more than the last lines.
pub open spec fn log_tail_of(text: Seq<char>) -> Seq<char> {
    let all = lines_of(trimmed(text));
    join_all(
        if all.len() > LOG_LINES {
            all.skip(all.len() - LOG_LINES)
        } else {
            all
        },
        "\n"@,
    )
}

/// OpenVPN's output as a failure carries it.
pub fn log_tail(text: &str) -> (r: String)
    ensures
        r@ == log_tail_of(text@),
{
    let mut all = lines(trim(text).as_str());
    let ghost whole = lines_of(trimmed(text@));
    let n: usize = all.len();
    if n > LOG_LINES {
        let rest = all.split_off(n - LOG_LINES);
        assert(views(rest@) =~= whole.skip(whole.len() - LOG_LINES));
        return join(&rest, "\n");
    }
    join(&all, "\n")
}

/// A failed connect: a short reason, and OpenVPN's own output, which is empty when the failure
/// came before there was any.
#[derive(Debug)]
pub struct ConnectError {
    pub reason: String,
    pub log: String,
}

impl ConnectError {
    /// A failure before OpenVPN said anything.
    pub fn early(reason: String) -> (r: Self)
        ensures
            r.reason == reason,
            r.log@ == Seq::<char>::empty(),
    {
        ConnectError { reason, log: String::new() }
    }

    /// A failure of a process that wrote the given output.
    pub fn late(reason: String, output: &str) -> (r: Self)
        ensures
            r.reason == reason,
            r.log@ == log_tail_of(output@),
    {
        ConnectError { reason, log: log_tail(output) }
    }
}

/// The arguments of the process: `--config` first, so that what follows overrides the profile; no
/// user scripts, the slot's own adapter, the login from a file, and a management interface that
/// holds until it is released.
pub open spec fn arguments(
    config_path: Seq<char>,
    auth_path: Seq<char>,
    adapter: Seq<char>,
    port: nat,
) -> Seq<Seq<char>> {
    seq![
        "--config"@,
        config_path,
        "--script-security"@,
        "1"@,
        "--windows-driver"@,
        "wintun"@,
        "--dev-node"@,
        adapter,
        "--auth-user-pass"@,
        auth_path,
        "--management"@,
        "127.0.0.1"@,
        decimal(port),
        "--management-hold"@,
        "--auth-retry"@,
        "none"@,
        "--verb"@,
        "3"@,
    ]
}

/// What it takes to launch one tunnel.
#[derive(Debug)]
pub struct Launch {
    /// Where the profile is staged.
    pub config_path: String,
    /// Where the login is staged.
    pub auth_path: String,
    /// Where the process writes its output.
    pub log_path: String,
    /// The login: the username on the first line, the password on the second.
    pub auth_text: String,
    pub adapter: String,
    pub arguments: Vec<String>,
}

/// The content of a [`Launch`].
pub struct LaunchView {
    pub config_path: Seq<char>,
    pub auth_path: Seq<char>,
    pub log_path: Seq<char>,
    pub auth_text: Seq<char>,
    pub adapter: Seq<char>,
    pub arguments: Seq<Seq<char>>,
}

impl View for Launch {
    type V = LaunchView;

    open spec fn view(&self) -> LaunchView {
        LaunchView {
            config_path: self.config_path@,
            auth_path: self.auth_path@,
            log_path: self.log_path@,
            auth_text: self.auth_text@,
            adapter: self.adapter@,
            arguments: views(self.arguments@),
        }
    }
}

/// The launch of a tunnel in `slot` with the given management port, with its files in `dir`, which
/// ends in a separator.
pub open spec fn launch_of(
    username: Seq<char>,
    password: Seq<char>,
    slot: nat,
    port: nat,
    dir: Seq<char>,
) -> LaunchView {
    let config_path = dir + staged(port, ".ovpn"@);
    let auth_path = dir + staged(port, ".auth"@);
    LaunchView {
        config_path,
        auth_path,
        log_path: dir + "openvpn-"@ + decimal(port) + ".log"@,
        auth_text: username + "\n"@ + password + "\n"@,
        adapter: adapter_of(slot),
        arguments: arguments(config_path, auth_path, adapter_of(slot), port),
    }
}

fn argument_list(config_path: &str, auth_path: &str, adapter: &str, port: u16) -> (r: Vec<String>)
    ensures
        views(r@) == arguments(config_path@, auth_path@, adapter@, port as nat),
{
    let r = vec![
        "--config".to_owned(),
        config_path.to_owned(),
        "--script-security".to_owned(),
        "1".to_owned(),
        "--windows-driver".to_owned(),
        "wintun".to_owned(),
        "--dev-node".to_owned(),
        adapter.to_owned(),
        "--auth-user-pass".to_owned(),
        auth_path.to_owned(),
        "--management".to_owned(),
        "127.0.0.1".to_owned(),
        format_u64(port as u64),
        "--management-hold".to_owned(),
        "--auth-retry".to_owned(),
        "none".to_owned(),
        "--verb".to_owned(),
        "3".to_owned(),
    ];
    assert(views(r@) =~= arguments(config_path@, auth_path@, adapter@, port as nat));
    r
}

/// Plans the launch of a tunnel from an `.ovpn` profile, or refuses the profile.
pub fn connect(
    config: &str,
    username: &str,
    password: &str,
    slot: usize,
    port: u16,
    dir: &str,
) -> (r: Result<Launch, ConnectError>)
    requires
        slot < usize::MAX,
    ensures
        match first_refused(lines_of(config@), 0) {
            None => r matches Ok(l) && l@ == launch_of(
                username@,
                password@,
                slot as nat,
                port as nat,
                dir@,
            ),
            Some(i) => r matches Err(e) && e.log@.len() == 0 && e.reason@ == refusal_text(
                keyword_of(trimmed(lines_of(config@)[i])),
            ),
        },
{
    match sanitize(config) {
        Ok(_) => {},
        Err(reason) => {
            return Err(ConnectError::early(reason));
        },
    }
    let mut config_path = dir.to_owned();
    config_path.append(staged_name(port, ".ovpn").as_str());
    let mut auth_path = dir.to_owned();
    auth_path.append(staged_name(port, ".auth").as_str());
    let mut log_path = dir.to_owned();
    log_path.append("openvpn-");
    log_path.append(format_u64(port as u64).as_str());
    log_path.append(".log");
    let mut auth_text = username.to_owned();
    auth_text.append("\n");
    auth_text.append(password);
    auth_text.append("\n");
    let adapter = adapter_name(slot);
    let arguments = argument_list(
        config_path.as_str(),
        auth_path.as_str(),
        adapter.as_str(),
        port,
    );
    Ok(Launch { config_path, auth_path, log_path, auth_text, adapter, arguments })
}

/// Neither half of the login ever stands among the arguments of the process, whatever it is: they
/// do not depend on it.
pub proof fn law_arguments_hold_no_login(
    user1: Seq<char>,
    pass1: Seq<char>,
    user2: Seq<char>,
    pass2: Seq<char>,
    slot: nat,
    port: nat,
    dir: Seq<char>,
)
    ensures
        launch_of(user1, pass1, slot, port, dir).arguments == launch_of(
            user2,
            pass2,
            slot,
            port,
            dir,
        ).arguments,
{
}

/// The flag that forbids user scripts comes after the profile, so the profile cannot override it.
pub proof fn law_hardening_follows_the_profile(
    config_path: Seq<char>,
    auth_path: Seq<char>,
    adapter: Seq<char>,
    port: nat,
)
    ensures
        ({
            let a = arguments(config_path, auth_path, adapter, port);
            a[0] == "--config"@ && a[1] == config_path && a[2] == "--script-security"@ && a[3]
                == "1"@
        }),
{
}

/// A sweep after a crash finds both secret-bearing files that a launch stages.
pub proof fn law_sweep_finds_what_was_staged(port: nat)
    ensures
        begins(staged(port, ".ovpn"@), "sslvpn-"@) && ends(staged(port, ".ovpn"@), ".ovpn"@),
        begins(staged(port, ".auth"@), "sslvpn-"@) && ends(staged(port, ".auth"@), ".auth"@),
{
    let head = "sslvpn-"@;
    let a = staged(port, ".ovpn"@);
    let b = staged(port, ".auth"@);
    assert(a.subrange(0, head.len() as int) =~= head);
    assert(b.subrange(0, head.len() as int) =~= head);
    assert(a.subrange(a.len() - ".ovpn"@.len(), a.len() as int) =~= ".ovpn"@);
    assert(b.subrange(b.len() - ".auth"@.len(), b.len() as int) =~= ".auth"@);
}

/// No directive that names a program or takes over the driver's controls is let through, however it
/// is written: the keyword counts in any case and with dashes before it.
pub proof fn law_programs_are_forbidden()
    ensures
        forbidden("up"@) && forbidden("down"@) && forbidden("route-up"@) && forbidden(
            "route-pre-down"@,
        ) && forbidden("ipchange"@) && forbidden("tls-verify"@) && forbidden(
            "auth-user-pass-verify"@,
        ) && forbidden("client-connect"@) && forbidden("client-disconnect"@) && forbidden(
            "learn-address"@,
        ) && forbidden("plugin"@) && forbidden("script-security"@) && forbidden("setenv-safe"@)
            && forbidden("management"@) && forbidden("management-hold"@) && forbidden(
            "management-query-passwords"@,
        ) && forbidden("config"@),
        !forbidden("remote"@) && !forbidden("auth-user-pass"@) && !forbidden("route"@),
{
    reveal_strlit("up");
    reveal_strlit("down");
    reveal_strlit("route-up");
    reveal_strlit("route-pre-down");
    reveal_strlit("ipchange");
    reveal_strlit("tls-verify");
    reveal_strlit("auth-user-pass-verify");
    reveal_strlit("client-connect");
    reveal_strlit("client-disconnect");
    reveal_strlit("learn-address");
    reveal_strlit("plugin");
    reveal_strlit("script-security");
    reveal_strlit("setenv-safe");
    reveal_strlit("management");
    reveal_strlit("management-hold");
    reveal_strlit("management-query-passwords");
    reveal_strlit("config");
    reveal_strlit("remote");
    reveal_strlit("auth-user-pass");
    reveal_strlit("route");
    assert("remote"@.len() == 6 && "remote"@[0] == 'r');
    assert("plugin"@[0] == 'p' && "config"@[0] == 'c');
    assert("auth-user-pass"@.len() == 14 && "auth-user-pass"@[0] == 'a');
    assert("route-pre-down"@[0] == 'r' && "client-connect"@[0] == 'c');
    assert("route"@.len() == 5);
}

/// What stands in an inline block is data: from the line that opens one to the line that closes it no
/// line is a directive, and after it lines are directives again.
pub proof fn law_blocks_are_data(lines: Seq<Seq<char>>, i: int)
    requires
        0 <= i < lines.len(),
        !is_blank(trimmed(lines[i])),
    ensures
        in_block(lines, i) ==> !is_directive(lines, i),
        in_block(lines, i) ==> (in_block(lines, i + 1) <==> !begins(trimmed(lines[i]), "</"@)),
        !in_block(lines, i) ==> (in_block(lines, i + 1) <==> begins(trimmed(lines[i]), "<"@)
            && !begins(trimmed(lines[i]), "</"@)),
        !in_block(lines, i) ==> (is_directive(lines, i) <==> !in_block(lines, i + 1)),
        !in_block(lines, 0),
{
}

/// The process is given the staged profile and login, the adapter of its slot and the management port
/// on the local host, held until it is released; the login file has the user name and the password on
/// a line each.
pub proof fn law_launch_is_for_its_slot(
    username: Seq<char>,
    password: Seq<char>,
    slot: nat,
    port: nat,
    dir: Seq<char>,
)
    ensures
        ({
            let l = launch_of(username, password, slot, port, dir);
            let a = l.arguments;
            &&& a.len() == 18
            &&& a[0] == "--config"@ && a[1] == l.config_path
            &&& a[2] == "--script-security"@ && a[3] == "1"@
            &&& a[6] == "--dev-node"@ && a[7] == l.adapter && l.adapter == adapter_of(slot)
            &&& a[8] == "--auth-user-pass"@ && a[9] == l.auth_path
            &&& a[10] == "--management"@ && a[11] == "127.0.0.1"@ && a[12] == decimal(port)
            &&& a[13] == "--management-hold"@
            &&& a[14] == "--auth-retry"@ && a[15] == "none"@
            &&& l.auth_text == username + "\n"@ + password + "\n"@
            &&& l.config_path == dir + "sslvpn-"@ + decimal(port) + ".ovpn"@
            &&& l.auth_path == dir + "sslvpn-"@ + decimal(port) + ".auth"@
            &&& l.log_path == dir + "openvpn-"@ + decimal(port) + ".log"@
        }),
{
    assert(dir + ("sslvpn-"@ + decimal(port) + ".ovpn"@) =~= dir + "sslvpn-"@ + decimal(port)
        + ".ovpn"@);
    assert(dir + ("sslvpn-"@ + decimal(port) + ".auth"@) =~= dir + "sslvpn-"@ + decimal(port)
        + ".auth"@);
}

/// Two slots never share an adapter.
pub proof fn law_slots_have_their_own_adapters(a: nat, b: nat)
    requires
        adapter_of(a) == adapter_of(b),
    ensures
        a == b,
{
    reveal_strlit(" ");
    let head = ADAPTER_NAME@ + " "@;
    lemma_decimal(a + 1);
    lemma_decimal(b + 1);
    if a > 0 && b > 0 {
        assert(adapter_of(a).skip(head.len() as int) =~= decimal(a + 1));
        assert(adapter_of(b).skip(head.len() as int) =~= decimal(b + 1));
    }
}

/// The keyword of a directive is its first word in lower case, with or without two dashes before
/// it, whatever follows.
pub proof fn law_keyword_is_the_first_word(w: Seq<char>, c: char, rest: Seq<char>)
    requires
        w.len() > 0,
        forall|k: int| 0 <= k < w.len() ==> !is_space(#[trigger] w[k]),
        w[0] != '-',
        is_space(c),
    ensures
        keyword_of(w) == lowercase(w),
        keyword_of(w + seq![c] + rest) == lowercase(w),
        keyword_of(seq!['-', '-'] + w) == lowercase(w),
        keyword_of(seq!['-', '-'] + w + seq![c] + rest) == lowercase(w),
{
    reveal_strlit("--");
    let dashes = seq!['-', '-'];
    assert("--"@ =~= dashes);
    let long = dashes + w;
    law_first_word_ends_at_white_space(w, c, rest);
    assert forall|k: int| 0 <= k < long.len() implies !is_space(#[trigger] long[k]) by {
        if k >= 2 {
            assert(long[k] == w[k - 2]);
        }
    }
    law_first_word_ends_at_white_space(long, c, rest);
    assert(!begins(w, dashes)) by {
        if begins(w, dashes) {
            assert(w.subrange(0, 2)[0] == w[0]);
        }
    }
    assert(long.subrange(0, 2) =~= dashes);
    assert(begins(long, dashes));
    assert(long.skip(2) =~= w);
    reveal_with_fuel(without_prefixes, 2);
}

} // verus!
