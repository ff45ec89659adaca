//! What the macOS helper does as root: charon's lifecycle, and split DNS by files under
//! `/etc/resolver`.
//!
//! The request is data, never instruction. charon's path is fixed, DNS servers are read again as
//! addresses, and a domain or a connection name that becomes a file name is checked or reduced
//! first.

use crate::broker::nrpt::{masked, sanitize};
use crate::broker::protocol::{
    failure, success, Response, ResponseView, MACOS_CHARON_DIR, MACOS_RUN_DIR,
};
use crate::broker::supervisor::{all_dns_chars, is_dns_char, is_dns_text};
use crate::ipv4::{address, Ipv4Addr};
use crate::text::{
    begins, contains, debug_quoted, has, law_leading_are_taken, law_trailing_are_taken,
    law_lines_end_at_line_feeds, lemma_trimmed_stays, lines, lines_of, lossy, lossy_text, lowercase, number_i32,
    occurs_at, parse_i32, quote_debug, starts_with, strip_leading, strip_trailing, to_lower, trim, trimmed,
    views, without_leading, without_trailing,
};
use vstd::prelude::*;
use vstd::utf8::{encode_utf8, is_ascii_chars, is_ascii_chars_encode_utf8};

verus! {

/// The vici socket that the helper's charon binds.
pub const VICI_SOCKET: &'static str = "/var/run/ipsec-vpn/charon.vici";

/// Where the system looks for resolvers by domain.
pub const RESOLVER_DIR: &'static str = "/etc/resolver";

/// A domain without white space and dots around it.
pub open spec fn bare(d: Seq<char>) -> Seq<char> {
    without_trailing(without_leading(trimmed(d), '.'), '.')
}

/// The domain as a file name, when it is one that a DNS name can have: in lower case, with no
/// empty label.
pub open spec fn safe(d: Seq<char>) -> Option<Seq<char>> {
    let b = bare(d);
    if b.len() == 0 || encode_utf8(b).len() > 253 || !is_dns_text(b) || has(b, ".."@) {
        None
    } else {
        Some(lowercase(b))
    }
}

/// The domain as a file name, when it is safe as one. Anything else is refused rather than
/// repaired.
pub fn safe_domain(d: &str) -> (r: Option<String>)
    ensures
        match r {
            Some(s) => safe(d@) == Some(s@),
            None => safe(d@) is None,
        },
{
    let t = trim(d);
    let b = strip_trailing(strip_leading(t.as_str(), '.').as_str(), '.');
    if b.as_str().is_empty() || b.as_str().as_bytes().len() > 253 {
        return None;
    }
    if !all_dns_chars(b.as_str()) || contains(b.as_str(), "..") {
        return None;
    }
    Some(to_lower(b.as_str()))
}

/// The resolver file of a domain.
pub open spec fn resolver_file(domain: Seq<char>) -> Seq<char> {
    if begins(domain, "/"@) {
        domain
    } else {
        RESOLVER_DIR@ + "/"@ + domain
    }
}

/// The resolver file of a domain.
pub fn resolver_path(domain: &str) -> (r: String)
    ensures
        r@ == resolver_file(domain@),
{
    if starts_with(domain, "/") {
        return domain.to_owned();
    }
    let mut s = RESOLVER_DIR.to_owned();
    s.append("/");
    s.append(domain);
    s
}

/// The file that records a connection's domain.
pub open spec fn record_file(conn: Seq<char>) -> Seq<char> {
    MACOS_RUN_DIR@ + "/"@ + "dns-"@ + masked(conn) + ".record"@
}

/// The file that records a connection's domain. The name comes from a request, so it is reduced
/// to a file name.
pub fn record_path(conn: &str) -> (r: String)
    ensures
        r@ == record_file(conn@),
{
    let mut s = MACOS_RUN_DIR.to_owned();
    s.append("/");
    s.append("dns-");
    s.append(sanitize(conn).as_str());
    s.append(".record");
    s
}

/// The lines that name the first `n` servers, or what is wrong with the first that is none.
pub open spec fn nameservers(servers: Seq<Seq<char>>, n: int) -> Result<Seq<char>, Seq<char>>
    decreases n,
{
    if n <= 0 {
        Ok(Seq::empty())
    } else {
        match nameservers(servers, n - 1) {
            Ok(text) => match address(trimmed(servers[n - 1])) {
                Some(a) => Ok(text + "nameserver "@ + a.dotted() + "\n"@),
                None => Err(debug_quoted(servers[n - 1]) + " is not an IPv4 address"@),
            },
            Err(e) => Err(e),
        }
    }
}

/// The split DNS of a connection: a resolver file for its domain, and a record of the domain.
#[derive(Debug)]
pub struct SplitDns {
    pub path: String,
    pub content: String,
    pub record_path: String,
    pub domain: String,
}

/// The content of a [`SplitDns`].
pub struct SplitView {
    pub path: Seq<char>,
    pub content: Seq<char>,
    pub record_path: Seq<char>,
    pub domain: Seq<char>,
}

impl View for SplitDns {
    type V = SplitView;

    open spec fn view(&self) -> SplitView {
        SplitView {
            path: self.path@,
            content: self.content@,
            record_path: self.record_path@,
            domain: self.domain@,
        }
    }
}

/// The split DNS that a request asks for, or why there is none.
pub open spec fn split_dns(
    conn: Seq<char>,
    servers: Seq<Seq<char>>,
    domain: Option<Seq<char>>,
) -> Result<SplitView, ResponseView> {
    let name = match domain {
        Some(d) => safe(d),
        None => None,
    };
    match name {
        None => Err(failure("no usable DNS domain was supplied"@)),
        Some(d) => match nameservers(servers, servers.len() as int) {
            Err(e) => Err(failure(e)),
            Ok(text) => if text.len() == 0 {
                Err(failure("no DNS servers were supplied"@))
            } else {
                Ok(
                    SplitView {
                        path: resolver_file(d),
                        content: text,
                        record_path: record_file(conn),
                        domain: d,
                    },
                )
            },
        },
    }
}

proof fn lemma_nameserver_error_stays(servers: Seq<Seq<char>>, n: int, m: int)
    requires
        n <= m,
        nameservers(servers, n) is Err,
    ensures
        nameservers(servers, m) == nameservers(servers, n),
    decreases m - n,
{
    if n < m {
        lemma_nameserver_error_stays(servers, n, m - 1);
    }
}

fn nameserver_lines(servers: &Vec<String>) -> (r: Result<String, String>)
    ensures
        ({
            let all = nameservers(views(servers@), servers@.len() as int);
            match r {
                Ok(text) => all == Ok::<Seq<char>, Seq<char>>(text@),
                Err(e) => all == Err::<Seq<char>, Seq<char>>(e@),
            }
        }),
{
    let ghost all = views(servers@);
    let mut out = String::new();
    assert(out@ =~= Seq::empty());
    let mut i: usize = 0;
    while i < servers.len()
        invariant
            i <= servers@.len(),
            all == views(servers@),
            nameservers(all, i as int) == Ok::<Seq<char>, Seq<char>>(out@),
        decreases servers@.len() - i,
    {
        assert(all[i as int] == servers@[i as int]@);
        match Ipv4Addr::parse(trim(servers[i].as_str()).as_str()) {
            Some(a) => {
                out.append("nameserver ");
                out.append(a.to_text().as_str());
                out.append("\n");
            },
            None => {
                let mut s = quote_debug(servers[i].as_str());
                s.append(" is not an IPv4 address");
                proof {
                    lemma_nameserver_error_stays(all, i + 1, all.len() as int);
                }
                return Err(s);
            },
        }
        i = i + 1;
    }
    Ok(out)
}

/// Plans the split DNS of a connection.
pub fn apply_dns(conn: &str, servers: &Vec<String>, domain: Option<&str>) -> (r: Result<
    SplitDns,
    Response,
>)
    ensures
        ({
            let plan = split_dns(
                conn@,
                views(servers@),
                match domain {
                    Some(d) => Some(d@),
                    None => None,
                },
            );
            match r {
                Ok(p) => plan == Ok::<SplitView, ResponseView>(p@),
                Err(e) => plan == Err::<SplitView, ResponseView>(e@),
            }
        }),
{
    let name = match domain {
        Some(d) => safe_domain(d),
        None => None,
    };
    let domain = match name {
        Some(d) => d,
        None => {
            return Err(Response::err("no usable DNS domain was supplied".to_owned()));
        },
    };
    let content = match nameserver_lines(servers) {
        Ok(text) => text,
        Err(e) => {
            return Err(Response::err(e));
        },
    };
    if content.as_str().is_empty() {
        return Err(Response::err("no DNS servers were supplied".to_owned()));
    }
    Ok(
        SplitDns {
            path: resolver_path(domain.as_str()),
            content,
            record_path: record_path(conn),
            domain,
        },
    )
}

/// The answer once the split DNS of a domain is in place.
pub fn dns_applied(domain: &str) -> (r: Response)
    ensures
        r@ == success("split-DNS: *."@ + domain@ + " resolves over the tunnel"@),
{
    let mut s = "split-DNS: *.".to_owned();
    s.append(domain);
    s.append(" resolves over the tunnel");
    Response::ok(s)
}

/// What a revert removes: the resolver file of the recorded domain. The answer at once when
/// nothing is recorded, or what is recorded is no domain.
pub open spec fn reverted(record: Option<Seq<char>>) -> Result<Seq<char>, ResponseView> {
    match record {
        None => Err(success(Seq::empty())),
        Some(text) => match safe(text) {
            None => Err(failure("the recorded DNS domain is not a valid name"@)),
            Some(d) => Ok(resolver_file(d)),
        },
    }
}

/// Decides which file a revert removes, given what is recorded of the connection.
pub fn revert_dns(record: Option<&str>) -> (r: Result<String, Response>)
    ensures
        ({
            let plan = reverted(
                match record {
                    Some(t) => Some(t@),
                    None => None,
                },
            );
            match r {
                Ok(p) => plan == Ok::<Seq<char>, ResponseView>(p@),
                Err(e) => plan == Err::<Seq<char>, ResponseView>(e@),
            }
        }),
{
    match record {
        None => {
            let none = String::new();
            assert(none@ =~= Seq::empty());
            Err(Response::ok(none))
        },
        Some(text) => {
            match safe_domain(text) {
                None => Err(
                    Response::err("the recorded DNS domain is not a valid name".to_owned()),
                ),
                Some(d) => Ok(resolver_path(d.as_str())),
            }
        },
    }
}

/// Where charon is installed.
pub fn charon_bin() -> (r: String)
    ensures
        r@ == MACOS_CHARON_DIR@ + "/charon"@,
{
    let mut s = MACOS_CHARON_DIR.to_owned();
    s.append("/charon");
    s
}

/// Where charon's configuration is installed.
pub fn charon_conf() -> (r: String)
    ensures
        r@ == MACOS_CHARON_DIR@ + "/etc/strongswan.conf"@,
{
    let mut s = MACOS_CHARON_DIR.to_owned();
    s.append("/etc/strongswan.conf");
    s
}

/// The answer to a start request that launches nothing: charon runs already, or is not installed
/// with its configuration. None when it is to be launched.
pub open spec fn start_answer(running: bool, has_bin: bool, has_conf: bool) -> Option<
    ResponseView,
> {
    if running {
        Some(success("charon is already running"@))
    } else if !has_bin {
        Some(failure("charon is not installed at "@ + MACOS_CHARON_DIR@ + "/charon"@))
    } else if !has_conf {
        Some(
            failure("strongswan.conf is missing at "@ + MACOS_CHARON_DIR@ + "/etc/strongswan.conf"@),
        )
    } else {
        None
    }
}

/// Decides what to do about a start request: answer, or launch charon.
pub fn charon_start(running: bool, has_bin: bool, has_conf: bool) -> (r: Option<Response>)
    ensures
        match r {
            Some(a) => start_answer(running, has_bin, has_conf) == Some(a@),
            None => start_answer(running, has_bin, has_conf) is None,
        },
{
    if running {
        return Some(Response::ok("charon is already running".to_owned()));
    }
    if !has_bin {
        let mut s = "charon is not installed at ".to_owned();
        s.append(charon_bin().as_str());
        assert(s@ =~= "charon is not installed at "@ + MACOS_CHARON_DIR@ + "/charon"@);
        return Some(Response::err(s));
    }
    if !has_conf {
        let mut s = "strongswan.conf is missing at ".to_owned();
        s.append(charon_conf().as_str());
        assert(s@ =~= "strongswan.conf is missing at "@ + MACOS_CHARON_DIR@
            + "/etc/strongswan.conf"@);
        return Some(Response::err(s));
    }
    None
}

/// The answer once a launched charon listens, or did not within the time.
pub fn charon_started(listening: bool) -> (r: Response)
    ensures
        r@ == (if listening {
            success("charon started"@)
        } else {
            failure("charon did not start listening within 40s"@)
        }),
{
    if listening {
        Response::ok("charon started".to_owned())
    } else {
        Response::err("charon did not start listening within 40s".to_owned())
    }
}

/// Decides what to do about a stop request: answer, or signal the process that holds the socket.
/// It is never found by name: that could be the daemon of another vendor.
pub fn charon_stop(running: bool, pid: Option<i32>) -> (r: Result<i32, Response>)
    ensures
        match r {
            Ok(p) => running && pid == Some(p),
            Err(a) => if !running {
                a@ == success("charon is not running"@)
            } else {
                pid is None && a@ == failure(
                    "charon is listening but its process could not be identified"@,
                )
            },
        },
{
    if !running {
        return Err(Response::ok("charon is not running".to_owned()));
    }
    match pid {
        Some(p) => Ok(p),
        None => Err(
            Response::err(
                "charon is listening but its process could not be identified".to_owned(),
            ),
        ),
    }
}

/// The answer once a signalled charon is gone, or was not within the time.
pub fn charon_stopped(gone: bool) -> (r: Response)
    ensures
        r@ == (if gone {
            success("charon stopped"@)
        } else {
            failure("charon was still running after the stop request"@)
        }),
{
    if gone {
        Response::ok("charon stopped".to_owned())
    } else {
        Response::err("charon was still running after the stop request".to_owned())
    }
}

/// The process in the first line of `lsof -t`.
pub open spec fn first_pid(listing: Seq<char>) -> Option<i32> {
    if lines_of(listing).len() > 0 {
        number_i32(trimmed(lines_of(listing)[0]))
    } else {
        None
    }
}

/// The process in the first line of what `lsof -t` wrote.
pub fn pid_in(listing: &str) -> (r: Option<i32>)
    ensures
        r == first_pid(listing@),
{
    let all = lines(listing);
    if all.len() == 0 {
        return None;
    }
    assert(lines_of(listing@)[0] == all@[0]@);
    parse_i32(trim(all[0].as_str()).as_str())
}

/// The process that holds a socket, from the bytes that `lsof -t` wrote.
pub fn socket_owner_pid(output: &[u8]) -> (r: Option<i32>)
    ensures
        r == first_pid(lossy(output@)),
{
    pid_in(lossy_text(output).as_str())
}

proof fn lemma_without_leading_end(s: Seq<char>, c: char)
    ensures
        without_leading(s, c).len() > 0 ==> without_leading(s, c)[0] != c,
    decreases s.len(),
{
    if s.len() > 0 && s[0] == c {
        lemma_without_leading_end(s.skip(1), c);
    }
}

proof fn lemma_without_trailing_end(s: Seq<char>, c: char)
    ensures
        without_trailing(s, c).len() > 0 ==> without_trailing(s, c).last() != c
            && without_trailing(s, c)[0] == s[0],
    decreases s.len(),
{
    if s.len() > 0 && s.last() == c {
        lemma_without_trailing_end(s.drop_last(), c);
    }
}

proof fn lemma_no_dot_pair_in_lower_case(b: Seq<char>)
    requires
        has(lowercase(b), ".."@),
    ensures
        has(b, ".."@),
{
    reveal_strlit("..");
    let l = lowercase(b);
    let i = choose|i: int| occurs_at(l, ".."@, i);
    let w = l.subrange(i, i + 2);
    assert(w[0] == '.' && w[1] == '.');
    assert(l[i] == '.' && l[i + 1] == '.');
    assert(b.subrange(i, i + 2) =~= ".."@);
    assert(occurs_at(b, ".."@, i));
}

/// A domain that is accepted as a file name is one: it has no path separator and no `..`, so the
/// resolver file lies in the resolver directory.
pub proof fn law_safe_domain_stays_in_place(d: Seq<char>)
    ensures
        safe(d) matches Some(s) ==> s.len() > 0 && is_dns_text(s) && !(has(s, ".."@)) && s[0] != '.'
            && s.last() != '.' && !s.contains('/') && resolver_file(s) == RESOLVER_DIR@ + "/"@ + s,
{
    match safe(d) {
        Some(s) => {
            let b = bare(d);
            lemma_without_leading_end(trimmed(d), '.');
            lemma_without_trailing_end(without_leading(trimmed(d), '.'), '.');
            assert forall|i: int| 0 <= i < s.len() implies is_dns_char(#[trigger] s[i]) && s[i]
                != '/' by {
                assert(is_dns_char(b[i]));
            }
            if has(s, ".."@) {
                lemma_no_dot_pair_in_lower_case(b);
            }
            reveal_strlit("/");
            if begins(s, "/"@) {
                assert(s.subrange(0, 1)[0] == '/');
            }
        },
        None => {},
    }
}

/// An accepted domain is accepted again as it is.
pub proof fn law_safe_domain_is_stable(d: Seq<char>)
    ensures
        safe(d) matches Some(s) ==> safe(s) == Some(s),
{
    law_safe_domain_stays_in_place(d);
    match safe(d) {
        Some(s) => {
            let b = bare(d);
            assert(is_dns_char(s[0]) && is_dns_char(s[s.len() - 1]));
            lemma_trimmed_stays(s);
            assert(bare(s) == s);
            assert(is_ascii_chars(b)) by {
                assert forall|i: int| 0 <= i < b.len() implies '\0' <= #[trigger] b[i] <= '\u{7f}' by {
                    assert(is_dns_char(b[i]));
                }
            }
            assert(is_ascii_chars(s)) by {
                assert forall|i: int| 0 <= i < s.len() implies '\0' <= #[trigger] s[i] <= '\u{7f}' by {
                    assert(is_dns_char(s[i]));
                }
            }
            is_ascii_chars_encode_utf8(b);
            is_ascii_chars_encode_utf8(s);
            assert(lowercase(s) =~= s);
        },
        None => {},
    }
}

/// A revert removes exactly the resolver file that was written for the connection.
pub proof fn law_revert_removes_what_was_applied(
    conn: Seq<char>,
    servers: Seq<Seq<char>>,
    domain: Option<Seq<char>>,
)
    ensures
        split_dns(conn, servers, domain) matches Ok(p) ==> reverted(Some(p.domain)) == Ok::<
            Seq<char>,
            ResponseView,
        >(p.path),
{
    match domain {
        Some(d) => law_safe_domain_is_stable(d),
        None => {},
    }
}

/// No connection name takes its record out of the run directory: what follows the directory has
/// no path separator and no dot but that of its ending.
pub proof fn law_record_stays_in_place(conn: Seq<char>)
    ensures
        ({
            let name = "dns-"@ + masked(conn) + ".record"@;
            &&& record_file(conn) == MACOS_RUN_DIR@ + "/"@ + name
            &&& !name.contains('/')
            &&& forall|i: int|
                0 <= i < name.len() - ".record"@.len() ==> #[trigger] name[i] != '.'
        }),
{
    reveal_strlit("dns-");
    reveal_strlit(".record");
    let m = masked(conn);
    let name = "dns-"@ + m + ".record"@;
    assert(record_file(conn) =~= MACOS_RUN_DIR@ + "/"@ + name);
    assert forall|i: int| 0 <= i < name.len() implies #[trigger] name[i] != '/' && (i < 4 + m.len()
        ==> name[i] != '.') by {
        if 4 <= i < 4 + m.len() {
            assert(name[i] == m[i - 4]);
        } else if i >= 4 + m.len() {
            assert(name[i] == ".record"@[i - 4 - m.len()]);
        }
    }
}

/// Whether the text at `i` is the first that is no IPv4 address.
pub open spec fn is_first_bad(servers: Seq<Seq<char>>, i: int) -> bool {
    address(trimmed(servers[i])) is None && forall|k: int|
        0 <= k < i ==> address(trimmed(#[trigger] servers[k])) is Some
}

proof fn lemma_nameservers(servers: Seq<Seq<char>>, n: int)
    requires
        0 <= n <= servers.len(),
    ensures
        match nameservers(servers, n) {
            Ok(_) => forall|k: int|
                0 <= k < n ==> address(trimmed(#[trigger] servers[k])) is Some,
            Err(e) => exists|i: int|
                0 <= i < n && #[trigger] is_first_bad(servers, i) && e == debug_quoted(servers[i])
                    + " is not an IPv4 address"@,
        },
    decreases n,
{
    if n > 0 {
        lemma_nameservers(servers, n - 1);
        if nameservers(servers, n - 1) is Ok && address(trimmed(servers[n - 1])) is None {
            assert(is_first_bad(servers, n - 1));
        }
    }
}

proof fn lemma_nameservers_prefix(servers: Seq<Seq<char>>, more: Seq<Seq<char>>, n: int)
    requires
        0 <= n <= servers.len(),
    ensures
        nameservers(servers + more, n) == nameservers(servers, n),
    decreases n,
{
    if n > 0 {
        lemma_nameservers_prefix(servers, more, n - 1);
        assert((servers + more)[n - 1] == servers[n - 1]);
    }
}

/// A resolver file has one line for each server, in the order given. A text that is no address
/// refuses them all, and the refusal quotes the first such text.
pub proof fn law_resolver_names_every_server(servers: Seq<Seq<char>>, s: Seq<char>)
    ensures
        nameservers(Seq::empty(), 0) == Ok::<Seq<char>, Seq<char>>(Seq::empty()),
        ({
            let more = servers + seq![s];
            let before = nameservers(servers, servers.len() as int);
            let after = nameservers(more, more.len() as int);
            &&& before is Ok && address(trimmed(s)) is Some ==> after == Ok::<Seq<char>, Seq<char>>(
                before->Ok_0 + "nameserver "@ + address(trimmed(s))->0.dotted() + "\n"@,
            )
            &&& after is Err ==> exists|i: int|
                0 <= i < more.len() && #[trigger] is_first_bad(more, i) && after->Err_0
                    == debug_quoted(more[i]) + " is not an IPv4 address"@
            &&& before is Err || address(trimmed(s)) is None ==> after is Err
        }),
{
    let more = servers + seq![s];
    lemma_nameservers_prefix(servers, seq![s], servers.len() as int);
    lemma_nameservers(more, more.len() as int);
    assert(more[servers.len() as int] == s);
}

/// Split DNS is set up for a domain that is safe and at least one server: the file under
/// `/etc/resolver` has the domain's name and holds its servers, and the record is the
/// connection's. Everything else is refused, the domain before the servers.
pub proof fn law_split_dns_is_for_the_domain(
    conn: Seq<char>,
    servers: Seq<Seq<char>>,
    domain: Option<Seq<char>>,
)
    ensures
        ({
            let plan = split_dns(conn, servers, domain);
            let text = nameservers(servers, servers.len() as int);
            let usable = domain is Some && safe(domain->0) is Some;
            &&& !usable ==> plan == Err::<SplitView, ResponseView>(
                failure("no usable DNS domain was supplied"@),
            )
            &&& usable && text is Err ==> plan == Err::<SplitView, ResponseView>(
                failure(text->Err_0),
            )
            &&& usable && servers.len() == 0 ==> plan == Err::<SplitView, ResponseView>(
                failure("no DNS servers were supplied"@),
            )
            &&& usable && servers.len() > 0 && text is Ok ==> plan is Ok && {
                let p = plan->Ok_0;
                let d = safe(domain->0)->0;
                &&& p.domain == d
                &&& p.path == "/etc/resolver"@ + "/"@ + d
                &&& p.content == text->Ok_0
                &&& p.record_path == "/var/run/ipsec-vpn"@ + "/"@ + "dns-"@ + masked(conn)
                    + ".record"@
            }
        }),
{
    let n = servers.len() as int;
    if n > 0 && nameservers(servers, n) is Ok {
        assert(nameservers(servers, n - 1) is Ok);
        reveal_strlit("nameserver ");
        assert(nameservers(servers, n)->Ok_0.len() > 0);
    }
    if domain is Some && safe(domain->0) is Some {
        law_safe_domain_stays_in_place(domain->0);
        let d = safe(domain->0)->0;
        reveal_strlit("/");
        assert(!begins(d, "/"@)) by {
            if begins(d, "/"@) {
                assert(d.take(1)[0] == '/');
                assert(d[0] == '/');
            }
        }
    }
}

/// A domain is safe exactly when, without the white space and the dots around it, something is
/// left of at most 253 bytes that holds only letters, digits, dots and hyphens and no two dots in
/// a row. It is then written in lower case.
pub proof fn law_domain_is_safe_or_refused(d: Seq<char>, core: Seq<char>)
    requires
        core == bare(d),
    ensures
        ({
            let fits = core.len() > 0 && encode_utf8(core).len() <= 253 && is_dns_text(core) && (
            forall|i: int| 0 <= i < core.len() - 1 ==> !(#[trigger] core[i] == '.' && core[i + 1]
                == '.'));
            &&& fits ==> safe(d) is Some && safe(d)->0.len() == core.len() && forall|i: int|
                0 <= i < core.len() ==> #[trigger] safe(d)->0[i] == (if 'A' <= core[i] <= 'Z' {
                    (core[i] as u32 + 32) as char
                } else {
                    core[i]
                })
            &&& !fits ==> safe(d) is None
        }),
{
    reveal_strlit("..");
    assert(has(core, ".."@) <==> !(forall|i: int|
        0 <= i < core.len() - 1 ==> !(#[trigger] core[i] == '.' && core[i + 1] == '.'))) by {
        if has(core, ".."@) {
            let i = choose|i: int|
                0 <= i <= core.len() - ".."@.len() && #[trigger] occurs_at(core, ".."@, i);
            let s = core.subrange(i, i + 2);
            assert(s[0] == '.' && s[1] == '.');
            assert(core[i] == '.' && core[i + 1] == '.');
        } else {
            assert forall|i: int| 0 <= i < core.len() - 1 implies !(#[trigger] core[i] == '.'
                && core[i + 1] == '.') by {
                if core[i] == '.' && core[i + 1] == '.' {
                    assert(core.subrange(i, i + 2) =~= ".."@);
                    assert(occurs_at(core, ".."@, i));
                }
            }
        }
    }
}

/// A start request is answered without a launch when the daemon runs, or when its program or its
/// configuration is missing; only otherwise is it launched.
pub proof fn law_start_is_answered_or_launched(running: bool, has_bin: bool, has_conf: bool)
    ensures
        start_answer(running, has_bin, has_conf) is None <==> !running && has_bin && has_conf,
        running ==> start_answer(running, has_bin, has_conf) == Some(
            success("charon is already running"@),
        ),
        !running && !has_bin ==> start_answer(running, has_bin, has_conf) == Some(
            failure(
                "charon is not installed at "@
                    + "/Library/Application Support/dev.jackolix.ipsecvpn/charon"@ + "/charon"@,
            ),
        ),
        !running && has_bin && !has_conf ==> start_answer(running, has_bin, has_conf) == Some(
            failure(
                "strongswan.conf is missing at "@
                    + "/Library/Application Support/dev.jackolix.ipsecvpn/charon"@
                    + "/etc/strongswan.conf"@,
            ),
        ),
{
}

/// A revert without a record is answered with success; a record that holds no safe domain is
/// refused; any other removes the file of the recorded domain.
pub proof fn law_revert_goes_by_the_record(text: Seq<char>)
    ensures
        reverted(None) == Err::<Seq<char>, ResponseView>(success(Seq::empty())),
        safe(text) is None ==> reverted(Some(text)) == Err::<Seq<char>, ResponseView>(
            failure("the recorded DNS domain is not a valid name"@),
        ),
        safe(text) is Some ==> reverted(Some(text)) == Ok::<Seq<char>, ResponseView>(
            "/etc/resolver"@ + "/"@ + safe(text)->0,
        ),
{
    if safe(text) is Some {
        law_safe_domain_stays_in_place(text);
        let d = safe(text)->0;
        reveal_strlit("/");
        assert(!begins(d, "/"@)) by {
            if begins(d, "/"@) {
                assert(d.take(1)[0] == '/');
                assert(d[0] == '/');
            }
        }
    }
}

/// Around a domain only white space and, inside that, dots are taken.
pub proof fn law_dots_around_are_taken(d: Seq<char>)
    ensures
        ({
            let b = bare(d);
            &&& b.len() > 0 ==> b[0] != '.' && b.last() != '.'
            &&& exists|front: nat, back: nat|
                trimmed(d) == #[trigger] dots(front) + b + #[trigger] dots(back)
        }),
{
    let t = trimmed(d);
    let u = without_leading(t, '.');
    let b = bare(d);
    law_leading_are_taken(t, '.');
    law_trailing_are_taken(u, '.');
    let front = (t.len() - u.len()) as nat;
    let back = (u.len() - b.len()) as nat;
    assert(t =~= dots(front) + b + dots(back));
    if b.len() > 0 {
        assert(b[0] == u[0]);
    }
}

/// That many dots.
pub open spec fn dots(n: nat) -> Seq<char> {
    Seq::new(n, |i: int| '.')
}

/// The process on a socket is the number on the first line of the listing; what follows that line
/// plays no part, and a line that is no number names none.
pub proof fn law_first_line_names_the_process(line: Seq<char>, rest: Seq<char>)
    requires
        !line.contains('\n'),
        line.len() > 0 ==> line.last() != '\r',
    ensures
        first_pid(line + seq!['\n'] + rest) == number_i32(trimmed(line)),
{
    law_lines_end_at_line_feeds(line, rest);
}

} // verus!
