//! The broker's state and its decisions: which SSL tunnels are up and in which adapter slots, and
//! what each request makes of them.
//!
//! Requests come from a user who may not be an administrator, and some of their fields end up in
//! commands that run privileged. Each is checked here again: a DNS server must be an IPv4 address,
//! a subnet an IPv4 network, and a domain may only hold the characters of DNS labels.

use crate::broker::drive::{Pushed, PushedView};
use crate::broker::openvpn::ConnectError;
use crate::broker::protocol::{failure, success, Request, RequestView, Response, ResponseView};
use crate::ipv4::{address, Ipv4Addr};
use crate::json::{json_quoted, quote};
use crate::model::opt_view;
use crate::text::{
    debug_quoted, decimal, format_u64, index_of, is_alnum, is_alphanumeric, join, join_all,
    law_joining_keeps_every_text, law_leading_are_taken, lemma_index_of_is_first, number_up_to,
    parse_up_to, quote_debug, same, split_once, strip_leading, trim, trimmed, views,
    without_leading,
};
use vstd::prelude::*;
use vstd::utf8::encode_utf8;

verus! {

/// The most DNS servers that a request may name.
pub const MAX_SERVERS: usize = 8;

/// The longest domain, in bytes.
pub const MAX_DOMAIN_LEN: usize = 253;

/// The most subnets that a request may name.
pub const MAX_SUBNETS: usize = 64;

/// The most SSL tunnels at once: each has an adapter of its own.
pub const MAX_SSL_TUNNELS: usize = 8;

/// What is said of a text that is not the address of a DNS server.
pub open spec fn bad_server(s: Seq<char>) -> Seq<char> {
    "not an IPv4 DNS server: "@ + debug_quoted(s)
}

/// The addresses of the first `n` servers, or what is wrong with the first that is none.
pub open spec fn servers_read(servers: Seq<Seq<char>>, n: int) -> Result<Seq<Ipv4Addr>, Seq<char>>
    decreases n,
{
    if n <= 0 {
        Ok(Seq::empty())
    } else {
        match servers_read(servers, n - 1) {
            Ok(v) => match address(trimmed(servers[n - 1])) {
                Some(a) => Ok(v.push(a)),
                None => Err(bad_server(servers[n - 1])),
            },
            Err(e) => Err(e),
        }
    }
}

/// The addresses of the DNS servers of a request.
pub open spec fn servers_of(servers: Seq<Seq<char>>) -> Result<Seq<Ipv4Addr>, Seq<char>> {
    if servers.len() > MAX_SERVERS {
        Err("too many DNS servers (max "@ + decimal(MAX_SERVERS as nat) + ")"@)
    } else {
        servers_read(servers, servers.len() as int)
    }
}

proof fn lemma_server_error_stays(servers: Seq<Seq<char>>, n: int, m: int)
    requires
        n <= m,
        servers_read(servers, n) is Err,
    ensures
        servers_read(servers, m) == servers_read(servers, n),
    decreases m - n,
{
    if n < m {
        lemma_server_error_stays(servers, n, m - 1);
    }
}

/// Reads and bounds the DNS servers of a request.
pub fn validate_servers(servers: &Vec<String>) -> (r: Result<Vec<Ipv4Addr>, String>)
    ensures
        match r {
            Ok(v) => servers_of(views(servers@)) == Ok::<Seq<Ipv4Addr>, Seq<char>>(v@),
            Err(e) => servers_of(views(servers@)) == Err::<Seq<Ipv4Addr>, Seq<char>>(e@),
        },
{
    if servers.len() > MAX_SERVERS {
        let mut s = "too many DNS servers (max ".to_owned();
        s.append(format_u64(MAX_SERVERS as u64).as_str());
        s.append(")");
        return Err(s);
    }
    let ghost all = views(servers@);
    let mut out: Vec<Ipv4Addr> = Vec::new();
    let mut i: usize = 0;
    while i < servers.len()
        invariant
            i <= servers@.len() <= MAX_SERVERS,
            all == views(servers@),
            servers_read(all, i as int) == Ok::<Seq<Ipv4Addr>, Seq<char>>(out@),
        decreases servers@.len() - i,
    {
        assert(all[i as int] == servers@[i as int]@);
        match Ipv4Addr::parse(trim(servers[i].as_str()).as_str()) {
            Some(a) => {
                out.push(a);
            },
            None => {
                let mut s = "not an IPv4 DNS server: ".to_owned();
                s.append(quote_debug(servers[i].as_str()).as_str());
                proof {
                    lemma_server_error_stays(all, i + 1, all.len() as int);
                }
                return Err(s);
            },
        }
        i = i + 1;
    }
    Ok(out)
}

/// What is said of a text that is not a subnet.
pub open spec fn bad_subnet(s: Seq<char>) -> Seq<char> {
    "not an IPv4 subnet: "@ + debug_quoted(s)
}

/// The subnet that a text denotes, written anew: address, slash, prefix length.
pub open spec fn subnet_of(s: Seq<char>) -> Option<Seq<char>> {
    let t = trimmed(s);
    let slash = index_of(t, '/');
    if slash >= t.len() {
        None
    } else {
        match address(t.take(slash)) {
            Some(a) => match number_up_to(t.skip(slash + 1), 32) {
                Some(prefix) => Some(a.dotted() + "/"@ + decimal(prefix)),
                None => None,
            },
            None => None,
        }
    }
}

/// The first `n` subnets, or what is wrong with the first that is none.
pub open spec fn subnets_read(subnets: Seq<Seq<char>>, n: int) -> Result<Seq<Seq<char>>, Seq<char>>
    decreases n,
{
    if n <= 0 {
        Ok(Seq::empty())
    } else {
        match subnets_read(subnets, n - 1) {
            Ok(v) => match subnet_of(subnets[n - 1]) {
                Some(t) => Ok(v.push(t)),
                None => Err(bad_subnet(subnets[n - 1])),
            },
            Err(e) => Err(e),
        }
    }
}

/// The subnets of a request.
pub open spec fn subnets_of(subnets: Seq<Seq<char>>) -> Result<Seq<Seq<char>>, Seq<char>> {
    if subnets.len() > MAX_SUBNETS {
        Err("too many subnets (max "@ + decimal(MAX_SUBNETS as nat) + ")"@)
    } else {
        subnets_read(subnets, subnets.len() as int)
    }
}

proof fn lemma_subnet_error_stays(subnets: Seq<Seq<char>>, n: int, m: int)
    requires
        n <= m,
        subnets_read(subnets, n) is Err,
    ensures
        subnets_read(subnets, m) == subnets_read(subnets, n),
    decreases m - n,
{
    if n < m {
        lemma_subnet_error_stays(subnets, n, m - 1);
    }
}

fn read_subnet(s: &str) -> (r: Option<String>)
    ensures
        match r {
            Some(t) => subnet_of(s@) == Some(t@),
            None => subnet_of(s@) is None,
        },
{
    let t = trim(s);
    match split_once(t.as_str(), '/') {
        Some((addr, prefix)) => {
            match Ipv4Addr::parse(addr.as_str()) {
                Some(a) => match parse_up_to(prefix.as_str(), 32) {
                    Some(n) => {
                        let mut out = a.to_text();
                        out.append("/");
                        out.append(format_u64(n).as_str());
                        Some(out)
                    },
                    None => None,
                },
                None => None,
            }
        },
        None => None,
    }
}

/// Reads and bounds the subnets of a request. One that is none is an error, not skipped.
pub fn validate_subnets(subnets: &Vec<String>) -> (r: Result<Vec<String>, String>)
    ensures
        match r {
            Ok(v) => subnets_of(views(subnets@)) == Ok::<Seq<Seq<char>>, Seq<char>>(views(v@)),
            Err(e) => subnets_of(views(subnets@)) == Err::<Seq<Seq<char>>, Seq<char>>(e@),
        },
{
    if subnets.len() > MAX_SUBNETS {
        let mut s = "too many subnets (max ".to_owned();
        s.append(format_u64(MAX_SUBNETS as u64).as_str());
        s.append(")");
        return Err(s);
    }
    let ghost all = views(subnets@);
    let mut out: Vec<String> = Vec::new();
    assert(views(out@) =~= Seq::empty());
    let mut i: usize = 0;
    while i < subnets.len()
        invariant
            i <= subnets@.len() <= MAX_SUBNETS,
            all == views(subnets@),
            subnets_read(all, i as int) == Ok::<Seq<Seq<char>>, Seq<char>>(views(out@)),
        decreases subnets@.len() - i,
    {
        assert(all[i as int] == subnets@[i as int]@);
        match read_subnet(subnets[i].as_str()) {
            Some(t) => {
                let ghost before = out@;
                let ghost seen = t@;
                out.push(t);
                assert(views(out@) =~= views(before).push(seen));
            },
            None => {
                let mut s = "not an IPv4 subnet: ".to_owned();
                s.append(quote_debug(subnets[i].as_str()).as_str());
                proof {
                    lemma_subnet_error_stays(all, i + 1, all.len() as int);
                }
                return Err(s);
            },
        }
        i = i + 1;
    }
    Ok(out)
}

/// A character of a DNS label, or the dot between two.
pub open spec fn is_dns_char(c: char) -> bool {
    is_alnum(c) || c == '.' || c == '-'
}

/// Whether a text holds only such characters.
pub open spec fn is_dns_text(s: Seq<char>) -> bool {
    forall|i: int| 0 <= i < s.len() ==> is_dns_char(#[trigger] s[i])
}

/// Whether a text holds only characters of DNS labels and dots.
pub fn all_dns_chars(s: &str) -> (r: bool)
    ensures
        r == is_dns_text(s@),
{
    for c in it: s.chars()
        invariant
            it.seq() == s@,
            forall|i: int| 0 <= i < it.index() ==> is_dns_char(#[trigger] s@[i]),
    {
        if !(is_alphanumeric(c) || c == '.' || c == '-') {
            assert(!is_dns_char(s@[it.index() as int]));
            return false;
        }
    }
    true
}

/// The domain of a request: trimmed, none when it is blank, refused when it is too long or holds
/// another character.
pub open spec fn domain_of(domain: Option<Seq<char>>) -> Result<Option<Seq<char>>, Seq<char>> {
    match domain {
        Some(s) => {
            let d = trimmed(s);
            if d.len() == 0 {
                Ok(None)
            } else if encode_utf8(d).len() > MAX_DOMAIN_LEN {
                Err("domain too long"@)
            } else if !is_dns_text(d) {
                Err("domain has invalid characters"@)
            } else {
                Ok(Some(d))
            }
        },
        None => Ok(None),
    }
}

/// Checks the domain of a request.
pub fn validate_domain(domain: Option<&str>) -> (r: Result<Option<String>, String>)
    ensures
        ({
            let given = match domain {
                Some(d) => Some(d@),
                None => None,
            };
            match r {
                Ok(d) => domain_of(given) == Ok::<Option<Seq<char>>, Seq<char>>(opt_view(d)),
                Err(e) => domain_of(given) == Err::<Option<Seq<char>>, Seq<char>>(e@),
            }
        }),
{
    match domain {
        Some(s) => {
            let d = trim(s);
            if d.as_str().is_empty() {
                return Ok(None);
            }
            if d.as_str().as_bytes().len() > MAX_DOMAIN_LEN {
                return Err("domain too long".to_owned());
            }
            if !all_dns_chars(d.as_str()) {
                return Err("domain has invalid characters".to_owned());
            }
            Ok(Some(d))
        },
        None => Ok(None),
    }
}

/// The lowest slot, from `i` on, that is not occupied.
pub open spec fn free_slot_from(occupied: Seq<usize>, i: int) -> Option<int>
    decreases MAX_SSL_TUNNELS - i,
{
    if i < 0 || i >= MAX_SSL_TUNNELS {
        None
    } else if !occupied.contains(i as usize) {
        Some(i)
    } else {
        free_slot_from(occupied, i + 1)
    }
}

/// What is said when every slot is occupied.
pub open spec fn no_slot() -> Seq<char> {
    "too many SSL VPN tunnels are already up (max "@ + decimal(MAX_SSL_TUNNELS as nat) + ")"@
}

fn has_slot(v: &[usize], slot: usize) -> (r: bool)
    ensures
        r == v@.contains(slot),
{
    let mut i: usize = 0;
    while i < v.len()
        invariant
            i <= v@.len(),
            forall|k: int| 0 <= k < i ==> v@[k] != slot,
        decreases v@.len() - i,
    {
        if v[i] == slot {
            return true;
        }
        i = i + 1;
    }
    false
}

/// The lowest adapter slot that is not occupied. Filling the lowest gap keeps the adapters as few
/// as the busiest moment needed.
pub fn lowest_free_slot(occupied: &[usize]) -> (r: Result<usize, String>)
    ensures
        match r {
            Ok(s) => free_slot_from(occupied@, 0) == Some(s as int),
            Err(e) => free_slot_from(occupied@, 0) is None && e@ == no_slot(),
        },
{
    let mut i: usize = 0;
    while i < MAX_SSL_TUNNELS
        invariant
            i <= MAX_SSL_TUNNELS,
            free_slot_from(occupied@, 0) == free_slot_from(occupied@, i as int),
        decreases MAX_SSL_TUNNELS - i,
    {
        if !has_slot(occupied, i) {
            return Ok(i);
        }
        i = i + 1;
    }
    let mut s = "too many SSL VPN tunnels are already up (max ".to_owned();
    s.append(format_u64(MAX_SSL_TUNNELS as u64).as_str());
    s.append(")");
    Err(s)
}

/// One SSL tunnel that is up: the name that the client knows it by, the adapter slot that it
/// occupies, and what the gateway gave it.
#[derive(Debug)]
pub struct SslEntry {
    pub name: String,
    pub slot: usize,
    pub vpn_ip: Option<String>,
    pub pushed: Pushed,
}

/// The content of an [`SslEntry`].
pub struct EntryView {
    pub name: Seq<char>,
    pub slot: usize,
    pub vpn_ip: Option<Seq<char>>,
    pub pushed: PushedView,
}

impl View for SslEntry {
    type V = EntryView;

    open spec fn view(&self) -> EntryView {
        EntryView {
            name: self.name@,
            slot: self.slot,
            vpn_ip: opt_view(self.vpn_ip),
            pushed: self.pushed@,
        }
    }
}

/// The contents of a list of tunnels.
pub open spec fn entry_views(v: Seq<SslEntry>) -> Seq<EntryView> {
    Seq::new(v.len(), |i: int| v[i]@)
}

/// The SSL tunnels that are up, and the slots that connects in flight have reserved.
pub struct SslRegistry {
    pub tunnels: Vec<SslEntry>,
    pub reserved: Vec<usize>,
}

/// The content of an [`SslRegistry`].
pub struct RegistryView {
    pub tunnels: Seq<EntryView>,
    pub reserved: Seq<usize>,
}

impl View for SslRegistry {
    type V = RegistryView;

    open spec fn view(&self) -> RegistryView {
        RegistryView { tunnels: entry_views(self.tunnels@), reserved: self.reserved@ }
    }
}

/// The slots of some tunnels.
pub open spec fn slots(tunnels: Seq<EntryView>) -> Seq<usize> {
    Seq::new(tunnels.len(), |i: int| tunnels[i].slot)
}

impl RegistryView {
    /// What holds of every registry: no slot is held twice, and each is one of those there are.
    pub open spec fn wf(self) -> bool {
        &&& forall|i: int, j: int|
            0 <= i < j < self.tunnels.len() ==> (#[trigger] self.tunnels[i]).slot != (
            #[trigger] self.tunnels[j]).slot
        &&& forall|i: int, j: int|
            0 <= i < j < self.reserved.len() ==> #[trigger] self.reserved[i]
                != #[trigger] self.reserved[j]
        &&& forall|i: int, j: int|
            0 <= i < self.tunnels.len() && 0 <= j < self.reserved.len() ==> (
            #[trigger] self.tunnels[i]).slot != #[trigger] self.reserved[j]
        &&& forall|i: int|
            0 <= i < self.tunnels.len() ==> (#[trigger] self.tunnels[i]).slot < MAX_SSL_TUNNELS
        &&& forall|i: int|
            0 <= i < self.reserved.len() ==> #[trigger] self.reserved[i] < MAX_SSL_TUNNELS
    }

    /// Every slot that a tunnel or a connect in flight holds.
    pub open spec fn held(self) -> Seq<usize> {
        slots(self.tunnels) + self.reserved
    }

    /// The slot that the next connect gets.
    pub open spec fn next_slot(self) -> Option<int> {
        free_slot_from(self.held(), 0)
    }
}

/// Those of the first `n` tunnels whose process is alive, by their slots.
pub open spec fn living(tunnels: Seq<EntryView>, alive: Seq<usize>, n: int) -> Seq<EntryView>
    decreases n,
{
    if n <= 0 {
        Seq::empty()
    } else if alive.contains(tunnels[n - 1].slot) {
        living(tunnels, alive, n - 1).push(tunnels[n - 1])
    } else {
        living(tunnels, alive, n - 1)
    }
}

/// The registry without the tunnels whose process died.
pub open spec fn pruned(reg: RegistryView, alive: Seq<usize>) -> RegistryView {
    RegistryView { tunnels: living(reg.tunnels, alive, reg.tunnels.len() as int), ..reg }
}

/// Those of the first `n` reserved slots that are not `slot`.
pub open spec fn without_slot(reserved: Seq<usize>, slot: usize, n: int) -> Seq<usize>
    decreases n,
{
    if n <= 0 {
        Seq::empty()
    } else if reserved[n - 1] != slot {
        without_slot(reserved, slot, n - 1).push(reserved[n - 1])
    } else {
        without_slot(reserved, slot, n - 1)
    }
}

/// The registry once a connect no longer holds its slot.
pub open spec fn unreserved(reg: RegistryView, slot: usize) -> RegistryView {
    RegistryView { reserved: without_slot(reg.reserved, slot, reg.reserved.len() as int), ..reg }
}

impl SslRegistry {
    /// A registry without tunnels.
    pub fn new() -> (r: Self)
        ensures
            r@ == (RegistryView { tunnels: Seq::empty(), reserved: Seq::empty() }),
            r@.wf(),
    {
        let r = SslRegistry { tunnels: Vec::new(), reserved: Vec::new() };
        assert(r@.tunnels =~= Seq::empty());
        r
    }

    /// Drops the tunnels whose process died, which frees their slots. `alive` are the slots of
    /// those whose process runs.
    pub fn prune(&mut self, alive: &[usize])
        ensures
            final(self)@ == pruned(old(self)@, alive@),
    {
        let mut all: Vec<SslEntry> = Vec::new();
        std::mem::swap(&mut all, &mut self.tunnels);
        let ghost whole = all@;
        let ghost given = entry_views(whole);
        let mut kept: Vec<SslEntry> = Vec::new();
        assert(entry_views(kept@) =~= Seq::empty());
        for entry in it: all
            invariant
                it.seq() == whole,
                given == entry_views(whole),
                entry_views(kept@) == living(given, alive@, it.index() as int),
        {
            assert(given[it.index() as int] == entry@);
            if has_slot(alive, entry.slot) {
                let ghost before = kept@;
                let ghost seen = entry@;
                kept.push(entry);
                assert(entry_views(kept@) =~= entry_views(before).push(seen));
            }
        }
        self.tunnels = kept;
    }

    /// Reserves the lowest slot that neither a tunnel nor a connect in flight holds.
    pub fn take_slot(&mut self) -> (r: Result<usize, String>)
        ensures
            match r {
                Ok(s) => old(self)@.next_slot() == Some(s as int) && final(self)@ == (
                RegistryView { reserved: old(self)@.reserved.push(s), ..old(self)@ }),
                Err(e) => old(self)@.next_slot() is None && e@ == no_slot() && final(self)@
                    == old(self)@,
            },
    {
        let mut occupied: Vec<usize> = Vec::new();
        let mut i: usize = 0;
        while i < self.tunnels.len()
            invariant
                i <= self.tunnels@.len(),
                occupied@ == slots(self@.tunnels).take(i as int),
            decreases self.tunnels@.len() - i,
        {
            occupied.push(self.tunnels[i].slot);
            assert(occupied@ =~= slots(self@.tunnels).take(i + 1));
            i = i + 1;
        }
        let mut k: usize = 0;
        while k < self.reserved.len()
            invariant
                k <= self.reserved@.len(),
                occupied@ == slots(self@.tunnels) + self.reserved@.take(k as int),
            decreases self.reserved@.len() - k,
        {
            occupied.push(self.reserved[k]);
            assert(occupied@ =~= slots(self@.tunnels) + self.reserved@.take(k + 1));
            k = k + 1;
        }
        assert(occupied@ =~= self@.held());
        match lowest_free_slot(occupied.as_slice()) {
            Ok(slot) => {
                self.reserved.push(slot);
                Ok(slot)
            },
            Err(e) => Err(e),
        }
    }

    /// Gives a reserved slot back.
    pub fn release_slot(&mut self, slot: usize)
        ensures
            final(self)@ == unreserved(old(self)@, slot),
    {
        let mut kept: Vec<usize> = Vec::new();
        let mut i: usize = 0;
        while i < self.reserved.len()
            invariant
                i <= self.reserved@.len(),
                kept@ == without_slot(self.reserved@, slot, i as int),
            decreases self.reserved@.len() - i,
        {
            if self.reserved[i] != slot {
                kept.push(self.reserved[i]);
            }
            i = i + 1;
        }
        self.reserved = kept;
    }
}

impl Default for SslRegistry {
    fn default() -> (r: Self)
        ensures
            r@ == (RegistryView { tunnels: Seq::empty(), reserved: Seq::empty() }),
    {
        SslRegistry::new()
    }
}

/// The namespaces that one tunnel claims: all names when it took the default route, and the
/// domain that the gateway named.
pub open spec fn claims_of(e: EntryView) -> Seq<Seq<char>> {
    let all = if e.pushed.full {
        seq!["."@]
    } else {
        Seq::empty()
    };
    match e.pushed.domain {
        Some(d) => all.push("."@ + without_leading(d, '.')),
        None => all,
    }
}

/// The namespaces that the first `n` tunnels but `conn` claim.
pub open spec fn claims_but(tunnels: Seq<EntryView>, conn: Seq<char>, n: int) -> Seq<Seq<char>>
    decreases n,
{
    if n <= 0 {
        Seq::empty()
    } else if tunnels[n - 1].name != conn {
        claims_but(tunnels, conn, n - 1) + claims_of(tunnels[n - 1])
    } else {
        claims_but(tunnels, conn, n - 1)
    }
}

/// The first tunnel, from `i` on, with the given name.
pub open spec fn named_from(tunnels: Seq<EntryView>, name: Seq<char>, i: int) -> Option<int>
    decreases tunnels.len() - i,
{
    if i < 0 || i >= tunnels.len() {
        None
    } else if tunnels[i].name == name {
        Some(i)
    } else {
        named_from(tunnels, name, i + 1)
    }
}

/// Those of the first `n` tunnels with the given name, or those without it.
pub open spec fn named(tunnels: Seq<EntryView>, name: Seq<char>, with: bool, n: int) -> Seq<
    EntryView,
>
    decreases n,
{
    if n <= 0 {
        Seq::empty()
    } else if (tunnels[n - 1].name == name) == with {
        named(tunnels, name, with, n - 1).push(tunnels[n - 1])
    } else {
        named(tunnels, name, with, n - 1)
    }
}

/// What the broker does next about a request.
#[derive(Debug)]
pub enum Step {
    /// Answer.
    Reply(Response),
    /// Route DNS for a connection, given what other datapaths have claimed.
    ApplyDns {
        conn: String,
        servers: Vec<Ipv4Addr>,
        domain: Option<String>,
        subnets: Vec<String>,
        spoken_for: Vec<String>,
    },
    /// Undo a connection's DNS.
    RevertDns { conn: String },
    /// Stop the process of the replaced tunnel, if any, then reserve a slot and connect.
    Connect {
        replaced: Option<SslEntry>,
        name: String,
        config: String,
        username: String,
        password: String,
        allow_full: bool,
    },
    /// Stop the processes of these tunnels, then give this answer.
    Disconnect { doomed: Vec<SslEntry>, reply: Response },
}

/// The content of a [`Step`].
pub enum StepView {
    Reply(ResponseView),
    ApplyDns {
        conn: Seq<char>,
        servers: Seq<Ipv4Addr>,
        domain: Option<Seq<char>>,
        subnets: Seq<Seq<char>>,
        spoken_for: Seq<Seq<char>>,
    },
    RevertDns { conn: Seq<char> },
    Connect {
        replaced: Option<EntryView>,
        name: Seq<char>,
        config: Seq<char>,
        username: Seq<char>,
        password: Seq<char>,
        allow_full: bool,
    },
    Disconnect { doomed: Seq<EntryView>, reply: ResponseView },
}

impl View for Step {
    type V = StepView;

    open spec fn view(&self) -> StepView {
        match self {
            Step::Reply(r) => StepView::Reply(r@),
            Step::ApplyDns { conn, servers, domain, subnets, spoken_for } => StepView::ApplyDns {
                conn: conn@,
                servers: servers@,
                domain: opt_view(*domain),
                subnets: views(subnets@),
                spoken_for: views(spoken_for@),
            },
            Step::RevertDns { conn } => StepView::RevertDns { conn: conn@ },
            Step::Connect { replaced, name, config, username, password, allow_full } =>
                StepView::Connect {
                    replaced: match replaced {
                        Some(e) => Some(e@),
                        None => None,
                    },
                    name: name@,
                    config: config@,
                    username: username@,
                    password: password@,
                    allow_full: *allow_full,
                },
            Step::Disconnect { doomed, reply } => StepView::Disconnect {
                doomed: entry_views(doomed@),
                reply: reply@,
            },
        }
    }
}

/// The truth value as JSON writes it.
pub open spec fn json_bool(b: bool) -> Seq<char> {
    if b {
        "true"@
    } else {
        "false"@
    }
}

/// One tunnel in the answer to a status request, given its texts in quotes.
pub open spec fn status_text(
    domain: Seq<char>,
    full: bool,
    ip: Seq<char>,
    name: Seq<char>,
) -> Seq<char> {
    "{\"domain\":"@ + domain + ",\"full\":"@ + json_bool(full) + ",\"ip\":"@ + ip
        + ",\"name\":"@ + name + "}"@
}

/// The text, or an empty one.
pub open spec fn or_empty(s: Option<Seq<char>>) -> Seq<char> {
    match s {
        Some(t) => t,
        None => Seq::empty(),
    }
}

/// One tunnel in the answer to a status request.
pub open spec fn status_of(e: EntryView) -> Seq<char> {
    status_text(
        json_quoted(or_empty(e.pushed.domain)),
        e.pushed.full,
        json_quoted(or_empty(e.vpn_ip)),
        json_quoted(e.name),
    )
}

/// The answer to a status request: a JSON array of the tunnels, or nothing when there is none.
pub open spec fn status_answer(tunnels: Seq<EntryView>) -> Seq<char> {
    if tunnels.len() == 0 {
        Seq::empty()
    } else {
        "["@ + join_all(Seq::new(tunnels.len(), |i: int| status_of(tunnels[i])), ","@) + "]"@
    }
}

/// What is said of a request that only the macOS helper serves.
pub open spec fn not_served() -> Seq<char> {
    "charon is supervised by the service on this platform"@
}

/// What a request makes of the registry, and what the broker does next. A tunnel of the same name
/// is replaced; every other one stays.
pub open spec fn handled(reg: RegistryView, alive: Seq<usize>, req: RequestView) -> (
    RegistryView,
    StepView,
) {
    let live = pruned(reg, alive);
    match req {
        RequestView::Ping => (reg, StepView::Reply(success("pong"@))),
        RequestView::ApplyDns { conn, servers, domain, subnets } => match servers_of(servers) {
            Err(e) => (reg, StepView::Reply(failure(e))),
            Ok(addresses) => match domain_of(domain) {
                Err(e) => (reg, StepView::Reply(failure(e))),
                Ok(suffix) => match subnets_of(subnets) {
                    Err(e) => (reg, StepView::Reply(failure(e))),
                    Ok(networks) => (
                        live,
                        StepView::ApplyDns {
                            conn,
                            servers: addresses,
                            domain: suffix,
                            subnets: networks,
                            spoken_for: claims_but(
                                live.tunnels,
                                conn,
                                live.tunnels.len() as int,
                            ),
                        },
                    ),
                },
            },
        },
        RequestView::RevertDns { conn } => (reg, StepView::RevertDns { conn }),
        RequestView::SslConnect { name, config, username, password, allow_full } => {
            match named_from(live.tunnels, name, 0) {
                Some(i) => (
                    RegistryView { tunnels: live.tunnels.remove(i), ..live },
                    StepView::Connect {
                        replaced: Some(live.tunnels[i]),
                        name,
                        config,
                        username,
                        password,
                        allow_full,
                    },
                ),
                None => (
                    live,
                    StepView::Connect {
                        replaced: None,
                        name,
                        config,
                        username,
                        password,
                        allow_full,
                    },
                ),
            }
        },
        RequestView::SslDisconnect { name } => {
            let n = reg.tunnels.len() as int;
            if name.len() == 0 {
                (
                    RegistryView { tunnels: Seq::empty(), ..reg },
                    StepView::Disconnect { doomed: reg.tunnels, reply: success(""@) },
                )
            } else {
                (
                    RegistryView { tunnels: named(reg.tunnels, name, false, n), ..reg },
                    StepView::Disconnect {
                        doomed: named(reg.tunnels, name, true, n),
                        reply: success(""@),
                    },
                )
            }
        },
        RequestView::SslStatus => (live, StepView::Reply(success(status_answer(live.tunnels)))),
        RequestView::CharonStart => (reg, StepView::Reply(failure(not_served()))),
        RequestView::CharonStop => (reg, StepView::Reply(failure(not_served()))),
    }
}

/// The text of a failed connect: a JSON object, given its texts in quotes.
pub open spec fn failure_object(log: Seq<char>, reason: Seq<char>) -> Seq<char> {
    "{\"log\":"@ + log + ",\"reason\":"@ + reason + "}"@
}

/// What became of a connect: the address and the push of the tunnel, or why there is none.
pub struct Connected {
    pub vpn_ip: Option<String>,
    pub pushed: Pushed,
}

/// The registry after a connect that succeeded.
pub open spec fn joined_by(reg: RegistryView, e: EntryView) -> RegistryView {
    let free = unreserved(reg, e.slot);
    RegistryView { tunnels: free.tunnels.push(e), ..free }
}

/// One tunnel in the answer to a status request, given its texts in quotes.
pub fn status_entry(domain: &str, full: bool, ip: &str, name: &str) -> (r: String)
    ensures
        r@ == status_text(domain@, full, ip@, name@),
{
    let mut s = "{\"domain\":".to_owned();
    s.append(domain);
    s.append(",\"full\":");
    s.append(
        if full {
            "true"
        } else {
            "false"
        },
    );
    s.append(",\"ip\":");
    s.append(ip);
    s.append(",\"name\":");
    s.append(name);
    s.append("}");
    s
}

/// The text of a failed connect, given its texts in quotes.
pub fn failure_text(log: &str, reason: &str) -> (r: String)
    ensures
        r@ == failure_object(log@, reason@),
{
    let mut s = "{\"log\":".to_owned();
    s.append(log);
    s.append(",\"reason\":");
    s.append(reason);
    s.append("}");
    s
}

fn text_or_empty(s: &Option<String>) -> (r: &str)
    ensures
        r@ == or_empty(opt_view(*s)),
{
    match s {
        Some(t) => t.as_str(),
        None => {
            proof {
                reveal_strlit("");
                assert(""@ =~= Seq::empty());
            }
            ""
        },
    }
}

fn status_json(tunnels: &Vec<SslEntry>) -> (r: String)
    ensures
        r@ == status_answer(entry_views(tunnels@)),
{
    if tunnels.len() == 0 {
        let s = String::new();
        assert(s@ =~= Seq::empty());
        return s;
    }
    let ghost all = entry_views(tunnels@);
    let ghost texts = Seq::new(all.len(), |i: int| status_of(all[i]));
    let mut parts: Vec<String> = Vec::new();
    let mut i: usize = 0;
    while i < tunnels.len()
        invariant
            i <= tunnels@.len(),
            all == entry_views(tunnels@),
            texts == Seq::new(all.len(), |i: int| status_of(all[i])),
            views(parts@) == texts.take(i as int),
        decreases tunnels@.len() - i,
    {
        let e = &tunnels[i];
        assert(all[i as int] == tunnels@[i as int]@);
        let text = status_entry(
            quote(text_or_empty(&e.pushed.domain)).as_str(),
            e.pushed.full,
            quote(text_or_empty(&e.vpn_ip)).as_str(),
            quote(e.name.as_str()).as_str(),
        );
        let ghost before = parts@;
        let ghost seen = text@;
        parts.push(text);
        assert(views(parts@) =~= views(before).push(seen));
        assert(views(parts@) =~= texts.take(i + 1));
        i = i + 1;
    }
    assert(texts.take(tunnels@.len() as int) =~= texts);
    let mut s = "[".to_owned();
    s.append(join(&parts, ",").as_str());
    s.append("]");
    s
}

fn append_claims(out: &mut Vec<String>, e: &SslEntry)
    ensures
        views(final(out)@) == views(old(out)@) + claims_of(e@),
{
    let ghost start = views(out@);
    if e.pushed.full {
        out.push(".".to_owned());
    }
    let ghost all = if e.pushed.full {
        seq!["."@]
    } else {
        Seq::empty()
    };
    assert(views(out@) =~= start + all);
    match &e.pushed.domain {
        Some(d) => {
            let mut s = ".".to_owned();
            s.append(strip_leading(d.as_str(), '.').as_str());
            let ghost seen = s@;
            out.push(s);
            assert(views(out@) =~= start + all.push(seen));
        },
        None => {},
    }
}

/// The answer once DNS was routed, or why it was not.
pub fn dns_applied(outcome: Result<String, String>) -> (r: Response)
    ensures
        r@ == (match outcome {
            Ok(summary) => success(summary@),
            Err(e) => failure(e@),
        }),
{
    match outcome {
        Ok(summary) => Response::ok(summary),
        Err(e) => Response::err(e),
    }
}

/// The answer once DNS was reverted, or why it was not.
pub fn dns_reverted(outcome: Result<(), String>) -> (r: Response)
    ensures
        r@ == (match outcome {
            Ok(_) => success(""@),
            Err(e) => failure(e@),
        }),
{
    match outcome {
        Ok(_) => Response::ok("".to_owned()),
        Err(e) => Response::err(e),
    }
}

/// The broker's own state. Whoever holds it runs the processes and keeps their handles by slot.
pub struct Broker {
    pub ssl: SslRegistry,
}

impl View for Broker {
    type V = RegistryView;

    open spec fn view(&self) -> RegistryView {
        self.ssl@
    }
}

impl Broker {
    /// A broker without tunnels.
    pub fn new() -> (r: Self)
        ensures
            r@ == (RegistryView { tunnels: Seq::empty(), reserved: Seq::empty() }),
            r@.wf(),
    {
        Broker { ssl: SslRegistry::new() }
    }

    /// The namespaces that a live tunnel other than `conn` claims. A rule for one of them would
    /// take resolution away from a tunnel that is up.
    pub fn ssl_dns_claims(&self, conn: &str) -> (r: Vec<String>)
        ensures
            views(r@) == claims_but(self@.tunnels, conn@, self@.tunnels.len() as int),
    {
        let ghost all = self@.tunnels;
        let mut out: Vec<String> = Vec::new();
        assert(views(out@) =~= Seq::empty());
        let mut i: usize = 0;
        while i < self.ssl.tunnels.len()
            invariant
                i <= self.ssl.tunnels@.len(),
                all == self@.tunnels,
                views(out@) == claims_but(all, conn@, i as int),
            decreases self.ssl.tunnels@.len() - i,
        {
            assert(all[i as int] == self.ssl.tunnels@[i as int]@);
            if !same(self.ssl.tunnels[i].name.as_str(), conn) {
                append_claims(&mut out, &self.ssl.tunnels[i]);
            }
            i = i + 1;
        }
        out
    }

    fn position(&self, name: &str) -> (r: Option<usize>)
        ensures
            match r {
                Some(i) => i < self@.tunnels.len() && named_from(self@.tunnels, name@, 0) == Some(
                    i as int,
                ),
                None => named_from(self@.tunnels, name@, 0) is None,
            },
    {
        let ghost all = self@.tunnels;
        let mut i: usize = 0;
        while i < self.ssl.tunnels.len()
            invariant
                i <= self.ssl.tunnels@.len(),
                all == self@.tunnels,
                named_from(all, name@, 0) == named_from(all, name@, i as int),
            decreases self.ssl.tunnels@.len() - i,
        {
            assert(all[i as int] == self.ssl.tunnels@[i as int]@);
            if same(self.ssl.tunnels[i].name.as_str(), name) {
                return Some(i);
            }
            i = i + 1;
        }
        None
    }

    fn apply_dns(
        &mut self,
        conn: String,
        servers: Vec<String>,
        domain: Option<String>,
        subnets: Vec<String>,
        alive: &[usize],
    ) -> (r: Step)
        ensures
            handled(
                old(self)@,
                alive@,
                RequestView::ApplyDns {
                    conn: conn@,
                    servers: views(servers@),
                    domain: opt_view(domain),
                    subnets: views(subnets@),
                },
            ) == (final(self)@, r@),
    {
        let servers = match validate_servers(&servers) {
            Ok(v) => v,
            Err(e) => {
                return Step::Reply(Response::err(e));
            },
        };
        let given = match &domain {
            Some(d) => Some(d.as_str()),
            None => None,
        };
        let domain = match validate_domain(given) {
            Ok(d) => d,
            Err(e) => {
                return Step::Reply(Response::err(e));
            },
        };
        let subnets = match validate_subnets(&subnets) {
            Ok(v) => v,
            Err(e) => {
                return Step::Reply(Response::err(e));
            },
        };
        self.ssl.prune(alive);
        let spoken_for = self.ssl_dns_claims(conn.as_str());
        Step::ApplyDns { conn, servers, domain, subnets, spoken_for }
    }

    fn disconnect(&mut self, name: String) -> (r: Step)
        ensures
            handled(old(self)@, Seq::empty(), RequestView::SslDisconnect { name: name@ }) == (
                final(self)@,
                r@,
            ),
    {
        let mut all: Vec<SslEntry> = Vec::new();
        std::mem::swap(&mut all, &mut self.ssl.tunnels);
        assert(self@.tunnels =~= Seq::empty());
        if name.as_str().is_empty() {
            return Step::Disconnect { doomed: all, reply: Response::ok("".to_owned()) };
        }
        let ghost whole = all@;
        let ghost given = entry_views(whole);
        let mut doomed: Vec<SslEntry> = Vec::new();
        let mut kept: Vec<SslEntry> = Vec::new();
        assert(entry_views(kept@) =~= Seq::empty());
        assert(entry_views(doomed@) =~= Seq::empty());
        for entry in it: all
            invariant
                it.seq() == whole,
                given == entry_views(whole),
                entry_views(doomed@) == named(given, name@, true, it.index() as int),
                entry_views(kept@) == named(given, name@, false, it.index() as int),
        {
            assert(given[it.index() as int] == entry@);
            let ghost seen = entry@;
            if same(entry.name.as_str(), name.as_str()) {
                let ghost before = doomed@;
                doomed.push(entry);
                assert(entry_views(doomed@) =~= entry_views(before).push(seen));
            } else {
                let ghost before = kept@;
                kept.push(entry);
                assert(entry_views(kept@) =~= entry_views(before).push(seen));
            }
        }
        self.ssl.tunnels = kept;
        Step::Disconnect { doomed, reply: Response::ok("".to_owned()) }
    }

    /// Decides what to do about a request. `alive` are the slots of the tunnels whose process
    /// runs.
    pub fn handle(&mut self, req: Request, alive: &[usize]) -> (r: Step)
        ensures
            handled(old(self)@, alive@, req@) == (final(self)@, r@),
    {
        match req {
            Request::Ping => Step::Reply(Response::ok("pong".to_owned())),
            Request::ApplyDns { conn, servers, domain, subnets } => self.apply_dns(
                conn,
                servers,
                domain,
                subnets,
                alive,
            ),
            Request::RevertDns { conn } => Step::RevertDns { conn },
            Request::SslConnect { name, config, username, password, allow_full } => {
                self.ssl.prune(alive);
                let ghost live = self@;
                let replaced = match self.position(name.as_str()) {
                    Some(i) => {
                        let old_entry = self.ssl.tunnels.remove(i);
                        assert(self@.tunnels =~= live.tunnels.remove(i as int));
                        Some(old_entry)
                    },
                    None => None,
                };
                Step::Connect { replaced, name, config, username, password, allow_full }
            },
            Request::SslDisconnect { name } => self.disconnect(name),
            Request::SslStatus => {
                self.ssl.prune(alive);
                Step::Reply(Response::ok(status_json(&self.ssl.tunnels)))
            },
            Request::CharonStart => Step::Reply(
                Response::err("charon is supervised by the service on this platform".to_owned()),
            ),
            Request::CharonStop => Step::Reply(
                Response::err("charon is supervised by the service on this platform".to_owned()),
            ),
        }
    }

    /// Reserves the slot of a connect, or says that there is none.
    pub fn reserve(&mut self) -> (r: Result<usize, Response>)
        ensures
            match r {
                Ok(s) => old(self)@.next_slot() == Some(s as int) && final(self)@ == (
                RegistryView { reserved: old(self)@.reserved.push(s), ..old(self)@ }),
                Err(e) => old(self)@.next_slot() is None && e@ == failure(no_slot())
                    && final(self)@ == old(self)@,
            },
    {
        match self.ssl.take_slot() {
            Ok(slot) => Ok(slot),
            Err(e) => Err(Response::err(e)),
        }
    }

    /// Takes in what became of the connect in `slot`, and answers it: with the assigned address,
    /// or with the reason and the log as JSON.
    pub fn finished(
        &mut self,
        name: String,
        slot: usize,
        outcome: Result<Connected, ConnectError>,
    ) -> (r: Response)
        ensures
            match outcome {
                Ok(c) => final(self)@ == joined_by(
                    old(self)@,
                    EntryView {
                        name: name@,
                        slot,
                        vpn_ip: opt_view(c.vpn_ip),
                        pushed: c.pushed@,
                    },
                ) && r@ == success(or_empty(opt_view(c.vpn_ip))),
                Err(e) => final(self)@ == unreserved(old(self)@, slot) && r@ == failure(
                    failure_object(json_quoted(e.log@), json_quoted(e.reason@)),
                ),
            },
    {
        self.ssl.release_slot(slot);
        match outcome {
            Ok(c) => {
                let ip = text_or_empty(&c.vpn_ip).to_owned();
                let entry = SslEntry { name, slot, vpn_ip: c.vpn_ip, pushed: c.pushed };
                let ghost before = self@.tunnels;
                let ghost seen = entry@;
                self.ssl.tunnels.push(entry);
                assert(self@.tunnels =~= before.push(seen));
                Response::ok(ip)
            },
            Err(e) => Response::err(
                failure_text(quote(e.log.as_str()).as_str(), quote(e.reason.as_str()).as_str()),
            ),
        }
    }

    /// Gives up every tunnel, for their processes to be stopped.
    pub fn shutdown(&mut self) -> (r: Vec<SslEntry>)
        ensures
            entry_views(r@) == old(self)@.tunnels,
            final(self)@ == (RegistryView { tunnels: Seq::empty(), ..old(self)@ }),
    {
        let mut all: Vec<SslEntry> = Vec::new();
        std::mem::swap(&mut all, &mut self.ssl.tunnels);
        assert(self@.tunnels =~= Seq::empty());
        all
    }
}

impl Default for Broker {
    fn default() -> (r: Self)
        ensures
            r@ == (RegistryView { tunnels: Seq::empty(), reserved: Seq::empty() }),
    {
        Broker::new()
    }
}

/// The slot that a connect gets is free and the lowest that is; there is none only when all are
/// occupied.
pub proof fn law_lowest_free_slot(occupied: Seq<usize>, i: int)
    requires
        0 <= i <= MAX_SSL_TUNNELS,
    ensures
        match free_slot_from(occupied, i) {
            Some(s) => i <= s < MAX_SSL_TUNNELS && !occupied.contains(s as usize) && forall|k: int|
                i <= k < s ==> occupied.contains(#[trigger] (k as usize)),
            None => forall|k: int|
                i <= k < MAX_SSL_TUNNELS ==> occupied.contains(#[trigger] (k as usize)),
        },
    decreases MAX_SSL_TUNNELS - i,
{
    if i < MAX_SSL_TUNNELS && occupied.contains(i as usize) {
        law_lowest_free_slot(occupied, i + 1);
    }
}

/// A connect is never handed a slot that a tunnel or another connect in flight holds, and the
/// reservation keeps all slots apart.
pub proof fn law_reserving_keeps_slots_apart(reg: RegistryView)
    requires
        reg.wf(),
    ensures
        reg.next_slot() matches Some(s) ==> !reg.held().contains(s as usize) && (RegistryView {
            reserved: reg.reserved.push(s as usize),
            ..reg
        }).wf(),
{
    law_lowest_free_slot(reg.held(), 0);
    match reg.next_slot() {
        Some(s) => {
            let slot = s as usize;
            let held = reg.held();
            assert forall|i: int| 0 <= i < reg.tunnels.len() implies (
            #[trigger] reg.tunnels[i]).slot != slot by {
                assert(held[i] == reg.tunnels[i].slot);
            }
            assert forall|i: int| 0 <= i < reg.reserved.len() implies #[trigger] reg.reserved[i]
                != slot by {
                assert(held[reg.tunnels.len() + i] == reg.reserved[i]);
            }
        },
        None => {},
    }
}

proof fn lemma_without_slot(reserved: Seq<usize>, slot: usize, n: int)
    requires
        0 <= n <= reserved.len(),
        forall|i: int, j: int|
            0 <= i < j < reserved.len() ==> #[trigger] reserved[i] != #[trigger] reserved[j],
    ensures
        ({
            let r = without_slot(reserved, slot, n);
            &&& forall|i: int, j: int| 0 <= i < j < r.len() ==> #[trigger] r[i] != #[trigger] r[j]
            &&& forall|i: int|
                0 <= i < r.len() ==> #[trigger] r[i] != slot && exists|k: int|
                    0 <= k < n && reserved[k] == r[i]
        }),
    decreases n,
{
    if n > 0 {
        lemma_without_slot(reserved, slot, n - 1);
        let p = without_slot(reserved, slot, n - 1);
        let r = without_slot(reserved, slot, n);
        assert forall|i: int| 0 <= i < r.len() implies #[trigger] r[i] != slot && exists|k: int|
            0 <= k < n && reserved[k] == r[i] by {
            if i < p.len() {
                assert(r[i] == p[i]);
            } else {
                assert(reserved[n - 1] == r[i]);
            }
        }
        assert forall|i: int, j: int| 0 <= i < j < r.len() implies #[trigger] r[i]
            != #[trigger] r[j] by {
            assert(r[i] == p[i]);
            if j < p.len() {
                assert(r[j] == p[j]);
            } else {
                let k = choose|k: int| 0 <= k < n - 1 && reserved[k] == p[i];
                assert(reserved[k] != reserved[n - 1]);
            }
        }
    }
}

proof fn lemma_without_absent(reserved: Seq<usize>, slot: usize, n: int)
    requires
        0 <= n <= reserved.len(),
        forall|i: int| 0 <= i < n ==> #[trigger] reserved[i] != slot,
    ensures
        without_slot(reserved, slot, n) == reserved.take(n),
    decreases n,
{
    if n > 0 {
        lemma_without_absent(reserved, slot, n - 1);
        assert(reserved.take(n - 1).push(reserved[n - 1]) =~= reserved.take(n));
    } else {
        assert(reserved.take(0) =~= Seq::empty());
    }
}

/// Giving a slot back undoes its reservation.
pub proof fn law_release_undoes_reserve(reg: RegistryView)
    requires
        reg.wf(),
    ensures
        reg.next_slot() matches Some(s) ==> unreserved(
            RegistryView { reserved: reg.reserved.push(s as usize), ..reg },
            s as usize,
        ) == reg,
{
    law_reserving_keeps_slots_apart(reg);
    match reg.next_slot() {
        Some(s) => {
            let slot = s as usize;
            let v = reg.reserved.push(slot);
            let n = reg.reserved.len() as int;
            assert forall|i: int| 0 <= i < n implies #[trigger] v[i] != slot by {
                assert(reg.held()[reg.tunnels.len() + i] == v[i]);
            }
            lemma_without_absent(v, slot, n);
            assert(v.take(n) =~= reg.reserved);
            assert(without_slot(v, slot, n + 1) == without_slot(v, slot, n));
        },
        None => {},
    }
}

/// A tunnel that comes up in the slot that was reserved for it keeps all slots apart.
pub proof fn law_connecting_keeps_slots_apart(reg: RegistryView, e: EntryView)
    requires
        reg.wf(),
        reg.reserved.contains(e.slot),
    ensures
        joined_by(reg, e).wf(),
{
    let n = reg.reserved.len() as int;
    lemma_without_slot(reg.reserved, e.slot, n);
    let at = choose|k: int| 0 <= k < n && reg.reserved[k] == e.slot;
    let next = joined_by(reg, e);
    let t = next.tunnels;
    let m = reg.tunnels.len() as int;
    assert(t[m] == e);
    assert(forall|i: int| 0 <= i < m ==> #[trigger] t[i] == reg.tunnels[i]);
    assert forall|i: int| 0 <= i < m implies (#[trigger] t[i]).slot != e.slot by {
        assert(reg.tunnels[i].slot != reg.reserved[at]);
    }
    assert forall|i: int, j: int| 0 <= i < j < t.len() implies (#[trigger] t[i]).slot != (
    #[trigger] t[j]).slot by {
        assert(t[i] == reg.tunnels[i]);
        if j < m {
            assert(t[j] == reg.tunnels[j]);
        }
    }
    assert forall|i: int, j: int|
        0 <= i < t.len() && 0 <= j < next.reserved.len() implies (#[trigger] t[i]).slot
        != #[trigger] next.reserved[j] by {
        let k = choose|k: int| 0 <= k < n && reg.reserved[k] == next.reserved[j];
        if i < m {
            assert(t[i] == reg.tunnels[i]);
            assert(reg.tunnels[i].slot != reg.reserved[k]);
        }
    }
    assert forall|i: int| 0 <= i < t.len() implies (#[trigger] t[i]).slot < MAX_SSL_TUNNELS by {
        assert(reg.reserved[at] < MAX_SSL_TUNNELS);
    }
    assert forall|j: int| 0 <= j < next.reserved.len() implies #[trigger] next.reserved[j]
        < MAX_SSL_TUNNELS by {
        let k = choose|k: int| 0 <= k < n && reg.reserved[k] == next.reserved[j];
        assert(reg.reserved[k] < MAX_SSL_TUNNELS);
    }
}

/// Whether `part` holds some of the tunnels of `whole`, in their order.
spec fn is_part(part: Seq<EntryView>, whole: Seq<EntryView>, n: int) -> bool {
    &&& forall|i: int|
        0 <= i < part.len() ==> exists|k: int| 0 <= k < n && #[trigger] whole[k] == #[trigger] part[i]
    &&& forall|i: int, j: int|
        0 <= i < j < part.len() ==> (#[trigger] part[i]).slot != (#[trigger] part[j]).slot
}

proof fn lemma_part_push(part: Seq<EntryView>, whole: Seq<EntryView>, n: int)
    requires
        1 <= n <= whole.len(),
        is_part(part, whole, n - 1),
        forall|i: int, j: int|
            0 <= i < j < whole.len() ==> (#[trigger] whole[i]).slot != (#[trigger] whole[j]).slot,
    ensures
        is_part(part, whole, n),
        is_part(part.push(whole[n - 1]), whole, n),
{
    let p = part.push(whole[n - 1]);
    assert forall|i: int| 0 <= i < part.len() implies exists|k: int|
        0 <= k < n && #[trigger] whole[k] == #[trigger] part[i] by {
        let k = choose|k: int| 0 <= k < n - 1 && #[trigger] whole[k] == part[i];
        assert(whole[k] == part[i]);
    }
    assert forall|i: int| 0 <= i < p.len() implies exists|k: int|
        0 <= k < n && #[trigger] whole[k] == #[trigger] p[i] by {
        if i < part.len() {
            assert(p[i] == part[i]);
            let k = choose|k: int| 0 <= k < n - 1 && #[trigger] whole[k] == part[i];
            assert(whole[k] == p[i]);
        } else {
            assert(whole[n - 1] == p[i]);
        }
    }
    assert forall|i: int, j: int| 0 <= i < j < p.len() implies (#[trigger] p[i]).slot != (
    #[trigger] p[j]).slot by {
        assert(p[i] == part[i]);
        if j < part.len() {
            assert(p[j] == part[j]);
        } else {
            let k = choose|k: int| 0 <= k < n - 1 && #[trigger] whole[k] == part[i];
            assert(whole[k].slot != whole[n - 1].slot);
        }
    }
}

proof fn lemma_living_is_part(tunnels: Seq<EntryView>, alive: Seq<usize>, n: int)
    requires
        0 <= n <= tunnels.len(),
        forall|i: int, j: int|
            0 <= i < j < tunnels.len() ==> (#[trigger] tunnels[i]).slot != (
            #[trigger] tunnels[j]).slot,
    ensures
        is_part(living(tunnels, alive, n), tunnels, n),
    decreases n,
{
    if n > 0 {
        lemma_living_is_part(tunnels, alive, n - 1);
        lemma_part_push(living(tunnels, alive, n - 1), tunnels, n);
    }
}

proof fn lemma_named_is_part(tunnels: Seq<EntryView>, name: Seq<char>, with: bool, n: int)
    requires
        0 <= n <= tunnels.len(),
        forall|i: int, j: int|
            0 <= i < j < tunnels.len() ==> (#[trigger] tunnels[i]).slot != (
            #[trigger] tunnels[j]).slot,
    ensures
        is_part(named(tunnels, name, with, n), tunnels, n),
    decreases n,
{
    if n > 0 {
        lemma_named_is_part(tunnels, name, with, n - 1);
        lemma_part_push(named(tunnels, name, with, n - 1), tunnels, n);
    }
}

proof fn lemma_part_wf(reg: RegistryView, part: Seq<EntryView>)
    requires
        reg.wf(),
        is_part(part, reg.tunnels, reg.tunnels.len() as int),
    ensures
        (RegistryView { tunnels: part, ..reg }).wf(),
{
    let n = reg.tunnels.len() as int;
    assert forall|i: int, j: int|
        0 <= i < part.len() && 0 <= j < reg.reserved.len() implies (#[trigger] part[i]).slot
        != #[trigger] reg.reserved[j] by {
        let k = choose|k: int| 0 <= k < n && #[trigger] reg.tunnels[k] == part[i];
        assert(reg.tunnels[k].slot != reg.reserved[j]);
    }
    assert forall|i: int| 0 <= i < part.len() implies (#[trigger] part[i]).slot
        < MAX_SSL_TUNNELS by {
        let k = choose|k: int| 0 <= k < n && #[trigger] reg.tunnels[k] == part[i];
        assert(reg.tunnels[k].slot < MAX_SSL_TUNNELS);
    }
}

proof fn lemma_named_from(tunnels: Seq<EntryView>, name: Seq<char>, i: int)
    requires
        0 <= i <= tunnels.len(),
    ensures
        match named_from(tunnels, name, i) {
            Some(k) => i <= k < tunnels.len() && tunnels[k].name == name,
            None => forall|k: int| i <= k < tunnels.len() ==> (#[trigger] tunnels[k]).name != name,
        },
    decreases tunnels.len() - i,
{
    if i < tunnels.len() && tunnels[i].name != name {
        lemma_named_from(tunnels, name, i + 1);
    }
}

/// No request brings two tunnels onto one adapter.
pub proof fn law_requests_keep_slots_apart(reg: RegistryView, alive: Seq<usize>, req: RequestView)
    requires
        reg.wf(),
    ensures
        handled(reg, alive, req).0.wf(),
{
    let n = reg.tunnels.len() as int;
    let live = pruned(reg, alive);
    lemma_living_is_part(reg.tunnels, alive, n);
    lemma_part_wf(reg, live.tunnels);
    match req {
        RequestView::SslConnect { name, .. } => {
            lemma_named_from(live.tunnels, name, 0);
            match named_from(live.tunnels, name, 0) {
                Some(i) => {
                    let rest = live.tunnels.remove(i);
                    assert(is_part(rest, live.tunnels, live.tunnels.len() as int)) by {
                        assert forall|j: int| 0 <= j < rest.len() implies exists|k: int|
                            0 <= k < live.tunnels.len() && #[trigger] live.tunnels[k]
                                == #[trigger] rest[j] by {
                            let k = if j < i {
                                j
                            } else {
                                j + 1
                            };
                            assert(live.tunnels[k] == rest[j]);
                        }
                    }
                    lemma_part_wf(live, rest);
                },
                None => {},
            }
        },
        RequestView::SslDisconnect { name } => {
            if name.len() > 0 {
                lemma_named_is_part(reg.tunnels, name, false, n);
                lemma_part_wf(reg, named(reg.tunnels, name, false, n));
            }
        },
        _ => {},
    }
}

proof fn lemma_named_members(tunnels: Seq<EntryView>, name: Seq<char>, with: bool, n: int)
    requires
        0 <= n <= tunnels.len(),
    ensures
        forall|i: int|
            0 <= i < named(tunnels, name, with, n).len() ==> ((
            #[trigger] named(tunnels, name, with, n)[i]).name == name) == with,
        forall|k: int|
            0 <= k < n && (tunnels[k].name == name) == with ==> named(
                tunnels,
                name,
                with,
                n,
            ).contains(#[trigger] tunnels[k]),
    decreases n,
{
    if n > 0 {
        lemma_named_members(tunnels, name, with, n - 1);
        let p = named(tunnels, name, with, n - 1);
        let r = named(tunnels, name, with, n);
        assert forall|k: int| 0 <= k < n && (tunnels[k].name == name) == with implies r.contains(
            #[trigger] tunnels[k],
        ) by {
            if k < n - 1 {
                assert(p.contains(tunnels[k]));
                let j = choose|j: int| 0 <= j < p.len() && p[j] == tunnels[k];
                assert(r[j] == tunnels[k]);
            } else {
                assert(r[r.len() - 1] == tunnels[k]);
            }
        }
    }
}

/// A disconnect by name stops every tunnel of that name and no other; every other one stays. The
/// answer is success without a text, also when no tunnel has that name.
pub proof fn law_disconnect_is_by_name(reg: RegistryView, alive: Seq<usize>, name: Seq<char>)
    requires
        name.len() > 0,
    ensures
        ({
            let (next, step) = handled(reg, alive, RequestView::SslDisconnect { name });
            &&& forall|i: int|
                0 <= i < next.tunnels.len() ==> (#[trigger] next.tunnels[i]).name != name
            &&& forall|k: int|
                0 <= k < reg.tunnels.len() && reg.tunnels[k].name != name ==> next.tunnels.contains(
                    #[trigger] reg.tunnels[k],
                )
            &&& step matches StepView::Disconnect { doomed, reply } && reply == success(""@) && (
            forall|i: int|
                0 <= i < doomed.len() ==> (#[trigger] doomed[i]).name == name) && (forall|k: int|
                0 <= k < reg.tunnels.len() && reg.tunnels[k].name == name ==> doomed.contains(
                    #[trigger] reg.tunnels[k],
                ))
        }),
{
    let n = reg.tunnels.len() as int;
    lemma_named_members(reg.tunnels, name, false, n);
    lemma_named_members(reg.tunnels, name, true, n);
}

/// A disconnect without a name stops every tunnel, and is answered with success, also when there
/// is none.
pub proof fn law_empty_name_disconnects_all(reg: RegistryView, alive: Seq<usize>)
    ensures
        ({
            let (next, step) = handled(
                reg,
                alive,
                RequestView::SslDisconnect { name: Seq::empty() },
            );
            next.tunnels.len() == 0 && step == (StepView::Disconnect {
                doomed: reg.tunnels,
                reply: success(""@),
            })
        }),
{
}

/// A connect leaves every live tunnel of another name alone.
pub proof fn law_connect_replaces_only_its_name(
    reg: RegistryView,
    alive: Seq<usize>,
    name: Seq<char>,
    config: Seq<char>,
    username: Seq<char>,
    password: Seq<char>,
    allow_full: bool,
)
    ensures
        ({
            let live = pruned(reg, alive).tunnels;
            let next = handled(
                reg,
                alive,
                RequestView::SslConnect { name, config, username, password, allow_full },
            ).0;
            forall|k: int|
                0 <= k < live.len() && live[k].name != name ==> next.tunnels.contains(
                    #[trigger] live[k],
                )
        }),
{
    let live = pruned(reg, alive).tunnels;
    let next = handled(
        reg,
        alive,
        RequestView::SslConnect { name, config, username, password, allow_full },
    ).0;
    lemma_named_from(live, name, 0);
    assert forall|k: int| 0 <= k < live.len() && live[k].name != name implies next.tunnels.contains(
        #[trigger] live[k],
    ) by {
        match named_from(live, name, 0) {
            Some(i) => {
                let j = if k < i {
                    k
                } else {
                    k - 1
                };
                assert(next.tunnels[j] == live[k]);
            },
            None => {
                assert(next.tunnels[k] == live[k]);
            },
        }
    }
}

/// There are never more tunnels and connects in flight than slots.
pub proof fn law_tunnels_are_bounded(reg: RegistryView)
    requires
        reg.wf(),
    ensures
        reg.tunnels.len() + reg.reserved.len() <= MAX_SSL_TUNNELS,
{
    let held = reg.held();
    let values = Seq::new(held.len(), |i: int| held[i] as int);
    assert forall|i: int, j: int| 0 <= i < j < values.len() implies values[i] != values[j] by {
        let m = reg.tunnels.len() as int;
        if j < m {
            assert(reg.tunnels[i].slot != reg.tunnels[j].slot);
        } else if i >= m {
            assert(reg.reserved[i - m] != reg.reserved[j - m]);
        } else {
            assert(reg.tunnels[i].slot != reg.reserved[j - m]);
        }
    }
    assert(values.no_duplicates());
    values.unique_seq_to_set();
    let range = vstd::set_lib::set_int_range(0, MAX_SSL_TUNNELS as int);
    vstd::set_lib::lemma_int_range(0, MAX_SSL_TUNNELS as int);
    assert(values.to_set().subset_of(range)) by {
        assert forall|v: int| values.to_set().contains(v) implies range.contains(v) by {
            let i = choose|i: int| 0 <= i < values.len() && values[i] == v;
            let m = reg.tunnels.len() as int;
            if i < m {
                assert(reg.tunnels[i].slot < MAX_SSL_TUNNELS);
            } else {
                assert(reg.reserved[i - m] < MAX_SSL_TUNNELS);
            }
        }
    }
    vstd::set_lib::lemma_len_subset(values.to_set(), range);
}

/// A domain that is accepted holds nothing but the characters of DNS labels and dots, and no
/// longer than a domain may be.
pub proof fn law_accepted_domain_is_plain(domain: Option<Seq<char>>)
    ensures
        domain_of(domain) matches Ok(Some(d)) ==> is_dns_text(d) && d.len() > 0
            && encode_utf8(d).len() <= MAX_DOMAIN_LEN,
{
}

proof fn lemma_servers_read(servers: Seq<Seq<char>>, n: int)
    requires
        0 <= n <= servers.len(),
    ensures
        match servers_read(servers, n) {
            Ok(v) => v.len() == n && forall|i: int|
                0 <= i < n ==> address(trimmed(servers[i])) == Some(#[trigger] v[i]),
            Err(e) => exists|i: int|
                0 <= i < n && is_first_bad_server(servers, i) && e == "not an IPv4 DNS server: "@
                    + debug_quoted(servers[i]),
        },
    decreases n,
{
    if n > 0 {
        lemma_servers_read(servers, n - 1);
        match servers_read(servers, n - 1) {
            Ok(v) => {
                assert forall|i: int| 0 <= i < n - 1 implies address(
                    trimmed(#[trigger] servers[i]),
                ) is Some by {
                    assert(address(trimmed(servers[i])) == Some(v[i]));
                }
                if address(trimmed(servers[n - 1])) is None {
                    assert(is_first_bad_server(servers, n - 1));
                }
            },
            Err(e) => {},
        }
    }
}

/// Whether the text at `i` is the first that is not the address of a DNS server.
pub open spec fn is_first_bad_server(servers: Seq<Seq<char>>, i: int) -> bool {
    address(trimmed(servers[i])) is None && forall|k: int|
        0 <= k < i ==> address(trimmed(#[trigger] servers[k])) is Some
}

/// Up to eight DNS servers are taken, each as the address that its text states and in the order
/// given. More are refused, and so is a list with a text that is no address: the refusal quotes
/// the first such text.
pub proof fn law_servers_are_those_given(servers: Seq<Seq<char>>)
    ensures
        match servers_of(servers) {
            Ok(v) => servers.len() <= 8 && v.len() == servers.len() && forall|i: int|
                0 <= i < v.len() ==> address(trimmed(servers[i])) == Some(#[trigger] v[i]),
            Err(e) => if servers.len() > 8 {
                e == "too many DNS servers (max "@ + decimal(8) + ")"@
            } else {
                exists|i: int|
                    0 <= i < servers.len() && is_first_bad_server(servers, i) && e
                        == "not an IPv4 DNS server: "@ + debug_quoted(servers[i])
            },
        },
{
    lemma_servers_read(servers, servers.len() as int);
}

/// Whether the text is an IPv4 network: the address that `left` states, a slash, and the prefix.
pub open spec fn is_network(s: Seq<char>, a: Ipv4Addr, prefix: nat, left: Seq<char>) -> bool {
    &&& !left.contains('/')
    &&& address(left) == Some(a)
    &&& left.len() < trimmed(s).len()
    &&& trimmed(s).take(left.len() as int) == left
    &&& trimmed(s)[left.len() as int] == '/'
    &&& number_up_to(trimmed(s).skip(left.len() as int + 1), 32) == Some(prefix)
}

proof fn lemma_subnet_of(s: Seq<char>)
    ensures
        match subnet_of(s) {
            Some(t) => exists|a: Ipv4Addr, prefix: nat, left: Seq<char>|
                #[trigger] is_network(s, a, prefix, left) && t == a.dotted() + "/"@ + decimal(
                    prefix,
                ),
            None => forall|a: Ipv4Addr, prefix: nat, left: Seq<char>|
                !(#[trigger] is_network(s, a, prefix, left)),
        },
{
    let t = trimmed(s);
    let slash = index_of(t, '/');
    lemma_index_of_is_first(t, '/');
    match subnet_of(s) {
        Some(r) => {
            let left = t.take(slash);
            let a = address(left)->0;
            let prefix = number_up_to(t.skip(slash + 1), 32)->0;
            assert(is_network(s, a, prefix, left));
        },
        None => {
            assert forall|a: Ipv4Addr, prefix: nat, left: Seq<char>|
                !(#[trigger] is_network(s, a, prefix, left)) by {
                if is_network(s, a, prefix, left) {
                    let n = left.len() as int;
                    if slash < n {
                        assert(left[slash] == t[slash]);
                        assert(left.contains('/'));
                    }
                    assert(slash == n);
                    assert(t.take(slash) == left);
                }
            }
        },
    }
}

/// Whether the text states an IPv4 network.
pub open spec fn states_network(s: Seq<char>) -> bool {
    exists|a: Ipv4Addr, prefix: nat, left: Seq<char>| is_network(s, a, prefix, left)
}

/// Whether the text at `i` is the first that is not an IPv4 network.
pub open spec fn is_first_bad_subnet(subnets: Seq<Seq<char>>, i: int) -> bool {
    !states_network(subnets[i]) && forall|k: int|
        0 <= k < i ==> states_network(#[trigger] subnets[k])
}

/// Whether a text is the plain spelling of the network that another states.
pub open spec fn is_spelling(t: Seq<char>, s: Seq<char>) -> bool {
    exists|a: Ipv4Addr, prefix: nat, left: Seq<char>| #[trigger]
        is_network(s, a, prefix, left) && t == a.dotted() + "/"@ + decimal(prefix)
}

proof fn lemma_subnets_read(subnets: Seq<Seq<char>>, n: int)
    requires
        0 <= n <= subnets.len(),
    ensures
        match subnets_read(subnets, n) {
            Ok(v) => v.len() == n && forall|i: int|
                0 <= i < n ==> is_spelling(#[trigger] v[i], subnets[i]),
            Err(e) => exists|i: int|
                0 <= i < n && is_first_bad_subnet(subnets, i) && e == "not an IPv4 subnet: "@
                    + debug_quoted(subnets[i]),
        },
    decreases n,
{
    if n > 0 {
        lemma_subnets_read(subnets, n - 1);
        lemma_subnet_of(subnets[n - 1]);
        match subnets_read(subnets, n - 1) {
            Ok(v) => {
                if subnet_of(subnets[n - 1]) is None {
                    assert forall|k: int| 0 <= k < n - 1 implies states_network(
                        #[trigger] subnets[k],
                    ) by {
                        assert(is_spelling(v[k], subnets[k]));
                    }
                    assert(is_first_bad_subnet(subnets, n - 1));
                } else {
                    let w = subnets_read(subnets, n)->Ok_0;
                    assert(is_spelling(w[n - 1], subnets[n - 1]));
                    assert forall|i: int| 0 <= i < n implies is_spelling(
                        #[trigger] w[i],
                        subnets[i],
                    ) by {
                        if i < n - 1 {
                            assert(w[i] == v[i]);
                        }
                    }
                }
            },
            Err(e) => {},
        }
    }
}

/// Up to 64 subnets are taken, each spelled plainly and in the order given. More are refused, and
/// so is a list with a text that is no IPv4 network: the refusal quotes the first such text.
pub proof fn law_subnets_are_those_given(subnets: Seq<Seq<char>>)
    ensures
        match subnets_of(subnets) {
            Ok(v) => subnets.len() <= 64 && v.len() == subnets.len() && forall|i: int|
                0 <= i < v.len() ==> is_spelling(#[trigger] v[i], subnets[i]),
            Err(e) => if subnets.len() > 64 {
                e == "too many subnets (max "@ + decimal(64) + ")"@
            } else {
                exists|i: int|
                    0 <= i < subnets.len() && is_first_bad_subnet(subnets, i) && e
                        == "not an IPv4 subnet: "@ + debug_quoted(subnets[i])
            },
        },
{
    lemma_subnets_read(subnets, subnets.len() as int);
}

/// A domain is taken without the white space around it. A blank one counts as none; one of more
/// than 253 bytes, and one with a character that no DNS name has, are refused.
pub proof fn law_domain_is_the_one_given(s: Seq<char>)
    ensures
        domain_of(None) == Ok::<Option<Seq<char>>, Seq<char>>(None),
        ({
            let d = trimmed(s);
            let plain = forall|i: int|
                0 <= i < d.len() ==> 'a' <= #[trigger] d[i] <= 'z' || 'A' <= d[i] <= 'Z' || '0'
                    <= d[i] <= '9' || d[i] == '.' || d[i] == '-';
            &&& d.len() == 0 ==> domain_of(Some(s)) == Ok::<Option<Seq<char>>, Seq<char>>(None)
            &&& d.len() > 0 && encode_utf8(d).len() > 253 ==> domain_of(Some(s)) == Err::<
                Option<Seq<char>>,
                Seq<char>,
            >("domain too long"@)
            &&& d.len() > 0 && encode_utf8(d).len() <= 253 && !plain ==> domain_of(Some(s)) == Err::<
                Option<Seq<char>>,
                Seq<char>,
            >("domain has invalid characters"@)
            &&& d.len() > 0 && encode_utf8(d).len() <= 253 && plain ==> domain_of(Some(s)) == Ok::<
                Option<Seq<char>>,
                Seq<char>,
            >(Some(d))
        }),
{
    let d = trimmed(s);
    if is_dns_text(d) {
        assert forall|i: int| 0 <= i < d.len() implies 'a' <= #[trigger] d[i] <= 'z' || 'A' <= d[i]
            <= 'Z' || '0' <= d[i] <= '9' || d[i] == '.' || d[i] == '-' by {
            assert(is_dns_char(d[i]));
        }
    }
}

proof fn lemma_living_parts(a: Seq<EntryView>, b: Seq<EntryView>, alive: Seq<usize>, n: int)
    requires
        0 <= n <= b.len(),
    ensures
        living(a + b, alive, a.len() + n) == living(a, alive, a.len() as int) + living(
            b,
            alive,
            n,
        ),
    decreases n,
{
    if n > 0 {
        lemma_living_parts(a, b, alive, n - 1);
        assert((a + b)[a.len() + n - 1] == b[n - 1]);
        assert(living(a + b, alive, a.len() + n) =~= living(a, alive, a.len() as int) + living(
            b,
            alive,
            n,
        ));
    } else {
        lemma_living_prefix(a, b, alive, a.len() as int);
        assert(living(b, alive, n) =~= Seq::empty());
        assert(living(a + b, alive, a.len() + n) =~= living(a, alive, a.len() as int) + living(
            b,
            alive,
            n,
        ));
    }
}

proof fn lemma_living_prefix(a: Seq<EntryView>, b: Seq<EntryView>, alive: Seq<usize>, n: int)
    requires
        0 <= n <= a.len(),
    ensures
        living(a + b, alive, n) == living(a, alive, n),
    decreases n,
{
    if n > 0 {
        lemma_living_prefix(a, b, alive, n - 1);
        assert((a + b)[n - 1] == a[n - 1]);
    }
}

/// Whether a tunnel is still there depends on its own process alone: it is while the process in
/// its slot is alive. The order stays, and slots in flight are not touched.
pub proof fn law_tunnels_live_with_their_process(
    a: Seq<EntryView>,
    b: Seq<EntryView>,
    e: EntryView,
    reserved: Seq<usize>,
    alive: Seq<usize>,
)
    ensures
        pruned(RegistryView { tunnels: a + b, reserved }, alive).tunnels == pruned(
            RegistryView { tunnels: a, reserved },
            alive,
        ).tunnels + pruned(RegistryView { tunnels: b, reserved }, alive).tunnels,
        pruned(RegistryView { tunnels: seq![e], reserved }, alive).tunnels == (if alive.contains(
            e.slot,
        ) {
            seq![e]
        } else {
            Seq::empty()
        }),
        pruned(RegistryView { tunnels: Seq::empty(), reserved }, alive).tunnels.len() == 0,
        pruned(RegistryView { tunnels: a, reserved }, alive).reserved == reserved,
{
    lemma_living_parts(a, b, alive, b.len() as int);
    reveal_with_fuel(living, 2);
}

proof fn lemma_without_slot_prefix(a: Seq<usize>, b: Seq<usize>, slot: usize, n: int)
    requires
        0 <= n <= a.len(),
    ensures
        without_slot(a + b, slot, n) == without_slot(a, slot, n),
    decreases n,
{
    if n > 0 {
        lemma_without_slot_prefix(a, b, slot, n - 1);
        assert((a + b)[n - 1] == a[n - 1]);
    }
}

proof fn lemma_without_slot_parts(a: Seq<usize>, b: Seq<usize>, slot: usize, n: int)
    requires
        0 <= n <= b.len(),
    ensures
        without_slot(a + b, slot, a.len() + n) == without_slot(a, slot, a.len() as int)
            + without_slot(b, slot, n),
    decreases n,
{
    lemma_without_slot_prefix(a, b, slot, a.len() as int);
    if n > 0 {
        lemma_without_slot_parts(a, b, slot, n - 1);
        assert((a + b)[a.len() + n - 1] == b[n - 1]);
    }
    assert(without_slot(a + b, slot, a.len() + n) =~= without_slot(a, slot, a.len() as int)
        + without_slot(b, slot, n));
}

/// Giving a slot back takes that slot out of those in flight and no other, and touches no tunnel.
pub proof fn law_release_takes_only_its_slot(
    tunnels: Seq<EntryView>,
    a: Seq<usize>,
    b: Seq<usize>,
    held: usize,
    slot: usize,
)
    ensures
        unreserved(RegistryView { tunnels, reserved: a + b }, slot).reserved == unreserved(
            RegistryView { tunnels, reserved: a },
            slot,
        ).reserved + unreserved(RegistryView { tunnels, reserved: b }, slot).reserved,
        unreserved(RegistryView { tunnels, reserved: seq![held] }, slot).reserved == (if held
            == slot {
            Seq::empty()
        } else {
            seq![held]
        }),
        unreserved(RegistryView { tunnels, reserved: a }, slot).tunnels == tunnels,
{
    lemma_without_slot_parts(a, b, slot, b.len() as int);
    reveal_with_fuel(without_slot, 2);
}

/// A connect that succeeded turns its slot in flight into a tunnel, the last of them; every other
/// tunnel stays as it is.
pub proof fn law_connected_tunnel_is_kept(reg: RegistryView, e: EntryView)
    ensures
        ({
            let next = joined_by(reg, e);
            &&& next.tunnels == reg.tunnels + seq![e]
            &&& !next.reserved.contains(e.slot)
            &&& forall|s: usize|
                s != e.slot ==> (#[trigger] next.reserved.contains(s) <==> reg.reserved.contains(s))
        }),
{
    let next = joined_by(reg, e);
    assert(next.tunnels =~= reg.tunnels + seq![e]);
    lemma_without_members(reg.reserved, e.slot, reg.reserved.len() as int);
    assert(reg.reserved.take(reg.reserved.len() as int) =~= reg.reserved);
}

proof fn lemma_without_members(reserved: Seq<usize>, slot: usize, n: int)
    requires
        0 <= n <= reserved.len(),
    ensures
        forall|s: usize| #[trigger]
            without_slot(reserved, slot, n).contains(s) <==> s != slot && reserved.take(n).contains(
                s,
            ),
    decreases n,
{
    let r = without_slot(reserved, slot, n);
    if n > 0 {
        let p = without_slot(reserved, slot, n - 1);
        let before = reserved.take(n - 1);
        let upto = reserved.take(n);
        lemma_without_members(reserved, slot, n - 1);
        assert forall|s: usize| #[trigger] r.contains(s) <==> s != slot && reserved.take(
            n,
        ).contains(s) by {
            assert(p.contains(s) <==> s != slot && reserved.take(n - 1).contains(s));
            assert(reserved.take(n) =~= reserved.take(n - 1).push(reserved[n - 1]));
            if r.contains(s) {
                let i = choose|i: int| 0 <= i < r.len() && r[i] == s;
                if i < p.len() {
                    assert(p[i] == s);
                    let k = choose|k: int| 0 <= k < n - 1 && before[k] == s;
                    assert(upto[k] == s);
                } else {
                    assert(upto[n - 1] == s);
                }
            }
            if s != slot && reserved.take(n).contains(s) {
                let k = choose|k: int| 0 <= k < n && upto[k] == s;
                if k < n - 1 {
                    assert(before[k] == s);
                    let i = choose|i: int| 0 <= i < p.len() && p[i] == s;
                    assert(r[i] == s);
                } else {
                    assert(r[r.len() - 1] == s);
                }
            }
        }
    }
}

proof fn lemma_claims_prefix(a: Seq<EntryView>, b: Seq<EntryView>, conn: Seq<char>, n: int)
    requires
        0 <= n <= a.len(),
    ensures
        claims_but(a + b, conn, n) == claims_but(a, conn, n),
    decreases n,
{
    if n > 0 {
        lemma_claims_prefix(a, b, conn, n - 1);
        assert((a + b)[n - 1] == a[n - 1]);
    }
}

proof fn lemma_claims_parts(a: Seq<EntryView>, b: Seq<EntryView>, conn: Seq<char>, n: int)
    requires
        0 <= n <= b.len(),
    ensures
        claims_but(a + b, conn, a.len() + n) == claims_but(a, conn, a.len() as int) + claims_but(
            b,
            conn,
            n,
        ),
    decreases n,
{
    lemma_claims_prefix(a, b, conn, a.len() as int);
    if n > 0 {
        lemma_claims_parts(a, b, conn, n - 1);
        assert((a + b)[a.len() + n - 1] == b[n - 1]);
    }
    assert(claims_but(a + b, conn, a.len() + n) =~= claims_but(a, conn, a.len() as int)
        + claims_but(b, conn, n));
}

/// A tunnel speaks for all names when it carries everything, and for the names under its pushed
/// domain when there is one, whether or not that is written with a dot in front.
pub proof fn law_tunnel_speaks_for_its_names(e: EntryView)
    ensures
        e.pushed.full && e.pushed.domain is None ==> claims_of(e) == seq!["."@],
        !e.pushed.full && e.pushed.domain is None ==> claims_of(e).len() == 0,
        e.pushed.domain matches Some(d) ==> d.len() > 0 && d[0] != '.' ==> claims_of(e) == (
        if e.pushed.full {
            seq!["."@, "."@ + d]
        } else {
            seq!["."@ + d]
        }),
        e.pushed.domain matches Some(d) ==> d.len() > 1 && d[0] == '.' && d[1] != '.' ==> claims_of(
            e,
        ) == (if e.pushed.full {
            seq!["."@, d]
        } else {
            seq![d]
        }),
{
    reveal_strlit(".");
    match e.pushed.domain {
        Some(d) => {
            if d.len() > 0 && d[0] != '.' {
                assert(without_leading(d, '.') == d);
            }
            if d.len() > 1 && d[0] == '.' && d[1] != '.' {
                reveal_with_fuel(without_leading, 2);
                assert("."@ + d.skip(1) =~= d);
            }
        },
        None => {
            if e.pushed.full {
                assert(claims_of(e)[0] == "."@);
            }
        },
    }
}

/// What is spoken for when a connection applies its DNS is what every other live tunnel speaks
/// for, in their order, and nothing of its own.
pub proof fn law_others_are_spoken_for(
    a: Seq<EntryView>,
    b: Seq<EntryView>,
    e: EntryView,
    conn: Seq<char>,
)
    ensures
        claims_but(a + b, conn, (a + b).len() as int) == claims_but(a, conn, a.len() as int)
            + claims_but(b, conn, b.len() as int),
        e.name == conn ==> claims_but(seq![e], conn, 1).len() == 0,
        e.name != conn ==> claims_but(seq![e], conn, 1) == claims_of(e),
{
    lemma_claims_parts(a, b, conn, b.len() as int);
    reveal_with_fuel(claims_but, 2);
    if e.name != conn {
        assert(claims_but(seq![e], conn, 1) =~= claims_of(e));
    }
}

/// An apply is answered with the first thing that is wrong with it, servers before domain before
/// subnets, and then changes nothing. Otherwise it is handed on under its own name with what its
/// fields state and what the other live tunnels speak for, and dead tunnels are gone.
pub proof fn law_apply_is_checked_and_handed_on(
    reg: RegistryView,
    alive: Seq<usize>,
    conn: Seq<char>,
    servers: Seq<Seq<char>>,
    domain: Option<Seq<char>>,
    subnets: Seq<Seq<char>>,
)
    ensures
        ({
            let (next, step) = handled(
                reg,
                alive,
                RequestView::ApplyDns { conn, servers, domain, subnets },
            );
            let s = servers_of(servers);
            let d = domain_of(domain);
            let n = subnets_of(subnets);
            &&& s is Err ==> next == reg && step == StepView::Reply(failure(s->Err_0))
            &&& s is Ok && d is Err ==> next == reg && step == StepView::Reply(failure(d->Err_0))
            &&& s is Ok && d is Ok && n is Err ==> next == reg && step == StepView::Reply(
                failure(n->Err_0),
            )
            &&& s is Ok && d is Ok && n is Ok ==> {
                &&& next == pruned(reg, alive)
                &&& step is ApplyDns
                &&& step->ApplyDns_conn == conn
                &&& step->ApplyDns_servers == s->Ok_0
                &&& step->ApplyDns_domain == d->Ok_0
                &&& step->ApplyDns_subnets == n->Ok_0
                &&& step->ApplyDns_spoken_for == claims_but(
                    next.tunnels,
                    conn,
                    next.tunnels.len() as int,
                )
            }
        }),
{
}

/// A connect is handed on with the name, configuration, credentials and permission of the request.
/// It replaces the first live tunnel of its name, which is then no longer there; without one it
/// replaces none, and every live tunnel stays.
pub proof fn law_connect_is_handed_on(
    reg: RegistryView,
    alive: Seq<usize>,
    name: Seq<char>,
    config: Seq<char>,
    username: Seq<char>,
    password: Seq<char>,
    allow_full: bool,
)
    ensures
        ({
            let live = pruned(reg, alive).tunnels;
            let (next, step) = handled(
                reg,
                alive,
                RequestView::SslConnect { name, config, username, password, allow_full },
            );
            &&& step is Connect
            &&& step->Connect_name == name
            &&& step->Connect_config == config
            &&& step->Connect_username == username
            &&& step->Connect_password == password
            &&& step->Connect_allow_full == allow_full
            &&& next.reserved == reg.reserved
            &&& match step->Connect_replaced {
                Some(e) => e.name == name && exists|i: int|
                    0 <= i < live.len() && #[trigger] live[i] == e && next.tunnels == live.take(i)
                        + live.skip(i + 1) && forall|k: int|
                        0 <= k < i ==> (#[trigger] live[k]).name != name,
                None => next.tunnels == live && forall|k: int|
                    0 <= k < live.len() ==> (#[trigger] live[k]).name != name,
            }
        }),
{
    let live = pruned(reg, alive).tunnels;
    lemma_first_named(live, name, 0);
    match named_from(live, name, 0) {
        Some(i) => {
            assert(live.remove(i) =~= live.take(i) + live.skip(i + 1));
            assert(live[i].name == name);
        },
        None => {},
    }
}

proof fn lemma_first_named(tunnels: Seq<EntryView>, name: Seq<char>, i: int)
    requires
        0 <= i <= tunnels.len(),
    ensures
        match named_from(tunnels, name, i) {
            Some(k) => i <= k < tunnels.len() && tunnels[k].name == name && forall|j: int|
                i <= j < k ==> (#[trigger] tunnels[j]).name != name,
            None => forall|j: int| i <= j < tunnels.len() ==> (#[trigger] tunnels[j]).name != name,
        },
    decreases tunnels.len() - i,
{
    if i < tunnels.len() && tunnels[i].name != name {
        lemma_first_named(tunnels, name, i + 1);
    }
}

/// The requests that touch no tunnel change nothing: a ping is answered with `pong`, a revert is
/// handed on under its name, and the daemon is not this broker's to start or stop.
pub proof fn law_other_requests_change_nothing(
    reg: RegistryView,
    alive: Seq<usize>,
    conn: Seq<char>,
)
    ensures
        handled(reg, alive, RequestView::Ping) == (reg, StepView::Reply(success("pong"@))),
        handled(reg, alive, RequestView::RevertDns { conn }) == (
            reg,
            StepView::RevertDns { conn },
        ),
        handled(reg, alive, RequestView::CharonStart) == (
            reg,
            StepView::Reply(failure("charon is supervised by the service on this platform"@)),
        ),
        handled(reg, alive, RequestView::CharonStop) == (
            reg,
            StepView::Reply(failure("charon is supervised by the service on this platform"@)),
        ),
{
}

/// A status request is answered with the live tunnels: nothing when there is none, and else a
/// list that shows of each, in order, its domain, whether it carries everything, its address and
/// its name. What a tunnel does not have is an empty text.
pub proof fn law_status_lists_every_tunnel(
    reg: RegistryView,
    alive: Seq<usize>,
    a: Seq<EntryView>,
    b: Seq<EntryView>,
    e: EntryView,
    domain: Seq<char>,
    ip: Seq<char>,
)
    requires
        e.pushed.domain == Some(domain) || e.pushed.domain is None && domain.len() == 0,
        e.vpn_ip == Some(ip) || e.vpn_ip is None && ip.len() == 0,
    ensures
        handled(reg, alive, RequestView::SslStatus) == (
            pruned(reg, alive),
            StepView::Reply(success(status_answer(pruned(reg, alive).tunnels))),
        ),
        status_answer(Seq::empty()).len() == 0,
        status_answer(seq![e]) == "[{\"domain\":"@ + json_quoted(domain) + ",\"full\":"@ + (
        if e.pushed.full {
            "true"@
        } else {
            "false"@
        }) + ",\"ip\":"@ + json_quoted(ip) + ",\"name\":"@ + json_quoted(e.name) + "}]"@,
        a.len() > 0 && b.len() > 0 ==> status_answer(a + b) == status_answer(a).drop_last() + ","@
            + status_answer(b).drop_first(),
{
    reveal_strlit("[");
    reveal_strlit("]");
    reveal_strlit("}");
    reveal_strlit("}]");
    reveal_strlit("{\"domain\":");
    reveal_strlit("[{\"domain\":");
    if e.pushed.domain is None {
        assert(domain =~= Seq::empty());
    }
    if e.vpn_ip is None {
        assert(ip =~= Seq::empty());
    }
    let one = Seq::new(1, |i: int| status_of(seq![e][i]));
    assert(one =~= seq![status_of(e)]);
    law_joining_keeps_every_text(status_of(e), one, one, ","@);
    assert(Seq::new(seq![e].len(), |i: int| status_of(seq![e][i])) =~= one);
    assert("[{\"domain\":"@ =~= "["@ + "{\"domain\":"@);
    assert("}]"@ =~= "}"@ + "]"@);
    assert(status_answer(seq![e]) == "["@ + status_of(e) + "]"@);
    assert("["@ + status_of(e) + "]"@ =~= "[{\"domain\":"@ + json_quoted(domain) + ",\"full\":"@ + (
    if e.pushed.full {
        "true"@
    } else {
        "false"@
    }) + ",\"ip\":"@ + json_quoted(ip) + ",\"name\":"@ + json_quoted(e.name) + "}]"@);
    if a.len() > 0 && b.len() > 0 {
        let x = Seq::new(a.len(), |i: int| status_of(a[i]));
        let y = Seq::new(b.len(), |i: int| status_of(b[i]));
        let z = Seq::new((a + b).len(), |i: int| status_of((a + b)[i]));
        assert(z =~= x + y);
        law_joining_keeps_every_text(status_of(e), x, y, ","@);
        let j = join_all(x, ","@);
        let k = join_all(y, ","@);
        assert(("["@ + j + "]"@).drop_last() =~= "["@ + j);
        assert(("["@ + k + "]"@).drop_first() =~= k + "]"@);
        assert("["@ + (j + ","@ + k) + "]"@ =~= ("["@ + j) + ","@ + (k + "]"@));
    }
}

/// A connect that failed is answered with its log and its reason, each quoted under its own name.
pub proof fn law_failure_shows_log_and_reason(log: Seq<char>, reason: Seq<char>)
    ensures
        failure_object(json_quoted(log), json_quoted(reason)) == "{\"log\":"@ + json_quoted(log)
            + ",\"reason\":"@ + json_quoted(reason) + "}"@,
{
}

/// A connect that finds every slot taken is told how many there are.
pub proof fn law_full_broker_says_so()
    ensures
        no_slot() == "too many SSL VPN tunnels are already up (max "@ + decimal(8) + ")"@,
{
}

} // verus!
