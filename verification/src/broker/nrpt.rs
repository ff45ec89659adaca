//! DNS on Windows: which name resolution policy rules a connection may have, and the commands that
//! set and remove them.
//!
//! A namespace is a system-wide resource. It belongs to whichever connection claimed it first, and
//! a later one that asks for it goes without rather than take it over. One that wants all names
//! when another has them falls back to the reverse-lookup zones of its own networks. Each
//! connection's namespaces are recorded, one per line, so that a revert removes exactly them.

use crate::broker::supervisor::{is_dns_char, is_dns_text};
use crate::ipv4::Ipv4Addr;
use crate::model::{holds, opt_view};
use crate::text::{
    chars_of, decimal, filled, format_u64, index_of, is_alnum, is_alphanumeric, is_digit, join, join_all,
    law_joining_keeps_every_text, lemma_decimal,
    lemma_split_of_joined, lemma_trimmed_stays, lines, lines_of, number_up_to, parse_up_to, same, split, split_on, split_once, strip_leading, trim, trimmed,
    views, without_leading,
};
use vstd::prelude::*;

verus! {

/// The namespace of all names. At most one connection holds it.
pub const CATCH_ALL: &'static str = ".";

/// A name with every character but ASCII letters, digits, `-` and `_` replaced by `_`.
pub open spec fn masked(name: Seq<char>) -> Seq<char> {
    Seq::new(
        name.len(),
        |i: int|
            if is_alnum(name[i]) || name[i] == '-' || name[i] == '_' {
                name[i]
            } else {
                '_'
            },
    )
}

/// A connection name as a file name.
pub fn sanitize(conn: &str) -> (r: String)
    ensures
        r@ == masked(conn@),
{
    let mut out = String::new();
    for c in it: conn.chars()
        invariant
            it.seq() == conn@,
            out@ == masked(conn@).take(it.index() as int),
    {
        let ghost before = out@;
        let ghost n = it.index() as int;
        if is_alphanumeric(c) || c == '-' || c == '_' {
            out.push(c);
        } else {
            out.push('_');
        }
        assert(out@ =~= masked(conn@).take(n + 1));
    }
    assert(masked(conn@).take(conn@.len() as int) =~= masked(conn@));
    out
}

/// The file that records what a connection holds.
pub fn record_name(conn: &str) -> (r: String)
    ensures
        r@ == masked(conn@) + ".ns"@,
{
    let mut s = sanitize(conn);
    s.append(".ns");
    s
}

/// The namespace of a domain suffix; of all names when there is none.
pub open spec fn namespace_of(domain: Option<Seq<char>>) -> Seq<char> {
    match domain {
        Some(d) => if trimmed(d).len() > 0 {
            "."@ + without_leading(trimmed(d), '.')
        } else {
            CATCH_ALL@
        },
        None => CATCH_ALL@,
    }
}

/// The namespace of a domain suffix.
pub fn namespace(domain: Option<&str>) -> (r: String)
    ensures
        r@ == namespace_of(
            match domain {
                Some(d) => Some(d@),
                None => None,
            },
        ),
{
    match domain {
        Some(d) => {
            let t = trim(d);
            if !t.as_str().is_empty() {
                let mut s = ".".to_owned();
                s.append(strip_leading(t.as_str(), '.').as_str());
                return s;
            }
            CATCH_ALL.to_owned()
        },
        None => CATCH_ALL.to_owned(),
    }
}

/// The texts with a dot between them, last first: the labels of a reverse zone.
pub open spec fn reversed_labels(octets: Seq<nat>, keep: int) -> Seq<char>
    decreases keep,
{
    if keep <= 0 {
        Seq::empty()
    } else if keep == 1 {
        decimal(octets[0])
    } else {
        decimal(octets[keep - 1]) + "."@ + reversed_labels(octets, keep - 1)
    }
}

/// The numbers that the parts of a dotted address denote, when all of them do and fit an octet.
pub open spec fn octets_of(parts: Seq<Seq<char>>, n: int) -> Option<Seq<nat>>
    decreases n,
{
    if n <= 0 {
        Some(Seq::empty())
    } else {
        match octets_of(parts, n - 1) {
            Some(v) => match number_up_to(parts[n - 1], 255) {
                Some(o) => Some(v.push(o)),
                None => None,
            },
            None => None,
        }
    }
}

/// The reverse-lookup zone of a network at whichever octet boundary its prefix reaches. None for
/// anything that is not a network, and for a prefix shorter than 8, which would claim more than
/// the tunnel owns.
pub open spec fn zone_of(cidr: Seq<char>) -> Option<Seq<char>> {
    let slash = index_of(cidr, '/');
    let parts = split_on(trimmed(cidr.take(slash)), '.');
    if slash >= cidr.len() {
        None
    } else {
        match number_up_to(trimmed(cidr.skip(slash + 1)), 255) {
            Some(prefix) => match octets_of(parts, parts.len() as int) {
                Some(octets) => if octets.len() == 4 && 8 <= prefix <= 32 {
                    Some("."@ + reversed_labels(octets, prefix as int / 8) + ".in-addr.arpa"@)
                } else {
                    None
                },
                None => None,
            },
            None => None,
        }
    }
}

/// The values of a list of octets.
pub open spec fn octet_values(v: Seq<u64>) -> Seq<nat> {
    Seq::new(v.len(), |i: int| v[i] as nat)
}

proof fn lemma_octets_stay_none(parts: Seq<Seq<char>>, n: int, m: int)
    requires
        n <= m,
        octets_of(parts, n) is None,
    ensures
        octets_of(parts, m) is None,
    decreases m - n,
{
    if n < m {
        lemma_octets_stay_none(parts, n, m - 1);
    }
}

fn read_octets(text: &str) -> (r: Option<Vec<u64>>)
    ensures
        ({
            let parts = split_on(text@, '.');
            match r {
                Some(v) => octets_of(parts, parts.len() as int) == Some(octet_values(v@)),
                None => octets_of(parts, parts.len() as int) is None,
            }
        }),
{
    let parts = split(text, '.');
    let ghost all = split_on(text@, '.');
    let mut out: Vec<u64> = Vec::new();
    assert(octet_values(out@) =~= Seq::empty());
    let mut i: usize = 0;
    while i < parts.len()
        invariant
            i <= parts@.len(),
            all == views(parts@),
            all == split_on(text@, '.'),
            octets_of(all, i as int) == Some(octet_values(out@)),
        decreases parts@.len() - i,
    {
        assert(all[i as int] == parts@[i as int]@);
        match parse_up_to(parts[i].as_str(), 255) {
            Some(o) => {
                let ghost before = out@;
                out.push(o);
                assert(octet_values(out@) =~= octet_values(before).push(o as nat));
            },
            None => {
                proof {
                    lemma_octets_stay_none(all, i + 1, all.len() as int);
                }
                return None;
            },
        }
        i = i + 1;
    }
    Some(out)
}

fn labels(octets: &Vec<u64>, keep: usize) -> (r: String)
    requires
        keep <= octets@.len(),
    ensures
        r@ == reversed_labels(octet_values(octets@), keep as int),
{
    let ghost all = octet_values(octets@);
    let mut out = String::new();
    let mut i: usize = 0;
    while i < keep
        invariant
            i <= keep <= octets@.len(),
            all == octet_values(octets@),
            out@ == reversed_labels(all, i as int),
        decreases keep - i,
    {
        let mut s = format_u64(octets[i]);
        if i > 0 {
            s.append(".");
            s.append(out.as_str());
        }
        out = s;
        i = i + 1;
    }
    out
}

/// The reverse-lookup zone of a network.
pub fn reverse_zone(cidr: &str) -> (r: Option<String>)
    ensures
        match r {
            Some(z) => zone_of(cidr@) == Some(z@),
            None => zone_of(cidr@) is None,
        },
{
    let (addr, prefix) = match split_once(cidr, '/') {
        Some(p) => p,
        None => {
            return None;
        },
    };
    let bits: u64 = match parse_up_to(trim(prefix.as_str()).as_str(), 255) {
        Some(n) => n,
        None => {
            return None;
        },
    };
    let octets = match read_octets(trim(addr.as_str()).as_str()) {
        Some(v) => v,
        None => {
            return None;
        },
    };
    if octets.len() != 4 || bits < 8 || bits > 32 {
        return None;
    }
    let mut s = ".".to_owned();
    s.append(labels(&octets, (bits / 8) as usize).as_str());
    s.append(".in-addr.arpa");
    Some(s)
}

/// Whether `a` comes before `b` in the order of their characters.
pub open spec fn precedes(a: Seq<char>, b: Seq<char>) -> bool
    decreases a.len(),
{
    if b.len() == 0 {
        false
    } else if a.len() == 0 {
        true
    } else if a[0] != b[0] {
        a[0] < b[0]
    } else {
        precedes(a.skip(1), b.skip(1))
    }
}

fn comes_before(a: &str, b: &str) -> (r: bool)
    ensures
        r == precedes(a@, b@),
{
    let x = chars_of(a);
    let y = chars_of(b);
    let mut i: usize = 0;
    assert(x@.skip(0) =~= x@);
    assert(y@.skip(0) =~= y@);
    while i < x.len() && i < y.len()
        invariant
            x@ == a@,
            y@ == b@,
            i <= x@.len(),
            i <= y@.len(),
            precedes(x@, y@) == precedes(x@.skip(i as int), y@.skip(i as int)),
        decreases x@.len() - i,
    {
        let p: char = x[i];
        let q: char = y[i];
        assert(x@.skip(i as int)[0] == p);
        assert(y@.skip(i as int)[0] == q);
        if p != q {
            return p < q;
        }
        assert(x@.skip(i as int).skip(1) =~= x@.skip(i + 1));
        assert(y@.skip(i as int).skip(1) =~= y@.skip(i + 1));
        i = i + 1;
    }
    i < y.len()
}

/// An ordered list with one more text in its place; a text that is there already stays once.
pub open spec fn placed(z: Seq<Seq<char>>, x: Seq<char>) -> Seq<Seq<char>>
    decreases z.len(),
{
    if z.len() == 0 {
        seq![x]
    } else if z[0] == x {
        z
    } else if precedes(x, z[0]) {
        seq![x] + z
    } else {
        seq![z[0]] + placed(z.skip(1), x)
    }
}

/// The reverse zones of the first `n` networks, in order, each once.
pub open spec fn zones_of(subnets: Seq<Seq<char>>, n: int) -> Seq<Seq<char>>
    decreases n,
{
    if n <= 0 {
        Seq::empty()
    } else {
        match zone_of(subnets[n - 1]) {
            Some(z) => placed(zones_of(subnets, n - 1), z),
            None => zones_of(subnets, n - 1),
        }
    }
}

proof fn lemma_placed(z: Seq<Seq<char>>, x: Seq<char>, i: int)
    requires
        0 <= i <= z.len(),
        forall|k: int| 0 <= k < i ==> z[k] != x && !precedes(x, #[trigger] z[k]),
        i == z.len() || z[i] == x || precedes(x, z[i]),
    ensures
        placed(z, x) == (if i < z.len() && z[i] == x {
            z
        } else {
            z.insert(i, x)
        }),
    decreases i,
{
    if i == 0 {
        if z.len() == 0 {
            assert(z.insert(0, x) =~= seq![x]);
        } else if z[0] != x {
            assert(z.insert(0, x) =~= seq![x] + z);
        }
    } else {
        let t = z.skip(1);
        assert(z[0] != x && !precedes(x, z[0]));
        assert forall|k: int| 0 <= k < i - 1 implies t[k] != x && !precedes(x, #[trigger] t[k]) by {
            assert(t[k] == z[k + 1]);
        }
        lemma_placed(t, x, i - 1);
        if i < z.len() && z[i] == x {
            assert(seq![z[0]] + t =~= z);
        } else {
            assert(seq![z[0]] + t.insert(i - 1, x) =~= z.insert(i, x));
        }
    }
}

fn place(z: &mut Vec<String>, x: String)
    ensures
        views(final(z)@) == placed(views(old(z)@), x@),
{
    let ghost all = views(z@);
    let mut i: usize = 0;
    while i < z.len() && !same(z[i].as_str(), x.as_str()) && !comes_before(
        x.as_str(),
        z[i].as_str(),
    )
        invariant
            i <= z@.len(),
            all == views(z@),
            forall|k: int| 0 <= k < i ==> all[k] != x@ && !precedes(x@, #[trigger] all[k]),
        decreases z@.len() - i,
    {
        assert(all[i as int] == z@[i as int]@);
        i = i + 1;
    }
    proof {
        if i < z@.len() {
            assert(all[i as int] == z@[i as int]@);
        }
        lemma_placed(all, x@, i as int);
    }
    if i < z.len() && same(z[i].as_str(), x.as_str()) {
        return;
    }
    let ghost seen = x@;
    z.insert(i, x);
    assert(views(z@) =~= all.insert(i as int, seen));
}

/// The reverse zones of some networks, in order, each once.
pub fn reverse_zones(subnets: &Vec<String>) -> (r: Vec<String>)
    ensures
        views(r@) == zones_of(views(subnets@), subnets@.len() as int),
{
    let ghost all = views(subnets@);
    let mut out: Vec<String> = Vec::new();
    assert(views(out@) =~= Seq::empty());
    let mut i: usize = 0;
    while i < subnets.len()
        invariant
            i <= subnets@.len(),
            all == views(subnets@),
            views(out@) == zones_of(all, i as int),
        decreases subnets@.len() - i,
    {
        assert(all[i as int] == subnets@[i as int]@);
        match reverse_zone(subnets[i].as_str()) {
            Some(z) => {
                place(&mut out, z);
            },
            None => {},
        }
        i = i + 1;
    }
    out
}

/// What one connection is recorded to hold: its name as a file name, and the text of the record.
#[derive(Debug)]
pub struct Record {
    pub owner: String,
    pub text: String,
}

/// The content of a [`Record`].
pub struct RecordView {
    pub owner: Seq<char>,
    pub text: Seq<char>,
}

impl View for Record {
    type V = RecordView;

    open spec fn view(&self) -> RecordView {
        RecordView { owner: self.owner@, text: self.text@ }
    }
}

/// The contents of a list of records.
pub open spec fn record_views(v: Seq<Record>) -> Seq<RecordView> {
    Seq::new(v.len(), |i: int| v[i]@)
}

/// Whether a record names the namespace on one of its lines.
pub open spec fn names(text: Seq<char>, ns: Seq<char>) -> bool {
    exists|i: int| 0 <= i < lines_of(text).len() && trimmed(#[trigger] lines_of(text)[i]) == ns
}

/// Who holds the namespace according to the records from `i` on.
pub open spec fn holder_from(records: Seq<RecordView>, ns: Seq<char>, i: int) -> Option<Seq<char>>
    decreases records.len() - i,
{
    if i < 0 || i >= records.len() {
        None
    } else if names(records[i].text, ns) {
        Some(records[i].owner)
    } else {
        holder_from(records, ns, i + 1)
    }
}

fn is_named(text: &str, ns: &str) -> (r: bool)
    ensures
        r == names(text@, ns@),
{
    let all = lines(text);
    let ghost ls = lines_of(text@);
    let mut i: usize = 0;
    while i < all.len()
        invariant
            i <= all@.len(),
            ls == views(all@),
            ls == lines_of(text@),
            forall|k: int| 0 <= k < i ==> trimmed(#[trigger] ls[k]) != ns@,
        decreases all@.len() - i,
    {
        assert(ls[i as int] == all@[i as int]@);
        if same(trim(all[i].as_str()).as_str(), ns) {
            return true;
        }
        i = i + 1;
    }
    false
}

/// Which connection, if any, holds the namespace.
pub fn holder_of<'a>(records: &'a Vec<Record>, ns: &str) -> (r: Option<&'a str>)
    ensures
        match r {
            Some(h) => holder_from(record_views(records@), ns@, 0) == Some(h@),
            None => holder_from(record_views(records@), ns@, 0) is None,
        },
{
    let ghost all = record_views(records@);
    let mut i: usize = 0;
    while i < records.len()
        invariant
            i <= records@.len(),
            all == record_views(records@),
            holder_from(all, ns@, 0) == holder_from(all, ns@, i as int),
        decreases records@.len() - i,
    {
        assert(all[i as int] == records@[i as int]@);
        if is_named(records[i].text.as_str(), ns) {
            return Some(records[i].owner.as_str());
        }
        i = i + 1;
    }
    None
}

/// Whether `me` may have the namespace: no other datapath has claimed it, and no other connection
/// holds it.
pub open spec fn is_free(
    records: Seq<RecordView>,
    spoken_for: Seq<Seq<char>>,
    me: Seq<char>,
    ns: Seq<char>,
) -> bool {
    !spoken_for.contains(ns) && match holder_from(records, ns, 0) {
        Some(h) => h == me,
        None => true,
    }
}

fn free(records: &Vec<Record>, spoken_for: &Vec<String>, me: &str, ns: &str) -> (r: bool)
    ensures
        r == is_free(record_views(records@), views(spoken_for@), me@, ns@),
{
    if holds(spoken_for, ns) {
        return false;
    }
    match holder_of(records, ns) {
        Some(h) => same(h, me),
        None => true,
    }
}

/// What a connection asks for: its namespace, or its own reverse zones when it wants all names and
/// another has them.
pub open spec fn asked(
    records: Seq<RecordView>,
    spoken_for: Seq<Seq<char>>,
    me: Seq<char>,
    wanted: Seq<char>,
    subnets: Seq<Seq<char>>,
) -> Seq<Seq<char>> {
    if wanted == CATCH_ALL@ && !is_free(records, spoken_for, me, wanted) {
        zones_of(subnets, subnets.len() as int)
    } else {
        seq![wanted]
    }
}

/// Those of the first `n` namespaces that are free.
pub open spec fn granted(
    records: Seq<RecordView>,
    spoken_for: Seq<Seq<char>>,
    me: Seq<char>,
    want: Seq<Seq<char>>,
    n: int,
) -> Seq<Seq<char>>
    decreases n,
{
    if n <= 0 {
        Seq::empty()
    } else if is_free(records, spoken_for, me, want[n - 1]) {
        granted(records, spoken_for, me, want, n - 1).push(want[n - 1])
    } else {
        granted(records, spoken_for, me, want, n - 1)
    }
}

/// The texts of some addresses.
pub open spec fn addresses(servers: Seq<Ipv4Addr>) -> Seq<Seq<char>> {
    Seq::new(servers.len(), |i: int| servers[i].dotted())
}

/// A text in single quotes.
pub open spec fn single_quoted(s: Seq<char>) -> Seq<char> {
    "'"@ + s + "'"@
}

/// The command that removes the rules for a namespace.
pub open spec fn removal(ns: Seq<char>) -> Seq<char> {
    "Get-DnsClientNrptRule | Where-Object { $_.Namespace -contains '"@ + ns
        + "' } | Remove-DnsClientNrptRule -Force -ErrorAction SilentlyContinue;"@
}

/// The command that replaces the rules for a namespace by one that names the servers.
pub open spec fn claim(ns: Seq<char>, servers: Seq<Ipv4Addr>) -> Seq<char> {
    removal(ns) + "Add-DnsClientNrptRule -Namespace '"@ + ns + "' -NameServers @("@ + join_all(
        addresses(servers).map_values(|s: Seq<char>| single_quoted(s)),
        ","@,
    ) + ");Clear-DnsClientCache -ErrorAction SilentlyContinue"@
}

/// The command that removes the rules for a namespace and forgets what they resolved.
pub open spec fn release(ns: Seq<char>) -> Seq<char> {
    removal(ns) + "Clear-DnsClientCache -ErrorAction SilentlyContinue"@
}

fn address_list(servers: &Vec<Ipv4Addr>) -> (r: Vec<String>)
    ensures
        views(r@) == addresses(servers@),
{
    let mut out: Vec<String> = Vec::new();
    let mut i: usize = 0;
    while i < servers.len()
        invariant
            i <= servers@.len(),
            views(out@) == addresses(servers@).take(i as int),
        decreases servers@.len() - i,
    {
        let ghost before = out@;
        let text = servers[i].to_text();
        let ghost seen = text@;
        out.push(text);
        assert(views(out@) =~= views(before).push(seen));
        assert(views(out@) =~= addresses(servers@).take(i + 1));
        i = i + 1;
    }
    assert(addresses(servers@).take(servers@.len() as int) =~= addresses(servers@));
    out
}

fn quoted_list(servers: &Vec<Ipv4Addr>) -> (r: Vec<String>)
    ensures
        views(r@) == addresses(servers@).map_values(|s: Seq<char>| single_quoted(s)),
{
    let ghost all = addresses(servers@).map_values(|s: Seq<char>| single_quoted(s));
    let mut out: Vec<String> = Vec::new();
    let mut i: usize = 0;
    while i < servers.len()
        invariant
            i <= servers@.len(),
            all == addresses(servers@).map_values(|s: Seq<char>| single_quoted(s)),
            views(out@) == all.take(i as int),
        decreases servers@.len() - i,
    {
        let ghost before = out@;
        let mut text = "'".to_owned();
        text.append(servers[i].to_text().as_str());
        text.append("'");
        let ghost seen = text@;
        out.push(text);
        assert(views(out@) =~= views(before).push(seen));
        assert(all[i as int] == seen);
        assert(views(out@) =~= all.take(i + 1));
        i = i + 1;
    }
    assert(all.take(servers@.len() as int) =~= all);
    out
}

fn append_removal(s: &mut String, ns: &str)
    ensures
        final(s)@ == old(s)@ + removal(ns@),
{
    s.append("Get-DnsClientNrptRule | Where-Object { $_.Namespace -contains '");
    s.append(ns);
    s.append("' } | Remove-DnsClientNrptRule -Force -ErrorAction SilentlyContinue;");
    assert(s@ =~= old(s)@ + removal(ns@));
}

/// The command that gives a namespace to the servers.
pub fn claim_script(ns: &str, servers: &Vec<Ipv4Addr>) -> (r: String)
    ensures
        r@ == claim(ns@, servers@),
{
    let mut s = String::new();
    append_removal(&mut s, ns);
    s.append("Add-DnsClientNrptRule -Namespace '");
    s.append(ns);
    s.append("' -NameServers @(");
    s.append(join(&quoted_list(servers), ",").as_str());
    s.append(");Clear-DnsClientCache -ErrorAction SilentlyContinue");
    assert(s@ =~= claim(ns@, servers@));
    s
}

/// The command that takes a namespace back.
pub fn release_script(ns: &str) -> (r: String)
    ensures
        r@ == release(ns@),
{
    let mut s = String::new();
    append_removal(&mut s, ns);
    s.append("Clear-DnsClientCache -ErrorAction SilentlyContinue");
    assert(s@ =~= release(ns@));
    s
}

/// What is to be done for a connection's DNS, and what to tell the user when it is.
#[derive(Debug)]
pub struct Plan {
    /// The commands to run, in order; the first that fails ends it.
    pub scripts: Vec<String>,
    /// What to record of the connection once they have run.
    pub record: Option<String>,
    pub summary: String,
}

/// The content of a [`Plan`].
pub struct PlanView {
    pub scripts: Seq<Seq<char>>,
    pub record: Option<Seq<char>>,
    pub summary: Seq<char>,
}

impl View for Plan {
    type V = PlanView;

    open spec fn view(&self) -> PlanView {
        PlanView {
            scripts: views(self.scripts@),
            record: opt_view(self.record),
            summary: self.summary@,
        }
    }
}

/// What is said when nothing is left to claim.
pub open spec fn left_alone(wanted: Seq<char>, servers: Seq<char>) -> Seq<char> {
    if wanted == CATCH_ALL@ {
        "DNS left as it is: another VPN already resolves all names, and this profile names no DNS domain of its own to scope a rule to. Set one in the profile to resolve "@
            + servers + "'s names alongside it."@
    } else {
        "DNS left as it is: another VPN already resolves *"@ + wanted
    }
}

/// What is said when some namespaces were claimed.
pub open spec fn routed(
    wanted: Seq<char>,
    want: Seq<Seq<char>>,
    mine: Seq<Seq<char>>,
    servers: Seq<char>,
) -> Seq<char> {
    let what = if mine.len() == 1 && mine[0] == CATCH_ALL@ {
        "DNS routed over the tunnel via "@ + servers + " (all names)"@
    } else {
        "split-DNS: "@ + join_all(mine.map_values(|ns: Seq<char>| "*"@ + ns), ", "@)
            + " resolves via "@ + servers
    };
    if wanted == CATCH_ALL@ && mine[0] != CATCH_ALL@ {
        what
            + " — another VPN already resolves all names, so only this network's own addresses were claimed. Set a DNS domain in the profile to resolve its names too."@
    } else if mine.len() < want.len() {
        what + " (another VPN already resolves the rest)"@
    } else {
        what
    }
}

/// The plan for a connection: the namespaces that it wants and may have, all to the same servers.
pub open spec fn planned(
    conn: Seq<char>,
    servers: Seq<Ipv4Addr>,
    domain: Option<Seq<char>>,
    subnets: Seq<Seq<char>>,
    spoken_for: Seq<Seq<char>>,
    records: Seq<RecordView>,
) -> PlanView {
    let wanted = namespace_of(domain);
    let me = masked(conn);
    let want = asked(records, spoken_for, me, wanted, subnets);
    let mine = granted(records, spoken_for, me, want, want.len() as int);
    let text = join_all(addresses(servers), ", "@);
    if servers.len() == 0 {
        PlanView { scripts: Seq::empty(), record: None, summary: Seq::empty() }
    } else if mine.len() == 0 {
        PlanView { scripts: Seq::empty(), record: None, summary: left_alone(wanted, text) }
    } else {
        PlanView {
            scripts: mine.map_values(|ns: Seq<char>| claim(ns, servers)),
            record: Some(join_all(mine, "\n"@)),
            summary: routed(wanted, want, mine, text),
        }
    }
}

fn grant(
    records: &Vec<Record>,
    spoken_for: &Vec<String>,
    me: &str,
    want: &Vec<String>,
) -> (r: Vec<String>)
    ensures
        views(r@) == granted(
            record_views(records@),
            views(spoken_for@),
            me@,
            views(want@),
            want@.len() as int,
        ),
{
    let ghost all = views(want@);
    let ghost rs = record_views(records@);
    let ghost sf = views(spoken_for@);
    let mut out: Vec<String> = Vec::new();
    assert(views(out@) =~= Seq::empty());
    let mut i: usize = 0;
    while i < want.len()
        invariant
            i <= want@.len(),
            all == views(want@),
            rs == record_views(records@),
            sf == views(spoken_for@),
            views(out@) == granted(rs, sf, me@, all, i as int),
        decreases want@.len() - i,
    {
        assert(all[i as int] == want@[i as int]@);
        if free(records, spoken_for, me, want[i].as_str()) {
            let ghost before = out@;
            let ns = want[i].clone();
            let ghost seen = ns@;
            out.push(ns);
            assert(views(out@) =~= views(before).push(seen));
        }
        i = i + 1;
    }
    out
}

fn claim_scripts(mine: &Vec<String>, servers: &Vec<Ipv4Addr>) -> (r: Vec<String>)
    ensures
        views(r@) == views(mine@).map_values(|ns: Seq<char>| claim(ns, servers@)),
{
    let ghost all = views(mine@).map_values(|ns: Seq<char>| claim(ns, servers@));
    let mut out: Vec<String> = Vec::new();
    let mut i: usize = 0;
    while i < mine.len()
        invariant
            i <= mine@.len(),
            all == views(mine@).map_values(|ns: Seq<char>| claim(ns, servers@)),
            views(out@) == all.take(i as int),
        decreases mine@.len() - i,
    {
        let ghost before = out@;
        let script = claim_script(mine[i].as_str(), servers);
        let ghost seen = script@;
        out.push(script);
        assert(views(out@) =~= views(before).push(seen));
        assert(views(mine@)[i as int] == mine@[i as int]@);
        assert(all[i as int] == seen);
        assert(views(out@) =~= all.take(i + 1));
        i = i + 1;
    }
    assert(all.take(mine@.len() as int) =~= all);
    out
}

fn starred(mine: &Vec<String>) -> (r: Vec<String>)
    ensures
        views(r@) == views(mine@).map_values(|ns: Seq<char>| "*"@ + ns),
{
    let ghost all = views(mine@).map_values(|ns: Seq<char>| "*"@ + ns);
    let mut out: Vec<String> = Vec::new();
    let mut i: usize = 0;
    while i < mine.len()
        invariant
            i <= mine@.len(),
            all == views(mine@).map_values(|ns: Seq<char>| "*"@ + ns),
            views(out@) == all.take(i as int),
        decreases mine@.len() - i,
    {
        let ghost before = out@;
        let mut text = "*".to_owned();
        text.append(mine[i].as_str());
        let ghost seen = text@;
        out.push(text);
        assert(views(out@) =~= views(before).push(seen));
        assert(views(mine@)[i as int] == mine@[i as int]@);
        assert(all[i as int] == seen);
        assert(views(out@) =~= all.take(i + 1));
        i = i + 1;
    }
    assert(all.take(mine@.len() as int) =~= all);
    out
}

fn summary_of(
    wanted: &str,
    want: &Vec<String>,
    mine: &Vec<String>,
    servers: &str,
) -> (r: String)
    requires
        mine@.len() > 0,
    ensures
        r@ == routed(wanted@, views(want@), views(mine@), servers@),
{
    assert(views(mine@)[0] == mine@[0]@);
    let mut s = if mine.len() == 1 && same(mine[0].as_str(), CATCH_ALL) {
        let mut t = "DNS routed over the tunnel via ".to_owned();
        t.append(servers);
        t.append(" (all names)");
        t
    } else {
        let mut t = "split-DNS: ".to_owned();
        t.append(join(&starred(mine), ", ").as_str());
        t.append(" resolves via ");
        t.append(servers);
        t
    };
    if same(wanted, CATCH_ALL) && !same(mine[0].as_str(), CATCH_ALL) {
        s.append(
            " — another VPN already resolves all names, so only this network's own addresses were claimed. Set a DNS domain in the profile to resolve its names too.",
        );
    } else if mine.len() < want.len() {
        s.append(" (another VPN already resolves the rest)");
    }
    s
}

/// Plans how to route DNS for a connection over its tunnel. `spoken_for` are the namespaces that
/// another datapath has claimed; `records` say what other connections hold.
pub fn apply(
    conn: &str,
    servers: &Vec<Ipv4Addr>,
    domain: Option<&str>,
    subnets: &Vec<String>,
    spoken_for: &Vec<String>,
    records: &Vec<Record>,
) -> (r: Plan)
    ensures
        r@ == planned(
            conn@,
            servers@,
            match domain {
                Some(d) => Some(d@),
                None => None,
            },
            views(subnets@),
            views(spoken_for@),
            record_views(records@),
        ),
{
    let none: Vec<String> = Vec::new();
    assert(views(none@) =~= Seq::empty());
    if servers.len() == 0 {
        let summary = String::new();
        assert(summary@ =~= Seq::empty());
        return Plan { scripts: none, record: None, summary };
    }
    let me = sanitize(conn);
    let wanted = namespace(domain);
    let want = if same(wanted.as_str(), CATCH_ALL) && !free(
        records,
        spoken_for,
        me.as_str(),
        wanted.as_str(),
    ) {
        reverse_zones(subnets)
    } else {
        let v = vec![wanted.clone()];
        assert(views(v@) =~= seq![wanted@]);
        v
    };
    let mine = grant(records, spoken_for, me.as_str(), &want);
    let text = join(&address_list(servers), ", ");
    if mine.len() == 0 {
        let summary = if same(wanted.as_str(), CATCH_ALL) {
            let mut s =
                "DNS left as it is: another VPN already resolves all names, and this profile names no DNS domain of its own to scope a rule to. Set one in the profile to resolve ".to_owned();
            s.append(text.as_str());
            s.append("'s names alongside it.");
            s
        } else {
            let mut s = "DNS left as it is: another VPN already resolves *".to_owned();
            s.append(wanted.as_str());
            s
        };
        return Plan { scripts: none, record: None, summary };
    }
    Plan {
        scripts: claim_scripts(&mine, servers),
        record: Some(join(&mine, "\n")),
        summary: summary_of(wanted.as_str(), &want, &mine, text.as_str()),
    }
}

/// The namespaces in the lines of a record: trimmed, without the blank ones.
pub open spec fn recorded(text: Seq<char>) -> Seq<Seq<char>> {
    filled(lines_of(text), lines_of(text).len() as int)
}

/// Those of the first `n` namespaces that no other connection holds.
pub open spec fn released(
    records: Seq<RecordView>,
    me: Seq<char>,
    held: Seq<Seq<char>>,
    n: int,
) -> Seq<Seq<char>>
    decreases n,
{
    if n <= 0 {
        Seq::empty()
    } else if is_free(records, Seq::empty(), me, held[n - 1]) {
        released(records, me, held, n - 1).push(held[n - 1])
    } else {
        released(records, me, held, n - 1)
    }
}

fn record_lines(text: &str) -> (r: Vec<String>)
    ensures
        views(r@) == recorded(text@),
{
    let all = lines(text);
    let ghost ls = lines_of(text@);
    let mut out: Vec<String> = Vec::new();
    assert(views(out@) =~= Seq::empty());
    let mut i: usize = 0;
    while i < all.len()
        invariant
            i <= all@.len(),
            ls == views(all@),
            views(out@) == filled(ls, i as int),
        decreases all@.len() - i,
    {
        assert(ls[i as int] == all@[i as int]@);
        let line = trim(all[i].as_str());
        if !line.as_str().is_empty() {
            let ghost before = out@;
            let ghost seen = line@;
            out.push(line);
            assert(views(out@) =~= views(before).push(seen));
        }
        i = i + 1;
    }
    out
}

/// The commands that remove the rules of a connection whose record had the given text. `records`
/// are those of the others; a namespace that another connection holds by now is left to it.
pub fn revert(conn: &str, text: &str, records: &Vec<Record>) -> (r: Vec<String>)
    ensures
        ({
            let held = recorded(text@);
            views(r@) == released(
                record_views(records@),
                masked(conn@),
                held,
                held.len() as int,
            ).map_values(|ns: Seq<char>| release(ns))
        }),
{
    let me = sanitize(conn);
    let held = record_lines(text);
    let ghost all = recorded(text@);
    let ghost rs = record_views(records@);
    let mut out: Vec<String> = Vec::new();
    let mut i: usize = 0;
    assert(views(out@) =~= released(rs, me@, all, 0).map_values(|ns: Seq<char>| release(ns)));
    while i < held.len()
        invariant
            i <= held@.len(),
            all == views(held@),
            rs == record_views(records@),
            views(out@) == released(rs, me@, all, i as int).map_values(
                |ns: Seq<char>| release(ns),
            ),
        decreases held@.len() - i,
    {
        assert(all[i as int] == held@[i as int]@);
        let mine: bool = match holder_of(records, held[i].as_str()) {
            Some(h) => same(h, me.as_str()),
            None => true,
        };
        if mine {
            let ghost before = out@;
            let script = release_script(held[i].as_str());
            let ghost seen = script@;
            out.push(script);
            assert(views(out@) =~= views(before).push(seen));
            assert(views(out@) =~= released(rs, me@, all, i + 1).map_values(
                |ns: Seq<char>| release(ns),
            ));
        }
        i = i + 1;
    }
    out
}

/// The namespaces that the first `n` records name.
pub open spec fn all_recorded(records: Seq<RecordView>, n: int) -> Seq<Seq<char>>
    decreases n,
{
    if n <= 0 {
        Seq::empty()
    } else {
        all_recorded(records, n - 1) + recorded(records[n - 1].text)
    }
}

/// The commands that remove every recorded rule.
pub fn revert_all(records: &Vec<Record>) -> (r: Vec<String>)
    ensures
        views(r@) == all_recorded(record_views(records@), records@.len() as int).map_values(
            |ns: Seq<char>| release(ns),
        ),
{
    let ghost rs = record_views(records@);
    let mut out: Vec<String> = Vec::new();
    let mut i: usize = 0;
    assert(views(out@) =~= all_recorded(rs, 0).map_values(|ns: Seq<char>| release(ns)));
    while i < records.len()
        invariant
            i <= records@.len(),
            rs == record_views(records@),
            views(out@) == all_recorded(rs, i as int).map_values(|ns: Seq<char>| release(ns)),
        decreases records@.len() - i,
    {
        assert(rs[i as int] == records@[i as int]@);
        let held = record_lines(records[i].text.as_str());
        let ghost here = recorded(rs[i as int].text);
        let ghost start = views(out@);
        let mut k: usize = 0;
        while k < held.len()
            invariant
                k <= held@.len(),
                here == views(held@),
                views(out@) == start + here.take(k as int).map_values(
                    |ns: Seq<char>| release(ns),
                ),
            decreases held@.len() - k,
        {
            let ghost before = out@;
            let script = release_script(held[k].as_str());
            let ghost seen = script@;
            assert(here[k as int] == held@[k as int]@);
            out.push(script);
            assert(views(out@) =~= views(before).push(seen));
            assert(views(out@) =~= start + here.take(k + 1).map_values(
                |ns: Seq<char>| release(ns),
            ));
            k = k + 1;
        }
        assert(here.take(here.len() as int) =~= here);
        assert(views(out@) =~= all_recorded(rs, i + 1).map_values(|ns: Seq<char>| release(ns)));
        i = i + 1;
    }
    out
}

/// What is said of a command that failed: what it wrote to stderr, or else how it ended.
pub open spec fn script_failure(stderr: Seq<char>, status: Seq<char>) -> Seq<char> {
    if trimmed(stderr).len() > 0 {
        trimmed(stderr)
    } else {
        "powershell exited with "@ + status
    }
}

/// What is said of a command that failed.
pub fn failure_text(stderr: &str, status: &str) -> (r: String)
    ensures
        r@ == script_failure(stderr@, status@),
{
    let msg = trim(stderr);
    if !msg.as_str().is_empty() {
        return msg;
    }
    let mut s = "powershell exited with ".to_owned();
    s.append(status);
    s
}

/// A connection is only ever granted what is free.
pub proof fn law_granted_is_free(
    records: Seq<RecordView>,
    spoken_for: Seq<Seq<char>>,
    me: Seq<char>,
    want: Seq<Seq<char>>,
    n: int,
)
    requires
        0 <= n <= want.len(),
    ensures
        forall|i: int|
            0 <= i < granted(records, spoken_for, me, want, n).len() ==> is_free(
                records,
                spoken_for,
                me,
                #[trigger] granted(records, spoken_for, me, want, n)[i],
            ) && want.contains(granted(records, spoken_for, me, want, n)[i]),
    decreases n,
{
    if n > 0 {
        law_granted_is_free(records, spoken_for, me, want, n - 1);
        let p = granted(records, spoken_for, me, want, n - 1);
        let r = granted(records, spoken_for, me, want, n);
        assert forall|i: int| 0 <= i < r.len() implies is_free(
            records,
            spoken_for,
            me,
            #[trigger] r[i],
        ) && want.contains(r[i]) by {
            if i < p.len() {
                assert(r[i] == p[i]);
            } else {
                assert(r[i] == want[n - 1]);
            }
        }
    }
}

/// A connection whose namespace is free gets it, and only it.
pub proof fn law_free_namespace_is_claimed(
    conn: Seq<char>,
    servers: Seq<Ipv4Addr>,
    domain: Option<Seq<char>>,
    subnets: Seq<Seq<char>>,
    spoken_for: Seq<Seq<char>>,
    records: Seq<RecordView>,
)
    requires
        servers.len() > 0,
        is_free(records, spoken_for, masked(conn), namespace_of(domain)),
    ensures
        ({
            let ns = namespace_of(domain);
            let plan = planned(conn, servers, domain, subnets, spoken_for, records);
            plan.scripts == seq![claim(ns, servers)] && plan.record == Some(ns)
        }),
{
    let ns = namespace_of(domain);
    let me = masked(conn);
    let want = asked(records, spoken_for, me, ns, subnets);
    assert(want == seq![ns]);
    reveal_with_fuel(granted, 2);
    let mine = granted(records, spoken_for, me, want, 1);
    assert(mine =~= seq![ns]);
    assert(mine.map_values(|ns: Seq<char>| claim(ns, servers)) =~= seq![claim(ns, servers)]);
}

/// A domain that another connection resolves is left to it: nothing is run and nothing recorded.
pub proof fn law_taken_domain_is_left_alone(
    conn: Seq<char>,
    servers: Seq<Ipv4Addr>,
    domain: Option<Seq<char>>,
    subnets: Seq<Seq<char>>,
    spoken_for: Seq<Seq<char>>,
    records: Seq<RecordView>,
)
    requires
        namespace_of(domain) != CATCH_ALL@,
        !is_free(records, spoken_for, masked(conn), namespace_of(domain)),
    ensures
        ({
            let plan = planned(conn, servers, domain, subnets, spoken_for, records);
            plan.scripts.len() == 0 && plan.record is None
        }),
{
    let ns = namespace_of(domain);
    reveal_with_fuel(granted, 2);
    assert(granted(records, spoken_for, masked(conn), seq![ns], 1) =~= Seq::empty());
}

proof fn lemma_precedes_not_itself(a: Seq<char>)
    ensures
        !precedes(a, a),
    decreases a.len(),
{
    if a.len() > 0 {
        lemma_precedes_not_itself(a.skip(1));
    }
}

proof fn lemma_precedes_chains(a: Seq<char>, b: Seq<char>, c: Seq<char>)
    requires
        precedes(a, b),
        precedes(b, c),
    ensures
        precedes(a, c),
    decreases a.len(),
{
    if a.len() > 0 && a[0] == b[0] && b[0] == c[0] {
        lemma_precedes_chains(a.skip(1), b.skip(1), c.skip(1));
    }
}

proof fn lemma_precedes_decides(a: Seq<char>, b: Seq<char>)
    ensures
        a == b || precedes(a, b) || precedes(b, a),
    decreases a.len(),
{
    if a.len() == 0 {
        if b.len() == 0 {
            assert(a =~= b);
        }
    } else if b.len() > 0 && a[0] == b[0] {
        lemma_precedes_decides(a.skip(1), b.skip(1));
        if a.skip(1) == b.skip(1) {
            assert(a =~= seq![a[0]] + a.skip(1));
            assert(b =~= seq![b[0]] + b.skip(1));
        }
    }
}

/// Whether the texts come in order, each once.
pub open spec fn in_order(z: Seq<Seq<char>>) -> bool {
    forall|i: int, j: int| 0 <= i < j < z.len() ==> precedes(#[trigger] z[i], #[trigger] z[j])
}

proof fn lemma_placed_in_order(z: Seq<Seq<char>>, x: Seq<char>)
    requires
        in_order(z),
    ensures
        in_order(placed(z, x)),
        forall|y: Seq<char>| #[trigger] placed(z, x).contains(y) <==> y == x || z.contains(y),
    decreases z.len(),
{
    let r = placed(z, x);
    if z.len() == 0 {
        assert(r[0] == x);
    } else if z[0] == x {
        assert(z.contains(x));
    } else if precedes(x, z[0]) {
        assert forall|i: int, j: int| 0 <= i < j < r.len() implies precedes(
            #[trigger] r[i],
            #[trigger] r[j],
        ) by {
            assert(r[j] == z[j - 1]);
            if i > 0 {
                assert(r[i] == z[i - 1]);
            } else if j > 1 {
                lemma_precedes_chains(x, z[0], z[j - 1]);
            }
        }
        assert forall|y: Seq<char>| #[trigger] r.contains(y) <==> y == x || z.contains(y) by {
            if r.contains(y) {
                let k = choose|k: int| 0 <= k < r.len() && r[k] == y;
                if k > 0 {
                    assert(z[k - 1] == y);
                }
            }
            if y == x {
                assert(r[0] == y);
            }
            if z.contains(y) {
                let k = choose|k: int| 0 <= k < z.len() && z[k] == y;
                assert(r[k + 1] == y);
            }
        }
    } else {
        let t = z.skip(1);
        assert forall|i: int, j: int| 0 <= i < j < t.len() implies precedes(
            #[trigger] t[i],
            #[trigger] t[j],
        ) by {
            assert(t[i] == z[i + 1] && t[j] == z[j + 1]);
        }
        lemma_placed_in_order(t, x);
        let p = placed(t, x);
        lemma_precedes_decides(x, z[0]);
        assert forall|i: int, j: int| 0 <= i < j < r.len() implies precedes(
            #[trigger] r[i],
            #[trigger] r[j],
        ) by {
            assert(r[j] == p[j - 1]);
            if i > 0 {
                assert(r[i] == p[i - 1]);
            } else {
                assert(p.contains(p[j - 1]));
                if p[j - 1] != x {
                    let k = choose|k: int| 0 <= k < t.len() && t[k] == p[j - 1];
                    assert(t[k] == z[k + 1]);
                }
            }
        }
        assert forall|y: Seq<char>| #[trigger] r.contains(y) <==> y == x || z.contains(y) by {
            if r.contains(y) {
                let k = choose|k: int| 0 <= k < r.len() && r[k] == y;
                if k > 0 {
                    assert(p[k - 1] == y);
                    assert(p.contains(y));
                    if y != x {
                        let m = choose|m: int| 0 <= m < t.len() && t[m] == y;
                        assert(z[m + 1] == y);
                    }
                }
            }
            if y == x || z.contains(y) {
                if y == z[0] {
                    assert(r[0] == y);
                } else {
                    if z.contains(y) {
                        let m = choose|m: int| 0 <= m < z.len() && z[m] == y;
                        assert(t[m - 1] == y);
                    }
                    assert(p.contains(y));
                    let k = choose|k: int| 0 <= k < p.len() && p[k] == y;
                    assert(r[k + 1] == y);
                }
            }
        }
    }
}

/// The reverse zones of some networks are exactly those of each of them, in order and each once.
pub proof fn law_zones_in_order(subnets: Seq<Seq<char>>, n: int)
    requires
        0 <= n <= subnets.len(),
    ensures
        in_order(zones_of(subnets, n)),
        zones_of(subnets, n).no_duplicates(),
        forall|z: Seq<char>| #[trigger]
            zones_of(subnets, n).contains(z) <==> exists|k: int|
                0 <= k < n && zone_of(#[trigger] subnets[k]) == Some(z),
    decreases n,
{
    if n > 0 {
        law_zones_in_order(subnets, n - 1);
        let p = zones_of(subnets, n - 1);
        let r = zones_of(subnets, n);
        match zone_of(subnets[n - 1]) {
            Some(x) => {
                lemma_placed_in_order(p, x);
            },
            None => {},
        }
        assert forall|z: Seq<char>| #[trigger] r.contains(z) <==> exists|k: int|
            0 <= k < n && zone_of(#[trigger] subnets[k]) == Some(z) by {
            if r.contains(z) {
                if zone_of(subnets[n - 1]) != Some(z) {
                    assert(p.contains(z));
                    let k = choose|k: int|
                        0 <= k < n - 1 && zone_of(#[trigger] subnets[k]) == Some(z);
                    assert(zone_of(subnets[k]) == Some(z));
                } else {
                    assert(zone_of(subnets[n - 1]) == Some(z));
                }
            }
            if exists|k: int| 0 <= k < n && zone_of(#[trigger] subnets[k]) == Some(z) {
                let k = choose|k: int| 0 <= k < n && zone_of(#[trigger] subnets[k]) == Some(z);
                if k < n - 1 {
                    assert(zone_of(subnets[k]) == Some(z));
                    assert(p.contains(z));
                }
            }
        }
    }
    let r = zones_of(subnets, n);
    assert forall|i: int, j: int| 0 <= i < j < r.len() implies r[i] != r[j] by {
        lemma_precedes_not_itself(r[i]);
    }
}

/// A namespace that can be written into a command: nothing but the characters of DNS labels and
/// dots.
pub open spec fn is_plain(ns: Seq<char>) -> bool {
    ns.len() > 0 && is_dns_text(ns)
}

proof fn lemma_labels_are_plain(octets: Seq<nat>, keep: int)
    ensures
        is_dns_text(reversed_labels(octets, keep)),
    decreases keep,
{
    if keep > 0 {
        let o = octets[if keep == 1 {
            0
        } else {
            keep - 1
        }];
        lemma_decimal(o);
        let d = decimal(o);
        assert forall|i: int| 0 <= i < d.len() implies is_dns_char(#[trigger] d[i]) by {
            assert(is_digit(d[i]));
        }
        if keep > 1 {
            lemma_labels_are_plain(octets, keep - 1);
            reveal_strlit(".");
            let rest = reversed_labels(octets, keep - 1);
            let whole = reversed_labels(octets, keep);
            assert forall|i: int| 0 <= i < whole.len() implies is_dns_char(
                #[trigger] whole[i],
            ) by {
                if i < d.len() {
                    assert(whole[i] == d[i]);
                } else if i > d.len() {
                    assert(whole[i] == rest[i - d.len() - 1]);
                }
            }
        }
    }
}

proof fn lemma_zone_is_plain(cidr: Seq<char>)
    ensures
        zone_of(cidr) matches Some(z) ==> is_plain(z),
{
    let slash = index_of(cidr, '/');
    let parts = split_on(trimmed(cidr.take(slash)), '.');
    match zone_of(cidr) {
        Some(z) => {
            let prefix = number_up_to(trimmed(cidr.skip(slash + 1)), 255)->0;
            let octets = octets_of(parts, parts.len() as int)->0;
            let labels = reversed_labels(octets, prefix as int / 8);
            lemma_labels_are_plain(octets, prefix as int / 8);
            reveal_strlit(".");
            reveal_strlit(".in-addr.arpa");
            let tail = ".in-addr.arpa"@;
            assert forall|i: int| 0 <= i < z.len() implies is_dns_char(#[trigger] z[i]) by {
                if 1 <= i < 1 + labels.len() {
                    assert(z[i] == labels[i - 1]);
                } else if i >= 1 + labels.len() {
                    assert(z[i] == tail[i - 1 - labels.len()]);
                }
            }
        },
        None => {},
    }
}

proof fn lemma_without_leading_plain(s: Seq<char>, c: char)
    requires
        is_dns_text(s),
    ensures
        is_dns_text(without_leading(s, c)),
    decreases s.len(),
{
    if s.len() > 0 && s[0] == c {
        let t = s.skip(1);
        assert forall|i: int| 0 <= i < t.len() implies is_dns_char(#[trigger] t[i]) by {
            assert(t[i] == s[i + 1]);
        }
        lemma_without_leading_plain(t, c);
    }
}

proof fn lemma_plain_ends(s: Seq<char>)
    requires
        is_dns_text(s),
    ensures
        trimmed(s) == s,
{
    if s.len() > 0 {
        assert(is_dns_char(s[0]));
        assert(is_dns_char(s[s.len() - 1]));
    }
    lemma_trimmed_stays(s);
}

/// Whatever namespace a checked request is granted, it can be written into a command: no request
/// can smuggle anything into one.
pub proof fn law_granted_is_plain(
    records: Seq<RecordView>,
    spoken_for: Seq<Seq<char>>,
    me: Seq<char>,
    domain: Option<Seq<char>>,
    subnets: Seq<Seq<char>>,
)
    requires
        domain matches Some(d) ==> is_dns_text(d),
    ensures
        ({
            let want = asked(records, spoken_for, me, namespace_of(domain), subnets);
            let mine = granted(records, spoken_for, me, want, want.len() as int);
            forall|i: int| 0 <= i < mine.len() ==> is_plain(#[trigger] mine[i])
        }),
{
    let ns = namespace_of(domain);
    let want = asked(records, spoken_for, me, ns, subnets);
    let n = want.len() as int;
    let mine = granted(records, spoken_for, me, want, n);
    law_granted_is_free(records, spoken_for, me, want, n);
    law_zones_in_order(subnets, subnets.len() as int);
    reveal_strlit(".");
    match domain {
        Some(d) => {
            lemma_plain_ends(d);
            lemma_without_leading_plain(d, '.');
            let t = without_leading(d, '.');
            if d.len() > 0 {
                assert forall|i: int| 0 <= i < ns.len() implies is_dns_char(#[trigger] ns[i]) by {
                    if i > 0 {
                        assert(ns[i] == t[i - 1]);
                    }
                }
            }
        },
        None => {},
    }
    assert(is_plain(ns));
    assert forall|i: int| 0 <= i < mine.len() implies is_plain(#[trigger] mine[i]) by {
        assert(want.contains(mine[i]));
        if want != seq![ns] {
            assert(zones_of(subnets, subnets.len() as int).contains(mine[i]));
            let k = choose|k: int|
                0 <= k < subnets.len() && zone_of(#[trigger] subnets[k]) == Some(mine[i]);
            lemma_zone_is_plain(subnets[k]);
        }
    }
}

proof fn lemma_filled_stays(v: Seq<Seq<char>>, n: int)
    requires
        0 <= n <= v.len(),
        forall|i: int| 0 <= i < v.len() ==> is_plain(#[trigger] v[i]),
    ensures
        filled(v, n) == v.take(n),
    decreases n,
{
    if n > 0 {
        lemma_filled_stays(v, n - 1);
        lemma_plain_ends(v[n - 1]);
        assert(v.take(n - 1).push(v[n - 1]) =~= v.take(n));
    } else {
        assert(v.take(0) =~= Seq::empty());
    }
}

/// The record of what was granted reads back as exactly that.
pub proof fn law_record_reads_back(mine: Seq<Seq<char>>)
    requires
        mine.len() > 0,
        forall|i: int| 0 <= i < mine.len() ==> is_plain(#[trigger] mine[i]),
    ensures
        recorded(join_all(mine, "\n"@)) == mine,
{
    reveal_strlit("\n");
    let n = mine.len() as int;
    assert("\n"@ =~= seq!['\n']);
    assert forall|i: int, k: int| 0 <= i < n && 0 <= k < mine[i].len() implies #[trigger] mine[i][k]
        != '\n' by {
        assert(is_plain(mine[i]));
        assert(is_dns_char(mine[i][k]));
    }
    lemma_split_of_joined(mine, '\n', n);
    assert(mine.take(n) =~= mine);
    let text = join_all(mine, "\n"@);
    assert(is_plain(mine[n - 1]));
    let ls = lines_of(text);
    assert forall|i: int| 0 <= i < n implies #[trigger] ls[i] == mine[i] by {
        assert(is_plain(mine[i]));
        assert(is_dns_char(mine[i][mine[i].len() - 1]));
    }
    assert(ls =~= mine);
    lemma_filled_stays(mine, n);
}

proof fn lemma_released_all(
    records: Seq<RecordView>,
    me: Seq<char>,
    held: Seq<Seq<char>>,
    n: int,
)
    requires
        0 <= n <= held.len(),
        forall|i: int|
            0 <= i < held.len() ==> is_free(records, Seq::empty(), me, #[trigger] held[i]),
    ensures
        released(records, me, held, n) == held.take(n),
    decreases n,
{
    if n > 0 {
        lemma_released_all(records, me, held, n - 1);
        assert(held.take(n - 1).push(held[n - 1]) =~= held.take(n));
    } else {
        assert(held.take(0) =~= Seq::empty());
    }
}

/// A revert removes exactly the rules that were granted, as long as no other connection has come
/// to hold one of them.
pub proof fn law_revert_undoes_apply(
    records: Seq<RecordView>,
    me: Seq<char>,
    mine: Seq<Seq<char>>,
)
    requires
        mine.len() > 0,
        forall|i: int| 0 <= i < mine.len() ==> is_plain(#[trigger] mine[i]),
        forall|i: int|
            0 <= i < mine.len() ==> is_free(records, Seq::empty(), me, #[trigger] mine[i]),
    ensures
        ({
            let held = recorded(join_all(mine, "\n"@));
            released(records, me, held, held.len() as int) == mine
        }),
{
    law_record_reads_back(mine);
    lemma_released_all(records, me, mine, mine.len() as int);
    assert(mine.take(mine.len() as int) =~= mine);
}

/// A revert never removes a rule that another connection holds.
pub proof fn law_revert_spares_others(
    records: Seq<RecordView>,
    me: Seq<char>,
    held: Seq<Seq<char>>,
    n: int,
)
    requires
        0 <= n <= held.len(),
    ensures
        forall|i: int|
            0 <= i < released(records, me, held, n).len() ==> is_free(
                records,
                Seq::empty(),
                me,
                #[trigger] released(records, me, held, n)[i],
            ),
    decreases n,
{
    if n > 0 {
        law_revert_spares_others(records, me, held, n - 1);
        let p = released(records, me, held, n - 1);
        let r = released(records, me, held, n);
        assert forall|i: int| 0 <= i < r.len() implies is_free(
            records,
            Seq::empty(),
            me,
            #[trigger] r[i],
        ) by {
            if i < p.len() {
                assert(r[i] == p[i]);
            }
        }
    }
}

/// The record of a checked request names exactly the namespaces that its commands claim.
pub proof fn law_record_names_what_is_claimed(
    conn: Seq<char>,
    servers: Seq<Ipv4Addr>,
    domain: Option<Seq<char>>,
    subnets: Seq<Seq<char>>,
    spoken_for: Seq<Seq<char>>,
    records: Seq<RecordView>,
)
    requires
        domain matches Some(d) ==> is_dns_text(d),
    ensures
        ({
            let plan = planned(conn, servers, domain, subnets, spoken_for, records);
            match plan.record {
                Some(text) => plan.scripts == recorded(text).map_values(
                    |ns: Seq<char>| claim(ns, servers),
                ),
                None => plan.scripts.len() == 0,
            }
        }),
{
    let me = masked(conn);
    let want = asked(records, spoken_for, me, namespace_of(domain), subnets);
    let mine = granted(records, spoken_for, me, want, want.len() as int);
    law_granted_is_plain(records, spoken_for, me, domain, subnets);
    if mine.len() > 0 {
        law_record_reads_back(mine);
    }
}

/// A file name keeps ASCII letters, digits, `-` and `_` where they stand; every other character
/// becomes `_`.
pub proof fn law_file_name_is_character_by_character(conn: Seq<char>)
    ensures
        masked(conn).len() == conn.len(),
        forall|i: int|
            0 <= i < conn.len() ==> {
                let c = conn[i];
                let plain = 'a' <= c <= 'z' || 'A' <= c <= 'Z' || '0' <= c <= '9' || c == '-' || c
                    == '_';
                (plain ==> #[trigger] masked(conn)[i] == c) && (!plain ==> masked(conn)[i] == '_')
            },
{
}

/// A domain stands for the names under it, with or without a dot in front; none, or a blank one,
/// for all names.
pub proof fn law_domain_stands_for_its_names(d: Seq<char>)
    ensures
        namespace_of(None) == "."@,
        trimmed(d).len() == 0 ==> namespace_of(Some(d)) == "."@,
        trimmed(d).len() > 0 && trimmed(d)[0] != '.' ==> namespace_of(Some(d)) == "."@ + trimmed(d),
        trimmed(d).len() > 1 && trimmed(d)[0] == '.' && trimmed(d)[1] != '.' ==> namespace_of(
            Some(d),
        ) == trimmed(d),
{
    let t = trimmed(d);
    reveal_strlit(".");
    if t.len() > 1 && t[0] == '.' && t[1] != '.' {
        reveal_with_fuel(without_leading, 2);
        assert("."@ + t.skip(1) =~= t);
    }
}

/// The reverse-lookup zone of a network names as many octets as its prefix covers whole, last
/// first. A prefix shorter than an octet has none.
pub proof fn law_zone_is_the_reversed_network(x: Ipv4Addr, prefix: nat)
    requires
        prefix <= 32,
    ensures
        ({
            let zone = zone_of(x.dotted() + "/"@ + decimal(prefix));
            let end = ".in-addr.arpa"@;
            &&& prefix < 8 ==> zone is None
            &&& 8 <= prefix < 16 ==> zone == Some("."@ + decimal(x.a()) + end)
            &&& 16 <= prefix < 24 ==> zone == Some(
                "."@ + decimal(x.b()) + "."@ + decimal(x.a()) + end,
            )
            &&& 24 <= prefix < 32 ==> zone == Some(
                "."@ + decimal(x.c()) + "."@ + decimal(x.b()) + "."@ + decimal(x.a()) + end,
            )
            &&& prefix == 32 ==> zone == Some(
                "."@ + decimal(x.d()) + "."@ + decimal(x.c()) + "."@ + decimal(x.b()) + "."@
                    + decimal(x.a()) + end,
            )
        }),
{
    let cidr = x.dotted() + "/"@ + decimal(prefix);
    let octets = seq![x.a(), x.b(), x.c(), x.d()];
    let parts = seq![decimal(x.a()), decimal(x.b()), decimal(x.c()), decimal(x.d())];
    lemma_dotted_parts(x);
    lemma_network_parts(x.dotted(), prefix);
    lemma_octets(x.a(), x.b(), x.c(), x.d());
    assert(octets_of(parts, parts.len() as int) == Some(octets));
    assert(prefix < 8 ==> zone_of(cidr) is None);
    assert(prefix >= 8 ==> zone_of(cidr) == Some(
        "."@ + reversed_labels(octets, prefix as int / 8) + ".in-addr.arpa"@,
    ));
    lemma_labels(octets);
}

proof fn lemma_octets(a: nat, b: nat, c: nat, d: nat)
    requires
        a <= 255,
        b <= 255,
        c <= 255,
        d <= 255,
    ensures
        octets_of(seq![decimal(a), decimal(b), decimal(c), decimal(d)], 4) == Some(
            seq![a, b, c, d],
        ),
{
    let v = seq![decimal(a), decimal(b), decimal(c), decimal(d)];
    lemma_number_text(a);
    lemma_number_text(b);
    lemma_number_text(c);
    lemma_number_text(d);
    assert(octets_of(v, 0) == Some(Seq::<nat>::empty()));
    assert(octets_of(v, 1) == Some(Seq::<nat>::empty().push(a)));
    assert(octets_of(v, 2) == Some(Seq::<nat>::empty().push(a).push(b)));
    assert(octets_of(v, 3) == Some(Seq::<nat>::empty().push(a).push(b).push(c)));
    assert(Seq::<nat>::empty().push(a).push(b).push(c).push(d) =~= seq![a, b, c, d]);
}

proof fn lemma_labels(o: Seq<nat>)
    requires
        o.len() == 4,
    ensures
        ({
            let end = ".in-addr.arpa"@;
            &&& "."@ + reversed_labels(o, 1) + end == "."@ + decimal(o[0]) + end
            &&& "."@ + reversed_labels(o, 2) + end == "."@ + decimal(o[1]) + "."@ + decimal(o[0])
                + end
            &&& "."@ + reversed_labels(o, 3) + end == "."@ + decimal(o[2]) + "."@ + decimal(o[1])
                + "."@ + decimal(o[0]) + end
            &&& "."@ + reversed_labels(o, 4) + end == "."@ + decimal(o[3]) + "."@ + decimal(o[2])
                + "."@ + decimal(o[1]) + "."@ + decimal(o[0]) + end
        }),
{
    let end = ".in-addr.arpa"@;
    let one = reversed_labels(o, 1);
    let two = reversed_labels(o, 2);
    let three = reversed_labels(o, 3);
    let four = reversed_labels(o, 4);
    assert(one == decimal(o[0]));
    assert(two == decimal(o[1]) + "."@ + one);
    assert(three == decimal(o[2]) + "."@ + two);
    assert(four == decimal(o[3]) + "."@ + three);
    lemma_regroup(decimal(o[1]), one, end);
    lemma_regroup(decimal(o[2]), two, end);
    lemma_regroup(decimal(o[3]), three, end);
    assert("."@ + decimal(o[2]) + "."@ + (decimal(o[1]) + "."@ + one) =~= "."@ + decimal(o[2])
        + "."@ + decimal(o[1]) + "."@ + one);
    assert("."@ + decimal(o[3]) + "."@ + (decimal(o[2]) + "."@ + two) =~= "."@ + decimal(o[3])
        + "."@ + decimal(o[2]) + "."@ + two);
    assert("."@ + decimal(o[3]) + "."@ + decimal(o[2]) + "."@ + (decimal(o[1]) + "."@ + one)
        =~= "."@ + decimal(o[3]) + "."@ + decimal(o[2]) + "."@ + decimal(o[1]) + "."@ + one);
}

proof fn lemma_regroup(label: Seq<char>, rest: Seq<char>, end: Seq<char>)
    ensures
        "."@ + (label + "."@ + rest) + end == "."@ + label + "."@ + rest + end,
{
    assert("."@ + (label + "."@ + rest) + end =~= "."@ + label + "."@ + rest + end);
}

proof fn lemma_dotted_parts(x: Ipv4Addr)
    ensures
        split_on(x.dotted(), '.') == seq![
            decimal(x.a()),
            decimal(x.b()),
            decimal(x.c()),
            decimal(x.d()),
        ],
        x.dotted().len() > 0,
        forall|k: int|
            0 <= k < x.dotted().len() ==> #[trigger] x.dotted()[k] != '/' && !crate::text::is_space(
                x.dotted()[k],
            ),
        x.a() <= 255,
        x.b() <= 255,
        x.c() <= 255,
        x.d() <= 255,
{
    reveal_strlit(".");
    let dot = seq!['.'];
    assert("."@ =~= dot);
    let (a, b, c, d) = (x.a(), x.b(), x.c(), x.d());
    assert(a <= 255 && b <= 255 && c <= 255 && d <= 255);
    lemma_number_text(a);
    lemma_number_text(b);
    lemma_number_text(c);
    lemma_number_text(d);
    let v = seq![decimal(a), decimal(b), decimal(c), decimal(d)];
    assert forall|i: int, k: int| 0 <= i < 4 && 0 <= k < v[i].len() implies #[trigger] v[i][k]
        != '.' by {}
    lemma_split_of_joined(v, '.', 4);
    assert(v.take(4) =~= v);
    reveal_with_fuel(crate::text::joined, 5);
    assert(crate::text::joined(v, dot, 4) =~= x.dotted());
}

proof fn lemma_network_parts(text: Seq<char>, prefix: nat)
    requires
        prefix <= 32,
        text.len() > 0,
        forall|k: int|
            0 <= k < text.len() ==> #[trigger] text[k] != '/' && !crate::text::is_space(text[k]),
    ensures
        ({
            let cidr = text + "/"@ + decimal(prefix);
            &&& index_of(cidr, '/') == text.len()
            &&& text.len() < cidr.len()
            &&& trimmed(cidr.take(text.len() as int)) == text
            &&& number_up_to(trimmed(cidr.skip(text.len() as int + 1)), 255) == Some(prefix)
        }),
{
    reveal_strlit("/");
    let cidr = text + "/"@ + decimal(prefix);
    lemma_number_text(prefix);
    assert(cidr[text.len() as int] == '/');
    assert forall|k: int| 0 <= k < text.len() implies cidr[k] != '/' by {
        assert(cidr[k] == text[k]);
    }
    crate::text::lemma_index_of(cidr, '/', text.len() as int);
    assert(cidr.take(text.len() as int) =~= text);
    assert(cidr.skip(text.len() as int + 1) =~= decimal(prefix));
    lemma_trimmed_stays(text);
    lemma_trimmed_stays(decimal(prefix));
}

proof fn lemma_number_text(n: nat)
    requires
        n <= 255,
    ensures
        number_up_to(decimal(n), 255) == Some(n),
        decimal(n).len() > 0,
        forall|k: int|
            0 <= k < decimal(n).len() ==> #[trigger] decimal(n)[k] != '.' && decimal(n)[k] != '/'
                && !crate::text::is_space(decimal(n)[k]),
{
    crate::text::law_number_reads_back(n, 255);
    lemma_decimal(n);
    assert forall|k: int| 0 <= k < decimal(n).len() implies #[trigger] decimal(n)[k] != '.'
        && decimal(n)[k] != '/' && !crate::text::is_space(decimal(n)[k]) by {
        assert(is_digit(decimal(n)[k]));
    }
}

/// Whether the record at `i` is the first that names the namespace on a line of its own.
pub open spec fn is_first_holder(records: Seq<RecordView>, ns: Seq<char>, i: int) -> bool {
    0 <= i < records.len() && names(records[i].text, ns) && forall|k: int|
        0 <= k < i ==> !names((#[trigger] records[k]).text, ns)
}

proof fn lemma_holder(records: Seq<RecordView>, ns: Seq<char>, i: int)
    requires
        0 <= i <= records.len(),
        forall|k: int| 0 <= k < i ==> !names((#[trigger] records[k]).text, ns),
    ensures
        match holder_from(records, ns, i) {
            Some(h) => exists|k: int| #[trigger]
                is_first_holder(records, ns, k) && records[k].owner == h,
            None => forall|k: int|
                0 <= k < records.len() ==> !names((#[trigger] records[k]).text, ns),
        },
    decreases records.len() - i,
{
    if i < records.len() {
        if names(records[i].text, ns) {
            assert(is_first_holder(records, ns, i));
        } else {
            lemma_holder(records, ns, i + 1);
        }
    }
}

/// A namespace is free for a connection when no other datapath speaks for it, and either no
/// record names it or the first that does is the connection's own.
pub proof fn law_namespace_belongs_to_the_first(
    records: Seq<RecordView>,
    spoken_for: Seq<Seq<char>>,
    me: Seq<char>,
    ns: Seq<char>,
    i: int,
)
    ensures
        spoken_for.contains(ns) ==> !is_free(records, spoken_for, me, ns),
        !spoken_for.contains(ns) && (forall|k: int|
            0 <= k < records.len() ==> !names((#[trigger] records[k]).text, ns)) ==> is_free(
            records,
            spoken_for,
            me,
            ns,
        ),
        !spoken_for.contains(ns) && is_first_holder(records, ns, i) ==> (is_free(
            records,
            spoken_for,
            me,
            ns,
        ) <==> records[i].owner == me),
{
    lemma_holder(records, ns, 0);
    if is_first_holder(records, ns, i) {
        let h = holder_from(records, ns, 0);
        assert(h is Some);
        let k = choose|k: int| #[trigger]
            is_first_holder(records, ns, k) && records[k].owner == h->0;
        assert(k == i) by {
            if k < i {
                assert(!names(records[k].text, ns));
            }
            if i < k {
                assert(!names(records[i].text, ns));
            }
        }
    }
}

proof fn lemma_granted_parts(
    records: Seq<RecordView>,
    spoken_for: Seq<Seq<char>>,
    me: Seq<char>,
    a: Seq<Seq<char>>,
    b: Seq<Seq<char>>,
    n: int,
)
    requires
        0 <= n <= (a + b).len(),
    ensures
        n <= a.len() ==> granted(records, spoken_for, me, a + b, n) == granted(
            records,
            spoken_for,
            me,
            a,
            n,
        ),
        n >= a.len() ==> granted(records, spoken_for, me, a + b, n) == granted(
            records,
            spoken_for,
            me,
            a,
            a.len() as int,
        ) + granted(records, spoken_for, me, b, n - a.len()),
    decreases n,
{
    if n > 0 {
        lemma_granted_parts(records, spoken_for, me, a, b, n - 1);
        if n <= a.len() {
            assert((a + b)[n - 1] == a[n - 1]);
        } else {
            assert((a + b)[n - 1] == b[n - 1 - a.len()]);
        }
    }
    if n >= a.len() {
        assert(granted(records, spoken_for, me, a + b, n) =~= granted(
            records,
            spoken_for,
            me,
            a,
            a.len() as int,
        ) + granted(records, spoken_for, me, b, n - a.len()));
    }
}

/// Each namespace is granted or not on its own, and the order stays.
pub proof fn law_each_namespace_is_granted_on_its_own(
    records: Seq<RecordView>,
    spoken_for: Seq<Seq<char>>,
    me: Seq<char>,
    a: Seq<Seq<char>>,
    b: Seq<Seq<char>>,
    ns: Seq<char>,
)
    ensures
        granted(records, spoken_for, me, a + b, (a + b).len() as int) == granted(
            records,
            spoken_for,
            me,
            a,
            a.len() as int,
        ) + granted(records, spoken_for, me, b, b.len() as int),
        granted(records, spoken_for, me, seq![ns], 1) == (if is_free(
            records,
            spoken_for,
            me,
            ns,
        ) {
            seq![ns]
        } else {
            Seq::empty()
        }),
{
    lemma_granted_parts(records, spoken_for, me, a, b, (a + b).len() as int);
    reveal_with_fuel(granted, 2);
}

proof fn lemma_released_parts(
    records: Seq<RecordView>,
    me: Seq<char>,
    a: Seq<Seq<char>>,
    b: Seq<Seq<char>>,
    n: int,
)
    requires
        0 <= n <= (a + b).len(),
    ensures
        n <= a.len() ==> released(records, me, a + b, n) == released(records, me, a, n),
        n >= a.len() ==> released(records, me, a + b, n) == released(
            records,
            me,
            a,
            a.len() as int,
        ) + released(records, me, b, n - a.len()),
    decreases n,
{
    if n > 0 {
        lemma_released_parts(records, me, a, b, n - 1);
        if n <= a.len() {
            assert((a + b)[n - 1] == a[n - 1]);
        } else {
            assert((a + b)[n - 1] == b[n - 1 - a.len()]);
        }
    }
    if n >= a.len() {
        assert(released(records, me, a + b, n) =~= released(records, me, a, a.len() as int)
            + released(records, me, b, n - a.len()));
    }
}

/// Each recorded namespace is released or not on its own, and the order stays: it is unless the
/// first record that names it is another connection's.
pub proof fn law_each_namespace_is_released_on_its_own(
    records: Seq<RecordView>,
    me: Seq<char>,
    a: Seq<Seq<char>>,
    b: Seq<Seq<char>>,
    ns: Seq<char>,
    i: int,
)
    ensures
        released(records, me, a + b, (a + b).len() as int) == released(
            records,
            me,
            a,
            a.len() as int,
        ) + released(records, me, b, b.len() as int),
        is_first_holder(records, ns, i) && records[i].owner != me ==> released(
            records,
            me,
            seq![ns],
            1,
        ).len() == 0,
        is_first_holder(records, ns, i) && records[i].owner == me ==> released(
            records,
            me,
            seq![ns],
            1,
        ) == seq![ns],
        (forall|k: int| 0 <= k < records.len() ==> !names((#[trigger] records[k]).text, ns))
            ==> released(records, me, seq![ns], 1) == seq![ns],
{
    lemma_released_parts(records, me, a, b, (a + b).len() as int);
    law_namespace_belongs_to_the_first(records, Seq::empty(), me, ns, i);
    reveal_with_fuel(released, 2);
    assert(!Seq::<Seq<char>>::empty().contains(ns));
}

proof fn lemma_recorded_parts(a: Seq<RecordView>, b: Seq<RecordView>, n: int)
    requires
        0 <= n <= (a + b).len(),
    ensures
        n <= a.len() ==> all_recorded(a + b, n) == all_recorded(a, n),
        n >= a.len() ==> all_recorded(a + b, n) == all_recorded(a, a.len() as int) + all_recorded(
            b,
            n - a.len(),
        ),
    decreases n,
{
    if n > 0 {
        lemma_recorded_parts(a, b, n - 1);
        if n <= a.len() {
            assert((a + b)[n - 1] == a[n - 1]);
        } else {
            assert((a + b)[n - 1] == b[n - 1 - a.len()]);
        }
    }
    if n >= a.len() {
        assert(all_recorded(a + b, n) =~= all_recorded(a, a.len() as int) + all_recorded(
            b,
            n - a.len(),
        ));
    }
}

/// Reverting everything goes through every record in order, and through every namespace of each.
pub proof fn law_every_record_is_reverted(
    a: Seq<RecordView>,
    b: Seq<RecordView>,
    owner: Seq<char>,
    mine: Seq<Seq<char>>,
)
    requires
        mine.len() > 0,
        forall|i: int| 0 <= i < mine.len() ==> is_plain(#[trigger] mine[i]),
    ensures
        all_recorded(a + b, (a + b).len() as int) == all_recorded(a, a.len() as int)
            + all_recorded(b, b.len() as int),
        all_recorded(seq![RecordView { owner, text: join_all(mine, "\n"@) }], 1) == mine,
{
    lemma_recorded_parts(a, b, (a + b).len() as int);
    law_record_reads_back(mine);
    reveal_with_fuel(all_recorded, 2);
    assert(all_recorded(seq![RecordView { owner, text: join_all(mine, "\n"@) }], 1) =~= mine);
}

/// The command for a namespace first removes its rules and then adds one that names every server,
/// each in quotes; the command that releases it only removes them.
pub proof fn law_commands_name_the_namespace(
    ns: Seq<char>,
    first: Ipv4Addr,
    rest: Seq<Ipv4Addr>,
)
    ensures
        claim(ns, seq![first])
            == "Get-DnsClientNrptRule | Where-Object { $_.Namespace -contains '"@ + ns
            + "' } | Remove-DnsClientNrptRule -Force -ErrorAction SilentlyContinue;"@
            + "Add-DnsClientNrptRule -Namespace '"@ + ns + "' -NameServers @("@ + ("'"@
            + first.dotted() + "'"@)
            + ");Clear-DnsClientCache -ErrorAction SilentlyContinue"@,
        rest.len() > 0 ==> claim(ns, seq![first] + rest)
            == "Get-DnsClientNrptRule | Where-Object { $_.Namespace -contains '"@ + ns
            + "' } | Remove-DnsClientNrptRule -Force -ErrorAction SilentlyContinue;"@
            + "Add-DnsClientNrptRule -Namespace '"@ + ns + "' -NameServers @("@ + ("'"@
            + first.dotted() + "'"@ + ","@ + join_all(
            Seq::new(rest.len(), |i: int| "'"@ + rest[i].dotted() + "'"@),
            ","@,
        )) + ");Clear-DnsClientCache -ErrorAction SilentlyContinue"@,
        release(ns) == "Get-DnsClientNrptRule | Where-Object { $_.Namespace -contains '"@ + ns
            + "' } | Remove-DnsClientNrptRule -Force -ErrorAction SilentlyContinue;"@
            + "Clear-DnsClientCache -ErrorAction SilentlyContinue"@,
{
    let one = seq!["'"@ + first.dotted() + "'"@];
    let others = Seq::new(rest.len(), |i: int| "'"@ + rest[i].dotted() + "'"@);
    assert(addresses(seq![first]).map_values(|s: Seq<char>| single_quoted(s)) =~= one);
    assert(addresses(seq![first] + rest).map_values(|s: Seq<char>| single_quoted(s)) =~= one
        + others);
    law_joining_keeps_every_text(one[0], one, others, ","@);
}

/// A command that failed is told by what it wrote, without the white space around it; one that
/// wrote nothing by how it ended.
pub proof fn law_failed_command_is_told(stderr: Seq<char>, status: Seq<char>)
    ensures
        trimmed(stderr).len() > 0 ==> script_failure(stderr, status) == trimmed(stderr),
        trimmed(stderr).len() == 0 ==> script_failure(stderr, status) == "powershell exited with "@
            + status,
{
}

proof fn lemma_zone_is_long(cidr: Seq<char>)
    ensures
        zone_of(cidr) matches Some(z) ==> z.len() > 1,
{
    reveal_strlit(".in-addr.arpa");
}

/// Without a server nothing is done. A domain of its own that is free is claimed and told; one
/// that is taken is left, and that is told. A connection that wants all names and finds them
/// taken claims the reverse zones of its networks that are free, one command for each in order,
/// records them line by line and says so; when none is free it leaves everything as it is.
pub proof fn law_plan_follows_what_is_free(
    conn: Seq<char>,
    servers: Seq<Ipv4Addr>,
    domain: Option<Seq<char>>,
    subnets: Seq<Seq<char>>,
    spoken_for: Seq<Seq<char>>,
    records: Seq<RecordView>,
)
    ensures
        ({
            let plan = planned(conn, servers, domain, subnets, spoken_for, records);
            let ns = namespace_of(domain);
            let me = masked(conn);
            let free = is_free(records, spoken_for, me, ns);
            let zones = zones_of(subnets, subnets.len() as int);
            let mine = granted(records, spoken_for, me, zones, zones.len() as int);
            let via = join_all(addresses(servers), ", "@);
            &&& servers.len() == 0 ==> plan.scripts.len() == 0 && plan.record is None
                && plan.summary.len() == 0
            &&& servers.len() > 0 && free && ns == "."@ ==> plan.summary
                == "DNS routed over the tunnel via "@ + via + " (all names)"@
            &&& servers.len() > 0 && free && ns != "."@ ==> plan.summary == "split-DNS: "@ + ("*"@
                + ns) + " resolves via "@ + via
            &&& servers.len() > 0 && !free && ns != "."@ ==> plan.scripts.len() == 0
                && plan.record is None && plan.summary
                == "DNS left as it is: another VPN already resolves *"@ + ns
            &&& servers.len() > 0 && !free && ns == "."@ && mine.len() == 0 ==> plan.scripts.len()
                == 0 && plan.record is None && plan.summary
                == "DNS left as it is: another VPN already resolves all names, and this profile names no DNS domain of its own to scope a rule to. Set one in the profile to resolve "@
                + via + "'s names alongside it."@
            &&& servers.len() > 0 && !free && ns == "."@ && mine.len() > 0 ==> {
                &&& plan.scripts.len() == mine.len()
                &&& forall|i: int|
                    0 <= i < mine.len() ==> #[trigger] plan.scripts[i] == claim(mine[i], servers)
                &&& plan.record == Some(join_all(mine, "\n"@))
                &&& plan.summary == "split-DNS: "@ + join_all(
                    Seq::new(mine.len(), |i: int| "*"@ + mine[i]),
                    ", "@,
                ) + " resolves via "@ + via
                    + " — another VPN already resolves all names, so only this network's own addresses were claimed. Set a DNS domain in the profile to resolve its names too."@
            }
        }),
{
    let plan = planned(conn, servers, domain, subnets, spoken_for, records);
    let ns = namespace_of(domain);
    let me = masked(conn);
    let zones = zones_of(subnets, subnets.len() as int);
    let mine = granted(records, spoken_for, me, zones, zones.len() as int);
    let one = granted(records, spoken_for, me, seq![ns], 1);
    law_each_namespace_is_granted_on_its_own(
        records,
        spoken_for,
        me,
        Seq::empty(),
        Seq::empty(),
        ns,
    );
    reveal_strlit(".");
    if is_free(records, spoken_for, me, ns) {
        let stars = one.map_values(|ns: Seq<char>| "*"@ + ns);
        assert(stars =~= seq!["*"@ + ns]);
        law_joining_keeps_every_text("*"@ + ns, stars, stars, ", "@);
    } else if ns == "."@ && mine.len() > 0 {
        law_granted_is_free(records, spoken_for, me, zones, zones.len() as int);
        law_zones_in_order(subnets, subnets.len() as int);
        assert(zones.contains(mine[0]));
        let k = choose|k: int|
            0 <= k < subnets.len() && zone_of(#[trigger] subnets[k]) == Some(mine[0]);
        lemma_zone_is_long(subnets[k]);
        assert(mine[0] != "."@);
        assert(mine.map_values(|ns: Seq<char>| "*"@ + ns) =~= Seq::new(
            mine.len(),
            |i: int| "*"@ + mine[i],
        ));
    }
}

} // verus!
