//! IPv4 addresses and networks: reading, printing and membership.

use crate::text::{
    all_digits, chars_of, decimal, digits_value, format_u64, is_digit, law_pieces_make_the_text, lemma_decimal,
    lemma_index_of, lemma_split_of_joined, lemma_trimmed_stays, number_up_to, parse_up_to, split,
    split_on, split_once, trim, trimmed, views,
};
use vstd::arithmetic::div_mod::{
    lemma_fundamental_div_mod, lemma_fundamental_div_mod_converse, lemma_mod_bound,
};
use vstd::arithmetic::power2::{
    lemma2_to64, lemma_pow2_pos, lemma_pow2_strictly_increases, lemma_pow2_unfold, pow2,
};
use vstd::bits::lemma_u32_shr_is_div;
use vstd::prelude::*;

verus! {

/// An IPv4 address, held as its 32-bit number.
#[derive(Debug, Clone, Copy, PartialEq, Eq, Structural)]
pub struct Ipv4Addr {
    pub bits: u32,
}

/// The 32-bit number of the address `a.b.c.d`.
pub open spec fn quad(a: int, b: int, c: int, d: int) -> int {
    ((a * 256 + b) * 256 + c) * 256 + d
}

/// The number that one part of a dotted quad denotes: one to three digits, no leading zero,
/// at most 255.
pub open spec fn octet_value(p: Seq<char>) -> Option<nat> {
    if 1 <= p.len() <= 3 && all_digits(p) && (p.len() == 1 || p[0] != '0') && digits_value(p)
        <= 255 {
        Some(digits_value(p))
    } else {
        None
    }
}

/// The address that a text denotes: four octets with dots between them.
pub open spec fn address(s: Seq<char>) -> Option<Ipv4Addr> {
    let p = split_on(s, '.');
    if p.len() == 4 && octet_value(p[0]) is Some && octet_value(p[1]) is Some && octet_value(
        p[2],
    ) is Some && octet_value(p[3]) is Some {
        Some(
            Ipv4Addr {
                bits: quad(
                    octet_value(p[0])->0 as int,
                    octet_value(p[1])->0 as int,
                    octet_value(p[2])->0 as int,
                    octet_value(p[3])->0 as int,
                ) as u32,
            },
        )
    } else {
        None
    }
}

impl Ipv4Addr {
    /// The first octet.
    pub open spec fn a(self) -> nat {
        (self.bits / 0x100_0000) as nat
    }

    /// The second octet.
    pub open spec fn b(self) -> nat {
        (self.bits / 0x1_0000 % 256) as nat
    }

    /// The third octet.
    pub open spec fn c(self) -> nat {
        (self.bits / 0x100 % 256) as nat
    }

    /// The fourth octet.
    pub open spec fn d(self) -> nat {
        (self.bits % 256) as nat
    }

    /// The dotted quad of the address.
    pub open spec fn dotted(self) -> Seq<char> {
        decimal(self.a()) + "."@ + decimal(self.b()) + "."@ + decimal(self.c()) + "."@ + decimal(
            self.d(),
        )
    }

    /// A private address: 10/8, 172.16/12 or 192.168/16.
    pub open spec fn private(self) -> bool {
        ||| self.a() == 10
        ||| self.a() == 172 && 16 <= self.b() <= 31
        ||| self.a() == 192 && self.b() == 168
    }

    /// An address that only answers from inside its own network: private, loopback (127/8)
    /// or link-local (169.254/16).
    pub open spec fn internal(self) -> bool {
        ||| self.private()
        ||| self.a() == 127
        ||| self.a() == 169 && self.b() == 254
    }

    /// Whether the address only answers from inside its own network.
    pub fn is_internal(&self) -> (r: bool)
        ensures
            r == self.internal(),
    {
        let a: u32 = self.bits / 0x100_0000;
        let b: u32 = self.bits / 0x1_0000 % 256;
        a == 10 || (a == 172 && 16 <= b && b <= 31) || (a == 192 && b == 168) || a == 127 || (a
            == 169 && b == 254)
    }

    /// The address `a.b.c.d`.
    pub fn new(a: u8, b: u8, c: u8, d: u8) -> (r: Ipv4Addr)
        ensures
            r.bits == quad(a as int, b as int, c as int, d as int),
    {
        Ipv4Addr {
            bits: ((a as u32 * 256 + b as u32) * 256 + c as u32) * 256 + d as u32,
        }
    }

    /// The four octets.
    pub fn octets(&self) -> (r: [u8; 4])
        ensures
            r@ == seq![self.a() as u8, self.b() as u8, self.c() as u8, self.d() as u8],
    {
        let r = [
            (self.bits / 0x100_0000) as u8,
            (self.bits / 0x1_0000 % 256) as u8,
            (self.bits / 0x100 % 256) as u8,
            (self.bits % 256) as u8,
        ];
        assert(r@ =~= seq![self.a() as u8, self.b() as u8, self.c() as u8, self.d() as u8]);
        r
    }

    /// Reads a dotted quad.
    pub fn parse(s: &str) -> (r: Option<Ipv4Addr>)
        ensures
            r == address(s@),
    {
        let parts = split(s, '.');
        assert(views(parts@).len() == parts@.len());
        if parts.len() != 4 {
            return None;
        }
        assert(views(parts@)[0] == parts@[0]@);
        assert(views(parts@)[1] == parts@[1]@);
        assert(views(parts@)[2] == parts@[2]@);
        assert(views(parts@)[3] == parts@[3]@);
        match (parse_octet(&parts[0]), parse_octet(&parts[1]), parse_octet(&parts[2]), parse_octet(
            &parts[3],
        )) {
            (Some(a), Some(b), Some(c), Some(d)) => Some(Ipv4Addr::new(a, b, c, d)),
            _ => None,
        }
    }

    /// The dotted quad of the address.
    pub fn to_text(&self) -> (r: String)
        ensures
            r@ == self.dotted(),
    {
        let mut s = format_u64((self.bits / 0x100_0000) as u64);
        s.append(".");
        s.append(format_u64((self.bits / 0x1_0000 % 256) as u64).as_str());
        s.append(".");
        s.append(format_u64((self.bits / 0x100 % 256) as u64).as_str());
        s.append(".");
        s.append(format_u64((self.bits % 256) as u64).as_str());
        s
    }
}

impl std::str::FromStr for Ipv4Addr {
    type Err = String;

    fn from_str(s: &str) -> (r: Result<Self, Self::Err>)
        ensures
            match r {
                Ok(a) => address(s@) == Some(a),
                Err(e) => address(s@) is None && e@ == "invalid IPv4 address syntax"@,
            },
    {
        match Ipv4Addr::parse(s) {
            Some(a) => Ok(a),
            None => Err("invalid IPv4 address syntax".to_owned()),
        }
    }
}

/// Reads one part of a dotted quad.
fn parse_octet(s: &String) -> (r: Option<u8>)
    ensures
        match r {
            Some(n) => octet_value(s@) == Some(n as nat),
            None => octet_value(s@) is None,
        },
{
    let v = chars_of(s.as_str());
    let n: usize = v.len();
    if n == 0 || n > 3 || (n > 1 && v[0] == '0') || v[0] == '+' {
        assert(v@.len() > 0 && v@[0] == '+' ==> !is_digit(v@[0]));
        return None;
    }
    match parse_up_to(s.as_str(), 255) {
        Some(x) => Some(x as u8),
        None => None,
    }
}

/// The netmask of a prefix length, as a number: the top `p` of 32 bits set.
pub open spec fn is_netmask(mask: int, p: int) -> bool {
    mask + pow2((32 - p) as nat) == 0x1_0000_0000
}

/// The prefix length, from `p` on, whose netmask is `mask`.
pub open spec fn prefix_from(mask: int, p: int) -> Option<u8>
    decreases 33 - p,
{
    if p > 32 || p < 0 {
        None
    } else if is_netmask(mask, p) {
        Some(p as u8)
    } else {
        prefix_from(mask, p + 1)
    }
}

/// The prefix length of a netmask; none for a mask that is not contiguous.
pub open spec fn prefix_of(mask: Ipv4Addr) -> Option<u8> {
    prefix_from(mask.bits as int, 0)
}

/// An IPv4 network in CIDR terms (address and prefix length).
#[derive(Debug, Clone, Copy, PartialEq, Eq, Structural)]
pub struct Ipv4Net {
    pub addr: Ipv4Addr,
    pub prefix_len: u8,
}

/// Why a text is no IPv4 network.
#[derive(Debug, Clone, Copy, PartialEq, Eq, Structural)]
pub enum NetFault {
    PrefixNotANumber,
    PrefixTooLong,
    NotANetwork,
}

/// The address part and the prefix part of a network text.
pub open spec fn net_parts(s: Seq<char>) -> (Seq<char>, Option<Seq<char>>) {
    let i = crate::text::index_of(s, '/');
    if i < s.len() {
        (trimmed(s.take(i)), Some(trimmed(s.skip(i + 1))))
    } else {
        (s, None)
    }
}

/// The network that a text denotes: `address/length`, or an address for a single host.
pub open spec fn network(text: Seq<char>) -> Result<Ipv4Net, NetFault> {
    let s = trimmed(text);
    let (a, l) = net_parts(s);
    let len = match l {
        Some(l) => number_up_to(l, 255),
        None => Some(32nat),
    };
    match len {
        None => Err(NetFault::PrefixNotANumber),
        Some(n) => if n > 32 {
            Err(NetFault::PrefixTooLong)
        } else {
            match address(a) {
                Some(addr) => Ok(Ipv4Net { addr, prefix_len: n as u8 }),
                None => Err(NetFault::NotANetwork),
            }
        },
    }
}

impl NetFault {
    /// What is said after the quoted text.
    pub open spec fn reason(self) -> Seq<char> {
        match self {
            NetFault::PrefixNotANumber => ": prefix length is not a number"@,
            NetFault::PrefixTooLong => ": prefix length must be 0–32"@,
            NetFault::NotANetwork => ": not an IPv4 network"@,
        }
    }

    /// The message for the text that was rejected.
    pub fn message(&self, text: &str) -> (r: String)
        ensures
            r@ == crate::text::debug_quoted(trimmed(text@)) + self.reason(),
    {
        let mut s = crate::text::quote_debug(trim(text).as_str());
        s.append(
            match self {
                NetFault::PrefixNotANumber => ": prefix length is not a number",
                NetFault::PrefixTooLong => ": prefix length must be 0–32",
                NetFault::NotANetwork => ": not an IPv4 network",
            },
        );
        s
    }
}

impl Ipv4Net {
    /// A prefix length of at most 32.
    pub open spec fn wf(self) -> bool {
        self.prefix_len <= 32
    }

    /// The CIDR text of the network.
    pub open spec fn cidr(self) -> Seq<char> {
        self.addr.dotted() + "/"@ + decimal(self.prefix_len as nat)
    }

    /// Whether the first `prefix_len` bits of `ip` are those of the network.
    pub open spec fn covers(self, ip: Ipv4Addr) -> bool {
        ip.bits as int / pow2((32 - self.prefix_len) as nat) as int == self.addr.bits as int
            / pow2((32 - self.prefix_len) as nat) as int
    }

    /// Builds a network from a dotted-quad netmask (255.255.255.0 is /24).
    /// A mask that is not contiguous, like 255.0.255.0, is rejected.
    pub fn from_addr_and_mask(addr: Ipv4Addr, mask: Ipv4Addr) -> (r: Option<Ipv4Net>)
        ensures
            match r {
                Some(n) => n.wf() && n.addr == addr && is_netmask(
                    mask.bits as int,
                    n.prefix_len as int,
                ),
                None => forall|p: int| 0 <= p <= 32 ==> !is_netmask(mask.bits as int, p),
            },
            r == (match prefix_of(mask) {
                Some(p) => Some(Ipv4Net { addr, prefix_len: p }),
                None => None,
            }),
    {
        let mut block: u64 = 0x1_0000_0000;
        let mut p: u8 = 0;
        proof {
            lemma2_to64();
        }
        while p <= 32
            invariant
                p <= 33,
                p <= 32 ==> block == pow2((32 - p) as nat),
                p <= 32 ==> block <= 0x1_0000_0000,
                prefix_of(mask) == prefix_from(mask.bits as int, p as int),
                forall|q: int| 0 <= q < p ==> !is_netmask(mask.bits as int, q),
            decreases 33 - p,
        {
            if mask.bits as u64 + block == 0x1_0000_0000 {
                return Some(Ipv4Net { addr, prefix_len: p });
            }
            proof {
                if p < 32 {
                    lemma_pow2_unfold((32 - p) as nat);
                }
            }
            block = block / 2;
            p = p + 1;
        }
        None
    }

    /// Whether this network contains `ip`.
    ///
    /// Tells a user why a host behind the tunnel does not answer: an address outside every
    /// remote traffic selector is not routed over the tunnel at all.
    pub fn contains(&self, ip: Ipv4Addr) -> (r: bool)
        requires
            self.wf(),
        ensures
            r == self.covers(ip),
    {
        if self.prefix_len == 0 {
            proof {
                lemma2_to64();
                assert((32 - self.prefix_len) as nat == 32nat);
                assert(pow2(32) == 0x1_0000_0000);
                assert(ip.bits as int / 0x1_0000_0000 == 0);
                assert(self.addr.bits as int / 0x1_0000_0000 == 0);
            }
            return true;
        }
        let shift: u32 = 32 - self.prefix_len as u32;
        proof {
            lemma_u32_shr_is_div(ip.bits, shift);
            lemma_u32_shr_is_div(self.addr.bits, shift);
        }
        (ip.bits >> shift) == (self.addr.bits >> shift)
    }

    /// Reads the CIDR form; a bare address means a single host.
    pub fn parse(text: &str) -> (r: Result<Ipv4Net, NetFault>)
        ensures
            r == network(text@),
    {
        let s = trim(text);
        match split_once(s.as_str(), '/') {
            Some((a, l)) => match parse_up_to(trim(l.as_str()).as_str(), 255) {
                None => Err(NetFault::PrefixNotANumber),
                Some(n) => Ipv4Net::finish(trim(a.as_str()).as_str(), n as u8),
            },
            None => Ipv4Net::finish(s.as_str(), 32),
        }
    }

    fn finish(a: &str, len: u8) -> (r: Result<Ipv4Net, NetFault>)
        ensures
            r == (if len > 32 {
                Err(NetFault::PrefixTooLong)
            } else {
                match address(a@) {
                    Some(addr) => Ok(Ipv4Net { addr, prefix_len: len }),
                    None => Err(NetFault::NotANetwork),
                }
            }),
    {
        if len > 32 {
            return Err(NetFault::PrefixTooLong);
        }
        match Ipv4Addr::parse(a) {
            Some(addr) => Ok(Ipv4Net { addr, prefix_len: len }),
            None => Err(NetFault::NotANetwork),
        }
    }

    /// The CIDR text of the network.
    pub fn to_text(&self) -> (r: String)
        ensures
            r@ == self.cidr(),
    {
        let mut s = self.addr.to_text();
        s.append("/");
        s.append(format_u64(self.prefix_len as u64).as_str());
        s
    }
}

impl std::str::FromStr for Ipv4Net {
    type Err = String;

    fn from_str(s: &str) -> (r: Result<Self, Self::Err>)
        ensures
            match r {
                Ok(n) => network(s@) == Ok::<Ipv4Net, NetFault>(n),
                Err(e) => network(s@) matches Err(fault) && e@ == crate::text::debug_quoted(
                    trimmed(s@),
                ) + fault.reason(),
            },
    {
        match Ipv4Net::parse(s) {
            Ok(n) => Ok(n),
            Err(e) => Err(e.message(s)),
        }
    }
}

proof fn lemma_octet_reads_back(n: nat)
    requires
        n <= 255,
    ensures
        octet_value(decimal(n)) == Some(n),
        forall|k: int| 0 <= k < decimal(n).len() ==> decimal(n)[k] != '.' && decimal(n)[k] != '/',
{
    lemma_decimal(n);
    let d = decimal(n);
    assert forall|k: int| 0 <= k < d.len() implies d[k] != '.' && d[k] != '/' by {
        assert(is_digit(d[k]));
    }
}

/// The dotted quad of an address reads back as the address.
pub proof fn law_address_reads_back(x: Ipv4Addr)
    ensures
        address(x.dotted()) == Some(x),
{
    reveal_strlit(".");
    let dot = seq!['.'];
    assert("."@ =~= dot);
    let (a, b, c, d) = (x.a(), x.b(), x.c(), x.d());
    assert(a <= 255 && b <= 255 && c <= 255 && d <= 255);
    lemma_octet_reads_back(a);
    lemma_octet_reads_back(b);
    lemma_octet_reads_back(c);
    lemma_octet_reads_back(d);
    let v = seq![decimal(a), decimal(b), decimal(c), decimal(d)];
    assert forall|i: int, k: int| 0 <= i < 4 && 0 <= k < v[i].len() implies #[trigger] v[i][k]
        != '.' by {}
    lemma_split_of_joined(v, '.', 4);
    assert(v.take(4) =~= v);
    reveal_with_fuel(crate::text::joined, 5);
    assert(crate::text::joined(v, dot, 4) =~= x.dotted());
    assert(quad(a as int, b as int, c as int, d as int) == x.bits) by {
        let n = x.bits as int;
        assert(n == n / 256 * 256 + n % 256);
        assert(n / 256 == n / 0x1_0000 * 256 + n / 256 % 256);
        assert(n / 0x1_0000 == n / 0x100_0000 * 256 + n / 0x1_0000 % 256);
    }
}

/// The CIDR text of a network reads back as the network.
pub proof fn law_network_reads_back(n: Ipv4Net)
    requires
        n.wf(),
    ensures
        network(n.cidr()) == Ok::<Ipv4Net, NetFault>(n),
{
    reveal_strlit("/");
    reveal_strlit(".");
    let x = n.addr;
    let t = x.dotted();
    let p = n.prefix_len as nat;
    let l = decimal(p);
    law_address_reads_back(x);
    lemma_octet_reads_back(x.a());
    lemma_octet_reads_back(x.b());
    lemma_octet_reads_back(x.c());
    lemma_octet_reads_back(x.d());
    lemma_decimal(x.a());
    lemma_decimal(x.d());
    lemma_decimal(p);
    let s = n.cidr();
    let i = t.len() as int;
    assert forall|k: int| 0 <= k < i implies s[k] != '/' by {
        assert(s[k] == t[k]);
        let (a, b, c) = (decimal(x.a()), decimal(x.b()), decimal(x.c()));
        let d = decimal(x.d());
        if k < a.len() {
            assert(t[k] == a[k]);
        } else if k == a.len() {
            assert(t[k] == '.');
        } else if k < a.len() + 1 + b.len() {
            assert(t[k] == b[k - a.len() - 1]);
        } else if k == a.len() + 1 + b.len() {
            assert(t[k] == '.');
        } else if k < a.len() + b.len() + 2 + c.len() {
            assert(t[k] == c[k - a.len() - b.len() - 2]);
        } else if k == a.len() + b.len() + 2 + c.len() {
            assert(t[k] == '.');
        } else {
            assert(t[k] == d[k - a.len() - b.len() - c.len() - 3]);
        }
    }
    lemma_index_of(s, '/', i);
    assert(s.take(i) =~= t);
    assert(s.skip(i + 1) =~= l);
    assert(t[0] == decimal(x.a())[0]);
    assert(t.last() == decimal(x.d()).last());
    assert(is_digit(decimal(x.a())[0]));
    assert(is_digit(decimal(x.d())[decimal(x.d()).len() - 1]));
    assert(is_digit(l[0]));
    assert(is_digit(l[l.len() - 1]));
    assert(s[0] == t[0]);
    assert(s.last() == l.last());
    lemma_trimmed_stays(s);
    lemma_trimmed_stays(t);
    lemma_trimmed_stays(l);
}

/// A prefix of no bits covers every address, one of all bits only its own.
pub proof fn law_prefix_extremes(n: Ipv4Net, ip: Ipv4Addr)
    ensures
        n.prefix_len == 0 ==> n.covers(ip),
        n.prefix_len == 32 ==> (n.covers(ip) <==> ip == n.addr),
{
    lemma2_to64();
    if n.prefix_len == 0 {
        assert((32 - n.prefix_len) as nat == 32nat);
        assert(pow2(32) == 0x1_0000_0000);
        assert(ip.bits as int / 0x1_0000_0000 == 0);
        assert(n.addr.bits as int / 0x1_0000_0000 == 0);
    }
    if n.prefix_len == 32 {
        assert((32 - n.prefix_len) as nat == 0nat);
        assert(pow2(0) == 1);
        assert(ip.bits as int / 1 == ip.bits);
        assert(n.addr.bits as int / 1 == n.addr.bits);
    }
}

/// A network covers its own address.
pub proof fn law_network_covers_itself(n: Ipv4Net)
    ensures
        n.covers(n.addr),
{
}

/// Digits without a leading zero are the decimal text of the number that they stand for.
proof fn lemma_digits_are_decimal(p: Seq<char>)
    requires
        p.len() > 0,
        all_digits(p),
        p.len() > 1 ==> p[0] != '0',
    ensures
        p == decimal(digits_value(p)),
        p[0] != '0' ==> digits_value(p) > 0,
    decreases p.len(),
{
    let q = p.drop_last();
    let c = p.last();
    assert(is_digit(c));
    let v = (c as nat - '0' as nat) as nat;
    assert(digits_value(p) == digits_value(q) * 10 + v);
    if p.len() == 1 {
        assert(q =~= Seq::empty());
        assert(digits_value(q) == 0);
        assert(p =~= decimal(v));
    } else {
        assert forall|k: int| 0 <= k < q.len() implies is_digit(#[trigger] q[k]) by {
            assert(is_digit(p[k]));
        }
        assert(q[0] == p[0]);
        lemma_digits_are_decimal(q);
        let n = digits_value(p);
        assert(n >= 10);
        assert(n / 10 == digits_value(q));
        assert(n % 10 == v);
        assert(p =~= decimal(n / 10).push((n % 10 + 48) as char));
    }
}

/// An address has exactly one spelling: four numbers up to 255 without leading zeros, with dots
/// between them.
pub proof fn law_address_has_one_spelling(s: Seq<char>, x: Ipv4Addr)
    ensures
        address(s) == Some(x) <==> s == x.dotted(),
{
    law_address_reads_back(x);
    if address(s) == Some(x) {
        let p = split_on(s, '.');
        let a = octet_value(p[0])->0;
        let b = octet_value(p[1])->0;
        let c = octet_value(p[2])->0;
        let d = octet_value(p[3])->0;
        lemma_digits_are_decimal(p[0]);
        lemma_digits_are_decimal(p[1]);
        lemma_digits_are_decimal(p[2]);
        lemma_digits_are_decimal(p[3]);
        assert(x.bits == quad(a as int, b as int, c as int, d as int));
        lemma_octets_of_quad(x, a as int, b as int, c as int, d as int);
        law_pieces_make_the_text(s, '.');
        assert(p =~= seq![decimal(a), decimal(b), decimal(c), decimal(d)]);
        lemma_dotted_is_joined(x);
    }
}

proof fn lemma_octets_of_quad(x: Ipv4Addr, a: int, b: int, c: int, d: int)
    requires
        0 <= a <= 255,
        0 <= b <= 255,
        0 <= c <= 255,
        0 <= d <= 255,
        x.bits == quad(a, b, c, d),
    ensures
        x.a() == a,
        x.b() == b,
        x.c() == c,
        x.d() == d,
{
    let n = x.bits as int;
    assert(n == ((a * 256 + b) * 256 + c) * 256 + d);
    assert(n / 256 == (a * 256 + b) * 256 + c);
    assert(n / 0x1_0000 == a * 256 + b);
    assert(n / 0x100_0000 == a);
}

proof fn lemma_dotted_is_joined(x: Ipv4Addr)
    ensures
        crate::text::joined(
            seq![decimal(x.a()), decimal(x.b()), decimal(x.c()), decimal(x.d())],
            seq!['.'],
            4,
        ) == x.dotted(),
{
    reveal_strlit(".");
    let dot = seq!['.'];
    assert("."@ =~= dot);
    let v = seq![decimal(x.a()), decimal(x.b()), decimal(x.c()), decimal(x.d())];
    reveal_with_fuel(crate::text::joined, 5);
    assert(crate::text::joined(v, dot, 4) =~= x.dotted());
}

/// The addresses that only answer from inside their own network are those of the private ranges
/// and the loopback and link-local ones.
pub proof fn law_internal_addresses_are_ranges(x: Ipv4Addr)
    ensures
        x.private() <==> {
            ||| 0x0A00_0000 <= x.bits < 0x0B00_0000
            ||| 0xAC10_0000 <= x.bits < 0xAC20_0000
            ||| 0xC0A8_0000 <= x.bits < 0xC0A9_0000
        },
        x.internal() <==> {
            ||| 0x0A00_0000 <= x.bits < 0x0B00_0000
            ||| 0xAC10_0000 <= x.bits < 0xAC20_0000
            ||| 0xC0A8_0000 <= x.bits < 0xC0A9_0000
            ||| 0x7F00_0000 <= x.bits < 0x8000_0000
            ||| 0xA9FE_0000 <= x.bits < 0xA9FF_0000
        },
{
    let n = x.bits as int;
    assert(n / 0x1_0000 == n / 0x100_0000 * 256 + n / 0x1_0000 % 256);
    assert(n == n / 0x1_0000 * 0x1_0000 + n % 0x1_0000);
    assert(n == n / 0x100_0000 * 0x100_0000 + n % 0x100_0000);
}

/// A netmask has a prefix length exactly when it is that many ones and then zeros.
pub proof fn law_netmask_is_ones_then_zeros(mask: Ipv4Addr, p: u8)
    requires
        p <= 32,
    ensures
        prefix_of(mask) == Some(p) <==> mask.bits as int + pow2((32 - p) as nat) as int
            == 0x1_0000_0000,
        prefix_of(mask) matches Some(q) ==> q <= 32,
{
    lemma_prefix_from(mask.bits as int, 0);
    if mask.bits as int + pow2((32 - p) as nat) as int == 0x1_0000_0000 {
        assert(is_netmask(mask.bits as int, p as int));
        let q = prefix_of(mask)->0;
        assert(prefix_of(mask) is Some);
        if q < p {
            lemma_pow2_strictly_increases((32 - p) as nat, (32 - q) as nat);
        }
    }
}

proof fn lemma_prefix_from(mask: int, p: int)
    requires
        0 <= p <= 33,
    ensures
        match prefix_from(mask, p) {
            Some(q) => p <= q <= 32 && is_netmask(mask, q as int) && forall|k: int|
                p <= k < q ==> !(#[trigger] is_netmask(mask, k)),
            None => forall|k: int| p <= k <= 32 ==> !(#[trigger] is_netmask(mask, k)),
        },
    decreases 33 - p,
{
    if p <= 32 && !is_netmask(mask, p) {
        lemma_prefix_from(mask, p + 1);
    }
}

/// A network is a range of addresses: from its first, whose host bits are zero, as many as the
/// host bits tell apart.
pub proof fn law_network_is_a_range(n: Ipv4Net, ip: Ipv4Addr)
    requires
        n.wf(),
    ensures
        ({
            let size = pow2((32 - n.prefix_len) as nat) as int;
            let base = n.addr.bits as int - n.addr.bits as int % size;
            n.covers(ip) <==> base <= ip.bits < base + size
        }),
{
    let size = pow2((32 - n.prefix_len) as nat) as int;
    lemma_pow2_pos((32 - n.prefix_len) as nat);
    let x = n.addr.bits as int;
    let y = ip.bits as int;
    lemma_fundamental_div_mod(x, size);
    lemma_fundamental_div_mod(y, size);
    let q = x / size;
    let r = y / size;
    let base = x - x % size;
    assert(base == size * q);
    assert(0 <= y % size < size) by {
        lemma_mod_bound(y, size);
    }
    if q == r {
        assert(y == base + y % size);
    }
    if base <= y < base + size {
        lemma_fundamental_div_mod_converse(y, size, q, y - base);
    }
}

/// A text that is no network is told by what is wrong with it: a prefix that is no number or too
/// long before an address that is none. One without a prefix is a single host.
pub proof fn law_network_text_is_told(left: Seq<char>, right: Seq<char>)
    requires
        !left.contains('/'),
        left.len() > 0 ==> !crate::text::is_space(left[0]) && !crate::text::is_space(left.last()),
        left.len() > 0,
        right.len() > 0,
        !crate::text::is_space(right[0]) && !crate::text::is_space(right.last()),
    ensures
        ({
            let r = network(left + seq!['/'] + right);
            let number = number_up_to(right, 255);
            &&& number is None ==> r == Err::<Ipv4Net, NetFault>(NetFault::PrefixNotANumber)
            &&& number is Some && number->0 > 32 ==> r == Err::<Ipv4Net, NetFault>(
                NetFault::PrefixTooLong,
            )
            &&& number is Some && number->0 <= 32 && address(left) is None ==> r == Err::<
                Ipv4Net,
                NetFault,
            >(NetFault::NotANetwork)
            &&& number is Some && number->0 <= 32 && address(left) is Some ==> r == Ok::<
                Ipv4Net,
                NetFault,
            >(Ipv4Net { addr: address(left)->0, prefix_len: number->0 as u8 })
        }),
        address(left) is None ==> network(left) == Err::<Ipv4Net, NetFault>(NetFault::NotANetwork),
        address(left) is Some ==> network(left) == Ok::<Ipv4Net, NetFault>(
            Ipv4Net { addr: address(left)->0, prefix_len: 32 },
        ),
{
    let whole = left + seq!['/'] + right;
    assert forall|k: int| 0 <= k < left.len() implies left[k] != '/' by {
        assert(left.contains(left[k]));
    }
    assert forall|k: int| 0 <= k < left.len() implies whole[k] != '/' by {
        assert(whole[k] == left[k]);
    }
    assert(whole[left.len() as int] == '/');
    assert(whole.last() == right.last());
    assert(whole[0] == left[0]);
    lemma_trimmed_stays(whole);
    lemma_trimmed_stays(left);
    lemma_trimmed_stays(right);
    lemma_index_of(whole, '/', left.len() as int);
    lemma_index_of(left, '/', left.len() as int);
    assert(whole.take(left.len() as int) =~= left);
    assert(whole.skip(left.len() as int + 1) =~= right);
}

} // verus!
