//! Turns charon's `list-sa` events into status records, and renders them as text.

use crate::text::{
    decimal, format_u64, has, join, join_all, law_number_reads_back, number_up_to, occurs_at,
    parse_up_to, trim, trimmed, views,
};
use crate::vici::message::{Message, MessageView};
use crate::vici::protocol::message_views;
use vstd::prelude::*;

verus! {

/// A CHILD_SA as charon reports it.
#[derive(Debug)]
pub struct ChildSa {
    pub name: String,
    pub state: String,
    pub bytes_in: u64,
    pub bytes_out: u64,
    pub packets_in: u64,
    pub packets_out: u64,
    pub local_ts: Vec<String>,
    pub remote_ts: Vec<String>,
}

/// The content of a [`ChildSa`].
pub struct ChildView {
    pub name: Seq<char>,
    pub state: Seq<char>,
    pub bytes_in: u64,
    pub bytes_out: u64,
    pub packets_in: u64,
    pub packets_out: u64,
    pub local_ts: Seq<Seq<char>>,
    pub remote_ts: Seq<Seq<char>>,
}

impl View for ChildSa {
    type V = ChildView;

    open spec fn view(&self) -> ChildView {
        ChildView {
            name: self.name@,
            state: self.state@,
            bytes_in: self.bytes_in,
            bytes_out: self.bytes_out,
            packets_in: self.packets_in,
            packets_out: self.packets_out,
            local_ts: views(self.local_ts@),
            remote_ts: views(self.remote_ts@),
        }
    }
}

/// An IKE SA as charon reports it.
#[derive(Debug)]
pub struct IkeSa {
    pub name: String,
    pub state: String,
    pub local_host: String,
    pub remote_host: String,
    pub virtual_ips: Vec<String>,
    pub children: Vec<ChildSa>,
}

/// The content of an [`IkeSa`].
pub struct IkeView {
    pub name: Seq<char>,
    pub state: Seq<char>,
    pub local_host: Seq<char>,
    pub remote_host: Seq<char>,
    pub virtual_ips: Seq<Seq<char>>,
    pub children: Seq<ChildView>,
}

/// The contents of a list of CHILD_SAs.
pub open spec fn child_views(v: Seq<ChildSa>) -> Seq<ChildView> {
    Seq::new(v.len(), |i: int| v[i]@)
}

/// The contents of a list of IKE SAs.
pub open spec fn ike_views(v: Seq<IkeSa>) -> Seq<IkeView> {
    Seq::new(v.len(), |i: int| v[i]@)
}

impl View for IkeSa {
    type V = IkeView;

    open spec fn view(&self) -> IkeView {
        IkeView {
            name: self.name@,
            state: self.state@,
            local_host: self.local_host@,
            remote_host: self.remote_host@,
            virtual_ips: views(self.virtual_ips@),
            children: child_views(self.children@),
        }
    }
}

/// The text under a key, or nothing.
pub open spec fn text_or_empty(m: MessageView, key: Seq<char>) -> Seq<char> {
    match m.get_str(key) {
        Some(s) => s,
        None => Seq::empty(),
    }
}

/// The list under a key, or an empty one.
pub open spec fn list_or_empty(m: MessageView, key: Seq<char>) -> Seq<Seq<char>> {
    match m.get_list(key) {
        Some(l) => l,
        None => Seq::empty(),
    }
}

/// The counter under a key; 0 when there is none or it is no number.
pub open spec fn counter(m: MessageView, key: Seq<char>) -> u64 {
    match m.get_str(key) {
        Some(s) => match number_up_to(trimmed(s), u64::MAX as nat) {
            Some(n) => n as u64,
            None => 0,
        },
        None => 0,
    }
}

/// What a child section says.
pub open spec fn child_of(name: Seq<char>, m: MessageView) -> ChildView {
    ChildView {
        name,
        state: text_or_empty(m, "state"@),
        bytes_in: counter(m, "bytes-in"@),
        bytes_out: counter(m, "bytes-out"@),
        packets_in: counter(m, "packets-in"@),
        packets_out: counter(m, "packets-out"@),
        local_ts: list_or_empty(m, "local-ts"@),
        remote_ts: list_or_empty(m, "remote-ts"@),
    }
}

/// The children that a list of sections describes.
pub open spec fn children_in(s: Seq<(Seq<char>, MessageView)>) -> Seq<ChildView> {
    Seq::new(s.len(), |i: int| child_of(s[i].0, s[i].1))
}

/// What an IKE SA section says.
pub open spec fn ike_of(name: Seq<char>, m: MessageView) -> IkeView {
    IkeView {
        name,
        state: text_or_empty(m, "state"@),
        local_host: text_or_empty(m, "local-host"@),
        remote_host: text_or_empty(m, "remote-host"@),
        virtual_ips: list_or_empty(m, "local-vips"@),
        children: match m.get_section("child-sas"@) {
            Some(c) => children_in(c.sections()),
            None => Seq::empty(),
        },
    }
}

/// The IKE SAs in one event.
pub open spec fn sas_in(event: MessageView) -> Seq<IkeView> {
    let s = event.sections();
    Seq::new(s.len(), |i: int| ike_of(s[i].0, s[i].1))
}

/// The IKE SAs in the first `n` events, in order.
pub open spec fn sas_of(events: Seq<MessageView>, n: int) -> Seq<IkeView>
    decreases n,
{
    if n <= 0 {
        Seq::empty()
    } else {
        sas_of(events, n - 1) + sas_in(events[n - 1])
    }
}

fn get_text(m: &Message, key: &str) -> (r: String)
    ensures
        r@ == text_or_empty(m@, key@),
{
    match m.get_str(key) {
        Some(s) => s,
        None => String::new(),
    }
}

fn get_list(m: &Message, key: &str) -> (r: Vec<String>)
    ensures
        views(r@) == list_or_empty(m@, key@),
{
    match m.get_list(key) {
        Some(l) => l,
        None => {
            let r: Vec<String> = Vec::new();
            assert(views(r@) =~= Seq::empty());
            r
        },
    }
}

fn num(m: &Message, key: &str) -> (r: u64)
    ensures
        r == counter(m@, key@),
{
    match m.get_str(key) {
        Some(s) => match parse_up_to(trim(s.as_str()).as_str(), u64::MAX) {
            Some(n) => n,
            None => 0,
        },
        None => 0,
    }
}

fn parse_child(name: &str, m: &Message) -> (r: ChildSa)
    ensures
        r@ == child_of(name@, m@),
{
    ChildSa {
        name: name.to_owned(),
        state: get_text(m, "state"),
        bytes_in: num(m, "bytes-in"),
        bytes_out: num(m, "bytes-out"),
        packets_in: num(m, "packets-in"),
        packets_out: num(m, "packets-out"),
        local_ts: get_list(m, "local-ts"),
        remote_ts: get_list(m, "remote-ts"),
    }
}

fn parse_children(m: &Message) -> (r: Vec<ChildSa>)
    ensures
        child_views(r@) == children_in(m@.sections()),
{
    let sections = m.sections();
    let ghost all = m@.sections();
    assert(all.len() == sections@.len());
    let mut out: Vec<ChildSa> = Vec::new();
    let mut i: usize = 0;
    while i < sections.len()
        invariant
            i <= sections@.len(),
            all == Seq::new(sections@.len(), |k: int| (sections@[k].0@, sections@[k].1@)),
            out@.len() == i,
            forall|k: int| 0 <= k < i ==> (#[trigger] out@[k])@ == child_of(all[k].0, all[k].1),
        decreases sections@.len() - i,
    {
        assert(all[i as int] == (sections@[i as int].0@, sections@[i as int].1@));
        out.push(parse_child(sections[i].0, sections[i].1));
        i = i + 1;
    }
    assert(child_views(out@) =~= children_in(all));
    out
}

fn parse_ike(name: &str, m: &Message) -> (r: IkeSa)
    ensures
        r@ == ike_of(name@, m@),
{
    let children = match m.get_section("child-sas") {
        Some(c) => parse_children(c),
        None => {
            let none: Vec<ChildSa> = Vec::new();
            assert(child_views(none@) =~= Seq::empty());
            none
        },
    };
    IkeSa {
        name: name.to_owned(),
        state: get_text(m, "state"),
        local_host: get_text(m, "local-host"),
        remote_host: get_text(m, "remote-host"),
        virtual_ips: get_list(m, "local-vips"),
        children,
    }
}

/// Flattens the `list-sa` events into IKE SA records.
pub fn parse_sas(events: &[Message]) -> (r: Vec<IkeSa>)
    ensures
        ike_views(r@) == sas_of(message_views(events@), events@.len() as int),
{
    let ghost all = message_views(events@);
    let mut out: Vec<IkeSa> = Vec::new();
    let mut i: usize = 0;
    assert(ike_views(out@) =~= Seq::empty());
    while i < events.len()
        invariant
            i <= events@.len(),
            all == message_views(events@),
            ike_views(out@) == sas_of(all, i as int),
        decreases events@.len() - i,
    {
        assert(all[i as int] == events@[i as int]@);
        let sections = events[i].sections();
        let ghost s = events@[i as int]@.sections();
        assert(s.len() == sections@.len());
        let ghost before = ike_views(out@);
        let mut j: usize = 0;
        while j < sections.len()
            invariant
                j <= sections@.len(),
                s == Seq::new(sections@.len(), |k: int| (sections@[k].0@, sections@[k].1@)),
                out@.len() == before.len() + j,
                forall|k: int| 0 <= k < before.len() ==> (#[trigger] out@[k])@ == before[k],
                forall|k: int|
                    before.len() <= k < out@.len() ==> (#[trigger] out@[k])@ == ike_of(
                        s[k - before.len()].0,
                        s[k - before.len()].1,
                    ),
            decreases sections@.len() - j,
        {
            assert(s[j as int] == (sections@[j as int].0@, sections@[j as int].1@));
            out.push(parse_ike(sections[j].0, sections[j].1));
            j = j + 1;
        }
        assert(ike_views(out@) =~= before + sas_in(events@[i as int]@));
        i = i + 1;
    }
    out
}

/// The line about a CHILD_SA.
pub open spec fn child_line(c: ChildView) -> Seq<char> {
    "  CHILD_SA "@ + c.name + ": "@ + c.state + "  "@ + join_all(c.local_ts, ","@) + " === "@
        + join_all(c.remote_ts, ","@) + "  in="@ + decimal(c.bytes_in as nat) + "B out="@ + decimal(
        c.bytes_out as nat,
    ) + "B\n"@
}

/// The lines about the first `n` CHILD_SAs.
pub open spec fn child_lines(v: Seq<ChildView>, n: int) -> Seq<char>
    decreases n,
{
    if n <= 0 {
        Seq::empty()
    } else {
        child_lines(v, n - 1) + child_line(v[n - 1])
    }
}

/// The lines about an IKE SA.
pub open spec fn ike_lines(i: IkeView) -> Seq<char> {
    let head = "IKE_SA "@ + i.name + ": "@ + i.state + "  "@ + i.local_host + " -> "@
        + i.remote_host + "\n"@;
    let vips = if i.virtual_ips.len() > 0 {
        "  virtual IP: "@ + join_all(i.virtual_ips, ", "@) + "\n"@
    } else {
        Seq::empty()
    };
    head + vips + child_lines(i.children, i.children.len() as int)
}

/// The lines about the first `n` IKE SAs.
pub open spec fn all_lines(v: Seq<IkeView>, n: int) -> Seq<char>
    decreases n,
{
    if n <= 0 {
        Seq::empty()
    } else {
        all_lines(v, n - 1) + ike_lines(v[n - 1])
    }
}

/// The summary of a list of IKE SAs.
pub open spec fn summary(v: Seq<IkeView>) -> Seq<char> {
    if v.len() == 0 {
        "No active IKE SAs."@
    } else {
        all_lines(v, v.len() as int)
    }
}

fn render_child(c: &ChildSa, out: &mut String)
    ensures
        final(out)@ == old(out)@ + child_line(c@),
{
    out.append("  CHILD_SA ");
    out.append(c.name.as_str());
    out.append(": ");
    out.append(c.state.as_str());
    out.append("  ");
    out.append(join(&c.local_ts, ",").as_str());
    out.append(" === ");
    out.append(join(&c.remote_ts, ",").as_str());
    out.append("  in=");
    out.append(format_u64(c.bytes_in).as_str());
    out.append("B out=");
    out.append(format_u64(c.bytes_out).as_str());
    out.append("B\n");
    assert(out@ =~= old(out)@ + child_line(c@));
}

#[verifier::rlimit(50)]
fn render_ike(s: &IkeSa, out: &mut String)
    ensures
        final(out)@ == old(out)@ + ike_lines(s@),
{
    out.append("IKE_SA ");
    out.append(s.name.as_str());
    out.append(": ");
    out.append(s.state.as_str());
    out.append("  ");
    out.append(s.local_host.as_str());
    out.append(" -> ");
    out.append(s.remote_host.as_str());
    out.append("\n");
    if s.virtual_ips.len() > 0 {
        out.append("  virtual IP: ");
        out.append(join(&s.virtual_ips, ", ").as_str());
        out.append("\n");
    }
    let ghost head = out@;
    assert(head =~= old(out)@ + ("IKE_SA "@ + s@.name + ": "@ + s@.state + "  "@ + s@.local_host
        + " -> "@ + s@.remote_host + "\n"@ + (if s@.virtual_ips.len() > 0 {
        "  virtual IP: "@ + join_all(s@.virtual_ips, ", "@) + "\n"@
    } else {
        Seq::empty()
    })));
    let ghost all = child_views(s.children@);
    let mut i: usize = 0;
    while i < s.children.len()
        invariant
            i <= s.children@.len(),
            all == child_views(s.children@),
            out@ == head + child_lines(all, i as int),
        decreases s.children@.len() - i,
    {
        assert(all[i as int] == s.children@[i as int]@);
        render_child(&s.children[i], out);
        assert(out@ =~= head + child_lines(all, i + 1));
        i = i + 1;
    }
    assert(out@ =~= old(out)@ + ike_lines(s@));
}

/// Human-readable summary.
pub fn render_text(sas: &[IkeSa]) -> (r: String)
    ensures
        r@ == summary(ike_views(sas@)),
{
    let ghost all = ike_views(sas@);
    assert(all.len() == sas@.len());
    if sas.len() == 0 {
        return "No active IKE SAs.".to_owned();
    }
    let mut out = String::new();
    let mut i: usize = 0;
    while i < sas.len()
        invariant
            i <= sas@.len(),
            all == ike_views(sas@),
            out@ == all_lines(all, i as int),
        decreases sas@.len() - i,
    {
        assert(all[i as int] == sas@[i as int]@);
        render_ike(&sas[i], &mut out);
        i = i + 1;
    }
    out
}

proof fn lemma_sas_of_start(a: Seq<MessageView>, b: Seq<MessageView>, n: int)
    requires
        0 <= n <= a.len(),
    ensures
        sas_of(a + b, n) == sas_of(a, n),
    decreases n,
{
    if n > 0 {
        lemma_sas_of_start(a, b, n - 1);
        assert((a + b)[n - 1] == a[n - 1]);
    }
}

proof fn lemma_sas_of_two(a: Seq<MessageView>, b: Seq<MessageView>, n: int)
    requires
        0 <= n <= b.len(),
    ensures
        sas_of(a + b, a.len() + n) == sas_of(a, a.len() as int) + sas_of(b, n),
    decreases n,
{
    if n > 0 {
        lemma_sas_of_two(a, b, n - 1);
        assert((a + b)[a.len() + n - 1] == b[n - 1]);
        assert(sas_of(a + b, a.len() + n) =~= sas_of(a, a.len() as int) + sas_of(b, n));
    } else {
        lemma_sas_of_start(a, b, a.len() as int);
        assert(sas_of(a, a.len() as int) + sas_of(b, 0) =~= sas_of(a, a.len() as int));
    }
}

/// The events add up: what one list of events reports is kept, in full and in front, when another
/// follows it, and what the other reports comes behind.
pub proof fn law_reports_add_up(earlier: Seq<MessageView>, later: Seq<MessageView>)
    ensures
        sas_of(earlier + later, (earlier + later).len() as int) == sas_of(
            earlier,
            earlier.len() as int,
        ) + sas_of(later, later.len() as int),
        sas_of(Seq::empty(), 0) == Seq::<IkeView>::empty(),
{
    lemma_sas_of_two(earlier, later, later.len() as int);
}

/// One event reports as many IKE SAs as it has sections, in their order and under their names. Of
/// each it says what stands under charon's own keys: a key that is missing is an empty text or list.
pub proof fn law_event_reports_each_section(event: MessageView)
    ensures
        ({
            let r = sas_of(seq![event], 1);
            let s = event.sections();
            &&& r.len() == s.len()
            &&& forall|i: int|
                0 <= i < s.len() ==> {
                    let m = s[i].1;
                    &&& (#[trigger] r[i]).name == s[i].0
                    &&& m.get_str("state"@) == Some(r[i].state) || m.get_str("state"@) is None
                        && r[i].state.len() == 0
                    &&& m.get_str("local-host"@) == Some(r[i].local_host) || m.get_str(
                        "local-host"@,
                    ) is None && r[i].local_host.len() == 0
                    &&& m.get_str("remote-host"@) == Some(r[i].remote_host) || m.get_str(
                        "remote-host"@,
                    ) is None && r[i].remote_host.len() == 0
                    &&& m.get_list("local-vips"@) == Some(r[i].virtual_ips) || m.get_list(
                        "local-vips"@,
                    ) is None && r[i].virtual_ips.len() == 0
                    &&& r[i].children.len() == (match m.get_section("child-sas"@) {
                        Some(c) => c.sections().len(),
                        None => 0,
                    })
                }
        }),
{
    reveal_with_fuel(sas_of, 2);
    assert(sas_of(seq![event], 1) =~= sas_in(event));
}

/// Every CHILD_SA that charon names under an IKE SA is in that SA's record, in order, with its own
/// state, networks and counters: those that came in as those that came in.
pub proof fn law_event_reports_each_child(event: MessageView, i: int, k: int)
    requires
        0 <= i < event.sections().len(),
        event.sections()[i].1.get_section("child-sas"@) is Some,
        0 <= k < (event.sections()[i].1.get_section("child-sas"@)->0).sections().len(),
    ensures
        ({
            let c = (event.sections()[i].1.get_section("child-sas"@)->0).sections()[k];
            let m = c.1;
            let r = sas_of(seq![event], 1)[i].children[k];
            &&& r.name == c.0
            &&& m.get_str("state"@) == Some(r.state) || m.get_str("state"@) is None
                && r.state.len() == 0
            &&& m.get_list("local-ts"@) == Some(r.local_ts) || m.get_list("local-ts"@) is None
                && r.local_ts.len() == 0
            &&& m.get_list("remote-ts"@) == Some(r.remote_ts) || m.get_list("remote-ts"@) is None
                && r.remote_ts.len() == 0
            &&& forall|n: u64|
                {
                    &&& m.get_str("bytes-in"@) == Some(#[trigger] decimal(n as nat)) ==> r.bytes_in
                        == n
                    &&& m.get_str("bytes-out"@) == Some(decimal(n as nat)) ==> r.bytes_out == n
                    &&& m.get_str("packets-in"@) == Some(decimal(n as nat)) ==> r.packets_in == n
                    &&& m.get_str("packets-out"@) == Some(decimal(n as nat)) ==> r.packets_out == n
                }
            &&& m.get_str("bytes-in"@) is None ==> r.bytes_in == 0
            &&& m.get_str("bytes-out"@) is None ==> r.bytes_out == 0
            &&& m.get_str("packets-in"@) is None ==> r.packets_in == 0
            &&& m.get_str("packets-out"@) is None ==> r.packets_out == 0
        }),
{
    reveal_with_fuel(sas_of, 2);
    assert(sas_of(seq![event], 1) =~= sas_in(event));
    let c = (event.sections()[i].1.get_section("child-sas"@)->0).sections()[k];
    let r = sas_of(seq![event], 1)[i].children[k];
    assert(r == child_of(c.0, c.1));
    assert forall|n: u64|
        {
            &&& c.1.get_str("bytes-in"@) == Some(#[trigger] decimal(n as nat)) ==> r.bytes_in == n
            &&& c.1.get_str("bytes-out"@) == Some(decimal(n as nat)) ==> r.bytes_out == n
            &&& c.1.get_str("packets-in"@) == Some(decimal(n as nat)) ==> r.packets_in == n
            &&& c.1.get_str("packets-out"@) == Some(decimal(n as nat)) ==> r.packets_out == n
        } by {
        law_number_reads_back(n as nat, u64::MAX as nat);
    }
}

proof fn lemma_child_lines_hold(v: Seq<ChildView>, n: int, k: int)
    requires
        0 <= k < n <= v.len(),
    ensures
        exists|i: int|
            #[trigger] occurs_at(child_lines(v, n), child_line(v[k]), i),
    decreases n,
{
    let whole = child_lines(v, n);
    let before = child_lines(v, n - 1);
    if k == n - 1 {
        assert(whole.subrange(before.len() as int, whole.len() as int) =~= child_line(v[k]));
        assert(occurs_at(whole, child_line(v[k]), before.len() as int));
    } else {
        lemma_child_lines_hold(v, n - 1, k);
        let i = choose|i: int| #[trigger] occurs_at(before, child_line(v[k]), i);
        lemma_stays_in(Seq::empty(), before, child_line(v[n - 1]), child_line(v[k]), i);
        assert(Seq::empty() + before + child_line(v[n - 1]) =~= whole);
    }
}

/// What stands in a text stands in every text around it.
proof fn lemma_stays_in(
    head: Seq<char>,
    s: Seq<char>,
    tail: Seq<char>,
    t: Seq<char>,
    i: int,
)
    requires
        occurs_at(s, t, i),
    ensures
        occurs_at(head + s + tail, t, head.len() + i),
{
    assert((head + s + tail).subrange(head.len() + i, head.len() + i + t.len()) =~= s.subrange(
        i,
        i + t.len(),
    ));
}

proof fn lemma_all_lines_hold(v: Seq<IkeView>, n: int, k: int)
    requires
        0 <= k < n <= v.len(),
    ensures
        exists|i: int| #[trigger] occurs_at(all_lines(v, n), ike_lines(v[k]), i),
    decreases n,
{
    let whole = all_lines(v, n);
    let before = all_lines(v, n - 1);
    if k == n - 1 {
        assert(whole.subrange(before.len() as int, whole.len() as int) =~= ike_lines(v[k]));
        assert(occurs_at(whole, ike_lines(v[k]), before.len() as int));
    } else {
        lemma_all_lines_hold(v, n - 1, k);
        let i = choose|i: int| #[trigger] occurs_at(before, ike_lines(v[k]), i);
        lemma_stays_in(Seq::empty(), before, ike_lines(v[n - 1]), ike_lines(v[k]), i);
        assert(Seq::empty() + before + ike_lines(v[n - 1]) =~= whole);
    }
}

proof fn lemma_three_parts(a: Seq<char>, b: Seq<char>, c: Seq<char>)
    ensures
        occurs_at(a + b + c, a, 0),
        occurs_at(a + b + c, b, a.len() as int),
{
    assert((a + b + c).subrange(0, a.len() as int) =~= a);
    assert((a + b + c).subrange(a.len() as int, (a.len() + b.len()) as int) =~= b);
}

proof fn lemma_shown(v: Seq<IkeView>, i: int, t: Seq<char>, j: int)
    requires
        0 <= i < v.len(),
        occurs_at(ike_lines(v[i]), t, j),
    ensures
        has(summary(v), t),
{
    let n = v.len() as int;
    lemma_all_lines_hold(v, n, i);
    let whole = all_lines(v, n);
    let part = ike_lines(v[i]);
    let at = choose|at: int| #[trigger] occurs_at(whole, part, at);
    let front = whole.take(at);
    let back = whole.skip(at + part.len());
    assert(front + part + back =~= whole);
    lemma_stays_in(front, part, back, t, j);
}

/// The summary shows every IKE SA with its state and hosts and with its virtual addresses, and every
/// CHILD_SA of it with its state, networks and byte counts; without any it says so.
pub proof fn law_summary_shows_every_sa(v: Seq<IkeView>, i: int, k: int)
    requires
        0 <= i < v.len(),
    ensures
        summary(Seq::empty()) == "No active IKE SAs."@,
        has(
            summary(v),
            "IKE_SA "@ + v[i].name + ": "@ + v[i].state + "  "@ + v[i].local_host + " -> "@
                + v[i].remote_host + "\n"@,
        ),
        v[i].virtual_ips.len() > 0 ==> has(
            summary(v),
            "  virtual IP: "@ + join_all(v[i].virtual_ips, ", "@) + "\n"@,
        ),
        0 <= k < v[i].children.len() ==> has(
            summary(v),
            "  CHILD_SA "@ + v[i].children[k].name + ": "@ + v[i].children[k].state + "  "@
                + join_all(v[i].children[k].local_ts, ","@) + " === "@ + join_all(
                v[i].children[k].remote_ts,
                ","@,
            ) + "  in="@ + decimal(v[i].children[k].bytes_in as nat) + "B out="@ + decimal(
                v[i].children[k].bytes_out as nat,
            ) + "B\n"@,
        ),
{
    let s = v[i];
    let head = "IKE_SA "@ + s.name + ": "@ + s.state + "  "@ + s.local_host + " -> "@
        + s.remote_host + "\n"@;
    let vips = if s.virtual_ips.len() > 0 {
        "  virtual IP: "@ + join_all(s.virtual_ips, ", "@) + "\n"@
    } else {
        Seq::empty()
    };
    let lines = child_lines(s.children, s.children.len() as int);
    assert(ike_lines(s) == head + vips + lines);
    lemma_three_parts(head, vips, lines);
    lemma_shown(v, i, head, 0);
    lemma_shown(v, i, vips, head.len() as int);
    if 0 <= k < s.children.len() {
        let c = child_line(s.children[k]);
        lemma_child_lines_hold(s.children, s.children.len() as int, k);
        let j = choose|j: int| #[trigger] occurs_at(lines, c, j);
        lemma_stays_in(head + vips, lines, Seq::empty(), c, j);
        assert(head + vips + lines + Seq::empty() =~= ike_lines(s));
        lemma_shown(v, i, c, (head + vips).len() + j);
    }
}

} // verus!
