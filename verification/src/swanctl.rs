//! Renders a connection as a strongSwan `swanctl.conf`.

use crate::control::bridge::cidr_texts;
use crate::model::{AuthMethod, ConfigView, ConnectionConfig};
use crate::text::{
    has, is_alnum, is_alphanumeric, join, join_all, joined, occurs_at, views,
};
use vstd::prelude::*;

verus! {

/// Whether the rendered text holds the real key or a redaction marker. `Redact` is for anything
/// that is shown or logged.
#[derive(Debug, Clone, Copy, PartialEq, Eq, Structural)]
pub enum SecretRendering {
    Include,
    Redact,
}

/// Whether a character may stand in a section name.
pub open spec fn is_name_char(c: char) -> bool {
    is_alnum(c) || c == '-' || c == '_'
}

/// A name with every other character replaced by `_`; never empty.
pub open spec fn sanitized(name: Seq<char>) -> Seq<char> {
    if name.len() == 0 {
        "conn"@
    } else {
        Seq::new(
            name.len(),
            |i: int|
                if is_name_char(name[i]) {
                    name[i]
                } else {
                    '_'
                },
        )
    }
}

/// Section names keep to a conservative charset, so that no profile name can give a config that
/// is invalid or ambiguous.
pub fn sanitize_name(name: &str) -> (r: String)
    ensures
        r@ == sanitized(name@),
{
    if name.is_empty() {
        return "conn".to_owned();
    }
    let mut out = String::new();
    for c in it: name.chars()
        invariant
            it.seq() == name@,
            out@ == Seq::new(
                it.index() as nat,
                |i: int|
                    if is_name_char(name@[i]) {
                        name@[i]
                    } else {
                        '_'
                    },
            ),
    {
        let ghost before = out@;
        let ghost n = it.index();
        if is_alphanumeric(c) || c == '-' || c == '_' {
            out.push(c);
        } else {
            out.push('_');
        }
        assert(out@ =~= Seq::new(
            (n + 1) as nat,
            |i: int|
                if is_name_char(name@[i]) {
                    name@[i]
                } else {
                    '_'
                },
        ));
    }
    assert(out@ =~= sanitized(name@));
    out
}

/// How one character stands inside quotes.
pub open spec fn escaped(c: char) -> Seq<char> {
    if c == '"' {
        "\\\""@
    } else if c == '\\' {
        "\\\\"@
    } else if c == '\n' {
        "\\n"@
    } else {
        seq![c]
    }
}

/// How the first `n` characters stand inside quotes.
pub open spec fn escaped_text(s: Seq<char>, n: int) -> Seq<char>
    decreases n,
{
    if n <= 0 {
        Seq::empty()
    } else {
        escaped_text(s, n - 1) + escaped(s[n - 1])
    }
}

/// A value in double quotes, with backslash escapes.
pub open spec fn quoted(s: Seq<char>) -> Seq<char> {
    "\""@ + escaped_text(s, s.len() as int) + "\""@
}

fn quote(value: &str) -> (r: String)
    ensures
        r@ == quoted(value@),
{
    let mut s = "\"".to_owned();
    for c in it: value.chars()
        invariant
            it.seq() == value@,
            s@ == "\""@ + escaped_text(value@, it.index() as int),
    {
        let ghost before = s@;
        let ghost n = it.index() as int;
        if c == '"' {
            s.append("\\\"");
        } else if c == '\\' {
            s.append("\\\\");
        } else if c == '\n' {
            s.append("\\n");
        } else {
            s.push(c);
            assert(s@ =~= before + seq![c]);
        }
        assert(value@[n] == c);
        assert(s@ =~= "\""@ + escaped_text(value@, n + 1));
    }
    s.append("\"");
    s
}

/// The connection part of the configuration.
pub open spec fn connection_text(c: ConfigView) -> Seq<char> {
    let name = sanitized(c.name);
    let remote_ts = join_all(cidr_texts(c.remote_subnets), ","@);
    "connections {\n    "@ + name + " {\n        version = "@ + c.ike_version.digit()
        + "\n        remote_addrs = "@ + c.gateway + "\n"@ + (if c.request_virtual_ip {
        "        vips = 0.0.0.0\n"@
    } else {
        Seq::empty()
    }) + "        proposals = "@ + c.ike_proposal()
        + "\n        local {\n            auth = psk\n"@ + (match c.local_id {
        Some(id) => "            id = "@ + quoted(id) + "\n"@,
        None => Seq::empty(),
    })
        + "        }\n        remote {\n            auth = psk\n        }\n        children {\n            "@
        + name + " {\n"@ + (if remote_ts.len() > 0 {
        "                remote_ts = "@ + remote_ts + "\n"@
    } else {
        Seq::empty()
    }) + "                esp_proposals = "@ + c.esp_proposal() + "\n"@ + (if c.compression {
        "                ipcomp = yes\n"@
    } else {
        Seq::empty()
    }) + "                start_action = none\n            }\n        }\n    }\n}\n\n"@
}

/// The secrets part of the configuration.
pub open spec fn secrets_text(c: ConfigView, shown: Seq<char>) -> Seq<char> {
    "secrets {\n    ike-"@ + sanitized(c.name) + " {\n"@ + (match c.local_id {
        Some(id) => "        id = "@ + quoted(id) + "\n"@,
        None => Seq::empty(),
    }) + "        secret = "@ + quoted(shown) + "\n    }\n}\n"@
}

/// The whole configuration.
pub open spec fn rendered(c: ConfigView, secrets: SecretRendering) -> Seq<char> {
    connection_text(c) + secrets_text(
        c,
        match secrets {
            SecretRendering::Include => c.secret,
            SecretRendering::Redact => "***REDACTED***"@,
        },
    )
}

fn subnet_list(config: &ConnectionConfig) -> (r: String)
    ensures
        r@ == join_all(cidr_texts(config@.remote_subnets), ","@),
{
    let mut out: Vec<String> = Vec::new();
    let mut i: usize = 0;
    while i < config.remote_subnets.len()
        invariant
            i <= config.remote_subnets@.len(),
            out@.len() == i,
            forall|k: int|
                0 <= k < i ==> (#[trigger] out@[k])@ == config.remote_subnets@[k].cidr(),
        decreases config.remote_subnets@.len() - i,
    {
        out.push(config.remote_subnets[i].to_text());
        i = i + 1;
    }
    assert(views(out@) =~= cidr_texts(config@.remote_subnets));
    join(&out, ",")
}

fn render_connection(config: &ConnectionConfig) -> (r: String)
    ensures
        r@ == connection_text(config@),
{
    let name = sanitize_name(config.name.as_str());
    let remote_ts = subnet_list(config);
    let mut out = "connections {\n    ".to_owned();
    out.append(name.as_str());
    out.append(" {\n        version = ");
    out.append(config.ike_version.swanctl_value());
    out.append("\n        remote_addrs = ");
    out.append(config.gateway.as_str());
    out.append("\n");
    if config.request_virtual_ip {
        out.append("        vips = 0.0.0.0\n");
    } else {
        assert(out@ + Seq::<char>::empty() =~= out@);
    }
    out.append("        proposals = ");
    out.append(config.ike_proposal().as_str());
    out.append("\n        local {\n            auth = psk\n");
    let ghost before = out@;
    if let Some(id) = &config.local_id {
        out.append("            id = ");
        out.append(quote(id.as_str()).as_str());
        out.append("\n");
        assert(out@ =~= before + ("            id = "@ + quoted(id@) + "\n"@));
    } else {
        assert(out@ + Seq::<char>::empty() =~= out@);
    }
    out.append(
        "        }\n        remote {\n            auth = psk\n        }\n        children {\n            ",
    );
    out.append(name.as_str());
    out.append(" {\n");
    let ghost before = out@;
    if !remote_ts.as_str().is_empty() {
        out.append("                remote_ts = ");
        out.append(remote_ts.as_str());
        out.append("\n");
        assert(out@ =~= before + ("                remote_ts = "@ + remote_ts@ + "\n"@));
    } else {
        assert(out@ + Seq::<char>::empty() =~= out@);
    }
    out.append("                esp_proposals = ");
    out.append(config.esp_proposal().as_str());
    out.append("\n");
    if config.compression {
        out.append("                ipcomp = yes\n");
    } else {
        assert(out@ + Seq::<char>::empty() =~= out@);
    }
    out.append("                start_action = none\n            }\n        }\n    }\n}\n\n");
    out
}

fn render_secrets(config: &ConnectionConfig, shown: &str) -> (r: String)
    ensures
        r@ == secrets_text(config@, shown@),
{
    let mut out = "secrets {\n    ike-".to_owned();
    out.append(sanitize_name(config.name.as_str()).as_str());
    out.append(" {\n");
    let ghost before = out@;
    if let Some(id) = &config.local_id {
        out.append("        id = ");
        out.append(quote(id.as_str()).as_str());
        out.append("\n");
        assert(out@ =~= before + ("        id = "@ + quoted(id@) + "\n"@));
    } else {
        assert(out@ + Seq::<char>::empty() =~= out@);
    }
    out.append("        secret = ");
    out.append(quote(shown).as_str());
    out.append("\n    }\n}\n");
    out
}

/// Renders the configuration of a connection.
pub fn render(config: &ConnectionConfig, secrets: SecretRendering) -> (r: String)
    ensures
        r@ == rendered(config@, secrets),
{
    let AuthMethod::PresharedKey(psk) = &config.auth;
    let mut out = render_connection(config);
    let rest = match secrets {
        SecretRendering::Include => render_secrets(config, psk.expose()),
        SecretRendering::Redact => render_secrets(config, psk.display()),
    };
    out.append(rest.as_str());
    out
}

/// A redacted configuration does not depend on the pre-shared key.
pub proof fn law_redacted_hides_the_secret(c: ConfigView, secret: Seq<char>)
    ensures
        rendered(ConfigView { secret, ..c }, SecretRendering::Redact) == rendered(
            c,
            SecretRendering::Redact,
        ),
{
}

/// A section name is never empty and keeps to its charset, whatever the profile is called.
pub proof fn law_sanitized_keeps_to_its_charset(name: Seq<char>)
    ensures
        sanitized(name).len() > 0,
        forall|i: int| 0 <= i < sanitized(name).len() ==> is_name_char(#[trigger] sanitized(name)[i]),
{
    reveal_strlit("conn");
}

/// A section name stays as it is when it is made again.
pub proof fn law_sanitized_is_stable(name: Seq<char>)
    ensures
        sanitized(sanitized(name)) == sanitized(name),
{
    let s = sanitized(name);
    law_sanitized_keeps_to_its_charset(name);
    assert(sanitized(s) =~= s);
}

proof fn lemma_escaped_text(s: Seq<char>, n: int)
    requires
        0 <= n <= s.len(),
    ensures
        forall|k: int| 0 <= k < escaped_text(s, n).len() ==> #[trigger] escaped_text(s, n)[k]
            != '\n',
        ends_escaped(escaped_text(s, n)),
    decreases n,
{
    if n > 0 {
        lemma_escaped_text(s, n - 1);
        reveal_strlit("\\\"");
        reveal_strlit("\\\\");
        reveal_strlit("\\n");
        let head = escaped_text(s, n - 1);
        let last = escaped(s[n - 1]);
        let whole = escaped_text(s, n);
        assert forall|k: int| 0 <= k < whole.len() implies #[trigger] whole[k] != '\n' by {
            if k < head.len() {
                assert(whole[k] == head[k]);
            } else {
                assert(whole[k] == last[k - head.len()]);
            }
        }
        lemma_scan_of_two(head, last);
        if last.len() == 2 {
            reveal_with_fuel(scan, 3);
            assert(last.drop_last().drop_last() =~= Seq::empty());
            assert(last.drop_last()[0] == last[0]);
        } else {
            reveal_with_fuel(scan, 2);
            assert(last.drop_last() =~= Seq::empty());
        }
    }
}

/// What a reader of a quoted value knows after some characters of it.
pub enum Scan {
    /// Inside the quotes.
    Inside,
    /// Inside the quotes, after a backslash.
    Escape,
    /// After a quote that ends the value.
    Ended,
}

/// How a reader takes one more character.
pub open spec fn scanned(state: Scan, c: char) -> Scan {
    match state {
        Scan::Inside => if c == '\\' {
            Scan::Escape
        } else if c == '"' {
            Scan::Ended
        } else {
            Scan::Inside
        },
        Scan::Escape => Scan::Inside,
        Scan::Ended => Scan::Ended,
    }
}

/// What a reader knows after a text, from a state.
pub open spec fn scan(state: Scan, s: Seq<char>) -> Scan
    decreases s.len(),
{
    if s.len() == 0 {
        state
    } else {
        scanned(scan(state, s.drop_last()), s.last())
    }
}

/// Whether a reader is still inside the quotes after the text.
pub open spec fn ends_escaped(s: Seq<char>) -> bool {
    scan(Scan::Inside, s) is Inside
}

proof fn lemma_scan_of_two(a: Seq<char>, b: Seq<char>)
    ensures
        scan(Scan::Inside, a + b) == scan(scan(Scan::Inside, a), b),
    decreases b.len(),
{
    if b.len() == 0 {
        assert(a + b =~= a);
    } else {
        lemma_scan_of_two(a, b.drop_last());
        assert((a + b).drop_last() =~= a + b.drop_last());
    }
}

/// A quoted value ends at its last character and stays on its line, whatever it holds: no identity
/// and no key can end its value early or begin another setting.
pub proof fn law_quoted_cannot_break_out(s: Seq<char>)
    ensures
        ({
            let q = quoted(s);
            let inner = q.subrange(1, q.len() - 1);
            &&& q.len() >= 2 && q[0] == '"' && q.last() == '"'
            &&& forall|k: int| 0 <= k < q.len() ==> #[trigger] q[k] != '\n'
            &&& scan(Scan::Inside, inner) is Inside
            &&& scan(Scan::Inside, inner.push('"')) is Ended
        }),
{
    reveal_strlit("\"");
    lemma_escaped_text(s, s.len() as int);
    let q = quoted(s);
    let e = escaped_text(s, s.len() as int);
    let inner = q.subrange(1, q.len() - 1);
    assert(inner =~= e);
    assert(inner.push('"').drop_last() =~= inner);
    assert forall|k: int| 0 <= k < q.len() implies #[trigger] q[k] != '\n' by {
        if 1 <= k < q.len() - 1 {
            assert(q[k] == e[k - 1]);
        }
    }
}

proof fn lemma_line(p: Seq<char>, a: Seq<char>, b: Seq<char>, c: Seq<char>)
    ensures
        has(p + a + b + c, a + b + c),
{
    let whole = p + a + b + c;
    assert(whole.subrange(p.len() as int, whole.len() as int) =~= a + b + c);
    assert(occurs_at(whole, a + b + c, p.len() as int));
}

proof fn lemma_lift(s: Seq<char>, x: Seq<char>, t: Seq<char>)
    requires
        has(s, t),
    ensures
        has(s + x, t),
{
    let i = choose|i: int| occurs_at(s, t, i);
    assert((s + x).subrange(i, i + t.len()) =~= s.subrange(i, i + t.len()));
    assert(occurs_at(s + x, t, i));
}

proof fn lemma_lift_over(x: Seq<char>, s: Seq<char>, t: Seq<char>)
    requires
        has(s, t),
    ensures
        has(x + s, t),
{
    let i = choose|i: int| occurs_at(s, t, i);
    assert((x + s).subrange(x.len() + i, x.len() + i + t.len()) =~= s.subrange(i, i + t.len()));
    assert(occurs_at(x + s, t, x.len() + i));
}

/// The connection part up to the children.
proof fn lemma_connection_lines(c: ConfigView)
    ensures
        has(
            connection_text(c),
            " {\n        version = "@ + c.ike_version.digit() + "\n        remote_addrs = "@,
        ),
        has(connection_text(c), "\n        remote_addrs = "@ + c.gateway + "\n"@),
        has(
            connection_text(c),
            "        proposals = "@ + c.ike_proposal()
                + "\n        local {\n            auth = psk\n"@,
        ),
        has(connection_text(c), "                esp_proposals = "@ + c.esp_proposal() + "\n"@),
        c.request_virtual_ip ==> has(connection_text(c), "        vips = 0.0.0.0\n"@),
        c.compression ==> has(connection_text(c), "                ipcomp = yes\n"@),
        c.local_id matches Some(id) ==> has(
            connection_text(c),
            "            id = "@ + quoted(id) + "\n"@,
        ),
        c.remote_subnets.len() > 0 ==> has(
            connection_text(c),
            "                remote_ts = "@ + join_all(cidr_texts(c.remote_subnets), ","@) + "\n"@,
        ),
{
    let none = Seq::<char>::empty();
    let name = sanitized(c.name);
    let remote_ts = join_all(cidr_texts(c.remote_subnets), ","@);
    if c.remote_subnets.len() > 0 {
        lemma_networks_are_text(c);
    }
    let v = c.ike_version.digit();
    let vips = if c.request_virtual_ip {
        "        vips = 0.0.0.0\n"@
    } else {
        none
    };
    let id = match c.local_id {
        Some(id) => "            id = "@ + quoted(id) + "\n"@,
        None => none,
    };
    let nets = if remote_ts.len() > 0 {
        "                remote_ts = "@ + remote_ts + "\n"@
    } else {
        none
    };
    let comp = if c.compression {
        "                ipcomp = yes\n"@
    } else {
        none
    };
    let version = " {\n        version = "@;
    let addrs = "\n        remote_addrs = "@;
    let psk = "\n        local {\n            auth = psk\n"@;
    let middle =
        "        }\n        remote {\n            auth = psk\n        }\n        children {\n            "@;
    let p0 = "connections {\n    "@ + name;
    let p1 = p0 + version + v + addrs;
    let p2 = p1 + c.gateway + "\n"@;
    let p3 = p2 + vips;
    let p4 = p3 + "        proposals = "@ + c.ike_proposal() + psk;
    let p5 = p4 + id;
    let p6 = p5 + middle;
    let p7 = p6 + name;
    let p8 = p7 + " {\n"@;
    let p9 = p8 + nets;
    let p10 = p9 + "                esp_proposals = "@ + c.esp_proposal() + "\n"@;
    let p11 = p10 + comp;
    let end = "                start_action = none\n            }\n        }\n    }\n}\n\n"@;
    assert(connection_text(c) == p11 + end);
    lemma_line(p0, version, v, addrs);
    lemma_line(p0 + version + v, addrs, c.gateway, "\n"@);
    lemma_line(p2, none, none, vips);
    assert(p2 + none + none + vips =~= p3);
    assert(none + none + vips =~= vips);
    lemma_line(p3, "        proposals = "@, c.ike_proposal(), psk);
    lemma_line(p4, none, none, id);
    assert(p4 + none + none + id =~= p5);
    assert(none + none + id =~= id);
    lemma_line(p8, none, none, nets);
    assert(p8 + none + none + nets =~= p9);
    assert(none + none + nets =~= nets);
    lemma_line(p9, "                esp_proposals = "@, c.esp_proposal(), "\n"@);
    lemma_line(p10, none, none, comp);
    assert(p10 + none + none + comp =~= p11);
    assert(none + none + comp =~= comp);
    let t1 = version + v + addrs;
    let t2 = addrs + c.gateway + "\n"@;
    let t3 = vips;
    let t4 = "        proposals = "@ + c.ike_proposal() + psk;
    let t5 = id;
    let t6 = nets;
    let t7 = "                esp_proposals = "@ + c.esp_proposal() + "\n"@;
    let t8 = comp;
    lemma_lift(p1, c.gateway, t1);
    lemma_lift(p1 + c.gateway, "\n"@, t1);
    lemma_from_p2(p2, vips, c.ike_proposal(), psk, p4, t1);
    lemma_from_p2(p2, vips, c.ike_proposal(), psk, p4, t2);
    lemma_lift(p3, "        proposals = "@, t3);
    lemma_lift(p3 + "        proposals = "@, c.ike_proposal(), t3);
    lemma_lift(p3 + "        proposals = "@ + c.ike_proposal(), psk, t3);
    lemma_from_p4(p4, id, middle, name, p8, t1);
    lemma_from_p4(p4, id, middle, name, p8, t2);
    lemma_from_p4(p4, id, middle, name, p8, t3);
    lemma_from_p4(p4, id, middle, name, p8, t4);
    lemma_lift(p5, middle, t5);
    lemma_lift(p6, name, t5);
    lemma_lift(p7, " {\n"@, t5);
    lemma_from_p8(p8, nets, c.esp_proposal(), comp, end, t1);
    lemma_from_p8(p8, nets, c.esp_proposal(), comp, end, t2);
    lemma_from_p8(p8, nets, c.esp_proposal(), comp, end, t3);
    lemma_from_p8(p8, nets, c.esp_proposal(), comp, end, t4);
    lemma_from_p8(p8, nets, c.esp_proposal(), comp, end, t5);
    lemma_lift(p9, "                esp_proposals = "@, t6);
    lemma_lift(p9 + "                esp_proposals = "@, c.esp_proposal(), t6);
    lemma_lift(p9 + "                esp_proposals = "@ + c.esp_proposal(), "\n"@, t6);
    lemma_lift(p10, comp, t6);
    lemma_lift(p11, end, t6);
    lemma_lift(p10, comp, t7);
    lemma_lift(p11, end, t7);
    lemma_lift(p11, end, t8);
}

proof fn lemma_from_p2(
    p2: Seq<char>,
    vips: Seq<char>,
    ike: Seq<char>,
    psk: Seq<char>,
    p4: Seq<char>,
    t: Seq<char>,
)
    requires
        has(p2, t),
        p4 == p2 + vips + "        proposals = "@ + ike + psk,
    ensures
        has(p4, t),
{
    lemma_lift(p2, vips, t);
    lemma_lift(p2 + vips, "        proposals = "@, t);
    lemma_lift(p2 + vips + "        proposals = "@, ike, t);
    lemma_lift(p2 + vips + "        proposals = "@ + ike, psk, t);
}

proof fn lemma_from_p4(
    p4: Seq<char>,
    id: Seq<char>,
    middle: Seq<char>,
    name: Seq<char>,
    p8: Seq<char>,
    t: Seq<char>,
)
    requires
        has(p4, t),
        p8 == p4 + id + middle + name + " {\n"@,
    ensures
        has(p8, t),
{
    lemma_lift(p4, id, t);
    lemma_lift(p4 + id, middle, t);
    lemma_lift(p4 + id + middle, name, t);
    lemma_lift(p4 + id + middle + name, " {\n"@, t);
}

proof fn lemma_from_p8(
    p8: Seq<char>,
    nets: Seq<char>,
    esp: Seq<char>,
    comp: Seq<char>,
    end: Seq<char>,
    t: Seq<char>,
)
    requires
        has(p8, t),
    ensures
        has(p8 + nets + "                esp_proposals = "@ + esp + "\n"@ + comp + end, t),
{
    let p9 = p8 + nets;
    lemma_lift(p8, nets, t);
    lemma_lift(p9, "                esp_proposals = "@, t);
    lemma_lift(p9 + "                esp_proposals = "@, esp, t);
    lemma_lift(p9 + "                esp_proposals = "@ + esp, "\n"@, t);
    lemma_lift(p9 + "                esp_proposals = "@ + esp + "\n"@, comp, t);
    lemma_lift(p9 + "                esp_proposals = "@ + esp + "\n"@ + comp, end, t);
}

proof fn lemma_joined_is_long(v: Seq<Seq<char>>, n: int)
    requires
        1 <= n <= v.len(),
        v[0].len() > 0,
    ensures
        joined(v, ","@, n).len() > 0,
    decreases n,
{
    if n > 1 {
        lemma_joined_is_long(v, n - 1);
    }
}

proof fn lemma_networks_are_text(c: ConfigView)
    requires
        c.remote_subnets.len() > 0,
    ensures
        join_all(cidr_texts(c.remote_subnets), ","@).len() > 0,
{
    let v = cidr_texts(c.remote_subnets);
    reveal_strlit("/");
    assert(v[0].len() > 0);
    lemma_joined_is_long(v, v.len() as int);
}

/// The rendered configuration says what the connection says: it dials the gateway, speaks the
/// version and proposes the algorithms of each phase, and it has a line for the virtual address,
/// compression, the identity and the networks where the connection has them.
pub proof fn law_rendered_says_what_the_connection_says(c: ConfigView, secrets: SecretRendering)
    ensures
        ({
            let t = rendered(c, secrets);
            &&& has(t, " {\n        version = "@ + c.ike_version.digit() + "\n        remote_addrs = "@)
            &&& has(t, "\n        remote_addrs = "@ + c.gateway + "\n"@)
            &&& has(
                t,
                "        proposals = "@ + c.ike_proposal()
                    + "\n        local {\n            auth = psk\n"@,
            )
            &&& has(t, "                esp_proposals = "@ + c.esp_proposal() + "\n"@)
            &&& c.request_virtual_ip ==> has(t, "        vips = 0.0.0.0\n"@)
            &&& c.compression ==> has(t, "                ipcomp = yes\n"@)
            &&& c.local_id matches Some(id) ==> has(t, "            id = "@ + quoted(id) + "\n"@)
            &&& c.remote_subnets.len() > 0 ==> has(
                t,
                "                remote_ts = "@ + join_all(cidr_texts(c.remote_subnets), ","@)
                    + "\n"@,
            )
        }),
{
    let shown = match secrets {
        SecretRendering::Include => c.secret,
        SecretRendering::Redact => "***REDACTED***"@,
    };
    let rest = secrets_text(c, shown);
    let conn = connection_text(c);
    lemma_connection_lines(c);
    lemma_lift(
        conn,
        rest,
        " {\n        version = "@ + c.ike_version.digit() + "\n        remote_addrs = "@,
    );
    lemma_lift(conn, rest, "\n        remote_addrs = "@ + c.gateway + "\n"@);
    lemma_lift(
        conn,
        rest,
        "        proposals = "@ + c.ike_proposal()
            + "\n        local {\n            auth = psk\n"@,
    );
    lemma_lift(conn, rest, "                esp_proposals = "@ + c.esp_proposal() + "\n"@);
    if c.request_virtual_ip {
        lemma_lift(conn, rest, "        vips = 0.0.0.0\n"@);
    }
    if c.compression {
        lemma_lift(conn, rest, "                ipcomp = yes\n"@);
    }
    if let Some(id) = c.local_id {
        lemma_lift(conn, rest, "            id = "@ + quoted(id) + "\n"@);
    }
    if c.remote_subnets.len() > 0 {
        lemma_lift(
            conn,
            rest,
            "                remote_ts = "@ + join_all(cidr_texts(c.remote_subnets), ","@) + "\n"@,
        );
    }
}

/// The secret of the rendered configuration is the key itself where it is asked for, and else the
/// mark that stands for it; it belongs to the identity of the connection.
pub proof fn law_rendered_holds_the_secret(c: ConfigView)
    ensures
        has(
            rendered(c, SecretRendering::Include),
            "        secret = "@ + quoted(c.secret) + "\n    }\n}\n"@,
        ),
        has(
            rendered(c, SecretRendering::Redact),
            "        secret = "@ + quoted("***REDACTED***"@) + "\n    }\n}\n"@,
        ),
{
    lemma_secret_line(c, c.secret);
    lemma_secret_line(c, "***REDACTED***"@);
    lemma_lift_over(
        connection_text(c),
        secrets_text(c, c.secret),
        "        secret = "@ + quoted(c.secret) + "\n    }\n}\n"@,
    );
    lemma_lift_over(
        connection_text(c),
        secrets_text(c, "***REDACTED***"@),
        "        secret = "@ + quoted("***REDACTED***"@) + "\n    }\n}\n"@,
    );
}

proof fn lemma_secret_line(c: ConfigView, shown: Seq<char>)
    ensures
        has(secrets_text(c, shown), "        secret = "@ + quoted(shown) + "\n    }\n}\n"@),
{
    let front = "secrets {\n    ike-"@ + sanitized(c.name) + " {\n"@ + (match c.local_id {
        Some(id) => "        id = "@ + quoted(id) + "\n"@,
        None => Seq::empty(),
    });
    lemma_line(front, "        secret = "@, quoted(shown), "\n    }\n}\n"@);
}

/// The length of the connection part: that of its lines.
proof fn lemma_length(c: ConfigView)
    ensures
        connection_text(c).len() == "connections {\n    "@.len() + 2 * sanitized(c.name).len()
            + " {\n        version = "@.len() + c.ike_version.digit().len()
            + "\n        remote_addrs = "@.len() + c.gateway.len() + 2 * "\n"@.len() + (
        if c.request_virtual_ip {
            "        vips = 0.0.0.0\n"@.len() as int
        } else {
            0
        }) + "        proposals = "@.len() + c.ike_proposal().len()
            + "\n        local {\n            auth = psk\n"@.len() + (match c.local_id {
            Some(id) => ("            id = "@ + quoted(id) + "\n"@).len() as int,
            None => 0,
        })
            + "        }\n        remote {\n            auth = psk\n        }\n        children {\n            "@.len()
            + " {\n"@.len() + (if join_all(cidr_texts(c.remote_subnets), ","@).len() > 0 {
            ("                remote_ts = "@ + join_all(cidr_texts(c.remote_subnets), ","@)
                + "\n"@).len() as int
        } else {
            0
        }) + "                esp_proposals = "@.len() + c.esp_proposal().len() + (
        if c.compression {
            "                ipcomp = yes\n"@.len() as int
        } else {
            0
        }) + "                start_action = none\n            }\n        }\n    }\n}\n\n"@.len(),
{
}

/// What is not asked for is not there: without the virtual address or compression the text is shorter
/// by just that line.
pub proof fn law_optional_lines_come_and_go(c: ConfigView)
    ensures
        connection_text(ConfigView { request_virtual_ip: true, ..c }).len() == connection_text(
            ConfigView { request_virtual_ip: false, ..c },
        ).len() + "        vips = 0.0.0.0\n"@.len(),
        connection_text(ConfigView { compression: true, ..c }).len() == connection_text(
            ConfigView { compression: false, ..c },
        ).len() + "                ipcomp = yes\n"@.len(),
{
    let a = ConfigView { request_virtual_ip: true, ..c };
    let b = ConfigView { request_virtual_ip: false, ..c };
    assert(a.ike_proposal() == b.ike_proposal() && a.esp_proposal() == b.esp_proposal());
    let d = ConfigView { compression: true, ..c };
    let e = ConfigView { compression: false, ..c };
    assert(d.ike_proposal() == e.ike_proposal() && d.esp_proposal() == e.esp_proposal());
    lemma_length(a);
    lemma_length(b);
    lemma_length(d);
    lemma_length(e);
}

} // verus!
