//! Sophos Connect provisioning files (`.pro`).
//!
//! A `.pro` is not a connection profile: it points to a customer's user portal, from which
//! the real profile is downloaded. The importer says so precisely, rather than failing with a
//! parse error that makes a valid file look corrupt.

use crate::json::{self, json_text, Json, JsonView};
use crate::sophos::error::{ErrorView, ImportError};
use crate::sophos::record::{
    bool_field, check_record, field, get_bool, get_field, get_text, is_record, text_field,
};
use crate::text::{decimal, format_u64, trim, trimmed};
use vstd::prelude::*;

verus! {

/// One entry of a provisioning file. Unknown fields are ignored: the format grows across
/// releases.
#[derive(Debug)]
pub struct Provisioning {
    pub display_name: String,
    pub gateway: String,
    /// HTTPS port of the user portal that the profile is downloaded from.
    pub user_portal_port: Option<u16>,
    /// The portal expects a one-time password as well as the user's own.
    pub otp: bool,
    /// Whether the client may remember the portal credentials.
    pub can_save_credentials: bool,
}

/// The content of a [`Provisioning`].
pub struct ProvisioningView {
    pub display_name: Seq<char>,
    pub gateway: Seq<char>,
    pub user_portal_port: Option<u16>,
    pub otp: bool,
    pub can_save_credentials: bool,
}

impl View for Provisioning {
    type V = ProvisioningView;

    open spec fn view(&self) -> ProvisioningView {
        ProvisioningView {
            display_name: self.display_name@,
            gateway: self.gateway@,
            user_portal_port: self.user_portal_port,
            otp: self.otp,
            can_save_credentials: self.can_save_credentials,
        }
    }
}

impl ProvisioningView {
    /// The address of the portal; the standard HTTPS port is left off.
    pub open spec fn portal_url(self) -> Option<Seq<char>> {
        let host = trimmed(self.gateway);
        if host.len() == 0 {
            None
        } else {
            match self.user_portal_port {
                Some(port) => if port != 443 {
                    Some("https://"@ + host + ":"@ + decimal(port as nat))
                } else {
                    Some("https://"@ + host)
                },
                None => Some("https://"@ + host),
            }
        }
    }

    /// What to call the entry: its display name, or its gateway without one.
    pub open spec fn label(self) -> Seq<char> {
        if trimmed(self.display_name).len() == 0 {
            trimmed(self.gateway)
        } else {
            trimmed(self.display_name)
        }
    }
}

impl Provisioning {
    /// The user portal that a person signs in to.
    pub fn portal_url(&self) -> (r: Option<String>)
        ensures
            crate::model::opt_view(r) == self@.portal_url(),
    {
        let host = trim(self.gateway.as_str());
        if host.as_str().is_empty() {
            return None;
        }
        let mut s = "https://".to_owned();
        s.append(host.as_str());
        if let Some(port) = self.user_portal_port {
            if port != 443 {
                s.append(":");
                s.append(format_u64(port as u64).as_str());
            }
        }
        Some(s)
    }

    /// What to call the entry.
    pub fn label(&self) -> (r: String)
        ensures
            r@ == self@.label(),
    {
        let name = trim(self.display_name.as_str());
        if name.as_str().is_empty() {
            trim(self.gateway.as_str())
        } else {
            name
        }
    }
}

/// The port in an entry: absent and `null` are the same.
pub open spec fn port_field(j: JsonView) -> Option<Option<u16>> {
    match field(j, "user_portal_port"@, 2) {
        None => Some(None),
        Some(JsonView::Null) => Some(None),
        Some(JsonView::Number(Some(n))) => if n <= 0xFFFF {
            Some(Some(n as u16))
        } else {
            None
        },
        Some(_) => None,
    }
}

/// One entry, when the value has the shape of one.
pub open spec fn entry_of(j: JsonView) -> Option<ProvisioningView> {
    match (
        text_field(j, "display_name"@, 0),
        text_field(j, "gateway"@, 1),
        port_field(j),
        bool_field(j, "otp"@, 3),
        bool_field(j, "can_save_credentials"@, 4),
    ) {
        (
            Some(display_name),
            Some(gateway),
            Some(user_portal_port),
            Some(otp),
            Some(can_save_credentials),
        ) => if is_record(j, 3, 5) {
            Some(
                ProvisioningView {
                    display_name,
                    gateway,
                    user_portal_port,
                    otp,
                    can_save_credentials,
                },
            )
        } else {
            None
        },
        _ => None,
    }
}

/// The entries that the first `n` items make; those without a gateway are dropped.
pub open spec fn entries_of(v: Seq<JsonView>, n: int) -> Option<Seq<ProvisioningView>>
    decreases n,
{
    if n <= 0 {
        Some(Seq::empty())
    } else {
        match (entries_of(v, n - 1), entry_of(v[n - 1])) {
            (Some(s), Some(e)) => if trimmed(e.gateway).len() == 0 {
                Some(s)
            } else {
                Some(s.push(e))
            },
            _ => None,
        }
    }
}

/// What a JSON value comes to as a provisioning file: an array of entries.
pub open spec fn provisioning_of(j: JsonView) -> Option<Seq<ProvisioningView>> {
    match j {
        JsonView::Array(v) => entries_of(v, v.len() as int),
        _ => None,
    }
}

/// The contents of a list of entries.
pub open spec fn provisioning_views(v: Seq<Provisioning>) -> Seq<ProvisioningView> {
    Seq::new(v.len(), |i: int| v[i]@)
}

/// What the text of a provisioning file comes to.
pub open spec fn provisioning_text(input: Seq<char>) -> Result<Seq<ProvisioningView>, ErrorView> {
    match json_text(input) {
        Err(e) => Err(ErrorView::Json(e)),
        Ok(j) => match provisioning_of(j) {
            Some(v) => Ok(v),
            None => Err(
                ErrorView::Json("the value does not have the shape of a provisioning file"@),
            ),
        },
    }
}

fn decode_port(j: &Json) -> (r: Option<Option<u16>>)
    ensures
        r == port_field(j@),
{
    match get_field(j, "user_portal_port", 2) {
        None => Some(None),
        Some(Json::Null) => Some(None),
        Some(Json::Number(Some(n))) => if *n <= 0xFFFF {
            Some(Some(*n as u16))
        } else {
            None
        },
        Some(_) => None,
    }
}

fn decode_entry(j: &Json) -> (r: Option<Provisioning>)
    ensures
        match r {
            Some(e) => entry_of(j@) == Some(e@),
            None => entry_of(j@) is None,
        },
{
    if !check_record(j, 3, 5) {
        return None;
    }
    match (
        get_text(j, "display_name", 0),
        get_text(j, "gateway", 1),
        decode_port(j),
        get_bool(j, "otp", 3),
        get_bool(j, "can_save_credentials", 4),
    ) {
        (
            Some(display_name),
            Some(gateway),
            Some(user_portal_port),
            Some(otp),
            Some(can_save_credentials),
        ) => Some(
            Provisioning { display_name, gateway, user_portal_port, otp, can_save_credentials },
        ),
        _ => None,
    }
}

proof fn lemma_not_entries(v: Seq<JsonView>, n: int, m: int)
    requires
        0 <= n <= m,
        entries_of(v, n) is None,
    ensures
        entries_of(v, m) is None,
    decreases m - n,
{
    if n < m {
        lemma_not_entries(v, n, m - 1);
    }
}

/// The entries of a JSON value that is a provisioning file.
pub fn decode(j: &Json) -> (r: Option<Vec<Provisioning>>)
    ensures
        match r {
            Some(v) => provisioning_of(j@) == Some(provisioning_views(v@)),
            None => provisioning_of(j@) is None,
        },
{
    match j {
        Json::Array(v) => {
            let ghost all = j@->Array_0;
            let mut out: Vec<Provisioning> = Vec::new();
            let mut i: usize = 0;
            assert(provisioning_views(out@) =~= Seq::empty());
            while i < v.len()
                invariant
                    i <= v@.len(),
                    all.len() == v@.len(),
                    forall|k: int| 0 <= k < v@.len() ==> #[trigger] all[k] == v@[k]@,
                    provisioning_of(j@) == entries_of(all, all.len() as int),
                    entries_of(all, i as int) == Some(provisioning_views(out@)),
                decreases v@.len() - i,
            {
                assert(all[i as int] == v@[i as int]@);
                match decode_entry(&v[i]) {
                    None => {
                        proof {
                            lemma_not_entries(all, i + 1, all.len() as int);
                        }
                        return None;
                    },
                    Some(e) => {
                        if !trim(e.gateway.as_str()).as_str().is_empty() {
                            let ghost before = out@;
                            let ghost seen = e@;
                            out.push(e);
                            assert(provisioning_views(out@) =~= provisioning_views(before).push(
                                seen,
                            ));
                        }
                    },
                }
                i = i + 1;
            }
            Some(out)
        },
        _ => None,
    }
}

/// Reads a provisioning file. Entries without a gateway are dropped.
///
/// The text is read as JSON first and as a provisioning file second. So a value of another shape gets one
/// fixed error text, of a key that is repeated in an object the last value counts, and a field that
/// nobody asks for is still refused when it is nested deeper than `serde_json` reads.
pub fn parse(input: &str) -> (r: Result<Vec<Provisioning>, ImportError>)
    ensures
        match r {
            Ok(v) => provisioning_text(input@) == Ok::<Seq<ProvisioningView>, ErrorView>(
                provisioning_views(v@),
            ),
            Err(e) => provisioning_text(input@) == Err::<Seq<ProvisioningView>, ErrorView>(e@),
        },
{
    match json::parse(input) {
        Err(e) => Err(ImportError::Json(e)),
        Ok(j) => match decode(&j) {
            Some(v) => Ok(v),
            None => Err(
                ImportError::Json(
                    "the value does not have the shape of a provisioning file".to_owned(),
                ),
            ),
        },
    }
}

/// Whether a text is a provisioning file: an array with at least one entry. A profile is an
/// object.
pub open spec fn is_provisioning(input: Seq<char>) -> bool {
    match provisioning_text(input) {
        Ok(v) => v.len() > 0,
        Err(_) => false,
    }
}

/// Whether a text is a provisioning file.
pub fn looks_like(input: &str) -> (r: bool)
    ensures
        r == is_provisioning(input@),
{
    match parse(input) {
        Ok(v) => {
            assert(provisioning_views(v@).len() == v@.len());
            v.len() > 0
        },
        Err(_) => false,
    }
}

proof fn lemma_entries_of_start(a: Seq<JsonView>, b: Seq<JsonView>, n: int)
    requires
        0 <= n <= a.len(),
    ensures
        entries_of(a + b, n) == entries_of(a, n),
    decreases n,
{
    if n > 0 {
        lemma_entries_of_start(a, b, n - 1);
        assert((a + b)[n - 1] == a[n - 1]);
    }
}

proof fn lemma_entries_of_two(a: Seq<JsonView>, b: Seq<JsonView>, n: int)
    requires
        0 <= n <= b.len(),
    ensures
        entries_of(a + b, a.len() + n) == (match (entries_of(a, a.len() as int), entries_of(b, n)) {
            (Some(x), Some(y)) => Some(x + y),
            _ => None,
        }),
    decreases n,
{
    if n > 0 {
        lemma_entries_of_two(a, b, n - 1);
        assert((a + b)[a.len() + n - 1] == b[n - 1]);
        if let (Some(x), Some(y)) = (entries_of(a, a.len() as int), entries_of(b, n)) {
            assert(entries_of(a + b, a.len() + n)->0 =~= x + y);
        }
    } else {
        lemma_entries_of_start(a, b, a.len() as int);
        if let Some(x) = entries_of(a, a.len() as int) {
            assert(x + Seq::<ProvisioningView>::empty() =~= x);
        }
    }
}

/// A provisioning file is read entry by entry: every entry with a gateway is kept, in its order, and
/// every other is dropped; and it is read at all only when all of them have the right shape.
pub proof fn law_entries_with_a_gateway_are_kept(a: Seq<JsonView>, b: Seq<JsonView>, j: JsonView)
    ensures
        provisioning_of(JsonView::Array(a + b)) == (match (
            provisioning_of(JsonView::Array(a)),
            provisioning_of(JsonView::Array(b)),
        ) {
            (Some(x), Some(y)) => Some(x + y),
            _ => None,
        }),
        entry_of(j) is None ==> provisioning_of(JsonView::Array(seq![j])) is None,
        entry_of(j) matches Some(e) ==> provisioning_of(JsonView::Array(seq![j])) == Some(
            if trimmed(e.gateway).len() > 0 {
                seq![e]
            } else {
                Seq::empty()
            },
        ),
        provisioning_of(JsonView::Array(Seq::empty())) == Some(Seq::<ProvisioningView>::empty()),
        j !is Array ==> provisioning_of(j) is None,
{
    lemma_entries_of_two(a, b, b.len() as int);
    assert((a + b).len() == a.len() + b.len());
    reveal_with_fuel(entries_of, 3);
    if let Some(e) = entry_of(j) {
        if trimmed(e.gateway).len() > 0 {
            assert(entries_of(seq![j], 1)->0 =~= seq![e]);
        }
    }
}

/// Each part of an entry is read from the field of its own name.
pub proof fn law_entry_is_read_by_name(j: JsonView)
    ensures
        entry_of(j) matches Some(e) ==> {
            &&& match field(j, "display_name"@, 0) {
                Some(v) => v == JsonView::Text(e.display_name),
                None => e.display_name.len() == 0,
            }
            &&& match field(j, "gateway"@, 1) {
                Some(v) => v == JsonView::Text(e.gateway),
                None => e.gateway.len() == 0,
            }
            &&& match field(j, "user_portal_port"@, 2) {
                Some(v) => v == JsonView::Null && e.user_portal_port is None || (
                e.user_portal_port matches Some(n) && v == JsonView::Number(Some(n as u64))),
                None => e.user_portal_port is None,
            }
            &&& match field(j, "otp"@, 3) {
                Some(v) => v == JsonView::Bool(e.otp),
                None => !e.otp,
            }
            &&& match field(j, "can_save_credentials"@, 4) {
                Some(v) => v == JsonView::Bool(e.can_save_credentials),
                None => !e.can_save_credentials,
            }
        },
{
}

/// The portal of an entry is its gateway over HTTPS, with the port where that is not the usual one.
pub proof fn law_portal_is_the_gateway(e: ProvisioningView)
    ensures
        e.portal_url() is None <==> trimmed(e.gateway).len() == 0,
        trimmed(e.gateway).len() > 0 && (e.user_portal_port is None || e.user_portal_port == Some(
            443u16,
        )) ==> e.portal_url() == Some("https://"@ + trimmed(e.gateway)),
        trimmed(e.gateway).len() > 0 ==> (e.user_portal_port matches Some(n) ==> (n != 443
            ==> e.portal_url() == Some(
            "https://"@ + trimmed(e.gateway) + ":"@ + decimal(n as nat),
        ))),
        trimmed(e.display_name).len() > 0 ==> e.label() == trimmed(e.display_name),
        trimmed(e.display_name).len() == 0 ==> e.label() == trimmed(e.gateway),
{
}

/// A file is a provisioning file when it is JSON of that shape and has an entry; JSON of another
/// shape is refused as such, and what is no JSON with the reason. A port is a number that fits
/// one, or left out.
pub proof fn law_provisioning_is_told_by_its_shape(input: Seq<char>, j: JsonView, n: u64)
    ensures
        json_text(input) matches Err(e) ==> provisioning_text(input) == Err::<
            Seq<ProvisioningView>,
            ErrorView,
        >(ErrorView::Json(e)),
        json_text(input) == Ok::<JsonView, Seq<char>>(j) && provisioning_of(j) is None
            ==> provisioning_text(input) == Err::<Seq<ProvisioningView>, ErrorView>(
            ErrorView::Json("the value does not have the shape of a provisioning file"@),
        ),
        json_text(input) == Ok::<JsonView, Seq<char>>(j) && provisioning_of(j) is Some
            ==> provisioning_text(input) == Ok::<Seq<ProvisioningView>, ErrorView>(
            provisioning_of(j)->0,
        ),
        is_provisioning(input) <==> json_text(input) is Ok && provisioning_of(
            json_text(input)->Ok_0,
        ) is Some && provisioning_of(json_text(input)->Ok_0)->0.len() > 0,
        field(j, "user_portal_port"@, 2) is None ==> port_field(j) == Some(None::<u16>),
        field(j, "user_portal_port"@, 2) == Some(JsonView::Number(Some(n))) && n <= 65535
            ==> port_field(j) == Some(Some(n as u16)),
        field(j, "user_portal_port"@, 2) == Some(JsonView::Number(Some(n))) && n > 65535
            ==> port_field(j) is None,
{
}

} // verus!
