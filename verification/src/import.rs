//! What every profile importer returns, regardless of the format it read.

use crate::ipv4::{
    address, law_address_has_one_spelling, law_internal_addresses_are_ranges, Ipv4Addr,
};
use crate::model::{ConfigView, ConnectionConfig};
use crate::text::{is_alnum, is_alphanumeric};
use vstd::prelude::*;
use vstd::utf8::encode_utf8;

verus! {

/// A finding, not fatal, that must be shown before the first connect.
///
/// Anything safety-critical that cannot be mapped is a hard error; anything merely
/// unconfirmed imports and warns.
#[derive(Debug, Clone, PartialEq, Eq)]
pub struct ImportWarning(pub String);

impl View for ImportWarning {
    type V = Seq<char>;

    open spec fn view(&self) -> Seq<char> {
        self.0@
    }
}

impl ImportWarning {
    /// The text of the warning.
    pub fn message(&self) -> (r: &str)
        ensures
            r@ == self@,
    {
        self.0.as_str()
    }
}

/// The texts of a list of warnings.
pub open spec fn warning_views(v: Seq<ImportWarning>) -> Seq<Seq<char>> {
    Seq::new(v.len(), |i: int| v[i]@)
}

/// A connection and what was found while reading it.
pub struct ImportedProfile {
    pub config: ConnectionConfig,
    pub warnings: Vec<ImportWarning>,
}

/// The content of an [`ImportedProfile`].
pub struct ProfileView {
    pub config: ConfigView,
    pub warnings: Seq<Seq<char>>,
}

impl View for ImportedProfile {
    type V = ProfileView;

    open spec fn view(&self) -> ProfileView {
        ProfileView { config: self.config@, warnings: warning_views(self.warnings@) }
    }
}

/// Collects warnings while an importer walks a profile.
#[derive(Debug)]
pub struct Warnings(Vec<ImportWarning>);

impl View for Warnings {
    type V = Seq<Seq<char>>;

    closed spec fn view(&self) -> Seq<Seq<char>> {
        warning_views(self.0@)
    }
}

impl Default for Warnings {
    fn default() -> (r: Warnings)
        ensures
            r@ == Seq::<Seq<char>>::empty(),
    {
        Warnings::new()
    }
}

impl Warnings {
    pub fn new() -> (r: Warnings)
        ensures
            r@ == Seq::<Seq<char>>::empty(),
    {
        let r = Warnings(Vec::new());
        assert(r@ =~= Seq::empty());
        r
    }

    /// Adds a warning at the end.
    pub fn warn(&mut self, msg: String)
        ensures
            final(self)@ == old(self)@.push(msg@),
    {
        self.0.push(ImportWarning(msg));
        assert(self@ =~= old(self)@.push(msg@));
    }

    /// The warnings, in the order in which they were added.
    pub fn into_vec(self) -> (r: Vec<ImportWarning>)
        ensures
            warning_views(r@) == self@,
    {
        self.0
    }

    /// The warnings, in the order in which they were added.
    pub fn as_slice(&self) -> (r: &[ImportWarning])
        ensures
            warning_views(r@) == self@,
    {
        self.0.as_slice()
    }
}

/// Whether a character may stand in a gateway name.
pub open spec fn is_gateway_char(c: char) -> bool {
    is_alnum(c) || c == '.' || c == '-' || c == '_' || c == ':'
}

/// Whether a text is fit to be dialled: a host name or an address, at most 255 bytes long,
/// without a character that could end a configuration value.
pub open spec fn is_gateway(s: Seq<char>) -> bool {
    &&& s.len() > 0
    &&& encode_utf8(s).len() <= 255
    &&& forall|i: int| 0 <= i < s.len() ==> is_gateway_char(#[trigger] s[i])
}

/// Whether a text is fit to be dialled.
pub fn valid_gateway(s: &str) -> (r: bool)
    ensures
        r == is_gateway(s@),
{
    if s.is_empty() || s.as_bytes().len() > 255 {
        return false;
    }
    for c in it: s.chars()
        invariant
            it.seq() == s@,
            forall|i: int| 0 <= i < it.index() ==> is_gateway_char(#[trigger] s@[i]),
    {
        if !(is_alphanumeric(c) || c == '.' || c == '-' || c == '_' || c == ':') {
            assert(!is_gateway_char(s@[it.index() as int]));
            return false;
        }
    }
    true
}

/// Whether a gateway is an address that only answers from inside its own network.
pub open spec fn is_internal_gateway(s: Seq<char>) -> bool {
    match address(s) {
        Some(a) => a.internal(),
        None => false,
    }
}

/// Whether a gateway is an address that only answers from inside its own network.
pub fn is_private(gateway: &str) -> (r: bool)
    ensures
        r == is_internal_gateway(gateway@),
{
    match Ipv4Addr::parse(gateway) {
        Some(a) => a.is_internal(),
        None => false,
    }
}

/// A gateway is a host name or an address of one to 255 bytes: letters, digits and the characters
/// `.`, `-`, `_` and `:`. Anything else, such as white space, a quote or a line feed, is refused.
pub proof fn law_gateway_is_plain(s: Seq<char>)
    ensures
        is_gateway(s) <==> s.len() > 0 && encode_utf8(s).len() <= 255 && forall|i: int|
            0 <= i < s.len() ==> 'a' <= #[trigger] s[i] <= 'z' || 'A' <= s[i] <= 'Z' || '0' <= s[i]
                <= '9' || s[i] == '.' || s[i] == '-' || s[i] == '_' || s[i] == ':',
{
    if is_gateway(s) {
        assert forall|i: int| 0 <= i < s.len() implies 'a' <= #[trigger] s[i] <= 'z' || 'A' <= s[i]
            <= 'Z' || '0' <= s[i] <= '9' || s[i] == '.' || s[i] == '-' || s[i] == '_' || s[i]
            == ':' by {
            assert(is_gateway_char(s[i]));
        }
    }
}

/// A gateway only answers from inside its own network when it is an address of the private,
/// loopback or link-local ranges; a name is taken to answer from anywhere.
pub proof fn law_internal_gateway_is_an_address(s: Seq<char>, x: Ipv4Addr)
    ensures
        s == x.dotted() ==> (is_internal_gateway(s) <==> {
            ||| 0x0A00_0000 <= x.bits < 0x0B00_0000
            ||| 0xAC10_0000 <= x.bits < 0xAC20_0000
            ||| 0xC0A8_0000 <= x.bits < 0xC0A9_0000
            ||| 0x7F00_0000 <= x.bits < 0x8000_0000
            ||| 0xA9FE_0000 <= x.bits < 0xA9FF_0000
        }),
        address(s) is None ==> !is_internal_gateway(s),
{
    law_address_has_one_spelling(s, x);
    law_internal_addresses_are_ranges(x);
}

} // verus!
