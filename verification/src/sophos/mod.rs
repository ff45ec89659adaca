//! Importer for the profile formats that a Sophos firewall hands out.
//!
//! | Format | What it is | Result |
//! |---|---|---|
//! | `.scx` | Sophos Connect profile: JSON, close to a serialised swanctl connection | a connection |
//! | `.tgb` | legacy Cyberoam and TheGreenBow client profile: ini-shaped, IKEv1 | a connection |
//! | `.pro` | provisioning pointer to a user portal | [`Format::Provisioning`], not a connection |
//! | `.mobileconfig` | Apple configuration profile of the user portal | a connection |
//!
//! Anything safety-critical that cannot be mapped is a hard error; anything merely unconfirmed
//! imports and raises a warning that must be shown before the first connect.

pub mod error;
pub mod mobileconfig;
pub mod pro;
pub mod proposal;
pub mod record;
pub mod scx;
pub mod tgb;

pub use crate::import::{ImportWarning, ImportedProfile};
pub use error::ImportError;
pub use pro::Provisioning;

use crate::import::ProfileView;
use crate::text::{lowercase, same_ignoring_case, same_nocase};
use error::ErrorView;
use vstd::prelude::*;

verus! {

/// Which of the three formats a file is.
#[derive(Debug, Clone, Copy, PartialEq, Eq, Structural)]
pub enum Format {
    /// Sophos Connect profile (`.scx`).
    Connect,
    /// Legacy Cyberoam and TheGreenBow profile (`.tgb`).
    Legacy,
    /// Provisioning pointer (`.pro`): names a user portal to sign in to.
    Provisioning,
}

/// Whether an extension is one of those that are imported, whatever its case.
pub open spec fn is_handled(ext: Seq<char>) -> bool {
    same_nocase(ext, "scx"@) || same_nocase(ext, "tgb"@) || same_nocase(ext, "pro"@)
}

/// The file extensions that are imported.
pub const EXTENSIONS: [&'static str; 3] = ["scx", "tgb", "pro"];

/// Whether this is an extension that is imported. Case does not count.
pub fn handles_extension(ext: &str) -> (r: bool)
    ensures
        r == is_handled(ext@),
{
    same_ignoring_case(ext, EXTENSIONS[0]) || same_ignoring_case(ext, EXTENSIONS[1])
        || same_ignoring_case(ext, EXTENSIONS[2])
}

/// The format of a file, by its contents.
pub open spec fn format_of(input: Seq<char>) -> Option<Format> {
    if pro::is_provisioning(input) {
        Some(Format::Provisioning)
    } else if scx::is_scx(input) {
        Some(Format::Connect)
    } else if tgb::is_tgb(input) {
        Some(Format::Legacy)
    } else {
        None
    }
}

/// Works out a file's format from its contents, because these files are routinely renamed on
/// the way to a user.
pub fn detect(input: &str) -> (r: Option<Format>)
    ensures
        r == format_of(input@),
{
    if pro::looks_like(input) {
        Some(Format::Provisioning)
    } else if scx::looks_like(input) {
        Some(Format::Connect)
    } else if tgb::looks_like(input) {
        Some(Format::Legacy)
    } else {
        None
    }
}

/// What the text of a profile of the given format comes to.
pub open spec fn imported_as(format: Option<Format>, input: Seq<char>) -> Result<
    ProfileView,
    ErrorView,
> {
    match format {
        Some(Format::Connect) => scx::imported_text(input),
        Some(Format::Legacy) => tgb::imported_text(input),
        Some(Format::Provisioning) => Err(ErrorView::IsProvisioning),
        None => Err(ErrorView::Unrecognised),
    }
}

/// Imports the text of a profile whose format is known. A `.pro` has no connection in it to
/// import: [`pro::parse`] reads those.
pub fn import_as(format: Option<Format>, input: &str) -> (r: Result<ImportedProfile, ImportError>)
    ensures
        match r {
            Ok(p) => imported_as(format, input@) == Ok::<ProfileView, ErrorView>(p@),
            Err(e) => imported_as(format, input@) == Err::<ProfileView, ErrorView>(e@),
        },
{
    match format {
        Some(Format::Connect) => scx::import(input),
        Some(Format::Legacy) => tgb::import(input),
        Some(Format::Provisioning) => Err(ImportError::IsProvisioning),
        None => Err(ImportError::Unrecognised),
    }
}

/// Imports any Sophos connection profile.
pub fn import_profile(input: &str) -> (r: Result<ImportedProfile, ImportError>)
    ensures
        match r {
            Ok(p) => imported_as(format_of(input@), input@) == Ok::<ProfileView, ErrorView>(p@),
            Err(e) => imported_as(format_of(input@), input@) == Err::<ProfileView, ErrorView>(e@),
        },
{
    import_as(detect(input), input)
}

/// A provisioning file is never imported as a connection, and a file of no known format is never
/// imported at all.
pub proof fn law_only_connections_are_imported(input: Seq<char>)
    ensures
        format_of(input) == Some(Format::Provisioning) ==> imported_as(format_of(input), input)
            == Err::<ProfileView, ErrorView>(ErrorView::IsProvisioning),
        format_of(input) is None ==> imported_as(format_of(input), input) == Err::<
            ProfileView,
            ErrorView,
        >(ErrorView::Unrecognised),
{
}

/// The format goes by the contents: a list with a portal in it is a provisioning file, else a profile
/// with a gateway is a Sophos Connect one, else the marks of the old generator make a legacy one. Each
/// is read by the importer of its own format.
pub proof fn law_format_goes_by_the_contents(input: Seq<char>)
    ensures
        pro::is_provisioning(input) <==> format_of(input) == Some(Format::Provisioning),
        !pro::is_provisioning(input) && scx::is_scx(input) <==> format_of(input) == Some(
            Format::Connect,
        ),
        !pro::is_provisioning(input) && !scx::is_scx(input) && tgb::is_tgb(input) <==> format_of(
            input,
        ) == Some(Format::Legacy),
        format_of(input) == Some(Format::Connect) ==> imported_as(format_of(input), input)
            == scx::imported_text(input),
        format_of(input) == Some(Format::Legacy) ==> imported_as(format_of(input), input)
            == tgb::imported_text(input),
        is_handled("scx"@) && is_handled("tgb"@) && is_handled("pro"@),
{
}

/// The extensions are those three, in whatever case, and no other.
pub proof fn law_extensions_are_these(ext: Seq<char>)
    ensures
        is_handled(ext) <==> lowercase(ext) == lowercase("scx"@) || lowercase(ext) == lowercase(
            "tgb"@,
        ) || lowercase(ext) == lowercase("pro"@),
{
}

} // verus!
