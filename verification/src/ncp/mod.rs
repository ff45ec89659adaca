//! Importer for NCP Secure Entry and Enterprise Client `.ini` profiles.
//!
//! The export format is proprietary; the numeric code mappings live in [`codes`] with an
//! explicit confidence each, and the importer warns about every value that it is not sure of
//! instead of silently guessing.

pub mod codes;
pub mod import;

pub use crate::import::{ImportWarning, ImportedProfile};
pub use crate::ini::{parse, Document, ParseError, Section, MAX_INPUT_LEN};

pub use import::{import_profile, ImportError};
