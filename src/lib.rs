//! A hierarchical permission-claim algebra: claims written `verb:subject`
//! over a dot-delimited namespace, with a verified parser and verified
//! containment, exact-match and child/descendant relations.
pub mod claim;
pub mod error;
pub mod is_public;
pub mod text;

pub use claim::Claim;
pub use error::Error;
