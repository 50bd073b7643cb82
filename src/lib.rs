//! A searchable index of package metadata: a registry of packages is
//! normalized into canonical records, and records are ranked against a
//! free-text query by fuzzy matching on their names.

pub mod error;
pub mod package;
pub mod registry;
pub mod normalize;
pub mod fuzzy;
pub mod rank;
