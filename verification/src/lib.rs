//! Resolution of six-digit administrative-division codes to names, across
//! several revisions of the code/name dataset, with derivation of each
//! division's place in the province/prefecture/county hierarchy.

pub mod codes;
pub mod division;
pub mod laws;
pub mod revkey;
pub mod store;
pub mod strops;
pub mod tabular;

pub use division::Division;
pub use division::CURRENT_REVISION;
pub use store::Entry;
pub use store::RevisionTable;
pub use store::Store;
pub use strops::str_eq;
