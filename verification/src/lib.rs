//! A verified core for an AppStream/DEP11 software-catalog cache.
//!
//! The crate splits a byte stream of YAML documents at `---` marker lines,
//! frames the documents of a DEP11 components file as one header followed by
//! package records, and merges decoded records into per-origin indexes with
//! dense entity ids, a reverse name index for substring search, and a shared
//! persistent icon-blob store backed by sled.

pub mod appstream;
pub mod codec;
pub mod database;
pub mod events;
pub mod sledio;
pub mod store;
pub mod strutil;
pub mod yaml;

pub use appstream::{CachedIcon, Dep11Package, Icon, LangMap, Launchable, RemoteIcon};
pub use codec::{Dep11Header, Dep11Splitter, DocKind};
pub use database::{Database, OriginEntry};
pub use events::{Entity, IconSize, PackageEvent, StoreError};
pub use store::OriginDb;
pub use strutil::{contains_str, str_eq};
pub use yaml::YamlSplitter;
