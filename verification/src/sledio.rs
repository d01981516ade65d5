//! The trusted boundary to the sled embedded store.
//!
//! Each tree is modelled by `tree_contents`, the map of key bytes to value
//! bytes it currently holds. The wrappers assume that every tree is reached
//! through a single handle: the crate opens each named tree once and never
//! clones a handle, so no aliased handle can change a modelled tree behind
//! the model's back. Opening a tree says nothing about its contents, which
//! are whatever an earlier process left on disk.

use vstd::prelude::*;
use crate::events::StoreError;

verus! {

#[verifier::external_type_specification]
#[verifier::external_body]
pub struct ExSledDb(sled::Db);

#[verifier::external_type_specification]
#[verifier::external_body]
pub struct ExSledTree(sled::Tree);

/// The key-to-value map a sled tree currently holds.
pub uninterp spec fn tree_contents(t: sled::Tree) -> Map<Seq<u8>, Seq<u8>>;

/// Relies on sled::open: opens or creates the store rooted in the directory
/// `dir`, under the file name `name`.
#[verifier::external_body]
pub fn sled_open(dir: &str, name: &str) -> (r: Result<sled::Db, StoreError>) {
    match sled::open(std::path::Path::new(dir).join(name)) {
        Ok(db) => Ok(db),
        Err(_) => Err(StoreError::Backend),
    }
}

/// Relies on sled::Db::open_tree: opens or creates the named tree, with
/// whatever contents were persisted for it.
#[verifier::external_body]
pub fn sled_open_tree(db: &sled::Db, name: &str) -> (r: Result<sled::Tree, StoreError>) {
    match db.open_tree(name.as_bytes()) {
        Ok(t) => Ok(t),
        Err(_) => Err(StoreError::Backend),
    }
}

/// Relies on sled::Tree::insert: sets `key` to `value`, replacing any prior
/// value under the same key.
#[verifier::external_body]
pub fn tree_insert(t: &mut sled::Tree, key: &[u8], value: &[u8]) -> (r: Result<(), StoreError>)
    ensures
        r is Ok ==> tree_contents(*final(t)) == tree_contents(*old(t)).insert(key@, value@),
{
    match t.insert(key, value) {
        Ok(_) => Ok(()),
        Err(_) => Err(StoreError::Backend),
    }
}

/// Relies on sled::Tree::get: the value stored under `key`, if any.
#[verifier::external_body]
pub fn tree_get(t: &sled::Tree, key: &[u8]) -> (r: Result<Option<Vec<u8>>, StoreError>)
    ensures
        match r {
            Ok(v) => match v {
                Some(b) => tree_contents(*t).contains_key(key@) && tree_contents(*t)[key@] == b@,
                None => !tree_contents(*t).contains_key(key@),
            },
            Err(_) => true,
        },
{
    match t.get(key) {
        Ok(Some(ivec)) => Ok(Some(ivec.to_vec())),
        Ok(None) => Ok(None),
        Err(_) => Err(StoreError::Backend),
    }
}

/// Relies on sled::Tree::clear: removes every key of the tree.
#[verifier::external_body]
pub fn tree_clear(t: &mut sled::Tree) -> (r: Result<(), StoreError>)
    ensures
        match r {
            Ok(u) => tree_contents(*final(t)) == Map::<Seq<u8>, Seq<u8>>::empty(),
            Err(_) => true,
        },
{
    match t.clear() {
        Ok(()) => Ok(()),
        Err(_) => Err(StoreError::Backend),
    }
}

/// Relies on sled::Tree::insert reached through sled::Db's Deref to the
/// store's root tree: sets a scalar key of the root keyspace.
#[verifier::external_body]
pub fn db_insert(db: &mut sled::Db, key: &[u8], value: &[u8]) -> (r: Result<(), StoreError>) {
    match db.insert(key, value) {
        Ok(_) => Ok(()),
        Err(_) => Err(StoreError::Backend),
    }
}

/// Relies on sled::Tree::clear reached through sled::Db's Deref to the
/// store's root tree: removes every scalar key of the root keyspace.
#[verifier::external_body]
pub fn db_clear(db: &mut sled::Db) -> (r: Result<(), StoreError>) {
    match db.clear() {
        Ok(()) => Ok(()),
        Err(_) => Err(StoreError::Backend),
    }
}

/// Relies on sled::Db::flush: synchronously flushes dirty buffers to disk.
#[verifier::external_body]
pub fn db_flush(db: &sled::Db) -> (r: Result<(), StoreError>) {
    match db.flush() {
        Ok(_) => Ok(()),
        Err(_) => Err(StoreError::Backend),
    }
}

} // verus!
