//! One origin's package indexes: dense entity ids keyed to record fields,
//! a reverse name index for search, and a scalar media base URL. The
//! authoritative indexes live in memory; every write is mirrored to the
//! origin's sled store, whose named partitions follow the same layout.

use vstd::prelude::*;
use vstd::bytes::u32_to_le_bytes;
use vstd::string::StrSliceExecFns;
use crate::appstream::{icon_cache_key, localized, Dep11Package, Icon};
use crate::events::{Entity, StoreError};
use crate::sledio::{db_clear, db_insert, db_flush, sled_open, sled_open_tree, tree_clear,
    tree_contents, tree_insert};
use crate::strutil::str_eq;

verus! {

/// Keys of an id-keyed index: strictly increasing, all below `bound`.
pub open spec fn u32_keys_ok<T>(s: Seq<(u32, T)>, bound: u32) -> bool {
    &&& forall|i: int, j: int| 0 <= i < j < s.len() ==> (#[trigger] s[i]).0 < (#[trigger] s[j]).0
    &&& forall|i: int| 0 <= i < s.len() ==> (#[trigger] s[i]).0 < bound
}

/// A well-keyed index stays well-keyed under a larger bound.
proof fn lemma_keys_ok_grow<T>(s: Seq<(u32, T)>, b1: u32, b2: u32)
    requires
        u32_keys_ok(s, b1),
        b1 <= b2,
    ensures
        u32_keys_ok(s, b2),
{
}

/// Appending an entry keyed exactly at the bound keeps an index well-keyed
/// under the next bound.
proof fn lemma_keys_ok_push<T>(s: Seq<(u32, T)>, b: u32, x: (u32, T))
    requires
        u32_keys_ok(s, b),
        x.0 == b,
        b < u32::MAX,
    ensures
        u32_keys_ok(s.push(x), (b + 1) as u32),
{
    let t = s.push(x);
    assert forall|i: int, j: int| 0 <= i < j < t.len() implies (#[trigger] t[i]).0 < (
    #[trigger] t[j]).0 by {
        if j == s.len() {
            assert(t[i] == s[i]);
        } else {
            assert(t[i] == s[i]);
            assert(t[j] == s[j]);
        }
    }
    assert forall|i: int| 0 <= i < t.len() implies (#[trigger] t[i]).0 < b + 1 by {
        if i < s.len() {
            assert(t[i] == s[i]);
        }
    }
}

/// The value under `key` in an id-keyed index, if any.
pub open spec fn u32_lookup<T>(s: Seq<(u32, T)>, key: u32) -> Option<T>
    decreases s.len(),
{
    if s.len() == 0 {
        None
    } else if s[0].0 == key {
        Some(s[0].1)
    } else {
        u32_lookup(s.drop_first(), key)
    }
}

/// How the reverse name index changes when `n` is (re)bound to `ent`:
/// an existing entry for the same name is overwritten (last write wins),
/// otherwise a new entry is appended.
pub open spec fn name_upsert(
    pre: Seq<(String, u32)>,
    post: Seq<(String, u32)>,
    n: Seq<char>,
    ent: u32,
) -> bool {
    if exists|j: int| 0 <= j < pre.len() && pre[j].0@ == n {
        exists|j: int|
            0 <= j < pre.len() && pre[j].0@ == n && post.len() == pre.len() && post[j].0@ == n
                && post[j].1 == ent && (forall|l: int|
                0 <= l < pre.len() && l != j ==> post[l] == pre[l])
    } else {
        post.len() == pre.len() + 1 && post.drop_last() == pre && post.last().0@ == n
            && post.last().1 == ent
    }
}

/// First-match lookup by entity key, returning a cloned value.
fn u32_get_str(v: &Vec<(u32, String)>, key: u32) -> (r: Option<String>)
    ensures
        match r {
            Some(s) => u32_lookup(v@, key) == Some(s),
            None => u32_lookup(v@, key) is None,
        },
{
    proof {
        assert(v@.skip(0) =~= v@);
    }
    let mut i: usize = 0;
    while i < v.len()
        invariant
            i <= v@.len(),
            u32_lookup(v@, key) == u32_lookup(v@.skip(i as int), key),
        decreases v@.len() - i,
    {
        proof {
            assert(v@.skip(i as int)[0] == v@[i as int]);
            assert(v@.skip(i as int).drop_first() =~= v@.skip(i + 1));
        }
        if v[i].0 == key {
            return Some(v[i].1.clone());
        }
        i = i + 1;
    }
    proof {
        assert(v@.skip(i as int) =~= Seq::<(u32, String)>::empty());
    }
    None
}

/// Bind `name` to `ent` in the reverse index: overwrite an existing entry
/// for the same name, else append. Name uniqueness is preserved.
fn names_upsert(v: &mut Vec<(String, u32)>, name: String, ent: u32)
    requires
        forall|i: int, j: int|
            0 <= i < j < old(v)@.len() ==> (#[trigger] old(v)@[i]).0@ != (#[trigger] old(v)@[j]).0@,
    ensures
        name_upsert(old(v)@, final(v)@, name@, ent),
        forall|i: int, j: int|
            0 <= i < j < final(v)@.len() ==> (#[trigger] final(v)@[i]).0@
                != (#[trigger] final(v)@[j]).0@,
        forall|l: int|
            0 <= l < final(v)@.len() ==> (#[trigger] final(v)@[l]).1 == ent || (l < old(v)@.len()
                && final(v)@[l] == old(v)@[l]),
{
    let ghost n = name@;
    let ghost pre = v@;
    let mut i: usize = 0;
    while i < v.len()
        invariant
            i <= v@.len(),
            v@ == pre,
            pre == old(v)@,
            n == name@,
            forall|j: int| 0 <= j < i ==> (#[trigger] pre[j]).0@ != n,
            forall|a: int, b: int|
                0 <= a < b < pre.len() ==> (#[trigger] pre[a]).0@ != (#[trigger] pre[b]).0@,
        decreases v@.len() - i,
    {
        if str_eq(v[i].0.as_str(), name.as_str()) {
            proof {
                assert(pre[i as int].0@ == n);
            }
            let _old_entry = v.remove(i);
            v.insert(i, (name, ent));
            proof {
                assert(exists|j: int| 0 <= j < pre.len() && (#[trigger] pre[j]).0@ == n);
                assert(v@ =~= pre.update(i as int, (name, ent)));
                assert forall|a: int, b: int| 0 <= a < b < v@.len() implies (
                #[trigger] v@[a]).0@ != (#[trigger] v@[b]).0@ by {
                    if a != i {
                        assert(v@[a] == pre[a]);
                    }
                    if b != i {
                        assert(v@[b] == pre[b]);
                    }
                    assert(v@[i as int].0@ == pre[i as int].0@);
                }
                assert forall|l: int| 0 <= l < v@.len() implies (#[trigger] v@[l]).1 == ent || (l
                    < pre.len() && v@[l] == pre[l]) by {
                    if l != i {
                        assert(v@[l] == pre[l]);
                    }
                }
                assert(0 <= i < pre.len() && pre[i as int].0@ == n && v@.len() == pre.len()
                    && v@[i as int].0@ == n && v@[i as int].1 == ent && (forall|l: int|
                    0 <= l < pre.len() && l != i ==> v@[l] == pre[l]));
                assert(name_upsert(pre, v@, n, ent));
            }
            return;
        }
        i = i + 1;
    }
    v.push((name, ent));
    proof {
        assert(v@.drop_last() =~= pre);
        assert(v@.last().0@ == n);
        assert forall|a: int, b: int| 0 <= a < b < v@.len() implies (#[trigger] v@[a]).0@ != (
        #[trigger] v@[b]).0@ by {
            if b < pre.len() {
                assert(v@[a] == pre[a]);
                assert(v@[b] == pre[b]);
            } else {
                assert(v@[a] == pre[a]);
                assert(v@[b].0@ == n);
            }
        }
    }
}

/// How one ingested record changes an origin's indexes: the next id is
/// consumed unconditionally; with a resolvable display name the id-keyed
/// indexes each gain one entry under that id and the reverse index binds the
/// name to it (last write wins); without one, nothing else changes.
pub open spec fn add_effect(
    pre: OriginDb,
    post: OriginDb,
    package: Dep11Package,
    lang: Seq<char>,
) -> bool {
    let ent = pre.spec_next_id();
    &&& post.spec_next_id() == ent + 1
    &&& post.spec_media() == pre.spec_media()
    &&& match localized(package.name@, lang) {
        None => post.spec_names() == pre.spec_names() && post.spec_ids() == pre.spec_ids()
            && post.spec_types() == pre.spec_types() && post.spec_packages()
            == pre.spec_packages() && post.spec_summaries() == pre.spec_summaries()
            && post.spec_icons() == pre.spec_icons(),
        Some(n) => {
            &&& post.spec_ids() == pre.spec_ids().push((ent, package.id))
            &&& post.spec_types() == pre.spec_types().push((ent, package.type_))
            &&& post.spec_packages() == pre.spec_packages().push((ent, package.package))
            &&& match localized(package.summary@, lang) {
                Some(sv) => post.spec_summaries().len() == pre.spec_summaries().len() + 1
                    && post.spec_summaries().drop_last() == pre.spec_summaries()
                    && post.spec_summaries().last().0 == ent && post.spec_summaries().last().1@
                    == sv,
                None => post.spec_summaries() == pre.spec_summaries(),
            }
            &&& match package.icon {
                Some(ic) => post.spec_icons() == pre.spec_icons().push((ent, ic)),
                None => post.spec_icons() == pre.spec_icons(),
            }
            &&& name_upsert(pre.spec_names(), post.spec_names(), n, ent)
        },
    }
}

/// A chain of record ingests: `post` results from applying `add_effect`
/// once per record of `records`, in order, starting from `pre`.
pub open spec fn adds_chain(
    pre: OriginDb,
    post: OriginDb,
    records: Seq<Dep11Package>,
    lang: Seq<char>,
) -> bool
    decreases records.len(),
{
    if records.len() == 0 {
        post == pre
    } else {
        exists|mid: OriginDb|
            #![trigger add_effect(mid, post, records.last(), lang)]
            adds_chain(pre, mid, records.drop_last(), lang) && add_effect(
                mid,
                post,
                records.last(),
                lang,
            )
    }
}

/// Dropping the head of a well-keyed index keeps it well-keyed.
proof fn lemma_keys_ok_drop_first<T>(s: Seq<(u32, T)>, b: u32)
    requires
        u32_keys_ok(s, b),
        s.len() > 0,
    ensures
        u32_keys_ok(s.drop_first(), b),
{
    let t = s.drop_first();
    assert forall|i: int, j: int| 0 <= i < j < t.len() implies (#[trigger] t[i]).0 < (
    #[trigger] t[j]).0 by {
        assert(t[i] == s[i + 1]);
        assert(t[j] == s[j + 1]);
    }
    assert forall|i: int| 0 <= i < t.len() implies (#[trigger] t[i]).0 < b by {
        assert(t[i] == s[i + 1]);
    }
}

/// A well-keyed index holds nothing at or above its bound.
pub proof fn lemma_lookup_above_bound<T>(s: Seq<(u32, T)>, b: u32, key: u32)
    requires
        u32_keys_ok(s, b),
        key >= b,
    ensures
        u32_lookup(s, key) is None,
    decreases s.len(),
{
    if s.len() > 0 {
        assert(s[0].0 < b);
        lemma_keys_ok_drop_first(s, b);
        lemma_lookup_above_bound(s.drop_first(), b, key);
    }
}

/// The N-record form of entity assignment: ingesting N records into a store
/// that starts fresh consumes exactly the ids 0, 1, .., N-1, one per record
/// in arrival order and regardless of how many records were skipped for
/// lacking a usable localized name; the indexed ids are strictly increasing
/// below N, and no id at or above N is ever bound (no reuse, no stray ids).
pub proof fn lemma_dense_entity_ids(
    pre: OriginDb,
    post: OriginDb,
    records: Seq<Dep11Package>,
    lang: Seq<char>,
)
    requires
        pre.is_fresh(),
        records.len() <= u32::MAX,
        adds_chain(pre, post, records, lang),
    ensures
        post.spec_next_id() == records.len(),
        u32_keys_ok(post.spec_ids(), post.spec_next_id()),
        u32_keys_ok(post.spec_types(), post.spec_next_id()),
        u32_keys_ok(post.spec_packages(), post.spec_next_id()),
        u32_keys_ok(post.spec_summaries(), post.spec_next_id()),
        u32_keys_ok(post.spec_icons(), post.spec_next_id()),
        forall|i: int|
            0 <= i < post.spec_names().len() ==> (#[trigger] post.spec_names()[i]).1
                < records.len(),
        forall|e: u32| e >= records.len() ==> u32_lookup(post.spec_ids(), e) is None,
        forall|e: u32| e >= records.len() ==> u32_lookup(post.spec_types(), e) is None,
        forall|e: u32| e >= records.len() ==> u32_lookup(post.spec_packages(), e) is None,
        forall|e: u32| e >= records.len() ==> u32_lookup(post.spec_summaries(), e) is None,
        forall|e: u32| e >= records.len() ==> u32_lookup(post.spec_icons(), e) is None,
    decreases records.len(),
{
    if records.len() == 0 {
        assert(post == pre);
    } else {
        let mid = choose|mid: OriginDb|
            #![trigger add_effect(mid, post, records.last(), lang)]
            adds_chain(pre, mid, records.drop_last(), lang) && add_effect(
                mid,
                post,
                records.last(),
                lang,
            );
        lemma_dense_entity_ids(pre, mid, records.drop_last(), lang);
        let rec = records.last();
        let b = mid.spec_next_id();
        match localized(rec.name@, lang) {
            Some(n) => {
                lemma_keys_ok_push(mid.spec_ids(), b, (b, rec.id));
                lemma_keys_ok_push(mid.spec_types(), b, (b, rec.type_));
                lemma_keys_ok_push(mid.spec_packages(), b, (b, rec.package));
                match localized(rec.summary@, lang) {
                    Some(_) => {
                        assert(post.spec_summaries().drop_last() == mid.spec_summaries());
                        lemma_keys_ok_push(mid.spec_summaries(), b, post.spec_summaries().last());
                        assert(post.spec_summaries() == mid.spec_summaries().push(
                            post.spec_summaries().last(),
                        ));
                    },
                    None => {
                        lemma_keys_ok_grow(mid.spec_summaries(), b, post.spec_next_id());
                    },
                }
                match rec.icon {
                    Some(ic) => {
                        lemma_keys_ok_push(mid.spec_icons(), b, (b, ic));
                    },
                    None => {
                        lemma_keys_ok_grow(mid.spec_icons(), b, post.spec_next_id());
                    },
                }
                assert forall|i: int|
                    0 <= i < post.spec_names().len() implies (#[trigger] post.spec_names()[i]).1
                    < records.len() by {
                    if exists|j: int|
                        0 <= j < mid.spec_names().len() && (#[trigger] mid.spec_names()[j]).0@
                            == n {
                        assert(name_upsert(mid.spec_names(), post.spec_names(), n, b));
                    } else {
                        if i < mid.spec_names().len() {
                            assert(post.spec_names()[i] == post.spec_names().drop_last()[i]);
                        }
                    }
                }
            },
            None => {
                lemma_keys_ok_grow(mid.spec_ids(), b, post.spec_next_id());
                lemma_keys_ok_grow(mid.spec_types(), b, post.spec_next_id());
                lemma_keys_ok_grow(mid.spec_packages(), b, post.spec_next_id());
                lemma_keys_ok_grow(mid.spec_summaries(), b, post.spec_next_id());
                lemma_keys_ok_grow(mid.spec_icons(), b, post.spec_next_id());
            },
        }
    }
    assert forall|e: u32| e >= records.len() implies u32_lookup(post.spec_ids(), e) is None by {
        lemma_lookup_above_bound(post.spec_ids(), post.spec_next_id(), e);
    }
    assert forall|e: u32| e >= records.len() implies u32_lookup(post.spec_types(), e) is None by {
        lemma_lookup_above_bound(post.spec_types(), post.spec_next_id(), e);
    }
    assert forall|e: u32|
        e >= records.len() implies u32_lookup(post.spec_packages(), e) is None by {
        lemma_lookup_above_bound(post.spec_packages(), post.spec_next_id(), e);
    }
    assert forall|e: u32|
        e >= records.len() implies u32_lookup(post.spec_summaries(), e) is None by {
        lemma_lookup_above_bound(post.spec_summaries(), post.spec_next_id(), e);
    }
    assert forall|e: u32| e >= records.len() implies u32_lookup(post.spec_icons(), e) is None by {
        lemma_lookup_above_bound(post.spec_icons(), post.spec_next_id(), e);
    }
}

/// One origin's indexes, with their persistent mirror.
pub struct OriginDb {
    next_id: u32,
    names: Vec<(String, u32)>,
    ids: Vec<(u32, String)>,
    types: Vec<(u32, String)>,
    packages: Vec<(u32, String)>,
    summaries: Vec<(u32, String)>,
    icons: Vec<(u32, Icon)>,
    media: Option<String>,
    db: sled::Db,
    t_types: sled::Tree,
    t_ids: sled::Tree,
    t_names: sled::Tree,
    t_icons: sled::Tree,
    t_packages: sled::Tree,
    t_summaries: sled::Tree,
}

impl OriginDb {
    /// The next entity id to be assigned.
    pub closed spec fn spec_next_id(&self) -> u32 {
        self.next_id
    }

    /// The reverse name index: (display name, entity), unique names.
    pub closed spec fn spec_names(&self) -> Seq<(String, u32)> {
        self.names@
    }

    /// The id index: (entity, original package id).
    pub closed spec fn spec_ids(&self) -> Seq<(u32, String)> {
        self.ids@
    }

    /// The type index: (entity, type tag).
    pub closed spec fn spec_types(&self) -> Seq<(u32, String)> {
        self.types@
    }

    /// The package-name index: (entity, binary package name).
    pub closed spec fn spec_packages(&self) -> Seq<(u32, String)> {
        self.packages@
    }

    /// The summary index: (entity, localized summary).
    pub closed spec fn spec_summaries(&self) -> Seq<(u32, String)> {
        self.summaries@
    }

    /// The icon-descriptor index: (entity, descriptor).
    pub closed spec fn spec_icons(&self) -> Seq<(u32, Icon)> {
        self.icons@
    }

    /// The origin's media base URL, if one arrived.
    pub closed spec fn spec_media(&self) -> Option<String> {
        self.media
    }

    /// The persisted `types` partition of this origin's mirror.
    pub closed spec fn spec_disk_types(&self) -> Map<Seq<u8>, Seq<u8>> {
        tree_contents(self.t_types)
    }

    /// The persisted `ids` partition of this origin's mirror.
    pub closed spec fn spec_disk_ids(&self) -> Map<Seq<u8>, Seq<u8>> {
        tree_contents(self.t_ids)
    }

    /// The persisted `names` partition of this origin's mirror.
    pub closed spec fn spec_disk_names(&self) -> Map<Seq<u8>, Seq<u8>> {
        tree_contents(self.t_names)
    }

    /// The persisted `icons` partition of this origin's mirror.
    pub closed spec fn spec_disk_icons(&self) -> Map<Seq<u8>, Seq<u8>> {
        tree_contents(self.t_icons)
    }

    /// The persisted `packages` partition of this origin's mirror.
    pub closed spec fn spec_disk_packages(&self) -> Map<Seq<u8>, Seq<u8>> {
        tree_contents(self.t_packages)
    }

    /// The persisted `summaries` partition of this origin's mirror.
    pub closed spec fn spec_disk_summaries(&self) -> Map<Seq<u8>, Seq<u8>> {
        tree_contents(self.t_summaries)
    }

    /// Every persisted partition of the mirror is empty.
    pub open spec fn disk_is_empty(&self) -> bool {
        &&& self.spec_disk_types() == Map::<Seq<u8>, Seq<u8>>::empty()
        &&& self.spec_disk_ids() == Map::<Seq<u8>, Seq<u8>>::empty()
        &&& self.spec_disk_names() == Map::<Seq<u8>, Seq<u8>>::empty()
        &&& self.spec_disk_icons() == Map::<Seq<u8>, Seq<u8>>::empty()
        &&& self.spec_disk_packages() == Map::<Seq<u8>, Seq<u8>>::empty()
        &&& self.spec_disk_summaries() == Map::<Seq<u8>, Seq<u8>>::empty()
    }

    /// Well-formedness: id-keyed indexes carry strictly increasing keys below
    /// the next id; reverse-index names are unique and point below it too.
    pub open spec fn wf(&self) -> bool {
        &&& u32_keys_ok(self.spec_ids(), self.spec_next_id())
        &&& u32_keys_ok(self.spec_types(), self.spec_next_id())
        &&& u32_keys_ok(self.spec_packages(), self.spec_next_id())
        &&& u32_keys_ok(self.spec_summaries(), self.spec_next_id())
        &&& u32_keys_ok(self.spec_icons(), self.spec_next_id())
        &&& forall|i: int, j: int|
            0 <= i < j < self.spec_names().len() ==> (#[trigger] self.spec_names()[i]).0@ != (
            #[trigger] self.spec_names()[j]).0@
        &&& forall|i: int|
            0 <= i < self.spec_names().len() ==> (#[trigger] self.spec_names()[i]).1
                < self.spec_next_id()
    }

    /// All indexes are empty and the next entity id is zero.
    pub open spec fn is_fresh(&self) -> bool {
        &&& self.spec_next_id() == 0
        &&& self.spec_names().len() == 0
        &&& self.spec_ids().len() == 0
        &&& self.spec_types().len() == 0
        &&& self.spec_packages().len() == 0
        &&& self.spec_summaries().len() == 0
        &&& self.spec_icons().len() == 0
        &&& self.spec_media() is None
    }

    /// Create the store for `origin` under the directory `path`, clearing
    /// any previously persisted contents for that origin (full rebuild).
    pub fn new(origin: &str, path: &str) -> (r: Result<OriginDb, StoreError>)
        ensures
            match r {
                Ok(db) => db.wf() && db.is_fresh() && db.disk_is_empty(),
                Err(_) => true,
            },
    {
        let db = match sled_open(path, origin) {
            Ok(d) => d,
            Err(e) => {
                return Err(e);
            },
        };
        let t_types = match sled_open_tree(&db, "types") {
            Ok(t) => t,
            Err(e) => {
                return Err(e);
            },
        };
        let t_ids = match sled_open_tree(&db, "ids") {
            Ok(t) => t,
            Err(e) => {
                return Err(e);
            },
        };
        let t_names = match sled_open_tree(&db, "names") {
            Ok(t) => t,
            Err(e) => {
                return Err(e);
            },
        };
        let t_icons = match sled_open_tree(&db, "icons") {
            Ok(t) => t,
            Err(e) => {
                return Err(e);
            },
        };
        let t_packages = match sled_open_tree(&db, "packages") {
            Ok(t) => t,
            Err(e) => {
                return Err(e);
            },
        };
        let t_summaries = match sled_open_tree(&db, "summaries") {
            Ok(t) => t,
            Err(e) => {
                return Err(e);
            },
        };
        let mut r = OriginDb {
            next_id: 0,
            names: Vec::new(),
            ids: Vec::new(),
            types: Vec::new(),
            packages: Vec::new(),
            summaries: Vec::new(),
            icons: Vec::new(),
            media: None,
            db,
            t_types,
            t_ids,
            t_names,
            t_icons,
            t_packages,
            t_summaries,
        };
        r.clear_mirror()?;
        Ok(r)
    }

    /// Reset the indexes for a rebuild: empty memory, cleared mirror.
    pub fn reset(&mut self) -> (r: Result<(), StoreError>)
        ensures
            final(self).wf() && final(self).is_fresh(),
            r is Ok ==> final(self).disk_is_empty(),
    {
        self.next_id = 0;
        self.names = Vec::new();
        self.ids = Vec::new();
        self.types = Vec::new();
        self.packages = Vec::new();
        self.summaries = Vec::new();
        self.icons = Vec::new();
        self.media = None;
        self.clear_mirror()
    }

    /// Clear every persisted partition of this origin.
    fn clear_mirror(&mut self) -> (r: Result<(), StoreError>)
        ensures
            r is Ok ==> final(self).disk_is_empty(),
            final(self).spec_next_id() == old(self).spec_next_id(),
            final(self).spec_names() == old(self).spec_names(),
            final(self).spec_ids() == old(self).spec_ids(),
            final(self).spec_types() == old(self).spec_types(),
            final(self).spec_packages() == old(self).spec_packages(),
            final(self).spec_summaries() == old(self).spec_summaries(),
            final(self).spec_icons() == old(self).spec_icons(),
            final(self).spec_media() == old(self).spec_media(),
    {
        tree_clear(&mut self.t_types)?;
        tree_clear(&mut self.t_ids)?;
        tree_clear(&mut self.t_names)?;
        tree_clear(&mut self.t_icons)?;
        tree_clear(&mut self.t_packages)?;
        tree_clear(&mut self.t_summaries)?;
        db_clear(&mut self.db)
    }

    /// Overwrite the origin's media base URL (last received wins).
    pub fn set_media_url(&mut self, url: &str) -> (r: Result<(), StoreError>)
        ensures
            final(self).spec_media() matches Some(u) && u@ == url@,
            final(self).spec_next_id() == old(self).spec_next_id(),
            final(self).spec_names() == old(self).spec_names(),
            final(self).spec_ids() == old(self).spec_ids(),
            final(self).spec_types() == old(self).spec_types(),
            final(self).spec_packages() == old(self).spec_packages(),
            final(self).spec_summaries() == old(self).spec_summaries(),
            final(self).spec_icons() == old(self).spec_icons(),
            old(self).wf() ==> final(self).wf(),
    {
        self.media = Some(url.to_owned());
        let r = db_insert(&mut self.db, "media-url".as_bytes(), url.as_bytes());
        proof {
            if old(self).wf() {
                assert(self.spec_ids() == old(self).spec_ids());
                assert(self.spec_names() == old(self).spec_names());
                assert(self.wf());
            }
        }
        r
    }

    /// Ingest one decoded package record. The next entity id is consumed
    /// unconditionally; a record whose display name resolves neither under
    /// `language` nor under `C` is dropped from every index (a "hole").
    /// An `Err` reports a failed mirror write; the in-memory indexes are
    /// updated the same way either way.
    pub fn add_dep11_package(&mut self, package: Dep11Package, language: &str) -> (r: Result<
        (),
        StoreError,
    >)
        requires
            old(self).wf(),
            old(self).spec_next_id() < u32::MAX,
        ensures
            final(self).wf(),
            add_effect(*old(self), *final(self), package, language@),
            localized(package.name@, language@) is None ==> r is Ok,
    {
        let ghost pkg = package;
        let ent = self.next_id;
        self.next_id = self.next_id + 1;
        let name = match package.name.localized(language) {
            Some(n) => n,
            None => {
                proof {
                    lemma_keys_ok_grow(self.spec_ids(), old(self).next_id, self.next_id);
                    lemma_keys_ok_grow(self.spec_types(), old(self).next_id, self.next_id);
                    lemma_keys_ok_grow(self.spec_packages(), old(self).next_id, self.next_id);
                    lemma_keys_ok_grow(self.spec_summaries(), old(self).next_id, self.next_id);
                    lemma_keys_ok_grow(self.spec_icons(), old(self).next_id, self.next_id);
                    assert(self.wf());
                }
                return Ok(());
            },
        };
        let key_v = u32_to_le_bytes(ent);
        let id_b = package.id.as_str().as_bytes_vec();
        let ty_b = package.type_.as_str().as_bytes_vec();
        let pk_b = package.package.as_str().as_bytes_vec();
        let name_b = name.as_str().as_bytes_vec();
        let summary = package.summary.localized(language);
        let icon_b = match &package.icon {
            Some(ic) => Some(ic.encode()),
            None => None,
        };
        self.ids.push((ent, package.id));
        self.types.push((ent, package.type_));
        self.packages.push((ent, package.package));
        let sum_b = match summary {
            Some(s) => {
                let b = s.as_str().as_bytes_vec();
                self.summaries.push((ent, s));
                Some(b)
            },
            None => None,
        };
        match package.icon {
            Some(ic) => {
                self.icons.push((ent, ic));
            },
            None => {},
        }
        let ghost mid_names = self.names@;
        proof {
            assert(mid_names == old(self).spec_names());
            assert forall|i: int, j: int| 0 <= i < j < mid_names.len() implies (
            #[trigger] mid_names[i]).0@ != (#[trigger] mid_names[j]).0@ by {
                assert((old(self).spec_names()[i]).0@ != (old(self).spec_names()[j]).0@);
            }
        }
        names_upsert(&mut self.names, name, ent);
        proof {
            let pre = *old(self);
            lemma_keys_ok_push(pre.spec_ids(), ent, (ent, pkg.id));
            lemma_keys_ok_push(pre.spec_types(), ent, (ent, pkg.type_));
            lemma_keys_ok_push(pre.spec_packages(), ent, (ent, pkg.package));
            match localized(pkg.summary@, language@) {
                Some(_) => {
                    assert(self.summaries@.drop_last() =~= pre.spec_summaries());
                    assert(self.summaries@ == pre.spec_summaries().push(self.summaries@.last()));
                    lemma_keys_ok_push(pre.spec_summaries(), ent, self.summaries@.last());
                },
                None => {
                    lemma_keys_ok_grow(pre.spec_summaries(), pre.next_id, self.next_id);
                },
            }
            match pkg.icon {
                Some(ic) => {
                    lemma_keys_ok_push(pre.spec_icons(), ent, (ent, ic));
                },
                None => {
                    lemma_keys_ok_grow(pre.spec_icons(), pre.next_id, self.next_id);
                },
            }
            assert(mid_names == pre.spec_names());
            assert forall|i: int| 0 <= i < self.names@.len() implies (
            #[trigger] self.names@[i]).1 < self.next_id by {
                if self.names@[i].1 != ent {
                    assert(mid_names[i].1 < pre.next_id);
                }
            }
            assert(self.wf());
            assert(add_effect(*old(self), *self, pkg, language@));
        }
        tree_insert(&mut self.t_ids, key_v.as_slice(), id_b.as_slice())?;
        tree_insert(&mut self.t_types, key_v.as_slice(), ty_b.as_slice())?;
        tree_insert(&mut self.t_packages, key_v.as_slice(), pk_b.as_slice())?;
        tree_insert(&mut self.t_names, name_b.as_slice(), key_v.as_slice())?;
        match sum_b {
            Some(b) => {
                tree_insert(&mut self.t_summaries, key_v.as_slice(), b.as_slice())?;
            },
            None => {},
        }
        match icon_b {
            Some(b) => {
                tree_insert(&mut self.t_icons, key_v.as_slice(), b.as_slice())?;
            },
            None => {},
        }
        Ok(())
    }

    /// The original package id of an entity, if indexed.
    pub fn id(&self, package: Entity) -> (r: Option<String>)
        ensures
            match r {
                Some(s) => u32_lookup(self.spec_ids(), package) == Some(s),
                None => u32_lookup(self.spec_ids(), package) is None,
            },
    {
        u32_get_str(&self.ids, package)
    }

    /// The localized summary of an entity, if indexed.
    pub fn summary(&self, package: Entity) -> (r: Option<String>)
        ensures
            match r {
                Some(s) => u32_lookup(self.spec_summaries(), package) == Some(s),
                None => u32_lookup(self.spec_summaries(), package) is None,
            },
    {
        u32_get_str(&self.summaries, package)
    }

    /// The icon-blob cache key of an entity: the first cached variant's
    /// filename of its stored icon descriptor. Absent when the entity has no
    /// descriptor or the descriptor has no cached variant; never an error.
    pub fn icon(&self, package: Entity) -> (r: Option<String>)
        ensures
            match u32_lookup(self.spec_icons(), package) {
                None => r is None,
                Some(ic) => match icon_cache_key(ic) {
                    None => r is None,
                    Some(k) => r matches Some(s) && s@ == k,
                },
            },
    {
        proof {
            assert(self.icons@.skip(0) =~= self.icons@);
        }
        let mut i: usize = 0;
        while i < self.icons.len()
            invariant
                i <= self.icons@.len(),
                u32_lookup(self.icons@, package) == u32_lookup(self.icons@.skip(i as int), package),
            decreases self.icons@.len() - i,
        {
            proof {
                assert(self.icons@.skip(i as int)[0] == self.icons@[i as int]);
                assert(self.icons@.skip(i as int).drop_first() =~= self.icons@.skip(i + 1));
            }
            if self.icons[i].0 == package {
                let ic = &self.icons[i].1;
                match &ic.cached {
                    Some(list) => {
                        if list.len() > 0 {
                            return Some(list[0].name.clone());
                        } else {
                            return None;
                        }
                    },
                    None => {
                        return None;
                    },
                }
            }
            i = i + 1;
        }
        proof {
            assert(self.icons@.skip(i as int) =~= Seq::<(u32, Icon)>::empty());
        }
        None
    }

    /// The reverse name index as (entity, display name) pairs.
    pub fn iter(&self) -> (r: Vec<(Entity, String)>)
        ensures
            r@.len() == self.spec_names().len(),
            forall|i: int|
                0 <= i < r@.len() ==> r@[i].0 == self.spec_names()[i].1 && r@[i].1
                    == self.spec_names()[i].0,
    {
        let mut r: Vec<(Entity, String)> = Vec::new();
        let mut i: usize = 0;
        while i < self.names.len()
            invariant
                i <= self.names@.len(),
                r@.len() == i,
                forall|j: int|
                    0 <= j < i ==> r@[j].0 == self.names@[j].1 && r@[j].1 == self.names@[j].0,
            decreases self.names@.len() - i,
        {
            r.push((self.names[i].1, self.names[i].0.clone()));
            i = i + 1;
        }
        r
    }

    /// Flush this origin's persistent store durably.
    pub fn flush(&self) -> (r: Result<(), StoreError>) {
        db_flush(&self.db)
    }

    /// The origin's media base URL, if one arrived this rebuild.
    pub fn media_url(&self) -> (r: Option<String>)
        ensures
            match r {
                Some(u) => self.spec_media() == Some(u),
                None => self.spec_media() is None,
            },
    {
        match &self.media {
            Some(u) => Some(u.clone()),
            None => None,
        }
    }
}

} // verus!
