//! The cache database: all origin stores, the shared icon-blob store, the
//! merge consumer that applies decoded events, and the query API.

use vstd::prelude::*;
use vstd::string::StringSliceAdditionalSpecFns;
use vstd::string::StrSliceExecFns;
use vstd::utf8::encode_utf8;
use crate::appstream::{localized, Dep11Package};
use crate::events::{Entity, IconSize, PackageEvent, StoreError};
use crate::sledio::{db_flush, sled_open, sled_open_tree, tree_contents, tree_get, tree_insert};
use crate::store::{add_effect, OriginDb};
use crate::strutil::{contains_seq, contains_str, str_eq};

verus! {

/// One origin's entry in the database: its name, its store, and whether the
/// store still holds the previous cycle's contents.
pub struct OriginEntry {
    pub name: String,
    pub stale: bool,
    pub db: OriginDb,
}

/// The base an event applies to: the origin's current store when it exists
/// and was already touched this cycle, else a freshly created (cleared) one.
pub open spec fn is_base(pre: Seq<OriginEntry>, idx: int, origin: Seq<char>, base: OriginDb) -> bool {
    if idx < pre.len() && pre[idx].name@ == origin && !pre[idx].stale {
        base == pre[idx].db
    } else {
        base.wf() && base.is_fresh()
    }
}

/// Icon blobs accumulate: no operation of the cache clears an icon-blob
/// partition, and storing one cycle's blob never removes another cycle's
/// blob under a different key, so after two cycles store blobs under
/// distinct keys, both remain present with their own bytes.
pub proof fn lemma_icon_accumulation(
    m: Map<Seq<u8>, Seq<u8>>,
    k1: Seq<u8>,
    v1: Seq<u8>,
    k2: Seq<u8>,
    v2: Seq<u8>,
)
    requires
        k1 != k2,
    ensures
        ({
            let m2 = m.insert(k1, v1).insert(k2, v2);
            &&& m2.contains_key(k1) && m2[k1] == v1
            &&& m2.contains_key(k2) && m2[k2] == v2
        }),
{
}

/// Every entry other than `idx` is unchanged between `pre` and `post`.
pub open spec fn frame_except(pre: Seq<OriginEntry>, post: Seq<OriginEntry>, idx: int) -> bool {
    forall|l: int| #![trigger post[l]] 0 <= l < post.len() && l != idx ==> post[l] == pre[l]
}

/// The whole software-catalog cache.
pub struct Database {
    pub path: String,
    pub language: String,
    icons_db: sled::Db,
    icons48: sled::Tree,
    icons64: sled::Tree,
    icons128: sled::Tree,
    origins: Vec<OriginEntry>,
}

impl Database {
    /// The per-origin entries, in creation order.
    pub closed spec fn spec_origins(&self) -> Seq<OriginEntry> {
        self.origins@
    }

    /// The storage path the cache was opened at.
    pub closed spec fn spec_path(&self) -> Seq<char> {
        self.path@
    }

    /// The configured display-language tag.
    pub closed spec fn spec_language(&self) -> Seq<char> {
        self.language@
    }

    /// The contents of the icon-blob partition for `size`.
    pub closed spec fn spec_icon_tree(&self, size: IconSize) -> Map<Seq<u8>, Seq<u8>> {
        match size {
            IconSize::Size48 => tree_contents(self.icons48),
            IconSize::Size64 => tree_contents(self.icons64),
            IconSize::Size128 => tree_contents(self.icons128),
        }
    }

    /// Well-formedness: origin names are unique, every store well-formed.
    pub open spec fn wf(&self) -> bool {
        &&& forall|i: int, j: int|
            0 <= i < j < self.spec_origins().len() ==> (#[trigger] self.spec_origins()[i]).name@
                != (#[trigger] self.spec_origins()[j]).name@
        &&& forall|i: int|
            0 <= i < self.spec_origins().len() ==> (#[trigger] self.spec_origins()[i]).db.wf()
    }

    /// Open the cache at a storage path with a configured display language.
    /// The icon-blob store keeps whatever earlier cycles persisted.
    pub fn new(path: String, language: String) -> (r: Result<Database, StoreError>)
        ensures
            match r {
                Ok(d) => d.wf() && d.spec_origins().len() == 0 && d.spec_path() == path@
                    && d.spec_language() == language@,
                Err(_) => true,
            },
    {
        let icons_db = match sled_open(path.as_str(), "icons") {
            Ok(d) => d,
            Err(e) => {
                return Err(e);
            },
        };
        let icons48 = match sled_open_tree(&icons_db, IconSize::Size48.token()) {
            Ok(t) => t,
            Err(e) => {
                return Err(e);
            },
        };
        let icons64 = match sled_open_tree(&icons_db, IconSize::Size64.token()) {
            Ok(t) => t,
            Err(e) => {
                return Err(e);
            },
        };
        let icons128 = match sled_open_tree(&icons_db, IconSize::Size128.token()) {
            Ok(t) => t,
            Err(e) => {
                return Err(e);
            },
        };
        Ok(
            Database {
                path,
                language,
                icons_db,
                icons48,
                icons64,
                icons128,
                origins: Vec::new(),
            },
        )
    }

    /// Borrow an origin's store by name.
    pub fn get_origin(&self, origin: &str) -> (r: Option<&OriginDb>)
        ensures
            match r {
                Some(db) => exists|i: int|
                    0 <= i < self.spec_origins().len() && (#[trigger] self.spec_origins()[i]).name@ == origin@ && *db == self.spec_origins()[i].db,
                None => forall|i: int|
                    0 <= i < self.spec_origins().len() ==> (#[trigger] self.spec_origins()[i]).name@ != origin@,
            },
    {
        let mut i: usize = 0;
        while i < self.origins.len()
            invariant
                i <= self.origins@.len(),
                forall|j: int| 0 <= j < i ==> (#[trigger] self.origins@[j]).name@ != origin@,
            decreases self.origins@.len() - i,
        {
            if str_eq(self.origins[i].name.as_str(), origin) {
                proof {
                    assert(0 <= i < self.spec_origins().len() && (self.spec_origins()[i as int]).name@ == origin@);
                }
                return Some(&self.origins[i].db);
            }
            i = i + 1;
        }
        None
    }

    /// Mark every origin's store as belonging to the previous cycle, so that
    /// its first reference this cycle recreates (clears) it.
    pub fn begin_refresh(&mut self)
        ensures
            final(self).spec_path() == old(self).spec_path(),
            final(self).spec_language() == old(self).spec_language(),
            final(self).spec_icon_tree(IconSize::Size48) == old(self).spec_icon_tree(
                IconSize::Size48,
            ),
            final(self).spec_icon_tree(IconSize::Size64) == old(self).spec_icon_tree(
                IconSize::Size64,
            ),
            final(self).spec_icon_tree(IconSize::Size128) == old(self).spec_icon_tree(
                IconSize::Size128,
            ),
            final(self).spec_origins().len() == old(self).spec_origins().len(),
            forall|i: int|
                0 <= i < old(self).spec_origins().len() ==> (#[trigger] final(self).spec_origins()[i]).name == old(self).spec_origins()[i].name && final(self).spec_origins()[i].db
                    == old(self).spec_origins()[i].db && final(self).spec_origins()[i].stale,
            old(self).wf() ==> final(self).wf(),
    {
        let ghost pre = self.origins@;
        let mut i: usize = 0;
        while i < self.origins.len()
            invariant
                self.path == old(self).path,
                self.language == old(self).language,
                self.icons_db == old(self).icons_db,
                self.icons48 == old(self).icons48,
                self.icons64 == old(self).icons64,
                self.icons128 == old(self).icons128,
                pre == old(self).spec_origins(),
                i <= self.origins@.len(),
                self.origins@.len() == pre.len(),
                forall|j: int|
                    0 <= j < pre.len() ==> (#[trigger] self.origins@[j]).name == pre[j].name
                        && self.origins@[j].db == pre[j].db,
                forall|j: int| 0 <= j < i ==> (#[trigger] self.origins@[j]).stale,
            decreases self.origins@.len() - i,
        {
            let mut entry = self.origins.remove(i);
            entry.stale = true;
            self.origins.insert(i, entry);
            i = i + 1;
        }
    }

    /// Find the origin's entry for this cycle, creating or recreating its
    /// store on first reference (full-rebuild policy).
    fn ensure_origin(&mut self, origin: &str) -> (r: Result<usize, StoreError>)
        requires
            old(self).wf(),
        ensures
            final(self).spec_path() == old(self).spec_path(),
            final(self).spec_language() == old(self).spec_language(),
            final(self).spec_icon_tree(IconSize::Size48) == old(self).spec_icon_tree(
                IconSize::Size48,
            ),
            final(self).spec_icon_tree(IconSize::Size64) == old(self).spec_icon_tree(
                IconSize::Size64,
            ),
            final(self).spec_icon_tree(IconSize::Size128) == old(self).spec_icon_tree(
                IconSize::Size128,
            ),
            final(self).wf(),
            match r {
                Ok(idx) => {
                    &&& 0 <= idx < final(self).spec_origins().len()
                    &&& idx <= old(self).spec_origins().len()
                    &&& final(self).spec_origins()[idx as int].name@ == origin@
                    &&& !final(self).spec_origins()[idx as int].stale
                    &&& frame_except(
                        old(self).spec_origins(),
                        final(self).spec_origins(),
                        idx as int,
                    )
                    &&& is_base(
                        old(self).spec_origins(),
                        idx as int,
                        origin@,
                        final(self).spec_origins()[idx as int].db,
                    )
                    &&& (idx < old(self).spec_origins().len() ==> final(self).spec_origins().len()
                        == old(self).spec_origins().len() && old(self).spec_origins()[idx as int].name@ == origin@)
                    &&& (idx == old(self).spec_origins().len() ==> final(self).spec_origins().len() == old(self).spec_origins().len() + 1)
                },
                Err(_) => final(self).spec_origins().len() == old(self).spec_origins().len()
                    && exists|idx: int|
                    #![trigger frame_except(old(self).spec_origins(), final(self).spec_origins(), idx)]
                    0 <= idx <= old(self).spec_origins().len() && frame_except(
                        old(self).spec_origins(),
                        final(self).spec_origins(),
                        idx,
                    ) && (idx < final(self).spec_origins().len() ==> final(self).spec_origins()[idx].name@ == origin@),
            },
            (exists|i: int|
                0 <= i < old(self).spec_origins().len() && (#[trigger] old(self).spec_origins()[i]).name@ == origin@ && !old(self).spec_origins()[i].stale) ==> r is Ok,
    {
        let ghost pre = self.origins@;
        let mut i: usize = 0;
        while i < self.origins.len()
            invariant
                self.path == old(self).path,
                self.language == old(self).language,
                self.icons_db == old(self).icons_db,
                self.icons48 == old(self).icons48,
                self.icons64 == old(self).icons64,
                self.icons128 == old(self).icons128,
                old(self).wf(),
                i <= self.origins@.len(),
                self.origins@ == pre,
                pre == old(self).spec_origins(),
                forall|j: int| 0 <= j < i ==> (#[trigger] pre[j]).name@ != origin@,
            decreases self.origins@.len() - i,
        {
            if str_eq(self.origins[i].name.as_str(), origin) {
                if self.origins[i].stale {
                    let mut entry = self.origins.remove(i);
                    let reset_r = entry.db.reset();
                    entry.stale = false;
                    self.origins.insert(i, entry);
                    proof {
                        assert(self.origins@ =~= pre.update(i as int, self.origins@[i as int]));
                    }
                    match reset_r {
                        Ok(u) => {
                            return Ok(i);
                        },
                        Err(e) => {
                            proof {
                                assert(frame_except(pre, self.origins@, i as int)) by {
                                    assert forall|l: int| #![trigger self.origins@[l]]
                                        0 <= l < self.origins@.len() && l != i as int
                                        implies self.origins@[l] == pre[l] by {
                                        assert(self.origins@[l] == pre[l]);
                                    }
                                }
                                assert(self.origins@[i as int].name@ == origin@);
                                if exists|i0: int|
                                    0 <= i0 < pre.len() && (#[trigger] pre[i0]).name@ == origin@
                                        && !pre[i0].stale {
                                    let i0 = choose|i0: int|
                                        0 <= i0 < pre.len() && (#[trigger] pre[i0]).name@
                                            == origin@ && !pre[i0].stale;
                                    assert(pre[i0].name@ == pre[i as int].name@);
                                    assert(i0 == i);
                                    assert(false);
                                }
                            }
                            return Err(e);
                        },
                    }
                } else {
                    return Ok(i);
                }
            }
            i = i + 1;
        }
        let db = match OriginDb::new(origin, self.path.as_str()) {
            Ok(d) => d,
            Err(e) => {
                proof {
                    assert(frame_except(pre, self.origins@, pre.len() as int)) by {
                        assert forall|l: int| #![trigger self.origins@[l]]
                            0 <= l < self.origins@.len() && l != pre.len() as int
                            implies self.origins@[l] == pre[l] by {
                            assert(self.origins@[l] == pre[l]);
                        }
                    }
                }
                return Err(e);
            },
        };
        self.origins.push(OriginEntry { name: origin.to_owned(), stale: false, db });
        proof {
            assert(self.origins@.drop_last() =~= pre);
        }
        Ok(self.origins.len() - 1)
    }

    /// Apply one event from the shared channel: merge a package record into
    /// its origin's indexes, store an icon blob under its size class and
    /// name, or overwrite an origin's media base URL. An `Err` reports a
    /// store-backend failure; indexes that were already updated stay updated.
    #[verifier::rlimit(100)]
    pub fn apply_event(&mut self, event: PackageEvent) -> (r: Result<(), StoreError>)
        requires
            old(self).wf(),
            forall|i: int|
                0 <= i < old(self).spec_origins().len() ==> (#[trigger] old(self).spec_origins()[i]).db.spec_next_id() < u32::MAX,
        ensures
            final(self).wf(),
            final(self).spec_path() == old(self).spec_path(),
            final(self).spec_language() == old(self).spec_language(),
            match event {
                PackageEvent::Dep11 { origin, info } => (r is Ok ==> exists|idx: int, base: OriginDb|
                    #![trigger is_base(old(self).spec_origins(), idx, origin@, base)]
                    0 <= idx < final(self).spec_origins().len() && final(self).spec_origins()[idx].name@ == origin@ && !final(self).spec_origins()[idx].stale && frame_except(
                        old(self).spec_origins(),
                        final(self).spec_origins(),
                        idx,
                    ) && is_base(old(self).spec_origins(), idx, origin@, base)
                        && (final(self).spec_origins().len() == old(self).spec_origins().len() || (
                    final(self).spec_origins().len() == old(self).spec_origins().len() + 1 && idx
                        == old(self).spec_origins().len()))
                        && add_effect(
                        base,
                        final(self).spec_origins()[idx].db,
                        info,
                        old(self).spec_language(),
                    )) && (final(self).spec_origins().len() == old(self).spec_origins().len()
                        || final(self).spec_origins().len() == old(self).spec_origins().len()
                        + 1) && (exists|idx: int|
                    #![trigger frame_except(old(self).spec_origins(), final(self).spec_origins(), idx)]
                    0 <= idx <= old(self).spec_origins().len() && frame_except(
                        old(self).spec_origins(),
                        final(self).spec_origins(),
                        idx,
                    ) && (idx < final(self).spec_origins().len() ==> final(self).spec_origins()[idx].name@ == origin@)) && final(self).spec_icon_tree(IconSize::Size48) == old(self).spec_icon_tree(IconSize::Size48) && final(self).spec_icon_tree(IconSize::Size64) == old(self).spec_icon_tree(IconSize::Size64) && final(self).spec_icon_tree(IconSize::Size128) == old(self).spec_icon_tree(IconSize::Size128) && ((exists|i: int|
                    0 <= i < old(self).spec_origins().len() && (#[trigger] old(self).spec_origins()[i]).name@ == origin@ && !old(self).spec_origins()[i].stale)
                        && localized(info.name@, old(self).spec_language()) is None ==> r is Ok),
                PackageEvent::Dep11Icon { size, name, buffer } => final(self).spec_origins() == old(self).spec_origins() && (r is Ok ==> final(self).spec_icon_tree(size) == old(self).spec_icon_tree(size).insert(encode_utf8(name@), buffer@)) && (forall|other: IconSize| other != size ==> #[trigger] final(self).spec_icon_tree(other) == old(self).spec_icon_tree(other)),
                PackageEvent::MediaUrl { origin, base_url } => (r is Ok ==> exists|
                    idx: int,
                    base: OriginDb,
                |
                    #![trigger is_base(old(self).spec_origins(), idx, origin@, base)]
                    0 <= idx < final(self).spec_origins().len() && final(self).spec_origins()[idx].name@ == origin@ && !final(self).spec_origins()[idx].stale && frame_except(
                        old(self).spec_origins(),
                        final(self).spec_origins(),
                        idx,
                    ) && is_base(old(self).spec_origins(), idx, origin@, base)
                        && (final(self).spec_origins().len() == old(self).spec_origins().len() || (
                    final(self).spec_origins().len() == old(self).spec_origins().len() + 1 && idx
                        == old(self).spec_origins().len()))
                        && (final(self).spec_origins()[idx].db.spec_media() matches Some(u) && u@
                        == base_url@) && final(self).spec_origins()[idx].db.spec_names()
                        == base.spec_names() && final(self).spec_origins()[idx].db.spec_next_id()
                        == base.spec_next_id()) && (final(self).spec_origins().len() == old(self).spec_origins().len()
                        || final(self).spec_origins().len() == old(self).spec_origins().len()
                        + 1) && (exists|idx: int|
                    #![trigger frame_except(old(self).spec_origins(), final(self).spec_origins(), idx)]
                    0 <= idx <= old(self).spec_origins().len() && frame_except(
                        old(self).spec_origins(),
                        final(self).spec_origins(),
                        idx,
                    ) && (idx < final(self).spec_origins().len() ==> final(self).spec_origins()[idx].name@ == origin@)) && final(self).spec_icon_tree(IconSize::Size48) == old(self).spec_icon_tree(IconSize::Size48) && final(self).spec_icon_tree(IconSize::Size64) == old(self).spec_icon_tree(IconSize::Size64) && final(self).spec_icon_tree(IconSize::Size128) == old(self).spec_icon_tree(IconSize::Size128),
            },
    {
        match event {
            PackageEvent::Dep11 { origin, info } => {
                let idx = match self.ensure_origin(origin.as_str()) {
                    Ok(i) => i,
                    Err(e) => {
                        return Err(e);
                    },
                };
                let ghost mid = self.origins@;
                let mut entry = self.origins.remove(idx);
                let ghost base = entry.db;
                let add_r = entry.db.add_dep11_package(info, self.language.as_str());
                self.origins.insert(idx, entry);
                proof {
                    assert(self.origins@ =~= mid.update(idx as int, self.origins@[idx as int]));
                    assert forall|i: int, j: int|
                        0 <= i < j < self.origins@.len() implies (#[trigger] self.origins@[i]).name@ != (#[trigger] self.origins@[j]).name@ by {
                        assert(self.origins@[i].name@ == mid[i].name@);
                        assert(self.origins@[j].name@ == mid[j].name@);
                    }
                    assert forall|i: int| 0 <= i < self.origins@.len() implies (
                    #[trigger] self.origins@[i]).db.wf() by {
                        if i != idx {
                            assert(self.origins@[i] == mid[i]);
                        }
                    }
                    assert(is_base(old(self).spec_origins(), idx as int, origin@, base));
                    assert(add_effect(
                        base,
                        self.origins@[idx as int].db,
                        info,
                        old(self).spec_language(),
                    ));
                    assert(self.origins@[idx as int].name@ == origin@);
                    assert(!self.origins@[idx as int].stale);
                    assert(self.origins@.len() == old(self).spec_origins().len() || (
                    self.origins@.len() == old(self).spec_origins().len() + 1 && idx as int == old(
                        self,
                    ).spec_origins().len()));
                    assert(frame_except(old(self).spec_origins(), self.origins@, idx as int)) by {
                        assert forall|l: int| #![trigger self.origins@[l]]
                            0 <= l < self.origins@.len() && l != idx as int implies self.origins@[l]
                            == old(self).spec_origins()[l] by {
                            assert(self.origins@[l] == mid[l]);
                        }
                    }
                }
                match add_r {
                    Ok(u) => Ok(()),
                    Err(e) => Err(e),
                }
            },
            PackageEvent::Dep11Icon { size, name, buffer } => {
                let r = match size {
                    IconSize::Size48 => tree_insert(
                        &mut self.icons48,
                        name.as_str().as_bytes(),
                        buffer.as_slice(),
                    ),
                    IconSize::Size64 => tree_insert(
                        &mut self.icons64,
                        name.as_str().as_bytes(),
                        buffer.as_slice(),
                    ),
                    IconSize::Size128 => tree_insert(
                        &mut self.icons128,
                        name.as_str().as_bytes(),
                        buffer.as_slice(),
                    ),
                };
                r
            },
            PackageEvent::MediaUrl { origin, base_url } => {
                let idx = match self.ensure_origin(origin.as_str()) {
                    Ok(i) => i,
                    Err(e) => {
                        return Err(e);
                    },
                };
                let ghost mid = self.origins@;
                let mut entry = self.origins.remove(idx);
                let ghost base = entry.db;
                let set_r = entry.db.set_media_url(base_url.as_str());
                self.origins.insert(idx, entry);
                proof {
                    assert(self.origins@ =~= mid.update(idx as int, self.origins@[idx as int]));
                    assert forall|i: int, j: int|
                        0 <= i < j < self.origins@.len() implies (#[trigger] self.origins@[i]).name@ != (#[trigger] self.origins@[j]).name@ by {
                        assert(self.origins@[i].name@ == mid[i].name@);
                        assert(self.origins@[j].name@ == mid[j].name@);
                    }
                    assert forall|i: int| 0 <= i < self.origins@.len() implies (
                    #[trigger] self.origins@[i]).db.wf() by {
                        if i != idx {
                            assert(self.origins@[i] == mid[i]);
                        }
                    }
                    assert(is_base(old(self).spec_origins(), idx as int, origin@, base));
                    assert(self.origins@[idx as int].name@ == origin@);
                    assert(!self.origins@[idx as int].stale);
                    assert(frame_except(old(self).spec_origins(), self.origins@, idx as int)) by {
                        assert forall|l: int| #![trigger self.origins@[l]]
                            0 <= l < self.origins@.len() && l != idx as int implies self.origins@[l]
                            == old(self).spec_origins()[l] by {
                            assert(self.origins@[l] == mid[l]);
                        }
                    }
                }
                match set_r {
                    Ok(u) => Ok(()),
                    Err(e) => Err(e),
                }
            },
        }
    }

    /// Flush every open store durably. The first backend failure is
    /// reported after all stores were given the chance to flush.
    pub fn flush(&self) -> (r: Result<(), StoreError>) {
        let mut failed = false;
        if db_flush(&self.icons_db).is_err() {
            failed = true;
        }
        let mut i: usize = 0;
        while i < self.origins.len()
            decreases self.origins@.len() - i,
        {
            if self.origins[i].db.flush().is_err() {
                failed = true;
            }
            i = i + 1;
        }
        if failed {
            Err(StoreError::Backend)
        } else {
            Ok(())
        }
    }

    /// How many of the first `upto` entries of a reverse name index contain
    /// the query.
    pub open spec fn match_count_in(
        names: Seq<(String, u32)>,
        q: Seq<char>,
        upto: int,
    ) -> int
        decreases upto,
    {
        if upto <= 0 {
            0
        } else {
            Self::match_count_in(names, q, upto - 1) + (if contains_seq(names[upto - 1].0@, q) {
                1int
            } else {
                0int
            })
        }
    }

    /// How many reverse-index entries of the first `upto` origins contain
    /// the query.
    pub open spec fn match_count(origins: Seq<OriginEntry>, q: Seq<char>, upto: int) -> int
        decreases upto,
    {
        if upto <= 0 {
            0
        } else {
            Self::match_count(origins, q, upto - 1) + Self::match_count_in(
                origins[upto - 1].db.spec_names(),
                q,
                origins[upto - 1].db.spec_names().len() as int,
            )
        }
    }

    /// One result triple names an origin and one entry of its reverse name
    /// index whose display name contains the query.
    pub open spec fn sound_hit(&self, t: (String, Entity, String), q: Seq<char>) -> bool {
        exists|i: int, j: int|
            #![trigger self.spec_origins()[i].db.spec_names()[j]]
            0 <= i < self.spec_origins().len() && 0 <= j < self.spec_origins()[
                i
            ].db.spec_names().len() && t.0 == self.spec_origins()[i].name && t.1
                == self.spec_origins()[i].db.spec_names()[j].1 && t.2 == self.spec_origins()[
                i
            ].db.spec_names()[j].0 && contains_seq(
                self.spec_origins()[i].db.spec_names()[j].0@,
                q,
            )
    }

    /// Entry `b` of origin `a`'s reverse name index appears among `r`.
    pub open spec fn hit_found(&self, r: Seq<(String, Entity, String)>, a: int, b: int) -> bool {
        exists|k: int|
            0 <= k < r.len() && (#[trigger] r[k]).0 == self.spec_origins()[a].name && r[k].1
                == self.spec_origins()[a].db.spec_names()[b].1 && r[k].2 == self.spec_origins()[
                a
            ].db.spec_names()[b].0
    }

    /// A found entry stays found when another result is appended.
    proof fn lemma_hit_found_push(
        &self,
        r: Seq<(String, Entity, String)>,
        x: (String, Entity, String),
        a: int,
        b: int,
    )
        requires
            self.hit_found(r, a, b),
        ensures
            self.hit_found(r.push(x), a, b),
    {
        let k = choose|k: int|
            0 <= k < r.len() && (#[trigger] r[k]).0 == self.spec_origins()[a].name && r[k].1
                == self.spec_origins()[a].db.spec_names()[b].1 && r[k].2 == self.spec_origins()[
                a
            ].db.spec_names()[b].0;
        assert(r.push(x)[k] == r[k]);
    }

    /// Substring search over every origin's reverse name index: each indexed
    /// display name that contains the query contributes one
    /// (origin, entity, name) triple; a query shorter than two characters
    /// yields nothing without scanning any store.
    pub fn search_for(&self, package: &str) -> (r: Vec<(String, Entity, String)>)
        requires
            self.wf(),
        ensures
            package@.len() < 2 ==> r@.len() == 0,
            forall|k: int| 0 <= k < r@.len() ==> self.sound_hit(#[trigger] r@[k], package@),
            package@.len() >= 2 ==> forall|i: int, j: int|
                #![trigger self.spec_origins()[i].db.spec_names()[j]]
                0 <= i < self.spec_origins().len() && 0 <= j < self.spec_origins()[
                    i
                ].db.spec_names().len() && contains_seq(
                    self.spec_origins()[i].db.spec_names()[j].0@,
                    package@,
                ) ==> self.hit_found(r@, i, j),
            package@.len() >= 2 ==> r@.len() == Self::match_count(
                self.spec_origins(),
                package@,
                self.spec_origins().len() as int,
            ),
    {
        let mut r: Vec<(String, Entity, String)> = Vec::new();
        if package.unicode_len() < 2 {
            return r;
        }
        let mut i: usize = 0;
        while i < self.origins.len()
            invariant
                self.wf(),
                2 <= package@.len(),
                i <= self.origins@.len(),
                forall|k: int| 0 <= k < r@.len() ==> self.sound_hit(#[trigger] r@[k], package@),
                r@.len() == Self::match_count(self.spec_origins(), package@, i as int),
                forall|a: int, b: int|
                    #![trigger self.spec_origins()[a].db.spec_names()[b]]
                    0 <= a < i && 0 <= b < self.spec_origins()[a].db.spec_names().len()
                        && contains_seq(
                        self.spec_origins()[a].db.spec_names()[b].0@,
                        package@,
                    ) ==> self.hit_found(r@, a, b),
            decreases self.origins@.len() - i,
        {
            let entries = self.origins[i].db.iter();
            let mut j: usize = 0;
            while j < entries.len()
                invariant
                    self.wf(),
                    2 <= package@.len(),
                    i < self.origins@.len(),
                    j <= entries@.len(),
                    entries@.len() == self.spec_origins()[i as int].db.spec_names().len(),
                    forall|b: int|
                        0 <= b < entries@.len() ==> (#[trigger] entries@[b]).0
                            == self.spec_origins()[i as int].db.spec_names()[b].1 && entries@[b].1
                            == self.spec_origins()[i as int].db.spec_names()[b].0,
                    forall|k: int| 0 <= k < r@.len() ==> self.sound_hit(#[trigger] r@[k], package@),
                    r@.len() == Self::match_count(self.spec_origins(), package@, i as int)
                        + Self::match_count_in(
                        self.spec_origins()[i as int].db.spec_names(),
                        package@,
                        j as int,
                    ),
                    forall|a: int, b: int|
                        #![trigger self.spec_origins()[a].db.spec_names()[b]]
                        ((0 <= a < i && 0 <= b < self.spec_origins()[a].db.spec_names().len()) || (
                        a == i && 0 <= b < j)) && contains_seq(
                            self.spec_origins()[a].db.spec_names()[b].0@,
                            package@,
                        ) ==> self.hit_found(r@, a, b),
                decreases entries@.len() - j,
            {
                if contains_str(entries[j].1.as_str(), package) {
                    let ghost r0 = r@;
                    let x = (self.origins[i].name.clone(), entries[j].0, entries[j].1.clone());
                    let ghost gx = x;
                    r.push(x);
                    proof {
                        let k = r@.len() - 1;
                        assert(r@ == r0.push(gx));
                        assert(r@[k].0 == self.spec_origins()[i as int].name);
                        assert(r@[k].1 == self.spec_origins()[i as int].db.spec_names()[
                            j as int
                        ].1);
                        assert(r@[k].2 == self.spec_origins()[i as int].db.spec_names()[
                            j as int
                        ].0);
                        assert(contains_seq(
                            self.spec_origins()[i as int].db.spec_names()[j as int].0@,
                            package@,
                        ));
                        assert(self.sound_hit(r@[k], package@));
                        assert forall|k2: int|
                            0 <= k2 < r@.len() implies self.sound_hit(
                            #[trigger] r@[k2],
                            package@,
                        ) by {
                            if k2 < k {
                                assert(r@[k2] == r0[k2]);
                            }
                        }
                        assert(self.hit_found(r@, i as int, j as int));
                        assert forall|a: int, b: int|
                            #![trigger self.spec_origins()[a].db.spec_names()[b]]
                            ((0 <= a < i && 0 <= b < self.spec_origins()[
                                a
                            ].db.spec_names().len()) || (a == i && 0 <= b < j + 1))
                                && contains_seq(
                                self.spec_origins()[a].db.spec_names()[b].0@,
                                package@,
                            ) implies self.hit_found(r@, a, b) by {
                            if a == i && b == j {
                            } else {
                                assert(self.hit_found(r0, a, b));
                                self.lemma_hit_found_push(r0, gx, a, b);
                            }
                        }
                    }
                }
                j = j + 1;
            }
            i = i + 1;
        }
        r
    }

    /// Fetch a raw icon blob by size class and cache key.
    pub fn icon_blob(&self, size: IconSize, key: &str) -> (r: Result<Option<Vec<u8>>, StoreError>)
        ensures
            match r {
                Ok(v) => match v {
                    Some(b) => self.spec_icon_tree(size).contains_key(encode_utf8(key@))
                        && self.spec_icon_tree(size)[encode_utf8(key@)] == b@,
                    None => !self.spec_icon_tree(size).contains_key(encode_utf8(key@)),
                },
                Err(_) => true,
            },
    {
        match size {
            IconSize::Size48 => tree_get(&self.icons48, key.as_bytes()),
            IconSize::Size64 => tree_get(&self.icons64, key.as_bytes()),
            IconSize::Size128 => tree_get(&self.icons128, key.as_bytes()),
        }
    }
}

} // verus!
