//! DEP11 package records and the localized-string maps they carry.

use vstd::prelude::*;
use vstd::bytes::{spec_u16_to_le_bytes, spec_u64_to_le_bytes, u16_to_le_bytes, u64_to_le_bytes};
use vstd::string::StringSliceAdditionalSpecFns;
use vstd::string::StrSliceExecFns;
use vstd::utf8::encode_utf8;
use crate::strutil::str_eq;

verus! {

/// A mapping from language tag to localized text, looked up by first match.
pub struct LangMap {
    entries: Vec<(String, String)>,
}

/// First-match lookup in a sequence of (tag, text) pairs.
pub open spec fn lookup(s: Seq<(Seq<char>, Seq<char>)>, key: Seq<char>) -> Option<Seq<char>>
    decreases s.len(),
{
    if s.len() == 0 {
        None
    } else if s[0].0 == key {
        Some(s[0].1)
    } else {
        lookup(s.drop_first(), key)
    }
}

/// The display-language resolution rule: the configured tag, else the
/// untranslated tag `C`, else nothing.
pub open spec fn localized(s: Seq<(Seq<char>, Seq<char>)>, lang: Seq<char>) -> Option<Seq<char>> {
    match lookup(s, lang) {
        Some(v) => Some(v),
        None => lookup(s, seq!['C']),
    }
}

impl View for LangMap {
    type V = Seq<(Seq<char>, Seq<char>)>;

    closed spec fn view(&self) -> Seq<(Seq<char>, Seq<char>)> {
        Seq::new(self.entries@.len(), |i: int| (self.entries@[i].0@, self.entries@[i].1@))
    }
}

impl LangMap {
    pub fn new() -> (r: LangMap)
        ensures
            r@ == Seq::<(Seq<char>, Seq<char>)>::empty(),
    {
        let r = LangMap { entries: Vec::new() };
        proof {
            assert(r@ =~= Seq::<(Seq<char>, Seq<char>)>::empty());
        }
        r
    }

    /// Append one (tag, text) entry.
    pub fn set(&mut self, key: String, value: String)
        ensures
            final(self)@ == old(self)@.push((key@, value@)),
    {
        let ghost k = key@;
        let ghost v = value@;
        self.entries.push((key, value));
        proof {
            assert(self@ =~= old(self)@.push((k, v)));
        }
    }

    /// The text for `tag`, if any.
    pub fn get(&self, tag: &str) -> (r: Option<String>)
        ensures
            match r {
                Some(v) => lookup(self@, tag@) == Some(v@),
                None => lookup(self@, tag@) is None,
            },
    {
        proof {
            assert(self@.skip(0) =~= self@);
        }
        let mut i: usize = 0;
        while i < self.entries.len()
            invariant
                i <= self.entries@.len(),
                self@.len() == self.entries@.len(),
                forall|j: int|
                    0 <= j < self@.len() ==> self@[j] == (self.entries@[j].0@, self.entries@[j].1@),
                lookup(self@, tag@) == lookup(self@.skip(i as int), tag@),
            decreases self.entries@.len() - i,
        {
            if str_eq(self.entries[i].0.as_str(), tag) {
                proof {
                    assert(self@.skip(i as int)[0] == self@[i as int]);
                }
                return Some(self.entries[i].1.clone());
            }
            proof {
                assert(self@.skip(i as int)[0] == self@[i as int]);
                assert(self@.skip(i as int).drop_first() =~= self@.skip(i + 1));
            }
            i = i + 1;
        }
        proof {
            assert(self@.skip(i as int) =~= Seq::<(Seq<char>, Seq<char>)>::empty());
        }
        None
    }

    /// The text under the display-language rule: `lang`, else `C`, else none.
    pub fn localized(&self, lang: &str) -> (r: Option<String>)
        ensures
            match r {
                Some(v) => localized(self@, lang@) == Some(v@),
                None => localized(self@, lang@) is None,
            },
    {
        proof {
            reveal_strlit("C");
            assert("C"@ =~= seq!['C']);
        }
        match self.get(lang) {
            Some(v) => Some(v),
            None => self.get("C"),
        }
    }

    /// Number of entries.
    pub fn len(&self) -> (r: usize)
        ensures
            r == self@.len(),
    {
        self.entries.len()
    }
}

/// One cached (on-disk) icon variant of a package.
pub struct CachedIcon {
    pub name: String,
    pub width: u16,
    pub height: u16,
}

/// One remote icon variant of a package.
pub struct RemoteIcon {
    pub url: String,
    pub width: u16,
    pub height: u16,
}

/// A package's icon descriptor.
pub struct Icon {
    pub cached: Option<Vec<CachedIcon>>,
    pub stock: Option<String>,
    pub remote: Option<Vec<RemoteIcon>>,
}

/// The filename of the first cached variant, which keys the icon-blob store.
pub open spec fn icon_cache_key(icon: Icon) -> Option<Seq<char>> {
    match icon.cached {
        Some(list) => if list@.len() > 0 {
            Some(list@[0].name@)
        } else {
            None
        },
        None => None,
    }
}

/// Length-prefixed encoding of a string: its UTF-8 byte length as eight
/// little-endian bytes, then its UTF-8 bytes.
pub open spec fn spec_enc_str(s: Seq<char>) -> Seq<u8> {
    spec_u64_to_le_bytes(encode_utf8(s).len() as u64) + encode_utf8(s)
}

/// Encoding of an optional string: a presence byte, then the string.
pub open spec fn spec_enc_opt_str(s: Option<Seq<char>>) -> Seq<u8> {
    match s {
        None => seq![0u8],
        Some(v) => seq![1u8] + spec_enc_str(v),
    }
}

/// Encoding of one cached variant: name, then width and height.
pub open spec fn spec_enc_cached(c: CachedIcon) -> Seq<u8> {
    spec_enc_str(c.name@) + spec_u16_to_le_bytes(c.width) + spec_u16_to_le_bytes(c.height)
}

/// Encoding of a list of cached variants, in order.
pub open spec fn spec_enc_cached_seq(s: Seq<CachedIcon>) -> Seq<u8>
    decreases s.len(),
{
    if s.len() == 0 {
        Seq::empty()
    } else {
        spec_enc_cached_seq(s.drop_last()) + spec_enc_cached(s.last())
    }
}

/// Encoding of one remote variant: url, then width and height.
pub open spec fn spec_enc_remote(c: RemoteIcon) -> Seq<u8> {
    spec_enc_str(c.url@) + spec_u16_to_le_bytes(c.width) + spec_u16_to_le_bytes(c.height)
}

/// Encoding of a list of remote variants, in order.
pub open spec fn spec_enc_remote_seq(s: Seq<RemoteIcon>) -> Seq<u8>
    decreases s.len(),
{
    if s.len() == 0 {
        Seq::empty()
    } else {
        spec_enc_remote_seq(s.drop_last()) + spec_enc_remote(s.last())
    }
}

/// The binary encoding an icon descriptor is persisted under: each optional
/// field behind a presence byte, each list behind an eight-byte count.
pub open spec fn spec_enc_icon(icon: Icon) -> Seq<u8> {
    (match icon.cached {
        None => seq![0u8],
        Some(v) => seq![1u8] + spec_u64_to_le_bytes(v@.len() as u64) + spec_enc_cached_seq(v@),
    }) + spec_enc_opt_str(
        match icon.stock {
            None => None,
            Some(s) => Some(s@),
        },
    ) + (match icon.remote {
        None => seq![0u8],
        Some(v) => seq![1u8] + spec_u64_to_le_bytes(v@.len() as u64) + spec_enc_remote_seq(v@),
    })
}

/// Append the encoding of a string to `out`.
fn push_enc_str(out: &mut Vec<u8>, s: &str)
    ensures
        final(out)@ == old(out)@ + spec_enc_str(s@),
{
    let ghost pre = out@;
    let mut sb = s.as_bytes_vec();
    let len = sb.len() as u64;
    let mut lb = u64_to_le_bytes(len);
    out.append(&mut lb);
    out.append(&mut sb);
    proof {
        assert(out@ =~= pre + spec_enc_str(s@));
    }
}

/// Append the encoding of a `u16` to `out`.
fn push_enc_u16(out: &mut Vec<u8>, x: u16)
    ensures
        final(out)@ == old(out)@ + spec_u16_to_le_bytes(x),
{
    let mut b = u16_to_le_bytes(x);
    out.append(&mut b);
}

impl Icon {
    /// Produce the binary encoding this descriptor is persisted under.
    pub fn encode(&self) -> (r: Vec<u8>)
        ensures
            r@ == spec_enc_icon(*self),
    {
        let mut out: Vec<u8> = Vec::new();
        proof {
            assert(out@ =~= Seq::<u8>::empty());
        }
        match &self.cached {
            None => {
                out.push(0u8);
                proof {
                    assert(out@ =~= seq![0u8]);
                }
            },
            Some(list) => {
                out.push(1u8);
                let mut cb = u64_to_le_bytes(list.len() as u64);
                out.append(&mut cb);
                let ghost pre = out@;
                proof {
                    assert(pre =~= seq![1u8] + spec_u64_to_le_bytes(list@.len() as u64));
                    assert(list@.take(0) =~= Seq::<CachedIcon>::empty());
                }
                let mut i: usize = 0;
                while i < list.len()
                    invariant
                        i <= list@.len(),
                        out@ == pre + spec_enc_cached_seq(list@.take(i as int)),
                    decreases list@.len() - i,
                {
                    push_enc_str(&mut out, list[i].name.as_str());
                    push_enc_u16(&mut out, list[i].width);
                    push_enc_u16(&mut out, list[i].height);
                    proof {
                        assert(list@.take(i + 1).drop_last() =~= list@.take(i as int));
                        assert(list@.take(i + 1).last() == list@[i as int]);
                        assert(out@ =~= pre + spec_enc_cached_seq(list@.take(i + 1)));
                    }
                    i = i + 1;
                }
                proof {
                    assert(list@.take(list@.len() as int) =~= list@);
                }
            },
        }
        let ghost mid1 = out@;
        match &self.stock {
            None => {
                out.push(0u8);
                proof {
                    assert(out@ =~= mid1 + seq![0u8]);
                }
            },
            Some(s) => {
                out.push(1u8);
                push_enc_str(&mut out, s.as_str());
                proof {
                    assert(out@ =~= mid1 + (seq![1u8] + spec_enc_str(s@)));
                }
            },
        }
        let ghost mid2 = out@;
        match &self.remote {
            None => {
                out.push(0u8);
                proof {
                    assert(out@ =~= mid2 + seq![0u8]);
                }
            },
            Some(list) => {
                out.push(1u8);
                let mut cb = u64_to_le_bytes(list.len() as u64);
                out.append(&mut cb);
                let ghost pre = out@;
                proof {
                    assert(pre =~= mid2 + (seq![1u8] + spec_u64_to_le_bytes(list@.len() as u64)));
                    assert(list@.take(0) =~= Seq::<RemoteIcon>::empty());
                }
                let mut i: usize = 0;
                while i < list.len()
                    invariant
                        i <= list@.len(),
                        out@ == pre + spec_enc_remote_seq(list@.take(i as int)),
                    decreases list@.len() - i,
                {
                    push_enc_str(&mut out, list[i].url.as_str());
                    push_enc_u16(&mut out, list[i].width);
                    push_enc_u16(&mut out, list[i].height);
                    proof {
                        assert(list@.take(i + 1).drop_last() =~= list@.take(i as int));
                        assert(list@.take(i + 1).last() == list@[i as int]);
                        assert(out@ =~= pre + spec_enc_remote_seq(list@.take(i + 1)));
                    }
                    i = i + 1;
                }
                proof {
                    assert(list@.take(list@.len() as int) =~= list@);
                }
            },
        }
        proof {
            assert(out@ =~= spec_enc_icon(*self));
        }
        out
    }
}

/// The desktop files a package can be launched through.
pub struct Launchable {
    pub desktop_id: Vec<String>,
}

/// One decoded DEP11 package record.
pub struct Dep11Package {
    pub type_: String,
    pub id: String,
    pub name: LangMap,
    pub icon: Option<Icon>,
    pub package: String,
    pub summary: LangMap,
    pub description: Option<LangMap>,
    pub categories: Option<Vec<String>>,
    pub license: Option<String>,
    pub urls: Option<LangMap>,
    pub launchable: Option<Launchable>,
}

} // verus!
