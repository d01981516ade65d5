//! Incremental splitting of a growable byte buffer into YAML documents.
//!
//! A document boundary is a line that consists exactly of `---`: the marker
//! bytes `---\n` standing immediately after a newline. A marker at the very
//! start of the buffer is stripped before scanning. Each call either extracts
//! one complete document (consuming it and its trailing marker) or consumes
//! nothing beyond a stripped leading marker.

use vstd::prelude::*;
use crate::strutil::find_byte;

verus! {

/// The boundary marker: the bytes of `---` followed by a newline.
pub open spec fn marker() -> Seq<u8> {
    seq![45u8, 45u8, 45u8, 10u8]
}

/// The four marker bytes stand at position `i` of `s`.
pub open spec fn marker_at(s: Seq<u8>, i: int) -> bool {
    0 <= i && i + 4 <= s.len() && s.subrange(i, i + 4) == marker()
}

/// A document boundary: the marker stands at `p`, immediately after a newline.
pub open spec fn boundary_at(s: Seq<u8>, p: int) -> bool {
    1 <= p && s[p - 1] == 10u8 && marker_at(s, p)
}

/// Some document boundary exists in `s`.
pub open spec fn has_boundary(s: Seq<u8>) -> bool {
    exists|p: int| boundary_at(s, p)
}

/// `s` with a leading marker stripped, if one is present.
pub open spec fn stripped(s: Seq<u8>) -> Seq<u8> {
    if marker_at(s, 0) {
        s.skip(4)
    } else {
        s
    }
}

/// A buffer's tail after dropping one trailing newline, if present.
pub open spec fn chomped(s: Seq<u8>) -> Seq<u8> {
    if s.len() > 0 && s.last() == 10u8 {
        s.drop_last()
    } else {
        s
    }
}

/// Copy of `v[n..]`.
fn vec_skip(v: &Vec<u8>, n: usize) -> (r: Vec<u8>)
    requires
        n <= v@.len(),
    ensures
        r@ == v@.skip(n as int),
{
    let mut r: Vec<u8> = Vec::new();
    let mut i: usize = n;
    while i < v.len()
        invariant
            n <= i <= v@.len(),
            r@ == v@.subrange(n as int, i as int),
        decreases v@.len() - i,
    {
        r.push(v[i]);
        proof {
            assert(r@ =~= v@.subrange(n as int, i + 1));
        }
        i = i + 1;
    }
    proof {
        assert(r@ =~= v@.skip(n as int));
    }
    r
}

/// Copy of `v[..n]`.
fn vec_take(v: &Vec<u8>, n: usize) -> (r: Vec<u8>)
    requires
        n <= v@.len(),
    ensures
        r@ == v@.take(n as int),
{
    let mut r: Vec<u8> = Vec::new();
    let mut i: usize = 0;
    while i < n
        invariant
            i <= n <= v@.len(),
            r@ == v@.subrange(0, i as int),
        decreases n - i,
    {
        r.push(v[i]);
        proof {
            assert(r@ =~= v@.subrange(0, i + 1));
        }
        i = i + 1;
    }
    proof {
        assert(r@ =~= v@.take(n as int));
    }
    r
}

/// The four marker bytes stand at position `i` of `v`.
fn marker_at_exec(v: &Vec<u8>, i: usize) -> (r: bool)
    ensures
        r == marker_at(v@, i as int),
{
    if i > v.len() || v.len() - i < 4 {
        return false;
    }
    let r = v[i] == 45u8 && v[i + 1] == 45u8 && v[i + 2] == 45u8 && v[i + 3] == 10u8;
    proof {
        if r {
            assert(v@.subrange(i as int, i + 4) =~= marker());
        } else {
            assert(v@.subrange(i as int, i + 4) != marker()) by {
                if v@.subrange(i as int, i + 4) == marker() {
                    assert(v@[i as int] == marker()[0]);
                    assert(v@[i + 1] == marker()[1]);
                    assert(v@[i + 2] == marker()[2]);
                    assert(v@[i + 3] == marker()[3]);
                }
            }
        }
    }
    r
}

/// Joining two documents as marker + d1 + marker + d2 and splitting again
/// yields exactly d1 (at the first boundary) and leaves d2, which carries no
/// further boundary and is delivered whole by the end-of-input path. The
/// requirements say what it means for d1 and d2 to be single documents: d1
/// ends in a newline, neither starts with a marker line of its own, and
/// neither contains an interior boundary.
pub proof fn lemma_two_documents(d1: Seq<u8>, d2: Seq<u8>)
    requires
        d1.len() > 0,
        d1.last() == 10u8,
        forall|q: int| !boundary_at(d1, q),
        !marker_at(d1, 0),
        !marker_at(d2, 0),
        forall|q: int| !boundary_at(d2, q),
    ensures
        ({
            let t = stripped(marker() + d1 + marker() + d2);
            &&& t == d1 + marker() + d2
            &&& boundary_at(t, d1.len() as int)
            &&& forall|q: int| 0 <= q < d1.len() ==> !boundary_at(t, q)
            &&& t.take(d1.len() as int) == d1
            &&& t.skip(d1.len() as int + 4) == d2
            &&& stripped(d2) == d2
            &&& !has_boundary(d2)
        }),
{
    let s = marker() + d1 + marker() + d2;
    assert(s.subrange(0, 4) =~= marker());
    assert(marker_at(s, 0));
    let t = stripped(s);
    assert(t =~= d1 + marker() + d2);
    let n = d1.len() as int;
    assert(t[n - 1] == d1.last());
    assert(t.subrange(n, n + 4) =~= marker());
    assert(boundary_at(t, n));
    assert forall|q: int| 0 <= q < n implies !boundary_at(t, q) by {
        if boundary_at(t, q) {
            if q + 4 <= n {
                assert(t.subrange(q, q + 4) =~= d1.subrange(q, q + 4));
                assert(d1.subrange(q, q + 4) == marker());
                assert(d1[q - 1] == t[q - 1]);
                assert(boundary_at(d1, q));
                assert(false);
            } else {
                assert(q > n - 4);
                assert(q <= n - 1 < q + 4);
                assert(t.subrange(q, q + 4)[n - 1 - q] == t[n - 1]);
                assert(marker()[n - 1 - q] == 10u8);
                assert(0 <= n - 1 - q < 3);
                assert(false);
            }
        }
    }
    assert(t.take(n) =~= d1);
    assert(t.skip(n + 4) =~= d2);
    assert(stripped(d2) == d2);
}

/// Chunk-size independence of the splitter's buffer protocol: when a call
/// found no boundary (so it retained the stripped buffer), appending the next
/// chunk leaves exactly the buffer that feeding both chunks at once would
/// have produced, so every later document boundary is identical. The second
/// requirement excludes a stream carrying an empty document, two markers in
/// a row, on which the two feedings genuinely differ.
pub proof fn lemma_chunked_feed(b: Seq<u8>, c: Seq<u8>)
    requires
        !has_boundary(stripped(b)),
        !(marker_at(b, 0) && marker_at(stripped(b) + c, 0)),
    ensures
        stripped(stripped(b) + c) == stripped(b + c),
{
    if marker_at(b, 0) {
        assert((b + c).subrange(0, 4) =~= b.subrange(0, 4));
        assert(marker_at(b + c, 0));
        assert((b + c).skip(4) =~= b.skip(4) + c);
        assert(!marker_at(stripped(b) + c, 0));
        assert(stripped(stripped(b) + c) == b.skip(4) + c);
    } else {
        assert(stripped(b) + c =~= b + c);
    }
}

/// Splits a stream of YAML documents out of an append-only byte buffer.
pub struct YamlSplitter;

impl YamlSplitter {
    pub fn new() -> (r: YamlSplitter) {
        YamlSplitter
    }

    /// Extract the next complete document from `src`, or report that none is
    /// complete yet. A leading marker is stripped (and consumed) first; the
    /// returned document runs up to, and excludes, the first marker standing
    /// at a line start, which is consumed with it.
    pub fn decode(&mut self, src: &mut Vec<u8>) -> (r: Option<Vec<u8>>)
        ensures
            ({
                let t = stripped(old(src)@);
                match r {
                    Some(doc) => exists|p: int|
                        #[trigger] boundary_at(t, p) && (forall|q: int|
                            0 <= q < p ==> !boundary_at(t, q)) && doc@ == t.take(p) && final(src)@
                            == t.skip(p + 4),
                    None => !has_boundary(t) && final(src)@ == t,
                }
            }),
            has_boundary(stripped(old(src)@)) ==> r is Some,
    {
        if marker_at_exec(src, 0) {
            let rest = vec_skip(src, 4);
            *src = rest;
        }
        let ghost t = src@;
        proof {
            assert(t == stripped(old(src)@));
        }
        let mut p: usize = 0;
        loop
            invariant
                t == stripped(old(src)@),
                p <= src@.len(),
                src@ == t,
                forall|q: int| 0 <= q <= p ==> !boundary_at(t, q),
            decreases src@.len() - p,
        {
            let sub = vstd::slice::slice_subrange(src.as_slice(), p, src.len());
            proof {
                assert(sub@ == t.subrange(p as int, t.len() as int));
            }
            match find_byte(sub, 10u8) {
                None => {
                    proof {
                        assert forall|q: int| !boundary_at(t, q) by {
                            if boundary_at(t, q) {
                                if q > p {
                                    assert(t[q - 1] == 10u8);
                                    assert(sub@[q - 1 - p] == t[q - 1]);
                                    assert(false);
                                } else {
                                    assert(0 <= q <= p);
                                    assert(!boundary_at(t, q));
                                }
                            }
                        }
                    }
                    return None;
                },
                Some(pos) => {
                    let a = p + pos;
                    proof {
                        assert(sub@[pos as int] == t[a as int]);
                        assert(t[a as int] == 10u8);
                    }
                    let p2 = a + 1;
                    proof {
                        assert forall|q: int| p < q < p2 implies !boundary_at(t, q) by {
                            if boundary_at(t, q) {
                                assert(t[q - 1] == 10u8);
                                assert(sub@[q - 1 - p] == 10u8);
                            }
                        }
                    }
                    if marker_at_exec(src, p2) {
                        proof {
                            assert(boundary_at(t, p2 as int));
                        }
                        let doc = vec_take(src, p2);
                        let rest = vec_skip(src, p2 + 4);
                        *src = rest;
                        return Some(doc);
                    }
                    proof {
                        assert(!boundary_at(t, p2 as int));
                    }
                    p = p2;
                },
            }
        }
    }

    /// End of input: the whole remaining buffer is the final document, with
    /// one trailing newline dropped; an empty remainder yields no document.
    pub fn decode_eof(&mut self, src: &mut Vec<u8>) -> (r: Option<Vec<u8>>)
        ensures
            final(src)@ == Seq::<u8>::empty(),
            match r {
                Some(doc) => old(src)@.len() > 0 && doc@ == chomped(old(src)@),
                None => old(src)@.len() == 0,
            },
    {
        if src.len() == 0 {
            proof {
                assert(src@ =~= Seq::<u8>::empty());
            }
            return None;
        }
        let n = if src[src.len() - 1] == 10u8 {
            src.len() - 1
        } else {
            src.len()
        };
        let doc = vec_take(src, n);
        src.clear();
        proof {
            assert(doc@ =~= chomped(old(src)@));
        }
        Some(doc)
    }
}

} // verus!
