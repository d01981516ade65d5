//! Framing of a DEP11 components stream: the first document of a stream is
//! its header, every later document is a package record.

use vstd::prelude::*;
use crate::yaml::{boundary_at, chomped, has_boundary, stripped, YamlSplitter};

verus! {

/// The header record that opens every DEP11 components stream.
pub struct Dep11Header {
    pub file: String,
    pub version: String,
    pub origin: String,
    pub media_base_url: Option<String>,
}

/// What role the next document plays in the stream.
#[derive(Clone, Copy, PartialEq, Eq, Structural, Debug)]
pub enum DocKind {
    Header,
    Package,
}

/// Splits a DEP11 stream into documents and tags each one as the stream's
/// header or as a package record. The caller decodes a header document and
/// hands the result back through [`Dep11Splitter::set_header`]; until then
/// every document is tagged as the header.
pub struct Dep11Splitter {
    pub header: Option<Dep11Header>,
}

impl Dep11Splitter {
    pub fn new() -> (r: Dep11Splitter)
        ensures
            r.header is None,
    {
        Dep11Splitter { header: None }
    }

    /// Record the decoded header of this stream.
    pub fn set_header(&mut self, header: Dep11Header)
        ensures
            final(self).header == Some(header),
    {
        self.header = Some(header);
    }

    /// Extract the next document, tagged with its role. The buffer semantics
    /// are exactly those of [`YamlSplitter::decode`].
    pub fn decode(&mut self, src: &mut Vec<u8>) -> (r: Option<(DocKind, Vec<u8>)>)
        ensures
            final(self).header == old(self).header,
            ({
                let t = stripped(old(src)@);
                match r {
                    Some((kind, doc)) => (kind == (if old(self).header is None {
                        DocKind::Header
                    } else {
                        DocKind::Package
                    })) && exists|p: int|
                        #[trigger] boundary_at(t, p) && (forall|q: int|
                            0 <= q < p ==> !boundary_at(t, q)) && doc@ == t.take(p) && final(src)@
                            == t.skip(p + 4),
                    None => !has_boundary(t) && final(src)@ == t,
                }
            }),
            has_boundary(stripped(old(src)@)) ==> r is Some,
    {
        let mut splitter = YamlSplitter::new();
        match splitter.decode(src) {
            Some(doc) => {
                let kind = if self.header.is_none() {
                    DocKind::Header
                } else {
                    DocKind::Package
                };
                Some((kind, doc))
            },
            None => None,
        }
    }

    /// End of input: the remaining buffer is the final document, tagged with
    /// its role; the buffer semantics are those of [`YamlSplitter::decode_eof`].
    pub fn decode_eof(&mut self, src: &mut Vec<u8>) -> (r: Option<(DocKind, Vec<u8>)>)
        ensures
            final(self).header == old(self).header,
            final(src)@ == Seq::<u8>::empty(),
            match r {
                Some((kind, doc)) => (kind == (if old(self).header is None {
                    DocKind::Header
                } else {
                    DocKind::Package
                })) && old(src)@.len() > 0 && doc@ == chomped(old(src)@),
                None => old(src)@.len() == 0,
            },
    {
        let mut splitter = YamlSplitter::new();
        match splitter.decode_eof(src) {
            Some(doc) => {
                let kind = if self.header.is_none() {
                    DocKind::Header
                } else {
                    DocKind::Package
                };
                Some((kind, doc))
            },
            None => None,
        }
    }
}

} // verus!
