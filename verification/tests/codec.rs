use appstream_cache::{Dep11Header, Dep11Splitter, DocKind};

#[test]
fn first_document_is_header_then_packages() {
    let mut splitter = Dep11Splitter::new();
    let mut buf = b"---\nFile: DEP-11\nOrigin: o\n---\nType: desktop-application\n---\n".to_vec();

    let (kind, doc) = splitter.decode(&mut buf).expect("header document");
    assert_eq!(kind, DocKind::Header);
    assert_eq!(doc, b"File: DEP-11\nOrigin: o\n".to_vec());
    splitter.set_header(Dep11Header {
        file: "DEP-11".to_string(),
        version: "0.12".to_string(),
        origin: "o".to_string(),
        media_base_url: None,
    });

    let (kind, doc) = splitter.decode(&mut buf).expect("package document");
    assert_eq!(kind, DocKind::Package);
    assert_eq!(doc, b"Type: desktop-application\n".to_vec());

    assert!(splitter.decode(&mut buf).is_none());
    assert_eq!(splitter.header.as_ref().map(|h| h.origin.clone()), Some("o".to_string()));
}

#[test]
fn without_header_every_document_is_header_kind() {
    let mut splitter = Dep11Splitter::new();
    let mut buf = b"---\na: 1\n---\nb: 2\n---\n".to_vec();
    let (kind, _) = splitter.decode(&mut buf).unwrap();
    assert_eq!(kind, DocKind::Header);
    let (kind, _) = splitter.decode(&mut buf).unwrap();
    assert_eq!(kind, DocKind::Header);
}

#[test]
fn eof_document_keeps_stream_role() {
    let mut splitter = Dep11Splitter::new();
    let mut buf = b"---\nFile: f\n---\nType: t".to_vec();
    let (kind, _) = splitter.decode(&mut buf).unwrap();
    assert_eq!(kind, DocKind::Header);
    splitter.set_header(Dep11Header {
        file: "f".to_string(),
        version: String::new(),
        origin: String::new(),
        media_base_url: None,
    });
    assert!(splitter.decode(&mut buf).is_none());
    let (kind, doc) = splitter.decode_eof(&mut buf).expect("final document");
    assert_eq!(kind, DocKind::Package);
    assert_eq!(doc, b"Type: t".to_vec());
}
