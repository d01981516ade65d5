use appstream_cache::YamlSplitter;

fn feed_all(data: &[u8]) -> (Vec<Vec<u8>>, Vec<u8>) {
    let mut splitter = YamlSplitter::new();
    let mut buf: Vec<u8> = data.to_vec();
    let mut docs = Vec::new();
    while let Some(doc) = splitter.decode(&mut buf) {
        docs.push(doc);
    }
    (docs, buf)
}

fn feed_bytewise(data: &[u8]) -> (Vec<Vec<u8>>, Vec<u8>) {
    let mut splitter = YamlSplitter::new();
    let mut buf: Vec<u8> = Vec::new();
    let mut docs = Vec::new();
    for b in data {
        buf.push(*b);
        while let Some(doc) = splitter.decode(&mut buf) {
            docs.push(doc);
        }
    }
    (docs, buf)
}

#[test]
fn two_documents_incremental() {
    let d1 = b"alpha: 1\n".to_vec();
    let d2 = b"beta: 2".to_vec();
    let mut stream = b"---\n".to_vec();
    stream.extend_from_slice(&d1);
    stream.extend_from_slice(b"---\n");
    stream.extend_from_slice(&d2);

    let (docs, mut rest) = feed_all(&stream);
    assert_eq!(docs, vec![d1]);
    assert_eq!(rest, d2);

    let mut splitter = YamlSplitter::new();
    let fin = splitter.decode_eof(&mut rest);
    assert_eq!(fin, Some(d2));
    assert!(rest.is_empty());
}

#[test]
fn two_documents_trailing_newline_chomped() {
    let stream = b"---\na: 1\n---\nb: 2\n".to_vec();
    let (docs, mut rest) = feed_all(&stream);
    assert_eq!(docs, vec![b"a: 1\n".to_vec()]);
    let mut splitter = YamlSplitter::new();
    let fin = splitter.decode_eof(&mut rest);
    assert_eq!(fin, Some(b"b: 2".to_vec()));
}

#[test]
fn chunk_size_independence() {
    let stream = b"---\nname: one\nid: x\n---\nname: two\n---\nname: three\n".to_vec();
    let (whole_docs, whole_rest) = feed_all(&stream);
    let (byte_docs, byte_rest) = feed_bytewise(&stream);
    assert_eq!(whole_docs, byte_docs);
    assert_eq!(whole_rest, byte_rest);
    assert_eq!(
        whole_docs,
        vec![b"name: one\nid: x\n".to_vec(), b"name: two\n".to_vec()]
    );
}

#[test]
fn marker_mid_line_is_content() {
    let stream = b"a---\nb\n---\n".to_vec();
    let (docs, rest) = feed_all(&stream);
    assert_eq!(docs, vec![b"a---\nb\n".to_vec()]);
    assert!(rest.is_empty());
}

#[test]
fn no_boundary_consumes_nothing_but_leading_marker() {
    let mut splitter = YamlSplitter::new();
    let mut buf = b"---\npartial: doc".to_vec();
    assert_eq!(splitter.decode(&mut buf), None);
    assert_eq!(buf, b"partial: doc".to_vec());
    assert_eq!(splitter.decode(&mut buf), None);
    assert_eq!(buf, b"partial: doc".to_vec());
}

#[test]
fn eof_on_empty_buffer_yields_nothing() {
    let mut splitter = YamlSplitter::new();
    let mut buf: Vec<u8> = Vec::new();
    assert_eq!(splitter.decode_eof(&mut buf), None);
}
