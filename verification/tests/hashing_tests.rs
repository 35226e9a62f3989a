use sortify::hashing::{to_hex16, ContentHasher, DigestStream};

#[test]
fn digest_stable_across_repeated_runs() {
    let data = b"the same bytes every time".to_vec();
    let mut a = DigestStream::new();
    a.update(&data);
    let mut b = DigestStream::new();
    b.update(&data);
    assert_eq!(a.digest_hex(), b.digest_hex());
    // querying twice does not disturb the stream
    assert_eq!(a.digest_hex(), a.digest_hex());
}

#[test]
fn digest_ignores_chunking() {
    // byte-identical content fed in different chunk sizes, as two
    // files of the same bytes would be from different read loops
    let data: Vec<u8> = (0u16..4096).map(|i| (i % 251) as u8).collect();
    let mut whole = DigestStream::new();
    whole.update(&data);
    let mut pieces = DigestStream::new();
    for chunk in data.chunks(7) {
        pieces.update(chunk);
    }
    assert_eq!(whole.digest_hex(), pieces.digest_hex());
}

#[test]
fn digest_depends_on_content() {
    let mut a = DigestStream::new();
    a.update(b"abc");
    let mut b = DigestStream::new();
    b.update(b"abd");
    assert_ne!(a.digest_hex(), b.digest_hex());
}

#[test]
fn empty_stream_digest_matches_known_vector() {
    // xxh3 with the default seed over no bytes
    let s = DigestStream::new();
    assert_eq!(s.digest_hex(), "2d06800538d394c2");
}

#[test]
fn hex_rendering_is_fixed_width_lowercase() {
    assert_eq!(to_hex16(0), "0000000000000000");
    assert_eq!(to_hex16(0x0123456789abcdef), "0123456789abcdef");
    assert_eq!(to_hex16(u64::MAX), "ffffffffffffffff");
    assert_eq!(to_hex16(255), "00000000000000ff");
}

#[test]
fn index_keeps_last_hash_per_path() {
    let hasher = ContentHasher::new();
    let entries = vec![
        (String::from("/a"), String::from("h1")),
        (String::from("/b"), String::from("h2")),
        (String::from("/a"), String::from("h3")),
    ];
    let index = hasher.build_content_hash_index(&entries);
    assert_eq!(index.get("/a"), Some(String::from("h3")));
    assert_eq!(index.get("/b"), Some(String::from("h2")));
    assert_eq!(index.get("/c"), None);
}

#[test]
fn duplicate_lookup_skips_the_file_itself() {
    let hasher = ContentHasher::new();
    let entries = vec![
        (String::from("/out/x.jpg"), String::from("aaaa")),
        (String::from("/out/y.jpg"), String::from("bbbb")),
    ];
    let index = hasher.build_content_hash_index(&entries);
    // same hash at another path: a true content duplicate
    let hit = hasher.is_content_duplicate(
        &String::from("bbbb"),
        &index,
        &String::from("/in/new.jpg"),
    );
    assert_eq!(hit, Some(String::from("/out/y.jpg")));
    // the only match is the file itself: not a duplicate
    let own = hasher.is_content_duplicate(
        &String::from("aaaa"),
        &index,
        &String::from("/out/x.jpg"),
    );
    assert_eq!(own, None);
    // unknown content
    let none = hasher.is_content_duplicate(
        &String::from("cccc"),
        &index,
        &String::from("/in/new.jpg"),
    );
    assert_eq!(none, None);
}

#[test]
fn default_chunk_size_is_64_kib() {
    let hasher = ContentHasher::new();
    assert_eq!(hasher.chunk_size(), 65536);
}
