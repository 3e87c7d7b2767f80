use fuzzle::cache::{decode_index, encode_index};
use fuzzle::delegate::Delegate;
use fuzzle::state::{SearchResult, SourceKind};

fn entry(
    name: &str,
    description: &str,
    command: &str,
    path: &str,
    icon: Option<&str>,
    source: SourceKind,
) -> SearchResult {
    SearchResult {
        icon_path: icon.map(|s| s.to_string()),
        path: path.to_string(),
        name: name.to_string(),
        description: description.to_string(),
        command: command.to_string(),
        source,
        // Ephemeral fields deliberately non-default: the cache must not carry them.
        selected: true,
        score: 42,
        indices: vec![1, 2, 3],
    }
}

fn assert_persistent_eq(a: &SearchResult, b: &SearchResult) {
    assert_eq!(a.icon_path, b.icon_path);
    assert_eq!(a.path, b.path);
    assert_eq!(a.name, b.name);
    assert_eq!(a.description, b.description);
    assert_eq!(a.command, b.command);
    assert_eq!(a.source, b.source);
}

#[test]
fn cache_round_trip_preserves_persistent_fields() {
    let index = vec![
        entry(
            "Firefox",
            "Browse the web",
            "/usr/bin/firefox %u",
            "/usr/share/applications/firefox.desktop",
            Some("/icons/hicolor/48x48/firefox.png"),
            SourceKind::DesktopDescriptor,
        ),
        entry(
            "firewall-cmd",
            "/usr/bin/firewall-cmd",
            "/usr/bin/firewall-cmd",
            "/usr/bin/firewall-cmd",
            None,
            SourceKind::RawExecutable,
        ),
        entry("", "", "", "", Some(""), SourceKind::DesktopDescriptor),
    ];
    let bytes = encode_index(&index);
    let decoded = decode_index(&bytes).expect("a fresh encoding must decode");
    assert_eq!(decoded.len(), index.len());
    for (d, e) in decoded.iter().zip(index.iter()) {
        assert_persistent_eq(d, e);
        assert!(!d.selected);
        assert_eq!(d.score, 0);
        assert!(d.indices.is_empty());
    }
}

#[test]
fn cache_round_trip_empty_index() {
    let index: Vec<SearchResult> = vec![];
    let bytes = encode_index(&index);
    let decoded = decode_index(&bytes).expect("the empty index must decode");
    assert!(decoded.is_empty());
}

#[test]
fn cache_round_trip_non_ascii() {
    let index = vec![entry(
        "Längsöl 日本語 🚀",
        "déscription",
        "/usr/bin/längsöl",
        "/usr/share/applications/längsöl.desktop",
        Some("/icons/日本語.png"),
        SourceKind::DesktopDescriptor,
    )];
    let bytes = encode_index(&index);
    let decoded = decode_index(&bytes).expect("non-ASCII strings must round-trip");
    assert_persistent_eq(&decoded[0], &index[0]);
}

#[test]
fn decode_rejects_truncated_image() {
    let index = vec![entry(
        "App",
        "d",
        "/bin/app",
        "/p/app.desktop",
        None,
        SourceKind::DesktopDescriptor,
    )];
    let mut bytes = encode_index(&index);
    bytes.pop();
    assert!(decode_index(&bytes).is_none());
    assert!(decode_index(&vec![1, 2, 3]).is_none());
    assert!(decode_index(&Vec::new()).is_none());
}

#[test]
fn decode_rejects_trailing_bytes() {
    let index: Vec<SearchResult> = vec![];
    let mut bytes = encode_index(&index);
    bytes.push(0);
    assert!(decode_index(&bytes).is_none());
}

#[test]
fn decode_rejects_unknown_source_tag() {
    let index = vec![entry(
        "App",
        "d",
        "/bin/app",
        "/p/app.desktop",
        None,
        SourceKind::RawExecutable,
    )];
    let mut bytes = encode_index(&index);
    // The provenance byte is the last byte of a one-entry image.
    let last = bytes.len() - 1;
    assert_eq!(bytes[last], 1);
    bytes[last] = 7;
    assert!(decode_index(&bytes).is_none());
}

#[test]
fn decode_rejects_invalid_utf8() {
    let index = vec![entry(
        "AAAA",
        "d",
        "/bin/app",
        "/p/app.desktop",
        None,
        SourceKind::DesktopDescriptor,
    )];
    let mut bytes = encode_index(&index);
    // Offset 16 is the first byte of the name's UTF-8 bytes (after the entry
    // count and the name's length field); 0xFF is never valid UTF-8.
    assert_eq!(bytes[16], b'A');
    bytes[16] = 0xFF;
    assert!(decode_index(&bytes).is_none());
}

#[test]
fn delegate_new_treats_bad_cache_as_miss() {
    let d = Delegate::new(None);
    assert!(d.cache.is_empty());
    let d = Delegate::new(Some(&vec![0xDE, 0xAD]));
    assert!(d.cache.is_empty());
    let index = vec![entry(
        "App",
        "d",
        "/bin/app",
        "/p/app.desktop",
        None,
        SourceKind::DesktopDescriptor,
    )];
    let bytes = encode_index(&index);
    let d = Delegate::new(Some(&bytes));
    assert_eq!(d.cache.len(), 1);
    assert_persistent_eq(&d.cache[0], &index[0]);
}
