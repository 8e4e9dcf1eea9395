//! Path-resolver behaviour: exact encodings, traversal safety, and
//! compatibility with plain percent-encoding.

use wiki_core::encode::{encode_segment, resolve};

fn enc(id: &str) -> Vec<u8> {
    encode_segment(&id.as_bytes().to_vec())
}

fn enc_str(id: &str) -> String {
    String::from_utf8(enc(id)).unwrap()
}

#[test]
fn encode_keeps_safe_bytes() {
    assert_eq!(enc_str("notes"), "notes");
    assert_eq!(enc_str("About-Page_7~x"), "About-Page_7~x");
}

#[test]
fn encode_exact_escapes() {
    assert_eq!(enc_str("notes/todo"), "notes%2Ftodo");
    assert_eq!(enc_str("a b"), "a%20b");
    assert_eq!(enc_str("a\0b"), "a%00b");
    assert_eq!(enc_str("."), "%2E");
    assert_eq!(enc_str(".."), "%2E%2E");
}

#[test]
fn encode_empty_identifier() {
    assert_eq!(enc_str(""), "");
}

#[test]
fn encode_matches_percent_encoding_on_dotless_input() {
    // Same safe set and same uppercase escapes as the usual URL encoding;
    // the one deliberate difference is that `.` is escaped too.
    for id in ["notes/todo", "a b~c", "x\u{e4}y", "../../etc/passwd"] {
        if !id.contains('.') {
            assert_eq!(enc_str(id), urlencoding::encode(id));
        }
    }
    assert_eq!(enc_str("a b~c"), urlencoding::encode("a b~c"));
    assert_eq!(enc_str("x\u{e4}y"), urlencoding::encode("x\u{e4}y"));
}

fn parent_of(path: &[u8]) -> &[u8] {
    let last_slash = path.iter().rposition(|&b| b == b'/').unwrap();
    &path[..last_slash]
}

#[test]
fn resolve_traversal_parent_is_root() {
    let root = b"public".to_vec();
    for id in ["../../etc/passwd", "a/b/../../c", "..", ".", "a\0b", "/etc/passwd", "c:\\tmp"] {
        let path = resolve(&root, &id.as_bytes().to_vec());
        assert_eq!(parent_of(&path), b"public");
        let segment = &path[b"public/".len()..];
        assert!(!segment.contains(&b'/'));
        assert!(!segment.contains(&b'\\'));
        assert!(!segment.contains(&b'.'));
        assert!(!segment.contains(&0u8));
    }
}

#[test]
fn resolve_exact_path() {
    let root = b"public/edit".to_vec();
    let path = resolve(&root, &"notes".as_bytes().to_vec());
    assert_eq!(path, b"public/edit/notes".to_vec());
}

#[test]
fn encode_is_collision_free_on_samples() {
    let ids = ["a", "a/b", "a%2Fb", "a.b", "a b", "", ".", "..", "%", "%25"];
    for (i, x) in ids.iter().enumerate() {
        for (j, y) in ids.iter().enumerate() {
            if i != j {
                assert_ne!(enc(x), enc(y), "{x:?} and {y:?} must encode apart");
            }
        }
    }
}
