//! Content-store semantics: overwrite-on-write, round trips, idempotence,
//! and delete surfacing `NotFound`.

use wiki_core::store::{Directory, IoError};

fn name(id: &str) -> Vec<u8> {
    id.as_bytes().to_vec()
}

#[test]
fn write_then_read_round_trip() {
    let mut d = Directory::new();
    let body = "# Title\n\nsome UTF-8: \u{e9}\u{1f600}";
    d.write(&name("notes"), body.to_string());
    assert_eq!(d.read(&name("notes")).unwrap().as_str(), body);
}

#[test]
fn write_then_read_round_trip_empty_body() {
    let mut d = Directory::new();
    d.write(&name("empty"), String::new());
    assert_eq!(d.read(&name("empty")).unwrap().as_str(), "");
}

#[test]
fn write_is_idempotent() {
    let mut once = Directory::new();
    once.write(&name("n"), "body".to_string());
    let mut twice = Directory::new();
    twice.write(&name("n"), "body".to_string());
    twice.write(&name("n"), "body".to_string());
    assert_eq!(
        once.read(&name("n")).unwrap().as_str(),
        twice.read(&name("n")).unwrap().as_str()
    );
}

#[test]
fn write_replaces_fully() {
    let mut d = Directory::new();
    d.write(&name("n"), "a long first body".to_string());
    d.write(&name("n"), "x".to_string());
    assert_eq!(d.read(&name("n")).unwrap().as_str(), "x");
}

#[test]
fn overwrites_serialize_to_one_body() {
    // Either serialization of two racing full writes leaves exactly one of
    // the two bodies, whole.
    let mut ab = Directory::new();
    ab.write(&name("page"), "A".to_string());
    ab.write(&name("page"), "B".to_string());
    assert_eq!(ab.read(&name("page")).unwrap().as_str(), "B");

    let mut ba = Directory::new();
    ba.write(&name("page"), "B".to_string());
    ba.write(&name("page"), "A".to_string());
    assert_eq!(ba.read(&name("page")).unwrap().as_str(), "A");
}

#[test]
fn empty_name_is_a_name_like_any_other() {
    let mut d = Directory::new();
    d.write(&Vec::new(), "body".to_string());
    assert_eq!(d.read(&Vec::new()).unwrap().as_str(), "body");
    assert_eq!(d.delete(&Vec::new()), Ok(()));
    assert_eq!(d.delete(&Vec::new()), Err(IoError::NotFound));
}

#[test]
fn read_missing_is_none() {
    let d = Directory::new();
    assert!(d.read(&name("missing")).is_none());
}

#[test]
fn delete_then_delete_is_not_found() {
    let mut d = Directory::new();
    d.write(&name("n"), "body".to_string());
    assert_eq!(d.delete(&name("n")), Ok(()));
    assert!(d.read(&name("n")).is_none());
    assert_eq!(d.delete(&name("n")), Err(IoError::NotFound));
}

#[test]
fn delete_of_missing_is_not_found() {
    let mut d = Directory::new();
    assert_eq!(d.delete(&name("never")), Err(IoError::NotFound));
}

#[test]
fn keys_do_not_interact() {
    let mut d = Directory::new();
    d.write(&name("a"), "1".to_string());
    d.write(&name("b"), "2".to_string());
    assert_eq!(d.delete(&name("a")), Ok(()));
    assert_eq!(d.read(&name("b")).unwrap().as_str(), "2");
    assert!(d.read(&name("a")).is_none());
    assert!(d.contains(&name("b")));
    assert!(!d.contains(&name("a")));
}
