use std::collections::hash_map::DefaultHasher;
use std::hash::{Hash, Hasher};

use conduit::fingerprint::{Fingerprint, UpstreamFingerprints};

#[test]
fn same_inputs_produce_same_fingerprint() {
    let upstream = UpstreamFingerprints::new();
    let fp1 = Fingerprint::compute("SELECT * FROM orders", "{}", &upstream);
    let fp2 = Fingerprint::compute("SELECT * FROM orders", "{}", &upstream);
    assert_eq!(fp1, fp2);
}

#[test]
fn different_content_produces_different_fingerprint() {
    let upstream = UpstreamFingerprints::new();
    let fp1 = Fingerprint::compute("SELECT * FROM orders", "{}", &upstream);
    let fp2 = Fingerprint::compute("SELECT * FROM customers", "{}", &upstream);
    assert_ne!(fp1, fp2);
}

#[test]
fn upstream_changes_propagate() {
    let mut upstream1 = UpstreamFingerprints::new();
    upstream1.insert("extract".to_string(), Fingerprint::from_hex("aaa"));

    let mut upstream2 = UpstreamFingerprints::new();
    upstream2.insert("extract".to_string(), Fingerprint::from_hex("bbb"));

    let fp1 = Fingerprint::compute("transform", "{}", &upstream1);
    let fp2 = Fingerprint::compute("transform", "{}", &upstream2);
    assert_ne!(fp1, fp2);
}

#[test]
fn fingerprint_is_sixteen_lowercase_hex_digits() {
    let fp = Fingerprint::compute("SELECT 1", "{\"retries\": 3}", &UpstreamFingerprints::new());
    assert_eq!(fp.0.len(), 16);
    assert!(fp.0.chars().all(|c| c.is_ascii_digit() || ('a'..='f').contains(&c)));
}

#[test]
fn fingerprint_matches_std_hashing_of_the_same_inputs() {
    let mut upstream = UpstreamFingerprints::new();
    upstream.insert("b_task".to_string(), Fingerprint::from_hex("0123"));
    upstream.insert("a_task".to_string(), Fingerprint::from_hex("4567"));
    let fp = Fingerprint::compute("content", "config", &upstream);

    let mut hasher = DefaultHasher::new();
    "content".hash(&mut hasher);
    "config".hash(&mut hasher);
    "a_task".hash(&mut hasher);
    "4567".hash(&mut hasher);
    "b_task".hash(&mut hasher);
    "0123".hash(&mut hasher);
    assert_eq!(fp.0, format!("{:016x}", hasher.finish()));
}

#[test]
fn upstream_insertion_order_does_not_matter() {
    let mut one = UpstreamFingerprints::new();
    one.insert("x".to_string(), Fingerprint::from_hex("1"));
    one.insert("y".to_string(), Fingerprint::from_hex("2"));
    let mut two = UpstreamFingerprints::new();
    two.insert("y".to_string(), Fingerprint::from_hex("2"));
    two.insert("x".to_string(), Fingerprint::from_hex("1"));
    assert_eq!(
        Fingerprint::compute("t", "{}", &one),
        Fingerprint::compute("t", "{}", &two)
    );
}

#[test]
fn upstream_insert_replaces_and_keeps_order() {
    let mut u = UpstreamFingerprints::new();
    u.insert("m".to_string(), Fingerprint::from_hex("1"));
    u.insert("a".to_string(), Fingerprint::from_hex("2"));
    u.insert("m".to_string(), Fingerprint::from_hex("3"));
    assert_eq!(u.len(), 2);
    assert_eq!(u.get("m"), Some(Fingerprint::from_hex("3")));
    assert_eq!(u.get("a"), Some(Fingerprint::from_hex("2")));
    assert_eq!(u.get("z"), None);
}

#[test]
fn from_hex_keeps_the_text() {
    assert_eq!(Fingerprint::from_hex("abc").0, "abc");
}
