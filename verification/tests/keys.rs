use places_backend::keys::{load_auth_public_keys, KeyDescriptor, KeyStoreUnavailable, SigningKey};

/// A modulus in the spelling of a discovery document; too short for a real
/// key, which these tests do not need.
const MODULUS: &str = "wJ3fAQAB";

fn descriptor(kid: &str, use_: &str, kty: &str, n: &str, e: &str) -> KeyDescriptor {
    KeyDescriptor {
        kid: kid.to_string(),
        use_: use_.to_string(),
        kty: kty.to_string(),
        e: e.to_string(),
        n: n.to_string(),
    }
}

#[test]
fn signing_keys_are_kept_by_identifier() {
    let keys = load_auth_public_keys(vec![
        descriptor("first", "sig", "RSA", MODULUS, "AQAB"),
        descriptor("second", "sig", "RSA", MODULUS, "AQAB"),
    ])
    .ok()
    .unwrap();
    assert_eq!(
        keys.lookup("first"),
        Some(&SigningKey {
            kid: "first".to_string(),
            modulus: MODULUS.to_string(),
            exponent: "AQAB".to_string(),
        })
    );
    assert_eq!(keys.lookup("second").unwrap().kid, "second");
    assert!(keys.lookup("third").is_none());
    assert!(keys.lookup("").is_none());
}

#[test]
fn other_keys_are_filtered_out() {
    let keys = load_auth_public_keys(vec![
        descriptor("encryption", "enc", "RSA", MODULUS, "AQAB"),
        descriptor("curve", "sig", "EC", MODULUS, "AQAB"),
        descriptor("lower", "SIG", "rsa", MODULUS, "AQAB"),
        descriptor("signing", "sig", "RSA", MODULUS, "AQAB"),
    ])
    .ok()
    .unwrap();
    assert!(keys.lookup("encryption").is_none());
    assert!(keys.lookup("curve").is_none());
    assert!(keys.lookup("lower").is_none());
    assert!(keys.lookup("signing").is_some());
}

#[test]
fn filtered_keys_need_no_usable_components() {
    let keys = load_auth_public_keys(vec![
        descriptor("encryption", "enc", "RSA", "not base64!", "?"),
        descriptor("signing", "sig", "RSA", MODULUS, "AQAB"),
    ]);
    assert!(keys.is_ok());
}

#[test]
fn empty_document_gives_no_key_set() {
    assert_eq!(load_auth_public_keys(Vec::new()).err(), Some(KeyStoreUnavailable));
}

#[test]
fn document_without_signing_keys_gives_no_key_set() {
    let loaded = load_auth_public_keys(vec![
        descriptor("encryption", "enc", "RSA", MODULUS, "AQAB"),
        descriptor("curve", "sig", "EC", MODULUS, "AQAB"),
    ]);
    assert_eq!(loaded.err(), Some(KeyStoreUnavailable));
}

#[test]
fn signing_key_with_unusable_components_gives_no_key_set() {
    let loaded = load_auth_public_keys(vec![
        descriptor("good", "sig", "RSA", MODULUS, "AQAB"),
        descriptor("bad", "sig", "RSA", "not base64!", "AQAB"),
    ]);
    assert_eq!(loaded.err(), Some(KeyStoreUnavailable));
    let loaded = load_auth_public_keys(vec![descriptor("bad", "sig", "RSA", MODULUS, "A=QAB")]);
    assert_eq!(loaded.err(), Some(KeyStoreUnavailable));
}

#[test]
fn later_descriptor_replaces_an_earlier_one() {
    let keys = load_auth_public_keys(vec![
        descriptor("same", "sig", "RSA", "AQAB", "AQAB"),
        descriptor("same", "sig", "RSA", MODULUS, "AQAB"),
    ])
    .ok()
    .unwrap();
    let kept = keys.lookup("same").unwrap();
    assert_eq!(kept.kid, "same");
    assert_eq!(kept.modulus, MODULUS);
    assert_eq!(kept.exponent, "AQAB");
}
