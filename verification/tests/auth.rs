use jsonwebtoken::{encode, get_current_timestamp, Algorithm, EncodingKey, Header};
use places_backend::auth::{
    auth, auth_error_of, claims_from_payload, extract_and_validate_token, guard_decision,
    validate_token, validation_rules, AuthError, Claims, ALGORITHM, AUDIENCE, UNAUTHORIZED,
};
use places_backend::boundary::DecodeFailure;
use places_backend::db::{PlacesDB, DB};
use places_backend::keys::{load_auth_public_keys, KeyDescriptor, KeySet};
use places_backend::place::Place;
use serde_json::Value;

/// The signing key of these tests: an RSA key pair that is drawn anew in
/// every run, with its public components as a discovery document spells
/// them.
struct TestKey {
    pem: Vec<u8>,
    modulus: String,
    exponent: String,
}

fn base64_url(bytes: &[u8]) -> String {
    openssl::base64::encode_block(bytes)
        .replace('+', "-")
        .replace('/', "_")
        .trim_end_matches('=')
        .to_string()
}

fn test_key() -> TestKey {
    let pair = openssl::rsa::Rsa::generate(2048).unwrap();
    TestKey {
        pem: pair.private_key_to_pem().unwrap(),
        modulus: base64_url(&pair.n().to_vec()),
        exponent: base64_url(&pair.e().to_vec()),
    }
}

const KID: &str = "test-key-1";

fn key_set(key: &TestKey) -> KeySet {
    load_auth_public_keys(vec![KeyDescriptor {
        kid: KID.to_string(),
        use_: "sig".to_string(),
        kty: "RSA".to_string(),
        e: key.exponent.clone(),
        n: key.modulus.clone(),
    }])
    .unwrap()
}

fn text(value: &str) -> Value {
    Value::String(value.to_string())
}

fn payload(upn: &str, roles: &[&str], audience: &str) -> serde_json::Map<String, Value> {
    let mut members = serde_json::Map::new();
    members.insert("upn".to_string(), text(upn));
    members.insert("roles".to_string(), Value::Array(roles.iter().map(|r| text(r)).collect()));
    members.insert("aud".to_string(), text(audience));
    members.insert("exp".to_string(), Value::from(get_current_timestamp() + 3600));
    members
}

fn sign(key: &TestKey, kid: Option<&str>, members: serde_json::Map<String, Value>) -> String {
    let mut header = Header::new(Algorithm::RS256);
    header.kid = kid.map(|k| k.to_string());
    let signer = EncodingKey::from_rsa_pem(&key.pem).unwrap();
    encode(&header, &Value::Object(members), &signer).unwrap()
}

fn sign_with_secret(kid: &str, members: serde_json::Map<String, Value>) -> String {
    let mut header = Header::new(Algorithm::HS256);
    header.kid = Some(kid.to_string());
    encode(&header, &Value::Object(members), &EncodingKey::from_secret(b"shared secret")).unwrap()
}

fn alice() -> Claims {
    Claims { upn: "alice@example.org".to_string(), roles: vec!["reader".to_string(), "rater".to_string()] }
}

fn alice_token(key: &TestKey) -> String {
    sign(key, Some(KID), payload("alice@example.org", &["reader", "rater"], AUDIENCE))
}

#[test]
fn valid_token_yields_the_claims_of_its_payload() {
    let key = test_key();
    assert_eq!(validate_token(&alice_token(&key), &key_set(&key)), Ok(alice()));
}

#[test]
fn valid_token_without_roles_yields_empty_roles() {
    let key = test_key();
    let token = sign(&key, Some(KID), payload("bob@example.org", &[], AUDIENCE));
    let claims = validate_token(&token, &key_set(&key)).unwrap();
    assert_eq!(claims.upn, "bob@example.org");
    assert!(claims.roles.is_empty());
}

#[test]
fn other_members_of_the_payload_are_ignored() {
    let key = test_key();
    let mut members = payload("alice@example.org", &["reader", "rater"], AUDIENCE);
    members.insert("name".to_string(), text("Alice"));
    members.insert("iat".to_string(), Value::from(1_u64));
    assert_eq!(validate_token(&sign(&key, Some(KID), members), &key_set(&key)), Ok(alice()));
}

#[test]
fn token_without_expiry_is_accepted() {
    let key = test_key();
    let mut members = payload("alice@example.org", &["reader", "rater"], AUDIENCE);
    members.remove("exp");
    assert_eq!(validate_token(&sign(&key, Some(KID), members), &key_set(&key)), Ok(alice()));
}

#[test]
fn text_that_is_no_token_is_malformed() {
    let key = test_key();
    assert_eq!(validate_token("not a token", &key_set(&key)), Err(AuthError::MalformedToken));
    assert_eq!(validate_token("", &key_set(&key)), Err(AuthError::MalformedToken));
    assert_eq!(validate_token("a.b.c", &key_set(&key)), Err(AuthError::MalformedToken));
}

#[test]
fn token_without_key_identifier_is_malformed() {
    let key = test_key();
    let token = sign(&key, None, payload("alice@example.org", &[], AUDIENCE));
    assert_eq!(validate_token(&token, &key_set(&key)), Err(AuthError::MalformedToken));
}

#[test]
fn token_of_an_unknown_key_is_rejected() {
    let key = test_key();
    let token = sign(&key, Some("rotated-key"), payload("alice@example.org", &[], AUDIENCE));
    assert_eq!(validate_token(&token, &key_set(&key)), Err(AuthError::UnknownSigningKey));
}

#[test]
fn unknown_key_is_reported_before_the_algorithm() {
    let key = test_key();
    let token = sign_with_secret("rotated-key", payload("alice@example.org", &[], AUDIENCE));
    assert_eq!(validate_token(&token, &key_set(&key)), Err(AuthError::UnknownSigningKey));
}

#[test]
fn token_of_another_algorithm_is_rejected_though_its_key_is_known() {
    let key = test_key();
    let token = sign_with_secret(KID, payload("alice@example.org", &[], AUDIENCE));
    assert_eq!(validate_token(&token, &key_set(&key)), Err(AuthError::AlgorithmMismatch));
}

#[test]
fn token_with_a_forged_signature_is_rejected() {
    let key = test_key();
    let token = alice_token(&key);
    let cut = token.rfind('.').unwrap() + 11;
    let swapped = if &token[cut..cut + 1] == "A" { "B" } else { "A" };
    let forged = format!("{}{}{}", &token[..cut], swapped, &token[cut + 1..]);
    assert_eq!(validate_token(&forged, &key_set(&key)), Err(AuthError::InvalidSignature));
}

#[test]
fn token_with_a_changed_payload_is_rejected() {
    let key = test_key();
    let token = alice_token(&key);
    let other = sign(&key, Some(KID), payload("mallory@example.org", &["admin"], AUDIENCE));
    let parts: Vec<&str> = token.split('.').collect();
    let other_parts: Vec<&str> = other.split('.').collect();
    let mixed = format!("{}.{}.{}", parts[0], other_parts[1], parts[2]);
    assert_eq!(validate_token(&mixed, &key_set(&key)), Err(AuthError::InvalidSignature));
}

#[test]
fn token_whose_signature_is_no_base64_is_malformed() {
    let key = test_key();
    let token = alice_token(&key);
    let cut = token.rfind('.').unwrap();
    let broken = format!("{}.!!!", &token[..cut]);
    assert_eq!(validate_token(&broken, &key_set(&key)), Err(AuthError::MalformedToken));
}

#[test]
fn signed_token_whose_payload_is_no_json_is_malformed() {
    let key = test_key();
    let token = alice_token(&key);
    let header = &token[..token.find('.').unwrap()];
    let message = format!("{}.bm90IGpzb24", header);
    let signer = EncodingKey::from_rsa_pem(&key.pem).unwrap();
    let signature = jsonwebtoken::crypto::sign(message.as_bytes(), &signer, Algorithm::RS256).unwrap();
    let signed = format!("{}.{}", message, signature);
    assert_eq!(validate_token(&signed, &key_set(&key)), Err(AuthError::MalformedToken));
}

#[test]
fn signed_token_whose_payload_is_no_object_is_malformed() {
    let key = test_key();
    let token = alice_token(&key);
    let header = &token[..token.find('.').unwrap()];
    let message = format!("{}.WyJhIiwiYiJd", header);
    let signer = EncodingKey::from_rsa_pem(&key.pem).unwrap();
    let signature = jsonwebtoken::crypto::sign(message.as_bytes(), &signer, Algorithm::RS256).unwrap();
    let signed = format!("{}.{}", message, signature);
    assert_eq!(validate_token(&signed, &key_set(&key)), Err(AuthError::MalformedToken));
}

#[test]
fn token_for_another_audience_is_rejected() {
    let key = test_key();
    let token = sign(&key, Some(KID), payload("alice@example.org", &[], "api://elsewhere"));
    assert_eq!(validate_token(&token, &key_set(&key)), Err(AuthError::AudienceMismatch));
}

#[test]
fn token_without_audience_is_rejected() {
    let key = test_key();
    let mut members = payload("alice@example.org", &[], AUDIENCE);
    members.remove("aud");
    assert_eq!(validate_token(&sign(&key, Some(KID), members), &key_set(&key)), Err(AuthError::AudienceMismatch));
}

#[test]
fn token_for_several_audiences_is_rejected() {
    let key = test_key();
    let mut members = payload("alice@example.org", &[], AUDIENCE);
    members.insert("aud".to_string(), Value::Array(vec![text(AUDIENCE), text("api://elsewhere")]));
    assert_eq!(validate_token(&sign(&key, Some(KID), members), &key_set(&key)), Err(AuthError::AudienceMismatch));
}

#[test]
fn expired_token_is_rejected() {
    let key = test_key();
    let mut members = payload("alice@example.org", &[], AUDIENCE);
    members.insert("exp".to_string(), Value::from(get_current_timestamp() - 3600));
    assert_eq!(validate_token(&sign(&key, Some(KID), members), &key_set(&key)), Err(AuthError::TokenExpired));
}

#[test]
fn token_that_is_not_yet_valid_is_rejected() {
    let key = test_key();
    let mut members = payload("alice@example.org", &[], AUDIENCE);
    members.insert("nbf".to_string(), Value::from(get_current_timestamp() + 3600));
    assert_eq!(validate_token(&sign(&key, Some(KID), members), &key_set(&key)), Err(AuthError::TokenNotYetValid));
}

#[test]
fn token_without_principal_is_malformed() {
    let key = test_key();
    let mut members = payload("alice@example.org", &[], AUDIENCE);
    members.remove("upn");
    assert_eq!(validate_token(&sign(&key, Some(KID), members), &key_set(&key)), Err(AuthError::MalformedToken));
}

#[test]
fn token_whose_roles_are_no_strings_is_malformed() {
    let key = test_key();
    let mut members = payload("alice@example.org", &[], AUDIENCE);
    members.insert("roles".to_string(), Value::Array(vec![text("reader"), Value::from(7_u64)]));
    assert_eq!(validate_token(&sign(&key, Some(KID), members), &key_set(&key)), Err(AuthError::MalformedToken));
    let mut members = payload("alice@example.org", &[], AUDIENCE);
    members.insert("roles".to_string(), text("reader"));
    assert_eq!(validate_token(&sign(&key, Some(KID), members), &key_set(&key)), Err(AuthError::MalformedToken));
}

#[test]
fn claims_are_taken_from_a_verified_payload() {
    let document = Value::Object(payload("alice@example.org", &["reader", "rater"], AUDIENCE));
    assert_eq!(claims_from_payload(&document, AUDIENCE), Ok(alice()));
    assert_eq!(claims_from_payload(&document, "api://elsewhere"), Err(AuthError::AudienceMismatch));
    assert_eq!(claims_from_payload(&Value::Null, AUDIENCE), Err(AuthError::AudienceMismatch));
    let mut members = payload("alice@example.org", &[], AUDIENCE);
    members.insert("upn".to_string(), Value::from(5_u64));
    assert_eq!(claims_from_payload(&Value::Object(members), AUDIENCE), Err(AuthError::MalformedToken));
}

#[test]
fn every_refusal_has_its_error() {
    assert_eq!(auth_error_of(DecodeFailure::InvalidToken), AuthError::MalformedToken);
    assert_eq!(auth_error_of(DecodeFailure::Encoding), AuthError::MalformedToken);
    assert_eq!(auth_error_of(DecodeFailure::Other), AuthError::MalformedToken);
    assert_eq!(auth_error_of(DecodeFailure::InvalidSignature), AuthError::InvalidSignature);
    assert_eq!(auth_error_of(DecodeFailure::InvalidAlgorithm), AuthError::AlgorithmMismatch);
    assert_eq!(auth_error_of(DecodeFailure::InvalidAudience), AuthError::AudienceMismatch);
    assert_eq!(auth_error_of(DecodeFailure::ExpiredSignature), AuthError::TokenExpired);
    assert_eq!(auth_error_of(DecodeFailure::ImmatureSignature), AuthError::TokenNotYetValid);
}

#[test]
fn rules_name_the_algorithm_and_the_audience() {
    let rules = validation_rules();
    assert_eq!(rules.algorithm, "RS256");
    assert_eq!(ALGORITHM, "RS256");
    assert_eq!(rules.audience, AUDIENCE);
    assert!(rules.required_claims.is_empty());
    assert!(rules.validate_nbf);
}

#[test]
fn guard_forwards_the_claims_of_a_valid_token() {
    let key = test_key();
    let header = format!("Bearer {}", alice_token(&key));
    assert_eq!(auth(Some(&header), &key_set(&key)), Ok(alice()));
}

#[test]
fn guard_reads_the_scheme_without_regard_to_case() {
    let key = test_key();
    let header = format!("bearer {}", alice_token(&key));
    assert_eq!(auth(Some(&header), &key_set(&key)), Ok(alice()));
    let header = format!("BEARER   {}", alice_token(&key));
    assert_eq!(auth(Some(&header), &key_set(&key)), Ok(alice()));
}

#[test]
fn guard_rejects_a_request_without_credentials() {
    let key = test_key();
    assert_eq!(auth(None, &key_set(&key)), Err(401));
    assert_eq!(UNAUTHORIZED, 401);
}

#[test]
fn guard_rejects_other_schemes() {
    let key = test_key();
    let keys = key_set(&key);
    assert_eq!(auth(Some("Basic abc"), &keys), Err(401));
    assert_eq!(auth(Some(&alice_token(&key)), &keys), Err(401));
    assert_eq!(auth(Some("Bearer"), &keys), Err(401));
    assert_eq!(auth(Some(&format!("Bearer{}", alice_token(&key))), &keys), Err(401));
    assert_eq!(auth(Some(""), &keys), Err(401));
}

#[test]
fn guard_rejects_every_invalid_token_alike() {
    let key = test_key();
    let keys = key_set(&key);
    let unknown = sign(&key, Some("rotated-key"), payload("alice@example.org", &[], AUDIENCE));
    let elsewhere = sign(&key, Some(KID), payload("alice@example.org", &[], "api://elsewhere"));
    assert_eq!(auth(Some("Bearer nonsense"), &keys), Err(401));
    assert_eq!(auth(Some(&format!("Bearer {}", unknown)), &keys), Err(401));
    assert_eq!(auth(Some(&format!("Bearer {}", elsewhere)), &keys), Err(401));
}

#[test]
fn decision_hides_the_reason() {
    assert_eq!(guard_decision(Ok(alice())), Ok(alice()));
    assert_eq!(guard_decision(Err(AuthError::MalformedToken)), Err(401));
    assert_eq!(guard_decision(Err(AuthError::UnknownSigningKey)), Err(401));
    assert_eq!(guard_decision(Err(AuthError::AlgorithmMismatch)), Err(401));
    assert_eq!(guard_decision(Err(AuthError::InvalidSignature)), Err(401));
    assert_eq!(guard_decision(Err(AuthError::AudienceMismatch)), Err(401));
    assert_eq!(guard_decision(Err(AuthError::TokenExpired)), Err(401));
    assert_eq!(guard_decision(Err(AuthError::TokenNotYetValid)), Err(401));
}

#[test]
fn header_value_is_split_into_scheme_and_token() {
    let key = test_key();
    let keys = key_set(&key);
    assert_eq!(extract_and_validate_token("Basic abc", &keys), None);
    assert_eq!(extract_and_validate_token("Bearer abc", &keys), Some(Err(AuthError::MalformedToken)));
    let header = format!("Bearer {}", alice_token(&key));
    assert_eq!(extract_and_validate_token(&header, &keys), Some(Ok(alice())));
}

#[test]
fn place_created_under_one_token_is_seen_unrated_under_another() {
    let key = test_key();
    let keys = key_set(&key);
    let mut db = DB::new_db();
    let creator = auth(Some(&format!("Bearer {}", alice_token(&key))), &keys).unwrap();
    assert_eq!(creator.upn, "alice@example.org");
    let cafe = Place::new("Cafe".to_string(), "http://x".to_string()).unwrap();
    let created = db.create_place(cafe).unwrap();
    assert_ne!(created.id, 0);
    assert_eq!(created.name, "Cafe");
    assert_eq!(created.maps_link, "http://x");
    let visitor_token = sign(&key, Some(KID), payload("bob@example.org", &["reader"], AUDIENCE));
    let visitor = auth(Some(&format!("Bearer {}", visitor_token)), &keys).unwrap();
    let seen = db.get_place_with_rating(created.id, visitor.upn).unwrap();
    assert_eq!(seen.place, created);
    assert_eq!(seen.own_rating, 0);
}
