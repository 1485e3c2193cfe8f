//! The boundary to the token, JSON and header crates.
//!
//! Everything in this module is believed, not proved: the outside types that
//! pass through the library, the names given to what outside functions
//! return, and the small functions that make the calls. The rest of the
//! library is verified against the contracts stated here.

use vstd::prelude::*;

verus! {

/// `jsonwebtoken::DecodingKey`: a verification key, opaque to the library.
#[verifier::external_type_specification]
#[verifier::external_body]
pub struct ExDecodingKey(jsonwebtoken::DecodingKey);

/// `jsonwebtoken::errors::Error`: the error of a failed token verification,
/// opaque to the library.
#[verifier::external_type_specification]
#[verifier::external_body]
pub struct ExTokenError(jsonwebtoken::errors::Error);

/// `serde_json::Value`: a JSON document, here the payload of a verified
/// token. The library knows of it what `json_strings` and
/// `json_string_lists` name.
#[verifier::external_type_specification]
#[verifier::external_body]
pub struct ExJsonValue(serde_json::Value);

/// What the protected header of a token declares: the identifier of the
/// signing key, if any, and the signature algorithm under its registered
/// name, such as `RS256`.
pub struct TokenHeader {
    pub kid: Option<String>,
    pub alg: String,
}

/// A token header as plain text.
pub struct TokenHeaderView {
    pub kid: Option<Seq<char>>,
    pub alg: Seq<char>,
}

impl View for TokenHeader {
    type V = TokenHeaderView;

    open spec fn view(&self) -> TokenHeaderView {
        TokenHeaderView {
            kid: match self.kid {
                Some(kid) => Some(kid@),
                None => None,
            },
            alg: self.alg@,
        }
    }
}

/// How a token is to be verified: the one accepted algorithm by its
/// registered name, the accepted audience, the registered claims that must
/// be present, and whether a not-before claim is honoured.
pub struct ValidationRules {
    pub algorithm: String,
    pub audience: String,
    pub required_claims: Vec<String>,
    pub validate_nbf: bool,
}

/// Why the token crate refused a token.
#[derive(Clone, Copy, Debug, PartialEq, Eq)]
pub enum DecodeFailure {
    /// The token does not consist of three parts.
    InvalidToken,
    /// The signature does not match.
    InvalidSignature,
    /// The header's algorithm is not the accepted one, or does not fit the
    /// key.
    InvalidAlgorithm,
    /// The expiry claim lies in the past.
    ExpiredSignature,
    /// The not-before claim lies in the future.
    ImmatureSignature,
    /// The audience claim names no accepted audience.
    InvalidAudience,
    /// A part is no base64, no JSON or no UTF-8.
    Encoding,
    /// Any other refusal.
    Other,
}

/// The header that `jsonwebtoken::decode_header` reads from a token, or
/// `None` where it reports an error.
pub uninterp spec fn decoded_header(token: Seq<char>) -> Option<TokenHeaderView>;

/// The payload that `jsonwebtoken::decode` hands back for a token where it
/// accepts the token: the JSON document in the token's second part. Which
/// tokens it accepts is not named, for that depends on the key, the rules
/// and the clock.
pub uninterp spec fn token_payload(token: Seq<char>) -> serde_json::Value;

/// The verification key that `jsonwebtoken::DecodingKey::from_rsa_components`
/// makes of a modulus and an exponent, or `None` where it reports an error.
pub uninterp spec fn rsa_key_from(modulus: Seq<char>, exponent: Seq<char>) -> Option<
    jsonwebtoken::DecodingKey,
>;

/// Whether a modulus and an exponent make a verification key.
pub open spec fn rsa_components_accepted(modulus: Seq<char>, exponent: Seq<char>) -> bool {
    rsa_key_from(modulus, exponent) is Some
}

/// The token that the `headers` crate reads from the value of an
/// `Authorization` header, or `None` where the value is no bearer credential.
pub uninterp spec fn bearer_token_of(value: Seq<char>) -> Option<Seq<char>>;

/// The members of a JSON object whose value is a string, by member name.
/// Empty for a document that is no object.
pub uninterp spec fn json_strings(document: serde_json::Value) -> Map<Seq<char>, Seq<char>>;

/// The members of a JSON object whose value is an array of strings only, by
/// member name. Empty for a document that is no object.
pub uninterp spec fn json_string_lists(document: serde_json::Value) -> Map<
    Seq<char>,
    Seq<Seq<char>>,
>;

/// The views of a list of strings.
pub open spec fn texts(list: Seq<String>) -> Seq<Seq<char>> {
    Seq::new(list.len(), |i: int| list[i]@)
}

/// Calls `jsonwebtoken::decode_header`, which splits the token at its dots
/// and parses the first part without looking at the signature. Believed: the
/// result is the header that the token's text determines, with its key
/// identifier and the name of its algorithm, and `None` exactly where the
/// crate reports an error. A header whose algorithm is none of the twelve
/// that the crate knows is such an error.
#[verifier::external_body]
pub(crate) fn read_header(token: &str) -> (header: Option<TokenHeader>)
    ensures
        match header {
            Some(h) => decoded_header(token@) == Some(h@),
            None => decoded_header(token@) is None,
        },
{
    match jsonwebtoken::decode_header(token) {
        Ok(header) => Some(TokenHeader { kid: header.kid, alg: format!("{:?}", header.alg) }),
        Err(_) => None,
    }
}

/// Calls `jsonwebtoken::DecodingKey::from_rsa_components`, which decodes the
/// two components from unpadded URL-safe base64 and keeps the bytes.
/// Believed: the key, and whether one comes back, depend on the two texts
/// alone.
#[verifier::external_body]
pub(crate) fn rsa_key(modulus: &str, exponent: &str) -> (key: Option<jsonwebtoken::DecodingKey>)
    ensures
        key == rsa_key_from(modulus@, exponent@),
{
    jsonwebtoken::DecodingKey::from_rsa_components(modulus, exponent).ok()
}

/// Calls `jsonwebtoken::decode` with a validation built from `rules`: it
/// checks the header's algorithm, the signature, and the expiry, not-before
/// and audience claims where the payload has them, and hands back the
/// payload. An algorithm name that the crate does not know is an error like
/// any other. The crate reads the system clock for the two time claims, with
/// a leeway of a minute, so nothing is claimed of whether the token is
/// accepted; it panics where the clock stands before 1970. Believed: a
/// payload that comes back is the document that the token's text carries,
/// whatever the key, the rules and the time.
#[verifier::external_body]
pub(crate) fn verify_token(
    token: &str,
    key: &jsonwebtoken::DecodingKey,
    rules: &ValidationRules,
) -> (verified: Result<serde_json::Value, jsonwebtoken::errors::Error>)
    ensures
        verified matches Ok(payload) ==> payload == token_payload(token@),
{
    let mut validation = jsonwebtoken::Validation::new(rules.algorithm.parse()?);
    validation.set_audience(&[rules.audience.as_str()]);
    validation.required_spec_claims = rules.required_claims.iter().cloned().collect();
    validation.validate_nbf = rules.validate_nbf;
    jsonwebtoken::decode::<serde_json::Value>(token, key, &validation).map(|data| data.claims)
}

/// Reads `jsonwebtoken::errors::Error::kind` and names the kinds that the
/// library tells apart. The error is opaque, so nothing is claimed.
#[verifier::external_body]
pub(crate) fn failure_of(error: &jsonwebtoken::errors::Error) -> DecodeFailure {
    match error.kind() {
        jsonwebtoken::errors::ErrorKind::InvalidToken => DecodeFailure::InvalidToken,
        jsonwebtoken::errors::ErrorKind::InvalidSignature => DecodeFailure::InvalidSignature,
        jsonwebtoken::errors::ErrorKind::InvalidAlgorithm => DecodeFailure::InvalidAlgorithm,
        jsonwebtoken::errors::ErrorKind::ExpiredSignature => DecodeFailure::ExpiredSignature,
        jsonwebtoken::errors::ErrorKind::ImmatureSignature => DecodeFailure::ImmatureSignature,
        jsonwebtoken::errors::ErrorKind::InvalidAudience => DecodeFailure::InvalidAudience,
        jsonwebtoken::errors::ErrorKind::Base64(_) => DecodeFailure::Encoding,
        jsonwebtoken::errors::ErrorKind::Json(_) => DecodeFailure::Encoding,
        jsonwebtoken::errors::ErrorKind::Utf8(_) => DecodeFailure::Encoding,
        _ => DecodeFailure::Other,
    }
}

/// Calls `serde_json::Value::get` and `Value::as_str`: the member of that
/// name, where the document is an object that has it and its value is a
/// string.
#[verifier::external_body]
pub(crate) fn string_member(document: &serde_json::Value, name: &str) -> (text: Option<String>)
    ensures
        text is Some <==> json_strings(*document).contains_key(name@),
        text matches Some(t) ==> t@ == json_strings(*document)[name@],
{
    document.get(name)?.as_str().map(str::to_owned)
}

/// Calls `serde_json::Value::get` and `serde_json::from_value`: the member of
/// that name as a list of strings, where the document is an object that has
/// it and its value is an array that holds strings and nothing else.
#[verifier::external_body]
pub(crate) fn string_list_member(document: &serde_json::Value, name: &str) -> (list: Option<
    Vec<String>,
>)
    ensures
        list is Some <==> json_string_lists(*document).contains_key(name@),
        list matches Some(l) ==> texts(l@) == json_string_lists(*document)[name@],
{
    serde_json::from_value(document.get(name)?.clone()).ok()
}

/// Calls `Authorization::<Bearer>::decode` of the `headers` crate on the
/// value, and `Bearer::token` on what it accepts: the scheme is compared
/// without regard to case, a space follows it, and the token is the rest
/// without leading white space. Believed: the token depends on the value's
/// text alone.
#[verifier::external_body]
pub(crate) fn bearer_token(value: &str) -> (token: Option<String>)
    ensures
        match token {
            Some(t) => bearer_token_of(value@) == Some(t@),
            None => bearer_token_of(value@) is None,
        },
{
    let value = axum_extra::headers::HeaderValue::from_str(value).ok()?;
    let mut values = std::iter::once(&value);
    let header: axum_extra::headers::Authorization<axum_extra::headers::authorization::Bearer> =
        axum_extra::headers::Header::decode(&mut values).ok()?;
    Some(header.token().to_owned())
}

/// Whether the 128 bits are those of a random UUID: version 4 in the
/// version field and the variant of RFC 4122 in the variant field.
pub open spec fn is_random_uuid(id: u128) -> bool {
    id & 0x0000_0000_0000_f000_c000_0000_0000_0000 == 0x0000_0000_0000_4000_8000_0000_0000_0000
}

/// Calls `uuid::Uuid::new_v4` and takes the identifier as a number, most
/// significant byte first. The crate sets the version and variant fields of
/// what the random source gave; the other bits can be anything. It panics
/// where the operating system has no randomness to give.
#[verifier::external_body]
pub(crate) fn random_id() -> (id: u128)
    ensures
        is_random_uuid(id),
{
    uuid::Uuid::new_v4().as_u128()
}

} // verus!
