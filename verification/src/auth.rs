//! The token validator and the guard in front of every protected request.

use crate::boundary::{
    bearer_token, bearer_token_of, decoded_header, failure_of, json_string_lists, json_strings,
    read_header, string_list_member, string_member, texts, token_payload, verify_token,
    DecodeFailure, ValidationRules,
};
use crate::keys::KeySet;
use vstd::prelude::*;

verus! {

/// The one signature algorithm that this service accepts.
pub const ALGORITHM: &'static str = "RS256";

/// The audience that a token must name: the identifier of this service.
pub const AUDIENCE: &'static str = "api://places.cluster.azure.ludimus.de";

/// The status of every rejected request, whatever the reason was.
pub const UNAUTHORIZED: u16 = 401;

/// The validated identity of a caller.
#[derive(Clone, Debug, PartialEq, Eq)]
pub struct Claims {
    pub upn: String,
    pub roles: Vec<String>,
}

/// Claims as plain text.
pub struct ClaimsView {
    pub upn: Seq<char>,
    pub roles: Seq<Seq<char>>,
}

impl View for Claims {
    type V = ClaimsView;

    open spec fn view(&self) -> ClaimsView {
        ClaimsView { upn: self.upn@, roles: texts(self.roles@) }
    }
}

/// Why a token was not accepted.
#[derive(Clone, Copy, Debug, PartialEq, Eq)]
pub enum AuthError {
    /// The token has no readable header, the header names no key, or the
    /// payload lacks the identity claims.
    MalformedToken,
    /// The key set holds no key of the identifier that the header names.
    UnknownSigningKey,
    /// The header declares another algorithm than the one expected.
    AlgorithmMismatch,
    /// The signature does not verify under the key that the header names.
    InvalidSignature,
    /// The audience claim is missing or is not this service.
    AudienceMismatch,
    /// The expiry claim lies in the past.
    TokenExpired,
    /// The not-before claim lies in the future.
    TokenNotYetValid,
}

/// The outcome of a validation, with the claims taken by their view.
pub open spec fn outcome_view(outcome: Result<Claims, AuthError>) -> Result<ClaimsView, AuthError> {
    match outcome {
        Ok(claims) => Ok(claims@),
        Err(error) => Err(error),
    }
}

/// The claims that a verified payload carries: its audience must be this
/// service, named by a single string, and it must hold the principal as a
/// string and the roles as a list of strings.
pub open spec fn claims_in(
    strings: Map<Seq<char>, Seq<char>>,
    lists: Map<Seq<char>, Seq<Seq<char>>>,
    audience: Seq<char>,
) -> Result<ClaimsView, AuthError> {
    if !strings.contains_key("aud"@) || strings["aud"@] != audience {
        Err(AuthError::AudienceMismatch)
    } else if !strings.contains_key("upn"@) || !lists.contains_key("roles"@) {
        Err(AuthError::MalformedToken)
    } else {
        Ok(ClaimsView { upn: strings["upn"@], roles: lists["roles"@] })
    }
}

/// The error that stands for a refusal of the token crate.
pub open spec fn rejection(failure: DecodeFailure) -> AuthError {
    match failure {
        DecodeFailure::InvalidToken => AuthError::MalformedToken,
        DecodeFailure::Encoding => AuthError::MalformedToken,
        DecodeFailure::Other => AuthError::MalformedToken,
        DecodeFailure::InvalidSignature => AuthError::InvalidSignature,
        DecodeFailure::InvalidAlgorithm => AuthError::AlgorithmMismatch,
        DecodeFailure::InvalidAudience => AuthError::AudienceMismatch,
        DecodeFailure::ExpiredSignature => AuthError::TokenExpired,
        DecodeFailure::ImmatureSignature => AuthError::TokenNotYetValid,
    }
}

/// The claims that the payload of a token carries, or why it carries none.
pub open spec fn claims_of(token: Seq<char>) -> Result<ClaimsView, AuthError> {
    claims_in(
        json_strings(token_payload(token)),
        json_string_lists(token_payload(token)),
        AUDIENCE@,
    )
}

/// What validation can return for a token whose header has passed: what the
/// token's payload carries, where the token is verified, or else the error
/// of some refusal.
pub open spec fn verification_outcome(token: Seq<char>, outcome: Result<Claims, AuthError>)
    -> bool {
    ||| outcome_view(outcome) == claims_of(token)
    ||| exists|failure: DecodeFailure| outcome == Err::<Claims, AuthError>(rejection(failure))
}

/// What the header of a token decides before any signature is looked at:
/// `Some` error where the token is rejected on its header alone, `None`
/// where it goes on to verification.
pub open spec fn header_verdict(token: Seq<char>, keys: Map<Seq<char>, crate::keys::RsaComponents>)
    -> Option<AuthError> {
    match decoded_header(token) {
        None => Some(AuthError::MalformedToken),
        Some(header) => match header.kid {
            None => Some(AuthError::MalformedToken),
            Some(kid) => if !keys.contains_key(kid) {
                Some(AuthError::UnknownSigningKey)
            } else if header.alg != ALGORITHM@ {
                Some(AuthError::AlgorithmMismatch)
            } else {
                None
            },
        },
    }
}

/// What validation can return for a token under a key set: the verdict of
/// the header where the header decides, and else an outcome of verification.
pub open spec fn validation_outcome(
    token: Seq<char>,
    keys: Map<Seq<char>, crate::keys::RsaComponents>,
    outcome: Result<Claims, AuthError>,
) -> bool {
    match header_verdict(token, keys) {
        Some(error) => outcome == Err::<Claims, AuthError>(error),
        None => verification_outcome(token, outcome),
    }
}

/// Maps a refusal of the token crate to the library's error.
pub fn auth_error_of(failure: DecodeFailure) -> (error: AuthError)
    ensures
        error == rejection(failure),
{
    match failure {
        DecodeFailure::InvalidToken => AuthError::MalformedToken,
        DecodeFailure::Encoding => AuthError::MalformedToken,
        DecodeFailure::Other => AuthError::MalformedToken,
        DecodeFailure::InvalidSignature => AuthError::InvalidSignature,
        DecodeFailure::InvalidAlgorithm => AuthError::AlgorithmMismatch,
        DecodeFailure::InvalidAudience => AuthError::AudienceMismatch,
        DecodeFailure::ExpiredSignature => AuthError::TokenExpired,
        DecodeFailure::ImmatureSignature => AuthError::TokenNotYetValid,
    }
}

/// Takes the claims out of the payload of a token whose signature has been
/// verified.
pub fn claims_from_payload(payload: &serde_json::Value, audience: &str) -> (outcome: Result<
    Claims,
    AuthError,
>)
    ensures
        outcome_view(outcome) == claims_in(
            json_strings(*payload),
            json_string_lists(*payload),
            audience@,
        ),
{
    let expected = audience.to_owned();
    let named = match string_member(payload, "aud") {
        Some(aud) => aud == expected,
        None => false,
    };
    if !named {
        return Err(AuthError::AudienceMismatch);
    }
    match (string_member(payload, "upn"), string_list_member(payload, "roles")) {
        (Some(upn), Some(roles)) => Ok(Claims { upn, roles }),
        _ => Err(AuthError::MalformedToken),
    }
}

/// The rules under which this service verifies a token.
pub fn validation_rules() -> (rules: ValidationRules)
    ensures
        rules.algorithm@ == ALGORITHM@,
        rules.audience@ == AUDIENCE@,
        rules.required_claims@.len() == 0,
        rules.validate_nbf,
{
    ValidationRules {
        algorithm: ALGORITHM.to_owned(),
        audience: AUDIENCE.to_owned(),
        required_claims: Vec::new(),
        validate_nbf: true,
    }
}

/// Decides whether a bearer token is a genuine, currently valid grant of the
/// identity provider, and extracts its claims.
pub fn validate_token(token: &str, keys: &KeySet) -> (outcome: Result<Claims, AuthError>)
    ensures
        validation_outcome(token@, keys@, outcome),
        outcome matches Ok(claims) ==> claims_of(token@) == Ok::<ClaimsView, AuthError>(claims@),
{
    let header = match read_header(token) {
        Some(header) => header,
        None => {
            return Err(AuthError::MalformedToken);
        },
    };
    let kid = match header.kid {
        Some(kid) => kid,
        None => {
            return Err(AuthError::MalformedToken);
        },
    };
    let key = match keys.lookup(kid.as_str()) {
        Some(key) => key,
        None => {
            return Err(AuthError::UnknownSigningKey);
        },
    };
    let rules = validation_rules();
    if header.alg != rules.algorithm {
        return Err(AuthError::AlgorithmMismatch);
    }
    match verify_token(token, &key.decoding_key(), &rules) {
        Ok(payload) => claims_from_payload(&payload, AUDIENCE),
        Err(error) => {
            let failure = failure_of(&error);
            Err(auth_error_of(failure))
        },
    }
}

/// What the guard makes of a validated token: the claims go on to the
/// handler, and every error becomes the same rejection.
pub open spec fn guard_verdict(validated: Result<Claims, AuthError>) -> Result<Claims, u16> {
    match validated {
        Ok(claims) => Ok(claims),
        Err(_) => Err(UNAUTHORIZED),
    }
}

/// Turns the outcome of a validation into the decision of the guard.
pub fn guard_decision(validated: Result<Claims, AuthError>) -> (decision: Result<Claims, u16>)
    ensures
        decision == guard_verdict(validated),
{
    match validated {
        Ok(claims) => Ok(claims),
        Err(_) => Err(UNAUTHORIZED),
    }
}

/// Reads the bearer token from the value of an `Authorization` header and
/// validates it. `None` where the value is no bearer credential.
pub fn extract_and_validate_token(authorization: &str, keys: &KeySet) -> (outcome: Option<
    Result<Claims, AuthError>,
>)
    ensures
        match bearer_token_of(authorization@) {
            Some(token) => outcome matches Some(validated) && validation_outcome(
                token,
                keys@,
                validated,
            ),
            None => outcome is None,
        },
{
    match bearer_token(authorization) {
        Some(token) => Some(validate_token(token.as_str(), keys)),
        None => None,
    }
}

/// The guard: decides from the `Authorization` header of a request whether
/// the request goes on, and with which claims. A request without the header,
/// with another scheme than bearer, or with a token that does not validate is
/// rejected with `UNAUTHORIZED`.
pub fn auth(authorization: Option<&str>, keys: &KeySet) -> (decision: Result<Claims, u16>)
    ensures
        decision matches Err(status) ==> status == UNAUTHORIZED,
        authorization is None ==> decision is Err,
        authorization matches Some(value) ==> match bearer_token_of(value@) {
            None => decision is Err,
            Some(token) => exists|validated: Result<Claims, AuthError>|
                validation_outcome(token, keys@, validated) && decision == guard_verdict(
                    validated,
                ),
        },
        decision matches Ok(claims) ==> {
            &&& authorization matches Some(value)
            &&& bearer_token_of(value@) matches Some(token)
            &&& claims_of(token) == Ok::<ClaimsView, AuthError>(claims@)
        },
{
    match authorization {
        None => Err(UNAUTHORIZED),
        Some(value) => match extract_and_validate_token(value, keys) {
            None => Err(UNAUTHORIZED),
            Some(validated) => guard_decision(validated),
        },
    }
}

} // verus!
