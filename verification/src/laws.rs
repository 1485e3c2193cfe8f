//! What holds of the library as a whole, stated over the same models that
//! the contracts of its functions use.

use crate::auth::{
    claims_in, guard_verdict, validation_outcome, AuthError, Claims, ClaimsView, ALGORITHM,
    AUDIENCE, UNAUTHORIZED,
};
use crate::boundary::{decoded_header, json_string_lists, json_strings, token_payload};
use crate::keys::{
    described_keys, describes, last_describing, lemma_described_keys, usable, KeyDescriptorView,
    RsaComponents,
};
use crate::order::{lemma_lex_lt_irreflexive, lemma_lex_lt_transitive, name_lt};
use crate::place::{PlaceView, RatingView};
use crate::tables::{
    holds, lemma_cascade, lemma_cascade_nothing, lemma_rating_index, lemma_totals_push,
    lemma_totals_update, rated_by, rating_count, rating_index, rating_total, Tables,
};
use vstd::prelude::*;
use vstd::utf8::encode_utf8;

verus! {

/// A key set holds a key under an identifier exactly where the document
/// describes a signing key of that identifier, and it holds the components of
/// the last such descriptor.
pub proof fn law_key_set_holds_the_signing_keys(
    descriptors: Seq<KeyDescriptorView>,
    kid: Seq<char>,
)
    ensures
        described_keys(descriptors).contains_key(kid) <==> describes(descriptors, kid),
        describes(descriptors, kid) ==> described_keys(descriptors)[kid]
            == descriptors[last_describing(descriptors, kid)].components(),
{
    lemma_described_keys(descriptors, kid);
}

/// A document from which a key set can be built describes at least one key,
/// so a key set is never empty.
pub proof fn law_key_set_is_not_empty(descriptors: Seq<KeyDescriptorView>)
    requires
        usable(descriptors),
    ensures
        exists|kid: Seq<char>| #[trigger] described_keys(descriptors).contains_key(kid),
{
    let i = choose|i: int|
        0 <= i < descriptors.len() && (#[trigger] descriptors[i]).is_signing_key();
    law_key_set_holds_the_signing_keys(descriptors, descriptors[i].kid);
    assert(described_keys(descriptors).contains_key(descriptors[i].kid));
}

/// A verified payload that names this service as its audience and carries a
/// principal and roles yields exactly these as claims.
pub proof fn law_claims_match_payload(
    strings: Map<Seq<char>, Seq<char>>,
    lists: Map<Seq<char>, Seq<Seq<char>>>,
)
    requires
        strings.contains_key("aud"@),
        strings["aud"@] == AUDIENCE@,
        strings.contains_key("upn"@),
        lists.contains_key("roles"@),
    ensures
        claims_in(strings, lists, AUDIENCE@) == Ok::<ClaimsView, AuthError>(
            ClaimsView { upn: strings["upn"@], roles: lists["roles"@] },
        ),
{
}

/// Whatever validation accepts carries the claims of its own payload: the
/// audience is this service, and the principal and the roles are those that
/// the payload holds.
pub proof fn law_accepted_claims_are_the_tokens(
    token: Seq<char>,
    keys: Map<Seq<char>, RsaComponents>,
    outcome: Result<Claims, AuthError>,
)
    requires
        validation_outcome(token, keys, outcome),
        outcome is Ok,
    ensures
        json_strings(token_payload(token))["aud"@] == AUDIENCE@,
        outcome->Ok_0@.upn == json_strings(token_payload(token))["upn"@],
        outcome->Ok_0@.roles == json_string_lists(token_payload(token))["roles"@],
{
}

/// A token whose header names a key that the key set does not hold is
/// rejected as signed by an unknown key, whatever else it says.
pub proof fn law_unknown_key_is_rejected(
    token: Seq<char>,
    keys: Map<Seq<char>, RsaComponents>,
    outcome: Result<Claims, AuthError>,
)
    requires
        validation_outcome(token, keys, outcome),
        decoded_header(token) matches Some(header) && header.kid matches Some(kid)
            && !keys.contains_key(kid),
    ensures
        outcome == Err::<Claims, AuthError>(AuthError::UnknownSigningKey),
{
}

/// A token whose header names a key of the key set but declares another
/// algorithm than the accepted one is rejected for its algorithm.
pub proof fn law_other_algorithm_is_rejected(
    token: Seq<char>,
    keys: Map<Seq<char>, RsaComponents>,
    outcome: Result<Claims, AuthError>,
)
    requires
        validation_outcome(token, keys, outcome),
        decoded_header(token) matches Some(header) && header.kid matches Some(kid)
            && keys.contains_key(kid) && header.alg != ALGORITHM@,
    ensures
        outcome == Err::<Claims, AuthError>(AuthError::AlgorithmMismatch),
{
}

/// A token without a readable header, or whose header names no key, is
/// malformed.
pub proof fn law_token_without_key_identifier_is_malformed(
    token: Seq<char>,
    keys: Map<Seq<char>, RsaComponents>,
    outcome: Result<Claims, AuthError>,
)
    requires
        validation_outcome(token, keys, outcome),
        decoded_header(token) matches Some(header) ==> header.kid is None,
    ensures
        outcome == Err::<Claims, AuthError>(AuthError::MalformedToken),
{
}

/// Every rejection leaves the guard under the same status, whatever the
/// validator found wrong with the token.
pub proof fn law_rejections_are_uniform(first: AuthError, second: AuthError)
    ensures
        guard_verdict(Err(first)) == Err::<Claims, u16>(UNAUTHORIZED),
        guard_verdict(Err(first)) == guard_verdict(Err(second)),
{
}

/// A place that has been created is found under its identifier, equal in
/// every field.
pub proof fn law_create_then_get(tables: Tables, place: PlaceView)
    requires
        tables.wf(),
        place.valid(),
        !tables.has_place(place.id),
    ensures
        tables.insert_place(place).wf(),
        tables.insert_place(place).find_place(place.id) == Some(place),
{
    tables.lemma_insert_place(place);
}

/// Deleting a place a second time changes nothing.
pub proof fn law_delete_is_idempotent(tables: Tables, id: u128)
    requires
        tables.wf(),
    ensures
        tables.remove_place(id).wf(),
        tables.remove_place(id).find_place(id) is None,
        tables.remove_place(id).remove_place(id) == tables.remove_place(id),
{
    tables.lemma_remove_place(id);
    lemma_cascade(tables.ratings, id);
    let once = tables.remove_place(id);
    assert(once.find_place(id) is None);
    lemma_cascade_nothing(once.ratings, id);
}

/// A second rating by the same user of the same place overwrites the first:
/// the store holds one row for the pair, with the second value, and the
/// user's own rating of the place is the second value.
pub proof fn law_rating_is_upsert(
    tables: Tables,
    place_id: u128,
    user_id: Seq<char>,
    first: i32,
    second: i32,
)
    requires
        tables.wf(),
        tables.has_place(place_id),
    ensures
        ({
            let once = tables.rate(place_id, user_id, first);
            let twice = once.rate(place_id, user_id, second);
            &&& twice.wf()
            &&& twice.ratings.len() == once.ratings.len()
            &&& twice.own_rating(place_id, user_id) == Some(second)
            &&& exists|i: int|
                {
                    &&& 0 <= i < twice.ratings.len()
                    &&& #[trigger] twice.ratings[i] == (RatingView {
                        place_id,
                        user_id,
                        rating: second,
                    })
                    &&& forall|j: int|
                        0 <= j < twice.ratings.len() && j != i ==> !(#[trigger] twice.ratings[j])
                            .is_for(place_id, user_id)
                }
        }),
{
    let once = tables.rate(place_id, user_id, first);
    tables.lemma_rate(place_id, user_id, first);
    assert(once.own_rating(place_id, user_id) == Some(first));
    once.lemma_rate(place_id, user_id, second);
    let twice = once.rate(place_id, user_id, second);
    assert(twice.own_rating(place_id, user_id) == Some(second));
    let i = rating_index(once.ratings, place_id, user_id);
    assert(twice.ratings[i] == (RatingView { place_id, user_id, rating: second }));
    assert forall|j: int| 0 <= j < twice.ratings.len() && j != i implies !(#[trigger] twice.ratings[j])
        .is_for(place_id, user_id) by {
        if twice.ratings[j].is_for(place_id, user_id) {
            lemma_rating_index(twice.ratings, place_id, user_id, j);
            lemma_rating_index(twice.ratings, place_id, user_id, i);
        }
    }
}

/// A rating counts once in the mean of its place: a first rating by a user
/// adds its value and one to the count, a later one replaces the value of
/// the earlier, and the ratings of other places stay out of it.
pub proof fn law_rating_counts_once(
    tables: Tables,
    place_id: u128,
    user_id: Seq<char>,
    rating: i32,
    other: u128,
)
    requires
        tables.wf(),
        tables.has_place(place_id),
        other != place_id,
    ensures
        ({
            let after = tables.rate(place_id, user_id, rating);
            &&& match tables.own_rating(place_id, user_id) {
                Some(earlier) => {
                    &&& rating_count(after.ratings, place_id) == rating_count(
                        tables.ratings,
                        place_id,
                    )
                    &&& rating_total(after.ratings, place_id) == rating_total(
                        tables.ratings,
                        place_id,
                    ) - earlier + rating
                },
                None => {
                    &&& rating_count(after.ratings, place_id) == rating_count(
                        tables.ratings,
                        place_id,
                    ) + 1
                    &&& rating_total(after.ratings, place_id) == rating_total(
                        tables.ratings,
                        place_id,
                    ) + rating
                },
            }
            &&& after.average(other) == tables.average(other)
        }),
{
    let row = RatingView { place_id, user_id, rating };
    if rated_by(tables.ratings, place_id, user_id) {
        let i = rating_index(tables.ratings, place_id, user_id);
        lemma_totals_update(tables.ratings, i, row, place_id);
        lemma_totals_update(tables.ratings, i, row, other);
    } else {
        lemma_totals_push(tables.ratings, row, place_id);
        lemma_totals_push(tables.ratings, row, other);
    }
}

/// Ratings by two users do not disturb each other: in whichever order the
/// store takes them, every user's own rating and the mean of every place
/// come out the same.
pub proof fn law_ratings_of_two_users_commute(
    tables: Tables,
    place_id: u128,
    first_user: Seq<char>,
    first: i32,
    second_user: Seq<char>,
    second: i32,
    place: u128,
    user: Seq<char>,
)
    requires
        tables.wf(),
        tables.has_place(place_id),
        first_user != second_user,
    ensures
        ({
            let one_way = tables.rate(place_id, first_user, first).rate(
                place_id,
                second_user,
                second,
            );
            let other_way = tables.rate(place_id, second_user, second).rate(
                place_id,
                first_user,
                first,
            );
            &&& one_way.wf()
            &&& other_way.wf()
            &&& one_way.places == other_way.places
            &&& one_way.own_rating(place, user) == other_way.own_rating(place, user)
            &&& one_way.average(place) == other_way.average(place)
        }),
{
    let a = tables.rate(place_id, first_user, first);
    let b = tables.rate(place_id, second_user, second);
    tables.lemma_rate(place_id, first_user, first);
    tables.lemma_rate(place_id, second_user, second);
    a.lemma_rate(place_id, second_user, second);
    b.lemma_rate(place_id, first_user, first);
    let one_way = a.rate(place_id, second_user, second);
    let other_way = b.rate(place_id, first_user, first);
    assert(a.own_rating(place_id, second_user) == tables.own_rating(place_id, second_user));
    assert(b.own_rating(place_id, first_user) == tables.own_rating(place_id, first_user));
    if place == place_id {
        if user != first_user && user != second_user {
            assert(one_way.own_rating(place, user) == a.own_rating(place, user));
            assert(other_way.own_rating(place, user) == b.own_rating(place, user));
        }
    } else {
        assert(one_way.own_rating(place, user) == a.own_rating(place, user));
        assert(a.own_rating(place, user) == tables.own_rating(place, user));
        assert(other_way.own_rating(place, user) == b.own_rating(place, user));
        assert(b.own_rating(place, user) == tables.own_rating(place, user));
        assert(one_way.average(place) == a.average(place));
        assert(a.average(place) == tables.average(place));
        assert(other_way.average(place) == b.average(place));
        assert(b.average(place) == tables.average(place));
    }
}

/// The places of a well-formed store stand by name ascending, and the rated
/// listing shows the same places in the same order. A listing depends on
/// the state alone, so it repeats while the state stays.
pub proof fn law_listing_is_by_name(tables: Tables, user_id: Seq<char>)
    requires
        tables.wf(),
    ensures
        forall|i: int, j: int|
            0 <= i < j < tables.places.len() ==> !name_lt(
                (#[trigger] tables.places[j]).name,
                (#[trigger] tables.places[i]).name,
            ),
        tables.rated_listing(user_id).len() == tables.places.len(),
        forall|i: int|
            0 <= i < tables.places.len() ==> (#[trigger] tables.rated_listing(user_id)[i]).place
                == tables.places[i],
{
    assert forall|i: int, j: int| 0 <= i < j < tables.places.len() implies !name_lt(
        (#[trigger] tables.places[j]).name,
        (#[trigger] tables.places[i]).name,
    ) by {
        let (a, b) = (tables.places[i], tables.places[j]);
        assert(a.before(b));
        if name_lt(a.name, b.name) && name_lt(b.name, a.name) {
            lemma_lex_lt_transitive(encode_utf8(a.name), encode_utf8(b.name), encode_utf8(a.name));
            lemma_lex_lt_irreflexive(encode_utf8(a.name));
        }
    }
}

/// A place keeps its identifier through an update, and no other place is
/// touched by it.
pub proof fn law_update_keeps_identity(tables: Tables, place: PlaceView, other: u128)
    requires
        tables.wf(),
        place.valid(),
        tables.has_place(place.id),
    ensures
        tables.replace_place(place).wf(),
        tables.replace_place(place).find_place(place.id) == Some(place),
        other != place.id ==> tables.replace_place(place).find_place(other) == tables.find_place(
            other,
        ),
{
    tables.lemma_replace_place(place);
    assert(tables.replace_place(place).find_place(other) == if other == place.id {
        Some(place)
    } else {
        tables.find_place(other)
    });
}

/// Every rating in a well-formed store is of a stored place, also after a
/// place has been deleted.
pub proof fn law_ratings_reference_places(tables: Tables, id: u128, i: int)
    requires
        tables.wf(),
        0 <= i < tables.remove_place(id).ratings.len(),
    ensures
        tables.remove_place(id).ratings[i].place_id != id,
        holds(tables.remove_place(id).places, tables.remove_place(id).ratings[i].place_id),
        !rated_by(tables.remove_place(id).ratings, id, tables.remove_place(id).ratings[i].user_id),
{
    tables.lemma_remove_place(id);
    lemma_cascade(tables.ratings, id);
    let after = tables.remove_place(id);
    let user = after.ratings[i].user_id;
    if rated_by(after.ratings, id, user) {
        let j = rating_index(after.ratings, id, user);
        assert(after.ratings[j].place_id != id);
    }
}

} // verus!
