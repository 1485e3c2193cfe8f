//! Places, ratings, and the view of a place that carries its ratings.

use crate::boundary::{is_random_uuid, random_id};
use crate::order::{
    lemma_lex_lt_irreflexive, lemma_lex_lt_total, lemma_lex_lt_transitive, lex_lt, name_before,
    name_lt,
};
use vstd::prelude::*;
use vstd::utf8::encode_utf8;

verus! {

/// Why a store operation failed.
#[derive(Clone, Copy, Debug, PartialEq, Eq)]
pub enum StoreError {
    /// No place of the given identifier exists.
    NotFound,
    /// A place without identity, name or link was offered.
    ValidationError,
    /// The store could not take the record.
    StoreUnavailable,
}

impl StoreError {
    /// The status of each error: not found, bad request, service unavailable.
    pub open spec fn spec_status(self) -> u16 {
        match self {
            StoreError::NotFound => 404,
            StoreError::ValidationError => 400,
            StoreError::StoreUnavailable => 503,
        }
    }

    /// The HTTP status under which the error is reported.
    pub fn status(&self) -> (status: u16)
        ensures
            status == self.spec_status(),
    {
        match self {
            StoreError::NotFound => 404,
            StoreError::ValidationError => 400,
            StoreError::StoreUnavailable => 503,
        }
    }
}

/// A place that users can browse and rate.
#[derive(Clone, Debug, PartialEq, Eq)]
pub struct Place {
    /// The 128 bits of the place's UUID; never zero for a stored place.
    pub id: u128,
    pub name: String,
    pub maps_link: String,
}

/// A place as plain values.
pub struct PlaceView {
    pub id: u128,
    pub name: Seq<char>,
    pub maps_link: Seq<char>,
}

impl View for Place {
    type V = PlaceView;

    open spec fn view(&self) -> PlaceView {
        PlaceView { id: self.id, name: self.name@, maps_link: self.maps_link@ }
    }
}

impl PlaceView {
    /// A place has an identity, a name and a link.
    pub open spec fn valid(self) -> bool {
        self.id != 0 && self.name.len() > 0 && self.maps_link.len() > 0
    }

    /// The listing order: by name, and by identifier among equal names.
    pub open spec fn before(self, other: PlaceView) -> bool {
        name_lt(self.name, other.name) || (!name_lt(other.name, self.name) && self.id < other.id)
    }
}

/// No place comes before itself, and of two places at most one comes before
/// the other.
pub proof fn lemma_before_asymmetric(a: PlaceView, b: PlaceView)
    requires
        a.before(b),
    ensures
        !b.before(a),
{
    if name_lt(a.name, b.name) && name_lt(b.name, a.name) {
        lemma_lex_lt_transitive(encode_utf8(a.name), encode_utf8(b.name), encode_utf8(a.name));
        lemma_lex_lt_irreflexive(encode_utf8(a.name));
    }
}

/// The listing order is transitive.
pub proof fn lemma_before_transitive(a: PlaceView, b: PlaceView, c: PlaceView)
    requires
        a.before(b),
        b.before(c),
    ensures
        a.before(c),
{
    let (x, y, z) = (encode_utf8(a.name), encode_utf8(b.name), encode_utf8(c.name));
    lemma_lex_lt_total(x, y);
    lemma_lex_lt_total(y, z);
    lemma_lex_lt_total(x, z);
    lemma_lex_lt_irreflexive(x);
    lemma_lex_lt_irreflexive(y);
    lemma_lex_lt_irreflexive(z);
    if lex_lt(x, y) && lex_lt(y, z) {
        lemma_lex_lt_transitive(x, y, z);
    }
    if lex_lt(z, x) && lex_lt(x, y) {
        lemma_lex_lt_transitive(z, x, y);
    }
    if lex_lt(y, z) && lex_lt(z, x) {
        lemma_lex_lt_transitive(y, z, x);
    }
}

/// Two places of different identifiers are strictly ordered.
pub proof fn lemma_before_total(a: PlaceView, b: PlaceView)
    requires
        a.id != b.id,
    ensures
        a.before(b) || b.before(a),
{
}

impl Place {
    /// A new place under a random identifier. A place without a name or
    /// without a link is refused.
    pub fn new(name: String, maps_link: String) -> (made: Result<Place, StoreError>)
        ensures
            made is Ok <==> name@.len() > 0 && maps_link@.len() > 0,
            made matches Ok(place) ==> {
                &&& is_random_uuid(place.id)
                &&& place@.valid()
                &&& place.name@ == name@
                &&& place.maps_link@ == maps_link@
            },
            made matches Err(error) ==> error == StoreError::ValidationError,
    {
        let id = random_id();
        assert(id != 0) by (bit_vector)
            requires
                id & 0x0000_0000_0000_f000_c000_0000_0000_0000
                    == 0x0000_0000_0000_4000_8000_0000_0000_0000,
        ;
        Place::with_id(id, name, maps_link)
    }

    /// The place of the given identifier, name and link, where these make a
    /// valid place.
    pub fn with_id(id: u128, name: String, maps_link: String) -> (made: Result<Place, StoreError>)
        ensures
            made is Ok <==> (PlaceView { id, name: name@, maps_link: maps_link@ }).valid(),
            made matches Ok(place) ==> place@ == (PlaceView {
                id,
                name: name@,
                maps_link: maps_link@,
            }),
            made matches Err(error) ==> error == StoreError::ValidationError,
    {
        let place = Place { id, name, maps_link };
        if place.is_valid() {
            Ok(place)
        } else {
            Err(StoreError::ValidationError)
        }
    }

    /// Whether the place has an identity, a name and a link.
    pub fn is_valid(&self) -> (valid: bool)
        ensures
            valid == self@.valid(),
    {
        self.id != 0 && !self.name.as_str().is_empty() && !self.maps_link.as_str().is_empty()
    }

    /// A copy of the place.
    pub fn duplicate(&self) -> (copy: Place)
        ensures
            copy@ == self@,
    {
        Place { id: self.id, name: self.name.clone(), maps_link: self.maps_link.clone() }
    }

    /// Whether this place is listed before `other`.
    pub fn listed_before(&self, other: &Place) -> (before: bool)
        ensures
            before == self@.before(other@),
    {
        if name_before(&self.name, &other.name) {
            true
        } else if name_before(&other.name, &self.name) {
            false
        } else {
            self.id < other.id
        }
    }
}

/// One user's rating of one place. A user has at most one rating of a place.
#[derive(Clone, Debug, PartialEq, Eq)]
pub struct Rating {
    pub place_id: u128,
    pub user_id: String,
    pub rating: i32,
}

/// A rating as plain values.
pub struct RatingView {
    pub place_id: u128,
    pub user_id: Seq<char>,
    pub rating: i32,
}

impl View for Rating {
    type V = RatingView;

    open spec fn view(&self) -> RatingView {
        RatingView { place_id: self.place_id, user_id: self.user_id@, rating: self.rating }
    }
}

impl RatingView {
    /// Whether this is the rating that `user_id` gave to `place_id`.
    pub open spec fn is_for(self, place_id: u128, user_id: Seq<char>) -> bool {
        self.place_id == place_id && self.user_id == user_id
    }
}

/// The mean of the ratings of a place, kept exact as their sum and their
/// number. Where nobody has rated the place both are zero, which stands for
/// a mean of zero.
#[derive(Clone, Copy, Debug, PartialEq, Eq)]
pub struct Average {
    pub total: i128,
    pub count: u64,
}

impl Average {
    /// The mean that an aggregate over the ratings of a place describes: its
    /// sum and its count, where at least one rating was counted.
    pub open spec fn spec_from_row(total: Option<i64>, count: Option<i64>) -> Option<Average> {
        match (total, count) {
            (Some(total), Some(count)) => if count > 0 {
                Some(Average { total: total as i128, count: count as u64 })
            } else {
                None
            },
            _ => None,
        }
    }

    /// The mean that a row of an aggregate query holds. The sum and the count
    /// are absent for a place without ratings.
    pub fn from_row(total: Option<i64>, count: Option<i64>) -> (average: Option<Average>)
        ensures
            average == Average::spec_from_row(total, count),
    {
        match (total, count) {
            (Some(total), Some(count)) => if count > 0 {
                Some(Average { total: total as i128, count: count as u64 })
            } else {
                None
            },
            _ => None,
        }
    }
}

/// A place together with the mean of all its ratings and the rating of the
/// user who asks; zero where that user has not rated it.
#[derive(Clone, Debug, PartialEq, Eq)]
pub struct PlaceWithRating {
    pub place: Place,
    pub average_rating: Average,
    pub own_rating: i32,
}

/// A mean as the sum and the number of what it is the mean of.
pub struct AverageView {
    pub total: int,
    pub count: nat,
}

impl View for Average {
    type V = AverageView;

    open spec fn view(&self) -> AverageView {
        AverageView { total: self.total as int, count: self.count as nat }
    }
}

/// A rated place as plain values.
pub struct PlaceWithRatingView {
    pub place: PlaceView,
    pub average_rating: AverageView,
    pub own_rating: i32,
}

impl View for PlaceWithRating {
    type V = PlaceWithRatingView;

    open spec fn view(&self) -> PlaceWithRatingView {
        PlaceWithRatingView {
            place: self.place@,
            average_rating: self.average_rating@,
            own_rating: self.own_rating,
        }
    }
}

/// A place with its ratings, as joined rows give it: a place without ratings
/// has no mean, and a user without a rating has none of their own. Both
/// default to zero.
pub open spec fn joined(place: PlaceView, average: Option<AverageView>, own: Option<i32>)
    -> PlaceWithRatingView {
    PlaceWithRatingView {
        place,
        average_rating: match average {
            Some(average) => average,
            None => AverageView { total: 0, count: 0 },
        },
        own_rating: match own {
            Some(rating) => rating,
            None => 0,
        },
    }
}

/// The one row that a query by identifier gives, or `NotFound` where it
/// gives none.
pub fn found<T>(rows: Vec<T>) -> (row: Result<T, StoreError>)
    ensures
        match row {
            Ok(first) => rows@.len() > 0 && first == rows@[0],
            Err(error) => rows@.len() == 0 && error == StoreError::NotFound,
        },
{
    let mut rows = rows;
    if rows.len() == 0 {
        Err(StoreError::NotFound)
    } else {
        Ok(rows.swap_remove(0))
    }
}

/// The place that a row of the places table holds.
pub fn row_to_place(id: u128, name: String, maps_link: String) -> (place: Place)
    ensures
        place@ == (PlaceView { id, name: name@, maps_link: maps_link@ }),
{
    Place { id, name, maps_link }
}

/// The rated place that a row of the join of places and ratings holds.
pub fn row_to_place_with_rating(place: Place, average: Option<Average>, own: Option<i32>) -> (rated:
    PlaceWithRating)
    ensures
        rated@ == joined(
            place@,
            match average {
                Some(average) => Some(average@),
                None => None,
            },
            own,
        ),
{
    PlaceWithRating {
        place,
        average_rating: match average {
            Some(average) => average,
            None => Average { total: 0, count: 0 },
        },
        own_rating: match own {
            Some(rating) => rating,
            None => 0,
        },
    }
}

} // verus!
