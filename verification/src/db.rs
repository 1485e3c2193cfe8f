//! The place store and the rating store.

use crate::place::{
    row_to_place_with_rating, Average, Place, PlaceView, PlaceWithRating, PlaceWithRatingView,
    Rating, RatingView, StoreError,
};
use crate::tables::{
    average_in, distinct_ids, distinct_keys, holds, index_of, lemma_index_of, lemma_rating_index,
    lemma_remove_row, lemma_slot_found, lemma_slot_unique, lemma_totals_push, of_other_places,
    rated_by, rating_count, rating_index, rating_total, slot, slot_for, sorted, Tables,
};
use vstd::prelude::*;

verus! {

/// The views of a list of places.
pub open spec fn place_views(rows: Seq<Place>) -> Seq<PlaceView> {
    Seq::new(rows.len(), |i: int| rows[i]@)
}

/// The views of a list of ratings.
pub open spec fn rating_views(rows: Seq<Rating>) -> Seq<RatingView> {
    Seq::new(rows.len(), |i: int| rows[i]@)
}

/// The views of a list of rated places.
pub open spec fn rated_views(rows: Seq<PlaceWithRating>) -> Seq<PlaceWithRatingView> {
    Seq::new(rows.len(), |i: int| rows[i]@)
}

/// What a store of places and ratings offers.
pub trait PlacesDB {
    /// The state of the store.
    spec fn tables(&self) -> Tables;

    /// The place of the identifier.
    fn get_place(&self, id: u128) -> (found: Result<Place, StoreError>)
        requires
            self.tables().wf(),
        ensures
            match self.tables().find_place(id) {
                Some(place) => found matches Ok(p) && p@ == place,
                None => found == Err::<Place, StoreError>(StoreError::NotFound),
            },
    ;

    /// All places, by name.
    fn list_places(&self) -> (listing: Vec<Place>)
        requires
            self.tables().wf(),
        ensures
            place_views(listing@) == self.tables().places,
    ;

    /// Stores a new place. A place that is not valid is refused, and so is
    /// one whose identifier the store already holds.
    fn create_place(&mut self, place: Place) -> (created: Result<Place, StoreError>)
        requires
            old(self).tables().wf(),
        ensures
            final(self).tables().wf(),
            if !place@.valid() {
                &&& created == Err::<Place, StoreError>(StoreError::ValidationError)
                &&& final(self).tables() == old(self).tables()
            } else if old(self).tables().has_place(place.id) {
                &&& created == Err::<Place, StoreError>(StoreError::StoreUnavailable)
                &&& final(self).tables() == old(self).tables()
            } else {
                &&& created matches Ok(p)
                &&& p@ == place@
                &&& final(self).tables() == old(self).tables().insert_place(place@)
                &&& old(self).tables().places_differ_at(
                    final(self).tables(),
                    place.id,
                    Some(place@),
                )
            },
    ;

    /// Replaces the name and the link of the stored place of the same
    /// identifier.
    fn update_place(&mut self, place: Place) -> (updated: Result<Place, StoreError>)
        requires
            old(self).tables().wf(),
        ensures
            final(self).tables().wf(),
            if !place@.valid() {
                &&& updated == Err::<Place, StoreError>(StoreError::ValidationError)
                &&& final(self).tables() == old(self).tables()
            } else if !old(self).tables().has_place(place.id) {
                &&& updated == Err::<Place, StoreError>(StoreError::NotFound)
                &&& final(self).tables() == old(self).tables()
            } else {
                &&& updated matches Ok(p)
                &&& p@ == place@
                &&& final(self).tables() == old(self).tables().replace_place(place@)
                &&& old(self).tables().places_differ_at(
                    final(self).tables(),
                    place.id,
                    Some(place@),
                )
            },
    ;

    /// Removes the place of the identifier, and its ratings with it. Where
    /// there is no such place nothing changes.
    fn delete_place(&mut self, id: u128)
        requires
            old(self).tables().wf(),
        ensures
            final(self).tables().wf(),
            final(self).tables() == old(self).tables().remove_place(id),
            old(self).tables().places_differ_at(final(self).tables(), id, None),
            old(self).tables().ratings_agree_except(final(self).tables(), id),
    ;

    /// Records the user's rating of a place, in place of an earlier one, and
    /// hands back the place.
    fn rate_place(&mut self, place_id: u128, user_id: String, rating: i32) -> (rated: Result<
        Place,
        StoreError,
    >)
        requires
            old(self).tables().wf(),
        ensures
            final(self).tables().wf(),
            match old(self).tables().find_place(place_id) {
                Some(place) => {
                    &&& rated matches Ok(p)
                    &&& p@ == place
                    &&& final(self).tables() == old(self).tables().rate(place_id, user_id@, rating)
                    &&& old(self).tables().rating_recorded(
                        final(self).tables(),
                        place_id,
                        user_id@,
                        rating,
                    )
                    &&& old(self).tables().ratings_agree_except(final(self).tables(), place_id)
                },
                None => {
                    &&& rated == Err::<Place, StoreError>(StoreError::NotFound)
                    &&& final(self).tables() == old(self).tables()
                },
            },
    ;

    /// The place of the identifier with the mean of its ratings and the
    /// user's own.
    fn get_place_with_rating(&self, id: u128, user_id: String) -> (found: Result<
        PlaceWithRating,
        StoreError,
    >)
        requires
            self.tables().wf(),
        ensures
            match self.tables().find_place(id) {
                Some(place) => found matches Ok(p) && p@ == self.tables().rated(place, user_id@),
                None => found == Err::<PlaceWithRating, StoreError>(StoreError::NotFound),
            },
    ;

    /// All places, by name, each with the mean of its ratings and the
    /// user's own.
    fn list_places_with_rating(&self, user_id: String) -> (listing: Vec<PlaceWithRating>)
        requires
            self.tables().wf(),
        ensures
            rated_views(listing@) == self.tables().rated_listing(user_id@),
    ;
}

/// A store of places and ratings, held in memory.
pub struct DB {
    places: Vec<Place>,
    ratings: Vec<Rating>,
}

fn find_index(places: &Vec<Place>, id: u128) -> (found: Option<usize>)
    requires
        distinct_ids(place_views(places@)),
    ensures
        match found {
            Some(i) => i < places.len() && places[i as int].id == id && holds(
                place_views(places@),
                id,
            ) && index_of(place_views(places@), id) == i,
            None => !holds(place_views(places@), id),
        },
{
    let mut i: usize = 0;
    while i < places.len()
        invariant
            i <= places.len(),
            distinct_ids(place_views(places@)),
            forall|j: int| 0 <= j < i ==> places[j].id != id,
        decreases places.len() - i,
    {
        if places[i].id == id {
            proof {
                lemma_index_of(place_views(places@), id, i as int);
            }
            return Some(i);
        }
        i = i + 1;
    }
    proof {
        if holds(place_views(places@), id) {
            let j = index_of(place_views(places@), id);
            assert(places[j].id == id);
        }
    }
    None
}

fn slot_index(places: &Vec<Place>, place: &Place) -> (k: usize)
    requires
        sorted(place_views(places@)),
        !holds(place_views(places@), place.id),
    ensures
        k <= places.len(),
        slot_for(place_views(places@), place@, k as int),
        slot(place_views(places@), place@) == k,
{
    let ghost rows = place_views(places@);
    let mut k: usize = 0;
    while k < places.len() && places[k].listed_before(place)
        invariant
            k <= places.len(),
            rows == place_views(places@),
            forall|j: int| 0 <= j < k ==> (#[trigger] rows[j]).before(place@),
        decreases places.len() - k,
    {
        k = k + 1;
    }
    proof {
        lemma_slot_found(rows, place@, k as int);
        lemma_slot_unique(rows, place@, k as int);
    }
    k
}

fn find_rating(ratings: &Vec<Rating>, place_id: u128, user_id: &String) -> (found: Option<usize>)
    requires
        distinct_keys(rating_views(ratings@)),
    ensures
        match found {
            Some(i) => i < ratings.len() && ratings[i as int]@.is_for(place_id, user_id@)
                && rated_by(rating_views(ratings@), place_id, user_id@) && rating_index(
                rating_views(ratings@),
                place_id,
                user_id@,
            ) == i,
            None => !rated_by(rating_views(ratings@), place_id, user_id@),
        },
{
    let ghost rows = rating_views(ratings@);
    let mut i: usize = 0;
    while i < ratings.len()
        invariant
            i <= ratings.len(),
            rows == rating_views(ratings@),
            distinct_keys(rows),
            forall|j: int| 0 <= j < i ==> !(#[trigger] rows[j]).is_for(place_id, user_id@),
        decreases ratings.len() - i,
    {
        if ratings[i].place_id == place_id && ratings[i].user_id == *user_id {
            proof {
                assert(rows[i as int].is_for(place_id, user_id@));
                lemma_rating_index(rows, place_id, user_id@, i as int);
            }
            return Some(i);
        }
        i = i + 1;
    }
    None
}

fn average_of(ratings: &Vec<Rating>, place_id: u128) -> (average: Option<Average>)
    ensures
        match average {
            Some(a) => average_in(rating_views(ratings@), place_id) == Some(a@),
            None => average_in(rating_views(ratings@), place_id) is None,
        },
{
    let ghost rows = rating_views(ratings@);
    let mut total: i128 = 0;
    let mut count: u64 = 0;
    let mut i: usize = 0;
    while i < ratings.len()
        invariant
            i <= ratings.len(),
            rows == rating_views(ratings@),
            total == rating_total(rows.take(i as int), place_id),
            count == rating_count(rows.take(i as int), place_id),
            count <= i,
            -0x8000_0000 * i <= total <= 0x8000_0000 * i,
        decreases ratings.len() - i,
    {
        proof {
            assert(rows.take(i + 1) =~= rows.take(i as int).push(rows[i as int]));
            lemma_totals_push(rows.take(i as int), rows[i as int], place_id);
        }
        if ratings[i].place_id == place_id {
            total = total + ratings[i].rating as i128;
            count = count + 1;
        }
        i = i + 1;
    }
    proof {
        assert(rows.take(i as int) =~= rows);
    }
    if count == 0 {
        None
    } else {
        Some(Average { total, count })
    }
}

impl DB {
    /// A store without places and without ratings.
    pub fn new_db() -> (db: DB)
        ensures
            db.tables() == Tables::empty(),
            db.tables().wf(),
    {
        let db = DB { places: Vec::new(), ratings: Vec::new() };
        proof {
            assert(db.tables().places =~= Seq::empty());
            assert(db.tables().ratings =~= Seq::empty());
        }
        db
    }

    fn rated(&self, place: &Place, user_id: &String) -> (rated: PlaceWithRating)
        requires
            self.tables().wf(),
        ensures
            rated@ == self.tables().rated(place@, user_id@),
    {
        let average = average_of(&self.ratings, place.id);
        let own = match find_rating(&self.ratings, place.id, user_id) {
            Some(i) => Some(self.ratings[i].rating),
            None => None,
        };
        row_to_place_with_rating(place.duplicate(), average, own)
    }
}

impl PlacesDB for DB {
    closed spec fn tables(&self) -> Tables {
        Tables { places: place_views(self.places@), ratings: rating_views(self.ratings@) }
    }

    fn get_place(&self, id: u128) -> (found: Result<Place, StoreError>) {
        match find_index(&self.places, id) {
            Some(i) => Ok(self.places[i].duplicate()),
            None => Err(StoreError::NotFound),
        }
    }

    fn list_places(&self) -> (listing: Vec<Place>) {
        let mut listing: Vec<Place> = Vec::new();
        let mut i: usize = 0;
        while i < self.places.len()
            invariant
                i <= self.places.len(),
                listing.len() == i,
                forall|j: int| 0 <= j < i ==> listing[j]@ == self.places[j]@,
            decreases self.places.len() - i,
        {
            listing.push(self.places[i].duplicate());
            i = i + 1;
        }
        proof {
            assert(place_views(listing@) =~= self.tables().places);
        }
        listing
    }

    fn create_place(&mut self, place: Place) -> (created: Result<Place, StoreError>) {
        if !place.is_valid() {
            return Err(StoreError::ValidationError);
        }
        if find_index(&self.places, place.id).is_some() {
            return Err(StoreError::StoreUnavailable);
        }
        let stored = place.duplicate();
        let k = slot_index(&self.places, &place);
        proof {
            old(self).tables().lemma_insert_place(place@);
        }
        self.places.insert(k, place);
        proof {
            assert(self.tables().places =~= old(self).tables().places.insert(k as int, stored@));
        }
        Ok(stored)
    }

    fn update_place(&mut self, place: Place) -> (updated: Result<Place, StoreError>) {
        if !place.is_valid() {
            return Err(StoreError::ValidationError);
        }
        let i = match find_index(&self.places, place.id) {
            Some(i) => i,
            None => {
                return Err(StoreError::NotFound);
            },
        };
        let stored = place.duplicate();
        let ghost rows = old(self).tables().places;
        proof {
            old(self).tables().lemma_replace_place(place@);
            lemma_remove_row(rows, i as int);
        }
        self.places.remove(i);
        proof {
            assert(place_views(self.places@) =~= rows.remove(i as int));
        }
        let k = slot_index(&self.places, &place);
        self.places.insert(k, place);
        proof {
            assert(self.tables().places =~= rows.remove(i as int).insert(k as int, stored@));
        }
        Ok(stored)
    }

    fn delete_place(&mut self, id: u128) {
        proof {
            old(self).tables().lemma_remove_place(id);
        }
        match find_index(&self.places, id) {
            Some(i) => {
                self.places.remove(i);
                proof {
                    assert(place_views(self.places@) =~= old(self).tables().places.remove(
                        i as int,
                    ));
                }
            },
            None => {},
        }
        let ghost rows = old(self).tables().ratings;
        let mut kept: Vec<Rating> = Vec::new();
        let mut i: usize = 0;
        while i < self.ratings.len()
            invariant
                i <= self.ratings.len(),
                self.ratings == old(self).ratings,
                rows == rating_views(self.ratings@),
                rating_views(kept@) == rows.take(i as int).filter(of_other_places(id)),
            decreases self.ratings.len() - i,
        {
            proof {
                reveal(Seq::filter);
                assert(rows.take(i + 1).drop_last() =~= rows.take(i as int));
            }
            if self.ratings[i].place_id != id {
                let ghost before = rating_views(kept@);
                kept.push(
                    Rating {
                        place_id: self.ratings[i].place_id,
                        user_id: self.ratings[i].user_id.clone(),
                        rating: self.ratings[i].rating,
                    },
                );
                proof {
                    assert(rating_views(kept@) =~= before.push(rows[i as int]));
                }
            }
            i = i + 1;
        }
        proof {
            assert(rows.take(i as int) =~= rows);
        }
        self.ratings = kept;
    }

    fn rate_place(&mut self, place_id: u128, user_id: String, rating: i32) -> (rated: Result<
        Place,
        StoreError,
    >) {
        let place = match find_index(&self.places, place_id) {
            Some(i) => self.places[i].duplicate(),
            None => {
                return Err(StoreError::NotFound);
            },
        };
        let ghost rows = old(self).tables().ratings;
        let ghost row = RatingView { place_id, user_id: user_id@, rating };
        proof {
            old(self).tables().lemma_rate(place_id, user_id@, rating);
        }
        match find_rating(&self.ratings, place_id, &user_id) {
            Some(i) => {
                self.ratings.set(i, Rating { place_id, user_id, rating });
                proof {
                    assert(rating_views(self.ratings@) =~= rows.update(i as int, row));
                }
            },
            None => {
                self.ratings.push(Rating { place_id, user_id, rating });
                proof {
                    assert(rating_views(self.ratings@) =~= rows.push(row));
                }
            },
        }
        Ok(place)
    }

    fn get_place_with_rating(&self, id: u128, user_id: String) -> (found: Result<
        PlaceWithRating,
        StoreError,
    >) {
        match find_index(&self.places, id) {
            Some(i) => Ok(self.rated(&self.places[i], &user_id)),
            None => Err(StoreError::NotFound),
        }
    }

    fn list_places_with_rating(&self, user_id: String) -> (listing: Vec<PlaceWithRating>) {
        let mut listing: Vec<PlaceWithRating> = Vec::new();
        let mut i: usize = 0;
        while i < self.places.len()
            invariant
                i <= self.places.len(),
                self.tables().wf(),
                listing.len() == i,
                forall|j: int|
                    0 <= j < i ==> listing[j]@ == self.tables().rated(self.places[j]@, user_id@),
            decreases self.places.len() - i,
        {
            listing.push(self.rated(&self.places[i], &user_id));
            i = i + 1;
        }
        proof {
            assert(rated_views(listing@) =~= self.tables().rated_listing(user_id@));
        }
        listing
    }
}

} // verus!
