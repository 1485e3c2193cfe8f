//! The two tables of the store as sequences of rows: what a well-formed
//! store is, what each operation makes of it, and why the operations keep it
//! well formed.

use crate::place::{
    joined, lemma_before_asymmetric, lemma_before_total, lemma_before_transitive, AverageView,
    PlaceView, PlaceWithRatingView, RatingView,
};
use vstd::prelude::*;

verus! {

/// The rows are in listing order.
pub open spec fn sorted(rows: Seq<PlaceView>) -> bool {
    forall|i: int, j: int| 0 <= i < j < rows.len() ==> rows[i].before(rows[j])
}

/// No two rows share an identifier.
pub open spec fn distinct_ids(rows: Seq<PlaceView>) -> bool {
    forall|i: int, j: int| 0 <= i < j < rows.len() ==> rows[i].id != rows[j].id
}

/// Some row has the identifier.
pub open spec fn holds(rows: Seq<PlaceView>, id: u128) -> bool {
    exists|i: int| 0 <= i < rows.len() && rows[i].id == id
}

/// The index of the row with the identifier.
pub open spec fn index_of(rows: Seq<PlaceView>, id: u128) -> int {
    choose|i: int| 0 <= i < rows.len() && rows[i].id == id
}

/// Whether a place fits at index `k`: every row in front of it comes before
/// the place, and the place comes before every row from `k` on.
pub open spec fn slot_for(rows: Seq<PlaceView>, place: PlaceView, k: int) -> bool {
    &&& 0 <= k <= rows.len()
    &&& forall|j: int| 0 <= j < k ==> (#[trigger] rows[j]).before(place)
    &&& forall|j: int| k <= j < rows.len() ==> place.before(#[trigger] rows[j])
}

/// The index at which a place keeps the rows in listing order.
pub open spec fn slot(rows: Seq<PlaceView>, place: PlaceView) -> int {
    choose|k: int| slot_for(rows, place, k)
}

/// No two rows are ratings of one place by one user.
pub open spec fn distinct_keys(rows: Seq<RatingView>) -> bool {
    forall|i: int, j: int|
        0 <= i < j < rows.len() ==> !(#[trigger] rows[i]).is_for(
            (#[trigger] rows[j]).place_id,
            rows[j].user_id,
        )
}

/// Some row is the rating of the place by the user.
pub open spec fn rated_by(rows: Seq<RatingView>, place_id: u128, user_id: Seq<char>) -> bool {
    exists|i: int| 0 <= i < rows.len() && (#[trigger] rows[i]).is_for(place_id, user_id)
}

/// The index of the rating of the place by the user.
pub open spec fn rating_index(rows: Seq<RatingView>, place_id: u128, user_id: Seq<char>) -> int {
    choose|i: int| 0 <= i < rows.len() && (#[trigger] rows[i]).is_for(place_id, user_id)
}

/// The sum of the ratings of a place.
pub open spec fn rating_total(rows: Seq<RatingView>, place_id: u128) -> int
    decreases rows.len(),
{
    if rows.len() == 0 {
        0
    } else if rows.last().place_id == place_id {
        rating_total(rows.drop_last(), place_id) + rows.last().rating
    } else {
        rating_total(rows.drop_last(), place_id)
    }
}

/// The number of ratings of a place.
pub open spec fn rating_count(rows: Seq<RatingView>, place_id: u128) -> nat
    decreases rows.len(),
{
    if rows.len() == 0 {
        0
    } else if rows.last().place_id == place_id {
        rating_count(rows.drop_last(), place_id) + 1
    } else {
        rating_count(rows.drop_last(), place_id)
    }
}

/// The rating that the user gave to the place, if any.
pub open spec fn own_in(rows: Seq<RatingView>, place_id: u128, user_id: Seq<char>) -> Option<i32> {
    if rated_by(rows, place_id, user_id) {
        Some(rows[rating_index(rows, place_id, user_id)].rating)
    } else {
        None
    }
}

/// The mean of the ratings of a place, if it has any.
pub open spec fn average_in(rows: Seq<RatingView>, place_id: u128) -> Option<AverageView> {
    if rating_count(rows, place_id) == 0 {
        None
    } else {
        Some(
            AverageView { total: rating_total(rows, place_id), count: rating_count(rows, place_id) },
        )
    }
}

/// The ratings that stay when a place goes.
pub open spec fn of_other_places(id: u128) -> spec_fn(RatingView) -> bool {
    |row: RatingView| row.place_id != id
}

/// The state of the store: the places in listing order, and the ratings.
pub struct Tables {
    pub places: Seq<PlaceView>,
    pub ratings: Seq<RatingView>,
}

impl Tables {
    /// The store without places and without ratings.
    pub open spec fn empty() -> Tables {
        Tables { places: Seq::empty(), ratings: Seq::empty() }
    }

    /// What holds of every state of the store: each place is valid, the
    /// places are in listing order under distinct identifiers, a user has at
    /// most one rating of a place, and every rating is of a stored place.
    pub open spec fn wf(self) -> bool {
        &&& forall|i: int| 0 <= i < self.places.len() ==> (#[trigger] self.places[i]).valid()
        &&& sorted(self.places)
        &&& distinct_ids(self.places)
        &&& distinct_keys(self.ratings)
        &&& forall|i: int|
            0 <= i < self.ratings.len() ==> holds(self.places, (#[trigger] self.ratings[i]).place_id)
    }

    /// Whether the store holds a place of the identifier.
    pub open spec fn has_place(self, id: u128) -> bool {
        holds(self.places, id)
    }

    /// The place of the identifier, if the store has one.
    pub open spec fn find_place(self, id: u128) -> Option<PlaceView> {
        if holds(self.places, id) {
            Some(self.places[index_of(self.places, id)])
        } else {
            None
        }
    }

    /// The store with one more place, put where the listing order wants it.
    pub open spec fn insert_place(self, place: PlaceView) -> Tables {
        Tables { places: self.places.insert(slot(self.places, place), place), ratings: self.ratings }
    }

    /// The store with the place of that identifier replaced; the place moves
    /// to where its new name belongs.
    pub open spec fn replace_place(self, place: PlaceView) -> Tables {
        let others = self.places.remove(index_of(self.places, place.id));
        Tables { places: others.insert(slot(others, place), place), ratings: self.ratings }
    }

    /// The store without the place of that identifier and without its
    /// ratings.
    pub open spec fn remove_place(self, id: u128) -> Tables {
        Tables {
            places: if holds(self.places, id) {
                self.places.remove(index_of(self.places, id))
            } else {
                self.places
            },
            ratings: self.ratings.filter(of_other_places(id)),
        }
    }

    /// The store after a user has rated a place: an earlier rating by that
    /// user is overwritten, otherwise a row is added.
    pub open spec fn rate(self, place_id: u128, user_id: Seq<char>, rating: i32) -> Tables {
        let row = RatingView { place_id, user_id, rating };
        Tables {
            places: self.places,
            ratings: if rated_by(self.ratings, place_id, user_id) {
                self.ratings.update(rating_index(self.ratings, place_id, user_id), row)
            } else {
                self.ratings.push(row)
            },
        }
    }

    /// The rating that the user gave to the place, if any.
    pub open spec fn own_rating(self, place_id: u128, user_id: Seq<char>) -> Option<i32> {
        own_in(self.ratings, place_id, user_id)
    }

    /// The mean of the ratings of the place, if it has any.
    pub open spec fn average(self, place_id: u128) -> Option<AverageView> {
        average_in(self.ratings, place_id)
    }

    /// Whether `after` holds the same places as this store but for the
    /// identifier `id`, under which it holds `place`, or nothing.
    pub open spec fn places_differ_at(self, after: Tables, id: u128, place: Option<PlaceView>)
        -> bool {
        forall|other: u128| #[trigger]
            after.find_place(other) == if other == id {
                place
            } else {
                self.find_place(other)
            }
    }

    /// Whether `after` shows the same ratings as this store for every place
    /// but `id`: each user's own, and the mean.
    pub open spec fn ratings_agree_except(self, after: Tables, id: u128) -> bool {
        &&& forall|place: u128, user: Seq<char>|
            place != id ==> #[trigger] after.own_rating(place, user) == self.own_rating(place, user)
        &&& forall|place: u128| place != id ==> #[trigger] after.average(place) == self.average(place)
    }

    /// Whether `after` is this store with the user's rating of the place
    /// recorded: it is the user's own rating now, it counts once in the sum
    /// and the number of the place's ratings, and no other user's rating of
    /// the place has changed.
    pub open spec fn rating_recorded(
        self,
        after: Tables,
        place_id: u128,
        user_id: Seq<char>,
        rating: i32,
    ) -> bool {
        &&& after.own_rating(place_id, user_id) == Some(rating)
        &&& forall|user: Seq<char>|
            user != user_id ==> #[trigger] after.own_rating(place_id, user) == self.own_rating(
                place_id,
                user,
            )
        &&& match self.own_rating(place_id, user_id) {
            Some(earlier) => {
                &&& rating_count(after.ratings, place_id) == rating_count(self.ratings, place_id)
                &&& rating_total(after.ratings, place_id) == rating_total(self.ratings, place_id)
                    - earlier + rating
            },
            None => {
                &&& rating_count(after.ratings, place_id) == rating_count(self.ratings, place_id)
                    + 1
                &&& rating_total(after.ratings, place_id) == rating_total(self.ratings, place_id)
                    + rating
            },
        }
    }

    /// A place with its ratings, as the user sees it.
    pub open spec fn rated(self, place: PlaceView, user_id: Seq<char>) -> PlaceWithRatingView {
        joined(place, self.average(place.id), self.own_rating(place.id, user_id))
    }

    /// All places, in listing order, as the user sees them.
    pub open spec fn rated_listing(self, user_id: Seq<char>) -> Seq<PlaceWithRatingView> {
        Seq::new(self.places.len(), |i: int| self.rated(self.places[i], user_id))
    }
}

/// Under distinct identifiers a row is found at its own index.
pub proof fn lemma_index_of(rows: Seq<PlaceView>, id: u128, i: int)
    requires
        distinct_ids(rows),
        0 <= i < rows.len(),
        rows[i].id == id,
    ensures
        holds(rows, id),
        index_of(rows, id) == i,
{
}

/// A place fits at one index only.
pub proof fn lemma_slot_unique(rows: Seq<PlaceView>, place: PlaceView, k: int)
    requires
        slot_for(rows, place, k),
    ensures
        slot(rows, place) == k,
{
    let c = slot(rows, place);
    assert(slot_for(rows, place, c));
    if c < k {
        lemma_before_asymmetric(rows[c], place);
    } else if k < c {
        lemma_before_asymmetric(rows[k], place);
    }
}

/// A place of a new identifier fits somewhere among rows in listing order.
pub proof fn lemma_slot_exists(rows: Seq<PlaceView>, place: PlaceView)
    requires
        sorted(rows),
        !holds(rows, place.id),
    ensures
        slot_for(rows, place, slot(rows, place)),
    decreases rows.len(),
{
    if rows.len() == 0 {
        assert(slot_for(rows, place, 0));
    } else {
        let front = rows.drop_last();
        let last = rows.last();
        assert(forall|i: int| 0 <= i < front.len() ==> front[i] == rows[i]);
        assert(!holds(front, place.id)) by {
            if holds(front, place.id) {
                let i = index_of(front, place.id);
                assert(rows[i].id == place.id);
            }
        }
        lemma_slot_exists(front, place);
        let k = slot(front, place);
        assert(rows[rows.len() - 1].id != place.id);
        if k < front.len() {
            assert(place.before(front[k]));
            lemma_before_transitive(place, rows[k], last);
            assert(slot_for(rows, place, k));
        } else {
            lemma_before_total(last, place);
            if last.before(place) {
                assert(slot_for(rows, place, rows.len() as int));
            } else {
                assert(slot_for(rows, place, rows.len() - 1));
            }
        }
    }
}

/// Putting a place where it fits keeps the rows in order and their
/// identifiers distinct, and adds that place and no other.
pub proof fn lemma_insert_row(rows: Seq<PlaceView>, place: PlaceView, k: int)
    requires
        sorted(rows),
        distinct_ids(rows),
        !holds(rows, place.id),
        slot_for(rows, place, k),
    ensures
        sorted(rows.insert(k, place)),
        distinct_ids(rows.insert(k, place)),
        rows.insert(k, place).len() == rows.len() + 1,
        rows.insert(k, place)[k] == place,
        forall|id: u128|
            holds(rows.insert(k, place), id) <==> (#[trigger] holds(rows, id) || id == place.id),
{
    let grown = rows.insert(k, place);
    rows.insert_ensures(k, place);
    assert forall|i: int| k < i < grown.len() implies grown[i] == rows[i - 1] by {
        assert(grown[(i - 1) + 1] == rows[i - 1]);
    }
    assert forall|id: u128|
        holds(grown, id) <==> (#[trigger] holds(rows, id) || id == place.id) by {
        if holds(rows, id) {
            let i = index_of(rows, id);
            if i < k {
                assert(grown[i].id == id);
            } else {
                assert(grown[i + 1].id == id);
            }
        }
        if id == place.id {
            assert(grown[k].id == id);
        }
        if holds(grown, id) {
            let j = index_of(grown, id);
            if j < k {
                assert(rows[j].id == id);
            } else if j > k {
                assert(rows[j - 1].id == id);
            }
        }
    }
}

/// Taking a row out keeps the rest in order and their identifiers distinct,
/// and removes that place and no other.
pub proof fn lemma_remove_row(rows: Seq<PlaceView>, i: int)
    requires
        sorted(rows),
        distinct_ids(rows),
        0 <= i < rows.len(),
    ensures
        sorted(rows.remove(i)),
        distinct_ids(rows.remove(i)),
        rows.remove(i).len() == rows.len() - 1,
        forall|id: u128|
            #[trigger] holds(rows.remove(i), id) <==> (holds(rows, id) && id != rows[i].id),
{
    let rest = rows.remove(i);
    rows.remove_ensures(i);
    assert forall|id: u128|
        #[trigger] holds(rest, id) <==> (holds(rows, id) && id != rows[i].id) by {
        if holds(rows, id) && id != rows[i].id {
            let j = index_of(rows, id);
            if j < i {
                assert(rest[j].id == id);
            } else {
                assert(rest[j - 1].id == id);
            }
        }
        if holds(rest, id) {
            let j = index_of(rest, id);
            if j < i {
                assert(rows[j].id == id);
            } else {
                assert(rows[j + 1].id == id);
            }
        }
    }
}

/// Under distinct keys a rating is found at its own index.
pub proof fn lemma_rating_index(rows: Seq<RatingView>, place_id: u128, user_id: Seq<char>, i: int)
    requires
        distinct_keys(rows),
        0 <= i < rows.len(),
        rows[i].is_for(place_id, user_id),
    ensures
        rated_by(rows, place_id, user_id),
        rating_index(rows, place_id, user_id) == i,
{
    let c = rating_index(rows, place_id, user_id);
    assert(rows[c].is_for(place_id, user_id));
    if c < i {
        assert(!rows[c].is_for(rows[i].place_id, rows[i].user_id));
    } else if i < c {
        assert(!rows[i].is_for(rows[c].place_id, rows[c].user_id));
    }
}

/// The first index whose row does not come before the place is where the
/// place fits.
pub proof fn lemma_slot_found(rows: Seq<PlaceView>, place: PlaceView, k: int)
    requires
        sorted(rows),
        !holds(rows, place.id),
        0 <= k <= rows.len(),
        forall|j: int| 0 <= j < k ==> (#[trigger] rows[j]).before(place),
        k < rows.len() ==> !rows[k].before(place),
    ensures
        slot_for(rows, place, k),
{
    assert forall|j: int| k <= j < rows.len() implies place.before(#[trigger] rows[j]) by {
        assert(rows[k].id != place.id);
        lemma_before_total(rows[k], place);
        if k < j {
            lemma_before_transitive(place, rows[k], rows[j]);
        }
    }
}

/// Dropping the ratings of one place keeps the keys of the others distinct,
/// keeps no rating of that place, and keeps nothing that was not there.
pub proof fn lemma_cascade(rows: Seq<RatingView>, id: u128)
    requires
        distinct_keys(rows),
    ensures
        distinct_keys(rows.filter(of_other_places(id))),
        forall|k: int|
            0 <= k < rows.filter(of_other_places(id)).len() ==> {
                let row = #[trigger] rows.filter(of_other_places(id))[k];
                row.place_id != id && rows.contains(row)
            },
    decreases rows.len(),
{
    reveal(Seq::filter);
    let kept = rows.filter(of_other_places(id));
    if rows.len() > 0 {
        let front = rows.drop_last();
        let last = rows.last();
        assert(forall|i: int| 0 <= i < front.len() ==> front[i] == rows[i]);
        lemma_cascade(front, id);
        let kept_front = front.filter(of_other_places(id));
        assert forall|k: int| 0 <= k < kept.len() implies {
            let row = #[trigger] kept[k];
            row.place_id != id && rows.contains(row)
        } by {
            if k < kept_front.len() {
                let row = kept_front[k];
                assert(front.contains(row));
                let j = choose|j: int| 0 <= j < front.len() && front[j] == row;
                assert(rows[j] == row);
            } else {
                assert(kept[k] == last);
                assert(rows[rows.len() - 1] == last);
            }
        }
        assert forall|a: int, b: int| 0 <= a < b < kept.len() implies !(#[trigger] kept[a]).is_for(
            (#[trigger] kept[b]).place_id,
            kept[b].user_id,
        ) by {
            if b == kept_front.len() {
                let row = kept_front[a];
                assert(front.contains(row));
                let j = choose|j: int| 0 <= j < front.len() && front[j] == row;
                assert(!rows[j].is_for(last.place_id, last.user_id));
            }
        }
    }
}

/// Dropping the ratings of one place leaves the ratings of every other place
/// as they were: each user's own, and their mean.
pub proof fn lemma_cascade_others(
    rows: Seq<RatingView>,
    id: u128,
    place_id: u128,
    user_id: Seq<char>,
)
    requires
        distinct_keys(rows),
        place_id != id,
    ensures
        own_in(rows.filter(of_other_places(id)), place_id, user_id) == own_in(
            rows,
            place_id,
            user_id,
        ),
        average_in(rows.filter(of_other_places(id)), place_id) == average_in(rows, place_id),
{
    let kept = rows.filter(of_other_places(id));
    lemma_cascade(rows, id);
    lemma_cascade_totals(rows, id, place_id);
    if rated_by(rows, place_id, user_id) {
        let i = rating_index(rows, place_id, user_id);
        rows.lemma_filter_contains(of_other_places(id), i);
        let k = choose|k: int| 0 <= k < kept.len() && kept[k] == rows[i];
        lemma_rating_index(kept, place_id, user_id, k);
    } else if rated_by(kept, place_id, user_id) {
        let k = rating_index(kept, place_id, user_id);
        assert(rows.contains(kept[k]));
        let j = choose|j: int| 0 <= j < rows.len() && rows[j] == kept[k];
        assert(rows[j].is_for(place_id, user_id));
    }
}

/// Dropping the ratings of one place leaves the sum and the number of the
/// ratings of every other place as they were.
pub proof fn lemma_cascade_totals(rows: Seq<RatingView>, id: u128, place_id: u128)
    requires
        place_id != id,
    ensures
        rating_total(rows.filter(of_other_places(id)), place_id) == rating_total(rows, place_id),
        rating_count(rows.filter(of_other_places(id)), place_id) == rating_count(rows, place_id),
    decreases rows.len(),
{
    reveal(Seq::filter);
    if rows.len() > 0 {
        let front = rows.drop_last();
        lemma_cascade_totals(front, id, place_id);
        if rows.last().place_id != id {
            lemma_totals_push(front.filter(of_other_places(id)), rows.last(), place_id);
        }
    }
}

/// Dropping the ratings of a place that has none changes nothing.
pub proof fn lemma_cascade_nothing(rows: Seq<RatingView>, id: u128)
    requires
        forall|i: int| 0 <= i < rows.len() ==> (#[trigger] rows[i]).place_id != id,
    ensures
        rows.filter(of_other_places(id)) == rows,
    decreases rows.len(),
{
    reveal(Seq::filter);
    if rows.len() > 0 {
        let front = rows.drop_last();
        assert(forall|i: int| 0 <= i < front.len() ==> front[i] == rows[i]);
        lemma_cascade_nothing(front, id);
        assert(front.push(rows.last()) =~= rows);
    }
}

/// Overwriting the value of a rating moves the sum of its place by the
/// difference and leaves every count as it was.
pub proof fn lemma_totals_update(rows: Seq<RatingView>, i: int, row: RatingView, place_id: u128)
    requires
        0 <= i < rows.len(),
        row.place_id == rows[i].place_id,
    ensures
        rating_count(rows.update(i, row), place_id) == rating_count(rows, place_id),
        rating_total(rows.update(i, row), place_id) == rating_total(rows, place_id) + if place_id
            == row.place_id {
            row.rating - rows[i].rating
        } else {
            0
        },
    decreases rows.len(),
{
    let changed = rows.update(i, row);
    if i == rows.len() - 1 {
        assert(changed.drop_last() =~= rows.drop_last());
    } else {
        assert(changed.drop_last() =~= rows.drop_last().update(i, row));
        lemma_totals_update(rows.drop_last(), i, row, place_id);
    }
}

/// Adding a rating adds its value to the sum of its place and one to the
/// count.
pub proof fn lemma_totals_push(rows: Seq<RatingView>, row: RatingView, place_id: u128)
    ensures
        rating_count(rows.push(row), place_id) == rating_count(rows, place_id) + if place_id
            == row.place_id {
            1nat
        } else {
            0nat
        },
        rating_total(rows.push(row), place_id) == rating_total(rows, place_id) + if place_id
            == row.place_id {
            row.rating as int
        } else {
            0
        },
{
    assert(rows.push(row).drop_last() =~= rows);
}

impl Tables {
    /// Adding a valid place of a new identifier gives a well-formed store
    /// that holds the place, and every other lookup stays as it was.
    pub proof fn lemma_insert_place(self, place: PlaceView)
        requires
            self.wf(),
            place.valid(),
            !self.has_place(place.id),
        ensures
            self.insert_place(place).wf(),
            self.insert_place(place).places.len() == self.places.len() + 1,
            self.places_differ_at(self.insert_place(place), place.id, Some(place)),
    {
        let rows = self.places;
        lemma_slot_exists(rows, place);
        let k = slot(rows, place);
        lemma_insert_row(rows, place, k);
        rows.insert_ensures(k, place);
        let grown = rows.insert(k, place);
        assert forall|i: int| 0 <= i < grown.len() implies (#[trigger] grown[i]).valid() by {
            if i < k {
                assert(grown[i] == rows[i]);
            } else if i > k {
                assert(grown[(i - 1) + 1] == rows[i - 1]);
            }
        }
        assert forall|i: int| 0 <= i < self.ratings.len() implies holds(
            grown,
            (#[trigger] self.ratings[i]).place_id,
        ) by {
            assert(holds(rows, self.ratings[i].place_id));
        }
        assert forall|id: u128|
            #[trigger] self.insert_place(place).find_place(id) == if id == place.id {
                Some(place)
            } else {
                self.find_place(id)
            } by {
            if id == place.id {
                lemma_index_of(grown, id, k);
            } else if holds(rows, id) {
                let i = index_of(rows, id);
                if i < k {
                    lemma_index_of(grown, id, i);
                } else {
                    assert(grown[i + 1] == rows[i]);
                    lemma_index_of(grown, id, i + 1);
                }
            } else {
                assert(holds(rows, id) || id == place.id <==> holds(grown, id));
            }
        }
    }

    /// Removing a place gives a well-formed store without it, and every
    /// other lookup stays as it was.
    pub proof fn lemma_remove_place(self, id: u128)
        requires
            self.wf(),
        ensures
            self.remove_place(id).wf(),
            self.places_differ_at(self.remove_place(id), id, None),
            self.ratings_agree_except(self.remove_place(id), id),
    {
        let rows = self.places;
        let after = self.remove_place(id);
        lemma_cascade(self.ratings, id);
        assert forall|place: u128, user: Seq<char>| place != id implies #[trigger] after.own_rating(
            place,
            user,
        ) == self.own_rating(place, user) by {
            lemma_cascade_others(self.ratings, id, place, user);
        }
        assert forall|place: u128| place != id implies #[trigger] after.average(place)
            == self.average(place) by {
            lemma_cascade_others(self.ratings, id, place, Seq::empty());
        }
        if holds(rows, id) {
            let i = index_of(rows, id);
            lemma_remove_row(rows, i);
            rows.remove_ensures(i);
            assert forall|j: int| 0 <= j < after.places.len() implies (#[trigger] after.places[j])
                .valid() by {
                if j < i {
                    assert(after.places[j] == rows[j]);
                } else {
                    assert(after.places[j] == rows[j + 1]);
                }
            }
            assert forall|other: u128|
                #[trigger] after.find_place(other) == if other == id {
                    None
                } else {
                    self.find_place(other)
                } by {
                assert(holds(after.places, other) <==> (holds(rows, other) && other != rows[i].id));
                if other != id && holds(rows, other) {
                    let j = index_of(rows, other);
                    if j < i {
                        lemma_index_of(after.places, other, j);
                    } else {
                        assert(after.places[j - 1] == rows[j]);
                        lemma_index_of(after.places, other, j - 1);
                    }
                }
            }
        }
        assert forall|k: int| 0 <= k < after.ratings.len() implies holds(
            after.places,
            (#[trigger] after.ratings[k]).place_id,
        ) by {
            let row = after.ratings[k];
            assert(self.ratings.contains(row));
            let j = choose|j: int| 0 <= j < self.ratings.len() && self.ratings[j] == row;
            assert(holds(rows, self.ratings[j].place_id));
            if holds(rows, id) {
                assert(holds(after.places, row.place_id) <==> (holds(rows, row.place_id)
                    && row.place_id != rows[index_of(rows, id)].id));
            }
        }
    }

    /// Replacing a stored place by a valid one of the same identifier gives
    /// a well-formed store that holds the new one, and every other lookup
    /// stays as it was.
    pub proof fn lemma_replace_place(self, place: PlaceView)
        requires
            self.wf(),
            place.valid(),
            self.has_place(place.id),
        ensures
            self.replace_place(place).wf(),
            self.replace_place(place).places.len() == self.places.len(),
            self.places_differ_at(self.replace_place(place), place.id, Some(place)),
    {
        let rows = self.places;
        let i = index_of(rows, place.id);
        lemma_remove_row(rows, i);
        rows.remove_ensures(i);
        let others = rows.remove(i);
        let between = Tables { places: others, ratings: Seq::empty() };
        assert forall|j: int| 0 <= j < others.len() implies (#[trigger] others[j]).valid() by {
            if j < i {
                assert(others[j] == rows[j]);
            } else {
                assert(others[j] == rows[j + 1]);
            }
        }
        assert(!holds(others, place.id)) by {
            assert(holds(others, place.id) <==> (holds(rows, place.id) && place.id != rows[i].id));
        }
        between.lemma_insert_place(place);
        let after = self.replace_place(place);
        assert(after.places == between.insert_place(place).places);
        assert forall|id: u128|
            #[trigger] after.find_place(id) == if id == place.id {
                Some(place)
            } else {
                self.find_place(id)
            } by {
            assert(between.insert_place(place).find_place(id) == if id == place.id {
                Some(place)
            } else {
                between.find_place(id)
            });
            if id != place.id {
                assert(holds(others, id) <==> (holds(rows, id) && id != rows[i].id));
                if holds(rows, id) {
                    let j = index_of(rows, id);
                    if j < i {
                        lemma_index_of(others, id, j);
                    } else {
                        assert(others[j - 1] == rows[j]);
                        lemma_index_of(others, id, j - 1);
                    }
                }
            }
        }
        assert forall|k: int| 0 <= k < self.ratings.len() implies holds(
            after.places,
            (#[trigger] self.ratings[k]).place_id,
        ) by {
            let id = self.ratings[k].place_id;
            assert(holds(rows, id));
            assert(after.find_place(id) is Some);
        }
    }

    /// Rating a stored place gives a well-formed store in which the user's
    /// rating of the place is the new one, and every other user's rating
    /// and every rating of another place stays as it was.
    pub proof fn lemma_rate(self, place_id: u128, user_id: Seq<char>, rating: i32)
        requires
            self.wf(),
            self.has_place(place_id),
        ensures
            self.rate(place_id, user_id, rating).wf(),
            self.rating_recorded(self.rate(place_id, user_id, rating), place_id, user_id, rating),
            self.ratings_agree_except(self.rate(place_id, user_id, rating), place_id),
    {
        let rows = self.ratings;
        let row = RatingView { place_id, user_id, rating };
        let after = self.rate(place_id, user_id, rating);
        assert forall|place: u128|
            #[trigger] rating_count(after.ratings, place) == rating_count(rows, place) + if place
                == place_id && !rated_by(rows, place_id, user_id) {
                1nat
            } else {
                0nat
            } && rating_total(after.ratings, place) == rating_total(rows, place) + if place
                != place_id {
                0
            } else if rated_by(rows, place_id, user_id) {
                rating - rows[rating_index(rows, place_id, user_id)].rating
            } else {
                rating as int
            } by {
            if rated_by(rows, place_id, user_id) {
                lemma_totals_update(rows, rating_index(rows, place_id, user_id), row, place);
            } else {
                lemma_totals_push(rows, row, place);
            }
        }
        let at = if rated_by(rows, place_id, user_id) {
            rating_index(rows, place_id, user_id)
        } else {
            rows.len() as int
        };
        assert(after.ratings[at] == row);
        assert(forall|i: int| 0 <= i < rows.len() && i != at ==> after.ratings[i] == rows[i]);
        assert(distinct_keys(after.ratings)) by {
            assert forall|i: int, j: int|
                0 <= i < j < after.ratings.len() implies !(#[trigger] after.ratings[i]).is_for(
                (#[trigger] after.ratings[j]).place_id,
                after.ratings[j].user_id,
            ) by {
                if i == at && at < rows.len() {
                    assert(!rows[i].is_for(rows[j].place_id, rows[j].user_id));
                } else if j == at && at < rows.len() {
                    assert(!rows[i].is_for(rows[j].place_id, rows[j].user_id));
                } else if j == at {
                    assert(rows[i].is_for(place_id, user_id) ==> rated_by(rows, place_id, user_id));
                } else {
                    assert(!rows[i].is_for(rows[j].place_id, rows[j].user_id));
                }
            }
        }
        assert forall|i: int| 0 <= i < after.ratings.len() implies holds(
            after.places,
            (#[trigger] after.ratings[i]).place_id,
        ) by {
            if i != at {
                assert(holds(self.places, rows[i].place_id));
            }
        }
        assert forall|place: u128, user: Seq<char>|
            #[trigger] after.own_rating(place, user) == if place == place_id && user == user_id {
                Some(rating)
            } else {
                self.own_rating(place, user)
            } by {
            if place == place_id && user == user_id {
                lemma_rating_index(after.ratings, place, user, at);
            } else if rated_by(rows, place, user) {
                let i = rating_index(rows, place, user);
                assert(i != at);
                lemma_rating_index(after.ratings, place, user, i);
            } else if rated_by(after.ratings, place, user) {
                let i = rating_index(after.ratings, place, user);
                assert(i != at);
                assert(rows[i].is_for(place, user));
            }
        }
    }
}

} // verus!
