//! Named point features and the read-only store that the operations consult.

use crate::geo::{in_range, Point, Rectangle};
use vstd::prelude::*;

verus! {

/// A named point of interest. The answer "nothing is here" is a feature too:
/// one with an empty name and no location.
#[derive(Debug, PartialEq, Eq)]
pub struct Feature {
    pub name: String,
    pub location: Option<Point>,
}

/// What a [`Feature`] holds, as mathematical values.
pub ghost struct FeatureView {
    pub name: Seq<char>,
    pub location: Option<Point>,
}

impl View for Feature {
    type V = FeatureView;

    open spec fn view(&self) -> FeatureView {
        FeatureView { name: self.name@, location: self.location }
    }
}

impl FeatureView {
    /// The answer given for a place where the store knows nothing.
    pub open spec fn not_found() -> FeatureView {
        FeatureView { name: Seq::<char>::empty(), location: None }
    }

    /// Whether the feature is placed exactly at `point`.
    pub open spec fn is_at(self, point: Point) -> bool {
        self.location == Some(point)
    }

    /// Whether the feature is placed inside `rect`, borders included.
    pub open spec fn is_within(self, rect: Rectangle) -> bool {
        self.location is Some && rect.contains(self.location.unwrap())
    }

    /// Whether the feature has a name. An entry without one stands for
    /// "nothing is here".
    pub open spec fn is_named(self) -> bool {
        self.name.len() > 0
    }

    /// Whether a listing of `rect` shows the feature: it is placed inside
    /// `rect` and has a name.
    pub open spec fn is_listed_in(self, rect: Rectangle) -> bool {
        self.is_within(rect) && self.is_named()
    }
}

/// The views of a sequence of features, in the same order.
pub open spec fn feature_views(features: Seq<Feature>) -> Seq<FeatureView> {
    features.map_values(|f: Feature| f@)
}

impl Feature {
    /// A feature called `name` at `location`.
    pub fn new(name: String, location: Point) -> (feature: Feature)
        ensures
            feature@ == (FeatureView { name: name@, location: Some(location) }),
    {
        Feature { name, location: Some(location) }
    }

    /// The answer for a place without a feature: empty name, no location.
    pub fn not_found() -> (feature: Feature)
        ensures
            feature@ == FeatureView::not_found(),
    {
        Feature { name: String::new(), location: None }
    }
}

impl Default for Feature {
    fn default() -> (feature: Feature)
        ensures
            feature@ == FeatureView::not_found(),
    {
        Feature::not_found()
    }
}

impl Clone for Feature {
    fn clone(&self) -> (copy: Feature)
        ensures
            copy == *self,
    {
        Feature { name: self.name.clone(), location: self.location }
    }
}

/// Why a list of features was refused as a store.
#[derive(Clone, Copy, Debug, PartialEq, Eq, Structural)]
pub enum LoadError {
    /// The entry at `index` has no location.
    MissingLocation { index: usize },
}

/// Whether `index` is the first entry of `store` placed exactly at `point`.
pub open spec fn is_first_at(store: Seq<FeatureView>, point: Point, index: int) -> bool {
    &&& 0 <= index < store.len()
    &&& store[index].is_at(point)
    &&& forall|j: int| 0 <= j < index ==> !(#[trigger] store[j]).is_at(point)
}

/// The index of the first entry of `store` placed exactly at `point`, if any.
pub open spec fn first_at(store: Seq<FeatureView>, point: Point) -> Option<int> {
    if exists|i: int| is_first_at(store, point, i) {
        Some(choose|i: int| is_first_at(store, point, i))
    } else {
        None
    }
}

/// What a lookup of `point` answers: the first entry placed there, or the
/// empty feature where there is none.
pub open spec fn answer_at(store: Seq<FeatureView>, point: Point) -> FeatureView {
    match first_at(store, point) {
        Some(i) => store[i],
        None => FeatureView::not_found(),
    }
}

/// Whether some entry of `store` is placed exactly at `place`.
pub open spec fn is_place_of(store: Seq<FeatureView>, place: Point) -> bool {
    exists|i: int| 0 <= i < store.len() && (#[trigger] store[i]).is_at(place)
}

/// The named entries of `store` placed inside `rect`, in store order: what a
/// listing of `rect` shows.
pub open spec fn features_within(store: Seq<FeatureView>, rect: Rectangle) -> Seq<FeatureView> {
    store.filter(|f: FeatureView| f.is_listed_in(rect))
}

/// Whether `index` is the first entry of `store` at or after `start` that a
/// listing of `rect` shows.
pub open spec fn is_next_within(
    store: Seq<FeatureView>,
    rect: Rectangle,
    start: int,
    index: int,
) -> bool {
    &&& 0 <= start <= index < store.len()
    &&& store[index].is_listed_in(rect)
    &&& forall|j: int| start <= j < index ==> !(#[trigger] store[j]).is_listed_in(rect)
}

/// The first entry placed at a point is unique, so knowing one index that
/// qualifies determines `first_at`.
pub proof fn lemma_first_at_is(store: Seq<FeatureView>, point: Point, index: int)
    requires
        is_first_at(store, point, index),
    ensures
        first_at(store, point) == Some(index),
{
    let chosen = choose|i: int| is_first_at(store, point, i);
    assert(is_first_at(store, point, chosen));
    if chosen < index {
        assert(!store[chosen].is_at(point));
    }
    if index < chosen {
        assert(!store[index].is_at(point));
    }
}

/// Where no entry is placed at a point, `first_at` finds none.
pub proof fn lemma_first_at_none(store: Seq<FeatureView>, point: Point)
    requires
        forall|j: int| 0 <= j < store.len() ==> !(#[trigger] store[j]).is_at(point),
    ensures
        first_at(store, point) is None,
{
}

/// Looking one entry further: the listing of the first `index + 1` entries
/// is that of the first `index`, followed by entry `index` where that one is
/// shown.
pub proof fn lemma_within_step(store: Seq<FeatureView>, rect: Rectangle, index: int)
    requires
        0 <= index < store.len(),
    ensures
        features_within(store.take(index + 1), rect) == if store[index].is_listed_in(rect) {
            features_within(store.take(index), rect).push(store[index])
        } else {
            features_within(store.take(index), rect)
        },
{
    assert(store.take(index + 1) =~= store.take(index).push(store[index]));
    Seq::lemma_filter_push(
        store.take(index),
        store[index],
        |f: FeatureView| f.is_listed_in(rect),
    );
}

/// A stretch of entries that a listing does not show adds nothing to it.
pub proof fn lemma_within_skip(store: Seq<FeatureView>, rect: Rectangle, from: int, to: int)
    requires
        0 <= from <= to <= store.len(),
        forall|j: int| from <= j < to ==> !(#[trigger] store[j]).is_listed_in(rect),
    ensures
        features_within(store.take(to), rect) == features_within(store.take(from), rect),
    decreases to - from,
{
    if from < to {
        lemma_within_skip(store, rect, from, to - 1);
        lemma_within_step(store, rect, to - 1);
    }
}

/// A rectangle that holds every entry of a store of named entries lists the
/// whole store: every entry exactly once, in store order.
pub proof fn lemma_listing_of_enclosing_rectangle(store: Seq<FeatureView>, rect: Rectangle)
    requires
        forall|i: int| 0 <= i < store.len() ==> (#[trigger] store[i]).is_within(rect),
        forall|i: int| 0 <= i < store.len() ==> (#[trigger] store[i]).is_named(),
    ensures
        features_within(store, rect) == store,
    decreases store.len(),
{
    reveal(Seq::filter);
    if store.len() > 0 {
        lemma_listing_of_enclosing_rectangle(store.drop_last(), rect);
        assert(store.drop_last().push(store.last()) =~= store);
    }
}

/// A listing shows no entry without a name and none outside the rectangle,
/// and no more entries than the store has.
pub proof fn lemma_listing_shows_named_entries_inside(store: Seq<FeatureView>, rect: Rectangle)
    ensures
        features_within(store, rect).len() <= store.len(),
        forall|i: int|
            0 <= i < features_within(store, rect).len() ==> (#[trigger] features_within(
                store,
                rect,
            )[i]).is_listed_in(rect),
{
    let shown = |f: FeatureView| f.is_listed_in(rect);
    store.lemma_filter_len(shown);
    assert forall|i: int| 0 <= i < features_within(store, rect).len() implies (
    #[trigger] features_within(store, rect)[i]).is_listed_in(rect) by {
        store.lemma_filter_pred(shown, i);
    }
}

/// A lookup at a place where the store has no entry answers with the empty
/// feature; a lookup at a place where it has one answers with the first.
pub proof fn lemma_answer_at(store: Seq<FeatureView>, point: Point)
    ensures
        (forall|j: int| 0 <= j < store.len() ==> !(#[trigger] store[j]).is_at(point))
            ==> answer_at(store, point) == FeatureView::not_found(),
        forall|i: int| is_first_at(store, point, i) ==> answer_at(store, point) == store[i],
{
    assert forall|i: int| is_first_at(store, point, i) implies answer_at(store, point)
        == store[i] by {
        lemma_first_at_is(store, point, i);
    }
}

/// An ordered, read-only collection of features. Every entry has a location,
/// and the order in which the entries were loaded is the order of every answer.
#[derive(Debug)]
pub struct FeatureDatabase {
    features: Vec<Feature>,
}

impl View for FeatureDatabase {
    type V = Seq<FeatureView>;

    closed spec fn view(&self) -> Seq<FeatureView> {
        feature_views(self.features@)
    }
}

impl FeatureDatabase {
    /// Every entry of the store has a location.
    #[verifier::type_invariant]
    pub closed spec fn wf(&self) -> bool {
        forall|i: int| 0 <= i < self.features@.len() ==> (#[trigger] self.features@[i]).location is Some
    }

    /// In a well-formed store every entry has a location.
    pub proof fn lemma_entries_located(&self)
        requires
            self.wf(),
        ensures
            forall|i: int| 0 <= i < self@.len() ==> (#[trigger] self@[i]).location is Some,
    {
        assert forall|i: int| 0 <= i < self@.len() implies (#[trigger] self@[i]).location is Some by {
            assert(self.features@[i].location is Some);
        }
    }

    /// Makes a store of `features`, keeping their order. An entry without a
    /// location is refused; the error names the first such entry.
    pub fn load(features: Vec<Feature>) -> (loaded: Result<FeatureDatabase, LoadError>)
        ensures
            match loaded {
                Ok(db) => {
                    &&& db.wf()
                    &&& db@ == feature_views(features@)
                    &&& forall|i: int| 0 <= i < features@.len() ==> (#[trigger] features@[i]).location is Some
                },
                Err(LoadError::MissingLocation { index }) => {
                    &&& index < features@.len()
                    &&& features@[index as int].location is None
                    &&& forall|i: int| 0 <= i < index ==> (#[trigger] features@[i]).location is Some
                },
            },
    {
        let mut i: usize = 0;
        while i < features.len()
            invariant
                i <= features@.len(),
                forall|j: int| 0 <= j < i ==> (#[trigger] features@[j]).location is Some,
            decreases features@.len() - i,
        {
            if features[i].location.is_none() {
                return Err(LoadError::MissingLocation { index: i });
            }
            i += 1;
        }
        Ok(FeatureDatabase { features })
    }

    /// The number of entries.
    pub fn len(&self) -> (count: usize)
        ensures
            count == self@.len(),
    {
        self.features.len()
    }

    /// The entries in store order.
    pub fn entries(&self) -> (entries: &Vec<Feature>)
        ensures
            feature_views(entries@) == self@,
            forall|i: int| 0 <= i < entries@.len() ==> (#[trigger] entries@[i]).location is Some,
    {
        proof {
            use_type_invariant(self);
        }
        &self.features
    }

    /// The entry at `index` in store order, if there is one.
    pub fn get(&self, index: usize) -> (entry: Option<&Feature>)
        ensures
            match entry {
                Some(feature) => index < self@.len() && feature@ == self@[index as int]
                    && feature.location is Some,
                None => index >= self@.len(),
            },
    {
        proof {
            use_type_invariant(self);
        }
        if index < self.features.len() {
            Some(&self.features[index])
        } else {
            None
        }
    }

    /// Finds the first entry placed exactly at `point`, in store order.
    pub fn lookup_exact(&self, point: &Point) -> (found: Option<&Feature>)
        ensures
            match first_at(self@, *point) {
                Some(i) => found is Some && found.unwrap()@ == self@[i],
                None => found is None,
            },
            found is Some <==> is_place_of(self@, *point),
    {
        let mut i: usize = 0;
        while i < self.features.len()
            invariant
                i <= self.features@.len(),
                forall|j: int| 0 <= j < i ==> !(#[trigger] self@[j]).is_at(*point),
            decreases self.features@.len() - i,
        {
            let feature = &self.features[i];
            let here = match feature.location {
                Some(place) => place == *point,
                None => false,
            };
            if here {
                proof {
                    lemma_first_at_is(self@, *point, i as int);
                }
                return Some(feature);
            }
            i += 1;
        }
        proof {
            lemma_first_at_none(self@, *point);
        }
        None
    }

    /// Answers a lookup of `point`: a copy of the first entry placed exactly
    /// there, or the empty feature where the store has none. Absence is an
    /// answer, not a failure.
    pub fn get_feature(&self, point: &Point) -> (feature: Feature)
        ensures
            feature@ == answer_at(self@, *point),
    {
        match self.lookup_exact(point) {
            Some(found) => found.clone(),
            None => Feature::default(),
        }
    }

    /// Finds the first entry at or after position `start` that a listing of
    /// `rect` shows, and gives its position: entries outside `rect` and
    /// entries without a name are passed over. A listing that must be able to
    /// stop between two entries walks the store with this, resuming one past
    /// each position found.
    pub fn next_in_range(&self, rect: &Rectangle, start: usize) -> (next: Option<usize>)
        ensures
            match next {
                Some(index) => is_next_within(self@, *rect, start as int, index as int),
                None => forall|j: int|
                    start <= j < self@.len() ==> !(#[trigger] self@[j]).is_listed_in(*rect),
            },
    {
        proof {
            use_type_invariant(self);
        }
        let mut i: usize = start;
        while i < self.features.len()
            invariant
                start <= i,
                self.wf(),
                forall|j: int|
                    start <= j < i && j < self@.len() ==> !(#[trigger] self@[j]).is_listed_in(
                        *rect,
                    ),
            decreases self.features@.len() - i,
        {
            let feature = &self.features[i];
            let inside = match &feature.location {
                Some(place) => in_range(place, rect),
                None => false,
            };
            if inside && !feature.name.as_str().is_empty() {
                return Some(i);
            }
            i += 1;
        }
        None
    }

    /// Lists every named entry placed inside `rect`, each once, in store
    /// order. An entry without a name stands for "nothing is here" and is
    /// never listed.
    pub fn list_features(&self, rect: &Rectangle) -> (listed: Vec<Feature>)
        ensures
            feature_views(listed@) == features_within(self@, *rect),
    {
        let mut listed: Vec<Feature> = Vec::new();
        let mut cursor: usize = 0;
        assert(feature_views(listed@) =~= features_within(self@.take(0), *rect)) by {
            reveal(Seq::filter);
        }
        loop
            invariant_except_break
                cursor <= self@.len(),
                feature_views(listed@) == features_within(self@.take(cursor as int), *rect),
            ensures
                feature_views(listed@) == features_within(self@, *rect),
            decreases self@.len() - cursor,
        {
            match self.next_in_range(rect, cursor) {
                Some(index) => {
                    let ghost before = listed@;
                    assert(index < self.features.len());
                    listed.push(self.features[index].clone());
                    proof {
                        lemma_within_skip(self@, *rect, cursor as int, index as int);
                        lemma_within_step(self@, *rect, index as int);
                        assert(feature_views(listed@) =~= feature_views(before).push(
                            self@[index as int],
                        ));
                    }
                    cursor = index + 1;
                },
                None => {
                    proof {
                        lemma_within_skip(self@, *rect, cursor as int, self@.len() as int);
                        assert(self@.take(self@.len() as int) =~= self@);
                    }
                    break;
                },
            }
        }
        listed
    }
}

} // verus!
