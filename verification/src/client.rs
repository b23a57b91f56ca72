//! What a caller of the service decides for itself: which places to visit on
//! a trial route, and how to read the answer to a lookup.

use crate::feature::{feature_views, is_place_of, Feature, FeatureDatabase, FeatureView};
use crate::geo::Point;
use rand::seq::SliceRandom;
use vstd::prelude::*;

verus! {

/// How a caller reads the answer to a lookup.
#[derive(Clone, Copy, Debug, PartialEq, Eq, Structural)]
pub enum Finding {
    /// The answer carries no location.
    Incomplete,
    /// The answer has a location and an empty name: nothing is there.
    Nothing,
    /// The answer names a feature.
    Found,
}

/// The reading of an answer with the given contents.
pub open spec fn finding_of(answer: FeatureView) -> Finding {
    if answer.location is None {
        Finding::Incomplete
    } else if answer.name.len() == 0 {
        Finding::Nothing
    } else {
        Finding::Found
    }
}

/// Reads the answer to a lookup: an answer without a location is incomplete,
/// one with an empty name reports that nothing is there, any other names the
/// feature found.
pub fn read_answer(answer: &Feature) -> (finding: Finding)
    ensures
        finding == finding_of(answer@),
{
    if answer.location.is_none() {
        Finding::Incomplete
    } else if answer.name.as_str().is_empty() {
        Finding::Nothing
    } else {
        Finding::Found
    }
}

/// Calls `rand::seq::SliceRandom::choose` on `features` with the generator of
/// the current thread. The crate documents that it gives a reference to one
/// element of the slice, or `None` if the slice is empty; which element is
/// left open.
#[verifier::external_body]
fn choose_feature(features: &Vec<Feature>) -> (chosen: Option<&Feature>)
    ensures
        features@.len() == 0 ==> chosen is None,
        features@.len() > 0 ==> chosen is Some && features@.contains(*chosen.unwrap()),
{
    features.choose(&mut rand::thread_rng())
}

/// Draws a route of `stops` places at random from the places of the store's
/// entries. An entry may be drawn more than once. A route with stops needs a
/// store with entries to draw from.
pub fn random_route(store: &FeatureDatabase, stops: usize) -> (route: Vec<Point>)
    requires
        stops > 0 ==> store@.len() > 0,
    ensures
        route@.len() == stops,
        forall|k: int| 0 <= k < route@.len() ==> is_place_of(store@, #[trigger] route@[k]),
{
    let entries = store.entries();
    let mut route: Vec<Point> = Vec::new();
    let mut drawn: usize = 0;
    while drawn < stops
        invariant
            drawn <= stops,
            route@.len() == drawn,
            stops > 0 ==> entries@.len() > 0,
            feature_views(entries@) == store@,
            forall|i: int| 0 <= i < entries@.len() ==> (#[trigger] entries@[i]).location is Some,
            forall|k: int| 0 <= k < route@.len() ==> is_place_of(store@, #[trigger] route@[k]),
        decreases stops - drawn,
    {
        let chosen = choose_feature(entries);
        let feature = chosen.unwrap();
        let ghost at = choose|i: int| 0 <= i < entries@.len() && entries@[i] == *feature;
        let place = feature.location.unwrap();
        let ghost earlier = route@;
        route.push(place);
        proof {
            assert(store@[at].is_at(place));
            assert(is_place_of(store@, place));
            assert forall|k: int| 0 <= k < route@.len() implies is_place_of(
                store@,
                #[trigger] route@[k],
            ) by {
                if k < earlier.len() {
                    assert(route@[k] == earlier[k]);
                }
            }
        }
        drawn += 1;
    }
    route
}

} // verus!
