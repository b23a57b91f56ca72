//! The chat of one call: notes are kept by the place they were sent from, and
//! every note is answered with all the notes of its place.

use crate::geo::Point;
use std::collections::HashMap;
use vstd::prelude::*;
use vstd::std_specs::hash::*;

verus! {

/// A message left at a place.
#[derive(Debug, PartialEq, Eq)]
pub struct RouteNote {
    pub location: Point,
    pub message: String,
}

/// What a [`RouteNote`] holds, as mathematical values.
pub ghost struct RouteNoteView {
    pub location: Point,
    pub message: Seq<char>,
}

impl View for RouteNote {
    type V = RouteNoteView;

    open spec fn view(&self) -> RouteNoteView {
        RouteNoteView { location: self.location, message: self.message@ }
    }
}

impl Clone for RouteNote {
    fn clone(&self) -> (copy: RouteNote)
        ensures
            copy == *self,
    {
        RouteNote { location: self.location, message: self.message.clone() }
    }
}

/// The views of a sequence of notes, in the same order.
pub open spec fn note_views(notes: Seq<RouteNote>) -> Seq<RouteNoteView> {
    notes.map_values(|n: RouteNote| n@)
}

/// The notes of `history` that were left at `place`, in the order of arrival.
pub open spec fn notes_at(history: Seq<RouteNoteView>, place: Point) -> Seq<RouteNoteView> {
    history.filter(|n: RouteNoteView| n.location == place)
}

/// A new note joins the notes of its own place, at their end, and leaves the
/// notes of every other place as they were.
pub proof fn lemma_notes_at_push(history: Seq<RouteNoteView>, note: RouteNoteView, place: Point)
    ensures
        notes_at(history.push(note), place) == if note.location == place {
            notes_at(history, place).push(note)
        } else {
            notes_at(history, place)
        },
{
    Seq::lemma_filter_push(history, note, |n: RouteNoteView| n.location == place);
}

/// The notes of a place were all left at that place, and there are no more of
/// them than notes received.
pub proof fn lemma_notes_at_place(history: Seq<RouteNoteView>, place: Point)
    ensures
        forall|i: int|
            0 <= i < notes_at(history, place).len() ==> (#[trigger] notes_at(
                history,
                place,
            )[i]).location == place,
        notes_at(history, place).len() <= history.len(),
    decreases history.len(),
{
    if history.len() == 0 {
        lemma_notes_at_empty(place);
    } else {
        lemma_notes_at_place(history.drop_last(), place);
        lemma_notes_at_push(history.drop_last(), history.last(), place);
        assert(history.drop_last().push(history.last()) =~= history);
    }
}

/// A place answers with its whole history only when it recurs: of three notes
/// of which the first and the third come from one place and the second from
/// another, the first is answered by itself, the second by itself, and the
/// third by the first and the third.
pub proof fn lemma_replay_when_place_recurs(
    first: RouteNoteView,
    second: RouteNoteView,
    third: RouteNoteView,
)
    requires
        first.location == third.location,
        first.location != second.location,
    ensures
        notes_at(seq![first], first.location) == seq![first],
        notes_at(seq![first, second], second.location) == seq![second],
        notes_at(seq![first, second, third], third.location) == seq![first, third],
{
    let none = Seq::<RouteNoteView>::empty();
    let one = none.push(first);
    let two = one.push(second);
    let three = two.push(third);
    assert(seq![first] =~= one);
    assert(seq![first, second] =~= two);
    assert(seq![first, second, third] =~= three);
    lemma_notes_at_empty(first.location);
    lemma_notes_at_empty(second.location);
    lemma_notes_at_push(none, first, first.location);
    lemma_notes_at_push(none, first, second.location);
    lemma_notes_at_push(one, second, first.location);
    lemma_notes_at_push(one, second, second.location);
    lemma_notes_at_push(two, third, third.location);
    assert(seq![second] =~= none.push(second));
    assert(seq![first, third] =~= one.push(third));
}

/// Before any note has arrived no place has notes.
pub proof fn lemma_notes_at_empty(place: Point)
    ensures
        notes_at(Seq::<RouteNoteView>::empty(), place) == Seq::<RouteNoteView>::empty(),
{
    reveal(Seq::filter);
}

/// The number under which the notes of a place are kept: both coordinates,
/// side by side.
pub closed spec fn key_of(place: Point) -> int {
    (place.latitude + 0x8000_0000) * 0x1_0000_0000 + (place.longitude + 0x8000_0000)
}

proof fn lemma_key_of_injective(a: Point, b: Point)
    requires
        key_of(a) == key_of(b),
    ensures
        a == b,
{
}

fn place_key(place: &Point) -> (key: u64)
    ensures
        key == key_of(*place),
{
    let north: u64 = (place.latitude as i64 + 0x8000_0000) as u64;
    let east: u64 = (place.longitude as i64 + 0x8000_0000) as u64;
    north * 0x1_0000_0000 + east
}

fn copy_notes(notes: &Vec<RouteNote>) -> (copies: Vec<RouteNote>)
    ensures
        copies@ == notes@,
{
    let mut copies: Vec<RouteNote> = Vec::new();
    let mut i: usize = 0;
    while i < notes.len()
        invariant
            i <= notes@.len(),
            copies@ == notes@.take(i as int),
        decreases notes@.len() - i,
    {
        copies.push(notes[i].clone());
        assert(notes@.take(i + 1) =~= notes@.take(i as int).push(notes@[i as int]));
        i += 1;
    }
    assert(notes@.take(i as int) =~= notes@);
    copies
}

/// The notes of one call, by place. Its view is every note received so far,
/// in the order of arrival.
pub struct ChatRouter {
    notes: HashMap<u64, Vec<RouteNote>>,
    history: Ghost<Seq<RouteNoteView>>,
}

impl View for ChatRouter {
    type V = Seq<RouteNoteView>;

    closed spec fn view(&self) -> Seq<RouteNoteView> {
        self.history@
    }
}

impl ChatRouter {
    /// The notes kept for `place`.
    pub closed spec fn kept_at(&self, place: Point) -> Seq<RouteNoteView> {
        if self.notes@.contains_key(key_of(place) as u64) {
            note_views(self.notes@[key_of(place) as u64]@)
        } else {
            Seq::empty()
        }
    }

    /// For every place, the notes kept are the notes received there.
    #[verifier::type_invariant]
    pub closed spec fn wf(&self) -> bool {
        forall|place: Point| #[trigger] self.kept_at(place) == notes_at(self.history@, place)
    }

    /// Starts a call: no note has been received.
    pub fn new() -> (router: ChatRouter)
        ensures
            router@ == Seq::<RouteNoteView>::empty(),
    {
        broadcast use group_hash_axioms;

        let notes: HashMap<u64, Vec<RouteNote>> = HashMap::new();
        proof {
            assert forall|place: Point| #[trigger]
                notes_at(Seq::<RouteNoteView>::empty(), place) == Seq::<RouteNoteView>::empty() by {
                lemma_notes_at_empty(place);
            }
        }
        ChatRouter { notes, history: Ghost(Seq::empty()) }
    }

    /// Takes in `note` and answers with every note received at its place so
    /// far, the new one last, in the order of arrival.
    pub fn receive(&mut self, note: RouteNote) -> (replay: Vec<RouteNote>)
        ensures
            final(self)@ == old(self)@.push(note@),
            note_views(replay@) == notes_at(final(self)@, note.location),
    {
        broadcast use group_hash_axioms;

        let mut taken = ChatRouter::new();
        core::mem::swap(self, &mut taken);
        proof {
            use_type_invariant(&taken);
        }
        let ghost before = taken;
        let ghost arrived = note@;
        let place = note.location;
        let key = place_key(&place);
        let ChatRouter { notes, history } = taken;
        let mut notes = notes;
        let mut kept: Vec<RouteNote> = match notes.remove(&key) {
            Some(earlier) => earlier,
            None => Vec::new(),
        };
        assert(note_views(kept@) =~= before.kept_at(place));
        kept.push(note);
        assert(note_views(kept@) =~= before.kept_at(place).push(arrived));
        let replay = copy_notes(&kept);
        notes.insert(key, kept);
        let ghost after = ChatRouter { notes, history: Ghost(history@.push(arrived)) };
        proof {
            assert forall|other: Point| #[trigger]
                after.kept_at(other) == notes_at(after.history@, other) by {
                lemma_notes_at_push(before.history@, arrived, other);
                if key_of(other) == key_of(place) {
                    lemma_key_of_injective(other, place);
                } else {
                    assert(after.kept_at(other) == before.kept_at(other));
                }
            }
        }
        proof {
            lemma_notes_at_push(before.history@, arrived, place);
            assert(before.kept_at(place) == notes_at(before.history@, place));
        }
        *self = ChatRouter { notes, history: Ghost(history@.push(arrived)) };
        replay
    }
}

} // verus!
