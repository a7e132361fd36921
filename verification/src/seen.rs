//! The events that were handled recently.

use vstd::hash_set::StringHashSet;
use vstd::prelude::*;
use vstd::string::*;

verus! {

/// How many events are remembered at most.
pub const MAX_SEEN: usize = 500;

/// The events remembered once `id` is handled: one more, or none at all where
/// that would be too many.
pub open spec fn remembered(seen: Set<Seq<char>>, id: Seq<char>) -> Set<Seq<char>> {
    if seen.insert(id).len() > MAX_SEEN {
        Set::empty()
    } else {
        seen.insert(id)
    }
}

/// A set of event identifiers that forgets everything when it grows too large.
pub struct SeenEvents {
    ids: StringHashSet,
}

impl View for SeenEvents {
    type V = Set<Seq<char>>;

    closed spec fn view(&self) -> Set<Seq<char>> {
        self.ids@
    }
}

impl SeenEvents {
    /// No event was handled yet.
    pub fn new() -> (seen: SeenEvents)
        ensures
            seen@ == Set::<Seq<char>>::empty(),
    {
        SeenEvents { ids: StringHashSet::new() }
    }

    /// Whether the event `id` is remembered.
    pub fn contains(&self, id: &str) -> (known: bool)
        ensures
            known == self@.contains(id@),
    {
        self.ids.contains(id)
    }

    /// Remembers the event `id`.
    pub fn record(&mut self, id: &str)
        ensures
            final(self)@ == remembered(old(self)@, id@),
            final(self)@.len() <= MAX_SEEN,
    {
        self.ids.insert(id.to_owned());
        if self.ids.len() > MAX_SEEN {
            self.ids.clear();
        }
    }
}

} // verus!
