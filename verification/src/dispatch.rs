//! Ordering of sync actions per path: while a request for a path is in
//! flight, a later action for the same path waits, and only the latest one
//! waits.

use vstd::prelude::*;
use crate::assoc::{
    distinct_keys, key_at, lemma_map_of, lemma_map_of_missing, lemma_map_of_push,
    lemma_map_of_remove, lemma_map_of_update, map_of,
};
use crate::debounce::{ChangeKind, SyncAction};

verus! {

struct Flight {
    path: String,
    waiting: Option<ChangeKind>,
}

spec fn flight_keys(flights: Seq<Flight>) -> Seq<Seq<char>> {
    flights.map_values(|f: Flight| f.path@)
}

spec fn flight_values(flights: Seq<Flight>) -> Seq<Option<ChangeKind>> {
    flights.map_values(|f: Flight| f.waiting)
}

/// Decides which actions may be sent now and which have to wait.
pub struct Dispatcher {
    flights: Vec<Flight>,
}

impl Dispatcher {
    /// The paths with a request in flight; each with the kind of the action
    /// that waits behind it, if one does.
    pub closed spec fn in_flight(&self) -> Map<Seq<char>, Option<ChangeKind>> {
        map_of(flight_keys(self.flights@), flight_values(self.flights@))
    }

    /// The invariant: each path is listed once.
    pub closed spec fn wf(&self) -> bool {
        distinct_keys(flight_keys(self.flights@))
    }

    /// A dispatcher with nothing in flight.
    pub fn new() -> (r: Dispatcher)
        ensures
            r.wf(),
            r.in_flight() == Map::<Seq<char>, Option<ChangeKind>>::empty(),
    {
        let r = Dispatcher { flights: Vec::new() };
        assert(flight_keys(r.flights@) =~= Seq::empty());
        r
    }

    fn position(&self, path: &String) -> (r: usize)
        requires
            self.wf(),
        ensures
            r <= self.flights@.len(),
            r < self.flights@.len() ==> key_at(flight_keys(self.flights@), path@, r as int)
                && self.in_flight().contains_key(path@) && self.in_flight()[path@]
                == self.flights@[r as int].waiting,
            r == self.flights@.len() ==> !self.in_flight().contains_key(path@),
    {
        let ghost keys = flight_keys(self.flights@);
        let ghost values = flight_values(self.flights@);
        let mut i: usize = 0;
        while i < self.flights.len()
            invariant
                self.wf(),
                i <= self.flights@.len(),
                keys == flight_keys(self.flights@),
                values == flight_values(self.flights@),
                forall|j: int| 0 <= j < i ==> !key_at(keys, path@, j),
            decreases self.flights@.len() - i,
        {
            if self.flights[i].path == *path {
                proof {
                    lemma_map_of(keys, values);
                    assert(key_at(keys, path@, i as int));
                }
                return i;
            }
            i += 1;
        }
        proof {
            lemma_map_of_missing(keys, values, path@);
        }
        i
    }

    /// Takes an action that is ready to go. If nothing is in flight for its
    /// path, the action comes back to be sent now and the path is marked.
    /// Otherwise nothing comes back: the action waits, in place of any that
    /// waited for that path before.
    pub fn submit(&mut self, action: SyncAction) -> (send_now: Option<SyncAction>)
        requires
            old(self).wf(),
        ensures
            final(self).wf(),
            !old(self).in_flight().contains_key(action.path@) ==> final(self).in_flight() == old(
                self,
            ).in_flight().insert(action.path@, None) && send_now == Some(action),
            old(self).in_flight().contains_key(action.path@) ==> final(self).in_flight() == old(
                self,
            ).in_flight().insert(action.path@, Some(action.kind)) && send_now is None,
    {
        let at = self.position(&action.path);
        let ghost keys = flight_keys(self.flights@);
        let ghost values = flight_values(self.flights@);
        if at < self.flights.len() {
            let path = action.path;
            self.flights.set(at, Flight { path, waiting: Some(action.kind) });
            proof {
                assert(flight_keys(self.flights@) =~= keys);
                assert(flight_values(self.flights@) =~= values.update(
                    at as int,
                    Some(action.kind),
                ));
                lemma_map_of_update(keys, values, at as int, Some(action.kind));
            }
            None
        } else {
            self.flights.push(Flight { path: action.path.clone(), waiting: None });
            proof {
                assert(flight_keys(self.flights@) =~= keys.push(action.path@));
                assert(flight_values(self.flights@) =~= values.push(None));
                lemma_map_of_push(keys, values, action.path@, None);
            }
            Some(action)
        }
    }

    /// Records that the request for `path` has ended. If an action waited
    /// for that path, it comes back to be sent now and the path stays
    /// marked; otherwise the path is free again. A path that was not in
    /// flight changes nothing.
    pub fn complete(&mut self, path: &String) -> (send_now: Option<SyncAction>)
        requires
            old(self).wf(),
        ensures
            final(self).wf(),
            !old(self).in_flight().contains_key(path@) ==> final(self).in_flight() == old(
                self,
            ).in_flight() && send_now is None,
            old(self).in_flight().contains_key(path@) && old(self).in_flight()[path@] is None
                ==> final(self).in_flight() == old(self).in_flight().remove(path@)
                && send_now is None,
            old(self).in_flight().contains_key(path@) && old(self).in_flight()[path@] is Some
                ==> final(self).in_flight() == old(self).in_flight().insert(path@, None)
                && send_now is Some && send_now->0.path@ == path@ && Some(send_now->0.kind) == old(
                self,
            ).in_flight()[path@],
    {
        let at = self.position(path);
        let ghost keys = flight_keys(self.flights@);
        let ghost values = flight_values(self.flights@);
        if at >= self.flights.len() {
            return None;
        }
        match self.flights[at].waiting {
            Some(kind) => {
                self.flights.set(at, Flight { path: path.clone(), waiting: None });
                proof {
                    assert(flight_keys(self.flights@) =~= keys);
                    assert(flight_values(self.flights@) =~= values.update(at as int, None));
                    lemma_map_of_update(keys, values, at as int, None);
                }
                Some(SyncAction { path: path.clone(), kind })
            },
            None => {
                self.flights.remove(at);
                proof {
                    assert(flight_keys(self.flights@) =~= keys.remove(at as int));
                    assert(flight_values(self.flights@) =~= values.remove(at as int));
                    lemma_map_of_remove(keys, values, at as int);
                }
                None
            },
        }
    }

    /// Whether a request for `path` is in flight.
    pub fn is_in_flight(&self, path: &String) -> (r: bool)
        requires
            self.wf(),
        ensures
            r == self.in_flight().contains_key(path@),
    {
        self.position(path) < self.flights.len()
    }
}

/// While a request for a path is in flight, any number of further actions
/// for that path leave exactly one waiting, the latest; none is sent beside
/// the one in flight and none is lost.
pub proof fn lemma_latest_action_waits(
    flights: Map<Seq<char>, Option<ChangeKind>>,
    path: Seq<char>,
    earlier: ChangeKind,
    later: ChangeKind,
)
    requires
        flights.contains_key(path),
    ensures
        flights.insert(path, Some(earlier)).insert(path, Some(later)) == flights.insert(
            path,
            Some(later),
        ),
{
    assert(flights.insert(path, Some(earlier)).insert(path, Some(later)) =~= flights.insert(
        path,
        Some(later),
    ));
}

} // verus!
