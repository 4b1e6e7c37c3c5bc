//! The set of rooms the bot currently occupies.
use vstd::prelude::*;
use crate::text::str_eq;

verus! {

/// The bot's joined rooms, without duplicates; the view is the set of their
/// identifiers.
pub struct JoinedRooms {
    rooms: Vec<String>,
}

impl View for JoinedRooms {
    type V = Set<Seq<char>>;

    closed spec fn view(&self) -> Set<Seq<char>> {
        Set::new(|s: Seq<char>| exists|i: int| 0 <= i < self.rooms@.len() && self.rooms@[i]@ == s)
    }
}

impl JoinedRooms {
    /// No two stored identifiers are equal.
    pub closed spec fn wf(&self) -> bool {
        forall|i: int, j: int|
            0 <= i < self.rooms@.len() && 0 <= j < self.rooms@.len() && i != j
                ==> #[trigger] self.rooms@[i]@ != #[trigger] self.rooms@[j]@
    }

    pub closed spec fn count(&self) -> nat {
        self.rooms@.len()
    }

    /// An empty set.
    pub fn new() -> (r: Self)
        ensures
            r.wf(),
            r@ == Set::<Seq<char>>::empty(),
    {
        let r = JoinedRooms { rooms: Vec::new() };
        assert(r@ =~= Set::<Seq<char>>::empty());
        r
    }

    /// The set holding each of `rooms` once.
    pub fn from_rooms(rooms: &Vec<String>) -> (r: Self)
        ensures
            r.wf(),
            forall|s: Seq<char>| r@.contains(s) <==> exists|i: int| 0 <= i < rooms@.len() && rooms@[i]@ == s,
    {
        let mut r = JoinedRooms::new();
        let mut i: usize = 0;
        while i < rooms.len()
            invariant
                i <= rooms@.len(),
                r.wf(),
                forall|s: Seq<char>| r@.contains(s) <==> exists|k: int| 0 <= k < i && rooms@[k]@ == s,
            decreases rooms@.len() - i,
        {
            r.add(rooms[i].as_str());
            proof {
                assert forall|s: Seq<char>| r@.contains(s) <==> exists|k: int| 0 <= k < i + 1 && rooms@[k]@ == s by {
                    if s == rooms@[i as int]@ {
                        assert(0 <= i < i + 1 && rooms@[i as int]@ == s);
                    }
                    if exists|k: int| 0 <= k < i + 1 && rooms@[k]@ == s {
                        let k = choose|k: int| 0 <= k < i + 1 && rooms@[k]@ == s;
                        if k < i {
                        }
                    }
                }
            }
            i = i + 1;
        }
        r
    }

    fn position(&self, room_id: &str) -> (r: Option<usize>)
        ensures
            r matches Some(i) ==> i < self.rooms@.len() && self.rooms@[i as int]@ == room_id@,
            r is None ==> forall|i: int| 0 <= i < self.rooms@.len() ==> self.rooms@[i]@ != room_id@,
    {
        let mut i: usize = 0;
        while i < self.rooms.len()
            invariant
                i <= self.rooms@.len(),
                forall|k: int| 0 <= k < i ==> self.rooms@[k]@ != room_id@,
            decreases self.rooms@.len() - i,
        {
            if str_eq(self.rooms[i].as_str(), room_id) {
                return Some(i);
            }
            i = i + 1;
        }
        None
    }

    /// Whether the bot is in `room_id`.
    pub fn contains(&self, room_id: &str) -> (r: bool)
        ensures
            r == self@.contains(room_id@),
    {
        match self.position(room_id) {
            Some(i) => {
                assert(self@.contains(room_id@));
                true
            },
            None => false,
        }
    }

    /// Adds `room_id`; adding one already there changes nothing.
    pub fn add(&mut self, room_id: &str)
        requires
            old(self).wf(),
        ensures
            final(self).wf(),
            final(self)@ == old(self)@.insert(room_id@),
    {
        if self.position(room_id).is_none() {
            let ghost before = self.rooms@;
            self.rooms.push(room_id.to_owned());
            proof {
                assert(self.rooms@[before.len() as int]@ == room_id@);
                assert forall|s: Seq<char>| #[trigger] self@.contains(s) <==> old(self)@.insert(room_id@).contains(s) by {
                    if old(self)@.contains(s) {
                        let k = choose|k: int| 0 <= k < before.len() && before[k]@ == s;
                        assert(self.rooms@[k]@ == s);
                    }
                }
                assert(self@ =~= old(self)@.insert(room_id@));
            }
        } else {
            assert(self@ =~= old(self)@.insert(room_id@));
        }
    }

    /// Removes `room_id`; removing one that is absent changes nothing.
    pub fn remove(&mut self, room_id: &str)
        requires
            old(self).wf(),
        ensures
            final(self).wf(),
            final(self)@ == old(self)@.remove(room_id@),
    {
        match self.position(room_id) {
            Some(pos) => {
                let ghost before = self.rooms@;
                self.rooms.remove(pos);
                proof {
                    assert forall|s: Seq<char>| #[trigger] self@.contains(s) <==> old(self)@.remove(room_id@).contains(s) by {
                        if old(self)@.remove(room_id@).contains(s) {
                            let k = choose|k: int| 0 <= k < before.len() && before[k]@ == s;
                            assert(k != pos);
                            if k < pos {
                                assert(self.rooms@[k]@ == s);
                            } else {
                                assert(self.rooms@[k - 1]@ == s);
                            }
                        }
                        if self@.contains(s) {
                            let k = choose|k: int| 0 <= k < self.rooms@.len() && self.rooms@[k]@ == s;
                            if k < pos {
                                assert(before[k]@ == s);
                            } else {
                                assert(before[k + 1]@ == s);
                            }
                        }
                    }
                    assert(self@ =~= old(self)@.remove(room_id@));
                }
            },
            None => {
                assert(self@ =~= old(self)@.remove(room_id@));
            },
        }
    }

    /// The joined rooms, each once.
    pub fn snapshot(&self) -> (r: Vec<String>)
        ensures
            forall|s: Seq<char>| self@.contains(s) <==> exists|i: int| 0 <= i < r@.len() && r@[i]@ == s,
            r@.len() == self.count(),
    {
        let mut out: Vec<String> = Vec::new();
        let mut i: usize = 0;
        while i < self.rooms.len()
            invariant
                i <= self.rooms@.len(),
                out@.len() == i,
                forall|k: int| 0 <= k < i ==> (#[trigger] out@[k])@ == self.rooms@[k]@,
            decreases self.rooms@.len() - i,
        {
            out.push(self.rooms[i].clone());
            i = i + 1;
        }
        proof {
            assert forall|s: Seq<char>| self@.contains(s) <==> exists|k: int| 0 <= k < out@.len() && out@[k]@ == s by {
                if self@.contains(s) {
                    let k = choose|k: int| 0 <= k < self.rooms@.len() && self.rooms@[k]@ == s;
                    assert(out@[k]@ == s);
                }
                if exists|k: int| 0 <= k < out@.len() && out@[k]@ == s {
                    let k = choose|k: int| 0 <= k < out@.len() && out@[k]@ == s;
                    assert(self.rooms@[k]@ == s);
                }
            }
        }
        out
    }

    /// How many rooms the bot is in.
    pub fn len(&self) -> (r: usize)
        ensures
            r == self.count(),
    {
        self.rooms.len()
    }
}

} // verus!
