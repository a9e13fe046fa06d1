//! Which conversations have a reply streaming right now.
use vstd::prelude::*;
use crate::text::string_views;

verus! {

/// The conversations whose reply is streaming: at most one stream per
/// conversation holds it at a time.
///
/// The ids are kept in a `Vec` with no id twice, viewed as a set: vstd
/// specifies `HashSet` only for keys that obey its key model, which it states
/// for integers and `bool` but not for `String`, so no contract over a
/// `HashSet<String>` could be proved.
pub struct StreamRegistry {
    in_flight: Vec<String>,
}

impl View for StreamRegistry {
    type V = Set<Seq<char>>;

    closed spec fn view(&self) -> Set<Seq<char>> {
        string_views(self.in_flight@).to_set()
    }
}

impl StreamRegistry {
    /// The registry's invariant: no conversation is held twice.
    pub closed spec fn wf(&self) -> bool {
        string_views(self.in_flight@).no_duplicates()
    }

    /// An empty registry.
    pub fn new() -> (r: StreamRegistry)
        ensures
            r.wf(),
            r@ == Set::<Seq<char>>::empty(),
    {
        let r = StreamRegistry { in_flight: Vec::new() };
        assert(string_views(r.in_flight@) =~= Seq::<Seq<char>>::empty());
        assert(r@ =~= Set::<Seq<char>>::empty());
        r
    }

    /// The position of `conversation_id`, if it is held.
    fn position(&self, conversation_id: &str) -> (r: Option<usize>)
        ensures
            match r {
                Some(i) => i < self.in_flight@.len() && self.in_flight@[i as int]@
                    == conversation_id@,
                None => !self@.contains(conversation_id@),
            },
    {
        let mut i: usize = 0;
        while i < self.in_flight.len()
            invariant
                i <= self.in_flight.len(),
                forall|j: int| 0 <= j < i ==> (#[trigger] self.in_flight@[j])@ != conversation_id@,
            decreases self.in_flight.len() - i,
        {
            if self.in_flight[i].as_str().eq(conversation_id) {
                return Some(i);
            }
            i = i + 1;
        }
        proof {
            if self@.contains(conversation_id@) {
                let s = string_views(self.in_flight@);
                let k = choose|k: int| 0 <= k < s.len() && s[k] == conversation_id@;
                assert(self.in_flight@[k]@ == s[k]);
            }
        }
        None
    }

    /// Holds `conversation_id` for a stream: true when it was free (and is now
    /// held), false when a stream already holds it (nothing changes).
    pub fn try_acquire(&mut self, conversation_id: &str) -> (acquired: bool)
        requires
            old(self).wf(),
        ensures
            final(self).wf(),
            acquired == !old(self)@.contains(conversation_id@),
            final(self)@ == old(self)@.insert(conversation_id@),
    {
        match self.position(conversation_id) {
            Some(_) => {
                proof {
                    assert(self@.insert(conversation_id@) =~= self@) by {
                        let i = choose|i: int| 0 <= i < self.in_flight@.len() && self.in_flight@[i]@ == conversation_id@;
                        assert(string_views(self.in_flight@)[i] == conversation_id@);
                    }
                }
                false
            },
            None => {
                let ghost before = string_views(self.in_flight@);
                self.in_flight.push(String::from_str(conversation_id));
                proof {
                    let after = string_views(self.in_flight@);
                    assert(after =~= before.push(conversation_id@));
                    assert(!before.contains(conversation_id@));
                    assert(after.to_set() =~= before.to_set().insert(conversation_id@)) by {
                        assert forall|x: Seq<char>| after.contains(x) <==> (before.contains(x) || x == conversation_id@) by {
                            if after.contains(x) {
                                let k = choose|k: int| 0 <= k < after.len() && after[k] == x;
                                if k < before.len() {
                                    assert(before[k] == x);
                                }
                            }
                            if before.contains(x) {
                                let k = choose|k: int| 0 <= k < before.len() && before[k] == x;
                                assert(after[k] == x);
                            }
                            if x == conversation_id@ {
                                assert(after[before.len() as int] == x);
                            }
                        }
                    }
                    assert(after.no_duplicates()) by {
                        assert forall|a: int, b: int| 0 <= a < after.len() && 0 <= b < after.len() && a != b implies after[a] != after[b] by {
                            if a == before.len() {
                                assert(after[b] == before[b]);
                                if before[b] == conversation_id@ {
                                    assert(before.contains(conversation_id@));
                                }
                            } else if b == before.len() {
                                assert(after[a] == before[a]);
                                if before[a] == conversation_id@ {
                                    assert(before.contains(conversation_id@));
                                }
                            } else {
                                assert(after[a] == before[a] && after[b] == before[b]);
                            }
                        }
                    }
                }
                true
            },
        }
    }

    /// Lets go of `conversation_id`, so that a new stream can hold it.
    pub fn release(&mut self, conversation_id: &str)
        requires
            old(self).wf(),
        ensures
            final(self).wf(),
            final(self)@ == old(self)@.remove(conversation_id@),
    {
        match self.position(conversation_id) {
            None => {
                proof {
                    assert(self@.remove(conversation_id@) =~= self@);
                }
            },
            Some(i) => {
                let ghost before = string_views(self.in_flight@);
                let _gone = self.in_flight.remove(i);
                proof {
                    let after = string_views(self.in_flight@);
                    assert(after =~= before.remove(i as int));
                    assert(before[i as int] == conversation_id@);
                    assert forall|a: int, b: int| 0 <= a < after.len() && 0 <= b < after.len() && a != b implies after[a] != after[b] by {
                        let x = if a < i { a } else { a + 1 };
                        let y = if b < i { b } else { b + 1 };
                        assert(after[a] == before[x] && after[b] == before[y]);
                    }
                    assert forall|x: Seq<char>| after.contains(x) <==> (before.contains(x) && x != conversation_id@) by {
                        if after.contains(x) {
                            let a = choose|a: int| 0 <= a < after.len() && after[a] == x;
                            let k = if a < i { a } else { a + 1 };
                            assert(after[a] == before[k]);
                            assert(k != i);
                        }
                        if before.contains(x) && x != conversation_id@ {
                            let k = choose|k: int| 0 <= k < before.len() && before[k] == x;
                            assert(k != i);
                            if k < i {
                                assert(after[k] == x);
                            } else {
                                assert(after[k - 1] == x);
                            }
                        }
                    }
                    assert(after.to_set() =~= before.to_set().remove(conversation_id@));
                }
            },
        }
    }
}

impl Default for StreamRegistry {
    fn default() -> (r: StreamRegistry)
        ensures
            r.wf(),
            r@ == Set::<Seq<char>>::empty(),
    {
        StreamRegistry::new()
    }
}

/// A conversation held by one stream cannot be held by another until it is
/// released; then the next attempt holds it again, and other conversations
/// are not affected. `held` is the set of held conversations; each step
/// applies what `try_acquire` (succeeds iff the id is not held; the id is
/// held afterwards) and `release` (the id is not held afterwards) state.
pub proof fn law_one_stream_per_conversation(held: Set<Seq<char>>, id: Seq<char>, other: Seq<char>)
    requires
        !held.contains(id),
    ensures
        ({
            let first = !held.contains(id);
            let held1 = held.insert(id);
            let second = !held1.contains(id);
            let held2 = held1.remove(id);
            let third = !held2.contains(id);
            &&& first
            &&& !second
            &&& third
            &&& other != id ==> (held2.contains(other) <==> held.contains(other))
        }),
{
}

} // verus!
