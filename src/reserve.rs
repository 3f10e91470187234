use vstd::prelude::*;

use crate::name::same_text;

verus! {

/// The (parent directory, name) pairs that operations in flight have claimed
/// before they create or rename into them. At most one claimant holds a pair.
pub struct NameReservations {
    held: Vec<(String, String)>,
}

pub open spec fn pair_view(p: (String, String)) -> (Seq<char>, Seq<char>) {
    (p.0@, p.1@)
}

impl View for NameReservations {
    type V = Set<(Seq<char>, Seq<char>)>;

    closed spec fn view(&self) -> Set<(Seq<char>, Seq<char>)> {
        self.held@.map_values(|p: (String, String)| pair_view(p)).to_set()
    }
}

impl NameReservations {
    /// Each pair is held once.
    pub closed spec fn wf(&self) -> bool {
        self.held@.map_values(|p: (String, String)| pair_view(p)).no_duplicates()
    }

    pub fn new() -> (r: NameReservations)
        ensures
            r.wf(),
            r@ == Set::<(Seq<char>, Seq<char>)>::empty(),
    {
        let r = NameReservations { held: Vec::new() };
        assert(r.held@.map_values(|p: (String, String)| pair_view(p)) =~= Seq::empty());
        assert(r@ =~= Set::<(Seq<char>, Seq<char>)>::empty());
        r
    }

    fn position(&self, parent: &str, name: &str) -> (r: Option<usize>)
        requires
            self.wf(),
        ensures
            match r {
                Some(i) => i < self.held@.len() && pair_view(self.held@[i as int]) == (
                    parent@,
                    name@,
                ),
                None => !self@.contains((parent@, name@)),
            },
    {
        let mut i: usize = 0;
        while i < self.held.len()
            invariant
                i <= self.held@.len(),
                forall|j: int| 0 <= j < i ==> pair_view(#[trigger] self.held@[j]) != (parent@, name@),
            decreases self.held@.len() - i,
        {
            if same_text(self.held[i].0.as_str(), parent) && same_text(
                self.held[i].1.as_str(),
                name,
            ) {
                return Some(i);
            }
            i = i + 1;
        }
        proof {
            let s = self.held@.map_values(|p: (String, String)| pair_view(p));
            if s.to_set().contains((parent@, name@)) {
                assert(s.contains((parent@, name@)));
                let j = choose|j: int| 0 <= j < s.len() && s[j] == (parent@, name@);
                assert(pair_view(self.held@[j]) == s[j]);
            }
        }
        None
    }

    /// Whether `name` in `parent` is claimed.
    pub fn holds(&self, parent: &str, name: &str) -> (r: bool)
        requires
            self.wf(),
        ensures
            r == self@.contains((parent@, name@)),
    {
        match self.position(parent, name) {
            Some(i) => {
                proof {
                    let s = self.held@.map_values(|p: (String, String)| pair_view(p));
                    assert(s[i as int] == (parent@, name@));
                    assert(s.to_set().contains((parent@, name@)));
                }
                true
            },
            None => false,
        }
    }

    /// Claims `name` in `parent`. Returns false, changing nothing, when the
    /// pair is already claimed.
    pub fn reserve(&mut self, parent: &str, name: &str) -> (r: bool)
        requires
            old(self).wf(),
        ensures
            final(self).wf(),
            r == !old(self)@.contains((parent@, name@)),
            final(self)@ == old(self)@.insert((parent@, name@)),
    {
        match self.position(parent, name) {
            Some(i) => {
                proof {
                    let s = self.held@.map_values(|p: (String, String)| pair_view(p));
                    assert(s[i as int] == (parent@, name@));
                    assert(s.to_set().contains((parent@, name@)));
                    assert(self@.insert((parent@, name@)) =~= self@);
                }
                false
            },
            None => {
                let ghost before = self.held@.map_values(|p: (String, String)| pair_view(p));
                self.held.push((parent.to_owned(), name.to_owned()));
                proof {
                    let after = self.held@.map_values(|p: (String, String)| pair_view(p));
                    assert(after =~= before.push((parent@, name@)));
                    assert(!before.contains((parent@, name@))) by {
                        if before.contains((parent@, name@)) {
                            assert(before.to_set().contains((parent@, name@)));
                        }
                    }
                    assert(after.to_set() =~= before.to_set().insert((parent@, name@))) by {
                        assert forall|x| after.to_set().contains(x) <==> before.to_set().insert(
                            (parent@, name@),
                        ).contains(x) by {
                            if after.contains(x) {
                                let j = choose|j: int| 0 <= j < after.len() && after[j] == x;
                                if j < before.len() {
                                    assert(before[j] == x);
                                }
                            }
                            if before.contains(x) {
                                let j = choose|j: int| 0 <= j < before.len() && before[j] == x;
                                assert(after[j] == x);
                            }
                            if x == (parent@, name@) {
                                assert(after[before.len() as int] == x);
                            }
                        }
                    }
                    assert(after.no_duplicates()) by {
                        assert forall|a: int, b: int|
                            0 <= a < after.len() && 0 <= b < after.len() && a != b implies after[a]
                            != after[b] by {
                            if a < before.len() && b < before.len() {
                                assert(after[a] == before[a] && after[b] == before[b]);
                            } else if a < before.len() {
                                assert(after[a] == before[a]);
                            } else if b < before.len() {
                                assert(after[b] == before[b]);
                            }
                        }
                    }
                }
                true
            },
        }
    }

    /// Gives up the claim on `name` in `parent`, which the caller holds.
    pub fn release(&mut self, parent: &str, name: &str)
        requires
            old(self).wf(),
            old(self)@.contains((parent@, name@)),
        ensures
            final(self).wf(),
            final(self)@ == old(self)@.remove((parent@, name@)),
    {
        let i = match self.position(parent, name) {
            Some(i) => i,
            None => {
                return;
            },
        };
        let ghost before = self.held@.map_values(|p: (String, String)| pair_view(p));
        let ghost held0 = self.held@;
        self.held.remove(i);
        proof {
            let after = self.held@.map_values(|p: (String, String)| pair_view(p));
            assert(after =~= before.remove(i as int));
            assert(before[i as int] == (parent@, name@));
            assert(after.no_duplicates()) by {
                assert forall|a: int, b: int|
                    0 <= a < after.len() && 0 <= b < after.len() && a != b implies after[a]
                    != after[b] by {
                    let ia = if a < i { a } else { a + 1 };
                    let ib = if b < i { b } else { b + 1 };
                    assert(after[a] == before[ia] && after[b] == before[ib]);
                }
            }
            assert(after.to_set() =~= before.to_set().remove((parent@, name@))) by {
                assert forall|x| after.to_set().contains(x) <==> before.to_set().remove(
                    (parent@, name@),
                ).contains(x) by {
                    if after.contains(x) {
                        let j = choose|j: int| 0 <= j < after.len() && after[j] == x;
                        let ij = if j < i { j } else { j + 1 };
                        assert(before[ij] == x);
                        assert(ij != i);
                    }
                    if before.contains(x) && x != (parent@, name@) {
                        let j = choose|j: int| 0 <= j < before.len() && before[j] == x;
                        assert(j != i);
                        if j < i {
                            assert(after[j] == x);
                        } else {
                            assert(after[j - 1] == x);
                        }
                    }
                }
            }
        }
    }
}

} // verus!
