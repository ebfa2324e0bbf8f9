use vstd::prelude::*;

verus! {

/// The set of deck ids whose children are currently visible. Held as a
/// duplicate-free vector; viewed as the mathematical set of its elements.
#[derive(Debug, PartialEq, Eq)]
pub struct IdSet {
    pub ids: Vec<u128>,
}

impl View for IdSet {
    type V = Set<u128>;

    open spec fn view(&self) -> Set<u128> {
        Set::new(|x: u128| self.ids@.contains(x))
    }
}

impl IdSet {
    /// No id occurs twice.
    pub open spec fn wf(&self) -> bool {
        forall|i: int, j: int| 0 <= i < j < self.ids@.len() ==> self.ids@[i] != self.ids@[j]
    }

    pub fn new() -> (r: Self)
        ensures
            r@ == Set::<u128>::empty(),
            r.wf(),
    {
        let r = IdSet { ids: Vec::new() };
        proof {
            assert(r@ =~= Set::<u128>::empty());
        }
        r
    }

    pub fn contains(&self, id: u128) -> (r: bool)
        ensures
            r == self@.contains(id),
    {
        let mut i: usize = 0;
        while i < self.ids.len()
            invariant
                i <= self.ids@.len(),
                forall|j: int| 0 <= j < i ==> self.ids@[j] != id,
            decreases self.ids@.len() - i,
        {
            if self.ids[i] == id {
                return true;
            }
            i = i + 1;
        }
        false
    }

    /// Adds the id; a no-op when it is already present.
    pub fn insert(&mut self, id: u128)
        requires
            old(self).wf(),
        ensures
            final(self)@ == old(self)@.insert(id),
            final(self).wf(),
    {
        let ghost olds = self.ids@;
        if !self.contains(id) {
            self.ids.push(id);
            proof {
                let news = self.ids@;
                assert forall|x: u128| news.contains(x) implies olds.contains(x) || x == id by {
                    let k = choose|k: int| 0 <= k < news.len() && news[k] == x;
                    if k < olds.len() {
                        assert(olds[k] == x);
                    }
                }
                assert forall|x: u128| olds.contains(x) || x == id implies news.contains(x) by {
                    if olds.contains(x) {
                        let k = choose|k: int| 0 <= k < olds.len() && olds[k] == x;
                        assert(news[k] == x);
                    } else {
                        assert(news[olds.len() as int] == id);
                    }
                }
            }
        }
        proof {
            assert(self@ =~= old(self)@.insert(id));
        }
    }

    /// Takes the id out; a no-op when it is absent.
    pub fn remove(&mut self, id: u128)
        requires
            old(self).wf(),
        ensures
            final(self)@ == old(self)@.remove(id),
            final(self).wf(),
    {
        let ghost olds = old(self).ids@;
        let mut i: usize = 0;
        while i < self.ids.len()
            invariant
                i <= self.ids@.len(),
                self.ids@ == olds,
                olds == old(self).ids@,
                old(self).wf(),
                forall|j: int| 0 <= j < i ==> olds[j] != id,
            decreases self.ids@.len() - i,
        {
            if self.ids[i] == id {
                let ghost p = i as int;
                self.ids.remove(i);
                proof {
                    let news = self.ids@;
                    assert forall|x: u128| news.contains(x) implies olds.contains(x) && x
                        != id by {
                        let k = choose|k: int| 0 <= k < news.len() && news[k] == x;
                        if k < p {
                            assert(olds[k] == x);
                        } else {
                            assert(olds[k + 1] == x);
                            assert(olds[p] == id);
                            assert(olds[p] != olds[k + 1]);
                        }
                    }
                    assert forall|x: u128| olds.contains(x) && x != id implies news.contains(
                        x,
                    ) by {
                        let k = choose|k: int| 0 <= k < olds.len() && olds[k] == x;
                        if k < p {
                            assert(news[k] == x);
                        } else if k > p {
                            assert(news[k - 1] == x);
                        }
                    }
                    assert(self@ =~= old(self)@.remove(id));
                    assert forall|a: int, b: int| 0 <= a < b < news.len() implies news[a]
                        != news[b] by {
                        if b < p {
                        } else if a < p {
                            assert(news[a] == olds[a] && news[b] == olds[b + 1]);
                        } else {
                            assert(news[a] == olds[a + 1] && news[b] == olds[b + 1]);
                        }
                    }
                }
                return ;
            }
            i = i + 1;
        }
        proof {
            assert(self@ =~= old(self)@.remove(id));
        }
    }
}

} // verus!
