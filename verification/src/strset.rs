//! A set of strings, kept in order.

use vstd::prelude::*;

use crate::strings::{lemma_text_less_total, lemma_text_less_transitive, str_eq, str_less, text_less, views};

verus! {

/// A set of strings. The items come in the order of their characters, each once.
#[derive(Debug, PartialEq, Eq)]
pub struct StringSet {
    pub items: Vec<String>,
}

/// Whether the texts come in order, each once.
pub open spec fn strictly_sorted(s: Seq<Seq<char>>) -> bool {
    forall|i: int, j: int|
        0 <= i < j < s.len() ==> text_less(#[trigger] s[i], #[trigger] s[j])
}

impl View for StringSet {
    type V = Set<Seq<char>>;

    open spec fn view(&self) -> Set<Seq<char>> {
        views(self.items@).to_set()
    }
}

/// Sorted lists with the same texts are the same list.
pub proof fn lemma_sorted_set_is_unique(a: Seq<Seq<char>>, b: Seq<Seq<char>>)
    requires
        strictly_sorted(a),
        strictly_sorted(b),
        a.to_set() == b.to_set(),
    ensures
        a == b,
    decreases a.len(),
{
    if a.len() == 0 {
        if b.len() > 0 {
            assert(b.to_set().contains(b[0]));
            assert(a.to_set().contains(b[0]));
        }
        assert(a =~= b);
    } else {
        assert(a.to_set().contains(a.last()));
        assert(b.contains(a.last()));
        let j = choose|j: int| 0 <= j < b.len() && b[j] == a.last();
        assert(b.to_set().contains(b.last()));
        assert(a.contains(b.last()));
        let i = choose|i: int| 0 <= i < a.len() && a[i] == b.last();
        lemma_text_less_total(a.last(), b.last());
        if i < a.len() - 1 {
            assert(text_less(a[i], a[a.len() - 1]));
            if j < b.len() - 1 {
                assert(text_less(b[j], b[b.len() - 1]));
            }
        }
        assert(a.last() == b.last());
        let x = a.drop_last();
        let y = b.drop_last();
        assert(x.to_set() =~= y.to_set()) by {
            assert forall|p: Seq<char>| x.to_set().contains(p) implies y.to_set().contains(p) by {
                let k = choose|k: int| 0 <= k < x.len() && x[k] == p;
                assert(text_less(a[k], a[a.len() - 1]));
                lemma_text_less_total(p, a.last());
                assert(a.to_set().contains(a[k]));
                assert(b.contains(p));
                let m = choose|m: int| 0 <= m < b.len() && b[m] == p;
                assert(y[m] == p);
            }
            assert forall|p: Seq<char>| y.to_set().contains(p) implies x.to_set().contains(p) by {
                let k = choose|k: int| 0 <= k < y.len() && y[k] == p;
                assert(text_less(b[k], b[b.len() - 1]));
                lemma_text_less_total(p, b.last());
                assert(b.to_set().contains(b[k]));
                assert(a.contains(p));
                let m = choose|m: int| 0 <= m < a.len() && a[m] == p;
                assert(x[m] == p);
            }
        }
        lemma_sorted_set_is_unique(x, y);
        assert(a =~= x.push(a.last()));
        assert(b =~= y.push(b.last()));
    }
}

impl StringSet {
    pub open spec fn wf(self) -> bool {
        strictly_sorted(views(self.items@))
    }

    pub fn new() -> (r: Self)
        ensures
            r.wf(),
            r@ == Set::<Seq<char>>::empty(),
            r.items@.len() == 0,
    {
        let r = StringSet { items: Vec::new() };
        assert(views(r.items@) =~= Seq::<Seq<char>>::empty());
        assert(r@ =~= Set::<Seq<char>>::empty());
        r
    }

    /// The place of `s`: the number of items that come before it.
    fn place(&self, s: &str) -> (at: usize)
        requires
            self.wf(),
        ensures
            at <= self.items@.len(),
            forall|j: int| 0 <= j < at ==> text_less((#[trigger] self.items@[j])@, s@),
            at < self.items@.len() ==> !text_less(self.items@[at as int]@, s@),
    {
        let mut at: usize = 0;
        while at < self.items.len() && str_less(self.items[at].as_str(), s)
            invariant
                at <= self.items@.len(),
                forall|j: int| 0 <= j < at ==> text_less((#[trigger] self.items@[j])@, s@),
            decreases self.items@.len() - at,
        {
            at = at + 1;
        }
        at
    }

    pub fn contains(&self, s: &str) -> (r: bool)
        requires
            self.wf(),
        ensures
            r == self@.contains(s@),
    {
        let at: usize = self.place(s);
        if at < self.items.len() && str_eq(self.items[at].as_str(), s) {
            assert(views(self.items@)[at as int] == s@);
            true
        } else {
            proof {
                if self@.contains(s@) {
                    let v = views(self.items@);
                    let i = choose|i: int| 0 <= i < v.len() && v[i] == s@;
                    lemma_text_less_total(s@, s@);
                    if i >= at {
                        lemma_text_less_total(v[at as int], s@);
                        if i > at {
                            assert(text_less(v[at as int], v[i]));
                        }
                    }
                }
            }
            false
        }
    }

    /// Adds `s`; says whether it was not there yet.
    pub fn insert(&mut self, s: String) -> (fresh: bool)
        requires
            old(self).wf(),
        ensures
            final(self).wf(),
            final(self)@ == old(self)@.insert(s@),
            fresh == !old(self)@.contains(s@),
    {
        if self.contains(s.as_str()) {
            assert(self@ =~= self@.insert(s@));
            return false;
        }
        let at: usize = self.place(s.as_str());
        let ghost before = views(self.items@);
        let ghost text = s@;
        self.items.insert(at, s);
        let ghost after = views(self.items@);
        proof {
            assert(after =~= before.insert(at as int, text));
            assert forall|i: int, j: int| 0 <= i < j < after.len() implies text_less(
                #[trigger] after[i],
                #[trigger] after[j],
            ) by {
                let x = if i < at {
                    i
                } else {
                    i - 1
                };
                let y = if j < at {
                    j
                } else {
                    j - 1
                };
                if i != at && j != at {
                    assert(after[i] == before[x]);
                    assert(after[j] == before[y]);
                } else if i == at {
                    assert(after[j] == before[y]);
                    assert(before.to_set().contains(before[at as int]));
                    lemma_text_less_total(before[at as int], text);
                    if y > at {
                        assert(text_less(before[at as int], before[y]));
                        lemma_text_less_transitive(text, before[at as int], before[y]);
                    }
                } else {
                    assert(after[i] == before[i]);
                    assert(old(self).items@[i]@ == before[i]);
                }
            }
            assert(after.to_set() =~= before.to_set().insert(text)) by {
                assert forall|p: Seq<char>| after.to_set().contains(p) implies before.to_set().insert(
                    text,
                ).contains(p) by {
                    let k = choose|k: int| 0 <= k < after.len() && after[k] == p;
                    if k < at {
                        assert(before[k] == p);
                    } else if k > at {
                        assert(before[k - 1] == p);
                    }
                }
                assert forall|p: Seq<char>| before.to_set().insert(text).contains(p) implies
                    after.to_set().contains(p) by {
                    if p == text {
                        assert(after[at as int] == p);
                    } else {
                        let k = choose|k: int| 0 <= k < before.len() && before[k] == p;
                        if k < at {
                            assert(after[k] == p);
                        } else {
                            assert(after[k + 1] == p);
                        }
                    }
                }
            }
        }
        true
    }

    /// Takes `s` out; says whether it was there.
    pub fn remove(&mut self, s: &str) -> (found: bool)
        requires
            old(self).wf(),
        ensures
            final(self).wf(),
            final(self)@ == old(self)@.remove(s@),
            found == old(self)@.contains(s@),
    {
        if !self.contains(s) {
            assert(self@ =~= self@.remove(s@));
            return false;
        }
        let at: usize = self.place(s);
        let ghost before = views(self.items@);
        proof {
            let i = choose|i: int| 0 <= i < before.len() && before[i] == s@;
            lemma_text_less_total(s@, s@);
            if i < at {
                assert(text_less(self.items@[i]@, s@));
            }
            lemma_text_less_total(before[at as int], s@);
            if i > at {
                assert(text_less(before[at as int], before[i]));
            }
        }
        self.items.remove(at);
        let ghost after = views(self.items@);
        proof {
            assert(after =~= before.remove(at as int));
            assert(before[at as int] == s@);
            assert(after.to_set() =~= before.to_set().remove(s@)) by {
                assert forall|p: Seq<char>| after.to_set().contains(p) implies before.to_set().remove(
                    s@,
                ).contains(p) by {
                    let k = choose|k: int| 0 <= k < after.len() && after[k] == p;
                    let m = if k < at {
                        k
                    } else {
                        k + 1
                    };
                    assert(before[m] == p);
                    lemma_text_less_total(p, s@);
                    if m < at {
                        assert(text_less(before[m], before[at as int]));
                    } else {
                        assert(text_less(before[at as int], before[m]));
                    }
                }
                assert forall|p: Seq<char>| before.to_set().remove(s@).contains(p) implies
                    after.to_set().contains(p) by {
                    let k = choose|k: int| 0 <= k < before.len() && before[k] == p;
                    if k < at {
                        assert(after[k] == p);
                    } else {
                        assert(after[k - 1] == p);
                    }
                }
            }
        }
        true
    }

    pub fn clear(&mut self)
        ensures
            final(self).wf(),
            final(self)@ == Set::<Seq<char>>::empty(),
            final(self).items@.len() == 0,
    {
        self.items.clear();
        assert(views(self.items@) =~= Seq::<Seq<char>>::empty());
        assert(self@ =~= Set::<Seq<char>>::empty());
    }

    pub fn is_empty(&self) -> (r: bool)
        ensures
            r == (self@ == Set::<Seq<char>>::empty()),
            r == (self.items@.len() == 0),
    {
        let r = self.items.len() == 0;
        proof {
            if r {
                assert(views(self.items@) =~= Seq::<Seq<char>>::empty());
                assert(self@ =~= Set::<Seq<char>>::empty());
            } else {
                assert(views(self.items@)[0] == self.items@[0]@);
                assert(self@.contains(self.items@[0]@));
            }
        }
        r
    }

    /// The set of the given strings.
    pub fn from_strings(strings: &Vec<String>) -> (r: Self)
        ensures
            r.wf(),
            r@ == views(strings@).to_set(),
    {
        let mut r = StringSet::new();
        let mut i: usize = 0;
        let ghost all = views(strings@);
        assert(all.take(0).to_set() =~= Set::<Seq<char>>::empty());
        while i < strings.len()
            invariant
                i <= strings@.len(),
                all == views(strings@),
                r.wf(),
                r@ == all.take(i as int).to_set(),
            decreases strings@.len() - i,
        {
            proof {
                let head = all.take(i as int);
                let more = all.take(i as int + 1);
                assert(more =~= head.push(all[i as int]));
                assert(more.to_set() =~= head.to_set().insert(all[i as int])) by {
                    assert forall|p: Seq<char>| head.to_set().insert(all[i as int]).contains(
                        p,
                    ) implies more.to_set().contains(p) by {
                        if p == all[i as int] {
                            assert(more[i as int] == p);
                        } else {
                            let k = choose|k: int| 0 <= k < head.len() && head[k] == p;
                            assert(more[k] == p);
                        }
                    }
                    assert forall|p: Seq<char>| more.to_set().contains(
                        p,
                    ) implies head.to_set().insert(all[i as int]).contains(p) by {
                        let k = choose|k: int| 0 <= k < more.len() && more[k] == p;
                        if k < i {
                            assert(head[k] == p);
                        }
                    }
                }
            }
            r.insert(strings[i].clone());
            i = i + 1;
        }
        assert(all.take(i as int) =~= all);
        r
    }
}

impl Clone for StringSet {
    fn clone(&self) -> (r: Self)
        ensures
            views(r.items@) == views(self.items@),
    {
        StringSet { items: crate::strings::clone_strings(&self.items) }
    }
}

/// A set holds the texts in its list and no others, in order and each of them once.
pub proof fn lemma_set_is_its_list(set: StringSet, text: Seq<char>)
    ensures
        set@.contains(text) <==> exists|i: int|
            0 <= i < set.items@.len() && (#[trigger] set.items@[i])@ == text,
        set.wf() ==> forall|i: int, j: int|
            0 <= i < j < set.items@.len() ==> text_less(
                (#[trigger] set.items@[i])@,
                (#[trigger] set.items@[j])@,
            ),
{
    let seen = views(set.items@);
    if set@.contains(text) {
        let i = choose|i: int| 0 <= i < seen.len() && seen[i] == text;
        assert(set.items@[i]@ == text);
    }
    if exists|i: int| 0 <= i < set.items@.len() && (#[trigger] set.items@[i])@ == text {
        let i = choose|i: int| 0 <= i < set.items@.len() && (#[trigger] set.items@[i])@ == text;
        assert(seen[i] == text);
    }
    if set.wf() {
        assert forall|i: int, j: int| 0 <= i < j < set.items@.len() implies text_less(
            (#[trigger] set.items@[i])@,
            (#[trigger] set.items@[j])@,
        ) by {
            assert(text_less(seen[i], seen[j]));
        }
    }
}

} // verus!
