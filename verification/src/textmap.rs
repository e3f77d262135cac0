//! A map from texts, kept in the order of its keys.

use vstd::prelude::*;

use crate::strings::{lemma_text_less_total, lemma_text_less_transitive, str_eq, str_less, text_less};
use crate::strset::strictly_sorted;

verus! {

/// A key and what it stands for.
#[derive(Clone, Debug, PartialEq, Eq)]
pub struct TextEntry<T> {
    pub name: String,
    pub value: T,
}

/// A map from texts. The entries come in the order of their keys, each key once.
#[derive(Clone, Debug, PartialEq, Eq)]
pub struct TextMap<T> {
    pub entries: Vec<TextEntry<T>>,
}

/// The keys of a list of entries.
pub open spec fn names_of<T>(entries: Seq<TextEntry<T>>) -> Seq<Seq<char>> {
    entries.map_values(|e: TextEntry<T>| e.name@)
}

impl<T> View for TextMap<T> {
    type V = Map<Seq<char>, T>;

    open spec fn view(&self) -> Map<Seq<char>, T> {
        Map::new(
            |name: Seq<char>| names_of(self.entries@).contains(name),
            |name: Seq<char>| self.entries@[names_of(self.entries@).index_of(name)].value,
        )
    }
}

/// The texts of a map.
pub open spec fn texts(m: Map<Seq<char>, String>) -> Map<Seq<char>, Seq<char>> {
    m.map_values(|s: String| s@)
}

impl<T> TextMap<T> {
    pub open spec fn wf(self) -> bool {
        strictly_sorted(names_of(self.entries@))
    }

    /// Every entry is found under its key, and the map is finite.
    pub proof fn lemma_entries(self)
        requires
            self.wf(),
        ensures
            self@.dom().finite(),
            forall|i: int|
                0 <= i < self.entries@.len() ==> self@.contains_key(
                    (#[trigger] self.entries@[i]).name@,
                ) && self@[self.entries@[i].name@] == self.entries@[i].value,
    {
        let names = names_of(self.entries@);
        assert(self@.dom() =~= names.to_set());
        vstd::seq_lib::seq_to_set_is_finite(names);
        assert forall|i: int| 0 <= i < self.entries@.len() implies self@.contains_key(
            (#[trigger] self.entries@[i]).name@,
        ) && self@[self.entries@[i].name@] == self.entries@[i].value by {
            let name = self.entries@[i].name@;
            assert(names[i] == name);
            let j = names.index_of(name);
            lemma_text_less_total(name, name);
            if i < j {
                assert(text_less(names[i], names[j]));
            } else if j < i {
                assert(text_less(names[j], names[i]));
            }
        }
    }

    pub fn new() -> (r: Self)
        ensures
            r.wf(),
            r@ == Map::<Seq<char>, T>::empty(),
            r.entries@.len() == 0,
    {
        let r = TextMap { entries: Vec::new() };
        assert(r@ =~= Map::<Seq<char>, T>::empty());
        r
    }

    /// The place of `name`: the number of keys that come before it.
    fn place(&self, name: &str) -> (at: usize)
        requires
            self.wf(),
        ensures
            at <= self.entries@.len(),
            forall|j: int| 0 <= j < at ==> text_less((#[trigger] self.entries@[j]).name@, name@),
            at < self.entries@.len() ==> !text_less(self.entries@[at as int].name@, name@),
            self@.contains_key(name@) <==> at < self.entries@.len()
                && self.entries@[at as int].name@ == name@,
    {
        let mut at: usize = 0;
        while at < self.entries.len() && str_less(self.entries[at].name.as_str(), name)
            invariant
                at <= self.entries@.len(),
                forall|j: int| 0 <= j < at ==> text_less((#[trigger] self.entries@[j]).name@, name@),
            decreases self.entries@.len() - at,
        {
            at = at + 1;
        }
        proof {
            let names = names_of(self.entries@);
            self.lemma_entries();
            if self@.contains_key(name@) {
                let i = choose|i: int| 0 <= i < names.len() && names[i] == name@;
                lemma_text_less_total(name@, name@);
                assert(self.entries@[i].name@ == name@);
                if i > at {
                    assert(text_less(names[at as int], names[i]));
                }
            }
        }
        at
    }

    pub fn get(&self, name: &str) -> (r: Option<&T>)
        requires
            self.wf(),
        ensures
            match r {
                Some(v) => self@.contains_key(name@) && *v == self@[name@],
                None => !self@.contains_key(name@),
            },
    {
        let at: usize = self.place(name);
        proof {
            self.lemma_entries();
        }
        if at < self.entries.len() && str_eq(self.entries[at].name.as_str(), name) {
            Some(&self.entries[at].value)
        } else {
            None
        }
    }

    /// Lets `name` stand for nothing.
    pub fn remove(&mut self, name: &str)
        requires
            old(self).wf(),
        ensures
            final(self).wf(),
            final(self)@ == old(self)@.remove(name@),
    {
        let at: usize = self.place(name);
        let ghost start = *self;
        let ghost before = names_of(self.entries@);
        if !(at < self.entries.len() && str_eq(self.entries[at].name.as_str(), name)) {
            assert(self@ =~= self@.remove(name@));
            return ;
        }
        self.entries.remove(at);
        let ghost after = names_of(self.entries@);
        proof {
            assert(after =~= before.remove(at as int));
            assert forall|i: int, j: int| 0 <= i < j < after.len() implies text_less(
                #[trigger] after[i],
                #[trigger] after[j],
            ) by {
                let x = if i < at {
                    i
                } else {
                    i + 1
                };
                let y = if j < at {
                    j
                } else {
                    j + 1
                };
                assert(after[i] == before[x]);
                assert(after[j] == before[y]);
            }
            start.lemma_entries();
            self.lemma_entries();
            let target = start@.remove(name@);
            assert forall|k: Seq<char>| #[trigger] self@.dom().contains(k) implies target.dom().contains(k)
                && self@[k] == target[k] by {
                let i = choose|i: int| 0 <= i < after.len() && after[i] == k;
                let x = if i < at {
                    i
                } else {
                    i + 1
                };
                assert(start.entries@[x].name@ == k);
                assert(self.entries@[i].name@ == k);
                lemma_text_less_total(k, k);
                if x < at {
                    assert(text_less(before[x], before[at as int]));
                } else {
                    assert(text_less(before[at as int], before[x]));
                }
            }
            assert forall|k: Seq<char>| #[trigger] target.dom().contains(k) implies self@.dom().contains(
                k,
            ) by {
                let i = choose|i: int| 0 <= i < before.len() && before[i] == k;
                assert(start.entries@[at as int].name@ == before[at as int]);
                if i < at {
                    assert(self.entries@[i].name@ == k);
                } else {
                    assert(self.entries@[i - 1].name@ == k);
                }
            }
            assert(self@.dom() =~= target.dom());
            assert(self@ =~= target);
        }
    }

    /// Lets `name` stand for `value`.
    pub fn insert(&mut self, name: String, value: T)
        requires
            old(self).wf(),
        ensures
            final(self).wf(),
            final(self)@ == old(self)@.insert(name@, value),
    {
        let at: usize = self.place(name.as_str());
        let ghost before = names_of(self.entries@);
        let ghost text = name@;
        let ghost entry = TextEntry { name, value };
        let ghost start = *self;
        proof {
            start.lemma_entries();
        }
        if at < self.entries.len() && str_eq(self.entries[at].name.as_str(), name.as_str()) {
            self.entries.set(at, TextEntry { name, value });
            assert(names_of(self.entries@) =~= before);
            proof {
                self.lemma_entries();
                assert(self@ =~= start@.insert(text, entry.value)) by {
                    lemma_same(*self, start@.insert(text, entry.value), start, at as int);
                }
            }
            return ;
        }
        self.entries.insert(at, TextEntry { name, value });
        let ghost after = names_of(self.entries@);
        proof {
            assert(after =~= before.insert(at as int, text));
            assert forall|i: int, j: int| 0 <= i < j < after.len() implies text_less(
                #[trigger] after[i],
                #[trigger] after[j],
            ) by {
                let x = if i < at {
                    i
                } else {
                    i - 1
                };
                let y = if j < at {
                    j
                } else {
                    j - 1
                };
                if i != at && j != at {
                    assert(after[i] == before[x]);
                    assert(after[j] == before[y]);
                } else if i == at {
                    assert(after[j] == before[y]);
                    assert(start.entries@[at as int].name@ == before[at as int]);
                    lemma_text_less_total(before[at as int], text);
                    if y > at {
                        assert(text_less(before[at as int], before[y]));
                        lemma_text_less_transitive(text, before[at as int], before[y]);
                    }
                } else {
                    assert(after[i] == before[i]);
                    assert(start.entries@[i].name@ == before[i]);
                }
            }
            self.lemma_entries();
            let target = start@.insert(text, entry.value);
            assert(self@.dom() =~= target.dom()) by {
                assert forall|k: Seq<char>| self@.dom().contains(k) implies target.dom().contains(
                    k,
                ) by {
                    let i = choose|i: int| 0 <= i < after.len() && after[i] == k;
                    if i < at {
                        assert(start.entries@[i].name@ == k);
                    } else if i > at {
                        assert(start.entries@[i - 1].name@ == k);
                    }
                }
                assert forall|k: Seq<char>| target.dom().contains(k) implies self@.dom().contains(
                    k,
                ) by {
                    if k == text {
                        assert(self.entries@[at as int].name@ == k);
                    } else {
                        let i = choose|i: int| 0 <= i < before.len() && before[i] == k;
                        if i < at {
                            assert(self.entries@[i].name@ == k);
                        } else {
                            assert(self.entries@[i + 1].name@ == k);
                        }
                    }
                }
            }
            assert forall|k: Seq<char>| self@.contains_key(k) implies self@[k] == target[k] by {
                let i = choose|i: int| 0 <= i < after.len() && after[i] == k;
                assert(self.entries@[i].name@ == k);
                if i < at {
                    assert(start.entries@[i].name@ == k);
                } else if i > at {
                    assert(start.entries@[i - 1].name@ == k);
                }
            }
            assert(self@ =~= target);
        }
    }
}

/// The map after the entry at `at` got another value.
proof fn lemma_same<T>(m: TextMap<T>, target: Map<Seq<char>, T>, start: TextMap<T>, at: int)
    requires
        m.wf(),
        start.wf(),
        0 <= at < start.entries@.len(),
        names_of(m.entries@) == names_of(start.entries@),
        m.entries@ == start.entries@.update(at, m.entries@[at]),
        target == start@.insert(start.entries@[at].name@, m.entries@[at].value),
    ensures
        m@ == target,
{
    m.lemma_entries();
    start.lemma_entries();
    let names = names_of(m.entries@);
    assert(names[at] == start.entries@[at].name@);
    assert forall|k: Seq<char>| m@.contains_key(k) implies m@[k] == target[k] by {
        let i = choose|i: int| 0 <= i < names.len() && names[i] == k;
        assert(m.entries@[i].name@ == k);
        assert(names_of(start.entries@)[i] == start.entries@[i].name@);
        lemma_text_less_total(k, k);
        if i < at {
            assert(text_less(names[i], names[at]));
        } else if at < i {
            assert(text_less(names[at], names[i]));
        }
    }
    assert(m@ =~= target);
}

/// A map has exactly the names of its entries, in order.
pub proof fn lemma_map_is_its_entries<T>(m: TextMap<T>, name: Seq<char>)
    ensures
        m@.contains_key(name) <==> exists|i: int|
            0 <= i < m.entries@.len() && (#[trigger] m.entries@[i]).name@ == name,
        m.wf() ==> forall|i: int, j: int|
            0 <= i < j < m.entries@.len() ==> text_less(
                (#[trigger] m.entries@[i]).name@,
                (#[trigger] m.entries@[j]).name@,
            ),
{
    let names = names_of(m.entries@);
    if m@.contains_key(name) {
        let i = choose|i: int| 0 <= i < names.len() && names[i] == name;
        assert(m.entries@[i].name@ == name);
    }
    if exists|i: int| 0 <= i < m.entries@.len() && (#[trigger] m.entries@[i]).name@ == name {
        let i = choose|i: int|
            0 <= i < m.entries@.len() && (#[trigger] m.entries@[i]).name@ == name;
        assert(names[i] == name);
    }
    if m.wf() {
        assert forall|i: int, j: int| 0 <= i < j < m.entries@.len() implies text_less(
            (#[trigger] m.entries@[i]).name@,
            (#[trigger] m.entries@[j]).name@,
        ) by {
            assert(text_less(names[i], names[j]));
        }
    }
}

/// The texts of a map are those of its values, by the same names.
pub proof fn lemma_texts(m: Map<Seq<char>, String>, name: Seq<char>)
    ensures
        texts(m).contains_key(name) <==> m.contains_key(name),
        m.contains_key(name) ==> texts(m)[name] == m[name]@,
{
}

} // verus!
