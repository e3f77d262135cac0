//! Putting lists in order by a rank and a name.

use vstd::prelude::*;

use crate::strings::{lemma_text_less_total, lemma_text_less_transitive, str_eq, str_less, text_less};

verus! {

/// What a list is ordered by: first the rank, then the name.
pub struct SortKey {
    pub rank: u8,
    pub name: String,
}

pub struct KeyView {
    pub rank: u8,
    pub name: Seq<char>,
}

impl View for SortKey {
    type V = KeyView;

    open spec fn view(&self) -> KeyView {
        KeyView { rank: self.rank, name: self.name@ }
    }
}

pub open spec fn key_less(a: KeyView, b: KeyView) -> bool {
    a.rank < b.rank || (a.rank == b.rank && text_less(a.name, b.name))
}

/// Whether item `i` stands before item `j` in the sorted list: it has the smaller key, or
/// the same key and came first before.
pub open spec fn comes_before(keys: Seq<KeyView>, i: int, j: int) -> bool {
    key_less(keys[i], keys[j]) || (keys[i] == keys[j] && i < j)
}

/// Whether `order` lists the positions of `keys` in sorted order, each once, and leaves items
/// with equal keys in the order they came in.
pub open spec fn is_order(keys: Seq<KeyView>, order: Seq<usize>) -> bool {
    &&& order.len() == keys.len()
    &&& forall|a: int| 0 <= a < order.len() ==> (#[trigger] order[a]) < keys.len()
    &&& forall|a: int, b: int|
        0 <= a < b < order.len() ==> comes_before(
            keys,
            (#[trigger] order[a]) as int,
            (#[trigger] order[b]) as int,
        )
}

/// `items` taken in the order of `order`.
pub open spec fn rearranged<T>(items: Seq<T>, order: Seq<usize>) -> Seq<T> {
    Seq::new(order.len(), |a: int| items[order[a] as int])
}

/// Whether `after` holds the items of `before`, sorted by `keys`.
pub open spec fn is_sorted_copy<T>(before: Seq<T>, keys: Seq<KeyView>, after: Seq<T>) -> bool {
    exists|order: Seq<usize>|
        #![trigger is_order(keys, order)]
        is_order(keys, order) && after == rearranged(before, order)
}

pub proof fn lemma_key_less_total(a: KeyView, b: KeyView)
    ensures
        a == b ==> !key_less(a, b) && !key_less(b, a),
        a != b ==> key_less(a, b) != key_less(b, a),
{
    lemma_text_less_total(a.name, b.name);
}

pub proof fn lemma_comes_before_total(keys: Seq<KeyView>, i: int, j: int)
    requires
        i != j,
    ensures
        comes_before(keys, i, j) != comes_before(keys, j, i),
{
    lemma_key_less_total(keys[i], keys[j]);
}

pub proof fn lemma_comes_before_transitive(keys: Seq<KeyView>, i: int, j: int, k: int)
    requires
        comes_before(keys, i, j),
        comes_before(keys, j, k),
    ensures
        comes_before(keys, i, k),
{
    if keys[i].rank == keys[j].rank && keys[j].rank == keys[k].rank {
        if text_less(keys[i].name, keys[j].name) && text_less(keys[j].name, keys[k].name) {
            lemma_text_less_transitive(keys[i].name, keys[j].name, keys[k].name);
        }
    }
}

/// Whether item `i` comes before item `j`.
fn precedes(keys: &Vec<SortKey>, i: usize, j: usize) -> (r: bool)
    requires
        i < keys@.len(),
        j < keys@.len(),
    ensures
        r == comes_before(keys@.map_values(|k: SortKey| k@), i as int, j as int),
{
    let a = &keys[i];
    let b = &keys[j];
    let ghost ks = keys@.map_values(|k: SortKey| k@);
    assert(ks[i as int] == a@);
    assert(ks[j as int] == b@);
    if a.rank != b.rank {
        a.rank < b.rank
    } else if str_less(a.name.as_str(), b.name.as_str()) {
        true
    } else if str_eq(a.name.as_str(), b.name.as_str()) {
        proof {
            lemma_key_less_total(a@, b@);
        }
        i < j
    } else {
        false
    }
}

/// The positions of `keys` in sorted order.
pub fn sorted_order(keys: &Vec<SortKey>) -> (order: Vec<usize>)
    ensures
        is_order(keys@.map_values(|k: SortKey| k@), order@),
{
    let ghost ks = keys@.map_values(|k: SortKey| k@);
    let mut order: Vec<usize> = Vec::new();
    let mut n: usize = 0;
    while n < keys.len()
        invariant
            n <= keys@.len(),
            ks == keys@.map_values(|k: SortKey| k@),
            order@.len() == n,
            forall|a: int| 0 <= a < n ==> (#[trigger] order@[a]) < n,
            forall|a: int, b: int|
                0 <= a < b < n ==> comes_before(
                    ks,
                    (#[trigger] order@[a]) as int,
                    (#[trigger] order@[b]) as int,
                ),
        decreases keys@.len() - n,
    {
        // The place of item `n` among those before it.
        let mut at: usize = order.len();
        while at > 0 && precedes(keys, n, order[at - 1])
            invariant
                n < keys@.len(),
                ks == keys@.map_values(|k: SortKey| k@),
                at <= order@.len() == n,
                forall|a: int| 0 <= a < n ==> (#[trigger] order@[a]) < n,
                forall|b: int|
                    at <= b < n ==> comes_before(ks, n as int, (#[trigger] order@[b]) as int),
            decreases at,
        {
            at = at - 1;
        }
        let ghost before = order@;
        order.insert(at, n);
        proof {
            assert forall|a: int| 0 <= a < at implies comes_before(
                ks,
                (#[trigger] before[a]) as int,
                n as int,
            ) by {
                lemma_comes_before_total(ks, n as int, before[at - 1] as int);
                if a < at - 1 {
                    lemma_comes_before_transitive(
                        ks,
                        before[a] as int,
                        before[at - 1] as int,
                        n as int,
                    );
                }
            }
            assert forall|a: int, b: int| 0 <= a < b < n + 1 implies comes_before(
                ks,
                (#[trigger] order@[a]) as int,
                (#[trigger] order@[b]) as int,
            ) by {
                let x = if a < at {
                    a
                } else {
                    a - 1
                };
                let y = if b < at {
                    b
                } else {
                    b - 1
                };
                if a != at && b != at {
                    assert(order@[a] == before[x]);
                    assert(order@[b] == before[y]);
                } else if a == at {
                    assert(order@[b] == before[y]);
                } else {
                    assert(order@[a] == before[a]);
                }
            }
        }
        n = n + 1;
    }
    order
}

/// The items of a list in the order of their keys.
pub fn sort_by_keys<T>(items: Vec<T>, keys: &Vec<SortKey>) -> (r: Vec<T>)
    requires
        items@.len() == keys@.len(),
    ensures
        is_sorted_copy(items@, keys@.map_values(|k: SortKey| k@), r@),
{
    let order: Vec<usize> = sorted_order(keys);
    let ghost all = items@;
    let ghost ks = keys@.map_values(|k: SortKey| k@);
    let mut slots: Vec<Option<T>> = Vec::new();
    let mut items: Vec<T> = items;
    // The items, last first, so that each can be taken from the end.
    let mut rest: Vec<T> = Vec::new();
    while items.len() > 0
        invariant
            items@.len() + rest@.len() == all.len(),
            forall|j: int| 0 <= j < items@.len() ==> items@[j] == #[trigger] all[j],
            forall|j: int| 0 <= j < rest@.len() ==> #[trigger] rest@[j] == all[all.len() - 1 - j],
        decreases items@.len(),
    {
        let item = items.pop();
        match item {
            Some(item) => {
                rest.push(item);
            },
            None => {},
        }
    }
    while rest.len() > 0
        invariant
            slots@.len() + rest@.len() == all.len(),
            forall|j: int| 0 <= j < slots@.len() ==> slots@[j] == Some(#[trigger] all[j]),
            forall|j: int| 0 <= j < rest@.len() ==> #[trigger] rest@[j] == all[all.len() - 1 - j],
        decreases rest@.len(),
    {
        let item = rest.pop();
        slots.push(item);
    }
    let mut r: Vec<T> = Vec::new();
    let mut a: usize = 0;
    while a < order.len()
        invariant
            a <= order@.len(),
            ks.len() == all.len(),
            is_order(ks, order@),
            slots@.len() == all.len(),
            r@.len() == a,
            forall|b: int| 0 <= b < a ==> #[trigger] r@[b] == all[order@[b] as int],
            forall|b: int|
                a <= b < order@.len() ==> slots@[(#[trigger] order@[b]) as int] == Some(
                    all[order@[b] as int],
                ),
        decreases order@.len() - a,
    {
        let at: usize = order[a];
        let ghost before = slots@;
        let slot = &mut slots[at];
        let item = slot.take();
        match item {
            Some(item) => {
                r.push(item);
            },
            None => {},
        }
        assert forall|b: int| a + 1 <= b < order@.len() implies slots@[(
        #[trigger] order@[b]) as int] == Some(all[order@[b] as int]) by {
            assert(comes_before(ks, order@[a as int] as int, order@[b] as int));
            lemma_key_less_total(ks[at as int], ks[order@[b] as int]);
            assert(order@[b] != at);
        }
        a = a + 1;
    }
    assert(r@ =~= rearranged(all, order@));
    r
}

/// Sorting goes along with reading off what the items stand for.
pub proof fn lemma_sorted_copy_map<T, U>(
    before: Seq<T>,
    keys: Seq<KeyView>,
    after: Seq<T>,
    f: spec_fn(T) -> U,
)
    requires
        before.len() == keys.len(),
        is_sorted_copy(before, keys, after),
    ensures
        is_sorted_copy(before.map_values(f), keys, after.map_values(f)),
{
    let order = choose|order: Seq<usize>|
        #![trigger is_order(keys, order)]
        is_order(keys, order) && after == rearranged(before, order);
    assert(after.map_values(f) =~= rearranged(before.map_values(f), order));
}

/// There is only one sorted order of a list.
pub proof fn lemma_order_is_unique(keys: Seq<KeyView>, one: Seq<usize>, other: Seq<usize>)
    requires
        is_order(keys, one),
        is_order(keys, other),
    ensures
        one == other,
{
    assert forall|a: int| 0 <= a < one.len() implies one[a] == other[a] by {
        lemma_rank_determines(keys, one, other, a);
    }
    assert(one =~= other);
}

/// The items that come before item `i`.
pub open spec fn predecessors(keys: Seq<KeyView>, i: int) -> Set<int> {
    Set::new(|j: int| 0 <= j < keys.len() && comes_before(keys, j, i))
}

proof fn lemma_rank_in_order(keys: Seq<KeyView>, order: Seq<usize>)
    requires
        is_order(keys, order),
    ensures
        forall|a: int|
            0 <= a < order.len() ==> {
                &&& predecessors(keys, (#[trigger] order[a]) as int).finite()
                &&& predecessors(keys, order[a] as int).len() == a
            },
{
    lemma_order_is_onto(keys, order);
    assert forall|a: int| 0 <= a < order.len() implies {
        &&& predecessors(keys, (#[trigger] order[a]) as int).finite()
        &&& predecessors(keys, order[a] as int).len() == a
    } by {
        let ints = Seq::new(a as nat, |b: int| order[b] as int);
        assert forall|x: int, y: int| 0 <= x < y < ints.len() implies ints[x] != ints[y] by {
            assert(comes_before(keys, order[x] as int, order[y] as int));
            lemma_key_less_total(keys[order[x] as int], keys[order[y] as int]);
        }
        assert(ints.no_duplicates());
        ints.unique_seq_to_set();
        assert(ints.to_set() =~= predecessors(keys, order[a] as int)) by {
            assert forall|j: int| ints.to_set().contains(j) implies predecessors(
                keys,
                order[a] as int,
            ).contains(j) by {
                let b = choose|b: int| 0 <= b < ints.len() && ints[b] == j;
                assert(comes_before(keys, order[b] as int, order[a] as int));
            }
            assert forall|j: int| predecessors(keys, order[a] as int).contains(j) implies
                ints.to_set().contains(j) by {
                assert(occurs(order, j));
                let b = choose|b: int| 0 <= b < order.len() && (#[trigger] order[b]) == j;
                if b > a {
                    assert(comes_before(keys, order[a] as int, order[b] as int));
                    lemma_key_less_total(keys[order[a] as int], keys[order[b] as int]);
                } else if b == a {
                    lemma_key_less_total(keys[j], keys[j]);
                }
                assert(ints[b] == j);
            }
        }
    }
}

pub open spec fn occurs(order: Seq<usize>, j: int) -> bool {
    exists|b: int| 0 <= b < order.len() && (#[trigger] order[b]) == j
}

/// Every position occurs in an order.
proof fn lemma_order_is_onto(keys: Seq<KeyView>, order: Seq<usize>)
    requires
        is_order(keys, order),
    ensures
        forall|j: int| 0 <= j < keys.len() ==> #[trigger] occurs(order, j),
{
    let ints = Seq::new(order.len(), |b: int| order[b] as int);
    assert forall|x: int, y: int| 0 <= x < y < ints.len() implies ints[x] != ints[y] by {
        assert(comes_before(keys, order[x] as int, order[y] as int));
        lemma_key_less_total(keys[order[x] as int], keys[order[y] as int]);
    }
    assert(ints.no_duplicates());
    ints.unique_seq_to_set();
    let all = vstd::set_lib::set_int_range(0, keys.len() as int);
    vstd::set_lib::lemma_int_range(0, keys.len() as int);
    assert(ints.to_set().subset_of(all)) by {
        assert forall|j: int| ints.to_set().contains(j) implies all.contains(j) by {
            let b = choose|b: int| 0 <= b < ints.len() && ints[b] == j;
            assert(order[b] < keys.len());
        }
    }
    vstd::set_lib::lemma_subset_equality(ints.to_set(), all);
    assert forall|j: int| 0 <= j < keys.len() implies #[trigger] occurs(order, j) by {
        assert(all.contains(j));
        assert(ints.to_set().contains(j));
        let b = choose|b: int| 0 <= b < ints.len() && ints[b] == j;
        assert(order[b] == j);
    }
}

proof fn lemma_rank_determines(keys: Seq<KeyView>, one: Seq<usize>, other: Seq<usize>, a: int)
    requires
        is_order(keys, one),
        is_order(keys, other),
        0 <= a < one.len(),
    ensures
        one[a] == other[a],
{
    lemma_rank_in_order(keys, one);
    lemma_rank_in_order(keys, other);
    lemma_order_is_onto(keys, other);
    let i = one[a] as int;
    assert(occurs(other, i));
    let b = choose|b: int| 0 <= b < other.len() && (#[trigger] other[b]) == i;
    assert(predecessors(keys, one[a] as int).len() == a);
    assert(predecessors(keys, other[b] as int).len() == b);
}

/// Sorting loses nothing, makes nothing up and puts no item before one with a smaller key.
pub proof fn lemma_sorting_rearranges<T>(
    before: Seq<T>,
    keys: Seq<KeyView>,
    after: Seq<T>,
    f: spec_fn(T) -> KeyView,
) -> (order: Seq<usize>)
    requires
        is_sorted_copy(before, keys, after),
        keys.len() == before.len(),
        forall|i: int| 0 <= i < before.len() ==> #[trigger] keys[i] == f(before[i]),
    ensures
        after.len() == before.len(),
        order.len() == before.len(),
        order.no_duplicates(),
        forall|i: int|
            0 <= i < after.len() ==> (#[trigger] order[i]) < before.len() && after[i]
                == before[order[i] as int],
        forall|j: int| 0 <= j < before.len() ==> #[trigger] occurs(order, j),
        forall|i: int, j: int|
            0 <= i < j < after.len() ==> {
                let a = f(#[trigger] after[i]);
                let b = f(#[trigger] after[j]);
                a.rank < b.rank || (a.rank == b.rank && (a.name == b.name || text_less(
                    a.name,
                    b.name,
                )))
            },
{
    let order = choose|order: Seq<usize>|
        #![trigger is_order(keys, order)]
        is_order(keys, order) && after == rearranged(before, order);
    assert forall|i: int, j: int| 0 <= i < j < after.len() implies {
        let a = f(#[trigger] after[i]);
        let b = f(#[trigger] after[j]);
        a.rank < b.rank || (a.rank == b.rank && (a.name == b.name || text_less(a.name, b.name)))
    } by {
        assert(comes_before(keys, order[i] as int, order[j] as int));
        assert(keys[order[i] as int] == f(before[order[i] as int]));
        assert(keys[order[j] as int] == f(before[order[j] as int]));
    }
    lemma_order_is_onto(keys, order);
    assert forall|i: int, j: int|
        0 <= i < order.len() && 0 <= j < order.len() && i != j implies order[i] != order[j] by {
        if i < j {
            assert(comes_before(keys, order[i] as int, order[j] as int));
        } else {
            assert(comes_before(keys, order[j] as int, order[i] as int));
        }
        lemma_key_less_total(keys[order[i] as int], keys[order[j] as int]);
    }
    order
}

} // verus!
