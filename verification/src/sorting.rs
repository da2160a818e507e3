//! The classes in order: by id, by name, or by period.

use crate::class::{Class, ClassView};
use crate::classes::{
    by_id, class_views, distinct_ids, lemma_by_id, lemma_front_distinct, Classes,
};
use crate::decimal::{decimal, numeral};
use crate::text::{
    comes_before, lemma_not_after_transitive, lemma_precedes_asymmetric, precedes, to_chars,
};
use vstd::prelude::*;

verus! {

/// What the classes are sorted by.
#[derive(Clone, Copy, Debug, PartialEq, Eq, Structural)]
pub enum SortingMethod {
    ID,
    Name,
    Period,
}

/// The text by which a class is sorted. The period is taken as it is
/// written, so that period 10 comes before period 2.
pub open spec fn sort_key(c: ClassView, method: SortingMethod) -> Seq<char> {
    match method {
        SortingMethod::ID => c.id,
        SortingMethod::Name => c.name,
        SortingMethod::Period => decimal(c.period),
    }
}

/// Where a class with the given key goes into a sorted list: behind the last
/// class whose key is not after it.
pub open spec fn insert_position(sorted: Seq<ClassView>, key: Seq<char>, method: SortingMethod) -> int
    decreases sorted.len(),
{
    if sorted.len() == 0 {
        0
    } else if precedes(key, sort_key(sorted.last(), method)) {
        insert_position(sorted.drop_last(), key, method)
    } else {
        sorted.len() as int
    }
}

/// The classes sorted by their keys. Classes with the same key keep the
/// order that they had.
pub open spec fn sorted_by(entries: Seq<ClassView>, method: SortingMethod) -> Seq<ClassView>
    decreases entries.len(),
{
    if entries.len() == 0 {
        Seq::<ClassView>::empty()
    } else {
        let head = sorted_by(entries.drop_last(), method);
        head.insert(
            insert_position(head, sort_key(entries.last(), method), method),
            entries.last(),
        )
    }
}

/// No class comes after one with an earlier key.
pub open spec fn in_order(entries: Seq<ClassView>, method: SortingMethod) -> bool {
    forall|i: int, j: int|
        0 <= i < j < entries.len() ==> !precedes(
            sort_key(#[trigger] entries[j], method),
            sort_key(#[trigger] entries[i], method),
        )
}

/// What `insert_position` finds: every class from there on has a later key,
/// and the class in front of it does not.
pub proof fn lemma_insert_position(sorted: Seq<ClassView>, key: Seq<char>, method: SortingMethod)
    ensures
        0 <= insert_position(sorted, key, method) <= sorted.len(),
        forall|j: int|
            insert_position(sorted, key, method) <= j < sorted.len() ==> precedes(
                key,
                sort_key(#[trigger] sorted[j], method),
            ),
        insert_position(sorted, key, method) > 0 ==> !precedes(
            key,
            sort_key(sorted[insert_position(sorted, key, method) - 1], method),
        ),
    decreases sorted.len(),
{
    if sorted.len() > 0 && precedes(key, sort_key(sorted.last(), method)) {
        let front = sorted.drop_last();
        lemma_insert_position(front, key, method);
        let p = insert_position(front, key, method);
        assert forall|j: int| p <= j < sorted.len() implies precedes(
            key,
            sort_key(#[trigger] sorted[j], method),
        ) by {
            if j < front.len() {
                assert(front[j] == sorted[j]);
            }
        }
        if p > 0 {
            assert(front[p - 1] == sorted[p - 1]);
        }
    }
}

/// Sorting keeps every class, and each as often as it was there.
pub proof fn lemma_sorted_by_keeps(entries: Seq<ClassView>, method: SortingMethod)
    ensures
        sorted_by(entries, method).len() == entries.len(),
        sorted_by(entries, method).to_multiset() == entries.to_multiset(),
    decreases entries.len(),
{
    broadcast use vstd::seq_lib::group_to_multiset_ensures;

    if entries.len() == 0 {
    } else {
        let front = entries.drop_last();
        let x = entries.last();
        lemma_sorted_by_keeps(front, method);
        let head = sorted_by(front, method);
        let p = insert_position(head, sort_key(x, method), method);
        lemma_insert_position(head, sort_key(x, method), method);
        let all = head.insert(p, x);
        assert(all.remove(p) =~= head);
        assert(all[p] == x);
        vstd::seq_lib::to_multiset_remove(all, p);
        assert(all.to_multiset().count(x) > 0) by {
            assert(all.contains(x));
        }
        assert(all.to_multiset() =~= head.to_multiset().insert(x));
        assert(front.push(x) =~= entries);
        assert(entries.to_multiset() =~= front.to_multiset().insert(x));
    }
}

/// The sorted classes are in order.
pub proof fn lemma_sorted_by_in_order(entries: Seq<ClassView>, method: SortingMethod)
    ensures
        in_order(sorted_by(entries, method), method),
    decreases entries.len(),
{
    if entries.len() > 0 {
        let front = entries.drop_last();
        let x = entries.last();
        let kx = sort_key(x, method);
        lemma_sorted_by_in_order(front, method);
        let head = sorted_by(front, method);
        let p = insert_position(head, kx, method);
        lemma_insert_position(head, kx, method);
        let all = head.insert(p, x);
        assert forall|i: int, j: int| 0 <= i < j < all.len() implies !precedes(
            sort_key(#[trigger] all[j], method),
            sort_key(#[trigger] all[i], method),
        ) by {
            if j < p {
                assert(all[i] == head[i] && all[j] == head[j]);
            } else if j == p {
                assert(all[i] == head[i]);
                if i < p - 1 {
                    lemma_not_after_transitive(
                        sort_key(head[i], method),
                        sort_key(head[p - 1], method),
                        kx,
                    );
                }
            } else if i == p {
                assert(all[j] == head[j - 1]);
                lemma_precedes_asymmetric(kx, sort_key(head[j - 1], method));
            } else if i > p {
                assert(all[i] == head[i - 1] && all[j] == head[j - 1]);
            } else {
                assert(all[i] == head[i] && all[j] == head[j - 1]);
            }
        }
    }
}

/// Sorting a list of distinct ids changes neither the ids nor the class
/// under any of them.
pub proof fn lemma_sorted_by_same_store(entries: Seq<ClassView>, method: SortingMethod)
    requires
        distinct_ids(entries),
    ensures
        distinct_ids(sorted_by(entries, method)),
        by_id(sorted_by(entries, method)) == by_id(entries),
        forall|i: int|
            0 <= i < entries.len() ==> sorted_by(entries, method).contains(#[trigger] entries[i]),
        forall|i: int|
            0 <= i < sorted_by(entries, method).len() ==> entries.contains(
                #[trigger] sorted_by(entries, method)[i],
            ),
    decreases entries.len(),
{
    if entries.len() == 0 {
    } else {
        let front = entries.drop_last();
        let x = entries.last();
        lemma_front_distinct(entries);
        lemma_sorted_by_same_store(front, method);
        let head = sorted_by(front, method);
        let p = insert_position(head, sort_key(x, method), method);
        lemma_insert_position(head, sort_key(x, method), method);
        let all = head.insert(p, x);
        assert forall|i: int| 0 <= i < head.len() implies (#[trigger] head[i]).id != x.id by {
            assert(front.contains(head[i]));
            let k = choose|k: int| 0 <= k < front.len() && front[k] == head[i];
            assert(front[k] == entries[k]);
            assert(entries[k].id != entries[entries.len() - 1].id);
        }
        assert(distinct_ids(all)) by {
            assert forall|i: int, j: int| 0 <= i < j < all.len() implies (#[trigger] all[i]).id != (
            #[trigger] all[j]).id by {
                let i0 = if i < p { i } else { i - 1 };
                let j0 = if j < p { j } else { j - 1 };
                if i != p && j != p {
                    assert(all[i] == head[i0] && all[j] == head[j0]);
                } else if i == p {
                    assert(all[j] == head[j0]);
                } else {
                    assert(all[i] == head[i0]);
                }
            }
        }
        assert forall|i: int| 0 <= i < entries.len() implies all.contains(
            #[trigger] entries[i],
        ) by {
            if i < front.len() {
                assert(front[i] == entries[i]);
                assert(head.contains(front[i]));
                let k = choose|k: int| 0 <= k < head.len() && head[k] == front[i];
                let k1 = if k < p { k } else { k + 1 };
                assert(all[k1] == head[k]);
            } else {
                assert(all[p] == x);
            }
        }
        assert forall|i: int| 0 <= i < all.len() implies entries.contains(#[trigger] all[i]) by {
            if i == p {
                assert(entries[entries.len() - 1] == x);
            } else {
                let i0 = if i < p { i } else { i - 1 };
                assert(all[i] == head[i0]);
                assert(front.contains(head[i0]));
                let k = choose|k: int| 0 <= k < front.len() && front[k] == head[i0];
                assert(entries[k] == front[k]);
            }
        }
        lemma_same_classes_same_store(all, entries);
    }
}

/// Among distinct ids, a class stands at the position of its id.
pub proof fn lemma_position_of(entries: Seq<ClassView>, k: int)
    requires
        distinct_ids(entries),
        0 <= k < entries.len(),
    ensures
        crate::classes::position(entries, entries[k].id) == k,
{
    crate::classes::lemma_position(entries, entries[k].id);
    let p = crate::classes::position(entries, entries[k].id);
    if p < k {
        assert(entries[p].id != entries[k].id);
    }
}

/// Sorting is stable: of two classes with the same key, the one that stood
/// first in the list stands first among the sorted.
pub proof fn lemma_sorted_by_stable(
    entries: Seq<ClassView>,
    method: SortingMethod,
    i: int,
    j: int,
)
    requires
        distinct_ids(entries),
        0 <= i < j < entries.len(),
        sort_key(entries[i], method) == sort_key(entries[j], method),
    ensures
        crate::classes::position(sorted_by(entries, method), entries[i].id)
            < crate::classes::position(sorted_by(entries, method), entries[j].id)
            < entries.len(),
    decreases entries.len(),
{
    let front = entries.drop_last();
    let x = entries.last();
    let kx = sort_key(x, method);
    lemma_front_distinct(entries);
    let head = sorted_by(front, method);
    let all = sorted_by(entries, method);
    let p = insert_position(head, kx, method);
    lemma_insert_position(head, kx, method);
    lemma_sorted_by_same_store(front, method);
    lemma_sorted_by_same_store(entries, method);
    lemma_sorted_by_keeps(entries, method);
    assert(front[i] == entries[i]);
    assert(head.contains(front[i]));
    let qi = choose|q: int| 0 <= q < head.len() && head[q] == front[i];
    lemma_position_of(head, qi);
    let qi1 = if qi < p { qi } else { qi + 1 };
    assert(all[qi1] == head[qi]);
    lemma_position_of(all, qi1);
    if j < entries.len() - 1 {
        lemma_sorted_by_stable(front, method, i, j);
        assert(front[j] == entries[j]);
        assert(head.contains(front[j]));
        let qj = choose|q: int| 0 <= q < head.len() && head[q] == front[j];
        lemma_position_of(head, qj);
        let qj1 = if qj < p { qj } else { qj + 1 };
        assert(all[qj1] == head[qj]);
        lemma_position_of(all, qj1);
    } else {
        assert(all[p] == x);
        lemma_position_of(all, p);
        if qi >= p {
            assert(precedes(kx, sort_key(head[qi], method)));
            crate::text::lemma_precedes_asymmetric(kx, sort_key(head[qi], method));
        }
    }
}

/// Two lists of distinct ids that hold the same classes are the same store.
pub proof fn lemma_same_classes_same_store(a: Seq<ClassView>, b: Seq<ClassView>)
    requires
        distinct_ids(a),
        distinct_ids(b),
        forall|i: int| 0 <= i < a.len() ==> b.contains(#[trigger] a[i]),
        forall|i: int| 0 <= i < b.len() ==> a.contains(#[trigger] b[i]),
    ensures
        by_id(a) == by_id(b),
{
    lemma_by_id(a);
    lemma_by_id(b);
    assert forall|id: Seq<char>| by_id(a).contains_key(id) <==> by_id(b).contains_key(id) by {
        crate::classes::lemma_position(a, id);
        crate::classes::lemma_position(b, id);
        if by_id(a).contains_key(id) {
            let i = crate::classes::position(a, id);
            assert(b.contains(a[i]));
            let k = choose|k: int| 0 <= k < b.len() && b[k] == a[i];
            assert(by_id(b).contains_key(b[k].id));
        }
        if by_id(b).contains_key(id) {
            let i = crate::classes::position(b, id);
            assert(a.contains(b[i]));
            let k = choose|k: int| 0 <= k < a.len() && a[k] == b[i];
            assert(by_id(a).contains_key(a[k].id));
        }
    }
    assert forall|id: Seq<char>| by_id(a).contains_key(id) implies by_id(a)[id] == by_id(b)[id] by {
        crate::classes::lemma_position(a, id);
        let i = crate::classes::position(a, id);
        assert(by_id(a)[a[i].id] == a[i]);
        assert(b.contains(a[i]));
        let k = choose|k: int| 0 <= k < b.len() && b[k] == a[i];
        assert(by_id(b)[b[k].id] == b[k]);
    }
    assert(by_id(a) =~= by_id(b));
}

impl Classes {
    /// Copies of the classes, sorted by the given method. Classes with the
    /// same key keep the order in which they came into the store.
    pub fn sorted(&self, sort: SortingMethod) -> (out: Vec<Class>)
        ensures
            class_views(out@) == sorted_by(self.list(), sort),
            in_order(class_views(out@), sort),
            out.len() == self.entries.len(),
            class_views(out@).to_multiset() == self.list().to_multiset(),
    {
        proof {
            lemma_sorted_by_in_order(self.list(), sort);
            lemma_sorted_by_keeps(self.list(), sort);
        }
        let mut out: Vec<Class> = Vec::new();
        let mut keys: Vec<Vec<char>> = Vec::new();
        let mut i: usize = 0;
        proof {
            assert(self.list().take(0) =~= Seq::<ClassView>::empty());
            assert(class_views(out@) =~= Seq::<ClassView>::empty());
        }
        while i < self.entries.len()
            invariant
                i <= self.entries.len(),
                keys.len() == out.len(),
                class_views(out@) == sorted_by(self.list().take(i as int), sort),
                forall|k: int|
                    0 <= k < out.len() ==> (#[trigger] keys@[k])@ == sort_key(out@[k]@, sort),
            decreases self.entries.len() - i,
        {
            let c = &self.entries[i];
            let key = match sort {
                SortingMethod::ID => to_chars(c.id.as_str()),
                SortingMethod::Name => to_chars(c.name.as_str()),
                SortingMethod::Period => to_chars(numeral(c.period).as_str()),
            };
            let ghost head = class_views(out@);
            proof {
                assert(self.list().take(i + 1).drop_last() =~= self.list().take(i as int));
                assert(self.list().take(i + 1).last() == c@);
                assert(head.take(head.len() as int) =~= head);
            }
            let mut p: usize = out.len();
            while p > 0 && comes_before(&key, &keys[p - 1])
                invariant
                    p <= out.len(),
                    keys.len() == out.len(),
                    head == class_views(out@),
                    forall|k: int|
                        0 <= k < out.len() ==> (#[trigger] keys@[k])@ == sort_key(out@[k]@, sort),
                    insert_position(head, key@, sort) == insert_position(
                        head.take(p as int),
                        key@,
                        sort,
                    ),
                decreases p,
            {
                proof {
                    assert(head.take(p as int).last() == out@[p - 1]@);
                    assert(head.take(p as int).drop_last() =~= head.take(p - 1));
                }
                p -= 1;
            }
            proof {
                if p > 0 {
                    assert(head.take(p as int).last() == out@[p - 1]@);
                }
                assert(insert_position(head, key@, sort) == p);
            }
            let copy = c.clone();
            out.insert(p, copy);
            keys.insert(p, key);
            proof {
                assert(class_views(out@) =~= head.insert(p as int, c@));
            }
            i += 1;
        }
        proof {
            assert(self.list().take(self.entries@.len() as int) =~= self.list());
        }
        out
    }
}

} // verus!
