//! The store: every class under its id.

use crate::class::{Class, ClassView};
use crate::error::{Error, ErrorView, Subject};
use crate::text::same;
use vstd::prelude::*;

verus! {

/// The classes of a store, in the order in which their ids first came in.
#[derive(Debug, PartialEq, Eq)]
pub struct Classes {
    pub entries: Vec<Class>,
}

/// The views of a list of classes.
pub open spec fn class_views(v: Seq<Class>) -> Seq<ClassView> {
    v.map_values(|c: Class| c@)
}

/// No two classes have the same id.
pub open spec fn distinct_ids(entries: Seq<ClassView>) -> bool {
    forall|i: int, j: int|
        0 <= i < j < entries.len() ==> (#[trigger] entries[i]).id != (#[trigger] entries[j]).id
}

/// The index of the first class with the given id; the length of the list if
/// there is none.
pub open spec fn position(entries: Seq<ClassView>, id: Seq<char>) -> int
    decreases entries.len(),
{
    if entries.len() == 0 {
        0
    } else if position(entries.drop_last(), id) < entries.len() - 1 {
        position(entries.drop_last(), id)
    } else if entries.last().id == id {
        entries.len() - 1
    } else {
        entries.len() as int
    }
}

/// Some class has the given id.
pub open spec fn has_id(entries: Seq<ClassView>, id: Seq<char>) -> bool {
    position(entries, id) < entries.len()
}

/// The list after a class came in: it takes the place of the class of the
/// same id, or the end of the list if there is none.
pub open spec fn put(entries: Seq<ClassView>, c: ClassView) -> Seq<ClassView> {
    if has_id(entries, c.id) {
        entries.update(position(entries, c.id), c)
    } else {
        entries.push(c)
    }
}

/// The classes by their ids. Of two classes with one id the later counts.
pub open spec fn by_id(entries: Seq<ClassView>) -> Map<Seq<char>, ClassView>
    decreases entries.len(),
{
    if entries.len() == 0 {
        Map::empty()
    } else {
        by_id(entries.drop_last()).insert(entries.last().id, entries.last())
    }
}

/// What `position` finds: a class of that id with none of that id in front
/// of it, or nothing where no class has that id.
pub proof fn lemma_position(entries: Seq<ClassView>, id: Seq<char>)
    ensures
        0 <= position(entries, id) <= entries.len(),
        has_id(entries, id) ==> entries[position(entries, id)].id == id,
        forall|k: int| 0 <= k < position(entries, id) ==> (#[trigger] entries[k]).id != id,
    decreases entries.len(),
{
    if entries.len() > 0 {
        let front = entries.drop_last();
        lemma_position(front, id);
        assert forall|k: int| 0 <= k < position(entries, id) implies (#[trigger] entries[k]).id
            != id by {
            if k < front.len() {
                assert(front[k] == entries[k]);
            }
        }
    }
}

/// A list of distinct ids without its last class is a list of distinct ids.
pub proof fn lemma_front_distinct(entries: Seq<ClassView>)
    requires
        distinct_ids(entries),
        entries.len() > 0,
    ensures
        distinct_ids(entries.drop_last()),
{
    let front = entries.drop_last();
    assert forall|i: int, j: int| 0 <= i < j < front.len() implies (#[trigger] front[i]).id != (
    #[trigger] front[j]).id by {
        assert(front[i] == entries[i] && front[j] == entries[j]);
    }
}

/// Among distinct ids, the map holds under each id the one class that has it:
/// the id of every class is its key.
pub proof fn lemma_by_id(entries: Seq<ClassView>)
    requires
        distinct_ids(entries),
    ensures
        forall|id: Seq<char>| #[trigger] by_id(entries).contains_key(id) <==> has_id(entries, id),
        forall|i: int|
            0 <= i < entries.len() ==> by_id(entries).contains_key((#[trigger] entries[i]).id)
                && by_id(entries)[entries[i].id] == entries[i],
        forall|id: Seq<char>|
            by_id(entries).contains_key(id) ==> (#[trigger] by_id(entries)[id]).id == id,
    decreases entries.len(),
{
    if entries.len() > 0 {
        let front = entries.drop_last();
        lemma_front_distinct(entries);
        lemma_by_id(front);
        assert forall|id: Seq<char>| #[trigger]
            by_id(entries).contains_key(id) <==> has_id(entries, id) by {
            lemma_position(front, id);
            lemma_position(entries, id);
        }
        assert forall|i: int| 0 <= i < entries.len() implies by_id(entries).contains_key(
            (#[trigger] entries[i]).id,
        ) && by_id(entries)[entries[i].id] == entries[i] by {
            if i < front.len() {
                assert(front[i] == entries[i]);
                assert(entries[i].id != entries[entries.len() - 1].id);
            }
        }
        assert forall|id: Seq<char>| by_id(entries).contains_key(id) implies (#[trigger] by_id(
            entries,
        )[id]).id == id by {
            if id != entries.last().id {
                assert(by_id(front).contains_key(id));
                assert(by_id(entries)[id] == by_id(front)[id]);
            }
        }
    }
}

/// Putting a class into a list of distinct ids keeps the ids distinct, and
/// sets the map's entry under the class's id.
pub proof fn lemma_put(entries: Seq<ClassView>, c: ClassView)
    requires
        distinct_ids(entries),
    ensures
        distinct_ids(put(entries, c)),
        by_id(put(entries, c)) == by_id(entries).insert(c.id, c),
{
    let after = put(entries, c);
    let p = position(entries, c.id);
    lemma_position(entries, c.id);
    assert(distinct_ids(after)) by {
        assert forall|i: int, j: int| 0 <= i < j < after.len() implies (#[trigger] after[i]).id != (
        #[trigger] after[j]).id by {
            if has_id(entries, c.id) {
                assert(after[i].id == entries[i].id);
                assert(after[j].id == entries[j].id);
            } else {
                if j < entries.len() {
                    assert(after[i] == entries[i] && after[j] == entries[j]);
                } else {
                    assert(after[i] == entries[i]);
                }
            }
        }
    }
    lemma_by_id(entries);
    lemma_by_id(after);
    let want = by_id(entries).insert(c.id, c);
    assert forall|id: Seq<char>| by_id(after).contains_key(id) <==> want.contains_key(id) by {
        lemma_position(entries, id);
        lemma_position(after, id);
        if has_id(entries, id) {
            let k = position(entries, id);
            assert(after[k].id == id || id == c.id);
            if has_id(entries, c.id) {
                assert(after[k].id == entries[k].id);
            } else {
                assert(after[k] == entries[k]);
            }
            assert(by_id(after).contains_key(after[k].id));
        }
        if id == c.id {
            if has_id(entries, c.id) {
                assert(after[p] == c);
            } else {
                assert(after[entries.len() as int] == c);
            }
        }
        if has_id(after, id) && id != c.id {
            let k = position(after, id);
            assert(after[k].id == id);
            if has_id(entries, c.id) {
                assert(k != p);
                assert(after[k] == entries[k]);
            } else {
                assert(k < entries.len());
                assert(after[k] == entries[k]);
            }
            assert(by_id(entries).contains_key(entries[k].id));
        }
    }
    assert forall|id: Seq<char>| by_id(after).contains_key(id) implies by_id(after)[id]
        == want[id] by {
        lemma_position(after, id);
        let k = position(after, id);
        assert(by_id(after)[after[k].id] == after[k]);
        if id == c.id {
            if has_id(entries, c.id) {
                assert(after[p] == c);
                assert(k == p) by {
                    if k < p {
                        assert(after[k] == entries[k]);
                    } else if k > p {
                        assert(after[p].id == id);
                    }
                }
            } else {
                assert(k == entries.len()) by {
                    if k < entries.len() {
                        assert(after[k] == entries[k]);
                    }
                }
            }
        } else {
            if has_id(entries, c.id) {
                assert(k != p);
                assert(after[k] == entries[k]);
            } else {
                assert(k < entries.len());
                assert(after[k] == entries[k]);
            }
            assert(by_id(entries)[entries[k].id] == entries[k]);
        }
    }
    assert(by_id(after) =~= want);
}

impl View for Classes {
    type V = Map<Seq<char>, ClassView>;

    open spec fn view(&self) -> Map<Seq<char>, ClassView> {
        by_id(self.list())
    }
}

impl Classes {
    /// The classes as plain values, in their order.
    pub open spec fn list(&self) -> Seq<ClassView> {
        class_views(self.entries@)
    }

    /// The store is in order: no two of its classes have the same id.
    pub open spec fn wf(&self) -> bool {
        distinct_ids(self.list())
    }

    /// The empty store.
    pub fn new() -> (s: Self)
        ensures
            s.wf(),
            s.list() == Seq::<ClassView>::empty(),
            s@ == Map::<Seq<char>, ClassView>::empty(),
    {
        let s = Classes { entries: Vec::new() };
        proof {
            assert(s.list() =~= Seq::<ClassView>::empty());
        }
        s
    }

    /// The index of the class with the given id, if there is one.
    pub fn find(&self, id: &str) -> (r: Option<usize>)
        ensures
            match r {
                Some(i) => has_id(self.list(), id@) && i == position(self.list(), id@),
                None => !has_id(self.list(), id@),
            },
    {
        let mut i: usize = 0;
        proof {
            assert(self.list().take(0) =~= Seq::<ClassView>::empty());
        }
        while i < self.entries.len()
            invariant
                i <= self.entries.len(),
                position(self.list().take(i as int), id@) == i,
            decreases self.entries.len() - i,
        {
            proof {
                assert(self.list().take(i + 1).drop_last() =~= self.list().take(i as int));
                assert(self.list().take(i + 1).last() == self.entries@[i as int]@);
            }
            if same(self.entries[i].id.as_str(), id) {
                proof {
                    lemma_position_prefix(self.list(), id@, i + 1);
                }
                return Some(i);
            }
            i += 1;
        }
        proof {
            assert(self.list().take(self.entries@.len() as int) =~= self.list());
        }
        None
    }

    /// Whether the store is in order: no two classes have the same id.
    pub fn is_well_formed(&self) -> (r: bool)
        ensures
            r == self.wf(),
    {
        let mut j: usize = 0;
        while j < self.entries.len()
            invariant
                j <= self.entries.len(),
                forall|a: int, b: int|
                    0 <= a < b < j ==> (#[trigger] self.list()[a]).id != (
                    #[trigger] self.list()[b]).id,
            decreases self.entries.len() - j,
        {
            let mut i: usize = 0;
            while i < j
                invariant
                    i <= j < self.entries.len(),
                    forall|a: int| 0 <= a < i ==> (#[trigger] self.list()[a]).id != self.list()[j as int].id,
                decreases j - i,
            {
                if same(self.entries[i].id.as_str(), self.entries[j].id.as_str()) {
                    assert(self.list()[i as int].id == self.list()[j as int].id);
                    return false;
                }
                i += 1;
            }
            j += 1;
        }
        true
    }

    /// Whether a class has the given id.
    pub fn contains(&self, id: &str) -> (r: bool)
        ensures
            r == has_id(self.list(), id@),
            self.wf() ==> r == self@.contains_key(id@),
    {
        proof {
            if self.wf() {
                lemma_by_id(self.list());
            }
        }
        self.find(id).is_some()
    }

    /// Takes a class into the store, in place of the class of the same id if
    /// there is one.
    pub fn add_class(&mut self, class: Class)
        requires
            old(self).wf(),
        ensures
            final(self).wf(),
            final(self).list() == put(old(self).list(), class@),
            final(self)@ == old(self)@.insert(class.id@, class@),
    {
        proof {
            lemma_put(self.list(), class@);
        }
        let ghost before = self.list();
        match self.find(class.id.as_str()) {
            Some(i) => {
                self.entries.set(i, class);
                proof {
                    assert(self.list() =~= before.update(i as int, class@));
                }
            },
            None => {
                self.entries.push(class);
                proof {
                    assert(self.list() =~= before.push(class@));
                }
            },
        }
    }

    /// Takes a new class without assignments into the store.
    pub fn add_class_data(&mut self, id: String, name: String, period: usize)
        requires
            old(self).wf(),
        ensures
            final(self).wf(),
            final(self).list() == put(
                old(self).list(),
                ClassView {
                    id: id@,
                    name: name@,
                    period: period as nat,
                    assignments: Seq::empty(),
                    completed: Seq::empty(),
                },
            ),
            final(self)@ == old(self)@.insert(
                id@,
                ClassView {
                    id: id@,
                    name: name@,
                    period: period as nat,
                    assignments: Seq::empty(),
                    completed: Seq::empty(),
                },
            ),
    {
        let class = Class::new(id, name, period);
        self.add_class(class);
    }

    /// The class with the given id, to read or to change. Fails with
    /// `NotFound` where no class has that id. While the id of the class is
    /// left as it is, the store stays in order.
    pub fn get_class(&mut self, id: &str) -> (r: Result<&mut Class, Error>)
        ensures
            match r {
                Ok(c) => has_id(old(self).list(), id@) && c@ == old(self).list()[position(
                    old(self).list(),
                    id@,
                )] && final(self).list() == old(self).list().update(
                    position(old(self).list(), id@),
                    final(c)@,
                ),
                Err(e) => !has_id(old(self).list(), id@) && e@ == (ErrorView::NotFound {
                    subject: Subject::Class,
                    name: id@,
                }) && final(self).list() == old(self).list(),
            },
            old(self).wf() ==> (r is Ok <==> old(self)@.contains_key(id@)),
            old(self).wf() ==> (r matches Ok(c) ==> c@ == old(self)@[id@]),
    {
        proof {
            if self.wf() {
                lemma_by_id(self.list());
                lemma_position(self.list(), id@);
            }
        }
        match self.find(id) {
            Some(i) => {
                let ghost before = self.entries@;
                let c = &mut self.entries[i];
                proof {
                    assert(class_views(before.update(i as int, *final(c))) =~= class_views(
                        before,
                    ).update(i as int, final(c)@));
                }
                Ok(c)
            },
            None => Err(Error::NotFound { subject: Subject::Class, name: id.to_owned() }),
        }
    }

    /// Takes the class with the given id out of the store, with all that it
    /// holds. Fails with `NotFound`, and changes nothing, where no class has
    /// that id.
    pub fn remove_class(&mut self, id: &String) -> (r: Result<Class, Error>)
        requires
            old(self).wf(),
        ensures
            final(self).wf(),
            match r {
                Ok(c) => has_id(old(self).list(), id@) && c@ == old(self).list()[position(
                    old(self).list(),
                    id@,
                )] && final(self).list() == old(self).list().remove(position(old(self).list(), id@))
                    && final(self)@ == old(self)@.remove(id@),
                Err(e) => !has_id(old(self).list(), id@) && e@ == (ErrorView::NotFound {
                    subject: Subject::Class,
                    name: id@,
                }) && final(self).list() == old(self).list(),
            },
    {
        match self.find(id.as_str()) {
            Some(i) => {
                let ghost before = self.list();
                let c = self.entries.remove(i);
                proof {
                    assert(self.list() =~= before.remove(i as int));
                    lemma_position(before, id@);
                    lemma_remove(before, i as int);
                    assert(c@ == before[i as int]);
                }
                Ok(c)
            },
            None => Err(Error::NotFound { subject: Subject::Class, name: id.clone() }),
        }
    }
}

/// The position found in a front part of a list is the position in the list.
pub proof fn lemma_position_prefix(entries: Seq<ClassView>, id: Seq<char>, k: int)
    requires
        0 <= k <= entries.len(),
        position(entries.take(k), id) < k,
    ensures
        position(entries, id) == position(entries.take(k), id),
    decreases entries.len() - k,
{
    if k < entries.len() {
        assert(entries.take(k + 1).drop_last() =~= entries.take(k));
        lemma_position_prefix(entries, id, k + 1);
    } else {
        assert(entries.take(k) =~= entries);
    }
}

/// Taking a class out of a list of distinct ids keeps the ids distinct, and
/// removes the map's entry under the class's id.
pub proof fn lemma_remove(entries: Seq<ClassView>, i: int)
    requires
        distinct_ids(entries),
        0 <= i < entries.len(),
    ensures
        distinct_ids(entries.remove(i)),
        by_id(entries.remove(i)) == by_id(entries).remove(entries[i].id),
{
    let after = entries.remove(i);
    assert(distinct_ids(after)) by {
        assert forall|a: int, b: int| 0 <= a < b < after.len() implies (#[trigger] after[a]).id != (
        #[trigger] after[b]).id by {
            let a0 = if a < i { a } else { a + 1 };
            let b0 = if b < i { b } else { b + 1 };
            assert(after[a] == entries[a0] && after[b] == entries[b0]);
        }
    }
    lemma_by_id(entries);
    lemma_by_id(after);
    let want = by_id(entries).remove(entries[i].id);
    assert forall|id: Seq<char>| by_id(after).contains_key(id) <==> want.contains_key(id) by {
        lemma_position(entries, id);
        lemma_position(after, id);
        if has_id(after, id) {
            let k = position(after, id);
            let k0 = if k < i { k } else { k + 1 };
            assert(after[k] == entries[k0]);
            assert(by_id(entries).contains_key(entries[k0].id));
            assert(entries[k0].id != entries[i].id);
        }
        if has_id(entries, id) && id != entries[i].id {
            let k0 = position(entries, id);
            let k = if k0 < i { k0 } else { k0 - 1 };
            assert(after[k] == entries[k0]);
            assert(by_id(after).contains_key(after[k].id));
        }
    }
    assert forall|id: Seq<char>| by_id(after).contains_key(id) implies by_id(after)[id]
        == want[id] by {
        lemma_position(after, id);
        let k = position(after, id);
        let k0 = if k < i { k } else { k + 1 };
        assert(after[k] == entries[k0]);
        assert(by_id(after)[after[k].id] == after[k]);
        assert(by_id(entries)[entries[k0].id] == entries[k0]);
    }
    assert(by_id(after) =~= want);
}

} // verus!
