//! The intent store: what the user explicitly asked for, per package.

use crate::types::{PackageId, UserIntent};
use vstd::prelude::*;

verus! {

/// Maps handles to explicit user intent. Only intents other than
/// `UserIntent::Default` are stored: a handle that is absent follows the
/// solver. Entries are kept in the order in which they were first set.
pub struct IntentStore {
    entries: Vec<(PackageId, UserIntent)>,
}

/// The map that a sequence of entries stands for.
pub open spec fn entries_map(s: Seq<(PackageId, UserIntent)>) -> Map<PackageId, UserIntent>
    decreases s.len(),
{
    if s.len() == 0 {
        Map::empty()
    } else {
        entries_map(s.drop_last()).insert(s.last().0, s.last().1)
    }
}

/// No handle occurs twice among the entries.
pub open spec fn distinct_ids(s: Seq<(PackageId, UserIntent)>) -> bool {
    forall|i: int, j: int| 0 <= i < s.len() && 0 <= j < s.len() && i != j ==> s[i].0 != s[j].0
}

/// What `entries_map` holds, entry by entry.
pub proof fn lemma_entries_map(s: Seq<(PackageId, UserIntent)>)
    requires
        distinct_ids(s),
    ensures
        forall|i: int|
            0 <= i < s.len() ==> entries_map(s).contains_key(#[trigger] s[i].0) && entries_map(
                s,
            )[s[i].0] == s[i].1,
        forall|id: PackageId| #[trigger]
            entries_map(s).contains_key(id) ==> exists|i: int| 0 <= i < s.len() && s[i].0 == id,
        entries_map(s).dom().finite(),
        entries_map(s).dom().len() == s.len(),
    decreases s.len(),
{
    if s.len() > 0 {
        let head = s.drop_last();
        assert(distinct_ids(head)) by {
            assert forall|i: int, j: int|
                0 <= i < head.len() && 0 <= j < head.len() && i != j implies head[i].0
                != head[j].0 by {
                assert(head[i] == s[i] && head[j] == s[j]);
            }
        }
        lemma_entries_map(head);
        assert forall|i: int| 0 <= i < s.len() implies entries_map(s).contains_key(
            #[trigger] s[i].0,
        ) && entries_map(s)[s[i].0] == s[i].1 by {
            if i < head.len() {
                assert(head[i] == s[i]);
                assert(s[i].0 != s[s.len() - 1].0);
            }
        }
        assert forall|id: PackageId| #[trigger] entries_map(s).contains_key(id) implies exists|
            i: int,
        |
            0 <= i < s.len() && s[i].0 == id by {
            if id == s.last().0 {
                assert(s[s.len() - 1].0 == id);
            } else {
                assert(entries_map(head).contains_key(id));
                let i = choose|i: int| 0 <= i < head.len() && head[i].0 == id;
                assert(s[i].0 == id);
            }
        }
        assert(!entries_map(head).contains_key(s.last().0)) by {
            if entries_map(head).contains_key(s.last().0) {
                let i = choose|i: int| 0 <= i < head.len() && head[i].0 == s.last().0;
                assert(s[i].0 == s[s.len() - 1].0);
            }
        }
        assert(entries_map(s).dom() =~= entries_map(head).dom().insert(s.last().0));
    }
}

impl View for IntentStore {
    type V = Map<PackageId, UserIntent>;

    closed spec fn view(&self) -> Map<PackageId, UserIntent> {
        entries_map(self.entries@)
    }
}

impl IntentStore {
    /// No handle is stored twice and no entry holds `UserIntent::Default`.
    pub closed spec fn wf(&self) -> bool {
        &&& distinct_ids(self.entries@)
        &&& forall|i: int|
            0 <= i < self.entries@.len() ==> (#[trigger] self.entries@[i]).1 != UserIntent::Default
    }

    /// The stored handles in the order in which they were first set.
    pub closed spec fn order(&self) -> Seq<PackageId> {
        Seq::new(self.entries@.len(), |i: int| self.entries@[i].0)
    }

    /// The intent of a handle: what is stored for it, else `Default`.
    pub open spec fn intent_of(&self, id: PackageId) -> UserIntent {
        if self@.contains_key(id) {
            self@[id]
        } else {
            UserIntent::Default
        }
    }

    /// The map is finite, never holds `Default`, and `order` lists its keys
    /// once each.
    pub proof fn lemma_view(&self)
        requires
            self.wf(),
        ensures
            self@.dom().finite(),
            self@.len() == self.order().len(),
            self.order().no_duplicates(),
            forall|id: PackageId| #[trigger] self@.contains_key(id) <==> self.order().contains(id),
            forall|id: PackageId| #[trigger] self@.contains_key(id) ==> self@[id] != UserIntent::Default,
    {
        lemma_entries_map(self.entries@);
        assert forall|id: PackageId| #[trigger] self@.contains_key(id) implies self.order().contains(
            id,
        ) by {
            let i = choose|i: int| 0 <= i < self.entries@.len() && self.entries@[i].0 == id;
            assert(self.order()[i] == id);
        }
        assert forall|id: PackageId| self.order().contains(id) implies #[trigger] self@.contains_key(
            id,
        ) by {
            let i = choose|i: int| 0 <= i < self.order().len() && self.order()[i] == id;
            assert(self.entries@[i].0 == id);
        }
        assert forall|id: PackageId| #[trigger] self@.contains_key(id) implies self@[id]
            != UserIntent::Default by {
            let i = choose|i: int| 0 <= i < self.entries@.len() && self.entries@[i].0 == id;
            assert(self@[self.entries@[i].0] == self.entries@[i].1);
        }
    }

    /// An empty store.
    pub fn new() -> (r: Self)
        ensures
            r.wf(),
            r@ == Map::<PackageId, UserIntent>::empty(),
            r.order() == Seq::<PackageId>::empty(),
    {
        let r = IntentStore { entries: Vec::new() };
        assert(r.order() =~= Seq::<PackageId>::empty());
        r
    }

    fn position(&self, id: PackageId) -> (r: Option<usize>)
        requires
            self.wf(),
        ensures
            match r {
                Some(i) => i < self.entries@.len() && self.entries@[i as int].0 == id
                    && self@.contains_key(id) && self@[id] == self.entries@[i as int].1,
                None => !self@.contains_key(id),
            },
    {
        let mut i: usize = 0;
        while i < self.entries.len()
            invariant
                i <= self.entries@.len(),
                self.wf(),
                forall|j: int| 0 <= j < i ==> self.entries@[j].0 != id,
            decreases self.entries@.len() - i,
        {
            if self.entries[i].0 == id {
                proof {
                    lemma_entries_map(self.entries@);
                }
                return Some(i);
            }
            i += 1;
        }
        proof {
            lemma_entries_map(self.entries@);
        }
        None
    }

    /// The intent of a handle: what is stored for it, else `Default`.
    pub fn get(&self, id: PackageId) -> (r: UserIntent)
        requires
            self.wf(),
        ensures
            r == self.intent_of(id),
    {
        match self.position(id) {
            Some(i) => self.entries[i].1,
            None => UserIntent::Default,
        }
    }

    /// Whether the user has stated an intent for a handle.
    pub fn contains(&self, id: PackageId) -> (r: bool)
        requires
            self.wf(),
        ensures
            r == self@.contains_key(id),
    {
        self.position(id).is_some()
    }

    /// The number of stored intents.
    pub fn len(&self) -> (n: usize)
        requires
            self.wf(),
        ensures
            n == self@.len(),
            n == self.order().len(),
    {
        proof {
            self.lemma_view();
        }
        self.entries.len()
    }

    /// Whether no intent is stored.
    pub fn is_empty(&self) -> (r: bool)
        requires
            self.wf(),
        ensures
            r == (self@ == Map::<PackageId, UserIntent>::empty()),
            r == (self.order().len() == 0),
    {
        proof {
            self.lemma_view();
            lemma_entries_map(self.entries@);
            if self.entries@.len() == 0 {
                assert(self@ =~= Map::<PackageId, UserIntent>::empty());
            } else {
                assert(self@.contains_key(self.entries@[0].0));
            }
        }
        self.entries.len() == 0
    }

    /// Forgets the intent of a handle.
    pub fn clear(&mut self, id: PackageId)
        requires
            old(self).wf(),
        ensures
            final(self).wf(),
            final(self)@ == old(self)@.remove(id),
            final(self).order() == without(old(self).order(), id),
    {
        let ghost keep = |h: PackageId| h != id;
        match self.position(id) {
            Some(i) => {
                let ghost before = self.entries@;
                self.entries.remove(i);
                proof {
                    let after = self.entries@;
                    assert(after =~= before.remove(i as int));
                    assert(distinct_ids(after)) by {
                        assert forall|a: int, b: int|
                            0 <= a < after.len() && 0 <= b < after.len() && a != b implies after[a].0
                            != after[b].0 by {
                            let a0 = if a < i { a } else { a + 1 };
                            let b0 = if b < i { b } else { b + 1 };
                            assert(after[a] == before[a0] && after[b] == before[b0]);
                        }
                    }
                    lemma_entries_map(before);
                    lemma_entries_map(after);
                    assert forall|h: PackageId| #[trigger]
                        entries_map(after).contains_key(h) <==> old(self)@.remove(id).contains_key(
                            h,
                        ) by {
                        if entries_map(after).contains_key(h) {
                            let a = choose|a: int| 0 <= a < after.len() && after[a].0 == h;
                            let a0 = if a < i { a } else { a + 1 };
                            assert(after[a] == before[a0]);
                            assert(before[a0].0 == h);
                        }
                        if old(self)@.remove(id).contains_key(h) {
                            let b = choose|b: int| 0 <= b < before.len() && before[b].0 == h;
                            let a = if b < i { b } else { b - 1 };
                            assert(after[a] == before[b]);
                            assert(entries_map(after).contains_key(after[a].0));
                        }
                    }
                    assert forall|h: PackageId| #[trigger]
                        entries_map(after).contains_key(h) implies entries_map(after)[h] == old(
                        self,
                    )@.remove(id)[h] by {
                        let a = choose|a: int| 0 <= a < after.len() && after[a].0 == h;
                        let a0 = if a < i { a } else { a + 1 };
                        assert(after[a] == before[a0]);
                        assert(entries_map(after)[after[a].0] == after[a].1);
                        assert(entries_map(before)[before[a0].0] == before[a0].1);
                    }
                    assert(self@ =~= old(self)@.remove(id));
                    lemma_filter_one_out(old(self).order(), id, i as int);
                    assert(self.order() =~= old(self).order().remove(i as int));
                }
            },
            None => {
                proof {
                    assert(self@ =~= old(self)@.remove(id));
                    old(self).lemma_view();
                    lemma_filter_none_out(self.order(), id);
                }
            },
        }
    }

    /// Records the intent of a handle. `Default` forgets the handle.
    pub fn set(&mut self, id: PackageId, intent: UserIntent)
        requires
            old(self).wf(),
        ensures
            final(self).wf(),
            final(self)@ == if intent == UserIntent::Default {
                old(self)@.remove(id)
            } else {
                old(self)@.insert(id, intent)
            },
            final(self).order() == if intent == UserIntent::Default {
                without(old(self).order(), id)
            } else if old(self)@.contains_key(id) {
                old(self).order()
            } else {
                old(self).order().push(id)
            },
    {
        if intent == UserIntent::Default {
            self.clear(id);
            return ;
        }
        let ghost before = self.entries@;
        proof {
            lemma_entries_map(before);
        }
        match self.position(id) {
            Some(i) => {
                self.entries[i] = (id, intent);
                proof {
                    let after = self.entries@;
                    assert(after =~= before.update(i as int, (id, intent)));
                    assert(distinct_ids(after)) by {
                        assert forall|a: int, b: int|
                            0 <= a < after.len() && 0 <= b < after.len() && a != b implies after[a].0
                            != after[b].0 by {
                            assert(after[a].0 == before[a].0 && after[b].0 == before[b].0);
                        }
                    }
                    lemma_entries_map(after);
                    assert forall|h: PackageId| #[trigger]
                        entries_map(after).contains_key(h) <==> before_map_has(before, id, h) by {
                        if entries_map(after).contains_key(h) {
                            let a = choose|a: int| 0 <= a < after.len() && after[a].0 == h;
                            assert(before[a].0 == h);
                        }
                        if h != id && entries_map(before).contains_key(h) {
                            let b = choose|b: int| 0 <= b < before.len() && before[b].0 == h;
                            assert(after[b].0 == h);
                        }
                        if h == id {
                            assert(after[i as int].0 == h);
                        }
                    }
                    assert forall|h: PackageId| #[trigger]
                        entries_map(after).contains_key(h) implies entries_map(after)[h] == old(
                        self,
                    )@.insert(id, intent)[h] by {
                        let a = choose|a: int| 0 <= a < after.len() && after[a].0 == h;
                        assert(entries_map(after)[after[a].0] == after[a].1);
                        if a != i {
                            assert(after[a] == before[a]);
                            assert(entries_map(before)[before[a].0] == before[a].1);
                        }
                    }
                    assert(self@ =~= old(self)@.insert(id, intent));
                    assert(self.order() =~= old(self).order());
                }
            },
            None => {
                self.entries.push((id, intent));
                proof {
                    let after = self.entries@;
                    assert(after.drop_last() =~= before);
                    assert(distinct_ids(after)) by {
                        assert forall|a: int, b: int|
                            0 <= a < after.len() && 0 <= b < after.len() && a != b implies after[a].0
                            != after[b].0 by {
                            if a < before.len() {
                                assert(after[a] == before[a]);
                                assert(entries_map(before).contains_key(before[a].0));
                            }
                            if b < before.len() {
                                assert(after[b] == before[b]);
                                assert(entries_map(before).contains_key(before[b].0));
                            }
                        }
                    }
                    assert(self.order() =~= old(self).order().push(id));
                }
            },
        }
    }

    /// Forgets every intent.
    pub fn clear_all(&mut self)
        ensures
            final(self).wf(),
            final(self)@ == Map::<PackageId, UserIntent>::empty(),
            final(self).order() == Seq::<PackageId>::empty(),
    {
        self.entries.clear();
        assert(self.order() =~= Seq::<PackageId>::empty());
    }

    /// The stored handles in the order in which they were first set.
    pub fn ids(&self) -> (v: Vec<PackageId>)
        ensures
            v@ == self.order(),
    {
        let mut v: Vec<PackageId> = Vec::new();
        let mut i: usize = 0;
        while i < self.entries.len()
            invariant
                i <= self.entries@.len(),
                v@ == self.order().take(i as int),
            decreases self.entries@.len() - i,
        {
            v.push(self.entries[i].0);
            i += 1;
            assert(self.order().take(i as int) =~= self.order().take(i - 1).push(
                self.entries@[i - 1].0,
            ));
        }
        assert(self.order().take(i as int) =~= self.order());
        v
    }

    /// The stored entries in the order in which they were first set.
    pub fn iter(&self) -> (v: Vec<(PackageId, UserIntent)>)
        requires
            self.wf(),
        ensures
            v@.len() == self.order().len(),
            forall|i: int|
                0 <= i < v@.len() ==> (#[trigger] v@[i]).0 == self.order()[i] && v@[i].1 == self@[v@[i].0],
    {
        proof {
            lemma_entries_map(self.entries@);
        }
        let mut v: Vec<(PackageId, UserIntent)> = Vec::new();
        let mut i: usize = 0;
        while i < self.entries.len()
            invariant
                i <= self.entries@.len(),
                v@ == self.entries@.take(i as int),
            decreases self.entries@.len() - i,
        {
            v.push(self.entries[i]);
            i += 1;
            assert(self.entries@.take(i as int) =~= self.entries@.take(i - 1).push(
                self.entries@[i - 1],
            ));
        }
        assert(self.entries@.take(i as int) =~= self.entries@);
        v
    }
}

/// A sequence of handles without `id`.
pub open spec fn without(s: Seq<PackageId>, id: PackageId) -> Seq<PackageId> {
    s.filter(|h: PackageId| h != id)
}

/// Whether `h` is a key once `id` has been set among `before`.
pub open spec fn before_map_has(
    before: Seq<(PackageId, UserIntent)>,
    id: PackageId,
    h: PackageId,
) -> bool {
    h == id || entries_map(before).contains_key(h)
}

/// Filtering the one occurrence of a handle out removes its position.
pub proof fn lemma_filter_one_out(s: Seq<PackageId>, id: PackageId, i: int)
    requires
        0 <= i < s.len(),
        s[i] == id,
        s.no_duplicates(),
    ensures
        without(s, id) == s.remove(i),
    decreases s.len(),
{
    let keep = |h: PackageId| h != id;
    reveal(Seq::filter);
    if i == s.len() - 1 {
        assert(s.drop_last().no_duplicates());
        assert(!s.drop_last().contains(id)) by {
            if s.drop_last().contains(id) {
                let j = choose|j: int| 0 <= j < s.drop_last().len() && s.drop_last()[j] == id;
                assert(s[j] == s[i]);
            }
        }
        lemma_filter_none_out(s.drop_last(), id);
        assert(s.remove(i) =~= s.drop_last());
    } else {
        assert(s.drop_last().no_duplicates());
        assert(s.drop_last()[i] == id);
        lemma_filter_one_out(s.drop_last(), id, i);
        assert(s.last() != id);
        assert(s.remove(i) =~= s.drop_last().remove(i).push(s.last()));
    }
}

/// Filtering a handle out of a sequence that does not hold it changes nothing.
pub proof fn lemma_filter_none_out(s: Seq<PackageId>, id: PackageId)
    requires
        !s.contains(id),
    ensures
        without(s, id) == s,
    decreases s.len(),
{
    reveal(Seq::filter);
    if s.len() > 0 {
        assert(!s.drop_last().contains(id)) by {
            if s.drop_last().contains(id) {
                let j = choose|j: int| 0 <= j < s.drop_last().len() && s.drop_last()[j] == id;
                assert(s[j] == id);
            }
        }
        lemma_filter_none_out(s.drop_last(), id);
        assert(s[s.len() - 1] != id);
        assert(s.drop_last().push(s.last()) =~= s);
    }
}

} // verus!
