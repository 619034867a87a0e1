//! The package handle registry: stable handles for full package names.

use crate::types::PackageId;
use vstd::hash_map::StringHashMap;
use vstd::prelude::*;
use vstd::string::*;

verus! {

/// Assigns each full name (such as `libfoo:amd64`) a handle, once. A handle
/// is the position of its name in the order of registration, so names are
/// never moved or forgotten while the process lives.
pub struct HandleRegistry {
    by_name: StringHashMap<PackageId>,
    names: Vec<String>,
}

impl View for HandleRegistry {
    type V = Seq<Seq<char>>;

    /// The registered names; the handle of a name is its position. The
    /// index by name adds nothing to them: the invariant ties it to these
    /// names, entry by entry.
    closed spec fn view(&self) -> Seq<Seq<char>> {
        crate::types::texts(self.names@)
    }
}

impl HandleRegistry {
    /// Names and handles map onto each other one to one.
    pub closed spec fn wf(&self) -> bool {
        &&& self.names@.len() <= u32::MAX
        &&& forall|i: int|
            0 <= i < self.names@.len() ==> self.by_name@.contains_key(#[trigger] self.names@[i]@)
                && self.by_name@[self.names@[i]@] == PackageId(i as u32)
        &&& forall|k: Seq<char>| #[trigger]
            self.by_name@.contains_key(k) ==> self.by_name@[k].0 < self.names@.len()
                && self.names@[self.by_name@[k].0 as int]@ == k
    }

    /// Whether a name has a handle.
    pub open spec fn knows(&self, name: Seq<char>) -> bool {
        self@.contains(name)
    }

    /// The handle of a registered name.
    pub open spec fn id_of(&self, name: Seq<char>) -> PackageId {
        PackageId(self@.index_of(name) as u32)
    }

    /// Whether a handle stands for a name.
    pub open spec fn valid(&self, id: PackageId) -> bool {
        id.0 < self@.len()
    }

    /// No name has two handles, and every handle fits in 32 bits.
    pub proof fn lemma_one_to_one(&self)
        requires
            self.wf(),
        ensures
            self@.no_duplicates(),
            self@.len() <= u32::MAX,
            forall|i: int| 0 <= i < self@.len() ==> self.id_of(#[trigger] self@[i]) == PackageId(i as u32),
    {
        assert forall|i: int, j: int| 0 <= i < self@.len() && 0 <= j < self@.len() && i != j implies self@[i]
            != self@[j] by {
            assert(self.by_name@[self.names@[i]@] == PackageId(i as u32));
            assert(self.by_name@[self.names@[j]@] == PackageId(j as u32));
        }
        assert forall|i: int| 0 <= i < self@.len() implies self.id_of(#[trigger] self@[i]) == PackageId(
            i as u32,
        ) by {
            let k = self@.index_of(self@[i]);
            assert(self@.contains(self@[i]));
            assert(0 <= k < self@.len() && self@[k] == self@[i]);
        }
    }

    /// An empty registry.
    pub fn new() -> (r: Self)
        ensures
            r.wf(),
            r@.len() == 0,
    {
        HandleRegistry { by_name: StringHashMap::new(), names: Vec::new() }
    }

    /// The number of handles given out.
    pub fn len(&self) -> (n: usize)
        ensures
            n == self@.len(),
    {
        self.names.len()
    }

    /// The handle of `fullname`, if it has one.
    pub fn get_id(&self, fullname: &str) -> (r: Option<PackageId>)
        requires
            self.wf(),
        ensures
            r == if self.knows(fullname@) {
                Some(self.id_of(fullname@))
            } else {
                None
            },
    {
        proof {
            self.lemma_one_to_one();
        }
        match self.by_name.get(fullname) {
            Some(id) => {
                proof {
                    assert(self@[id.0 as int] == fullname@);
                }
                Some(*id)
            },
            None => {
                proof {
                    if self@.contains(fullname@) {
                        let i = self@.index_of(fullname@);
                        assert(self.by_name@.contains_key(self.names@[i]@));
                    }
                }
                None
            },
        }
    }

    /// The name that a handle stands for.
    pub fn fullname_of(&self, id: PackageId) -> (r: Option<&str>)
        ensures
            match r {
                Some(name) => self.valid(id) && name@ == self@[id.0 as int],
                None => !self.valid(id),
            },
    {
        let i = id.index();
        if i < self.names.len() {
            Some(self.names[i].as_str())
        } else {
            None
        }
    }

    /// The handle of `fullname`, registered now if it had none.
    pub fn id_for(&mut self, fullname: &str) -> (id: PackageId)
        requires
            old(self).wf(),
            old(self).knows(fullname@) || old(self)@.len() < u32::MAX,
        ensures
            final(self).wf(),
            final(self)@ == register(old(self)@, fullname@),
            final(self)@[id.0 as int] == fullname@,
            final(self).valid(id),
            id == final(self).id_of(fullname@),
    {
        proof {
            self.lemma_one_to_one();
        }
        match self.get_id(fullname) {
            Some(id) => {
                proof {
                    let i = self@.index_of(fullname@);
                    assert(self@[i] == fullname@);
                }
                id
            },
            None => {
                let id = PackageId(self.names.len() as u32);
                let ghost before = self@;
                self.names.push(String::from_str(fullname));
                self.by_name.insert(String::from_str(fullname), id);
                proof {
                    assert(self@ =~= before.push(fullname@));
                    assert forall|k: Seq<char>| #[trigger]
                        self.by_name@.contains_key(k) implies self.by_name@[k].0 < self.names@.len()
                        && self.names@[self.by_name@[k].0 as int]@ == k by {
                        if k != fullname@ {
                            assert(old(self).by_name@.contains_key(k));
                        }
                    }
                    assert forall|i: int| 0 <= i < self.names@.len() implies self.by_name@.contains_key(
                        #[trigger] self.names@[i]@,
                    ) && self.by_name@[self.names@[i]@] == PackageId(i as u32) by {
                        if i < before.len() {
                            assert(self.names@[i] == old(self).names@[i]);
                            assert(before[i] == self.names@[i]@);
                            assert(before.contains(before[i]));
                        }
                    }
                    self.lemma_one_to_one();
                    assert(self@[id.0 as int] == fullname@);
                }
                id
            },
        }
    }
}

/// The names after `name` has asked for a handle: unchanged where it had
/// one, with `name` at the end where it had none.
pub open spec fn register(names: Seq<Seq<char>>, name: Seq<char>) -> Seq<Seq<char>> {
    if names.contains(name) {
        names
    } else {
        names.push(name)
    }
}

/// The names after each of `more` has asked for a handle, in order.
pub open spec fn register_all(names: Seq<Seq<char>>, more: Seq<Seq<char>>) -> Seq<Seq<char>>
    decreases more.len(),
{
    if more.len() == 0 {
        names
    } else {
        register(register_all(names, more.drop_last()), more.last())
    }
}

/// Registering never moves a name: the old names are a prefix of the new.
pub proof fn lemma_register_all_keeps(names: Seq<Seq<char>>, more: Seq<Seq<char>>)
    ensures
        names.is_prefix_of(register_all(names, more)),
        register_all(names, more).len() <= names.len() + more.len(),
        forall|i: int| 0 <= i < more.len() ==> register_all(names, more).contains(#[trigger] more[i]),
    decreases more.len(),
{
    if more.len() > 0 {
        let head = more.drop_last();
        lemma_register_all_keeps(names, head);
        let mid = register_all(names, head);
        let out = register(mid, more.last());
        assert(names.is_prefix_of(out));
        assert forall|i: int| 0 <= i < more.len() implies out.contains(#[trigger] more[i]) by {
            if i < head.len() {
                assert(head[i] == more[i]);
                let k = mid.index_of(more[i]);
                assert(mid.contains(head[i]));
                assert(out[k] == more[i]);
            } else {
                if mid.contains(more.last()) {
                } else {
                    assert(out[out.len() - 1] == more.last());
                }
            }
        }
    }
}

} // verus!
