//! The cache adapter: the package catalog as plain records, with stable
//! handles for full names.
//!
//! The native package library stays outside: whoever drives it hands its
//! packages over as `PackageRecord`s and the solver's marks as `AptChange`s.

use crate::order::{dependencies_sorted, sort_dependencies};
use crate::registry::{lemma_register_all_keeps, register, register_all, HandleRegistry};
use crate::text::{joined, push_decimal, same_text, strip_suffix, without_suffix};
use crate::text::decimal_text;
use crate::types::{texts, PackageId, PackageInfo, PackageInfoView, PackageStatus};
use vstd::hash_map::StringHashMap;
use vstd::prelude::*;
use vstd::string::*;

verus! {

// ============================================================================
// Records
// ============================================================================

/// Raw state of a package in the native cache, without interpretation.
#[derive(Debug, Clone, Copy, PartialEq, Eq, Structural)]
pub struct AptPackageState {
    pub is_installed: bool,
    pub is_upgradable: bool,
    pub marked_install: bool,
    pub marked_delete: bool,
    pub marked_upgrade: bool,
}

impl AptPackageState {
    /// Whether the solver has any mark on the package.
    pub open spec fn has_mark(self) -> bool {
        self.marked_install || self.marked_upgrade || self.marked_delete
    }

    /// The same state without marks.
    pub open spec fn unmarked(self) -> AptPackageState {
        AptPackageState {
            marked_install: false,
            marked_delete: false,
            marked_upgrade: false,
            ..self
        }
    }
}

/// The version that the solver would install.
#[derive(Debug, Clone)]
pub struct CandidateInfo {
    pub version: String,
    pub section: Option<String>,
    /// Size of the download in bytes.
    pub size: u64,
    /// Size on disk once installed, in bytes.
    pub installed_size: u64,
    pub summary: Option<String>,
    pub arch: String,
}

/// One package of the catalog.
#[derive(Debug, Clone)]
pub struct PackageRecord {
    /// Name without architecture.
    pub name: String,
    /// Name with architecture, such as `libfoo:amd64`.
    pub fullname: String,
    pub state: AptPackageState,
    pub installed_version: Option<String>,
    pub candidate: Option<CandidateInfo>,
    /// `(kind, target)` of each dependency of the candidate, in catalog order.
    pub dependencies: Vec<(String, String)>,
    /// `(kind, dependent)` of each package that depends on this one.
    pub reverse_dependencies: Vec<(String, String)>,
}

/// A package as the solver left it: one entry of the native changeset.
#[derive(Debug, Clone)]
pub struct AptChange {
    pub fullname: String,
    pub is_installed: bool,
    pub marked_install: bool,
    pub marked_upgrade: bool,
    pub marked_delete: bool,
    /// Download size and installed size of the candidate, if there is one.
    pub candidate: Option<(u64, u64)>,
}

/// The full names of records.
pub open spec fn fullnames(rs: Seq<PackageRecord>) -> Seq<Seq<char>> {
    Seq::new(rs.len(), |i: int| rs[i].fullname@)
}

/// The position of the first record called `name`, or the number of records
/// if none is.
pub open spec fn first_named(rs: Seq<PackageRecord>, name: Seq<char>) -> int
    decreases rs.len(),
{
    if rs.len() == 0 || rs[0].fullname@ == name {
        0
    } else {
        1 + first_named(rs.drop_first(), name)
    }
}

/// `first_named` is the first position whose record is called `name`.
pub proof fn lemma_first_named(rs: Seq<PackageRecord>, name: Seq<char>, i: int)
    requires
        0 <= i <= rs.len(),
        forall|j: int| 0 <= j < i ==> rs[j].fullname@ != name,
        i == rs.len() || rs[i].fullname@ == name,
    ensures
        first_named(rs, name) == i,
    decreases rs.len(),
{
    if i > 0 {
        let t = rs.drop_first();
        assert forall|j: int| 0 <= j < i - 1 implies t[j].fullname@ != name by {
            assert(t[j] == rs[j + 1]);
        }
        lemma_first_named(t, name, i - 1);
    }
}

/// What holds at and before `first_named`.
pub proof fn lemma_first_named_found(rs: Seq<PackageRecord>, name: Seq<char>)
    ensures
        0 <= first_named(rs, name) <= rs.len(),
        forall|j: int| 0 <= j < first_named(rs, name) ==> rs[j].fullname@ != name,
        first_named(rs, name) < rs.len() ==> rs[first_named(rs, name)].fullname@ == name,
    decreases rs.len(),
{
    if rs.len() > 0 && rs[0].fullname@ != name {
        let t = rs.drop_first();
        lemma_first_named_found(t, name);
        assert forall|j: int| 0 <= j < first_named(rs, name) implies rs[j].fullname@ != name by {
            if j > 0 {
                assert(t[j - 1] == rs[j]);
            }
        }
        if first_named(rs, name) < rs.len() {
            assert(t[first_named(t, name)] == rs[first_named(rs, name)]);
        }
    }
}

/// A record without the solver's marks.
pub open spec fn without_marks(r: PackageRecord) -> PackageRecord {
    PackageRecord { state: r.state.unmarked(), ..r }
}

/// The records without the solver's marks.
pub open spec fn all_unmarked(rs: Seq<PackageRecord>) -> Seq<PackageRecord> {
    Seq::new(rs.len(), |i: int| without_marks(rs[i]))
}

/// Whether no record carries a mark of the solver.
pub open spec fn no_marks(rs: Seq<PackageRecord>) -> bool {
    forall|i: int| 0 <= i < rs.len() ==> !(#[trigger] rs[i]).state.has_mark()
}

/// Records that carry no mark stay as they are when the marks are taken
/// off, and records whose marks were taken off carry none.
pub proof fn lemma_no_marks(rs: Seq<PackageRecord>)
    ensures
        no_marks(all_unmarked(rs)),
        no_marks(rs) ==> all_unmarked(rs) == rs,
{
    if no_marks(rs) {
        assert forall|i: int| 0 <= i < rs.len() implies all_unmarked(rs)[i] == rs[i] by {
            assert(!rs[i].state.has_mark());
        }
        assert(all_unmarked(rs) =~= rs);
    }
}

/// A record with the marks of a change.
pub open spec fn with_marks(r: PackageRecord, c: AptChange) -> PackageRecord {
    PackageRecord {
        state: AptPackageState {
            marked_install: c.marked_install,
            marked_upgrade: c.marked_upgrade,
            marked_delete: c.marked_delete,
            ..r.state
        },
        ..r
    }
}

/// The records after the marks of `changes` have been written, one change
/// after the other, each to the first record of its name. A change that
/// names no record writes nothing.
pub open spec fn marked_by(rs: Seq<PackageRecord>, changes: Seq<AptChange>) -> Seq<PackageRecord>
    decreases changes.len(),
{
    if changes.len() == 0 {
        rs
    } else {
        let before = marked_by(rs, changes.drop_last());
        let at = first_named(before, changes.last().fullname@);
        if at < before.len() {
            before.update(at, with_marks(before[at], changes.last()))
        } else {
            before
        }
    }
}

// ============================================================================
// Dependency kinds and solver errors
// ============================================================================

/// The rank of a dependency kind in listings: the stronger, the earlier.
pub open spec fn dep_rank(kind: Seq<char>) -> u8 {
    if kind == "PreDepends"@ {
        0
    } else if kind == "Depends"@ {
        1
    } else if kind == "Recommends"@ {
        2
    } else if kind == "Suggests"@ {
        3
    } else if kind == "Enhances"@ {
        4
    } else {
        5
    }
}

/// The rank of a dependency kind in listings: the stronger, the earlier.
pub fn dep_type_order(t: &str) -> (r: u8)
    ensures
        r == dep_rank(t@),
{
    if same_text(t, "PreDepends") {
        0
    } else if same_text(t, "Depends") {
        1
    } else if same_text(t, "Recommends") {
        2
    } else if same_text(t, "Suggests") {
        3
    } else if same_text(t, "Enhances") {
        4
    } else {
        5
    }
}

/// Whether a solver message says something: it is neither empty nor the
/// bare error prefix.
pub open spec fn telling(message: Seq<char>) -> bool {
    message.len() > 0 && message != "E:"@
}

/// One line for the solver's messages: the first telling one, and how many
/// more there are.
pub open spec fn error_summary(messages: Seq<Seq<char>>) -> Seq<char> {
    let kept = messages.filter(|m: Seq<char>| telling(m));
    if kept.len() == 0 {
        "Dependency resolution failed (no specific details available)"@
    } else if kept.len() == 1 {
        kept[0]
    } else {
        kept[0] + "; and "@ + decimal_text((kept.len() - 1) as nat) + " more issue(s)"@
    }
}

/// One line for the solver's messages: the first telling one, and how many
/// more there are.
pub fn format_apt_errors(messages: &Vec<String>) -> (line: String)
    ensures
        line@ == error_summary(texts(messages@)),
{
    let ghost keep = |m: Seq<char>| telling(m);
    let ghost all = texts(messages@);
    let mut first: Option<usize> = None;
    let mut count: usize = 0;
    let mut i: usize = 0;
    proof {
        assert(all.take(0).filter(keep) =~= Seq::<Seq<char>>::empty());
    }
    while i < messages.len()
        invariant
            i <= messages.len(),
            all == texts(messages@),
            keep == (|m: Seq<char>| telling(m)),
            count == all.take(i as int).filter(keep).len(),
            count <= i,
            count == 0 <==> first is None,
            first matches Some(f) ==> f < i && all.take(i as int).filter(keep)[0] == all[f as int],
        decreases messages.len() - i,
    {
        let m = messages[i].as_str();
        proof {
            crate::types::lemma_filter_step(all, keep, i as int);
            assert(all[i as int] == m@);
        }
        if m.unicode_len() > 0 && !same_text(m, "E:") {
            if first.is_none() {
                first = Some(i);
            }
            count += 1;
        }
        i += 1;
    }
    proof {
        assert(all.take(i as int) =~= all);
    }
    match first {
        None => String::from_str("Dependency resolution failed (no specific details available)"),
        Some(f) => {
            if count == 1 {
                messages[f].clone()
            } else {
                let mut line = joined(messages[f].as_str(), "; and ");
                push_decimal(&mut line, (count - 1) as u64);
                line.append(" more issue(s)");
                line
            }
        },
    }
}

// ============================================================================
// The cache
// ============================================================================

/// The catalog with stable handles. Each full name, multi-arch variants
/// included, has a handle of its own.
pub struct AptCache {
    records: Vec<PackageRecord>,
    /// Full name to the position of its first record.
    positions: StringHashMap<usize>,
    registry: HandleRegistry,
    native_arch: String,
    /// `:` and the native architecture, for `display_name`.
    native_arch_suffix: String,
}

/// The display row of a record before intent and plan are laid over it,
/// under the handle `id`. What the candidate would tell is left empty or 0
/// for a record without candidate; a missing section is `unknown`.
pub open spec fn base_info(r: PackageRecord, id: PackageId) -> PackageInfoView {
    PackageInfoView {
        id,
        name: r.fullname@,
        status: if r.state.is_installed {
            if r.state.is_upgradable {
                PackageStatus::Upgradable
            } else {
                PackageStatus::Installed
            }
        } else {
            PackageStatus::NotInstalled
        },
        section: match r.candidate {
            Some(c) => match c.section {
                Some(s) => s@,
                None => "unknown"@,
            },
            None => "unknown"@,
        },
        installed_version: match r.installed_version {
            Some(v) => v@,
            None => Seq::<char>::empty(),
        },
        candidate_version: match r.candidate {
            Some(c) => c.version@,
            None => Seq::<char>::empty(),
        },
        installed_size: match r.candidate {
            Some(c) => c.installed_size,
            None => 0,
        },
        download_size: match r.candidate {
            Some(c) => c.size,
            None => 0,
        },
        description: match r.candidate {
            Some(c) => match c.summary {
                Some(s) => s@,
                None => Seq::<char>::empty(),
            },
            None => Seq::<char>::empty(),
        },
        architecture: match r.candidate {
            Some(c) => c.arch@,
            None => Seq::<char>::empty(),
        },
    }
}

impl AptCache {
    /// The records of the catalog, in catalog order.
    pub closed spec fn entries(&self) -> Seq<PackageRecord> {
        self.records@
    }

    /// The registered full names; the handle of a name is its position.
    pub closed spec fn names(&self) -> Seq<Seq<char>> {
        self.registry@
    }

    /// The native architecture, such as `amd64`.
    pub closed spec fn arch(&self) -> Seq<char> {
        self.native_arch@
    }

    /// The handles are one to one, every record's name has a handle, and the
    /// index of names agrees with the records.
    pub closed spec fn wf(&self) -> bool {
        &&& self.registry.wf()
        &&& self.native_arch_suffix@ == seq![':'] + self.native_arch@
        &&& forall|k: Seq<char>| #[trigger]
            self.positions@.contains_key(k) ==> {
                &&& self.positions@[k] < self.records@.len()
                &&& self.records@[self.positions@[k] as int].fullname@ == k
                &&& forall|j: int| 0 <= j < self.positions@[k] ==> self.records@[j].fullname@ != k
            }
        &&& forall|j: int|
            0 <= j < self.records@.len() ==> self.positions@.contains_key(
                #[trigger] self.records@[j].fullname@,
            )
        &&& forall|j: int|
            0 <= j < self.records@.len() ==> self.registry@.contains(
                #[trigger] self.records@[j].fullname@,
            )
    }

    /// Whether a full name has a handle.
    pub open spec fn knows(&self, name: Seq<char>) -> bool {
        self.names().contains(name)
    }

    /// The handle of a registered full name.
    pub open spec fn id_of(&self, name: Seq<char>) -> PackageId {
        PackageId(self.names().index_of(name) as u32)
    }

    /// Whether a handle stands for a name.
    pub open spec fn valid(&self, id: PackageId) -> bool {
        id.0 < self.names().len()
    }

    /// The handle under which a name is listed: its own, or the reserved
    /// handle `u32::MAX` for a name that has none.
    pub open spec fn listed_id(&self, name: Seq<char>) -> PackageId {
        if self.knows(name) {
            self.id_of(name)
        } else {
            PackageId(u32::MAX)
        }
    }

    /// The first record called `name`, if there is one.
    pub open spec fn record_of(&self, name: Seq<char>) -> Option<PackageRecord> {
        let at = first_named(self.entries(), name);
        if at < self.entries().len() {
            Some(self.entries()[at])
        } else {
            None
        }
    }

    /// A full name as shown: without the suffix of the native architecture.
    pub open spec fn shown_name(&self, fullname: Seq<char>) -> Seq<char> {
        without_suffix(fullname, seq![':'] + self.arch())
    }

    /// Handles and names map onto each other one to one: no name has two
    /// handles, and the handle of the name at a position is that position.
    pub proof fn lemma_handles_one_to_one(&self)
        requires
            self.wf(),
        ensures
            self.names().no_duplicates(),
            self.names().len() <= u32::MAX,
            forall|i: int|
                0 <= i < self.names().len() ==> self.id_of(#[trigger] self.names()[i]) == PackageId(
                    i as u32,
                ),
            forall|j: int|
                0 <= j < self.entries().len() ==> self.knows(#[trigger] self.entries()[j].fullname@),
    {
        self.registry.lemma_one_to_one();
    }

    fn index_records(records: &Vec<PackageRecord>) -> (positions: StringHashMap<usize>)
        ensures
            forall|k: Seq<char>| #[trigger]
                positions@.contains_key(k) ==> {
                    &&& positions@[k] < records@.len()
                    &&& records@[positions@[k] as int].fullname@ == k
                    &&& forall|j: int| 0 <= j < positions@[k] ==> records@[j].fullname@ != k
                },
            forall|j: int|
                0 <= j < records@.len() ==> positions@.contains_key(#[trigger] records@[j].fullname@),
    {
        let mut positions: StringHashMap<usize> = StringHashMap::new();
        let mut i: usize = 0;
        while i < records.len()
            invariant
                i <= records@.len(),
                forall|k: Seq<char>| #[trigger]
                    positions@.contains_key(k) ==> {
                        &&& positions@[k] < i
                        &&& records@[positions@[k] as int].fullname@ == k
                        &&& forall|j: int| 0 <= j < positions@[k] ==> records@[j].fullname@ != k
                    },
                forall|j: int| 0 <= j < i ==> positions@.contains_key(#[trigger] records@[j].fullname@),
            decreases records@.len() - i,
        {
            if !positions.contains_key(records[i].fullname.as_str()) {
                positions.insert(records[i].fullname.clone(), i);
            }
            i += 1;
        }
        positions
    }

    fn register_records(registry: &mut HandleRegistry, records: &Vec<PackageRecord>)
        requires
            old(registry).wf(),
            old(registry)@.len() + records@.len() <= u32::MAX,
        ensures
            final(registry).wf(),
            final(registry)@ == register_all(old(registry)@, fullnames(records@)),
            old(registry)@.is_prefix_of(final(registry)@),
            forall|j: int|
                0 <= j < records@.len() ==> final(registry)@.contains(#[trigger] records@[j].fullname@),
    {
        let ghost names = fullnames(records@);
        let ghost start = registry@;
        let mut i: usize = 0;
        proof {
            assert(names.take(0) =~= Seq::<Seq<char>>::empty());
        }
        while i < records.len()
            invariant
                i <= records@.len(),
                names == fullnames(records@),
                registry.wf(),
                start.len() + records@.len() <= u32::MAX,
                registry@ == register_all(start, names.take(i as int)),
            decreases records@.len() - i,
        {
            proof {
                lemma_register_all_keeps(start, names.take(i as int));
                assert(names.take(i + 1).drop_last() =~= names.take(i as int));
                assert(names.take(i + 1).last() == records@[i as int].fullname@);
            }
            registry.id_for(records[i].fullname.as_str());
            i += 1;
        }
        proof {
            assert(names.take(i as int) =~= names);
            lemma_register_all_keeps(start, names);
            assert forall|j: int| 0 <= j < records@.len() implies registry@.contains(
                #[trigger] records@[j].fullname@,
            ) by {
                assert(names[j] == records@[j].fullname@);
            }
        }
    }

    /// A cache over `records`, with a handle for each full name in the order
    /// of the records.
    pub fn new(records: Vec<PackageRecord>, native_arch: &str) -> (cache: Self)
        requires
            records@.len() <= u32::MAX,
        ensures
            cache.wf(),
            cache.entries() == records@,
            cache.arch() == native_arch@,
            cache.names() == register_all(Seq::empty(), fullnames(records@)),
    {
        let mut registry = HandleRegistry::new();
        proof {
            reveal_strlit(":");
            assert(":"@ =~= seq![':']);
            assert(registry@ =~= Seq::<Seq<char>>::empty());
        }
        Self::register_records(&mut registry, &records);
        let positions = Self::index_records(&records);
        AptCache {
            records,
            positions,
            registry,
            native_arch: String::from_str(native_arch),
            native_arch_suffix: joined(":", native_arch),
        }
    }

    /// Replaces the records by a fresh reading of the catalog. Every handle
    /// keeps its name; names seen for the first time get handles.
    pub fn refresh(&mut self, records: Vec<PackageRecord>)
        requires
            old(self).wf(),
            old(self).names().len() + records@.len() <= u32::MAX,
        ensures
            final(self).wf(),
            final(self).entries() == records@,
            final(self).arch() == old(self).arch(),
            final(self).names() == register_all(old(self).names(), fullnames(records@)),
            old(self).names().is_prefix_of(final(self).names()),
    {
        Self::register_records(&mut self.registry, &records);
        self.positions = Self::index_records(&records);
        self.records = records;
    }

    /// The native architecture, such as `amd64`.
    pub fn native_arch(&self) -> (arch: &str)
        ensures
            arch@ == self.arch(),
    {
        self.native_arch.as_str()
    }

    /// The full name of a package on the native architecture: `libfoo` is
    /// `libfoo:arm64` where `arm64` is the native architecture.
    pub open spec fn native_name(&self, base: Seq<char>) -> Seq<char> {
        base + seq![':'] + self.arch()
    }

    /// The full name of a package on the native architecture.
    pub fn on_native_arch(&self, base: &str) -> (fullname: String)
        requires
            self.wf(),
        ensures
            fullname@ == self.native_name(base@),
    {
        let fullname = joined(base, self.native_arch_suffix.as_str());
        proof {
            assert(base@ + (seq![':'] + self.native_arch@) =~= base@ + seq![':'] + self.native_arch@);
        }
        fullname
    }

    /// A full name as shown: `libfoo:amd64` is `libfoo` where `amd64` is the
    /// native architecture, and `libfoo:i386` stays as it is.
    pub fn display_name<'a>(&self, fullname: &'a str) -> (shown: &'a str)
        requires
            self.wf(),
        ensures
            shown@ == self.shown_name(fullname@),
    {
        strip_suffix(fullname, self.native_arch_suffix.as_str())
    }

    /// The handle of `fullname`, registered now if it had none.
    pub fn id_for(&mut self, fullname: &str) -> (id: PackageId)
        requires
            old(self).wf(),
            old(self).knows(fullname@) || old(self).names().len() < u32::MAX,
        ensures
            final(self).wf(),
            final(self).names() == register(old(self).names(), fullname@),
            final(self).entries() == old(self).entries(),
            final(self).arch() == old(self).arch(),
            final(self).valid(id),
            final(self).names()[id.0 as int] == fullname@,
            id == final(self).id_of(fullname@),
    {
        let id = self.registry.id_for(fullname);
        proof {
            assert forall|j: int| 0 <= j < self.records@.len() implies self.registry@.contains(
                #[trigger] self.records@[j].fullname@,
            ) by {
                let name = self.records@[j].fullname@;
                assert(old(self).registry@.contains(name));
                let k = old(self).registry@.index_of(name);
                assert(self.registry@[k] == name);
            }
        }
        id
    }

    /// The number of handles given out.
    pub fn handle_count(&self) -> (n: usize)
        ensures
            n == self.names().len(),
    {
        self.registry.len()
    }

    /// The handle of `fullname`, if it has one.
    pub fn get_id(&self, fullname: &str) -> (r: Option<PackageId>)
        requires
            self.wf(),
        ensures
            r == if self.knows(fullname@) {
                Some(self.id_of(fullname@))
            } else {
                None
            },
    {
        self.registry.get_id(fullname)
    }

    /// The full name that a handle stands for.
    pub fn fullname_of(&self, id: PackageId) -> (r: Option<&str>)
        ensures
            match r {
                Some(name) => self.valid(id) && name@ == self.names()[id.0 as int],
                None => !self.valid(id),
            },
    {
        self.registry.fullname_of(id)
    }

    /// The first record called `fullname`.
    pub fn get(&self, fullname: &str) -> (r: Option<&PackageRecord>)
        requires
            self.wf(),
        ensures
            match r {
                Some(p) => self.record_of(fullname@) == Some(*p),
                None => self.record_of(fullname@) is None,
            },
    {
        match self.positions.get(fullname) {
            Some(at) => {
                proof {
                    lemma_first_named(self.records@, fullname@, *at as int);
                }
                Some(&self.records[*at])
            },
            None => {
                proof {
                    lemma_first_named(self.records@, fullname@, self.records@.len() as int);
                }
                None
            },
        }
    }

    /// The record of a handle: the first record called by the handle's name.
    pub fn get_by_id(&self, id: PackageId) -> (r: Option<&PackageRecord>)
        requires
            self.wf(),
        ensures
            match r {
                Some(p) => self.valid(id) && self.record_of(self.names()[id.0 as int]) == Some(*p),
                None => !self.valid(id) || self.record_of(self.names()[id.0 as int]) is None,
            },
    {
        match self.fullname_of(id) {
            Some(name) => self.get(name),
            None => None,
        }
    }

    /// The records of the catalog, in catalog order.
    pub fn packages(&self) -> (rs: &Vec<PackageRecord>)
        ensures
            rs@ == self.entries(),
    {
        &self.records
    }

    /// The positions of the records that the solver has marked.
    pub fn get_changes(&self) -> (marked: Vec<usize>)
        ensures
            forall|k: int|
                0 <= k < marked@.len() ==> (#[trigger] marked@[k]) < self.entries().len()
                    && self.entries()[marked@[k] as int].state.has_mark(),
            forall|k: int, l: int| 0 <= k < l < marked@.len() ==> marked@[k] < marked@[l],
            forall|j: int|
                0 <= j < self.entries().len() && (#[trigger] self.entries()[j]).state.has_mark()
                    ==> marked@.contains(j as usize),
    {
        let mut marked: Vec<usize> = Vec::new();
        let mut i: usize = 0;
        while i < self.records.len()
            invariant
                i <= self.records@.len(),
                forall|k: int|
                    0 <= k < marked@.len() ==> (#[trigger] marked@[k]) < i
                        && self.records@[marked@[k] as int].state.has_mark(),
                forall|k: int, l: int| 0 <= k < l < marked@.len() ==> marked@[k] < marked@[l],
                forall|j: int|
                    0 <= j < i && (#[trigger] self.records@[j]).state.has_mark() ==> marked@.contains(
                        j as usize,
                    ),
            decreases self.records@.len() - i,
        {
            let st = self.records[i].state;
            if st.marked_install || st.marked_upgrade || st.marked_delete {
                let ghost before = marked@;
                marked.push(i);
                proof {
                    assert forall|j: int|
                        0 <= j < i + 1 && (#[trigger] self.records@[j]).state.has_mark() implies marked@.contains(
                        j as usize,
                    ) by {
                        if j < i {
                            let k = before.index_of(j as usize);
                            assert(before.contains(j as usize));
                            assert(marked@[k] == j as usize);
                        } else {
                            assert(marked@[marked@.len() - 1] == j as usize);
                        }
                    }
                }
            }
            i += 1;
        }
        marked
    }

    /// The raw state of a record.
    pub fn get_apt_status(&self, pkg: &PackageRecord) -> (state: AptPackageState)
        ensures
            state == pkg.state,
    {
        pkg.state
    }

    /// Takes every mark off every record.
    pub fn clear_all_marks(&mut self)
        requires
            old(self).wf(),
        ensures
            final(self).wf(),
            final(self).names() == old(self).names(),
            final(self).arch() == old(self).arch(),
            final(self).entries() == all_unmarked(old(self).entries()),
    {
        let mut i: usize = 0;
        while i < self.records.len()
            invariant
                i <= self.records@.len(),
                self.records@.len() == old(self).records@.len(),
                forall|j: int| 0 <= j < i ==> #[trigger] self.records@[j] == without_marks(old(self).records@[j]),
                forall|j: int|
                    i <= j < self.records@.len() ==> #[trigger] self.records@[j] == old(
                        self,
                    ).records@[j],
                self.positions == old(self).positions,
                self.registry == old(self).registry,
                self.native_arch == old(self).native_arch,
                self.native_arch_suffix == old(self).native_arch_suffix,
            decreases self.records@.len() - i,
        {
            self.records[i].state.marked_install = false;
            self.records[i].state.marked_upgrade = false;
            self.records[i].state.marked_delete = false;
            i += 1;
        }
        proof {
            assert(self.records@ =~= all_unmarked(old(self).records@));
            assert(fullnames(self.records@) =~= fullnames(old(self).records@)) by {
                assert forall|j: int| 0 <= j < self.records@.len() implies self.records@[j].fullname
                    == old(self).records@[j].fullname by {
                    assert(self.records@[j] == without_marks(old(self).records@[j]));
                }
            }
            self.lemma_same_names(*old(self));
        }
    }

    /// Writes the solver's marks into the records: the marks of each change
    /// to the first record of its name.
    pub fn apply_marks(&mut self, changes: &Vec<AptChange>)
        requires
            old(self).wf(),
        ensures
            final(self).wf(),
            final(self).names() == old(self).names(),
            final(self).arch() == old(self).arch(),
            final(self).entries() == marked_by(old(self).entries(), changes@),
    {
        let mut i: usize = 0;
        proof {
            assert(changes@.take(0) =~= Seq::<AptChange>::empty());
        }
        while i < changes.len()
            invariant
                i <= changes@.len(),
                self.wf(),
                self.records@ == marked_by(old(self).records@, changes@.take(i as int)),
                self.positions == old(self).positions,
                self.registry == old(self).registry,
                self.native_arch == old(self).native_arch,
                self.native_arch_suffix == old(self).native_arch_suffix,
            decreases changes@.len() - i,
        {
            let ghost before = *self;
            let c = &changes[i];
            proof {
                assert(changes@.take(i + 1).drop_last() =~= changes@.take(i as int));
                assert(changes@.take(i + 1).last() == changes@[i as int]);
            }
            match self.positions.get(c.fullname.as_str()) {
                Some(at) => {
                    let at: usize = *at;
                    proof {
                        lemma_first_named(self.records@, c.fullname@, at as int);
                    }
                    self.records[at].state.marked_install = c.marked_install;
                    self.records[at].state.marked_upgrade = c.marked_upgrade;
                    self.records[at].state.marked_delete = c.marked_delete;
                    proof {
                        assert(self.records@ =~= before.records@.update(
                            at as int,
                            with_marks(before.records@[at as int], *c),
                        ));
                        assert(fullnames(self.records@) =~= fullnames(before.records@));
                        self.lemma_same_names(before);
                    }
                },
                None => {
                    proof {
                        lemma_first_named(self.records@, c.fullname@, self.records@.len() as int);
                    }
                },
            }
            i += 1;
        }
        proof {
            assert(changes@.take(i as int) =~= changes@);
        }
    }

    /// A cache stays well formed while its records keep their names.
    proof fn lemma_same_names(&self, before: AptCache)
        requires
            before.wf(),
            fullnames(self.records@) == fullnames(before.records@),
            self.records@.len() == before.records@.len(),
            self.positions == before.positions,
            self.registry == before.registry,
            self.native_arch == before.native_arch,
            self.native_arch_suffix == before.native_arch_suffix,
        ensures
            self.wf(),
    {
        assert forall|j: int| 0 <= j < self.records@.len() implies #[trigger] self.records@[j].fullname@
            == before.records@[j].fullname@ by {
            assert(fullnames(self.records@)[j] == fullnames(before.records@)[j]);
        }
    }

    /// The display row of a record before intent and plan are laid over it.
    /// Every record has one: what the candidate would tell is left empty or
    /// 0 for a record without candidate.
    pub fn extract_package_info(&self, pkg: &PackageRecord) -> (r: Option<PackageInfo>)
        requires
            self.wf(),
        ensures
            r matches Some(info) && info@ == base_info(*pkg, self.listed_id(pkg.fullname@)),
    {
        let status = if pkg.state.is_installed {
            if pkg.state.is_upgradable {
                PackageStatus::Upgradable
            } else {
                PackageStatus::Installed
            }
        } else {
            PackageStatus::NotInstalled
        };
        let installed_version = match &pkg.installed_version {
            Some(v) => v.clone(),
            None => String::new(),
        };
        let id = match self.get_id(pkg.fullname.as_str()) {
            Some(id) => id,
            None => PackageId(u32::MAX),
        };
        let info = match &pkg.candidate {
            Some(candidate) => {
                let section = match &candidate.section {
                    Some(s) => s.clone(),
                    None => String::from_str("unknown"),
                };
                let description = match &candidate.summary {
                    Some(s) => s.clone(),
                    None => String::new(),
                };
                PackageInfo {
                    id,
                    name: pkg.fullname.clone(),
                    status,
                    section,
                    installed_version,
                    candidate_version: candidate.version.clone(),
                    installed_size: candidate.installed_size,
                    download_size: candidate.size,
                    description,
                    architecture: candidate.arch.clone(),
                }
            },
            None => PackageInfo {
                id,
                name: pkg.fullname.clone(),
                status,
                section: String::from_str("unknown"),
                installed_version,
                candidate_version: String::new(),
                installed_size: 0,
                download_size: 0,
                description: String::new(),
                architecture: String::new(),
            },
        };
        Some(info)
    }

    /// The display row of the first record called `name`; none where no
    /// record is called so.
    pub fn extract_package_info_by_name(&self, name: &str) -> (r: Option<PackageInfo>)
        requires
            self.wf(),
        ensures
            match r {
                Some(info) => self.record_of(name@) is Some && info@ == base_info(
                    self.record_of(name@)->0,
                    self.listed_id(name@),
                ),
                None => self.record_of(name@) is None,
            },
    {
        match self.get(name) {
            Some(pkg) => {
                proof {
                    lemma_first_named_found(self.entries(), name@);
                }
                self.extract_package_info(pkg)
            },
            None => None,
        }
    }

    /// The position of the first record called `fullname`.
    pub fn position_of(&self, fullname: &str) -> (r: Option<usize>)
        requires
            self.wf(),
        ensures
            match r {
                Some(at) => at < self.entries().len() && at == first_named(self.entries(), fullname@),
                None => first_named(self.entries(), fullname@) == self.entries().len(),
            },
    {
        match self.positions.get(fullname) {
            Some(at) => {
                proof {
                    lemma_first_named(self.records@, fullname@, *at as int);
                }
                Some(*at)
            },
            None => {
                proof {
                    lemma_first_named(self.records@, fullname@, self.records@.len() as int);
                }
                None
            },
        }
    }

    fn sorted_copy(list: &Vec<(String, String)>) -> (out: Vec<(String, String)>)
        ensures
            dependencies_sorted(list@, out@),
    {
        let mut out: Vec<(String, String)> = Vec::new();
        let mut i: usize = 0;
        while i < list.len()
            invariant
                i <= list@.len(),
                out@ == list@.take(i as int),
            decreases list@.len() - i,
        {
            out.push((list[i].0.clone(), list[i].1.clone()));
            i += 1;
            proof {
                assert(out@ =~= list@.take(i as int));
            }
        }
        proof {
            assert(list@.take(i as int) =~= list@);
        }
        sort_dependencies(&mut out);
        out
    }

    /// The dependencies of the first record called `name`, as `(kind,
    /// target)`: strongest kind first, targets in order within a kind. Empty
    /// where no record is called `name`.
    pub fn get_dependencies(&self, name: &str) -> (deps: Vec<(String, String)>)
        requires
            self.wf(),
        ensures
            match self.record_of(name@) {
                Some(r) => dependencies_sorted(r.dependencies@, deps@),
                None => deps@.len() == 0,
            },
    {
        match self.get(name) {
            Some(pkg) => Self::sorted_copy(&pkg.dependencies),
            None => Vec::new(),
        }
    }

    /// The packages that depend on the first record called `name`, as
    /// `(kind, dependent)`, in the order of `get_dependencies`.
    pub fn get_reverse_dependencies(&self, name: &str) -> (rdeps: Vec<(String, String)>)
        requires
            self.wf(),
        ensures
            match self.record_of(name@) {
                Some(r) => dependencies_sorted(r.reverse_dependencies@, rdeps@),
                None => rdeps@.len() == 0,
            },
    {
        match self.get(name) {
            Some(pkg) => Self::sorted_copy(&pkg.reverse_dependencies),
            None => Vec::new(),
        }
    }

    /// The number of upgradable packages.
    pub fn count_upgradable(&self) -> (n: usize)
        ensures
            n == self.entries().filter(|r: PackageRecord| r.state.is_upgradable).len(),
    {
        let ghost up = |r: PackageRecord| r.state.is_upgradable;
        let mut n: usize = 0;
        let mut i: usize = 0;
        proof {
            assert(self.records@.take(0).filter(up) =~= Seq::<PackageRecord>::empty());
        }
        while i < self.records.len()
            invariant
                i <= self.records@.len(),
                up == (|r: PackageRecord| r.state.is_upgradable),
                n == self.records@.take(i as int).filter(up).len(),
                n <= i,
            decreases self.records@.len() - i,
        {
            proof {
                crate::types::lemma_filter_step(self.records@, up, i as int);
            }
            if self.records[i].state.is_upgradable {
                n += 1;
            }
            i += 1;
        }
        proof {
            assert(self.records@.take(i as int) =~= self.records@);
        }
        n
    }
}

} // verus!
