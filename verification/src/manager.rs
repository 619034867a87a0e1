//! The package manager: user intent as the single source of truth, a plan
//! derived from it by the solver, and the lifecycle that holds the two
//! together.
//!
//! The lifecycle is kept twice. `PackageManager<S>` carries the state in its
//! type, so that planning needs a dirty manager and committing a planned one.
//! `ManagerState` holds whichever of them is current, for callers that cannot
//! give the manager away on every step; `ManagerState::Transitioning` stands
//! in while one state is replaced by the next and is never observed.
//!
//! The solver and the transaction are not run here. Whoever drives the
//! native package library applies the marks of `solver_requests`, runs the
//! solver and hands over what it did as a `SolverOutcome`.

use crate::apt::{
    all_unmarked, base_info, fullnames, marked_by, AptCache, AptChange, PackageRecord,
};
use crate::intent::IntentStore;
use crate::order::{rows_sorted, sort_rows};
use crate::planner::{
    changed_names, check_names, check_sizes, each_once, mark_requests, named_once, plan_from, plan_of,
    reasons_follow_intent, requests_for,
    requests_view, sizes_fit, MarkRequest, PlannedView, SolverOutcome,
};
use crate::projection::{
    apply_plan, display_status, last_action, project, projected, promoted, shown_status, widths_of,
};
use crate::registry::register_all;
use crate::search::{catalog_rows, fts_matches, fts_pattern, SearchError, SearchIndex};
use crate::cascade::{culprits, find_user_intent_depending_on};
use crate::text::{chars_of, decimal_text, push_char, push_decimal, text_of};
use crate::types::{
    rows, texts, total_download, total_size_change, ChangeAction, ChangeReason, Clean,
    ColumnWidths, Dirty, FilterCategory, MarkPreview, MarkPreviewView, PackageId, PackageInfo,
    PackageInfoView, PackageStatus, PendingChanges, PendingView, Planned, PlannedChange,
    ReadableState, SortBy, UserIntent,
};
use std::time::Duration;
use vstd::hash_set::StringHashSet;
use vstd::multiset::Multiset;
use vstd::prelude::*;
use vstd::string::*;

verus! {

// ============================================================================
// Search and sort state
// ============================================================================

/// The search of the package list: the index, the query as typed, and the
/// names found. No results means that no search is active, which differs
/// from a search that found nothing.
pub struct SearchState {
    pub index: Option<SearchIndex>,
    pub query: String,
    pub results: Option<StringHashSet>,
}

impl Default for SearchState {
    fn default() -> (s: Self)
        ensures
            s.index is None,
            s.query@ == Seq::<char>::empty(),
            s.results is None,
    {
        SearchState { index: None, query: String::new(), results: None }
    }
}

/// How the package list is sorted.
#[derive(Debug, Clone, Copy, PartialEq, Eq, Structural)]
pub struct SortSettings {
    pub sort_by: SortBy,
    pub ascending: bool,
}

impl Default for SortSettings {
    fn default() -> (s: Self)
        ensures
            s == (SortSettings { sort_by: SortBy::Name, ascending: true }),
    {
        SortSettings { sort_by: SortBy::Name, ascending: true }
    }
}

// ============================================================================
// State shared by every lifecycle state
// ============================================================================

/// What every lifecycle state holds: the catalog, the user's intent, the
/// search and the package list.
pub struct SharedState {
    cache: AptCache,
    user_intent: IntentStore,
    search: SearchState,
    list: Vec<PackageInfo>,
    upgradable_count: usize,
    installed_count: usize,
    total_count: usize,
    selected_filter: FilterCategory,
    sort_settings: SortSettings,
}

/// The shared state as plain values.
pub ghost struct SharedView {
    pub cache: AptCache,
    /// The user's intent.
    pub intent: Map<PackageId, UserIntent>,
    /// The handles of the intent in the order in which they were first set.
    pub order: Seq<PackageId>,
    /// The package list.
    pub list: Seq<PackageInfoView>,
    pub filter: FilterCategory,
    pub sort: SortSettings,
    /// The search query as typed.
    pub query: Seq<char>,
    /// The names found by the active search.
    pub found: Option<Set<Seq<char>>>,
    /// The rows of the search index, where it is built.
    pub index: Option<Multiset<(Seq<char>, Seq<char>)>>,
    pub upgradable: usize,
    pub installed: usize,
    pub total: usize,
}

/// The number of installed packages.
pub open spec fn count_installed(rs: Seq<PackageRecord>) -> nat
    decreases rs.len(),
{
    if rs.len() == 0 {
        0
    } else {
        count_installed(rs.drop_last()) + if rs.last().state.is_installed {
            1nat
        } else {
            0nat
        }
    }
}

/// The number of installed packages that can be upgraded.
pub open spec fn count_upgradable(rs: Seq<PackageRecord>) -> nat
    decreases rs.len(),
{
    if rs.len() == 0 {
        0
    } else {
        count_upgradable(rs.drop_last()) + if rs.last().state.is_installed
            && rs.last().state.is_upgradable {
            1nat
        } else {
            0nat
        }
    }
}

impl View for SharedState {
    type V = SharedView;

    closed spec fn view(&self) -> SharedView {
        SharedView {
            cache: self.cache,
            intent: self.user_intent@,
            order: self.user_intent.order(),
            list: rows(self.list@),
            filter: self.selected_filter,
            sort: self.sort_settings,
            query: self.search.query@,
            found: match self.search.results {
                Some(names) => Some(names@),
                None => None,
            },
            index: match self.search.index {
                Some(index) => Some(index.rows()),
                None => None,
            },
            upgradable: self.upgradable_count,
            installed: self.installed_count,
            total: self.total_count,
        }
    }
}

/// The package list is the projection of the catalog under the filter, the
/// search, the intent and the changes, in the order of the sort settings.
pub open spec fn list_current(s: SharedView, changes: Seq<PlannedChange>) -> bool {
    rows_sorted(
        projected(s.cache, s.intent, changes, s.filter, s.found),
        s.list,
        s.sort.sort_by,
        s.sort.ascending,
    )
}

impl SharedState {
    /// The catalog and the intent store are well formed, and the counts
    /// are in order.
    pub closed spec fn wf(&self) -> bool {
        &&& self.cache.wf()
        &&& self.user_intent.wf()
        &&& self.upgradable_count <= self.installed_count <= self.total_count
    }

    /// What follows from `wf` for the view.
    pub proof fn lemma_wf(&self)
        requires
            self.wf(),
        ensures
            self@.cache.wf(),
            self@.upgradable <= self@.installed <= self@.total,
            self@.intent.dom().finite(),
            self@.intent.len() == self@.order.len(),
            self@.order.no_duplicates(),
            forall|id: PackageId| #[trigger] self@.intent.contains_key(id) <==> self@.order.contains(id),
            forall|id: PackageId| #[trigger]
                self@.intent.contains_key(id) ==> self@.intent[id] != UserIntent::Default,
    {
        self.user_intent.lemma_view();
    }

    fn new(cache: AptCache) -> (s: Self)
        requires
            cache.wf(),
        ensures
            s.wf(),
            s@ == (SharedView {
                cache,
                intent: Map::empty(),
                order: Seq::empty(),
                list: Seq::empty(),
                filter: FilterCategory::Upgradable,
                sort: SortSettings { sort_by: SortBy::Name, ascending: true },
                query: Seq::empty(),
                found: None,
                index: None,
                upgradable: 0,
                installed: 0,
                total: 0,
            }),
    {
        let s = SharedState {
            cache,
            user_intent: IntentStore::new(),
            search: SearchState::default(),
            list: Vec::new(),
            upgradable_count: 0,
            installed_count: 0,
            total_count: 0,
            selected_filter: FilterCategory::Upgradable,
            sort_settings: SortSettings::default(),
        };
        proof {
            assert(rows(s.list@) =~= Seq::<PackageInfoView>::empty());
        }
        s
    }

    /// Counts the packages of the catalog.
    fn compute_cache_counts(&mut self)
        requires
            old(self).wf(),
        ensures
            final(self).wf(),
            final(self)@ == (SharedView {
                upgradable: count_upgradable(old(self)@.cache.entries()) as usize,
                installed: count_installed(old(self)@.cache.entries()) as usize,
                total: old(self)@.cache.entries().len() as usize,
                ..old(self)@
            }),
            count_upgradable(old(self)@.cache.entries()) <= count_installed(
                old(self)@.cache.entries(),
            ) <= old(self)@.cache.entries().len() <= usize::MAX,
    {
        let records = self.cache.packages();
        let mut upgradable: usize = 0;
        let mut installed: usize = 0;
        let mut i: usize = 0;
        proof {
            assert(records@.take(0) =~= Seq::<PackageRecord>::empty());
        }
        while i < records.len()
            invariant
                i <= records@.len(),
                upgradable == count_upgradable(records@.take(i as int)),
                installed == count_installed(records@.take(i as int)),
                upgradable <= installed <= i,
            decreases records@.len() - i,
        {
            proof {
                assert(records@.take(i + 1).drop_last() =~= records@.take(i as int));
                assert(records@.take(i + 1).last() == records@[i as int]);
            }
            if records[i].state.is_installed {
                installed += 1;
                if records[i].state.is_upgradable {
                    upgradable += 1;
                }
            }
            i += 1;
        }
        proof {
            assert(records@.take(i as int) =~= records@);
        }
        self.total_count = i;
        self.installed_count = installed;
        self.upgradable_count = upgradable;
    }

    /// Rebuilds the package list from the catalog and sorts it.
    fn rebuild(&mut self, changes: &Vec<PlannedChange>) -> (widths: ColumnWidths)
        requires
            old(self).wf(),
        ensures
            final(self).wf(),
            final(self)@ == (SharedView { list: final(self)@.list, ..old(self)@ }),
            list_current(final(self)@, changes@),
            widths == widths_of(
                old(self)@.cache,
                projected(
                    old(self)@.cache,
                    old(self)@.intent,
                    changes@,
                    old(self)@.filter,
                    old(self)@.found,
                ),
            ),
    {
        let (list, widths) = project(
            &self.cache,
            &self.user_intent,
            changes,
            self.selected_filter,
            &self.search.results,
        );
        self.list = list;
        sort_rows(&mut self.list, self.sort_settings.sort_by, self.sort_settings.ascending);
        widths
    }

    /// Sorts the package list by the sort settings.
    fn sort_list(&mut self)
        requires
            old(self).wf(),
        ensures
            final(self).wf(),
            final(self)@ == (SharedView { list: final(self)@.list, ..old(self)@ }),
            rows_sorted(
                old(self)@.list,
                final(self)@.list,
                old(self)@.sort.sort_by,
                old(self)@.sort.ascending,
            ),
    {
        sort_rows(&mut self.list, self.sort_settings.sort_by, self.sort_settings.ascending);
    }

    /// Builds the search index if there is none. Returns the time it took
    /// where it was built now.
    fn ensure_search_index(&mut self) -> (r: Result<Option<Duration>, SearchError>)
        requires
            old(self).wf(),
        ensures
            final(self).wf(),
            old(self)@.index is Some ==> r is Ok,
            match r {
                Ok(built) => final(self)@ == (SharedView {
                    index: if old(self)@.index is Some {
                        old(self)@.index
                    } else {
                        Some(catalog_rows(old(self)@.cache.entries()))
                    },
                    ..old(self)@
                }) && (built is Some <==> old(self)@.index is None),
                Err(_) => final(self)@ == old(self)@,
            },
    {
        if self.search.index.is_none() {
            let mut index = match SearchIndex::new() {
                Ok(index) => index,
                Err(e) => {
                    return Err(e);
                },
            };
            match index.build(&self.cache) {
                Ok((_count, duration)) => {
                    self.search.index = Some(index);
                    Ok(Some(duration))
                },
                Err(e) => Err(e),
            }
        } else {
            Ok(None)
        }
    }

    /// Sets the query and searches for it, building the index first where
    /// there is none. An empty query ends the search. Where building or
    /// searching fails only the query changes.
    fn set_search_query(&mut self, query: &str) -> (r: Result<(), SearchError>)
        requires
            old(self).wf(),
        ensures
            final(self).wf(),
            query@.len() == 0 ==> r is Ok,
            match r {
                Ok(()) => final(self)@ == searched(old(self)@, query@),
                Err(_) => query@.len() > 0 && final(self)@ == (SharedView {
                    query: query@,
                    ..old(self)@
                }),
            },
    {
        self.search.query = String::from_str(query);
        if query.unicode_len() == 0 {
            self.search.results = None;
            return Ok(());
        }
        if let Some(index) = &self.search.index {
            match index.search(query) {
                Ok(found) => {
                    self.search.results = Some(found);
                    Ok(())
                },
                Err(e) => Err(e),
            }
        } else {
            let mut index = match SearchIndex::new() {
                Ok(index) => index,
                Err(e) => {
                    return Err(e);
                },
            };
            if let Err(e) = index.build(&self.cache) {
                return Err(e);
            }
            match index.search(query) {
                Ok(found) => {
                    self.search.index = Some(index);
                    self.search.results = Some(found);
                    Ok(())
                },
                Err(e) => Err(e),
            }
        }
    }

    /// Ends the search.
    fn clear_search(&mut self)
        requires
            old(self).wf(),
        ensures
            final(self).wf(),
            final(self)@ == (SharedView { query: Seq::empty(), found: None, ..old(self)@ }),
    {
        self.search.query = String::new();
        self.search.results = None;
    }

    /// Takes a fresh reading of the catalog, without the marks that its
    /// records may carry. The intent, the search and its index are dropped;
    /// every handle keeps its name.
    fn reload(&mut self, records: Vec<PackageRecord>)
        requires
            old(self).wf(),
            old(self)@.cache.names().len() + records@.len() <= u32::MAX,
        ensures
            final(self).wf(),
            final(self)@ == (SharedView {
                cache: final(self)@.cache,
                intent: Map::empty(),
                order: Seq::empty(),
                query: Seq::empty(),
                found: None,
                index: None,
                upgradable: count_upgradable(records@) as usize,
                installed: count_installed(records@) as usize,
                total: records@.len() as usize,
                ..old(self)@
            }),
            final(self)@.cache.entries() == all_unmarked(records@),
            final(self)@.cache.arch() == old(self)@.cache.arch(),
            final(self)@.cache.names() == register_all(old(self)@.cache.names(), fullnames(records@)),
            old(self)@.cache.names().is_prefix_of(final(self)@.cache.names()),
    {
        self.cache.refresh(records);
        self.user_intent.clear_all();
        self.search.index = None;
        self.search.query = String::new();
        self.search.results = None;
        self.compute_cache_counts();
        self.cache.clear_all_marks();
    }
}

// ============================================================================
// The package manager, with its state in its type
// ============================================================================

/// Package manager whose lifecycle state is part of its type.
pub struct PackageManager<S> {
    shared: SharedState,
    state: S,
}

impl<S> PackageManager<S> {
    /// The state shared by every lifecycle state.
    pub closed spec fn base(&self) -> SharedState {
        self.shared
    }

    /// What the lifecycle state holds on its own.
    pub closed spec fn stage(&self) -> S {
        self.state
    }
}

impl PackageManager<Clean> {
    /// A manager over a catalog, with nothing marked and the package list
    /// built. Marks that the records carry are taken off.
    pub fn new(records: Vec<PackageRecord>, native_arch: &str) -> (m: Self)
        requires
            records@.len() <= u32::MAX,
        ensures
            m.base().wf(),
            m.base()@ == (SharedView {
                cache: m.base()@.cache,
                intent: Map::empty(),
                order: Seq::empty(),
                list: m.base()@.list,
                filter: FilterCategory::Upgradable,
                sort: SortSettings { sort_by: SortBy::Name, ascending: true },
                query: Seq::empty(),
                found: None,
                index: None,
                upgradable: count_upgradable(records@) as usize,
                installed: count_installed(records@) as usize,
                total: records@.len() as usize,
            }),
            m.base()@.cache.wf(),
            m.base()@.cache.entries() == all_unmarked(records@),
            m.base()@.cache.arch() == native_arch@,
            m.base()@.cache.names() == register_all(Seq::empty(), fullnames(records@)),
            list_current(m.base()@, Seq::empty()),
    {
        let cache = AptCache::new(records, native_arch);
        let mut shared = SharedState::new(cache);
        shared.compute_cache_counts();
        shared.cache.clear_all_marks();
        let none: Vec<PlannedChange> = Vec::new();
        shared.rebuild(&none);
        PackageManager { shared, state: Clean }
    }

    /// Marks a package for install or upgrade.
    pub fn mark_install(self, id: PackageId) -> (m: PackageManager<Dirty>)
        requires
            self.base().wf(),
        ensures
            m.base().wf(),
            m.base()@ == (SharedView {
                intent: self.base()@.intent.insert(id, UserIntent::Install),
                order: marked_order(self.base()@, id),
                ..self.base()@
            }),
    {
        let mut shared = self.shared;
        shared.user_intent.set(id, UserIntent::Install);
        PackageManager { shared, state: Dirty }
    }

    /// Marks a package for removal.
    pub fn mark_remove(self, id: PackageId) -> (m: PackageManager<Dirty>)
        requires
            self.base().wf(),
        ensures
            m.base().wf(),
            m.base()@ == (SharedView {
                intent: self.base()@.intent.insert(id, UserIntent::Remove),
                order: marked_order(self.base()@, id),
                ..self.base()@
            }),
    {
        let mut shared = self.shared;
        shared.user_intent.set(id, UserIntent::Remove);
        PackageManager { shared, state: Dirty }
    }
}

/// The order of the intent once `id` has been marked: unchanged where it
/// was marked before, with `id` at the end where it was not.
pub open spec fn marked_order(s: SharedView, id: PackageId) -> Seq<PackageId> {
    if s.intent.contains_key(id) {
        s.order
    } else {
        s.order.push(id)
    }
}

/// The order of the intent once `id` has been unmarked.
pub open spec fn unmarked_order(s: SharedView, id: PackageId) -> Seq<PackageId> {
    crate::intent::without(s.order, id)
}

impl PackageManager<Dirty> {
    /// Marks a package for install or upgrade.
    pub fn mark_install(self, id: PackageId) -> (m: Self)
        requires
            self.base().wf(),
        ensures
            m.base().wf(),
            m.base()@ == (SharedView {
                intent: self.base()@.intent.insert(id, UserIntent::Install),
                order: marked_order(self.base()@, id),
                ..self.base()@
            }),
    {
        let mut m = self;
        m.shared.user_intent.set(id, UserIntent::Install);
        m
    }

    /// Marks a package for removal.
    pub fn mark_remove(self, id: PackageId) -> (m: Self)
        requires
            self.base().wf(),
        ensures
            m.base().wf(),
            m.base()@ == (SharedView {
                intent: self.base()@.intent.insert(id, UserIntent::Remove),
                order: marked_order(self.base()@, id),
                ..self.base()@
            }),
    {
        let mut m = self;
        m.shared.user_intent.set(id, UserIntent::Remove);
        m
    }

    /// Takes the user's intent for a package back.
    pub fn unmark(self, id: PackageId) -> (m: Self)
        requires
            self.base().wf(),
        ensures
            m.base().wf(),
            m.base()@ == (SharedView {
                intent: self.base()@.intent.remove(id),
                order: unmarked_order(self.base()@, id),
                ..self.base()@
            }),
    {
        let mut m = self;
        m.shared.user_intent.clear(id);
        m
    }

    /// Sets the user's intent for a package. `Default` takes it back.
    pub fn set_intent(self, id: PackageId, intent: UserIntent) -> (m: Self)
        requires
            self.base().wf(),
        ensures
            m.base().wf(),
            m.base()@ == (SharedView {
                intent: if intent == UserIntent::Default {
                    self.base()@.intent.remove(id)
                } else {
                    self.base()@.intent.insert(id, intent)
                },
                order: if intent == UserIntent::Default {
                    unmarked_order(self.base()@, id)
                } else {
                    marked_order(self.base()@, id)
                },
                ..self.base()@
            }),
    {
        let mut m = self;
        match intent {
            UserIntent::Default => {
                m.shared.user_intent.clear(id);
            },
            _ => {
                m.shared.user_intent.set(id, intent);
            },
        }
        m
    }

    /// Drops every mark: the user's and the solver's.
    pub fn reset(self) -> (m: PackageManager<Clean>)
        requires
            self.base().wf(),
        ensures
            m.base().wf(),
            m.base()@ == (SharedView {
                cache: m.base()@.cache,
                intent: Map::empty(),
                order: Seq::empty(),
                ..self.base()@
            }),
            cleared(self.base()@.cache, m.base()@.cache),
    {
        let mut shared = self.shared;
        shared.user_intent.clear_all();
        shared.cache.clear_all_marks();
        PackageManager { shared, state: Clean }
    }

    /// The marks that stand for the user's intent, for the solver.
    pub fn solver_requests(&self) -> (requests: Vec<MarkRequest>)
        requires
            self.base().wf(),
        ensures
            requests_view(requests@) == requests_for(self.base()@.cache.names(), self.base()@.intent),
    {
        mark_requests(&self.shared.cache, &self.shared.user_intent)
    }

    /// Builds the plan from what the solver did with the marks of
    /// `solver_requests`.
    pub fn plan(self, outcome: SolverOutcome) -> (m: PackageManager<Planned>)
        requires
            self.base().wf(),
            admissible(self.base()@.cache, outcome),
        ensures
            m.base().wf(),
            m.base()@ == (SharedView { cache: m.base()@.cache, ..self.base()@ }),
            replanned(self.base()@.cache, m.base()@.cache, outcome.changes@),
            m.planned()@ == plan_of(
                m.base()@.cache.names(),
                self.base()@.intent,
                outcome.changes@,
                outcome.failure,
            ),
            m.consistent(),
    {
        let mut shared = self.shared;
        let planned = plan_from(&mut shared.cache, &shared.user_intent, outcome);
        PackageManager { shared, state: planned }
    }

    /// Takes note of how a transaction ended whose plan was never handed
    /// over. As after any transaction, the intent is dropped, and so are the
    /// marks and the search index.
    pub fn commit_unplanned(self, transaction: Result<(), String>) -> (r: (
        PackageManager<Clean>,
        Result<(), String>,
    ))
        requires
            self.base().wf(),
        ensures
            r.0.base().wf(),
            r.0.base()@ == (SharedView {
                cache: r.0.base()@.cache,
                intent: Map::empty(),
                order: Seq::empty(),
                index: None,
                ..self.base()@
            }),
            cleared(self.base()@.cache, r.0.base()@.cache),
            r.1 == transaction,
    {
        let mut shared = self.shared;
        shared.user_intent.clear_all();
        shared.cache.clear_all_marks();
        shared.search.index = None;
        (PackageManager { shared, state: Clean }, transaction)
    }

    /// Whether the user has marked anything.
    pub fn has_marks(&self) -> (r: bool)
        requires
            self.base().wf(),
        ensures
            r == (self.base()@.order.len() > 0),
            r == (self.base()@.intent != Map::<PackageId, UserIntent>::empty()),
    {
        !self.shared.user_intent.is_empty()
    }
}

/// What the solver did can be planned: each changed package is named once,
/// the handles of the changed packages fit in 32 bits and the sizes fit the
/// plan.
pub open spec fn admissible(cache: AptCache, outcome: SolverOutcome) -> bool {
    &&& named_once(outcome.changes@)
    &&& cache.names().len() + outcome.changes@.len() <= u32::MAX
    &&& sizes_fit(outcome.changes@)
}

/// Whether what the solver did can be planned.
pub fn admissible_now(cache: &AptCache, outcome: &SolverOutcome) -> (ok: bool)
    ensures
        ok == admissible(*cache, *outcome),
{
    let used = cache.handle_count();
    let limit: usize = u32::MAX as usize;
    used <= limit && outcome.changes.len() <= limit - used && check_names(&outcome.changes)
        && check_sizes(&outcome.changes)
}

/// `after` is `before` without any mark.
pub open spec fn cleared(before: AptCache, after: AptCache) -> bool {
    &&& after.wf()
    &&& after.names() == before.names()
    &&& after.arch() == before.arch()
    &&& after.entries() == all_unmarked(before.entries())
}

/// `after` is `before` with the solver's marks in place of the old ones,
/// and with a handle for every changed package.
pub open spec fn replanned(before: AptCache, after: AptCache, changes: Seq<AptChange>) -> bool {
    &&& after.wf()
    &&& after.names() == register_all(before.names(), changed_names(changes))
    &&& after.arch() == before.arch()
    &&& after.entries() == marked_by(all_unmarked(before.entries()), changes)
}

impl PackageManager<Planned> {
    /// The plan.
    pub open spec fn planned(&self) -> Planned {
        self.stage()
    }

    /// The plan agrees with the intent and with itself: no package is
    /// changed twice, a change is the user's exactly when the user stated an
    /// intent for its package, and the totals are the sums over the changes.
    pub open spec fn consistent(&self) -> bool {
        &&& each_once(self.planned()@.changes)
        &&& reasons_follow_intent(self.planned()@.changes, self.base()@.intent)
        &&& self.planned()@.download_size == total_download(self.planned()@.changes)
        &&& self.planned()@.install_size_change == total_size_change(self.planned()@.changes)
    }

    /// The computed changes.
    pub fn changes(&self) -> (changes: &Vec<PlannedChange>)
        ensures
            changes@ == self.planned()@.changes,
    {
        &self.state.changes
    }

    /// Lays the plan over the package list: each row whose package the user
    /// has no intent for takes the status of the plan's last change to it.
    pub fn apply_planned_statuses(&mut self)
        requires
            old(self).base().wf(),
        ensures
            final(self).base().wf(),
            final(self).stage() == old(self).stage(),
            final(self).planned() == old(self).planned(),
            final(self).base()@ == (SharedView { list: final(self).base()@.list, ..old(self).base()@ }),
            final(self).base()@.list.len() == old(self).base()@.list.len(),
            forall|i: int|
                0 <= i < old(self).base()@.list.len() ==> #[trigger] final(self).base()@.list[i] == (
                PackageInfoView {
                    status: if old(self).base()@.intent.contains_key(old(self).base()@.list[i].id) {
                        old(self).base()@.list[i].status
                    } else {
                        match last_action(old(self).planned()@.changes, old(self).base()@.list[i].id) {
                            Some(action) => promoted(action),
                            None => old(self).base()@.list[i].status,
                        }
                    },
                    ..old(self).base()@.list[i]
                }),
    {
        apply_plan(&mut self.shared.list, &self.shared.user_intent, &self.state.changes);
    }

    /// Total bytes to download.
    pub fn download_size(&self) -> (n: u64)
        ensures
            n == self.planned()@.download_size,
    {
        self.state.download_size
    }

    /// Total change of the installed size in bytes.
    pub fn install_size_change(&self) -> (n: i64)
        ensures
            n == self.planned()@.install_size_change,
    {
        self.state.install_size_change
    }

    /// Whether the solver reported a failure.
    pub fn has_errors(&self) -> (r: bool)
        ensures
            r == (self.planned()@.errors.len() > 0),
    {
        self.state.errors.len() > 0
    }

    /// The solver's messages.
    pub fn errors(&self) -> (errors: &Vec<String>)
        ensures
            texts(errors@) == self.planned()@.errors,
    {
        &self.state.errors
    }

    /// Back to changing marks: keeps the intent, drops the plan.
    pub fn modify(self) -> (m: PackageManager<Dirty>)
        ensures
            m.base() == self.base(),
    {
        PackageManager { shared: self.shared, state: Dirty }
    }

    /// Takes note of how the transaction ended. Whether it succeeded or
    /// failed, the intent is dropped, and so are the marks and the search
    /// index, which no longer match the system.
    pub fn commit(self, transaction: Result<(), String>) -> (r: (
        PackageManager<Clean>,
        Result<(), String>,
    ))
        requires
            self.base().wf(),
        ensures
            r.0.base().wf(),
            r.0.base()@ == (SharedView {
                cache: r.0.base()@.cache,
                intent: Map::empty(),
                order: Seq::empty(),
                index: None,
                ..self.base()@
            }),
            cleared(self.base()@.cache, r.0.base()@.cache),
            r.1 == transaction,
    {
        let mut shared = self.shared;
        shared.user_intent.clear_all();
        shared.cache.clear_all_marks();
        shared.search.index = None;
        (PackageManager { shared, state: Clean }, transaction)
    }
}

impl<S: ReadableState> PackageManager<S> {
    /// The state shared by every lifecycle state.
    pub fn shared(&self) -> (s: &SharedState)
        ensures
            *s == self.base(),
    {
        &self.shared
    }

    /// The shared state, to change it in place.
    pub fn shared_mut(&mut self) -> (s: &mut SharedState)
        ensures
            *s == old(self).base(),
            final(self).base() == *final(s),
            final(self).stage() == old(self).stage(),
    {
        &mut self.shared
    }

    /// The package at a position of the list.
    pub fn get_package(&self, index: usize) -> (r: Option<&PackageInfo>)
        ensures
            match r {
                Some(info) => index < self.base()@.list.len() && info@ == self.base()@.list[index as int],
                None => index >= self.base()@.list.len(),
            },
    {
        if index < self.shared.list.len() {
            Some(&self.shared.list[index])
        } else {
            None
        }
    }

    /// The first package of the list with a handle.
    pub fn get_package_by_id(&self, id: PackageId) -> (r: Option<&PackageInfo>)
        ensures
            match r {
                Some(info) => exists|i: int|
                    0 <= i < self.base()@.list.len() && #[trigger] self.base()@.list[i] == info@
                        && info.id == id && forall|j: int| 0 <= j < i ==> self.base()@.list[j].id != id,
                None => forall|i: int|
                    0 <= i < self.base()@.list.len() ==> (#[trigger] self.base()@.list[i]).id != id,
            },
    {
        let mut i: usize = 0;
        while i < self.shared.list.len()
            invariant
                i <= self.shared.list@.len(),
                forall|j: int| 0 <= j < i ==> (#[trigger] rows(self.shared.list@)[j]).id != id,
            decreases self.shared.list@.len() - i,
        {
            if self.shared.list[i].id == id {
                proof {
                    assert(rows(self.shared.list@)[i as int] == self.shared.list@[i as int]@);
                }
                return Some(&self.shared.list[i]);
            }
            i += 1;
        }
        None
    }

    /// The number of packages in the list.
    pub fn package_count(&self) -> (n: usize)
        ensures
            n == self.base()@.list.len(),
    {
        self.shared.list.len()
    }

    /// The user's intent for a package.
    pub fn user_intent(&self, id: PackageId) -> (r: UserIntent)
        requires
            self.base().wf(),
        ensures
            r == if self.base()@.intent.contains_key(id) {
                self.base()@.intent[id]
            } else {
                UserIntent::Default
            },
    {
        self.shared.user_intent.get(id)
    }

    /// Whether the user stated an intent for a package.
    pub fn is_user_marked(&self, id: PackageId) -> (r: bool)
        requires
            self.base().wf(),
        ensures
            r == self.base()@.intent.contains_key(id),
    {
        self.shared.user_intent.contains(id)
    }

    /// The filter of the package list.
    pub fn selected_filter(&self) -> (f: FilterCategory)
        ensures
            f == self.base()@.filter,
    {
        self.shared.selected_filter
    }

    /// The number of upgradable packages at the last count.
    pub fn upgradable_count(&self) -> (n: usize)
        ensures
            n == self.base()@.upgradable,
    {
        self.shared.upgradable_count
    }

    /// The search query as typed.
    pub fn search_query(&self) -> (q: &str)
        ensures
            q@ == self.base()@.query,
    {
        self.shared.search.query.as_str()
    }

    /// The number of names found, where a search is active.
    pub fn search_result_count(&self) -> (r: Option<usize>)
        ensures
            match r {
                Some(n) => self.base()@.found is Some && n == self.base()@.found->0.len(),
                None => self.base()@.found is None,
            },
    {
        match &self.shared.search.results {
            Some(names) => Some(names.len()),
            None => None,
        }
    }

    /// Sets the filter and rebuilds the package list.
    pub fn apply_filter(&mut self, filter: FilterCategory)
        requires
            old(self).base().wf(),
        ensures
            final(self).base().wf(),
            final(self).stage() == old(self).stage(),
            final(self).base()@ == (SharedView {
                filter,
                list: final(self).base()@.list,
                ..old(self).base()@
            }),
            list_current(final(self).base()@, Seq::empty()),
    {
        self.shared.selected_filter = filter;
        let none: Vec<PlannedChange> = Vec::new();
        self.shared.rebuild(&none);
    }

    /// Rebuilds the package list from the catalog under the filter and the
    /// search, with the user's intent laid over it, and sorts it. Returns
    /// the column widths that fit the list.
    pub fn rebuild_list(&mut self) -> (widths: ColumnWidths)
        requires
            old(self).base().wf(),
        ensures
            final(self).base().wf(),
            final(self).stage() == old(self).stage(),
            final(self).base()@ == (SharedView { list: final(self).base()@.list, ..old(self).base()@ }),
            list_current(final(self).base()@, Seq::empty()),
            widths == widths_of(
                old(self).base()@.cache,
                projected(
                    old(self).base()@.cache,
                    old(self).base()@.intent,
                    Seq::empty(),
                    old(self).base()@.filter,
                    old(self).base()@.found,
                ),
            ),
    {
        let none: Vec<PlannedChange> = Vec::new();
        self.shared.rebuild(&none)
    }

    /// Sets the sort settings and sorts the package list again.
    pub fn set_sort(&mut self, sort_by: SortBy, ascending: bool)
        requires
            old(self).base().wf(),
        ensures
            final(self).base().wf(),
            final(self).stage() == old(self).stage(),
            final(self).base()@ == (SharedView {
                sort: SortSettings { sort_by, ascending },
                list: final(self).base()@.list,
                ..old(self).base()@
            }),
            rows_sorted(old(self).base()@.list, final(self).base()@.list, sort_by, ascending),
    {
        self.shared.sort_settings.sort_by = sort_by;
        self.shared.sort_settings.ascending = ascending;
        self.shared.sort_list();
    }

    /// Builds the search index if there is none. Returns the time it took
    /// where it was built now.
    pub fn ensure_search_index(&mut self) -> (r: Result<Option<Duration>, SearchError>)
        requires
            old(self).base().wf(),
        ensures
            final(self).base().wf(),
            final(self).stage() == old(self).stage(),
            old(self).base()@.index is Some ==> r is Ok,
            match r {
                Ok(built) => final(self).base()@ == (SharedView {
                    index: if old(self).base()@.index is Some {
                        old(self).base()@.index
                    } else {
                        Some(catalog_rows(old(self).base()@.cache.entries()))
                    },
                    ..old(self).base()@
                }) && (built is Some <==> old(self).base()@.index is None),
                Err(_) => final(self).base()@ == old(self).base()@,
            },
    {
        self.shared.ensure_search_index()
    }

    /// Sets the query and searches for it, building the index first where
    /// there is none. An empty query ends the search. Where building or
    /// searching fails only the query changes.
    pub fn set_search_query(&mut self, query: &str) -> (r: Result<(), SearchError>)
        requires
            old(self).base().wf(),
        ensures
            final(self).base().wf(),
            final(self).stage() == old(self).stage(),
            query@.len() == 0 ==> r is Ok,
            match r {
                Ok(()) => final(self).base()@ == searched(old(self).base()@, query@),
                Err(_) => query@.len() > 0 && final(self).base()@ == (SharedView {
                    query: query@,
                    ..old(self).base()@
                }),
            },
    {
        self.shared.set_search_query(query)
    }

    /// Ends the search.
    pub fn clear_search(&mut self)
        requires
            old(self).base().wf(),
        ensures
            final(self).base().wf(),
            final(self).stage() == old(self).stage(),
            final(self).base()@ == (SharedView {
                query: Seq::empty(),
                found: None,
                ..old(self).base()@
            }),
    {
        self.shared.clear_search()
    }

    /// The dependencies of a package, strongest kind first.
    pub fn get_dependencies(&self, name: &str) -> (deps: Vec<(String, String)>)
        requires
            self.base().wf(),
        ensures
            match self.base()@.cache.record_of(name@) {
                Some(r) => crate::order::dependencies_sorted(r.dependencies@, deps@),
                None => deps@.len() == 0,
            },
    {
        self.shared.cache.get_dependencies(name)
    }

    /// The packages that depend on a package, strongest kind first.
    pub fn get_reverse_dependencies(&self, name: &str) -> (rdeps: Vec<(String, String)>)
        requires
            self.base().wf(),
        ensures
            match self.base()@.cache.record_of(name@) {
                Some(r) => crate::order::dependencies_sorted(r.reverse_dependencies@, rdeps@),
                None => rdeps@.len() == 0,
            },
    {
        self.shared.cache.get_reverse_dependencies(name)
    }

    /// Counts the packages of the catalog again.
    pub fn update_cache_counts(&mut self)
        requires
            old(self).base().wf(),
        ensures
            final(self).base().wf(),
            final(self).stage() == old(self).stage(),
            final(self).base()@ == (SharedView {
                upgradable: count_upgradable(old(self).base()@.cache.entries()) as usize,
                installed: count_installed(old(self).base()@.cache.entries()) as usize,
                total: old(self).base()@.cache.entries().len() as usize,
                ..old(self).base()@
            }),
    {
        self.shared.compute_cache_counts();
    }

    /// The number of installed packages at the last count.
    pub fn installed_count(&self) -> (n: usize)
        ensures
            n == self.base()@.installed,
    {
        self.shared.installed_count
    }

    /// The number of packages at the last count.
    pub fn total_count(&self) -> (n: usize)
        ensures
            n == self.base()@.total,
    {
        self.shared.total_count
    }

    /// The number of packages that the user stated an intent for.
    pub fn mark_count(&self) -> (n: usize)
        requires
            self.base().wf(),
        ensures
            n == self.base()@.intent.len(),
            n == self.base()@.order.len(),
    {
        self.shared.user_intent.len()
    }

    /// The package list.
    pub fn list(&self) -> (list: &Vec<PackageInfo>)
        ensures
            rows(list@) == self.base()@.list,
    {
        &self.shared.list
    }

    /// The sort settings.
    pub fn sort_settings(&self) -> (s: &SortSettings)
        ensures
            *s == self.base()@.sort,
    {
        &self.shared.sort_settings
    }

    /// The catalog.
    pub fn cache(&self) -> (cache: &AptCache)
        ensures
            *cache == self.base()@.cache,
    {
        &self.shared.cache
    }

    /// Whether a search is active.
    pub fn has_search_results(&self) -> (r: bool)
        ensures
            r == self.base()@.found is Some,
    {
        self.shared.search.results.is_some()
    }

    /// Takes the last character off the query. The results stay as they are
    /// until the query is searched for.
    pub fn search_query_pop(&mut self)
        requires
            old(self).base().wf(),
        ensures
            final(self).base().wf(),
            final(self).stage() == old(self).stage(),
            final(self).base()@ == (SharedView {
                query: if old(self).base()@.query.len() > 0 {
                    old(self).base()@.query.drop_last()
                } else {
                    old(self).base()@.query
                },
                ..old(self).base()@
            }),
    {
        let chars = chars_of(self.shared.search.query.as_str());
        if chars.len() > 0 {
            self.shared.search.query = text_of(&chars, 0, chars.len() - 1);
            proof {
                assert(chars@.subrange(0, chars@.len() - 1) =~= chars@.drop_last());
            }
        }
    }

    /// Adds a character to the query. The results stay as they are until
    /// the query is searched for.
    pub fn search_query_push(&mut self, c: char)
        requires
            old(self).base().wf(),
        ensures
            final(self).base().wf(),
            final(self).stage() == old(self).stage(),
            final(self).base()@ == (SharedView {
                query: old(self).base()@.query.push(c),
                ..old(self).base()@
            }),
    {
        push_char(&mut self.shared.search.query, c);
    }

    /// The status shown for the package called `name`, with the user's
    /// intent and `changes` laid over its own state. A package that is not
    /// in the catalog counts as not installed.
    pub fn package_status(&self, name: &str, changes: &Vec<PlannedChange>) -> (status: PackageStatus)
        requires
            self.base().wf(),
        ensures
            status == status_of(self.base()@.cache, self.base()@.intent, changes@, name@),
    {
        match self.shared.cache.extract_package_info_by_name(name) {
            Some(info) => display_status(info.status, info.id, &self.shared.user_intent, changes),
            None => PackageStatus::NotInstalled,
        }
    }

    /// The user requests that account for a package: those whose packages
    /// depend on it, directly or through other packages.
    pub fn culprits_of(&self, id: PackageId) -> (r: Vec<PackageId>)
        requires
            self.base().wf(),
        ensures
            r@ == culprits(self.base()@.cache, self.base()@.order, id),
            forall|i: int| 0 <= i < r@.len() ==> self.base()@.intent.contains_key(#[trigger] r@[i]),
    {
        find_user_intent_depending_on(&self.shared.cache, &self.shared.user_intent, id)
    }

    /// Takes a fresh reading of the catalog, without the marks that its
    /// records may carry. The intent, the search and its index are dropped,
    /// and the packages are counted again; every handle keeps its name, and
    /// names seen for the first time get handles.
    pub fn refresh(self, records: Vec<PackageRecord>) -> (m: PackageManager<Clean>)
        requires
            self.base().wf(),
            self.base()@.cache.names().len() + records@.len() <= u32::MAX,
        ensures
            m.base().wf(),
            m.base()@ == (SharedView {
                cache: m.base()@.cache,
                intent: Map::empty(),
                order: Seq::empty(),
                query: Seq::empty(),
                found: None,
                index: None,
                upgradable: count_upgradable(records@) as usize,
                installed: count_installed(records@) as usize,
                total: records@.len() as usize,
                ..self.base()@
            }),
            reread(self.base()@.cache, m.base()@.cache, records@),
    {
        let mut shared = self.shared;
        shared.reload(records);
        PackageManager { shared, state: Clean }
    }
}

/// The rows that a search reads: those of the index, and where there is
/// none those of the catalog, from which the index is then built.
pub open spec fn search_rows(shared: SharedView) -> Multiset<(Seq<char>, Seq<char>)> {
    match shared.index {
        Some(index_rows) => index_rows,
        None => catalog_rows(shared.cache.entries()),
    }
}

/// The state after a search for `query`: an empty query ends the search and
/// leaves the index as it is; any other query has the index built and the
/// names that match it found.
pub open spec fn searched(shared: SharedView, query: Seq<char>) -> SharedView {
    if query.len() == 0 {
        SharedView { query, found: None, ..shared }
    } else {
        SharedView {
            query,
            found: Some(fts_matches(search_rows(shared), fts_pattern(query))),
            index: Some(search_rows(shared)),
            ..shared
        }
    }
}

/// The status shown for the package called `name`: that of the row of its
/// first record, and not installed where the catalog has no such record.
pub open spec fn status_of(
    cache: AptCache,
    intent: Map<PackageId, UserIntent>,
    changes: Seq<PlannedChange>,
    name: Seq<char>,
) -> PackageStatus {
    match cache.record_of(name) {
        Some(r) => {
            let info = base_info(r, cache.listed_id(name));
            shown_status(info.status, info.id, intent, changes)
        },
        None => PackageStatus::NotInstalled,
    }
}

/// `after` is `before` with a fresh reading of the catalog, without the
/// marks that its records carried: every handle keeps its name, and every
/// record has a handle.
pub open spec fn reread(before: AptCache, after: AptCache, records: Seq<PackageRecord>) -> bool {
    &&& after.wf()
    &&& after.entries() == all_unmarked(records)
    &&& after.arch() == before.arch()
    &&& after.names() == register_all(before.names(), fullnames(records))
    &&& before.names().is_prefix_of(after.names())
}

// ============================================================================
// Planned: list and preview
// ============================================================================

/// The name under which a change is shown: the shown name of its package,
/// or a placeholder with the handle where the handle has no name.
pub open spec fn shown_or_unknown(cache: AptCache, id: PackageId) -> Seq<char> {
    if cache.valid(id) {
        cache.shown_name(cache.names()[id.0 as int])
    } else {
        "(unknown:"@ + decimal_text(id.0 as nat) + ")"@
    }
}

/// What a preview has gathered from changes.
pub ghost struct PreviewParts {
    pub installs: Seq<Seq<char>>,
    pub upgrades: Seq<Seq<char>>,
    pub removes: Seq<Seq<char>>,
    pub download: int,
    pub is_upgrade: bool,
}

/// What the preview of marking `marked` gathers from `changes`: the marked
/// package counts for the download and says whether it is an upgrade;
/// changes planned before are left out; the others are listed by action and
/// count for the download.
pub open spec fn preview_parts(
    cache: AptCache,
    changes: Seq<PlannedChange>,
    marked: PackageId,
    previously: Seq<PackageId>,
) -> PreviewParts
    decreases changes.len(),
{
    if changes.len() == 0 {
        PreviewParts {
            installs: Seq::empty(),
            upgrades: Seq::empty(),
            removes: Seq::empty(),
            download: 0,
            is_upgrade: false,
        }
    } else {
        let acc = preview_parts(cache, changes.drop_last(), marked, previously);
        let c = changes.last();
        if c.package == marked {
            PreviewParts {
                download: acc.download + c.download_size,
                is_upgrade: c.action == ChangeAction::Upgrade,
                ..acc
            }
        } else if previously.contains(c.package) {
            acc
        } else {
            let name = shown_or_unknown(cache, c.package);
            let download = acc.download + c.download_size;
            match c.action {
                ChangeAction::Install => PreviewParts {
                    installs: acc.installs.push(name),
                    download,
                    ..acc
                },
                ChangeAction::Upgrade | ChangeAction::Downgrade => PreviewParts {
                    upgrades: acc.upgrades.push(name),
                    download,
                    ..acc
                },
                ChangeAction::Remove => PreviewParts {
                    removes: acc.removes.push(name),
                    download,
                    ..acc
                },
            }
        }
    }
}

/// The preview of marking `marked`: none where the handle has no name.
pub open spec fn preview_of(
    cache: AptCache,
    changes: Seq<PlannedChange>,
    marked: PackageId,
    previously: Seq<PackageId>,
) -> Option<MarkPreviewView> {
    if cache.valid(marked) {
        let parts = preview_parts(cache, changes, marked, previously);
        Some(
            MarkPreviewView {
                package_name: cache.shown_name(cache.names()[marked.0 as int]),
                is_upgrade: parts.is_upgrade,
                is_marking: true,
                additional_installs: parts.installs,
                additional_upgrades: parts.upgrades,
                additional_removes: parts.removes,
                download_size: parts.download as u64,
            },
        )
    } else {
        None
    }
}

/// The names of changes by action and by who asked for them: the user's
/// changes apart from the solver's, downgrades among the upgrades.
pub open spec fn pending_lists(cache: AptCache, changes: Seq<PlannedChange>) -> PendingView
    decreases changes.len(),
{
    if changes.len() == 0 {
        PendingView {
            to_install: Seq::empty(),
            to_upgrade: Seq::empty(),
            to_remove: Seq::empty(),
            auto_install: Seq::empty(),
            auto_upgrade: Seq::empty(),
            auto_remove: Seq::empty(),
            download_size: 0,
            install_size_change: 0,
        }
    } else {
        let p = pending_lists(cache, changes.drop_last());
        let c = changes.last();
        let name = shown_or_unknown(cache, c.package);
        let user = c.reason == ChangeReason::UserRequested;
        match c.action {
            ChangeAction::Install => if user {
                PendingView { to_install: p.to_install.push(name), ..p }
            } else {
                PendingView { auto_install: p.auto_install.push(name), ..p }
            },
            ChangeAction::Upgrade | ChangeAction::Downgrade => if user {
                PendingView { to_upgrade: p.to_upgrade.push(name), ..p }
            } else {
                PendingView { auto_upgrade: p.auto_upgrade.push(name), ..p }
            },
            ChangeAction::Remove => if user {
                PendingView { to_remove: p.to_remove.push(name), ..p }
            } else {
                PendingView { auto_remove: p.auto_remove.push(name), ..p }
            },
        }
    }
}

/// The changes of a plan for the final confirmation: the names by action
/// and by who asked, and the totals of the plan.
pub open spec fn pending_of(cache: AptCache, plan: PlannedView) -> PendingView {
    PendingView {
        download_size: plan.download_size,
        install_size_change: plan.install_size_change,
        ..pending_lists(cache, plan.changes)
    }
}

/// A preview never counts more download than the changes hold.
proof fn lemma_preview_download(
    cache: AptCache,
    changes: Seq<PlannedChange>,
    marked: PackageId,
    previously: Seq<PackageId>,
)
    ensures
        0 <= preview_parts(cache, changes, marked, previously).download <= total_download(changes),
    decreases changes.len(),
{
    if changes.len() > 0 {
        lemma_preview_download(cache, changes.drop_last(), marked, previously);
    }
}

/// The download of the first changes is no more than that of all.
proof fn lemma_download_grows(changes: Seq<PlannedChange>, i: int)
    requires
        0 <= i <= changes.len(),
    ensures
        0 <= total_download(changes.take(i)) <= total_download(changes),
    decreases changes.len() - i,
{
    if i < changes.len() {
        lemma_download_grows(changes, i + 1);
        lemma_download_least(changes.take(i));
        assert(changes.take(i + 1).drop_last() =~= changes.take(i));
    } else {
        assert(changes.take(i) =~= changes);
        lemma_download_least(changes);
    }
}

/// No download is negative.
proof fn lemma_download_least(changes: Seq<PlannedChange>)
    ensures
        0 <= total_download(changes),
    decreases changes.len(),
{
    if changes.len() > 0 {
        lemma_download_least(changes.drop_last());
    }
}

/// Whether `id` is among `ids`.
pub fn id_among(ids: &Vec<PackageId>, id: PackageId) -> (r: bool)
    ensures
        r == ids@.contains(id),
{
    let mut i: usize = 0;
    while i < ids.len()
        invariant
            i <= ids@.len(),
            forall|j: int| 0 <= j < i ==> ids@[j] != id,
        decreases ids@.len() - i,
    {
        if ids[i] == id {
            return true;
        }
        i += 1;
    }
    false
}

impl PackageManager<Planned> {
    /// Sets the filter and rebuilds the package list, with intent and plan
    /// laid over it.
    pub fn apply_filter_planned(&mut self, filter: FilterCategory)
        requires
            old(self).base().wf(),
        ensures
            final(self).base().wf(),
            final(self).stage() == old(self).stage(),
            final(self).planned() == old(self).planned(),
            final(self).base()@ == (SharedView {
                filter,
                list: final(self).base()@.list,
                ..old(self).base()@
            }),
            list_current(final(self).base()@, old(self).planned()@.changes),
    {
        self.shared.selected_filter = filter;
        self.shared.rebuild(&self.state.changes);
    }

    /// Rebuilds the package list, with intent and plan laid over it, and
    /// sorts it. Returns the column widths that fit the list.
    pub fn rebuild_list_planned(&mut self) -> (widths: ColumnWidths)
        requires
            old(self).base().wf(),
        ensures
            final(self).base().wf(),
            final(self).stage() == old(self).stage(),
            final(self).planned() == old(self).planned(),
            final(self).base()@ == (SharedView { list: final(self).base()@.list, ..old(self).base()@ }),
            list_current(final(self).base()@, old(self).planned()@.changes),
            widths == widths_of(
                old(self).base()@.cache,
                projected(
                    old(self).base()@.cache,
                    old(self).base()@.intent,
                    old(self).planned()@.changes,
                    old(self).base()@.filter,
                    old(self).base()@.found,
                ),
            ),
    {
        self.shared.rebuild(&self.state.changes)
    }

    /// The name under which a change is shown.
    fn shown_name_of(&self, id: PackageId) -> (name: String)
        requires
            self.base().wf(),
        ensures
            name@ == shown_or_unknown(self.base()@.cache, id),
    {
        let cache = &self.shared.cache;
        match cache.fullname_of(id) {
            Some(fullname) => String::from_str(cache.display_name(fullname)),
            None => {
                let mut name = String::from_str("(unknown:");
                push_decimal(&mut name, id.index() as u64);
                name.append(")");
                name
            },
        }
    }

    /// The changes of the plan for the final confirmation: the names by
    /// action and by who asked, and the totals of the plan.
    pub fn pending_changes(&self) -> (pending: PendingChanges)
        requires
            self.base().wf(),
        ensures
            pending@ == pending_of(self.base()@.cache, self.planned()@),
    {
        let changes = &self.state.changes;
        let mut pending = PendingChanges::default();
        let mut i: usize = 0;
        proof {
            assert(changes@.take(0) =~= Seq::<PlannedChange>::empty());
            assert(texts(pending.to_install@) =~= Seq::<Seq<char>>::empty());
            assert(texts(pending.to_upgrade@) =~= Seq::<Seq<char>>::empty());
            assert(texts(pending.to_remove@) =~= Seq::<Seq<char>>::empty());
            assert(texts(pending.auto_install@) =~= Seq::<Seq<char>>::empty());
            assert(texts(pending.auto_upgrade@) =~= Seq::<Seq<char>>::empty());
            assert(texts(pending.auto_remove@) =~= Seq::<Seq<char>>::empty());
        }
        while i < changes.len()
            invariant
                i <= changes@.len(),
                self.base().wf(),
                changes@ == self.planned()@.changes,
                pending@ == pending_lists(self.base()@.cache, changes@.take(i as int)),
            decreases changes@.len() - i,
        {
            let change = changes[i];
            let ghost before = pending@;
            proof {
                assert(changes@.take(i + 1).drop_last() =~= changes@.take(i as int));
                assert(changes@.take(i + 1).last() == change);
            }
            let name = self.shown_name_of(change.package);
            let ghost shown = name@;
            let user = change.reason == ChangeReason::UserRequested;
            match change.action {
                ChangeAction::Install => {
                    if user {
                        pending.to_install.push(name);
                        proof {
                            assert(texts(pending.to_install@) =~= before.to_install.push(shown));
                        }
                    } else {
                        pending.auto_install.push(name);
                        proof {
                            assert(texts(pending.auto_install@) =~= before.auto_install.push(shown));
                        }
                    }
                },
                ChangeAction::Upgrade | ChangeAction::Downgrade => {
                    if user {
                        pending.to_upgrade.push(name);
                        proof {
                            assert(texts(pending.to_upgrade@) =~= before.to_upgrade.push(shown));
                        }
                    } else {
                        pending.auto_upgrade.push(name);
                        proof {
                            assert(texts(pending.auto_upgrade@) =~= before.auto_upgrade.push(shown));
                        }
                    }
                },
                ChangeAction::Remove => {
                    if user {
                        pending.to_remove.push(name);
                        proof {
                            assert(texts(pending.to_remove@) =~= before.to_remove.push(shown));
                        }
                    } else {
                        pending.auto_remove.push(name);
                        proof {
                            assert(texts(pending.auto_remove@) =~= before.auto_remove.push(shown));
                        }
                    }
                },
            }
            i += 1;
        }
        proof {
            assert(changes@.take(i as int) =~= changes@);
        }
        pending.download_size = self.state.download_size;
        pending.install_size_change = self.state.install_size_change;
        pending
    }

    /// The preview of marking `marked_pkg_id`, for the confirmation dialog:
    /// what the plan changes besides the marked package and besides what was
    /// planned before the mark. None where the handle has no name.
    pub fn build_mark_preview(&self, marked_pkg_id: PackageId, previously_planned: &Vec<PackageId>) -> (r:
        Option<MarkPreview>)
        requires
            self.base().wf(),
            self.consistent(),
        ensures
            match r {
                Some(preview) => Some(preview@) == preview_of(
                    self.base()@.cache,
                    self.planned()@.changes,
                    marked_pkg_id,
                    previously_planned@,
                ),
                None => preview_of(
                    self.base()@.cache,
                    self.planned()@.changes,
                    marked_pkg_id,
                    previously_planned@,
                ) is None,
            },
    {
        let cache = &self.shared.cache;
        let changes = &self.state.changes;
        let package_name = match cache.fullname_of(marked_pkg_id) {
            Some(name) => String::from_str(cache.display_name(name)),
            None => {
                return None;
            },
        };
        let mut installs: Vec<String> = Vec::new();
        let mut upgrades: Vec<String> = Vec::new();
        let mut removes: Vec<String> = Vec::new();
        let mut download_size: u64 = 0;
        let mut is_upgrade = false;
        let mut i: usize = 0;
        proof {
            assert(changes@.take(0) =~= Seq::<PlannedChange>::empty());
            assert(texts(installs@) =~= Seq::<Seq<char>>::empty());
            assert(texts(upgrades@) =~= Seq::<Seq<char>>::empty());
            assert(texts(removes@) =~= Seq::<Seq<char>>::empty());
        }
        while i < changes.len()
            invariant
                i <= changes@.len(),
                cache.wf(),
                total_download(changes@) <= u64::MAX,
                preview_parts(*cache, changes@.take(i as int), marked_pkg_id, previously_planned@) == (
                PreviewParts {
                    installs: texts(installs@),
                    upgrades: texts(upgrades@),
                    removes: texts(removes@),
                    download: download_size as int,
                    is_upgrade,
                }),
            decreases changes@.len() - i,
        {
            let change = changes[i];
            proof {
                assert(changes@.take(i + 1).drop_last() =~= changes@.take(i as int));
                assert(changes@.take(i + 1).last() == change);
                lemma_preview_download(
                    *cache,
                    changes@.take(i + 1),
                    marked_pkg_id,
                    previously_planned@,
                );
                lemma_download_grows(changes@, i + 1);
            }
            if change.package == marked_pkg_id {
                download_size = download_size + change.download_size;
                is_upgrade = change.action == ChangeAction::Upgrade;
            } else if !id_among(previously_planned, change.package) {
                download_size = download_size + change.download_size;
                let name = match cache.fullname_of(change.package) {
                    Some(fullname) => String::from_str(cache.display_name(fullname)),
                    None => {
                        let mut name = String::from_str("(unknown:");
                        push_decimal(&mut name, change.package.index() as u64);
                        name.append(")");
                        name
                    },
                };
                let ghost shown = name@;
                match change.action {
                    ChangeAction::Install => {
                        let ghost before = texts(installs@);
                        installs.push(name);
                        proof {
                            assert(texts(installs@) =~= before.push(shown));
                        }
                    },
                    ChangeAction::Upgrade | ChangeAction::Downgrade => {
                        let ghost before = texts(upgrades@);
                        upgrades.push(name);
                        proof {
                            assert(texts(upgrades@) =~= before.push(shown));
                        }
                    },
                    ChangeAction::Remove => {
                        let ghost before = texts(removes@);
                        removes.push(name);
                        proof {
                            assert(texts(removes@) =~= before.push(shown));
                        }
                    },
                }
            }
            i += 1;
        }
        proof {
            assert(changes@.take(i as int) =~= changes@);
        }
        Some(
            MarkPreview {
                package_name,
                is_upgrade,
                is_marking: true,
                additional_installs: installs,
                additional_upgrades: upgrades,
                additional_removes: removes,
                download_size,
            },
        )
    }
}

} // verus!
