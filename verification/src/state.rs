//! The lifecycle as one value: whichever state the manager is in, for
//! callers that hold it across user gestures. Every gesture is accepted in
//! every state.

use crate::apt::{all_unmarked, fullnames, lemma_no_marks, no_marks, AptCache, PackageRecord};
use crate::registry::register_all;
use crate::manager::{
    admissible, cleared, count_installed, count_upgradable, list_current, marked_order, replanned,
    reread, unmarked_order, PackageManager, SharedView, SortSettings,
};
use crate::manager::{pending_lists, pending_of, preview_of, searched, status_of};
use crate::order::{dependencies_sorted, rows_sorted};
use crate::planner::{plan_of, requests_for, requests_view, MarkRequest, PlannedView, SolverOutcome};
use crate::projection::{projected, widths_of};
use crate::search::{catalog_rows, SearchError};
use crate::types::{
    rows, texts, Clean, ColumnWidths, Dirty, FilterCategory, MarkPreview, PackageId, PackageInfo,
    PackageStatus, PendingChanges, Planned, PlannedChange, SortBy, UserIntent,
};
use std::time::Duration;
use vstd::pervasive::unreached;
use vstd::prelude::*;

verus! {

/// The manager in its current lifecycle state.
pub enum ManagerState {
    /// Nothing is marked.
    Clean(PackageManager<Clean>),
    /// The user has marked packages; no plan matches the marks yet.
    Dirty(PackageManager<Dirty>),
    /// The solver has run on the user's marks; the changeset is at hand.
    Planned(PackageManager<Planned>),
    /// Stands in while one state is replaced by the next.
    Transitioning,
}

/// The lifecycle states.
#[derive(Debug, Clone, Copy, PartialEq, Eq, Structural)]
pub enum Phase {
    Clean,
    Dirty,
    Planned,
}

impl Default for ManagerState {
    fn default() -> (s: Self)
        ensures
            s is Transitioning,
    {
        ManagerState::Transitioning
    }
}

/// What the driver of the transaction has to do next.
#[derive(Debug)]
pub enum CommitStep {
    /// Nothing is marked: there is no transaction.
    Nothing,
    /// The marks have no plan yet: run the solver on these requests and
    /// hand its outcome to `compute_plan`.
    Plan(Vec<MarkRequest>),
    /// The plan stands: run the transaction and hand its end to `commit`.
    Run,
}

impl ManagerState {
    /// The state shared by every lifecycle state, as plain values.
    pub open spec fn shared(&self) -> SharedView {
        match self {
            ManagerState::Clean(m) => m.base()@,
            ManagerState::Dirty(m) => m.base()@,
            ManagerState::Planned(m) => m.base()@,
            ManagerState::Transitioning => arbitrary(),
        }
    }

    /// The lifecycle state.
    pub open spec fn phase(&self) -> Phase {
        match self {
            ManagerState::Clean(_) => Phase::Clean,
            ManagerState::Dirty(_) => Phase::Dirty,
            ManagerState::Planned(_) => Phase::Planned,
            ManagerState::Transitioning => arbitrary(),
        }
    }

    /// The plan, where there is one.
    pub open spec fn plan(&self) -> Option<PlannedView> {
        match self {
            ManagerState::Planned(m) => Some(m.planned()@),
            _ => None,
        }
    }

    /// The changeset: empty where there is no plan.
    pub open spec fn changes(&self) -> Seq<PlannedChange> {
        match self {
            ManagerState::Planned(m) => m.planned()@.changes,
            _ => Seq::empty(),
        }
    }

    /// The lifecycle invariant: the state is clean exactly when the user
    /// has marked nothing, a clean catalog carries no mark of the solver,
    /// and a plan agrees with the intent it was made for. `Transitioning`
    /// is never observed.
    pub open spec fn wf(&self) -> bool {
        match self {
            ManagerState::Clean(m) => m.base().wf() && m.base()@.intent == Map::<
                PackageId,
                UserIntent,
            >::empty() && no_marks(m.base()@.cache.entries()),
            ManagerState::Dirty(m) => m.base().wf() && m.base()@.intent != Map::<
                PackageId,
                UserIntent,
            >::empty(),
            ManagerState::Planned(m) => m.base().wf() && m.consistent() && m.base()@.intent
                != Map::<PackageId, UserIntent>::empty(),
            ManagerState::Transitioning => false,
        }
    }

    /// A manager over a catalog, with nothing marked and the list built.
    /// Marks that the records carry are taken off.
    pub fn new(records: Vec<PackageRecord>, native_arch: &str) -> (s: Self)
        requires
            records@.len() <= u32::MAX,
        ensures
            s.wf(),
            s is Clean,
            s.shared() == (SharedView {
                cache: s.shared().cache,
                intent: Map::empty(),
                order: Seq::empty(),
                list: s.shared().list,
                filter: FilterCategory::Upgradable,
                sort: SortSettings { sort_by: SortBy::Name, ascending: true },
                query: Seq::empty(),
                found: None,
                index: None,
                upgradable: count_upgradable(records@) as usize,
                installed: count_installed(records@) as usize,
                total: records@.len() as usize,
            }),
            s.shared().cache.wf(),
            s.shared().cache.entries() == all_unmarked(records@),
            s.shared().cache.arch() == native_arch@,
            s.shared().cache.names() == register_all(Seq::empty(), fullnames(records@)),
            list_current(s.shared(), Seq::empty()),
    {
        ManagerState::Clean(PackageManager::new(records, native_arch))
    }

    /// Whether nothing is marked.
    pub fn is_clean(&self) -> (r: bool)
        ensures
            r == self is Clean,
    {
        match self {
            ManagerState::Clean(_) => true,
            _ => false,
        }
    }

    /// Whether marks await a plan.
    pub fn is_dirty(&self) -> (r: bool)
        ensures
            r == self is Dirty,
    {
        match self {
            ManagerState::Dirty(_) => true,
            _ => false,
        }
    }

    /// Whether the plan stands.
    pub fn is_planned(&self) -> (r: bool)
        ensures
            r == self is Planned,
    {
        match self {
            ManagerState::Planned(_) => true,
            _ => false,
        }
    }

    /// The planned changes, where the plan stands.
    pub fn planned_changes(&self) -> (r: Option<&Vec<PlannedChange>>)
        ensures
            match r {
                Some(changes) => self is Planned && changes@ == self.changes(),
                None => !(self is Planned),
            },
    {
        match self {
            ManagerState::Planned(m) => Some(m.changes()),
            _ => None,
        }
    }

    /// The solver's messages, where the plan stands.
    pub fn plan_errors(&self) -> (r: Option<&Vec<String>>)
        ensures
            match r {
                Some(errors) => self.plan() is Some && texts(errors@) == self.plan()->0.errors,
                None => self.plan() is None,
            },
    {
        match self {
            ManagerState::Planned(m) => Some(m.errors()),
            _ => None,
        }
    }

    /// Whether the user has marked anything.
    pub fn has_marks(&self) -> (r: bool)
        requires
            self.wf(),
        ensures
            r == !(self is Clean),
            r == (self.shared().intent != Map::<PackageId, UserIntent>::empty()),
    {
        match self {
            ManagerState::Clean(_) => false,
            _ => true,
        }
    }

    /// The package list.
    pub fn list(&self) -> (list: &Vec<PackageInfo>)
        requires
            self.wf(),
        ensures
            rows(list@) == self.shared().list,
    {
        match self {
            ManagerState::Clean(m) => m.list(),
            ManagerState::Dirty(m) => m.list(),
            ManagerState::Planned(m) => m.list(),
            ManagerState::Transitioning => unreached(),
        }
    }

    /// The package at a position of the list.
    pub fn get_package(&self, index: usize) -> (r: Option<&PackageInfo>)
        requires
            self.wf(),
        ensures
            match r {
                Some(info) => index < self.shared().list.len() && info@ == self.shared().list[index as int],
                None => index >= self.shared().list.len(),
            },
    {
        match self {
            ManagerState::Clean(m) => m.get_package(index),
            ManagerState::Dirty(m) => m.get_package(index),
            ManagerState::Planned(m) => m.get_package(index),
            ManagerState::Transitioning => None,
        }
    }

    /// The number of packages in the list.
    pub fn package_count(&self) -> (n: usize)
        requires
            self.wf(),
        ensures
            n == self.shared().list.len(),
    {
        match self {
            ManagerState::Clean(m) => m.package_count(),
            ManagerState::Dirty(m) => m.package_count(),
            ManagerState::Planned(m) => m.package_count(),
            ManagerState::Transitioning => 0,
        }
    }

    /// The user's intent for a package.
    pub fn user_intent(&self, id: PackageId) -> (r: UserIntent)
        requires
            self.wf(),
        ensures
            r == if self.shared().intent.contains_key(id) {
                self.shared().intent[id]
            } else {
                UserIntent::Default
            },
    {
        match self {
            ManagerState::Clean(m) => m.user_intent(id),
            ManagerState::Dirty(m) => m.user_intent(id),
            ManagerState::Planned(m) => m.user_intent(id),
            ManagerState::Transitioning => UserIntent::Default,
        }
    }

    /// Whether the user stated an intent for a package.
    pub fn is_user_marked(&self, id: PackageId) -> (r: bool)
        requires
            self.wf(),
        ensures
            r == self.shared().intent.contains_key(id),
    {
        match self {
            ManagerState::Clean(m) => m.is_user_marked(id),
            ManagerState::Dirty(m) => m.is_user_marked(id),
            ManagerState::Planned(m) => m.is_user_marked(id),
            ManagerState::Transitioning => false,
        }
    }

    /// The filter of the package list.
    pub fn selected_filter(&self) -> (f: FilterCategory)
        requires
            self.wf(),
        ensures
            f == self.shared().filter,
    {
        match self {
            ManagerState::Clean(m) => m.selected_filter(),
            ManagerState::Dirty(m) => m.selected_filter(),
            ManagerState::Planned(m) => m.selected_filter(),
            ManagerState::Transitioning => FilterCategory::All,
        }
    }

    /// The number of upgradable packages at the last count.
    pub fn upgradable_count(&self) -> (n: usize)
        requires
            self.wf(),
        ensures
            n == self.shared().upgradable,
    {
        match self {
            ManagerState::Clean(m) => m.upgradable_count(),
            ManagerState::Dirty(m) => m.upgradable_count(),
            ManagerState::Planned(m) => m.upgradable_count(),
            ManagerState::Transitioning => 0,
        }
    }

    /// The search query as typed.
    pub fn search_query(&self) -> (q: &str)
        requires
            self.wf(),
        ensures
            q@ == self.shared().query,
    {
        match self {
            ManagerState::Clean(m) => m.search_query(),
            ManagerState::Dirty(m) => m.search_query(),
            ManagerState::Planned(m) => m.search_query(),
            ManagerState::Transitioning => unreached(),
        }
    }

    /// The number of names found, where a search is active.
    pub fn search_result_count(&self) -> (r: Option<usize>)
        requires
            self.wf(),
        ensures
            match r {
                Some(n) => self.shared().found is Some && n == self.shared().found->0.len(),
                None => self.shared().found is None,
            },
    {
        match self {
            ManagerState::Clean(m) => m.search_result_count(),
            ManagerState::Dirty(m) => m.search_result_count(),
            ManagerState::Planned(m) => m.search_result_count(),
            ManagerState::Transitioning => None,
        }
    }

    /// Whether a search is active.
    pub fn has_search_results(&self) -> (r: bool)
        requires
            self.wf(),
        ensures
            r == self.shared().found is Some,
    {
        match self {
            ManagerState::Clean(m) => m.has_search_results(),
            ManagerState::Dirty(m) => m.has_search_results(),
            ManagerState::Planned(m) => m.has_search_results(),
            ManagerState::Transitioning => false,
        }
    }

    /// The dependencies of a package, strongest kind first.
    pub fn get_dependencies(&self, name: &str) -> (deps: Vec<(String, String)>)
        requires
            self.wf(),
        ensures
            match self.shared().cache.record_of(name@) {
                Some(r) => dependencies_sorted(r.dependencies@, deps@),
                None => deps@.len() == 0,
            },
    {
        match self {
            ManagerState::Clean(m) => m.get_dependencies(name),
            ManagerState::Dirty(m) => m.get_dependencies(name),
            ManagerState::Planned(m) => m.get_dependencies(name),
            ManagerState::Transitioning => Vec::new(),
        }
    }

    /// The packages that depend on a package, strongest kind first.
    pub fn get_reverse_dependencies(&self, name: &str) -> (rdeps: Vec<(String, String)>)
        requires
            self.wf(),
        ensures
            match self.shared().cache.record_of(name@) {
                Some(r) => dependencies_sorted(r.reverse_dependencies@, rdeps@),
                None => rdeps@.len() == 0,
            },
    {
        match self {
            ManagerState::Clean(m) => m.get_reverse_dependencies(name),
            ManagerState::Dirty(m) => m.get_reverse_dependencies(name),
            ManagerState::Planned(m) => m.get_reverse_dependencies(name),
            ManagerState::Transitioning => Vec::new(),
        }
    }

    /// The sort settings.
    pub fn sort_settings(&self) -> (s: &SortSettings)
        requires
            self.wf(),
        ensures
            *s == self.shared().sort,
    {
        match self {
            ManagerState::Clean(m) => m.sort_settings(),
            ManagerState::Dirty(m) => m.sort_settings(),
            ManagerState::Planned(m) => m.sort_settings(),
            ManagerState::Transitioning => unreached(),
        }
    }

    /// The catalog.
    pub fn cache(&self) -> (cache: &AptCache)
        requires
            self.wf(),
        ensures
            *cache == self.shared().cache,
            cache.wf(),
    {
        match self {
            ManagerState::Clean(m) => {
                proof {
                    m.base().lemma_wf();
                }
                m.cache()
            },
            ManagerState::Dirty(m) => {
                proof {
                    m.base().lemma_wf();
                }
                m.cache()
            },
            ManagerState::Planned(m) => {
                proof {
                    m.base().lemma_wf();
                }
                m.cache()
            },
            ManagerState::Transitioning => unreached(),
        }
    }

    /// How many packages a filter category holds, by the last count. Marked
    /// changes count the packages that the user marked.
    pub fn filter_count(&self, filter: FilterCategory) -> (n: usize)
        requires
            self.wf(),
        ensures
            n == match filter {
                FilterCategory::Upgradable => self.shared().upgradable as int,
                FilterCategory::MarkedChanges => self.shared().intent.len() as int,
                FilterCategory::Installed => self.shared().installed as int,
                FilterCategory::NotInstalled => self.shared().total - self.shared().installed,
                FilterCategory::All => self.shared().total as int,
            },
    {
        let (upgradable, installed, total, user_marks) = match self {
            ManagerState::Clean(m) => {
                proof {
                    m.base().lemma_wf();
                }
                (m.upgradable_count(), m.installed_count(), m.total_count(), m.mark_count())
            },
            ManagerState::Dirty(m) => {
                proof {
                    m.base().lemma_wf();
                }
                (m.upgradable_count(), m.installed_count(), m.total_count(), m.mark_count())
            },
            ManagerState::Planned(m) => {
                proof {
                    m.base().lemma_wf();
                }
                (m.upgradable_count(), m.installed_count(), m.total_count(), m.mark_count())
            },
            ManagerState::Transitioning => (0, 0, 0, 0),
        };
        match filter {
            FilterCategory::Upgradable => upgradable,
            FilterCategory::MarkedChanges => user_marks,
            FilterCategory::Installed => installed,
            FilterCategory::NotInstalled => total - installed,
            FilterCategory::All => total,
        }
    }

    // ========================================================================
    // List and search
    // ========================================================================

    /// Sets the filter and rebuilds the package list.
    pub fn apply_filter(&mut self, filter: FilterCategory)
        requires
            old(self).wf(),
        ensures
            final(self).wf(),
            final(self).phase() == old(self).phase(),
            final(self).plan() == old(self).plan(),
            final(self).shared() == (SharedView {
                filter,
                list: final(self).shared().list,
                ..old(self).shared()
            }),
            list_current(final(self).shared(), old(self).changes()),
    {
        match self {
            ManagerState::Clean(m) => m.apply_filter(filter),
            ManagerState::Dirty(m) => m.apply_filter(filter),
            ManagerState::Planned(m) => m.apply_filter_planned(filter),
            ManagerState::Transitioning => {},
        }
    }

    /// Rebuilds the package list: the packages that the filter and the
    /// search admit, each with the status that intent and plan give it, in
    /// the order of the sort settings. Returns the column widths that fit
    /// the list.
    pub fn rebuild_list(&mut self) -> (widths: ColumnWidths)
        requires
            old(self).wf(),
        ensures
            final(self).wf(),
            final(self).phase() == old(self).phase(),
            final(self).plan() == old(self).plan(),
            final(self).shared() == (SharedView {
                list: final(self).shared().list,
                ..old(self).shared()
            }),
            list_current(final(self).shared(), old(self).changes()),
            widths == widths_of(
                old(self).shared().cache,
                projected(
                    old(self).shared().cache,
                    old(self).shared().intent,
                    old(self).changes(),
                    old(self).shared().filter,
                    old(self).shared().found,
                ),
            ),
    {
        match self {
            ManagerState::Clean(m) => m.rebuild_list(),
            ManagerState::Dirty(m) => m.rebuild_list(),
            ManagerState::Planned(m) => m.rebuild_list_planned(),
            ManagerState::Transitioning => ColumnWidths::new(),
        }
    }

    /// Sets the sort settings and sorts the package list again.
    pub fn set_sort(&mut self, sort_by: SortBy, ascending: bool)
        requires
            old(self).wf(),
        ensures
            final(self).wf(),
            final(self).phase() == old(self).phase(),
            final(self).plan() == old(self).plan(),
            final(self).shared() == (SharedView {
                sort: SortSettings { sort_by, ascending },
                list: final(self).shared().list,
                ..old(self).shared()
            }),
            rows_sorted(old(self).shared().list, final(self).shared().list, sort_by, ascending),
    {
        match self {
            ManagerState::Clean(m) => m.set_sort(sort_by, ascending),
            ManagerState::Dirty(m) => m.set_sort(sort_by, ascending),
            ManagerState::Planned(m) => m.set_sort(sort_by, ascending),
            ManagerState::Transitioning => {},
        }
    }

    /// Builds the search index if there is none. Returns the time it took
    /// where it was built now.
    pub fn ensure_search_index(&mut self) -> (r: Result<Option<Duration>, SearchError>)
        requires
            old(self).wf(),
        ensures
            final(self).wf(),
            final(self).phase() == old(self).phase(),
            final(self).plan() == old(self).plan(),
            old(self).shared().index is Some ==> r is Ok,
            match r {
                Ok(built) => final(self).shared() == (SharedView {
                    index: if old(self).shared().index is Some {
                        old(self).shared().index
                    } else {
                        Some(catalog_rows(old(self).shared().cache.entries()))
                    },
                    ..old(self).shared()
                }) && (built is Some <==> old(self).shared().index is None),
                Err(_) => final(self).shared() == old(self).shared(),
            },
    {
        match self {
            ManagerState::Clean(m) => m.ensure_search_index(),
            ManagerState::Dirty(m) => m.ensure_search_index(),
            ManagerState::Planned(m) => m.ensure_search_index(),
            ManagerState::Transitioning => Ok(None),
        }
    }

    /// Sets the query and searches for it, building the index first where
    /// there is none. An empty query ends the search. Where building or
    /// searching fails only the query changes.
    pub fn set_search_query(&mut self, query: &str) -> (r: Result<(), SearchError>)
        requires
            old(self).wf(),
        ensures
            final(self).wf(),
            final(self).phase() == old(self).phase(),
            final(self).plan() == old(self).plan(),
            query@.len() == 0 ==> r is Ok,
            match r {
                Ok(()) => final(self).shared() == searched(old(self).shared(), query@),
                Err(_) => query@.len() > 0 && final(self).shared() == (SharedView {
                    query: query@,
                    ..old(self).shared()
                }),
            },
    {
        match self {
            ManagerState::Clean(m) => m.set_search_query(query),
            ManagerState::Dirty(m) => m.set_search_query(query),
            ManagerState::Planned(m) => m.set_search_query(query),
            ManagerState::Transitioning => Ok(()),
        }
    }

    /// Ends the search.
    pub fn clear_search(&mut self)
        requires
            old(self).wf(),
        ensures
            final(self).wf(),
            final(self).phase() == old(self).phase(),
            final(self).plan() == old(self).plan(),
            final(self).shared() == (SharedView {
                query: Seq::empty(),
                found: None,
                ..old(self).shared()
            }),
    {
        match self {
            ManagerState::Clean(m) => m.clear_search(),
            ManagerState::Dirty(m) => m.clear_search(),
            ManagerState::Planned(m) => m.clear_search(),
            ManagerState::Transitioning => {},
        }
    }

    /// Takes the last character off the query.
    pub fn search_query_pop(&mut self)
        requires
            old(self).wf(),
        ensures
            final(self).wf(),
            final(self).phase() == old(self).phase(),
            final(self).plan() == old(self).plan(),
            final(self).shared() == (SharedView {
                query: if old(self).shared().query.len() > 0 {
                    old(self).shared().query.drop_last()
                } else {
                    old(self).shared().query
                },
                ..old(self).shared()
            }),
    {
        match self {
            ManagerState::Clean(m) => m.search_query_pop(),
            ManagerState::Dirty(m) => m.search_query_pop(),
            ManagerState::Planned(m) => m.search_query_pop(),
            ManagerState::Transitioning => {},
        }
    }

    /// Adds a character to the query.
    pub fn search_query_push(&mut self, c: char)
        requires
            old(self).wf(),
        ensures
            final(self).wf(),
            final(self).phase() == old(self).phase(),
            final(self).plan() == old(self).plan(),
            final(self).shared() == (SharedView {
                query: old(self).shared().query.push(c),
                ..old(self).shared()
            }),
    {
        match self {
            ManagerState::Clean(m) => m.search_query_push(c),
            ManagerState::Dirty(m) => m.search_query_push(c),
            ManagerState::Planned(m) => m.search_query_push(c),
            ManagerState::Transitioning => {},
        }
    }

    /// Counts the packages of the catalog again.
    pub fn update_cache_counts(&mut self)
        requires
            old(self).wf(),
        ensures
            final(self).wf(),
            final(self).phase() == old(self).phase(),
            final(self).plan() == old(self).plan(),
            final(self).shared() == (SharedView {
                upgradable: count_upgradable(old(self).shared().cache.entries()) as usize,
                installed: count_installed(old(self).shared().cache.entries()) as usize,
                total: old(self).shared().cache.entries().len() as usize,
                ..old(self).shared()
            }),
    {
        match self {
            ManagerState::Clean(m) => m.update_cache_counts(),
            ManagerState::Dirty(m) => m.update_cache_counts(),
            ManagerState::Planned(m) => m.update_cache_counts(),
            ManagerState::Transitioning => {},
        }
    }

    // ========================================================================
    // Marks and plan
    // ========================================================================

    /// Marks a package for install or upgrade. A plan that stood is dropped.
    pub fn mark_install(&mut self, id: PackageId)
        requires
            old(self).wf(),
        ensures
            final(self).wf(),
            *final(self) is Dirty,
            final(self).shared() == (SharedView {
                intent: old(self).shared().intent.insert(id, UserIntent::Install),
                order: marked_order(old(self).shared(), id),
                ..old(self).shared()
            }),
    {
        let mut current = ManagerState::Transitioning;
        core::mem::swap(self, &mut current);
        *self = match current {
            ManagerState::Clean(m) => ManagerState::Dirty(m.mark_install(id)),
            ManagerState::Dirty(m) => ManagerState::Dirty(m.mark_install(id)),
            ManagerState::Planned(m) => ManagerState::Dirty(m.modify().mark_install(id)),
            ManagerState::Transitioning => ManagerState::Transitioning,
        };
        proof {
            assert(self.shared().intent.contains_key(id));
        }
    }

    /// Marks a package for removal. A plan that stood is dropped.
    pub fn mark_remove(&mut self, id: PackageId)
        requires
            old(self).wf(),
        ensures
            final(self).wf(),
            *final(self) is Dirty,
            final(self).shared() == (SharedView {
                intent: old(self).shared().intent.insert(id, UserIntent::Remove),
                order: marked_order(old(self).shared(), id),
                ..old(self).shared()
            }),
    {
        let mut current = ManagerState::Transitioning;
        core::mem::swap(self, &mut current);
        *self = match current {
            ManagerState::Clean(m) => ManagerState::Dirty(m.mark_remove(id)),
            ManagerState::Dirty(m) => ManagerState::Dirty(m.mark_remove(id)),
            ManagerState::Planned(m) => ManagerState::Dirty(m.modify().mark_remove(id)),
            ManagerState::Transitioning => ManagerState::Transitioning,
        };
        proof {
            assert(self.shared().intent.contains_key(id));
        }
    }

    /// Marks every upgradable package of the catalog for upgrade, whatever
    /// the filter shows.
    pub fn mark_all_upgradable(&mut self)
        requires
            old(self).wf(),
        ensures
            final(self).wf(),
            final(self).shared() == mark_each(
                old(self).shared(),
                upgradable_ids(old(self).shared().cache, old(self).shared().cache.entries()),
            ),
            upgradable_ids(old(self).shared().cache, old(self).shared().cache.entries()).len() == 0
                ==> *final(self) == *old(self),
            upgradable_ids(old(self).shared().cache, old(self).shared().cache.entries()).len() > 0
                ==> *final(self) is Dirty,
    {
        let ghost pre = *self;
        let mut ids: Vec<PackageId> = Vec::new();
        {
            let cache = self.cache();
            let records = cache.packages();
            let mut k: usize = 0;
            proof {
                assert(records@.take(0) =~= Seq::<PackageRecord>::empty());
            }
            while k < records.len()
                invariant
                    k <= records@.len(),
                    cache.wf(),
                    records@ == cache.entries(),
                    ids@ == upgradable_ids(*cache, records@.take(k as int)),
                decreases records@.len() - k,
            {
                proof {
                    assert(records@.take(k + 1).drop_last() =~= records@.take(k as int));
                    assert(records@.take(k + 1).last() == records@[k as int]);
                }
                if records[k].state.is_upgradable {
                    if let Some(id) = cache.get_id(records[k].fullname.as_str()) {
                        ids.push(id);
                    }
                }
                k += 1;
            }
            proof {
                assert(records@.take(k as int) =~= records@);
            }
        }
        let mut i: usize = 0;
        proof {
            assert(ids@.take(0) =~= Seq::<PackageId>::empty());
        }
        while i < ids.len()
            invariant
                i <= ids@.len(),
                self.wf(),
                self.shared() == mark_each(pre.shared(), ids@.take(i as int)),
                i == 0 ==> *self == pre,
                i > 0 ==> *self is Dirty,
            decreases ids@.len() - i,
        {
            proof {
                assert(ids@.take(i + 1).drop_last() =~= ids@.take(i as int));
                assert(ids@.take(i + 1).last() == ids@[i as int]);
            }
            self.mark_install(ids[i]);
            i += 1;
        }
        proof {
            assert(ids@.take(i as int) =~= ids@);
        }
    }

    /// Takes the user's intent for a package back, without cascade. A plan
    /// that stood is dropped; with the last intent gone the manager is
    /// clean and no mark is left. Nothing happens for a package that the
    /// user has not marked.
    pub fn unmark(&mut self, id: PackageId)
        requires
            old(self).wf(),
        ensures
            final(self).wf(),
            !old(self).shared().intent.contains_key(id) ==> *final(self) == *old(self),
            old(self).shared().intent.contains_key(id) ==> unmarked(*old(self), *final(self), id),
    {
        if !self.is_user_marked(id) {
            return ;
        }
        let mut current = ManagerState::Transitioning;
        core::mem::swap(self, &mut current);
        let dirty = match current {
            ManagerState::Dirty(m) => m.unmark(id),
            ManagerState::Planned(m) => m.modify().unmark(id),
            ManagerState::Clean(_) => {
                proof {
                    assert(false);
                }
                unreached()
            },
            ManagerState::Transitioning => unreached(),
        };
        let marks = dirty.has_marks();
        proof {
            if !marks {
                assert(dirty.base()@.order =~= Seq::<PackageId>::empty());
            }
        }
        *self = if marks {
            ManagerState::Dirty(dirty)
        } else {
            ManagerState::Clean(dirty.reset())
        };
    }

    /// Drops every mark: the user's and the solver's. A clean manager has
    /// none and stays as it is.
    pub fn reset(&mut self)
        requires
            old(self).wf(),
        ensures
            final(self).wf(),
            *final(self) is Clean,
            *old(self) is Clean ==> *final(self) == *old(self),
            !(*old(self) is Clean) ==> final(self).shared() == (SharedView {
                cache: final(self).shared().cache,
                intent: Map::empty(),
                order: Seq::empty(),
                ..old(self).shared()
            }) && cleared(old(self).shared().cache, final(self).shared().cache),
    {
        let mut current = ManagerState::Transitioning;
        core::mem::swap(self, &mut current);
        *self = match current {
            ManagerState::Clean(m) => ManagerState::Clean(m),
            ManagerState::Dirty(m) => ManagerState::Clean(m.reset()),
            ManagerState::Planned(m) => ManagerState::Clean(m.modify().reset()),
            ManagerState::Transitioning => ManagerState::Transitioning,
        };
    }

    /// The marks that stand for the user's intent, for the solver, where the
    /// marks await a plan. They are applied to a cache without marks, in
    /// this order.
    pub fn solver_requests(&self) -> (r: Option<Vec<MarkRequest>>)
        requires
            self.wf(),
        ensures
            match r {
                Some(requests) => self is Dirty && requests_view(requests@) == requests_for(self.shared().cache.names(), self.shared().intent),
                None => !(self is Dirty),
            },
    {
        match self {
            ManagerState::Dirty(m) => Some(m.solver_requests()),
            _ => None,
        }
    }

    /// Builds the plan from what the solver did with the marks of
    /// `solver_requests`. Without marks that await a plan nothing happens.
    pub fn compute_plan(&mut self, outcome: SolverOutcome)
        requires
            old(self).wf(),
            *old(self) is Dirty ==> admissible(old(self).shared().cache, outcome),
        ensures
            final(self).wf(),
            !(*old(self) is Dirty) ==> *final(self) == *old(self),
            *old(self) is Dirty ==> planned(*old(self), *final(self), outcome),
    {
        let mut current = ManagerState::Transitioning;
        core::mem::swap(self, &mut current);
        *self = match current {
            ManagerState::Clean(m) => ManagerState::Clean(m),
            ManagerState::Dirty(m) => ManagerState::Planned(m.plan(outcome)),
            ManagerState::Planned(m) => ManagerState::Planned(m),
            ManagerState::Transitioning => ManagerState::Transitioning,
        };
    }

    /// Back to changing marks: keeps the intent, drops the plan.
    pub fn modify(&mut self)
        requires
            old(self).wf(),
        ensures
            final(self).wf(),
            !(*old(self) is Planned) ==> *final(self) == *old(self),
            *old(self) is Planned ==> *final(self) is Dirty && final(self).shared() == old(self).shared(),
    {
        let mut current = ManagerState::Transitioning;
        core::mem::swap(self, &mut current);
        *self = match current {
            ManagerState::Planned(m) => ManagerState::Dirty(m.modify()),
            other => other,
        };
    }

    /// What the driver of the transaction has to do next.
    pub fn commit_step(&self) -> (step: CommitStep)
        requires
            self.wf(),
        ensures
            match step {
                CommitStep::Nothing => self is Clean,
                CommitStep::Plan(requests) => self is Dirty && requests_view(requests@) == requests_for(self.shared().cache.names(), self.shared().intent),
                CommitStep::Run => self is Planned,
            },
    {
        match self {
            ManagerState::Dirty(m) => CommitStep::Plan(m.solver_requests()),
            ManagerState::Planned(_) => CommitStep::Run,
            _ => CommitStep::Nothing,
        }
    }

    /// Takes note of how the transaction ended and returns it. Whether it
    /// succeeded or failed, the intent is dropped, and so are the marks and
    /// the search index: the manager is clean, and the catalog is due for a
    /// fresh reading. With nothing marked there was no transaction, and
    /// nothing happens.
    pub fn commit(&mut self, transaction: Result<(), String>) -> (r: Result<(), String>)
        requires
            old(self).wf(),
        ensures
            final(self).wf(),
            *final(self) is Clean,
            *old(self) is Clean ==> *final(self) == *old(self) && r is Ok,
            !(*old(self) is Clean) ==> r == transaction && final(self).shared() == (SharedView {
                cache: final(self).shared().cache,
                intent: Map::empty(),
                order: Seq::empty(),
                index: None,
                ..old(self).shared()
            }) && cleared(old(self).shared().cache, final(self).shared().cache),
    {
        let mut current = ManagerState::Transitioning;
        core::mem::swap(self, &mut current);
        match current {
            ManagerState::Clean(m) => {
                *self = ManagerState::Clean(m);
                Ok(())
            },
            ManagerState::Dirty(m) => {
                let (clean, ended) = m.commit_unplanned(transaction);
                *self = ManagerState::Clean(clean);
                ended
            },
            ManagerState::Planned(m) => {
                let (clean, ended) = m.commit(transaction);
                *self = ManagerState::Clean(clean);
                ended
            },
            ManagerState::Transitioning => Ok(()),
        }
    }

    /// Takes a fresh reading of the catalog, or the reason why there is
    /// none. With a reading, the intent, the plan, the search and its index
    /// are dropped and the packages are counted again; every handle keeps
    /// its name. Without one, nothing changes and the reason is returned.
    pub fn refresh(&mut self, reading: Result<Vec<PackageRecord>, String>) -> (r: Result<(), String>)
        requires
            old(self).wf(),
            reading matches Ok(records) ==> old(self).shared().cache.names().len() + records@.len()
                <= u32::MAX,
        ensures
            final(self).wf(),
            match reading {
                Ok(records) => r is Ok && *final(self) is Clean && final(self).shared() == (SharedView {
                    cache: final(self).shared().cache,
                    intent: Map::empty(),
                    order: Seq::empty(),
                    query: Seq::empty(),
                    found: None,
                    index: None,
                    upgradable: count_upgradable(records@) as usize,
                    installed: count_installed(records@) as usize,
                    total: records@.len() as usize,
                    ..old(self).shared()
                }) && reread(old(self).shared().cache, final(self).shared().cache, records@),
                Err(reason) => r == Err::<(), String>(reason) && *final(self) == *old(self),
            },
    {
        let records = match reading {
            Ok(records) => records,
            Err(reason) => {
                return Err(reason);
            },
        };
        let mut current = ManagerState::Transitioning;
        core::mem::swap(self, &mut current);
        *self = match current {
            ManagerState::Clean(m) => ManagerState::Clean(m.refresh(records)),
            ManagerState::Dirty(m) => ManagerState::Clean(m.refresh(records)),
            ManagerState::Planned(m) => ManagerState::Clean(m.refresh(records)),
            ManagerState::Transitioning => ManagerState::Transitioning,
        };
        Ok(())
    }

    /// The status shown for the package called `name`, with the user's
    /// intent and the plan laid over its own state. A package that is not in
    /// the catalog counts as not installed.
    pub fn get_package_status(&self, name: &str) -> (status: PackageStatus)
        requires
            self.wf(),
        ensures
            status == status_of(self.shared().cache, self.shared().intent, self.changes(), name@),
    {
        let none: Vec<PlannedChange> = Vec::new();
        match self {
            ManagerState::Clean(m) => m.package_status(name, &none),
            ManagerState::Dirty(m) => m.package_status(name, &none),
            ManagerState::Planned(m) => m.package_status(name, m.changes()),
            ManagerState::Transitioning => PackageStatus::NotInstalled,
        }
    }

    /// The changes of the plan for the final confirmation: the names by
    /// action and by who asked, and the totals of the plan. Without a plan
    /// there are no changes.
    pub fn pending_changes(&self) -> (pending: PendingChanges)
        requires
            self.wf(),
        ensures
            pending@ == match self.plan() {
                Some(plan) => pending_of(self.shared().cache, plan),
                None => pending_lists(self.shared().cache, Seq::empty()),
            },
    {
        match self {
            ManagerState::Planned(m) => m.pending_changes(),
            _ => {
                let pending = PendingChanges::default();
                proof {
                    assert(texts(pending.to_install@) =~= Seq::<Seq<char>>::empty());
                    assert(texts(pending.to_upgrade@) =~= Seq::<Seq<char>>::empty());
                    assert(texts(pending.to_remove@) =~= Seq::<Seq<char>>::empty());
                    assert(texts(pending.auto_install@) =~= Seq::<Seq<char>>::empty());
                    assert(texts(pending.auto_upgrade@) =~= Seq::<Seq<char>>::empty());
                    assert(texts(pending.auto_remove@) =~= Seq::<Seq<char>>::empty());
                }
                pending
            },
        }
    }

    /// The preview of marking `marked_pkg_id`, for the confirmation dialog:
    /// what the plan changes besides the marked package and besides what was
    /// planned before the mark. None without a plan, and where the handle
    /// has no name.
    pub fn build_mark_preview(&self, marked_pkg_id: PackageId, previously_planned: &Vec<PackageId>) -> (r:
        Option<MarkPreview>)
        requires
            self.wf(),
        ensures
            match r {
                Some(preview) => self is Planned && Some(preview@) == preview_of(
                    self.shared().cache,
                    self.changes(),
                    marked_pkg_id,
                    previously_planned@,
                ),
                None => !(self is Planned) || preview_of(
                    self.shared().cache,
                    self.changes(),
                    marked_pkg_id,
                    previously_planned@,
                ) is None,
            },
    {
        match self {
            ManagerState::Planned(m) => m.build_mark_preview(marked_pkg_id, previously_planned),
            _ => None,
        }
    }
}

/// The handles of the upgradable packages among `rs`, in their order.
pub open spec fn upgradable_ids(cache: AptCache, rs: Seq<PackageRecord>) -> Seq<PackageId>
    decreases rs.len(),
{
    if rs.len() == 0 {
        Seq::empty()
    } else {
        let head = upgradable_ids(cache, rs.drop_last());
        if rs.last().state.is_upgradable && cache.knows(rs.last().fullname@) {
            head.push(cache.id_of(rs.last().fullname@))
        } else {
            head
        }
    }
}

/// The shared state once each of `ids` has been marked for install.
pub open spec fn mark_each(s: SharedView, ids: Seq<PackageId>) -> SharedView
    decreases ids.len(),
{
    if ids.len() == 0 {
        s
    } else {
        let t = mark_each(s, ids.drop_last());
        SharedView {
            intent: t.intent.insert(ids.last(), UserIntent::Install),
            order: marked_order(t, ids.last()),
            ..t
        }
    }
}

/// `post` is `pre` with the intent for `id` taken back: clean and without
/// marks where that was the last intent, else dirty.
pub open spec fn unmarked(pre: ManagerState, post: ManagerState, id: PackageId) -> bool {
    let intent = pre.shared().intent.remove(id);
    &&& post.shared() == (SharedView {
        cache: post.shared().cache,
        intent,
        order: unmarked_order(pre.shared(), id),
        ..pre.shared()
    })
    &&& if intent == Map::<PackageId, UserIntent>::empty() {
        post is Clean && cleared(pre.shared().cache, post.shared().cache)
    } else {
        post is Dirty && post.shared().cache == pre.shared().cache
    }
}

/// `post` is `pre` with the plan for what the solver did.
pub open spec fn planned(pre: ManagerState, post: ManagerState, outcome: SolverOutcome) -> bool {
    &&& post is Planned
    &&& post.shared() == (SharedView { cache: post.shared().cache, ..pre.shared() })
    &&& replanned(pre.shared().cache, post.shared().cache, outcome.changes@)
    &&& post.plan() == Some(
        plan_of(
            post.shared().cache.names(),
            pre.shared().intent,
            outcome.changes@,
            outcome.failure,
        ),
    )
}

} // verus!
