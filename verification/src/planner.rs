//! The planner: from user intent to the marks handed to the solver, and from
//! the solver's changeset back to the changes shown to the user.

use crate::apt::{format_apt_errors, AptCache, AptChange};
use crate::apt::{all_unmarked, error_summary, marked_by};
use crate::intent::IntentStore;
use crate::registry::register_all;
use crate::types::{
    texts, total_download, total_size_change, ChangeAction, ChangeReason, PackageId, Planned,
    PlannedChange, UserIntent,
};
use vstd::hash_set::StringHashSet;
use vstd::prelude::*;
use vstd::string::*;

verus! {

// ============================================================================
// What goes to the solver
// ============================================================================

/// A native mark.
#[derive(Debug, Clone, Copy, PartialEq, Eq, Structural)]
pub enum MarkOp {
    Install,
    Delete,
    Keep,
}

/// One mark for the solver: `op` on the package called `fullname`.
#[derive(Debug)]
pub struct MarkRequest {
    pub package: PackageId,
    pub fullname: String,
    pub op: MarkOp,
}

/// A mark request with its name as a sequence of characters.
pub ghost struct MarkRequestView {
    pub package: PackageId,
    pub fullname: Seq<char>,
    pub op: MarkOp,
}

impl View for MarkRequest {
    type V = MarkRequestView;

    open spec fn view(&self) -> MarkRequestView {
        MarkRequestView { package: self.package, fullname: self.fullname@, op: self.op }
    }
}

/// Mark requests, each by its view.
pub open spec fn requests_view(v: Seq<MarkRequest>) -> Seq<MarkRequestView> {
    Seq::new(v.len(), |i: int| v[i]@)
}

/// The native mark that stands for an intent.
pub open spec fn mark_for(intent: UserIntent) -> Option<MarkOp> {
    match intent {
        UserIntent::Install => Some(MarkOp::Install),
        UserIntent::Remove => Some(MarkOp::Delete),
        UserIntent::Hold => Some(MarkOp::Keep),
        UserIntent::Default => None,
    }
}

/// The request for one handle: none where the handle has no name or the
/// intent asks for nothing.
pub open spec fn request_for(
    names: Seq<Seq<char>>,
    intent: Map<PackageId, UserIntent>,
    id: PackageId,
) -> Option<MarkRequestView> {
    if id.0 < names.len() && intent.contains_key(id) && mark_for(intent[id]) is Some {
        Some(
            MarkRequestView {
                package: id,
                fullname: names[id.0 as int],
                op: mark_for(intent[id])->0,
            },
        )
    } else {
        None
    }
}

/// The requests for the handles below `n`, by rising handle.
pub open spec fn requests_below(
    names: Seq<Seq<char>>,
    intent: Map<PackageId, UserIntent>,
    n: nat,
) -> Seq<MarkRequestView>
    decreases n,
{
    if n == 0 {
        Seq::empty()
    } else {
        let head = requests_below(names, intent, (n - 1) as nat);
        match request_for(names, intent, PackageId((n - 1) as u32)) {
            Some(r) => head.push(r),
            None => head,
        }
    }
}

/// The requests that stand for an intent: one for each handle that the
/// intent asks something for, by rising handle. They are the same for the
/// same intent, in whatever order the marks were set.
pub open spec fn requests_for(
    names: Seq<Seq<char>>,
    intent: Map<PackageId, UserIntent>,
) -> Seq<MarkRequestView> {
    requests_below(names, intent, names.len())
}

/// The marks that stand for the user's intent, by rising handle. They are
/// applied to a cache without marks.
pub fn mark_requests(cache: &AptCache, intent: &IntentStore) -> (requests: Vec<MarkRequest>)
    requires
        cache.wf(),
        intent.wf(),
    ensures
        requests_view(requests@) == requests_for(cache.names(), intent@),
{
    let count = cache.handle_count();
    let mut requests: Vec<MarkRequest> = Vec::new();
    let mut i: usize = 0;
    proof {
        assert(requests_view(requests@) =~= Seq::<MarkRequestView>::empty());
        cache.lemma_handles_one_to_one();
    }
    while i < count
        invariant
            i <= count,
            count == cache.names().len(),
            count <= u32::MAX,
            intent.wf(),
            requests_view(requests@) == requests_below(cache.names(), intent@, i as nat),
        decreases count - i,
    {
        let id = PackageId(i as u32);
        let ghost before = requests_view(requests@);
        proof {
            intent.lemma_view();
        }
        let op = match intent.get(id) {
            UserIntent::Install => Some(MarkOp::Install),
            UserIntent::Remove => Some(MarkOp::Delete),
            UserIntent::Hold => Some(MarkOp::Keep),
            UserIntent::Default => None,
        };
        if let Some(op) = op {
            if let Some(name) = cache.fullname_of(id) {
                let request = MarkRequest { package: id, fullname: String::from_str(name), op };
                requests.push(request);
                proof {
                    assert(requests_view(requests@) =~= before.push(request@));
                }
            }
        }
        i += 1;
    }
    requests
}

// ============================================================================
// What comes back from the solver
// ============================================================================

/// What the solver did: the packages it left marked, and its messages if it
/// could not resolve every dependency.
#[derive(Debug)]
pub struct SolverOutcome {
    pub changes: Vec<AptChange>,
    /// The solver's messages where it reported a failure, none where it
    /// resolved.
    pub failure: Option<Vec<String>>,
}

/// What happens to a package that the solver left as `c`: an installed
/// package marked for install or upgrade is upgraded.
pub open spec fn change_action(c: AptChange) -> Option<ChangeAction> {
    if c.marked_install || c.marked_upgrade {
        if c.is_installed {
            Some(ChangeAction::Upgrade)
        } else {
            Some(ChangeAction::Install)
        }
    } else if c.marked_delete {
        Some(ChangeAction::Remove)
    } else {
        None
    }
}

/// Why a package changes: because the user asked, else because the solver
/// needs it or no longer needs it.
pub open spec fn change_reason(action: ChangeAction, user_requested: bool) -> ChangeReason {
    if user_requested {
        ChangeReason::UserRequested
    } else if action == ChangeAction::Remove {
        ChangeReason::AutoRemove
    } else {
        ChangeReason::Dependency
    }
}

/// Bytes to download for a change.
pub open spec fn change_download(c: AptChange) -> u64 {
    match c.candidate {
        Some((download, installed)) => download,
        None => 0,
    }
}

/// Bytes that a change adds on disk: what a removal frees counts negative.
pub open spec fn change_size(c: AptChange, action: ChangeAction) -> int {
    match c.candidate {
        Some((download, installed)) => if action == ChangeAction::Remove {
            -(installed as int)
        } else {
            installed as int
        },
        None => 0,
    }
}

/// The planned change for `c`, where `names` holds its full name: none for
/// a package without marks.
pub open spec fn plan_entry(
    names: Seq<Seq<char>>,
    intent: Map<PackageId, UserIntent>,
    c: AptChange,
) -> Option<PlannedChange> {
    let id = PackageId(names.index_of(c.fullname@) as u32);
    match change_action(c) {
        Some(action) => Some(
            PlannedChange {
                package: id,
                action,
                reason: change_reason(action, intent.contains_key(id)),
                download_size: change_download(c),
                size_change: change_size(c, action) as i64,
            },
        ),
        None => None,
    }
}

/// The changeset for what the solver left marked, in the solver's order.
pub open spec fn plan_changes(
    names: Seq<Seq<char>>,
    intent: Map<PackageId, UserIntent>,
    changes: Seq<AptChange>,
) -> Seq<PlannedChange>
    decreases changes.len(),
{
    if changes.len() == 0 {
        Seq::empty()
    } else {
        let head = plan_changes(names, intent, changes.drop_last());
        match plan_entry(names, intent, changes.last()) {
            Some(p) => head.push(p),
            None => head,
        }
    }
}

/// The full names of changes.
pub open spec fn changed_names(changes: Seq<AptChange>) -> Seq<Seq<char>> {
    Seq::new(changes.len(), |i: int| changes[i].fullname@)
}

/// Whether the solver named each changed package once.
pub open spec fn named_once(changes: Seq<AptChange>) -> bool {
    changed_names(changes).no_duplicates()
}

/// Whether a changeset changes no package twice.
pub open spec fn each_once(planned: Seq<PlannedChange>) -> bool {
    forall|i: int, j: int|
        0 <= i < j < planned.len() ==> (#[trigger] planned[i]).package != (
        #[trigger] planned[j]).package
}

/// The sizes of a changeset can be held: every installed size fits the
/// signed size of a change, and the totals fit the totals of a plan.
pub open spec fn sizes_fit(changes: Seq<AptChange>) -> bool {
    &&& forall|i: int|
        0 <= i < changes.len() ==> ((#[trigger] changes[i]).candidate matches Some(s) ==> s.1
            <= i64::MAX)
    &&& total_download(plan_changes(changed_names(changes), Map::empty(), changes)) <= u64::MAX
    &&& i64::MIN <= total_size_change(plan_changes(changed_names(changes), Map::empty(), changes))
        <= i64::MAX
}

/// The messages of a plan: one line where the solver failed, none where it
/// resolved.
pub open spec fn plan_errors(failure: Option<Vec<String>>) -> Seq<Seq<char>> {
    match failure {
        Some(messages) => seq![error_summary(texts(messages@))],
        None => Seq::empty(),
    }
}

/// A plan with its messages as sequences of characters.
pub ghost struct PlannedView {
    pub changes: Seq<PlannedChange>,
    pub download_size: u64,
    pub install_size_change: i64,
    pub errors: Seq<Seq<char>>,
}

impl View for Planned {
    type V = PlannedView;

    open spec fn view(&self) -> PlannedView {
        PlannedView {
            changes: self.changes@,
            download_size: self.download_size,
            install_size_change: self.install_size_change,
            errors: texts(self.errors@),
        }
    }
}

/// The plan for what the solver did, with `names` the registered names once
/// every changed package has its handle.
pub open spec fn plan_of(
    names: Seq<Seq<char>>,
    intent: Map<PackageId, UserIntent>,
    changes: Seq<AptChange>,
    failure: Option<Vec<String>>,
) -> PlannedView {
    let planned = plan_changes(names, intent, changes);
    PlannedView {
        changes: planned,
        download_size: total_download(planned) as u64,
        install_size_change: total_size_change(planned) as i64,
        errors: plan_errors(failure),
    }
}

/// Every change of a plan is the user's exactly when the user stated an
/// intent for its package.
pub open spec fn reasons_follow_intent(
    planned: Seq<PlannedChange>,
    intent: Map<PackageId, UserIntent>,
) -> bool {
    forall|i: int|
        0 <= i < planned.len() ==> ((#[trigger] planned[i]).reason == ChangeReason::UserRequested
            <==> intent.contains_key(planned[i].package))
}

/// A changeset planned from the solver's marks gives each change to the
/// user exactly when the user stated an intent for its package.
pub proof fn lemma_plan_reasons(
    names: Seq<Seq<char>>,
    intent: Map<PackageId, UserIntent>,
    changes: Seq<AptChange>,
)
    ensures
        reasons_follow_intent(plan_changes(names, intent, changes), intent),
    decreases changes.len(),
{
    if changes.len() > 0 {
        lemma_plan_reasons(names, intent, changes.drop_last());
    }
}

/// The sizes of a plan do not depend on the names or on the intent: only the
/// handles and the reasons do.
pub proof fn lemma_plan_sizes(
    names: Seq<Seq<char>>,
    intent: Map<PackageId, UserIntent>,
    names2: Seq<Seq<char>>,
    intent2: Map<PackageId, UserIntent>,
    changes: Seq<AptChange>,
)
    ensures
        plan_changes(names, intent, changes).len() == plan_changes(names2, intent2, changes).len(),
        plan_changes(names, intent, changes).len() <= changes.len(),
        total_download(plan_changes(names, intent, changes)) == total_download(
            plan_changes(names2, intent2, changes),
        ),
        total_size_change(plan_changes(names, intent, changes)) == total_size_change(
            plan_changes(names2, intent2, changes),
        ),
    decreases changes.len(),
{
    if changes.len() > 0 {
        lemma_plan_sizes(names, intent, names2, intent2, changes.drop_last());
        let a = plan_changes(names, intent, changes);
        let b = plan_changes(names2, intent2, changes);
        if plan_entry(names, intent, changes.last()) is Some {
            assert(a.drop_last() =~= plan_changes(names, intent, changes.drop_last()));
            assert(b.drop_last() =~= plan_changes(names2, intent2, changes.drop_last()));
        }
    }
}

/// A longer list of names that keeps the old ones in place plans the same:
/// handles are stable.
pub proof fn lemma_plan_more_names(
    names: Seq<Seq<char>>,
    more: Seq<Seq<char>>,
    intent: Map<PackageId, UserIntent>,
    changes: Seq<AptChange>,
)
    requires
        names.is_prefix_of(more),
        more.no_duplicates(),
        forall|i: int| 0 <= i < changes.len() ==> names.contains(#[trigger] changes[i].fullname@),
    ensures
        plan_changes(names, intent, changes) == plan_changes(more, intent, changes),
    decreases changes.len(),
{
    if changes.len() > 0 {
        let head = changes.drop_last();
        assert forall|i: int| 0 <= i < head.len() implies names.contains(
            #[trigger] head[i].fullname@,
        ) by {
            assert(head[i] == changes[i]);
        }
        lemma_plan_more_names(names, more, intent, head);
        let name = changes.last().fullname@;
        assert(names.contains(changes[changes.len() - 1].fullname@));
        let k = names.index_of(name);
        assert(more[k] == name);
        let k2 = more.index_of(name);
        assert(more.contains(name));
        assert(k2 == k);
    }
}

/// The counted bytes of the changes seen so far stay within what `n`
/// changes can add up to.
spec fn within(total: int, n: int) -> bool {
    -n * 0x8000_0000_0000_0000 <= total <= n * 0x8000_0000_0000_0000
}

/// Counting one more change leaves room in the wide counters.
proof fn lemma_room(i: int, download: int, size: int, more_download: int, more_size: int)
    requires
        0 <= i < 0xffff_ffff_ffff_ffff,
        0 <= download <= i * 0x1_0000_0000_0000_0000,
        within(size, i),
        0 <= more_download < 0x1_0000_0000_0000_0000,
        -0x8000_0000_0000_0000 <= more_size <= 0x8000_0000_0000_0000,
    ensures
        0 <= download + more_download <= (i + 1) * 0x1_0000_0000_0000_0000,
        within(size + more_size, i + 1),
        download + more_download <= u128::MAX,
        i128::MIN <= size + more_size <= i128::MAX,
        i128::MIN <= size - more_size <= i128::MAX,
        within(size - more_size, i + 1),
{
    assert((i + 1) * 0x1_0000_0000_0000_0000 == i * 0x1_0000_0000_0000_0000
        + 0x1_0000_0000_0000_0000) by (nonlinear_arith);
    assert((i + 1) * 0x8000_0000_0000_0000 == i * 0x8000_0000_0000_0000 + 0x8000_0000_0000_0000)
        by (nonlinear_arith);
    assert(-(i + 1) * 0x8000_0000_0000_0000 == -i * 0x8000_0000_0000_0000 - 0x8000_0000_0000_0000)
        by (nonlinear_arith);
    assert((i + 1) * 0x1_0000_0000_0000_0000 <= 0xffff_ffff_ffff_ffff * 0x1_0000_0000_0000_0000)
        by (nonlinear_arith)
        requires
            0 <= i + 1 <= 0xffff_ffff_ffff_ffff,
    ;
    assert((i + 1) * 0x8000_0000_0000_0000 <= 0xffff_ffff_ffff_ffff * 0x8000_0000_0000_0000)
        by (nonlinear_arith)
        requires
            0 <= i + 1 <= 0xffff_ffff_ffff_ffff,
    ;
}

/// Builds the plan for what the solver did. Every changed package gets its
/// handle, in the solver's order; the cache takes over the solver's marks.
pub fn plan_from(cache: &mut AptCache, intent: &IntentStore, outcome: SolverOutcome) -> (planned:
    Planned)
    requires
        old(cache).wf(),
        intent.wf(),
        old(cache).names().len() + outcome.changes@.len() <= u32::MAX,
        sizes_fit(outcome.changes@),
    ensures
        final(cache).wf(),
        final(cache).arch() == old(cache).arch(),
        final(cache).names() == register_all(old(cache).names(), changed_names(outcome.changes@)),
        final(cache).entries() == marked_by(
            all_unmarked(old(cache).entries()),
            outcome.changes@,
        ),
        planned@ == plan_of(final(cache).names(), intent@, outcome.changes@, outcome.failure),
        reasons_follow_intent(planned.changes@, intent@),
        planned.download_size == total_download(planned.changes@),
        planned.install_size_change == total_size_change(planned.changes@),
        named_once(outcome.changes@) ==> each_once(planned.changes@),
{
    let SolverOutcome { changes, failure } = outcome;
    cache.clear_all_marks();
    cache.apply_marks(&changes);

    let errors: Vec<String> = match &failure {
        Some(messages) => {
            let mut errors: Vec<String> = Vec::new();
            let line = format_apt_errors(messages);
            errors.push(line);
            proof {
                assert(texts(errors@) =~= seq![line@]);
            }
            errors
        },
        None => {
            let errors: Vec<String> = Vec::new();
            proof {
                assert(texts(errors@) =~= Seq::<Seq<char>>::empty());
            }
            errors
        },
    };

    let ghost start = cache.names();
    let ghost all_names = changed_names(changes@);
    let mut planned: Vec<PlannedChange> = Vec::new();
    let mut download: u128 = 0;
    let mut size_change: i128 = 0;
    let mut i: usize = 0;
    proof {
        assert(all_names.take(0) =~= Seq::<Seq<char>>::empty());
        assert(changes@.take(0) =~= Seq::<AptChange>::empty());
    }
    while i < changes.len()
        invariant
            i <= changes@.len(),
            cache.wf(),
            intent.wf(),
            all_names == changed_names(changes@),
            start.len() + changes@.len() <= u32::MAX,
            cache.arch() == old(cache).arch(),
            cache.entries() == marked_by(
                all_unmarked(old(cache).entries()),
                changes@,
            ),
            cache.names() == register_all(start, all_names.take(i as int)),
            forall|k: int|
                0 <= k < changes@.len() ==> ((#[trigger] changes@[k]).candidate matches Some(s)
                    ==> s.1 <= i64::MAX),
            planned@ == plan_changes(cache.names(), intent@, changes@.take(i as int)),
            planned@.len() <= i,
            download == total_download(planned@),
            size_change == total_size_change(planned@),
            0 <= download <= i * 0x1_0000_0000_0000_0000,
            within(size_change as int, i as int),
        decreases changes@.len() - i,
    {
        let c = &changes[i];
        let ghost names_before = cache.names();
        let ghost seen = changes@.take(i as int);
        proof {
            crate::registry::lemma_register_all_keeps(start, all_names.take(i as int));
            assert(all_names.take(i + 1).drop_last() =~= all_names.take(i as int));
            assert(all_names.take(i + 1).last() == c.fullname@);
            assert(changes@.take(i + 1).drop_last() =~= seen);
            assert(changes@.take(i + 1).last() == *c);
            cache.lemma_handles_one_to_one();
        }
        let id = cache.id_for(c.fullname.as_str());
        proof {
            cache.lemma_handles_one_to_one();
            assert(names_before.is_prefix_of(cache.names()));
            assert forall|k: int| 0 <= k < seen.len() implies names_before.contains(
                #[trigger] seen[k].fullname@,
            ) by {
                assert(all_names.take(i as int)[k] == seen[k].fullname@);
            }
            lemma_plan_more_names(names_before, cache.names(), intent@, seen);
        }
        let user_requested = intent.contains(id);
        let action = if c.marked_install || c.marked_upgrade {
            if c.is_installed {
                Some(ChangeAction::Upgrade)
            } else {
                Some(ChangeAction::Install)
            }
        } else if c.marked_delete {
            Some(ChangeAction::Remove)
        } else {
            None
        };
        if let Some(action) = action {
            let reason = if user_requested {
                ChangeReason::UserRequested
            } else if action == ChangeAction::Remove {
                ChangeReason::AutoRemove
            } else {
                ChangeReason::Dependency
            };
            let (pkg_download, pkg_size): (u64, i64) = match c.candidate {
                Some((download_size, installed_size)) => {
                    assert(changes@[i as int].candidate matches Some(s) ==> s.1 <= i64::MAX);
                    if action == ChangeAction::Remove {
                        (download_size, -(installed_size as i64))
                    } else {
                        (download_size, installed_size as i64)
                    }
                },
                None => (0, 0),
            };
            let change = PlannedChange {
                package: id,
                action,
                reason,
                download_size: pkg_download,
                size_change: pkg_size,
            };
            let ghost before = planned@;
            planned.push(change);
            proof {
                assert(planned@.drop_last() =~= before);
                lemma_room(
                    i as int,
                    download as int,
                    size_change as int,
                    pkg_download as int,
                    pkg_size as int,
                );
            }
            download = download + pkg_download as u128;
            size_change = size_change + pkg_size as i128;
        } else {
            proof {
                lemma_room(i as int, download as int, size_change as int, 0, 0);
            }
        }
        i += 1;
    }
    proof {
        assert(changes@.take(i as int) =~= changes@);
        assert(all_names.take(i as int) =~= all_names);
        lemma_plan_sizes(cache.names(), intent@, all_names, Map::empty(), changes@);
        lemma_plan_reasons(cache.names(), intent@, changes@);
        if named_once(changes@) {
            crate::registry::lemma_register_all_keeps(start, all_names);
            cache.lemma_handles_one_to_one();
            assert forall|k: int| 0 <= k < changes@.len() implies cache.names().contains(
                (#[trigger] changes@[k]).fullname@,
            ) by {
                assert(all_names[k] == changes@[k].fullname@);
            }
            lemma_plan_once(cache.names(), intent@, changes@);
        }
    }
    Planned {
        changes: planned,
        download_size: download as u64,
        install_size_change: size_change as i64,
        errors,
    }
}

/// A changeset planned from changes that name each package once changes no
/// package twice, and each of its changes stands for one of them.
pub proof fn lemma_plan_once(
    names: Seq<Seq<char>>,
    intent: Map<PackageId, UserIntent>,
    changes: Seq<AptChange>,
)
    requires
        names.len() <= u32::MAX,
        named_once(changes),
        forall|k: int| 0 <= k < changes.len() ==> names.contains((#[trigger] changes[k]).fullname@),
    ensures
        each_once(plan_changes(names, intent, changes)),
        forall|i: int|
            0 <= i < plan_changes(names, intent, changes).len() ==> exists|k: int|
                0 <= k < changes.len() && plan_entry(names, intent, #[trigger] changes[k]) == Some(
                    #[trigger] plan_changes(names, intent, changes)[i],
                ),
    decreases changes.len(),
{
    if changes.len() > 0 {
        let head = changes.drop_last();
        let last = changes.last();
        assert forall|k: int| 0 <= k < head.len() implies names.contains(
            (#[trigger] head[k]).fullname@,
        ) by {
            assert(head[k] == changes[k]);
        }
        assert(named_once(head)) by {
            assert forall|a: int, b: int|
                0 <= a < head.len() && 0 <= b < head.len() && a != b implies changed_names(head)[a]
                != changed_names(head)[b] by {
                assert(changed_names(changes)[a] == changed_names(head)[a]);
                assert(changed_names(changes)[b] == changed_names(head)[b]);
            }
        }
        lemma_plan_once(names, intent, head);
        let before = plan_changes(names, intent, head);
        let out = plan_changes(names, intent, changes);
        assert forall|i: int| 0 <= i < out.len() implies exists|k: int|
            0 <= k < changes.len() && plan_entry(names, intent, #[trigger] changes[k]) == Some(
                #[trigger] out[i],
            ) by {
            if i < before.len() {
                assert(out[i] == before[i]);
                let k = choose|k: int|
                    0 <= k < head.len() && plan_entry(names, intent, #[trigger] head[k]) == Some(
                        before[i],
                    );
                assert(changes[k] == head[k]);
            } else {
                assert(plan_entry(names, intent, changes[changes.len() - 1]) == Some(out[i]));
            }
        }
        assert forall|i: int, j: int| 0 <= i < j < out.len() implies (#[trigger] out[i]).package != (
        #[trigger] out[j]).package by {
            if j < before.len() {
                assert(out[i] == before[i] && out[j] == before[j]);
            } else {
                assert(out[i] == before[i]);
                let k = choose|k: int|
                    0 <= k < head.len() && plan_entry(names, intent, #[trigger] head[k]) == Some(
                        before[i],
                    );
                let a = head[k].fullname@;
                let b = last.fullname@;
                assert(plan_entry(names, intent, last) == Some(out[j]));
                assert(changed_names(changes)[k] == a);
                assert(changed_names(changes)[changes.len() - 1] == b);
                assert(a != b);
                assert(names.contains(a)) by {
                    assert(head[k] == changes[k]);
                }
                assert(names.contains(b)) by {
                    assert(last == changes[changes.len() - 1]);
                }
                assert(names[names.index_of(a)] == a);
                assert(names[names.index_of(b)] == b);
            }
        }
    }
}

/// Whether the solver named each changed package once.
pub fn check_names(changes: &Vec<AptChange>) -> (ok: bool)
    ensures
        ok == named_once(changes@),
{
    let ghost all = changed_names(changes@);
    let mut seen = StringHashSet::new();
    let mut i: usize = 0;
    proof {
        assert(all.take(0).to_set() =~= Set::<Seq<char>>::empty());
    }
    while i < changes.len()
        invariant
            i <= changes@.len(),
            all == changed_names(changes@),
            seen@ == all.take(i as int).to_set(),
            all.take(i as int).no_duplicates(),
        decreases changes@.len() - i,
    {
        let name = &changes[i].fullname;
        if seen.contains(name.as_str()) {
            proof {
                let k = choose|k: int| 0 <= k < i && all.take(i as int)[k] == name@;
                assert(all[k] == all[i as int]);
            }
            return false;
        }
        seen.insert(name.clone());
        proof {
            assert(all.take(i + 1) =~= all.take(i as int).push(all[i as int]));
            all.take(i as int).lemma_push_to_set_commute(all[i as int]);
            let so_far = all.take(i as int);
            let next = all.take(i + 1);
            assert forall|a: int, b: int| 0 <= a < next.len() && 0 <= b < next.len() && a != b implies next[a]
                != next[b] by {
                if a < i && b < i {
                    assert(so_far[a] != so_far[b]);
                } else if a < i {
                    assert(so_far.contains(so_far[a]));
                } else {
                    assert(so_far.contains(so_far[b]));
                }
            }
        }
        i += 1;
    }
    proof {
        assert(all.take(i as int) =~= all);
    }
    true
}

/// Whether the sizes of a changeset can be held.
pub fn check_sizes(changes: &Vec<AptChange>) -> (ok: bool)
    ensures
        ok == sizes_fit(changes@),
{
    let ghost names = changed_names(changes@);
    let ghost nobody = Map::<PackageId, UserIntent>::empty();
    let mut download: u128 = 0;
    let mut size_change: i128 = 0;
    let mut i: usize = 0;
    proof {
        assert(changes@.take(0) =~= Seq::<AptChange>::empty());
    }
    while i < changes.len()
        invariant
            i <= changes@.len(),
            names == changed_names(changes@),
            nobody == Map::<PackageId, UserIntent>::empty(),
            forall|k: int|
                0 <= k < i ==> ((#[trigger] changes@[k]).candidate matches Some(s) ==> s.1
                    <= i64::MAX),
            download == total_download(plan_changes(names, nobody, changes@.take(i as int))),
            size_change == total_size_change(plan_changes(names, nobody, changes@.take(i as int))),
            0 <= download <= i * 0x1_0000_0000_0000_0000,
            within(size_change as int, i as int),
        decreases changes@.len() - i,
    {
        let c = &changes[i];
        proof {
            assert(changes@.take(i + 1).drop_last() =~= changes@.take(i as int));
            assert(changes@.take(i + 1).last() == *c);
            lemma_room(i as int, download as int, size_change as int, 0, 0);
        }
        if let Some((download_size, installed_size)) = c.candidate {
            if installed_size > i64::MAX as u64 {
                return false;
            }
            let ghost before = plan_changes(names, nobody, changes@.take(i as int));
            proof {
                lemma_room(
                    i as int,
                    download as int,
                    size_change as int,
                    download_size as int,
                    installed_size as int,
                );
            }
            if c.marked_install || c.marked_upgrade {
                proof {
                    assert(plan_changes(names, nobody, changes@.take(i + 1)).drop_last() =~= before);
                }
                download = download + download_size as u128;
                size_change = size_change + installed_size as i128;
            } else if c.marked_delete {
                proof {
                    assert(plan_changes(names, nobody, changes@.take(i + 1)).drop_last() =~= before);
                }
                download = download + download_size as u128;
                size_change = size_change - installed_size as i128;
            }
        } else {
            proof {
                let before = plan_changes(names, nobody, changes@.take(i as int));
                if change_action(*c) is Some {
                    assert(plan_changes(names, nobody, changes@.take(i + 1)).drop_last() =~= before);
                }
            }
        }
        i += 1;
    }
    proof {
        assert(changes@.take(i as int) =~= changes@);
    }
    download <= u64::MAX as u128 && size_change >= i64::MIN as i128 && size_change <= i64::MAX as i128
}

} // verus!
