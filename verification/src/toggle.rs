//! The toggle engine: marking and unmarking one package with cascade.
//!
//! A toggle needs the plan to know whether its package is marked, and a new
//! plan to know what the toggle brought with it or took away. The solver is
//! run by the driver, so a toggle proceeds in steps: each step either asks
//! for the solver or is done. After the solver has run and its outcome has
//! gone to `ManagerState::compute_plan`, the toggle is resumed with the
//! session that the step handed out.

use crate::cascade::culprits;
use crate::manager::{cleared, list_current, marked_order, unmarked_order, PackageManager, SharedView};
use crate::planner::{requests_for, requests_view, MarkRequest, MarkRequestView};
use crate::state::ManagerState;
use crate::types::{
    Dirty, PackageId, PlannedChange, ToggleResult, ToggleResultView, UserIntent,
};
use vstd::prelude::*;

verus! {

/// Where a toggle stands.
#[derive(Debug, Clone, Copy, PartialEq, Eq, Structural)]
pub enum ToggleStage {
    /// The toggle has yet to see whether its package is marked.
    Probing,
    /// The package was marked; the new plan will show what came with it.
    Marking,
    /// User requests were taken back; the new plan will show what went.
    Unmarking,
}

/// A toggle that waits for the solver.
#[derive(Debug)]
pub struct ToggleSession {
    pub target: PackageId,
    pub stage: ToggleStage,
    /// The handles of the changeset before the toggle changed any mark.
    pub before: Vec<PackageId>,
}

/// What a step of a toggle came to.
#[derive(Debug)]
pub enum ToggleStep {
    /// The solver has to run on `requests`. Its outcome goes to
    /// `ManagerState::compute_plan`, and `session` to
    /// `ManagerState::toggle_resume`.
    Solve { requests: Vec<MarkRequest>, session: ToggleSession },
    /// The toggle is done.
    Done(ToggleResult),
}

/// A step of a toggle as plain values.
pub ghost enum ToggleStepView {
    Solve {
        requests: Seq<MarkRequestView>,
        target: PackageId,
        stage: ToggleStage,
        before: Seq<PackageId>,
    },
    Done(ToggleResultView),
}

impl View for ToggleStep {
    type V = ToggleStepView;

    open spec fn view(&self) -> ToggleStepView {
        match *self {
            ToggleStep::Solve { requests, session } => ToggleStepView::Solve {
                requests: requests_view(requests@),
                target: session.target,
                stage: session.stage,
                before: session.before@,
            },
            ToggleStep::Done(result) => ToggleStepView::Done(result@),
        }
    }
}

// ============================================================================
// What a toggle does
// ============================================================================

/// The handles of a changeset, in its order.
pub open spec fn ids_of(changes: Seq<PlannedChange>) -> Seq<PackageId> {
    Seq::new(changes.len(), |i: int| changes[i].package)
}

/// The handles of `from` that are not among `among`, the target left out.
pub open spec fn others_missing(
    from: Seq<PackageId>,
    among: Seq<PackageId>,
    target: PackageId,
) -> Seq<PackageId> {
    from.filter(|p: PackageId| !among.contains(p) && p != target)
}

/// The shared state once the intent for each of `ids` has been taken back.
pub open spec fn drop_each(s: SharedView, ids: Seq<PackageId>) -> SharedView
    decreases ids.len(),
{
    if ids.len() == 0 {
        s
    } else {
        let t = drop_each(s, ids.drop_last());
        SharedView { intent: t.intent.remove(ids.last()), order: unmarked_order(t, ids.last()), ..t }
    }
}

/// The user requests that a toggle takes back to unmark `target`: the
/// request for the package itself where the user made one, else the
/// requests that account for the package.
pub open spec fn requests_behind(s: SharedView, target: PackageId) -> Seq<PackageId> {
    if s.intent.contains_key(target) {
        seq![target]
    } else {
        culprits(s.cache, s.order, target)
    }
}

/// The step that asks for the solver on the marks of `s`.
pub open spec fn solve_step(
    s: SharedView,
    target: PackageId,
    stage: ToggleStage,
    before: Seq<PackageId>,
) -> ToggleStepView {
    ToggleStepView::Solve {
        requests: requests_for(s.cache.names(), s.intent),
        target,
        stage,
        before,
    }
}

/// `post` is `pre` with the package list rebuilt.
pub open spec fn relisted(pre: ManagerState, post: ManagerState) -> bool {
    &&& post.phase() == pre.phase()
    &&& post.plan() == pre.plan()
    &&& post.shared() == (SharedView { list: post.shared().list, ..pre.shared() })
    &&& list_current(post.shared(), pre.changes())
}

/// What a toggle does once the plan is at hand. A package outside the
/// changeset is marked for install, which needs the solver. For a package in
/// the changeset the user requests behind it are taken back: with none to
/// take back nothing changes; with no request left the manager is clean and
/// everything else in the old changeset went with the package; else the
/// solver is needed.
pub open spec fn probed(
    pre: ManagerState,
    post: ManagerState,
    target: PackageId,
    step: ToggleStepView,
) -> bool {
    let ids = ids_of(pre.changes());
    if !ids.contains(target) {
        &&& post is Dirty
        &&& post.shared() == (SharedView {
            intent: pre.shared().intent.insert(target, UserIntent::Install),
            order: marked_order(pre.shared(), target),
            ..pre.shared()
        })
        &&& step == solve_step(post.shared(), target, ToggleStage::Marking, ids)
    } else {
        let behind = requests_behind(pre.shared(), target);
        if behind.len() == 0 {
            post == pre && step == ToggleStepView::Done(ToggleResultView::NoChange { package: target })
        } else {
            let s = drop_each(pre.shared(), behind);
            if s.intent == Map::<PackageId, UserIntent>::empty() {
                &&& post is Clean
                &&& cleared(pre.shared().cache, post.shared().cache)
                &&& post.shared() == (SharedView {
                    cache: post.shared().cache,
                    list: post.shared().list,
                    ..s
                })
                &&& list_current(post.shared(), Seq::empty())
                &&& step == ToggleStepView::Done(
                    ToggleResultView::Unmarked {
                        package: target,
                        also_unmarked: others_missing(ids, Seq::empty(), target),
                    },
                )
            } else {
                &&& post is Dirty
                &&& post.shared() == s
                &&& step == solve_step(s, target, ToggleStage::Unmarking, ids)
            }
        }
    }
}

/// What a step of a toggle does. While marks await a plan, it asks for the
/// solver and changes nothing. With the plan at hand, a toggle that probes
/// goes on as `probed` says; one that marked reports what is new in the
/// changeset; one that unmarked reports what left the changeset, or
/// `NoChange` where its package is still in it, though the requests behind
/// it stay taken back.
pub open spec fn toggled(
    pre: ManagerState,
    post: ManagerState,
    target: PackageId,
    stage: ToggleStage,
    before: Seq<PackageId>,
    step: ToggleStepView,
) -> bool {
    let ids = ids_of(pre.changes());
    if pre is Dirty {
        post == pre && step == solve_step(pre.shared(), target, stage, before)
    } else {
        match stage {
            ToggleStage::Probing => probed(pre, post, target, step),
            ToggleStage::Marking => relisted(pre, post) && step == ToggleStepView::Done(
                ToggleResultView::Marked {
                    package: target,
                    additional: others_missing(ids, before, target),
                },
            ),
            ToggleStage::Unmarking => relisted(pre, post) && step == ToggleStepView::Done(
                if ids.contains(target) {
                    ToggleResultView::NoChange { package: target }
                } else {
                    ToggleResultView::Unmarked {
                        package: target,
                        also_unmarked: others_missing(before, ids, target),
                    }
                },
            ),
        }
    }
}

/// Taking requests back changes the intent and its order, nothing else.
pub proof fn lemma_drop_each_keeps(s: SharedView, ids: Seq<PackageId>)
    ensures
        drop_each(s, ids) == (SharedView {
            intent: drop_each(s, ids).intent,
            order: drop_each(s, ids).order,
            ..s
        }),
    decreases ids.len(),
{
    if ids.len() > 0 {
        lemma_drop_each_keeps(s, ids.drop_last());
    }
}

proof fn lemma_missing_step(from: Seq<PackageId>, among: Seq<PackageId>, target: PackageId, i: int)
    requires
        0 <= i < from.len(),
    ensures
        others_missing(from.take(i + 1), among, target) == if !among.contains(from[i]) && from[i]
            != target {
            others_missing(from.take(i), among, target).push(from[i])
        } else {
            others_missing(from.take(i), among, target)
        },
{
    reveal(Seq::filter);
    assert(from.take(i + 1).drop_last() =~= from.take(i));
    assert(from.take(i + 1).last() == from[i]);
}

/// The handles of `from` that are not among `among`, the target left out.
pub fn missing_from(from: &Vec<PackageId>, among: &Vec<PackageId>, target: PackageId) -> (r: Vec<
    PackageId,
>)
    ensures
        r@ == others_missing(from@, among@, target),
{
    let mut r: Vec<PackageId> = Vec::new();
    let mut i: usize = 0;
    proof {
        reveal(Seq::filter);
        assert(from@.take(0) =~= Seq::<PackageId>::empty());
        assert(others_missing(from@.take(0), among@, target) =~= Seq::<PackageId>::empty());
    }
    while i < from.len()
        invariant
            i <= from@.len(),
            r@ == others_missing(from@.take(i as int), among@, target),
        decreases from@.len() - i,
    {
        proof {
            lemma_missing_step(from@, among@, target, i as int);
        }
        let p = from[i];
        if !crate::manager::id_among(among, p) && p != target {
            r.push(p);
        }
        i += 1;
    }
    proof {
        assert(from@.take(i as int) =~= from@);
    }
    r
}

impl ManagerState {
    /// The handles of the changeset, in its order; none without a plan.
    pub fn changeset_ids(&self) -> (ids: Vec<PackageId>)
        ensures
            ids@ == ids_of(self.changes()),
    {
        let mut ids: Vec<PackageId> = Vec::new();
        match self.planned_changes() {
            Some(changes) => {
                let mut i: usize = 0;
                while i < changes.len()
                    invariant
                        i <= changes@.len(),
                        ids@ == ids_of(changes@).take(i as int),
                    decreases changes@.len() - i,
                {
                    ids.push(changes[i].package);
                    i += 1;
                    assert(ids@ =~= ids_of(changes@).take(i as int));
                }
                assert(ids_of(changes@).take(i as int) =~= ids_of(changes@));
            },
            None => {
                assert(ids@ =~= ids_of(self.changes()));
            },
        }
        ids
    }

    /// Takes the user requests `behind` back, all at once.
    fn drop_marks(&mut self, behind: &Vec<PackageId>)
        requires
            old(self).wf(),
            *old(self) is Planned,
            behind@.len() > 0,
        ensures
            final(self).wf(),
            ({
                let s = drop_each(old(self).shared(), behind@);
                if s.intent == Map::<PackageId, UserIntent>::empty() {
                    &&& *final(self) is Clean
                    &&& cleared(old(self).shared().cache, final(self).shared().cache)
                    &&& final(self).shared() == (SharedView {
                        cache: final(self).shared().cache,
                        ..s
                    })
                } else {
                    *final(self) is Dirty && final(self).shared() == s
                }
            }),
    {
        let mut current = ManagerState::Transitioning;
        core::mem::swap(self, &mut current);
        let planned = match current {
            ManagerState::Planned(m) => m,
            _ => vstd::pervasive::unreached(),
        };
        let ghost start = planned.base()@;
        let mut dirty: PackageManager<Dirty> = planned.modify();
        let mut i: usize = 0;
        proof {
            assert(behind@.take(0) =~= Seq::<PackageId>::empty());
        }
        while i < behind.len()
            invariant
                i <= behind@.len(),
                dirty.base().wf(),
                dirty.base()@ == drop_each(start, behind@.take(i as int)),
            decreases behind@.len() - i,
        {
            proof {
                assert(behind@.take(i + 1).drop_last() =~= behind@.take(i as int));
                assert(behind@.take(i + 1).last() == behind@[i as int]);
            }
            dirty = dirty.unmark(behind[i]);
            i += 1;
        }
        proof {
            assert(behind@.take(i as int) =~= behind@);
            lemma_drop_each_keeps(start, behind@);
        }
        let marks = dirty.has_marks();
        proof {
            if !marks {
                assert(dirty.base()@.order =~= Seq::<PackageId>::empty());
            }
        }
        *self = if marks {
            ManagerState::Dirty(dirty)
        } else {
            ManagerState::Clean(dirty.reset())
        };
    }

    /// The user requests that a toggle takes back to unmark `target`.
    fn behind(&self, target: PackageId) -> (r: Vec<PackageId>)
        requires
            self.wf(),
        ensures
            r@ == requests_behind(self.shared(), target),
    {
        if self.is_user_marked(target) {
            let mut r: Vec<PackageId> = Vec::new();
            r.push(target);
            assert(r@ =~= seq![target]);
            r
        } else {
            match self {
                ManagerState::Clean(m) => m.culprits_of(target),
                ManagerState::Dirty(m) => m.culprits_of(target),
                ManagerState::Planned(m) => m.culprits_of(target),
                ManagerState::Transitioning => Vec::new(),
            }
        }
    }

    /// The step of a toggle that has the plan at hand.
    fn probe(&mut self, target: PackageId) -> (step: ToggleStep)
        requires
            old(self).wf(),
            !(*old(self) is Dirty),
        ensures
            final(self).wf(),
            probed(*old(self), *final(self), target, step@),
    {
        let before = self.changeset_ids();
        if !crate::manager::id_among(&before, target) {
            self.mark_install(target);
            let requests = self.solver_requests().unwrap();
            return ToggleStep::Solve {
                requests,
                session: ToggleSession { target, stage: ToggleStage::Marking, before },
            };
        }
        let behind = self.behind(target);
        if behind.len() == 0 {
            return ToggleStep::Done(ToggleResult::NoChange { package: target });
        }
        self.drop_marks(&behind);
        match self.solver_requests() {
            Some(requests) => ToggleStep::Solve {
                requests,
                session: ToggleSession { target, stage: ToggleStage::Unmarking, before },
            },
            None => {
                self.rebuild_list();
                let nothing: Vec<PackageId> = Vec::new();
                let also_unmarked = missing_from(&before, &nothing, target);
                ToggleStep::Done(ToggleResult::Unmarked { package: target, also_unmarked })
            },
        }
    }

    /// Toggles the mark of a package, with cascade.
    ///
    /// A package that is not in the changeset is marked for install, and the
    /// toggle reports what the solver marks with it. A package that is in
    /// the changeset is unmarked: where the user marked it, that request is
    /// taken back; where the solver marked it, the user requests that depend
    /// on it are taken back. The toggle reports what leaves the changeset
    /// with the package. It reports `NoChange` where no user request
    /// accounts for the package, and also where requests were taken back and
    /// the package is in the new changeset all the same: those requests stay
    /// taken back.
    pub fn toggle(&mut self, id: PackageId) -> (step: ToggleStep)
        requires
            old(self).wf(),
        ensures
            final(self).wf(),
            toggled(*old(self), *final(self), id, ToggleStage::Probing, Seq::empty(), step@),
    {
        self.toggle_resume(ToggleSession { target: id, stage: ToggleStage::Probing, before: Vec::new() })
    }

    /// Takes a toggle up again after the solver has run and its outcome has
    /// gone to `compute_plan`.
    pub fn toggle_resume(&mut self, session: ToggleSession) -> (step: ToggleStep)
        requires
            old(self).wf(),
        ensures
            final(self).wf(),
            toggled(
                *old(self),
                *final(self),
                session.target,
                session.stage,
                session.before@,
                step@,
            ),
    {
        if let Some(requests) = self.solver_requests() {
            return ToggleStep::Solve { requests, session };
        }
        let target = session.target;
        match session.stage {
            ToggleStage::Probing => self.probe(target),
            ToggleStage::Marking => {
                let after = self.changeset_ids();
                self.rebuild_list();
                let additional = missing_from(&after, &session.before, target);
                ToggleStep::Done(ToggleResult::Marked { package: target, additional })
            },
            ToggleStage::Unmarking => {
                let after = self.changeset_ids();
                self.rebuild_list();
                if crate::manager::id_among(&after, target) {
                    ToggleStep::Done(ToggleResult::NoChange { package: target })
                } else {
                    let also_unmarked = missing_from(&session.before, &after, target);
                    ToggleStep::Done(ToggleResult::Unmarked { package: target, also_unmarked })
                }
            },
        }
    }
}

} // verus!
