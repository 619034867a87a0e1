//! What holds of the manager whatever the user does.

use crate::apt::{no_marks, AptCache, AptChange};
use crate::manager::{marked_order, reread, unmarked_order, SharedView};
use crate::order::{rearranges, rows_sorted, rows_sorted_by};
use crate::planner::{
    changed_names, each_once, lemma_plan_more_names, plan_changes, plan_of, requests_for, SolverOutcome,
};
use crate::projection::{lemma_widths_fit, widths_of};
use crate::registry::lemma_register_all_keeps;
use crate::search::{fts_pattern, without_quotes};
use crate::state::{planned, ManagerState};
use crate::text::{scan_words, white_space, words_of};
use crate::toggle::{
    drop_each, ids_of, lemma_drop_each_keeps, requests_behind, toggled, ToggleStage,
    ToggleStepView,
};
use crate::types::{
    ChangeReason, PackageId, PackageInfoView, SortBy, ToggleResultView, UserIntent,
};
use vstd::prelude::*;
use vstd::utf8::encode_utf8;

verus! {

// ============================================================================
// Intent is the single source of truth
// ============================================================================

/// A gesture that changes marks.
pub ghost enum Gesture {
    MarkInstall(PackageId),
    MarkRemove(PackageId),
    Unmark(PackageId),
    Reset,
}

/// The intent and its order after a gesture, as the contracts of
/// `mark_install`, `mark_remove`, `unmark` and `reset` state them.
pub open spec fn after(s: SharedView, g: Gesture) -> SharedView {
    match g {
        Gesture::MarkInstall(id) => SharedView {
            intent: s.intent.insert(id, UserIntent::Install),
            order: marked_order(s, id),
            ..s
        },
        Gesture::MarkRemove(id) => SharedView {
            intent: s.intent.insert(id, UserIntent::Remove),
            order: marked_order(s, id),
            ..s
        },
        Gesture::Unmark(id) => SharedView {
            intent: s.intent.remove(id),
            order: unmarked_order(s, id),
            ..s
        },
        Gesture::Reset => SharedView { intent: Map::empty(), order: Seq::empty(), ..s },
    }
}

/// The intent and its order after gestures, one after the other.
pub open spec fn after_all(s: SharedView, gestures: Seq<Gesture>) -> SharedView
    decreases gestures.len(),
{
    if gestures.len() == 0 {
        s
    } else {
        after(after_all(s, gestures.drop_last()), gestures.last())
    }
}

/// Gestures make the same intent of the same intent, whatever else differs.
pub proof fn lemma_gestures_see_intent_only(s: SharedView, t: SharedView, gestures: Seq<Gesture>)
    requires
        s.intent == t.intent,
        s.order == t.order,
    ensures
        after_all(s, gestures).intent == after_all(t, gestures).intent,
        after_all(s, gestures).order == after_all(t, gestures).order,
    decreases gestures.len(),
{
    if gestures.len() > 0 {
        lemma_gestures_see_intent_only(s, t, gestures.drop_last());
    }
}

/// Intent is authoritative: after a reset, the same gestures lead to the
/// same intent, the same requests to the solver and, for the same answer of
/// the solver, the same plan, whatever happened before the reset.
pub proof fn lemma_intent_is_authoritative(
    s: SharedView,
    t: SharedView,
    gestures: Seq<Gesture>,
    names: Seq<Seq<char>>,
    changes: Seq<AptChange>,
    failure: Option<Vec<String>>,
)
    ensures
        after_all(after(s, Gesture::Reset), gestures).intent == after_all(
            after(t, Gesture::Reset),
            gestures,
        ).intent,
        requests_for(names, after_all(after(s, Gesture::Reset), gestures).intent) == requests_for(
            names,
            after_all(after(t, Gesture::Reset), gestures).intent,
        ),
        plan_of(names, after_all(after(s, Gesture::Reset), gestures).intent, changes, failure)
            == plan_of(
            names,
            after_all(after(t, Gesture::Reset), gestures).intent,
            changes,
            failure,
        ),
{
    lemma_gestures_see_intent_only(after(s, Gesture::Reset), after(t, Gesture::Reset), gestures);
}

/// The plan depends on the intent only, not on the history. Two managers
/// over the same records and handles whose intents agree, however they were
/// reached,
/// hand the same requests to the solver, and for the same answer of the
/// solver they come to the same plan and the same catalog.
pub proof fn lemma_plan_follows_intent(
    a: ManagerState,
    b: ManagerState,
    outcome: SolverOutcome,
    planned_a: ManagerState,
    planned_b: ManagerState,
)
    requires
        a.wf(),
        b.wf(),
        a is Dirty,
        b is Dirty,
        a.shared().cache.names() == b.shared().cache.names(),
        a.shared().cache.entries() == b.shared().cache.entries(),
        a.shared().intent == b.shared().intent,
        planned(a, planned_a, outcome),
        planned(b, planned_b, outcome),
    ensures
        requests_for(a.shared().cache.names(), a.shared().intent) == requests_for(
            b.shared().cache.names(),
            b.shared().intent,
        ),
        planned_a.plan() == planned_b.plan(),
        planned_a.changes() == planned_b.changes(),
        planned_a.shared().intent == planned_b.shared().intent,
        planned_a.shared().cache.names() == planned_b.shared().cache.names(),
        planned_a.shared().cache.entries() == planned_b.shared().cache.entries(),
{
}

/// Marking two different packages in either order gives the same intent,
/// the same requests to the solver and, for the same answer of the solver,
/// the same plan.
pub proof fn lemma_marks_commute(
    s: SharedView,
    a: PackageId,
    b: PackageId,
    names: Seq<Seq<char>>,
    changes: Seq<AptChange>,
    failure: Option<Vec<String>>,
)
    requires
        a != b,
    ensures
        after(after(s, Gesture::MarkInstall(a)), Gesture::MarkInstall(b)).intent == after(
            after(s, Gesture::MarkInstall(b)),
            Gesture::MarkInstall(a),
        ).intent,
        requests_for(
            names,
            after(after(s, Gesture::MarkInstall(a)), Gesture::MarkInstall(b)).intent,
        ) == requests_for(
            names,
            after(after(s, Gesture::MarkInstall(b)), Gesture::MarkInstall(a)).intent,
        ),
        plan_of(
            names,
            after(after(s, Gesture::MarkInstall(a)), Gesture::MarkInstall(b)).intent,
            changes,
            failure,
        ) == plan_of(
            names,
            after(after(s, Gesture::MarkInstall(b)), Gesture::MarkInstall(a)).intent,
            changes,
            failure,
        ),
{
    let ab = after(after(s, Gesture::MarkInstall(a)), Gesture::MarkInstall(b)).intent;
    let ba = after(after(s, Gesture::MarkInstall(b)), Gesture::MarkInstall(a)).intent;
    assert(ab =~= ba);
}

// ============================================================================
// The lifecycle
// ============================================================================

/// The manager is clean exactly when the user has marked nothing, and a
/// clean manager has no plan and no mark of the solver in its catalog. A
/// plan changes no package twice, and a change is the user's exactly when
/// the user stated an intent for its package.
pub proof fn lemma_lifecycle(s: ManagerState)
    requires
        s.wf(),
    ensures
        s is Clean <==> s.shared().intent == Map::<PackageId, UserIntent>::empty(),
        s is Clean ==> s.plan() is None && s.changes().len() == 0,
        s is Clean ==> no_marks(s.shared().cache.entries()),
        each_once(s.changes()),
        s is Clean || s is Dirty || s is Planned,
        forall|i: int|
            0 <= i < s.changes().len() ==> ((#[trigger] s.changes()[i]).reason
                == ChangeReason::UserRequested <==> s.shared().intent.contains_key(
                s.changes()[i].package,
            )),
{
}

/// Refresh safety: after a fresh reading of the catalog every handle still
/// stands for the name it stood for.
pub proof fn lemma_refresh_keeps_handles(
    before: AptCache,
    after: AptCache,
    records: Seq<crate::apt::PackageRecord>,
    id: PackageId,
)
    requires
        reread(before, after, records),
        before.valid(id),
    ensures
        after.valid(id),
        after.names()[id.0 as int] == before.names()[id.0 as int],
{
}

// ============================================================================
// Toggle
// ============================================================================

/// What taking requests back does to the intent: the requests are gone,
/// everything else stays.
pub proof fn lemma_drop_each_intent(s: SharedView, ids: Seq<PackageId>)
    ensures
        forall|id: PackageId| #[trigger]
            drop_each(s, ids).intent.contains_key(id) <==> s.intent.contains_key(id)
                && !ids.contains(id),
        forall|id: PackageId| #[trigger]
            drop_each(s, ids).intent.contains_key(id) ==> drop_each(s, ids).intent[id]
                == s.intent[id],
    decreases ids.len(),
{
    if ids.len() > 0 {
        let head = ids.drop_last();
        lemma_drop_each_intent(s, head);
        let t = drop_each(s, head);
        assert(drop_each(s, ids).intent == t.intent.remove(ids.last()));
        assert forall|id: PackageId| #[trigger]
            drop_each(s, ids).intent.contains_key(id) implies drop_each(s, ids).intent[id]
            == s.intent[id] by {
            assert(t.intent.contains_key(id));
        }
        assert forall|id: PackageId| #[trigger]
            drop_each(s, ids).intent.contains_key(id) <==> s.intent.contains_key(id)
                && !ids.contains(id) by {
            let in_head = t.intent.contains_key(id);
            if ids.contains(id) {
                let k = choose|k: int| 0 <= k < ids.len() && ids[k] == id;
                if k < head.len() {
                    assert(head[k] == id);
                }
            }
            if head.contains(id) {
                let k = choose|k: int| 0 <= k < head.len() && head[k] == id;
                assert(ids[k] == id);
            }
            if id == ids.last() {
                assert(ids[ids.len() - 1] == id);
            }
        }
    }
}

/// Toggling a package that the solver marked for someone else either takes
/// at least one user request back or changes nothing and says so.
pub proof fn lemma_unmark_dependency(
    pre: ManagerState,
    post: ManagerState,
    target: PackageId,
    step: ToggleStepView,
)
    requires
        pre.wf(),
        !(pre is Dirty),
        ids_of(pre.changes()).contains(target),
        !pre.shared().intent.contains_key(target),
        toggled(pre, post, target, ToggleStage::Probing, Seq::empty(), step),
    ensures
        (post == pre && step == ToggleStepView::Done(ToggleResultView::NoChange { package: target }))
            || (exists|u: PackageId|
            pre.shared().intent.contains_key(u) && !post.shared().intent.contains_key(u)),
        forall|u: PackageId|
            post.shared().intent.contains_key(u) ==> pre.shared().intent.contains_key(u),
{
    let behind = requests_behind(pre.shared(), target);
    lemma_drop_each_intent(pre.shared(), behind);
    lemma_drop_each_keeps(pre.shared(), behind);
    if behind.len() > 0 {
        let u = behind[0];
        assert(behind.contains(u));
        let keep = |u: PackageId|
            crate::cascade::accounts_for(
                pre.shared().cache,
                u,
                pre.shared().cache.names()[target.0 as int],
            );
        if pre.shared().cache.valid(target) {
            pre.shared().order.lemma_filter_contains_rev(keep, u);
            assert(pre.shared().order.contains(u));
        }
        match pre {
            ManagerState::Planned(m) => {
                m.base().lemma_wf();
            },
            ManagerState::Clean(m) => {
                m.base().lemma_wf();
            },
            _ => {},
        }
        assert(pre.shared().intent.contains_key(u));
        assert(!drop_each(pre.shared(), behind).intent.contains_key(u));
    }
}

/// Toggle is involutive for user marks. Take a package that the user
/// marked for install and that is in the changeset. Toggling it takes the
/// mark back; once the package has left the changeset, toggling it again
/// marks it again, and the intent is what it was. Where the solver then
/// answers as it did for the plan that stood, the changeset is what it was.
pub proof fn lemma_toggle_twice(
    a: ManagerState,
    b: ManagerState,
    c: ManagerState,
    d: ManagerState,
    e: ManagerState,
    h: PackageId,
    unmark_step: ToggleStepView,
    mark_step: ToggleStepView,
    outcome: SolverOutcome,
)
    requires
        a.wf(),
        c.wf(),
        e.wf(),
        a is Planned,
        a.shared().intent.contains_key(h),
        a.shared().intent[h] == UserIntent::Install,
        ids_of(a.changes()).contains(h),
        // the first toggle, up to where it asks for the solver or is done
        toggled(a, b, h, ToggleStage::Probing, Seq::empty(), unmark_step),
        // the state once the first toggle is done
        c.shared().intent == b.shared().intent,
        a.shared().cache.names().is_prefix_of(c.shared().cache.names()),
        !(c is Dirty),
        !ids_of(c.changes()).contains(h),
        // the second toggle and the plan for it
        toggled(c, d, h, ToggleStage::Probing, Seq::empty(), mark_step),
        planned(d, e, outcome),
        // the solver answers as it did for the plan that stood
        a.changes() == plan_changes(a.shared().cache.names(), a.shared().intent, outcome.changes@),
        forall|i: int|
            0 <= i < outcome.changes@.len() ==> a.shared().cache.names().contains(
                #[trigger] outcome.changes@[i].fullname@,
            ),
    ensures
        e.shared().intent == a.shared().intent,
        e.changes() == a.changes(),
{
    let behind = requests_behind(a.shared(), h);
    assert(behind == seq![h]);
    assert(behind.drop_last() =~= Seq::<PackageId>::empty());
    assert(behind.last() == h);
    let s = drop_each(a.shared(), behind);
    assert(drop_each(a.shared(), behind.drop_last()) == a.shared());
    assert(s.intent == a.shared().intent.remove(h));
    assert(b.shared().intent == a.shared().intent.remove(h));
    assert(d.shared().intent == c.shared().intent.insert(h, UserIntent::Install));
    assert(d.shared().intent =~= a.shared().intent);
    // handles are stable from the plan that stood to the new plan
    let names_a = a.shared().cache.names();
    let names_d = d.shared().cache.names();
    let names_e = e.shared().cache.names();
    assert(names_d == c.shared().cache.names());
    lemma_register_all_keeps(names_d, changed_names(outcome.changes@));
    match e {
        ManagerState::Planned(m) => {
            m.base().lemma_wf();
            m.base()@.cache.lemma_handles_one_to_one();
        },
        _ => {},
    }
    assert(names_a.is_prefix_of(names_e));
    lemma_plan_more_names(names_a, names_e, a.shared().intent, outcome.changes@);
}

// ============================================================================
// Search
// ============================================================================

/// A text without white space is one word.
pub proof fn lemma_one_word(q: Seq<char>)
    requires
        forall|i: int| 0 <= i < q.len() ==> !white_space(#[trigger] q[i]),
    ensures
        scan_words(q) == (Seq::<Seq<char>>::empty(), q),
    decreases q.len(),
{
    if q.len() > 0 {
        let head = q.drop_last();
        assert forall|i: int| 0 <= i < head.len() implies !white_space(#[trigger] head[i]) by {
            assert(head[i] == q[i]);
        }
        lemma_one_word(head);
        assert(head.push(q.last()) =~= q);
        assert(!white_space(q[q.len() - 1]));
    } else {
        assert(q =~= Seq::<char>::empty());
    }
}

/// A word without double quotes stays as it is.
pub proof fn lemma_no_quotes(w: Seq<char>)
    requires
        forall|i: int| 0 <= i < w.len() ==> #[trigger] w[i] != '"',
    ensures
        without_quotes(w) == w,
    decreases w.len(),
{
    reveal(Seq::filter);
    if w.len() > 0 {
        let head = w.drop_last();
        assert forall|i: int| 0 <= i < head.len() implies #[trigger] head[i] != '"' by {
            assert(head[i] == w[i]);
        }
        lemma_no_quotes(head);
        assert(w[w.len() - 1] != '"');
        assert(head.push(w.last()) =~= w);
    } else {
        assert(without_quotes(w) =~= w);
    }
}

/// A query of one plain word searches for the words that start with it: the
/// pattern handed to the full-text engine is the word with the prefix sign.
pub proof fn lemma_prefix_query(q: Seq<char>)
    requires
        q.len() > 0,
        forall|i: int| 0 <= i < q.len() ==> !white_space(#[trigger] q[i]) && q[i] != '"',
    ensures
        fts_pattern(q) == q.push('*'),
{
    lemma_one_word(q);
    lemma_no_quotes(q);
    let words = words_of(q);
    assert(words =~= seq![q]);
    assert(words[0] == q);
}

// ============================================================================
// Column widths
// ============================================================================

/// Column widths fit the content of the current list: every width is at
/// least the length of each row's text in that column, or the widest that
/// 16 bits hold where the text is longer, and never less than the width of
/// an empty table. `pre` are the rows as projected, `list` the rows as
/// sorted.
pub proof fn lemma_list_widths_fit(
    cache: AptCache,
    pre: Seq<PackageInfoView>,
    list: Seq<PackageInfoView>,
    by: SortBy,
    ascending: bool,
    i: int,
)
    requires
        rows_sorted(pre, list, by, ascending),
        0 <= i < list.len(),
    ensures
        widths_of(cache, pre).name >= 10,
        widths_of(cache, pre).section >= 7,
        widths_of(cache, pre).installed >= 9,
        widths_of(cache, pre).candidate >= 9,
        widths_of(cache, pre).name >= encode_utf8(cache.shown_name(list[i].name)).len()
            || widths_of(cache, pre).name == u16::MAX,
        widths_of(cache, pre).section >= encode_utf8(list[i].section).len() || widths_of(
            cache,
            pre,
        ).section == u16::MAX,
        widths_of(cache, pre).installed >= encode_utf8(list[i].installed_version).len()
            || widths_of(cache, pre).installed == u16::MAX,
        widths_of(cache, pre).candidate >= encode_utf8(list[i].candidate_version).len()
            || widths_of(cache, pre).candidate == u16::MAX,
{
    let picks = choose|picks: Seq<int>| rows_sorted_by(pre, list, picks, by, ascending);
    assert(rearranges(pre, list, picks));
    assert(list[i] == pre[picks[i]]);
    lemma_widths_fit(cache, pre, picks[i]);
}

} // verus!
