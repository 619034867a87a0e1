//! The list projection: the filtered view of the catalog with the status of
//! each package as the user sees it, and the column widths that fit it.

use crate::apt::{base_info, first_named, AptCache, PackageRecord};
use crate::intent::IntentStore;
use crate::types::{
    rows, ChangeAction, ColumnWidths, FilterCategory, PackageId, PackageInfo, PackageInfoView,
    PackageStatus, PlannedChange, UserIntent,
};
use vstd::hash_set::StringHashSet;
use vstd::prelude::*;
use vstd::string::*;
use vstd::utf8::encode_utf8;

verus! {

// ============================================================================
// Filter
// ============================================================================

/// Whether a category admits a package. Marked changes are the packages
/// that the user marked and those that the solver marked.
pub open spec fn admits(filter: FilterCategory, r: PackageRecord, user_marked: bool) -> bool {
    match filter {
        FilterCategory::Upgradable => r.state.is_upgradable,
        FilterCategory::MarkedChanges => user_marked || r.state.has_mark(),
        FilterCategory::Installed => r.state.is_installed,
        FilterCategory::NotInstalled => !r.state.is_installed,
        FilterCategory::All => true,
    }
}

/// Whether a search admits a package: with no search active every package
/// is admitted, else those whose name without architecture was found.
pub open spec fn in_search(found: Option<Set<Seq<char>>>, r: PackageRecord) -> bool {
    match found {
        Some(names) => names.contains(r.name@),
        None => true,
    }
}

/// Whether the user stated an intent for the package called `name`.
pub open spec fn user_marked(
    cache: AptCache,
    intent: Map<PackageId, UserIntent>,
    name: Seq<char>,
) -> bool {
    cache.knows(name) && intent.contains_key(cache.id_of(name))
}

// ============================================================================
// Status
// ============================================================================

/// The status of a package for which the user stated an intent.
pub open spec fn overlay(status: PackageStatus, intent: UserIntent) -> PackageStatus {
    match intent {
        UserIntent::Install => if status == PackageStatus::Upgradable {
            PackageStatus::MarkedForUpgrade
        } else {
            PackageStatus::MarkedForInstall
        },
        UserIntent::Remove => PackageStatus::MarkedForRemove,
        UserIntent::Hold => PackageStatus::Keep,
        UserIntent::Default => status,
    }
}

/// The status of a package that the plan changes.
pub open spec fn promoted(action: ChangeAction) -> PackageStatus {
    match action {
        ChangeAction::Install => PackageStatus::MarkedForInstall,
        ChangeAction::Upgrade => PackageStatus::MarkedForUpgrade,
        ChangeAction::Remove => PackageStatus::MarkedForRemove,
        ChangeAction::Downgrade => PackageStatus::MarkedForUpgrade,
    }
}

/// What the plan does to a package: the action of its last change.
pub open spec fn last_action(changes: Seq<PlannedChange>, id: PackageId) -> Option<ChangeAction>
    decreases changes.len(),
{
    if changes.len() == 0 {
        None
    } else if changes.last().package == id {
        Some(changes.last().action)
    } else {
        last_action(changes.drop_last(), id)
    }
}

/// The status shown for a package: the user's intent counts first, then the
/// plan, then the state of the package itself.
pub open spec fn shown_status(
    base: PackageStatus,
    id: PackageId,
    intent: Map<PackageId, UserIntent>,
    changes: Seq<PlannedChange>,
) -> PackageStatus {
    if intent.contains_key(id) {
        overlay(base, intent[id])
    } else {
        match last_action(changes, id) {
            Some(action) => promoted(action),
            None => base,
        }
    }
}

/// What the plan does to a package: the action of its last change.
pub fn planned_action(changes: &Vec<PlannedChange>, id: PackageId) -> (r: Option<ChangeAction>)
    ensures
        r == last_action(changes@, id),
{
    let mut i: usize = changes.len();
    proof {
        assert(changes@.take(changes@.len() as int) =~= changes@);
    }
    while i > 0
        invariant
            i <= changes@.len(),
            last_action(changes@, id) == last_action(changes@.take(i as int), id),
        decreases i,
    {
        proof {
            assert(changes@.take(i as int).drop_last() =~= changes@.take(i - 1));
            assert(changes@.take(i as int).last() == changes@[i - 1]);
        }
        i -= 1;
        if changes[i].package == id {
            return Some(changes[i].action);
        }
    }
    proof {
        assert(changes@.take(changes@.len() as int) =~= changes@);
    }
    None
}

/// The status shown for a package.
pub fn display_status(
    base: PackageStatus,
    id: PackageId,
    intent: &IntentStore,
    changes: &Vec<PlannedChange>,
) -> (status: PackageStatus)
    requires
        intent.wf(),
    ensures
        status == shown_status(base, id, intent@, changes@),
{
    proof {
        intent.lemma_view();
    }
    match intent.get(id) {
        UserIntent::Install => {
            if base == PackageStatus::Upgradable {
                PackageStatus::MarkedForUpgrade
            } else {
                PackageStatus::MarkedForInstall
            }
        },
        UserIntent::Remove => PackageStatus::MarkedForRemove,
        UserIntent::Hold => PackageStatus::Keep,
        UserIntent::Default => match planned_action(changes, id) {
            Some(ChangeAction::Install) => PackageStatus::MarkedForInstall,
            Some(ChangeAction::Upgrade) => PackageStatus::MarkedForUpgrade,
            Some(ChangeAction::Remove) => PackageStatus::MarkedForRemove,
            Some(ChangeAction::Downgrade) => PackageStatus::MarkedForUpgrade,
            None => base,
        },
    }
}

// ============================================================================
// Rows and widths
// ============================================================================

/// The row of a listed package: the row of its record, with the status as
/// shown.
pub open spec fn row_for(
    cache: AptCache,
    intent: Map<PackageId, UserIntent>,
    changes: Seq<PlannedChange>,
    r: PackageRecord,
) -> PackageInfoView {
    let info = base_info(r, cache.listed_id(r.fullname@));
    PackageInfoView { status: shown_status(info.status, info.id, intent, changes), ..info }
}

/// Whether the record at `at` is listed: the filter and the search admit
/// it, and it is the first record of its full name, so that no package is
/// listed twice.
pub open spec fn listed(
    cache: AptCache,
    intent: Map<PackageId, UserIntent>,
    filter: FilterCategory,
    found: Option<Set<Seq<char>>>,
    at: int,
) -> bool {
    let r = cache.entries()[at];
    &&& first_named(cache.entries(), r.fullname@) == at
    &&& admits(filter, r, user_marked(cache, intent, r.fullname@))
    &&& in_search(found, r)
}

/// The rows of the first `n` records of the catalog that are listed, in
/// catalog order.
pub open spec fn projected_to(
    cache: AptCache,
    n: int,
    intent: Map<PackageId, UserIntent>,
    changes: Seq<PlannedChange>,
    filter: FilterCategory,
    found: Option<Set<Seq<char>>>,
) -> Seq<PackageInfoView>
    decreases n,
{
    if n <= 0 {
        Seq::empty()
    } else {
        let head = projected_to(cache, n - 1, intent, changes, filter, found);
        if listed(cache, intent, filter, found, n - 1) {
            head.push(row_for(cache, intent, changes, cache.entries()[n - 1]))
        } else {
            head
        }
    }
}

/// The rows of the packages that filter and search admit, one for each, in
/// catalog order.
pub open spec fn projected(
    cache: AptCache,
    intent: Map<PackageId, UserIntent>,
    changes: Seq<PlannedChange>,
    filter: FilterCategory,
    found: Option<Set<Seq<char>>>,
) -> Seq<PackageInfoView> {
    projected_to(cache, cache.entries().len() as int, intent, changes, filter, found)
}

/// Where each row of the projection comes from: the listed records, in
/// catalog order.
pub open spec fn listed_positions(
    cache: AptCache,
    n: int,
    intent: Map<PackageId, UserIntent>,
    filter: FilterCategory,
    found: Option<Set<Seq<char>>>,
) -> Seq<int>
    decreases n,
{
    if n <= 0 {
        Seq::empty()
    } else {
        let head = listed_positions(cache, n - 1, intent, filter, found);
        if listed(cache, intent, filter, found, n - 1) {
            head.push(n - 1)
        } else {
            head
        }
    }
}

/// The projection lists exactly the listed records, each once and in
/// catalog order: row `k` is the row of the record at the `k`-th listed
/// position, the positions rise, and every listed position below `n` is
/// among them.
pub proof fn lemma_projected_rows(
    cache: AptCache,
    n: int,
    intent: Map<PackageId, UserIntent>,
    changes: Seq<PlannedChange>,
    filter: FilterCategory,
    found: Option<Set<Seq<char>>>,
)
    requires
        0 <= n <= cache.entries().len(),
    ensures
        ({
            let rows = projected_to(cache, n, intent, changes, filter, found);
            let at = listed_positions(cache, n, intent, filter, found);
            &&& rows.len() == at.len()
            &&& forall|k: int|
                0 <= k < at.len() ==> 0 <= #[trigger] at[k] < n && listed(
                    cache,
                    intent,
                    filter,
                    found,
                    at[k],
                ) && rows[k] == row_for(cache, intent, changes, cache.entries()[at[k]])
            &&& forall|k: int, l: int| 0 <= k < l < at.len() ==> at[k] < at[l]
            &&& forall|p: int|
                0 <= p < n && listed(cache, intent, filter, found, p) ==> at.contains(p)
        }),
    decreases n,
{
    if n > 0 {
        lemma_projected_rows(cache, n - 1, intent, changes, filter, found);
        let head = listed_positions(cache, n - 1, intent, filter, found);
        let at = listed_positions(cache, n, intent, filter, found);
        assert forall|p: int|
            0 <= p < n && listed(cache, intent, filter, found, p) implies at.contains(p) by {
            if p < n - 1 {
                assert(head.contains(p));
                let k = choose|k: int| 0 <= k < head.len() && head[k] == p;
                assert(at[k] == p);
            } else {
                assert(at[at.len() - 1] == p);
            }
        }
    }
}

/// No package is listed twice: the rows of a projection have different
/// names, and different handles.
pub proof fn lemma_projected_once(
    cache: AptCache,
    intent: Map<PackageId, UserIntent>,
    changes: Seq<PlannedChange>,
    filter: FilterCategory,
    found: Option<Set<Seq<char>>>,
    k: int,
    l: int,
)
    requires
        cache.wf(),
        0 <= k < l < projected(cache, intent, changes, filter, found).len(),
    ensures
        projected(cache, intent, changes, filter, found)[k].name != projected(
            cache,
            intent,
            changes,
            filter,
            found,
        )[l].name,
        projected(cache, intent, changes, filter, found)[k].id != projected(
            cache,
            intent,
            changes,
            filter,
            found,
        )[l].id,
{
    let n = cache.entries().len() as int;
    lemma_projected_rows(cache, n, intent, changes, filter, found);
    let at = listed_positions(cache, n, intent, filter, found);
    let a = cache.entries()[at[k]];
    let b = cache.entries()[at[l]];
    assert(at[k] < at[l]);
    assert(listed(cache, intent, filter, found, at[k]));
    assert(listed(cache, intent, filter, found, at[l]));
    if a.fullname@ == b.fullname@ {
        assert(first_named(cache.entries(), a.fullname@) == at[k]);
        assert(first_named(cache.entries(), b.fullname@) == at[l]);
    }
    cache.lemma_handles_one_to_one();
    assert(cache.knows(a.fullname@));
    assert(cache.knows(b.fullname@));
    let i = cache.names().index_of(a.fullname@);
    let j = cache.names().index_of(b.fullname@);
    assert(cache.names()[i] == a.fullname@);
    assert(cache.names()[j] == b.fullname@);
}

/// The width that a text asks of its column: the length of its UTF-8
/// encoding, and the widest that 16 bits hold where the text is longer.
pub open spec fn width_of(text: Seq<char>) -> u16 {
    if encode_utf8(text).len() > u16::MAX {
        u16::MAX
    } else {
        encode_utf8(text).len() as u16
    }
}

/// The wider of two widths.
pub open spec fn wider(a: u16, b: u16) -> u16 {
    if a >= b {
        a
    } else {
        b
    }
}

/// The column widths for rows: no narrower than an empty table's, and no
/// narrower than what any row asks. Names count as they are shown.
pub open spec fn widths_of(cache: AptCache, list: Seq<PackageInfoView>) -> ColumnWidths
    decreases list.len(),
{
    if list.len() == 0 {
        ColumnWidths { name: 10, section: 7, installed: 9, candidate: 9 }
    } else {
        let w = widths_of(cache, list.drop_last());
        let r = list.last();
        ColumnWidths {
            name: wider(w.name, width_of(cache.shown_name(r.name))),
            section: wider(w.section, width_of(r.section)),
            installed: wider(w.installed, width_of(r.installed_version)),
            candidate: wider(w.candidate, width_of(r.candidate_version)),
        }
    }
}

/// Column widths fit the content: every width is at least what each row
/// asks of its column, which is the length of its text, or the widest that
/// 16 bits hold where the text is longer.
pub proof fn lemma_widths_fit(cache: AptCache, list: Seq<PackageInfoView>, i: int)
    requires
        0 <= i < list.len(),
    ensures
        widths_of(cache, list).name >= 10,
        widths_of(cache, list).section >= 7,
        widths_of(cache, list).installed >= 9,
        widths_of(cache, list).candidate >= 9,
        widths_of(cache, list).name >= width_of(cache.shown_name(list[i].name)),
        widths_of(cache, list).section >= width_of(list[i].section),
        widths_of(cache, list).installed >= width_of(list[i].installed_version),
        widths_of(cache, list).candidate >= width_of(list[i].candidate_version),
    decreases list.len(),
{
    lemma_widths_least(cache, list.drop_last());
    if i < list.len() - 1 {
        lemma_widths_fit(cache, list.drop_last(), i);
        assert(list.drop_last()[i] == list[i]);
    }
}

/// No column is narrower than in an empty table.
pub proof fn lemma_widths_least(cache: AptCache, list: Seq<PackageInfoView>)
    ensures
        widths_of(cache, list).name >= 10,
        widths_of(cache, list).section >= 7,
        widths_of(cache, list).installed >= 9,
        widths_of(cache, list).candidate >= 9,
    decreases list.len(),
{
    if list.len() > 0 {
        lemma_widths_least(cache, list.drop_last());
    }
}

fn text_width(text: &str) -> (w: u16)
    ensures
        w == width_of(text@),
{
    let bytes = text.as_bytes();
    if bytes.len() > u16::MAX as usize {
        u16::MAX
    } else {
        bytes.len() as u16
    }
}

fn max_width(a: u16, b: u16) -> (w: u16)
    ensures
        w == wider(a, b),
{
    if a >= b {
        a
    } else {
        b
    }
}

/// Builds the rows that filter and search admit, in catalog order, and the
/// column widths that fit them.
pub fn project(
    cache: &AptCache,
    intent: &IntentStore,
    changes: &Vec<PlannedChange>,
    filter: FilterCategory,
    found: &Option<StringHashSet>,
) -> (r: (Vec<PackageInfo>, ColumnWidths))
    requires
        cache.wf(),
        intent.wf(),
    ensures
        rows(r.0@) == projected(
            *cache,
            intent@,
            changes@,
            filter,
            match found {
                Some(names) => Some(names@),
                None => None,
            },
        ),
        r.1 == widths_of(*cache, rows(r.0@)),
{
    let records = cache.packages();
    let ghost found_names: Option<Set<Seq<char>>> = match found {
        Some(names) => Some(names@),
        None => None,
    };
    let mut list: Vec<PackageInfo> = Vec::new();
    let mut widths = ColumnWidths::new();
    let mut i: usize = 0;
    proof {
        assert(rows(list@) =~= Seq::<PackageInfoView>::empty());
    }
    while i < records.len()
        invariant
            i <= records@.len(),
            records@ == cache.entries(),
            cache.wf(),
            intent.wf(),
            found_names == match found {
                Some(names) => Some(names@),
                None => None,
            },
            rows(list@) == projected_to(*cache, i as int, intent@, changes@, filter, found_names),
            widths == widths_of(*cache, rows(list@)),
        decreases records@.len() - i,
    {
        let r = &records[i];
        proof {
            cache.lemma_handles_one_to_one();
        }
        let marked = match cache.get_id(r.fullname.as_str()) {
            Some(id) => intent.contains(id),
            None => false,
        };
        let admitted = match filter {
            FilterCategory::Upgradable => r.state.is_upgradable,
            FilterCategory::MarkedChanges => marked || r.state.marked_install
                || r.state.marked_upgrade || r.state.marked_delete,
            FilterCategory::Installed => r.state.is_installed,
            FilterCategory::NotInstalled => !r.state.is_installed,
            FilterCategory::All => true,
        };
        let searched = match found {
            Some(names) => names.contains(r.name.as_str()),
            None => true,
        };
        let first = match cache.position_of(r.fullname.as_str()) {
            Some(at) => at == i,
            None => false,
        };
        if first && admitted && searched {
            if let Some(row) = cache.extract_package_info(r) {
                let mut info = row;
                let ghost before = rows(list@);
                info.status = display_status(info.status, info.id, intent, changes);
                let shown = cache.display_name(info.name.as_str());
                widths.name = max_width(widths.name, text_width(shown));
                widths.section = max_width(widths.section, text_width(info.section.as_str()));
                widths.installed = max_width(
                    widths.installed,
                    text_width(info.installed_version.as_str()),
                );
                widths.candidate = max_width(
                    widths.candidate,
                    text_width(info.candidate_version.as_str()),
                );
                let ghost shown_row = info@;
                list.push(info);
                proof {
                    assert(rows(list@) =~= before.push(shown_row));
                    assert(rows(list@).drop_last() =~= before);
                }
            }
        }
        i += 1;
    }
    (list, widths)
}

/// Lays the plan over rows: each row whose package the user has no intent
/// for takes the status of the plan's last change to it.
pub fn apply_plan(list: &mut Vec<PackageInfo>, intent: &IntentStore, changes: &Vec<PlannedChange>)
    requires
        intent.wf(),
    ensures
        final(list)@.len() == old(list)@.len(),
        forall|i: int|
            0 <= i < old(list)@.len() ==> (#[trigger] final(list)@[i])@ == (PackageInfoView {
                status: if intent@.contains_key(old(list)@[i].id) {
                    old(list)@[i].status
                } else {
                    match last_action(changes@, old(list)@[i].id) {
                        Some(action) => promoted(action),
                        None => old(list)@[i].status,
                    }
                },
                ..old(list)@[i]@
            }),
{
    let mut i: usize = 0;
    while i < list.len()
        invariant
            i <= list@.len(),
            intent.wf(),
            list@.len() == old(list)@.len(),
            forall|k: int| i <= k < list@.len() ==> list@[k] == old(list)@[k],
            forall|k: int|
                0 <= k < i ==> (#[trigger] list@[k])@ == (PackageInfoView {
                    status: if intent@.contains_key(old(list)@[k].id) {
                        old(list)@[k].status
                    } else {
                        match last_action(changes@, old(list)@[k].id) {
                            Some(action) => promoted(action),
                            None => old(list)@[k].status,
                        }
                    },
                    ..old(list)@[k]@
                }),
        decreases list@.len() - i,
    {
        let id = list[i].id;
        if !intent.contains(id) {
            match planned_action(changes, id) {
                Some(ChangeAction::Install) => {
                    list[i].status = PackageStatus::MarkedForInstall;
                },
                Some(ChangeAction::Upgrade) => {
                    list[i].status = PackageStatus::MarkedForUpgrade;
                },
                Some(ChangeAction::Remove) => {
                    list[i].status = PackageStatus::MarkedForRemove;
                },
                Some(ChangeAction::Downgrade) => {
                    list[i].status = PackageStatus::MarkedForUpgrade;
                },
                None => {},
            }
        }
        i += 1;
    }
}

} // verus!
