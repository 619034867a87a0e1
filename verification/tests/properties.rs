//! What holds of the manager whatever the user does, tried on sequences of
//! gestures over a small catalog.

use synh8::apt::{AptChange, AptPackageState, CandidateInfo, PackageRecord};
use synh8::manager::admissible_now;
use synh8::planner::{MarkOp, MarkRequest, SolverOutcome};
use synh8::state::ManagerState;
use synh8::toggle::ToggleStep;
use synh8::types::{ChangeReason, FilterCategory, PackageId, PlannedChange, SortBy, ToggleResult};

fn pkg(name: &str, installed: bool, upgradable: bool, deps: &[&str]) -> PackageRecord {
    PackageRecord {
        name: name.to_string(),
        fullname: format!("{}:amd64", name),
        state: AptPackageState {
            is_installed: installed,
            is_upgradable: upgradable,
            marked_install: false,
            marked_delete: false,
            marked_upgrade: false,
        },
        installed_version: if installed { Some(format!("1.{}", name.len())) } else { None },
        candidate: Some(CandidateInfo {
            version: format!("2.{}", name.len()),
            section: Some(if name.starts_with("lib") { "libs".to_string() } else { "utils".to_string() }),
            size: 100 + name.len() as u64,
            installed_size: 1000 + name.len() as u64,
            summary: None,
            arch: "amd64".to_string(),
        }),
        dependencies: deps.iter().map(|t| ("Depends".to_string(), t.to_string())).collect(),
        reverse_dependencies: Vec::new(),
    }
}

fn world() -> Vec<PackageRecord> {
    vec![
        pkg("editor", true, true, &["libtext", "libui"]),
        pkg("libtext", true, true, &[]),
        pkg("libui", false, false, &["libdraw"]),
        pkg("libdraw", false, false, &[]),
        pkg("game", false, false, &["libdraw"]),
        pkg("shell", true, false, &[]),
        pkg("browser", true, true, &[]),
    ]
}

fn mark(records: &[PackageRecord], fullname: &str, out: &mut Vec<AptChange>) {
    if out.iter().any(|c| c.fullname == fullname) {
        return;
    }
    let r = match records.iter().find(|r| r.fullname == fullname) {
        Some(r) => r,
        None => return,
    };
    if r.state.is_installed && !r.state.is_upgradable {
        return;
    }
    let c = r.candidate.as_ref().unwrap();
    out.push(AptChange {
        fullname: r.fullname.clone(),
        is_installed: r.state.is_installed,
        marked_install: !r.state.is_installed,
        marked_upgrade: r.state.is_installed,
        marked_delete: false,
        candidate: Some((c.size, c.installed_size)),
    });
    for (_kind, target) in &r.dependencies {
        mark(records, &format!("{}:amd64", target), out);
    }
}

/// A solver whose answer depends on the set of requests alone.
fn solve(requests: &[MarkRequest]) -> SolverOutcome {
    let records = world();
    let mut names: Vec<&MarkRequest> = requests.iter().collect();
    names.sort_by(|a, b| a.fullname.cmp(&b.fullname));
    let mut changes = Vec::new();
    for request in names {
        match request.op {
            MarkOp::Install => mark(&records, &request.fullname, &mut changes),
            MarkOp::Delete => {
                let r = records.iter().find(|r| r.fullname == request.fullname).unwrap();
                if r.state.is_installed {
                    let c = r.candidate.as_ref().unwrap();
                    changes.retain(|c: &AptChange| c.fullname != r.fullname);
                    changes.push(AptChange {
                        fullname: r.fullname.clone(),
                        is_installed: true,
                        marked_install: false,
                        marked_upgrade: false,
                        marked_delete: true,
                        candidate: Some((c.size, c.installed_size)),
                    });
                }
            }
            MarkOp::Keep => {}
        }
    }
    SolverOutcome { changes, failure: None }
}

fn plan(state: &mut ManagerState) {
    if let Some(requests) = state.solver_requests() {
        let outcome = solve(&requests);
        assert!(admissible_now(state.cache(), &outcome));
        state.compute_plan(outcome);
    }
}

fn toggle(state: &mut ManagerState, id: PackageId) -> ToggleResult {
    let mut step = state.toggle(id);
    loop {
        match step {
            ToggleStep::Done(result) => return result,
            ToggleStep::Solve { requests, session } => {
                let outcome = solve(&requests);
                assert!(admissible_now(state.cache(), &outcome));
                state.compute_plan(outcome);
                step = state.toggle_resume(session);
            }
        }
    }
}

#[derive(Clone, Copy, Debug)]
enum Gesture {
    Install(u32),
    Remove(u32),
    Unmark(u32),
    Reset,
    Plan,
    Toggle(u32),
}

fn apply(state: &mut ManagerState, gestures: &[Gesture]) {
    for g in gestures {
        match *g {
            Gesture::Install(i) => state.mark_install(PackageId(i)),
            Gesture::Remove(i) => state.mark_remove(PackageId(i)),
            Gesture::Unmark(i) => state.unmark(PackageId(i)),
            Gesture::Reset => state.reset(),
            Gesture::Plan => plan(state),
            Gesture::Toggle(i) => {
                toggle(state, PackageId(i));
            }
        }
        check_lifecycle(state);
    }
}

/// The state is clean exactly when nothing is marked, and in a plan a
/// change is the user's exactly when the user marked its package.
fn check_lifecycle(state: &ManagerState) {
    assert!(!matches!(state, ManagerState::Transitioning));
    let marked = (0..8).any(|i| state.is_user_marked(PackageId(i)));
    assert_eq!(state.is_clean(), !marked);
    assert_eq!(state.has_marks(), marked);
    if state.is_clean() {
        assert!(state.planned_changes().is_none());
    }
    if let Some(changes) = state.planned_changes() {
        for c in changes {
            assert_eq!(c.reason == ChangeReason::UserRequested, state.is_user_marked(c.package));
        }
    }
}

/// A small generator of gesture sequences.
fn sequences() -> Vec<Vec<Gesture>> {
    let mut all = Vec::new();
    let mut seed: u32 = 12345;
    for _ in 0..60 {
        let mut seq = Vec::new();
        for _ in 0..7 {
            seed = seed.wrapping_mul(1103515245).wrapping_add(12345);
            let pick = (seed >> 16) % 6;
            let id = (seed >> 8) % 7;
            seq.push(match pick {
                0 => Gesture::Install(id),
                1 => Gesture::Remove(id),
                2 => Gesture::Unmark(id),
                3 => Gesture::Reset,
                4 => Gesture::Plan,
                _ => Gesture::Toggle(id),
            });
        }
        all.push(seq);
    }
    all
}

fn planned_after(state: &mut ManagerState) -> Option<Vec<PlannedChange>> {
    plan(state);
    state.planned_changes().cloned()
}

#[test]
fn intent_is_authoritative() {
    let all = sequences();
    for (k, gestures) in all.iter().enumerate() {
        let gestures: Vec<Gesture> = gestures.iter().copied().filter(|g| !matches!(g, Gesture::Toggle(_))).collect();
        let history = &all[(k + 7) % all.len()];
        let mut fresh = ManagerState::new(world(), "amd64");
        fresh.reset();
        apply(&mut fresh, &gestures);
        let mut used = ManagerState::new(world(), "amd64");
        apply(&mut used, history);
        used.reset();
        apply(&mut used, &gestures);
        assert_eq!(planned_after(&mut fresh), planned_after(&mut used));
    }
}

#[test]
fn clean_exactly_when_nothing_is_marked() {
    for seq in sequences() {
        let mut state = ManagerState::new(world(), "amd64");
        check_lifecycle(&state);
        apply(&mut state, &seq);
    }
}

#[test]
fn user_requested_exactly_when_marked() {
    let mut state = ManagerState::new(world(), "amd64");
    state.mark_install(PackageId(0));
    state.mark_install(PackageId(4));
    state.mark_remove(PackageId(5));
    plan(&mut state);
    let changes = state.planned_changes().unwrap().clone();
    assert_eq!(changes.len(), 6);
    let user: Vec<u32> = changes.iter().filter(|c| c.reason == ChangeReason::UserRequested).map(|c| c.package.0).collect();
    assert_eq!(user.len(), 3);
    for c in &changes {
        assert_eq!(c.reason == ChangeReason::UserRequested, [0, 4, 5].contains(&c.package.0));
        assert_eq!(state.is_user_marked(c.package), c.reason == ChangeReason::UserRequested);
    }
}

#[test]
fn toggle_twice_restores_the_changeset() {
    for first in [vec![0u32], vec![0, 6], vec![4, 6], vec![6]] {
        let mut state = ManagerState::new(world(), "amd64");
        for id in &first {
            state.mark_install(PackageId(*id));
        }
        plan(&mut state);
        let first_plan = state.planned_changes().unwrap().clone();
        let h = PackageId(first[0]);
        assert!(matches!(toggle(&mut state, h), ToggleResult::Unmarked { .. }));
        assert!(!state.is_user_marked(h));
        assert!(matches!(toggle(&mut state, h), ToggleResult::Marked { .. }));
        assert!(state.is_user_marked(h));
        let mut again = state.planned_changes().unwrap().clone();
        let mut first_plan = first_plan;
        again.sort_by_key(|c| c.package.0);
        first_plan.sort_by_key(|c| c.package.0);
        assert_eq!(again, first_plan);
    }
}

#[test]
fn toggle_of_a_dependency_takes_a_user_mark_back_or_says_no_change() {
    for seq in sequences() {
        let mut state = ManagerState::new(world(), "amd64");
        apply(&mut state, &seq);
        plan(&mut state);
        let changes = match state.planned_changes() {
            Some(c) => c.clone(),
            None => continue,
        };
        for c in changes.iter().filter(|c| c.reason != ChangeReason::UserRequested) {
            let mut trial = ManagerState::new(world(), "amd64");
            apply(&mut trial, &seq);
            plan(&mut trial);
            let marks_before: Vec<u32> = (0..8).filter(|i| trial.is_user_marked(PackageId(*i))).collect();
            let result = toggle(&mut trial, c.package);
            let marks_after: Vec<u32> = (0..8).filter(|i| trial.is_user_marked(PackageId(*i))).collect();
            assert!(marks_after.iter().all(|m| marks_before.contains(m)));
            match result {
                ToggleResult::NoChange { package } => assert_eq!(package, c.package),
                ToggleResult::Unmarked { package, .. } => {
                    assert_eq!(package, c.package);
                    assert!(marks_after.len() < marks_before.len());
                    let left = trial.planned_changes().map(|p| p.iter().any(|x| x.package == c.package)).unwrap_or(false);
                    assert!(!left);
                }
                ToggleResult::Marked { .. } => panic!("a package of the changeset was marked"),
            }
        }
    }
}

#[test]
fn independent_marks_commute() {
    let mut ab = ManagerState::new(world(), "amd64");
    ab.mark_install(PackageId(4));
    ab.mark_install(PackageId(6));
    plan(&mut ab);
    let mut ba = ManagerState::new(world(), "amd64");
    ba.mark_install(PackageId(6));
    ba.mark_install(PackageId(4));
    plan(&mut ba);
    let mut x = ab.planned_changes().unwrap().clone();
    let mut y = ba.planned_changes().unwrap().clone();
    x.sort_by_key(|c| c.package.0);
    y.sort_by_key(|c| c.package.0);
    assert_eq!(x, y);
    assert_eq!(x.len(), 3);
}

#[test]
fn refresh_keeps_handles() {
    let mut state = ManagerState::new(world(), "amd64");
    state.mark_install(PackageId(0));
    plan(&mut state);
    let names: Vec<String> = (0..7).map(|i| state.cache().fullname_of(PackageId(i)).unwrap().to_string()).collect();
    let mut records = world();
    records.reverse();
    records.truncate(4);
    records.insert(0, pkg("newcomer", false, false, &[]));
    assert!(state.refresh(Ok(records)).is_ok());
    assert!(state.is_clean());
    for (i, name) in names.iter().enumerate() {
        assert_eq!(state.cache().fullname_of(PackageId(i as u32)), Some(name.as_str()));
        assert_eq!(state.cache().get_id(name), Some(PackageId(i as u32)));
    }
    assert_eq!(state.cache().get_id("newcomer:amd64"), Some(PackageId(7)));
    assert_eq!(state.filter_count(FilterCategory::All), 5);
}

#[test]
fn list_is_sorted_and_stable() {
    let mut state = ManagerState::new(world(), "amd64");
    state.apply_filter(FilterCategory::All);
    let names = |s: &ManagerState| -> Vec<String> { s.list().iter().map(|p| p.name.clone()).collect() };
    let mut expected: Vec<String> = world().iter().map(|r| r.fullname.clone()).collect();
    expected.sort();
    assert_eq!(names(&state), expected);
    state.set_sort(SortBy::Name, false);
    expected.reverse();
    assert_eq!(names(&state), expected);
    assert_eq!(state.sort_settings().sort_by, SortBy::Name);
    assert!(!state.sort_settings().ascending);

    state.set_sort(SortBy::Name, true);
    state.set_sort(SortBy::Section, true);
    assert_eq!(
        names(&state),
        vec!["libdraw:amd64", "libtext:amd64", "libui:amd64", "browser:amd64", "editor:amd64", "game:amd64", "shell:amd64"]
    );
    state.set_sort(SortBy::Section, false);
    assert_eq!(
        names(&state),
        vec!["browser:amd64", "editor:amd64", "game:amd64", "shell:amd64", "libdraw:amd64", "libtext:amd64", "libui:amd64"]
    );
    state.set_sort(SortBy::InstalledVersion, true);
    let versions: Vec<String> = state.list().iter().map(|p| p.installed_version.clone()).collect();
    let mut sorted = versions.clone();
    sorted.sort();
    assert_eq!(versions, sorted);
    state.set_sort(SortBy::CandidateVersion, false);
    let versions: Vec<String> = state.list().iter().map(|p| p.candidate_version.clone()).collect();
    let mut sorted = versions.clone();
    sorted.sort();
    sorted.reverse();
    assert_eq!(versions, sorted);
}

#[test]
fn search_query_is_edited_character_by_character() {
    let mut state = ManagerState::new(world(), "amd64");
    state.search_query_push('l');
    state.search_query_push('i');
    assert_eq!(state.search_query(), "li");
    state.search_query_pop();
    assert_eq!(state.search_query(), "l");
    state.search_query_pop();
    state.search_query_pop();
    assert_eq!(state.search_query(), "");
    state.ensure_search_index().unwrap();
    state.set_search_query("libd").unwrap();
    state.apply_filter(FilterCategory::All);
    assert_eq!(state.list().len(), 1);
    assert_eq!(state.list()[0].name, "libdraw:amd64");
    state.clear_search();
    assert!(state.search_result_count().is_none());
    state.rebuild_list();
    assert_eq!(state.list().len(), 7);
    assert!(state.set_search_query("(").is_err());
    assert_eq!(state.search_query(), "(");
    state.set_search_query("").unwrap();
    assert!(!state.has_search_results());
}

#[test]
fn a_clean_manager_carries_no_marks() {
    let mut records = world();
    records[0].state.marked_install = true;
    records[1].state.marked_delete = true;
    let mut state = ManagerState::new(records.clone(), "amd64");
    assert!(state.is_clean());
    state.apply_filter(FilterCategory::MarkedChanges);
    assert_eq!(state.list().len(), 0);
    records[2].state.marked_upgrade = true;
    assert!(state.refresh(Ok(records)).is_ok());
    assert!(state.is_clean());
    state.apply_filter(FilterCategory::MarkedChanges);
    assert_eq!(state.list().len(), 0);
    state.apply_filter(FilterCategory::All);
    assert_eq!(state.list().len(), 7);
}

#[test]
fn a_search_builds_its_index() {
    let mut state = ManagerState::new(world(), "amd64");
    state.set_search_query("").unwrap();
    assert!(state.ensure_search_index().unwrap().is_some());
    let mut state = ManagerState::new(world(), "amd64");
    state.set_search_query("libd").unwrap();
    assert_eq!(state.search_result_count(), Some(1));
    assert!(state.ensure_search_index().unwrap().is_none());
}

#[test]
fn a_refused_query_changes_the_query_only() {
    let mut state = ManagerState::new(world(), "amd64");
    assert!(state.set_search_query("(").is_err());
    assert_eq!(state.search_query(), "(");
    assert!(state.search_result_count().is_none());
    assert!(state.ensure_search_index().unwrap().is_some());
    state.set_search_query("libd").unwrap();
    assert_eq!(state.search_result_count(), Some(1));
    assert!(state.set_search_query("(").is_err());
    assert_eq!(state.search_query(), "(");
    assert_eq!(state.search_result_count(), Some(1));
}

#[test]
fn requests_follow_the_intent_not_the_history() {
    let mut x = ManagerState::new(world(), "amd64");
    apply(&mut x, &[Gesture::Install(4), Gesture::Remove(0), Gesture::Install(2)]);
    let mut y = ManagerState::new(world(), "amd64");
    apply(
        &mut y,
        &[
            Gesture::Install(2),
            Gesture::Install(5),
            Gesture::Install(4),
            Gesture::Plan,
            Gesture::Remove(0),
            Gesture::Unmark(5),
        ],
    );
    let show = |s: &ManagerState| {
        s.solver_requests()
            .unwrap()
            .iter()
            .map(|r| (r.package.0, r.fullname.clone(), r.op))
            .collect::<Vec<_>>()
    };
    assert_eq!(show(&x), show(&y));
    assert_eq!(
        show(&x),
        vec![
            (0, "editor:amd64".to_string(), MarkOp::Delete),
            (2, "libui:amd64".to_string(), MarkOp::Install),
            (4, "game:amd64".to_string(), MarkOp::Install),
        ]
    );
    assert_eq!(planned_after(&mut x), planned_after(&mut y));
}
