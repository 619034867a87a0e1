//! End-to-end runs of the manager against a small catalog and a solver that
//! follows `Depends`.

use synh8::apt::{AptChange, AptPackageState, CandidateInfo, PackageRecord};
use synh8::manager::admissible_now;
use synh8::planner::{MarkOp, MarkRequest, SolverOutcome};
use synh8::state::{CommitStep, ManagerState};
use synh8::toggle::{ToggleSession, ToggleStage, ToggleStep};
use synh8::types::{
    ChangeAction, ChangeReason, FilterCategory, PackageId, PackageStatus, ToggleResult, UserIntent,
};

fn record(
    name: &str,
    installed: Option<&str>,
    candidate: &str,
    size: u64,
    installed_size: u64,
    deps: &[(&str, &str)],
) -> PackageRecord {
    PackageRecord {
        name: name.to_string(),
        fullname: format!("{}:amd64", name),
        state: AptPackageState {
            is_installed: installed.is_some(),
            is_upgradable: installed.is_some() && installed != Some(candidate),
            marked_install: false,
            marked_delete: false,
            marked_upgrade: false,
        },
        installed_version: installed.map(|v| v.to_string()),
        candidate: Some(CandidateInfo {
            version: candidate.to_string(),
            section: Some("libs".to_string()),
            size,
            installed_size,
            summary: Some(format!("summary of {}", name)),
            arch: "amd64".to_string(),
        }),
        dependencies: deps.iter().map(|(k, t)| (k.to_string(), t.to_string())).collect(),
        reverse_dependencies: Vec::new(),
    }
}

/// `pkg-A` 1.0 -> 1.1 depends on `lib-X`, 1.9 -> 2.0. `pkg-B` is new and
/// recommends `lib-X`. `tool` is installed and current.
fn catalog() -> Vec<PackageRecord> {
    vec![
        record("pkg-A", Some("1.0"), "1.1", 1000, 4000, &[("Depends", "lib-X")]),
        record("lib-X", Some("1.9"), "2.0", 200, 800, &[]),
        record("pkg-B", None, "3.0", 50, 70, &[("Recommends", "lib-X")]),
        record("tool", Some("5"), "5", 10, 20, &[]),
    ]
}

fn change_for(r: &PackageRecord, delete: bool) -> AptChange {
    let c = r.candidate.as_ref().unwrap();
    AptChange {
        fullname: r.fullname.clone(),
        is_installed: r.state.is_installed,
        marked_install: !delete && !r.state.is_installed,
        marked_upgrade: !delete && r.state.is_installed,
        marked_delete: delete,
        candidate: Some((c.size, c.installed_size)),
    }
}

fn mark(records: &[PackageRecord], fullname: &str, out: &mut Vec<AptChange>, strong_only: bool) {
    if out.iter().any(|c| c.fullname == fullname) {
        return;
    }
    let r = match records.iter().find(|r| r.fullname == fullname) {
        Some(r) => r,
        None => return,
    };
    if r.state.is_installed && !r.state.is_upgradable {
        return;
    }
    out.push(change_for(r, false));
    for (kind, target) in &r.dependencies {
        if kind == "Depends" || kind == "PreDepends" || !strong_only {
            mark(records, &format!("{}:amd64", target), out, strong_only);
        }
    }
}

/// A solver that brings in what the requests depend on. With
/// `follow_recommends` it also brings in what they recommend.
fn solve(records: &[PackageRecord], requests: &[MarkRequest], follow_recommends: bool) -> SolverOutcome {
    let mut changes = Vec::new();
    for request in requests {
        match request.op {
            MarkOp::Install => mark(records, &request.fullname, &mut changes, !follow_recommends),
            MarkOp::Delete => {
                if let Some(r) = records.iter().find(|r| r.fullname == request.fullname) {
                    if r.state.is_installed {
                        changes.push(change_for(r, true));
                    }
                }
            }
            MarkOp::Keep => {}
        }
    }
    SolverOutcome { changes, failure: None }
}

fn plan(state: &mut ManagerState, follow_recommends: bool) {
    if let Some(requests) = state.solver_requests() {
        let outcome = solve(&catalog(), &requests, follow_recommends);
        assert!(admissible_now(state.cache(), &outcome));
        state.compute_plan(outcome);
    }
}

fn run_toggle(state: &mut ManagerState, id: PackageId, follow_recommends: bool) -> ToggleResult {
    let mut step = state.toggle(id);
    loop {
        match step {
            ToggleStep::Done(result) => return result,
            ToggleStep::Solve { requests, session } => {
                let outcome = solve(&catalog(), &requests, follow_recommends);
                assert!(admissible_now(state.cache(), &outcome));
                state.compute_plan(outcome);
                step = state.toggle_resume(session);
            }
        }
    }
}

fn handle(state: &ManagerState, name: &str) -> PackageId {
    state.cache().get_id(&format!("{}:amd64", name)).unwrap()
}

fn planned_upgrade() -> ManagerState {
    let mut state = ManagerState::new(catalog(), "amd64");
    let a = handle(&state, "pkg-A");
    state.mark_install(a);
    plan(&mut state, false);
    state
}

#[test]
fn mark_then_plan_gives_the_request_and_its_dependency() {
    let mut state = ManagerState::new(catalog(), "amd64");
    assert!(state.is_clean());
    let a = handle(&state, "pkg-A");
    let x = handle(&state, "lib-X");
    state.mark_install(a);
    assert!(state.is_dirty());
    let requests = state.solver_requests().unwrap();
    assert_eq!(requests.len(), 1);
    assert_eq!(requests[0].fullname, "pkg-A:amd64");
    assert_eq!(requests[0].op, MarkOp::Install);
    assert_eq!(requests[0].package, a);
    state.compute_plan(solve(&catalog(), &requests, false));
    assert!(state.is_planned());
    let changes = state.planned_changes().unwrap();
    assert_eq!(changes.len(), 2);
    assert_eq!(changes[0].package, a);
    assert_eq!(changes[0].action, ChangeAction::Upgrade);
    assert_eq!(changes[0].reason, ChangeReason::UserRequested);
    assert_eq!(changes[0].download_size, 1000);
    assert_eq!(changes[0].size_change, 4000);
    assert_eq!(changes[1].package, x);
    assert_eq!(changes[1].action, ChangeAction::Upgrade);
    assert_eq!(changes[1].reason, ChangeReason::Dependency);
    assert_eq!(state.plan_errors().unwrap().len(), 0);
    match &state {
        ManagerState::Planned(m) => {
            assert_eq!(m.download_size(), 1200);
            assert_eq!(m.install_size_change(), 4800);
            assert!(!m.has_errors());
        }
        _ => panic!("not planned"),
    }
}

#[test]
fn toggle_unmark_of_a_user_request_cascades() {
    let mut state = planned_upgrade();
    let a = handle(&state, "pkg-A");
    let x = handle(&state, "lib-X");
    match run_toggle(&mut state, a, false) {
        ToggleResult::Unmarked { package, also_unmarked } => {
            assert_eq!(package, a);
            assert_eq!(also_unmarked, vec![x]);
        }
        other => panic!("unexpected {:?}", other),
    }
    assert!(state.is_clean());
    assert!(!state.has_marks());
    assert!(!state.is_user_marked(a));
    assert!(state.planned_changes().is_none());
    assert!(state.cache().packages().iter().all(|r| !r.state.marked_upgrade && !r.state.marked_install));
}

#[test]
fn toggle_unmark_of_a_dependency_traces_back() {
    let mut state = planned_upgrade();
    let a = handle(&state, "pkg-A");
    let x = handle(&state, "lib-X");
    match run_toggle(&mut state, x, false) {
        ToggleResult::Unmarked { package, also_unmarked } => {
            assert_eq!(package, x);
            assert_eq!(also_unmarked, vec![a]);
        }
        other => panic!("unexpected {:?}", other),
    }
    assert!(state.is_clean());
    assert_eq!(state.user_intent(a), UserIntent::Default);
}

#[test]
fn toggle_of_an_untraceable_dependency_changes_nothing() {
    let mut state = ManagerState::new(catalog(), "amd64");
    let b = handle(&state, "pkg-B");
    let x = handle(&state, "lib-X");
    state.mark_install(b);
    plan(&mut state, true);
    let changes = state.planned_changes().unwrap();
    assert_eq!(changes.len(), 2);
    assert_eq!(changes[1].package, x);
    assert_eq!(changes[1].reason, ChangeReason::Dependency);
    match run_toggle(&mut state, x, true) {
        ToggleResult::NoChange { package } => assert_eq!(package, x),
        other => panic!("unexpected {:?}", other),
    }
    assert!(state.is_planned());
    assert!(state.is_user_marked(b));
    assert_eq!(state.user_intent(b), UserIntent::Install);
    assert_eq!(state.planned_changes().unwrap().len(), 2);
}

#[test]
fn toggle_mark_reports_what_came_with_the_package() {
    let mut state = ManagerState::new(catalog(), "amd64");
    let a = handle(&state, "pkg-A");
    let x = handle(&state, "lib-X");
    match run_toggle(&mut state, a, false) {
        ToggleResult::Marked { package, additional } => {
            assert_eq!(package, a);
            assert_eq!(additional, vec![x]);
        }
        other => panic!("unexpected {:?}", other),
    }
    assert!(state.is_planned());
    assert!(state.is_user_marked(a));
    assert!(!state.is_user_marked(x));
}

#[test]
fn toggle_asks_for_the_solver_while_marks_await_a_plan() {
    let mut state = ManagerState::new(catalog(), "amd64");
    let a = handle(&state, "pkg-A");
    let b = handle(&state, "pkg-B");
    state.mark_install(b);
    match state.toggle(a) {
        ToggleStep::Solve { requests, session } => {
            assert_eq!(requests.len(), 1);
            assert_eq!(requests[0].package, b);
            assert_eq!(session.target, a);
            assert_eq!(session.stage, ToggleStage::Probing);
            assert!(session.before.is_empty());
        }
        ToggleStep::Done(r) => panic!("unexpected {:?}", r),
    }
    assert!(state.is_dirty());
    assert!(!state.is_user_marked(a));
}

#[test]
fn resume_without_a_plan_asks_again() {
    let mut state = ManagerState::new(catalog(), "amd64");
    let a = handle(&state, "pkg-A");
    let step = state.toggle(a);
    let session = match step {
        ToggleStep::Solve { session, .. } => session,
        ToggleStep::Done(r) => panic!("unexpected {:?}", r),
    };
    assert_eq!(session.stage, ToggleStage::Marking);
    match state.toggle_resume(ToggleSession { target: a, stage: session.stage, before: session.before }) {
        ToggleStep::Solve { requests, session } => {
            assert_eq!(requests[0].package, a);
            assert_eq!(session.stage, ToggleStage::Marking);
        }
        ToggleStep::Done(r) => panic!("unexpected {:?}", r),
    }
}

#[test]
fn conflict_is_not_fatal() {
    let mut state = ManagerState::new(catalog(), "amd64");
    let a = handle(&state, "pkg-A");
    let b = handle(&state, "pkg-B");
    state.mark_install(a);
    state.mark_install(b);
    let requests = state.solver_requests().unwrap();
    let mut outcome = solve(&catalog(), &requests, false);
    outcome.failure = Some(vec![
        "E:".to_string(),
        "pkg-A conflicts with pkg-B".to_string(),
        "".to_string(),
        "held packages".to_string(),
        "broken".to_string(),
    ]);
    state.compute_plan(outcome);
    assert!(state.is_planned());
    let errors = state.plan_errors().unwrap();
    assert_eq!(errors.len(), 1);
    assert_eq!(errors[0], "pkg-A conflicts with pkg-B; and 2 more issue(s)");
    state.modify();
    assert!(state.is_dirty());
    state.unmark(b);
    assert!(state.is_dirty());
    plan(&mut state, false);
    assert!(state.is_planned());
    assert_eq!(state.plan_errors().unwrap().len(), 0);
    assert_eq!(state.planned_changes().unwrap().len(), 2);
}

#[test]
fn refresh_invalidates_search() {
    let mut state = ManagerState::new(catalog(), "amd64");
    assert!(state.search_result_count().is_none());
    let built = state.ensure_search_index().unwrap();
    assert!(built.is_some());
    assert!(state.ensure_search_index().unwrap().is_none());
    state.set_search_query("lib").unwrap();
    assert_eq!(state.search_query(), "lib");
    assert_eq!(state.search_result_count(), Some(1));
    assert!(state.has_search_results());

    let mut records = catalog();
    records.push(record("libnew", None, "0.1", 1, 1, &[]));
    assert!(state.refresh(Ok(records)).is_ok());
    assert!(state.search_result_count().is_none());
    assert_eq!(state.search_query(), "");
    assert!(!state.has_search_results());

    state.set_search_query("lib").unwrap();
    assert_eq!(state.search_result_count(), Some(2));
    assert!(state.has_search_results());
    assert!(state.ensure_search_index().unwrap().is_none());
}

#[test]
fn refresh_without_a_reading_changes_nothing() {
    let mut state = planned_upgrade();
    let a = handle(&state, "pkg-A");
    let r = state.refresh(Err("Another package manager is running".to_string()));
    assert_eq!(r, Err("Another package manager is running".to_string()));
    assert!(state.is_planned());
    assert!(state.is_user_marked(a));
}

#[test]
fn commit_clears_intent_whether_it_failed_or_not() {
    let mut state = planned_upgrade();
    assert!(matches!(state.commit_step(), CommitStep::Run));
    let r = state.commit(Err("dpkg failed".to_string()));
    assert_eq!(r, Err("dpkg failed".to_string()));
    assert!(state.is_clean());
    assert!(!state.has_marks());

    let mut state = planned_upgrade();
    assert_eq!(state.commit(Ok(())), Ok(()));
    assert!(state.is_clean());

    let mut state = ManagerState::new(catalog(), "amd64");
    assert!(matches!(state.commit_step(), CommitStep::Nothing));
    assert_eq!(state.commit(Err("not run".to_string())), Ok(()));
    let a = handle(&state, "pkg-A");
    state.mark_install(a);
    match state.commit_step() {
        CommitStep::Plan(requests) => assert_eq!(requests.len(), 1),
        _ => panic!("expected a plan request"),
    }
}

#[test]
fn list_shows_user_marks_and_planned_dependencies_alike() {
    let mut state = planned_upgrade();
    state.apply_filter(FilterCategory::All);
    let widths = state.rebuild_list();
    let list = state.list();
    assert_eq!(list.len(), 4);
    let names: Vec<&str> = list.iter().map(|p| p.name.as_str()).collect();
    assert_eq!(names, vec!["lib-X:amd64", "pkg-A:amd64", "pkg-B:amd64", "tool:amd64"]);
    assert_eq!(list[0].status, PackageStatus::MarkedForUpgrade);
    assert_eq!(list[1].status, PackageStatus::MarkedForUpgrade);
    assert_eq!(list[2].status, PackageStatus::NotInstalled);
    assert_eq!(list[3].status, PackageStatus::Installed);
    assert_eq!(widths.name, 10);
    assert_eq!(widths.section, 7);
    assert_eq!(state.package_count(), 4);
    assert_eq!(state.get_package(1).unwrap().name, "pkg-A:amd64");
    assert!(state.get_package(4).is_none());

    state.apply_filter(FilterCategory::MarkedChanges);
    assert_eq!(state.list().len(), 2);
    state.apply_filter(FilterCategory::Upgradable);
    assert_eq!(state.list().len(), 2);
    state.apply_filter(FilterCategory::NotInstalled);
    assert_eq!(state.list().len(), 1);
    state.apply_filter(FilterCategory::Installed);
    assert_eq!(state.list().len(), 3);
    assert_eq!(state.selected_filter(), FilterCategory::Installed);
}

#[test]
fn filter_counts_come_from_the_catalog_and_the_intent() {
    let state = planned_upgrade();
    assert_eq!(state.filter_count(FilterCategory::Upgradable), 2);
    assert_eq!(state.filter_count(FilterCategory::MarkedChanges), 1);
    assert_eq!(state.filter_count(FilterCategory::Installed), 3);
    assert_eq!(state.filter_count(FilterCategory::NotInstalled), 1);
    assert_eq!(state.filter_count(FilterCategory::All), 4);
    assert_eq!(state.upgradable_count(), 2);
}

#[test]
fn mark_all_upgradable_marks_each_upgradable_package() {
    let mut state = ManagerState::new(catalog(), "amd64");
    state.mark_all_upgradable();
    assert!(state.is_dirty());
    let a = handle(&state, "pkg-A");
    let x = handle(&state, "lib-X");
    let b = handle(&state, "pkg-B");
    assert!(state.is_user_marked(a));
    assert!(state.is_user_marked(x));
    assert!(!state.is_user_marked(b));
    assert_eq!(state.filter_count(FilterCategory::MarkedChanges), 2);
    state.reset();
    assert!(state.is_clean());
    assert!(!state.is_user_marked(a));
}

#[test]
fn mark_preview_lists_what_the_mark_brought() {
    let state = planned_upgrade();
    let a = handle(&state, "pkg-A");
    let preview = state.build_mark_preview(a, &Vec::new()).unwrap();
    assert_eq!(preview.package_name, "pkg-A");
    assert!(preview.is_upgrade);
    assert!(preview.is_marking);
    assert_eq!(preview.additional_upgrades, vec!["lib-X".to_string()]);
    assert!(preview.additional_installs.is_empty());
    assert!(preview.additional_removes.is_empty());
    assert_eq!(preview.download_size, 1200);

    let x = handle(&state, "lib-X");
    let preview = state.build_mark_preview(a, &vec![x]).unwrap();
    assert!(preview.additional_upgrades.is_empty());
    assert_eq!(preview.download_size, 1000);

    assert!(state.build_mark_preview(PackageId(77), &Vec::new()).is_none());
    let clean = ManagerState::new(catalog(), "amd64");
    assert!(clean.build_mark_preview(a, &Vec::new()).is_none());
}

#[test]
fn an_index_that_stands_is_not_built_again() {
    let mut state = ManagerState::new(catalog(), "amd64");
    assert!(state.ensure_search_index().unwrap().is_some());
    for _ in 0..3 {
        match state.ensure_search_index() {
            Ok(built) => assert!(built.is_none()),
            Err(e) => panic!("{}", e.message),
        }
    }
    state.set_search_query("pkg").unwrap();
    assert_eq!(state.search_result_count(), Some(2));
}

#[test]
fn a_lone_package_without_candidate_is_listed() {
    let mut bare = record("bare", Some("1.0"), "1.0", 1, 1, &[]);
    bare.candidate = None;
    let mut state = ManagerState::new(vec![bare], "amd64");
    state.apply_filter(FilterCategory::All);
    state.rebuild_list();
    assert_eq!(state.list().len(), 1);
    assert_eq!(state.list()[0].name, "bare:amd64");
    assert_eq!(state.list()[0].status, PackageStatus::Installed);
    assert_eq!(state.list()[0].section, "unknown");
    assert_eq!(state.list()[0].candidate_version, "");
    assert_eq!(state.get_package_status("bare:amd64"), PackageStatus::Installed);
    assert_eq!(state.get_package_status("none:amd64"), PackageStatus::NotInstalled);
    state.set_search_query("bare").unwrap();
    state.rebuild_list();
    assert_eq!(state.list().len(), 1);
    state.set_search_query("other").unwrap();
    state.rebuild_list();
    assert_eq!(state.list().len(), 0);
}

#[test]
fn toggle_traces_back_on_another_architecture() {
    let on_arm = |name: &str, deps: &[(&str, &str)]| {
        let mut r = record(name, None, "1.0", 1, 1, deps);
        r.fullname = format!("{}:arm64", name);
        r.candidate.as_mut().unwrap().arch = "arm64".to_string();
        r
    };
    let records = vec![
        on_arm("a", &[("Depends", "b")]),
        on_arm("b", &[("Depends", "c")]),
        on_arm("c", &[]),
        on_arm("d", &[]),
    ];
    let mut state = ManagerState::new(records.clone(), "arm64");
    let a = state.cache().get_id("a:arm64").unwrap();
    let b = state.cache().get_id("b:arm64").unwrap();
    let c = state.cache().get_id("c:arm64").unwrap();
    let d = state.cache().get_id("d:arm64").unwrap();
    state.mark_install(a);
    state.mark_install(d);
    let answer = |names: &[usize]| SolverOutcome {
        changes: names.iter().map(|i| change_for(&records[*i], false)).collect(),
        failure: None,
    };
    let outcome = answer(&[0, 1, 2, 3]);
    assert!(admissible_now(state.cache(), &outcome));
    state.compute_plan(outcome);
    assert_eq!(state.planned_changes().unwrap().len(), 4);
    assert_eq!(state.planned_changes().unwrap()[2].reason, ChangeReason::Dependency);

    let session = match state.toggle(c) {
        ToggleStep::Solve { requests, session } => {
            assert_eq!(requests.len(), 1);
            assert_eq!(requests[0].package, d);
            session
        }
        ToggleStep::Done(result) => panic!("unexpected {:?}", result),
    };
    assert!(state.is_dirty());
    assert_eq!(state.user_intent(a), UserIntent::Default);
    assert_eq!(state.user_intent(d), UserIntent::Install);
    state.compute_plan(answer(&[3]));
    match state.toggle_resume(session) {
        ToggleStep::Done(ToggleResult::Unmarked { package, also_unmarked }) => {
            assert_eq!(package, c);
            assert_eq!(also_unmarked, vec![a, b]);
        }
        _ => panic!("the toggle is not done"),
    }
    assert!(state.is_planned());
}
