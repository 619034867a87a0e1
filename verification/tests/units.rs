//! The parts of the library one by one, on concrete values.

use synh8::apt::{
    dep_type_order, format_apt_errors, AptCache, AptChange, AptPackageState, CandidateInfo,
    PackageRecord,
};
use synh8::cascade::{find_user_intent_depending_on, package_depends_on};
use synh8::changelog::{changelog_failure, changelog_lines};
use synh8::intent::IntentStore;
use synh8::manager::admissible_now;
use synh8::planner::{
    check_names, check_sizes, mark_requests, plan_from, MarkOp, SolverOutcome,
};
use synh8::progress::{ItemStatus, ProgressPhase, ProgressState, MAX_ITEMS, PULSE_INTERVAL};
use synh8::projection::{display_status, planned_action, project};
use synh8::registry::HandleRegistry;
use synh8::search::{build_pattern, names_found, SearchIndex};
use synh8::text::{
    base_name, chars_of, is_space, joined, push_decimal, split_lines, split_words, strip_suffix,
    text_of,
};
use synh8::toggle::missing_from;
use synh8::types::{
    ChangeAction, ChangeReason, Column, ColumnWidths, FilterCategory, MarkPreview, PackageId,
    PackageStatus, PendingChanges, PlannedChange, Settings, SortBy, UserIntent,
};

fn state(installed: bool, upgradable: bool) -> AptPackageState {
    AptPackageState {
        is_installed: installed,
        is_upgradable: upgradable,
        marked_install: false,
        marked_delete: false,
        marked_upgrade: false,
    }
}

fn rec(name: &str, arch: &str, installed: bool, upgradable: bool, deps: &[(&str, &str)]) -> PackageRecord {
    PackageRecord {
        name: name.to_string(),
        fullname: format!("{}:{}", name, arch),
        state: state(installed, upgradable),
        installed_version: if installed { Some("1.0".to_string()) } else { None },
        candidate: Some(CandidateInfo {
            version: "2.0".to_string(),
            section: None,
            size: 10,
            installed_size: 30,
            summary: None,
            arch: arch.to_string(),
        }),
        dependencies: deps.iter().map(|(k, t)| (k.to_string(), t.to_string())).collect(),
        reverse_dependencies: Vec::new(),
    }
}

fn change(fullname: &str, installed: bool, install: bool, upgrade: bool, delete: bool, sizes: Option<(u64, u64)>) -> AptChange {
    AptChange {
        fullname: fullname.to_string(),
        is_installed: installed,
        marked_install: install,
        marked_upgrade: upgrade,
        marked_delete: delete,
        candidate: sizes,
    }
}

// ---------------------------------------------------------------- text

#[test]
fn decimal_numbers_are_written_without_leading_zeros() {
    let mut s = String::from("n=");
    push_decimal(&mut s, 0);
    assert_eq!(s, "n=0");
    let mut s = String::new();
    push_decimal(&mut s, 1234567890);
    assert_eq!(s, "1234567890");
    let mut s = String::new();
    push_decimal(&mut s, u64::MAX);
    assert_eq!(s, "18446744073709551615");
    let mut s = String::new();
    push_decimal(&mut s, 10);
    assert_eq!(s, "10");
}

#[test]
fn base_name_stops_at_the_first_colon() {
    assert_eq!(base_name("libfoo:amd64"), "libfoo");
    assert_eq!(base_name("libfoo"), "libfoo");
    assert_eq!(base_name("a:b:c"), "a");
    assert_eq!(base_name(":x"), "");
    assert_eq!(base_name(""), "");
}

#[test]
fn strip_suffix_takes_the_suffix_off_once() {
    assert_eq!(strip_suffix("libfoo:amd64", ":amd64"), "libfoo");
    assert_eq!(strip_suffix("libfoo:i386", ":amd64"), "libfoo:i386");
    assert_eq!(strip_suffix(":amd64", ":amd64"), "");
    assert_eq!(strip_suffix("amd64", ":amd64"), "amd64");
    assert_eq!(strip_suffix("x:amd64:amd64", ":amd64"), "x:amd64");
    assert_eq!(strip_suffix("días:é", ":é"), "días");
    assert_eq!(strip_suffix("abc", ""), "abc");
}

#[test]
fn characters_and_strings_convert_both_ways() {
    let chars = chars_of("añb");
    assert_eq!(chars, vec!['a', 'ñ', 'b']);
    assert_eq!(text_of(&chars, 1, 3), "ñb");
    assert_eq!(text_of(&chars, 2, 2), "");
    assert_eq!(joined("ab", "cd"), "abcd");
}

#[test]
fn white_space_is_what_the_standard_library_calls_so() {
    for u in 0..0x11_0000u32 {
        if let Some(c) = char::from_u32(u) {
            assert_eq!(is_space(c), c.is_whitespace(), "U+{:04X}", u);
        }
    }
}

#[test]
fn lines_end_at_line_feeds() {
    assert_eq!(split_lines("a\nb\r\nc"), vec!["a", "b", "c"]);
    assert_eq!(split_lines("a\n"), vec!["a"]);
    assert_eq!(split_lines("a\n\nb"), vec!["a", "", "b"]);
    assert_eq!(split_lines("a\r"), vec!["a\r"]);
    assert_eq!(split_lines("\r\n"), vec![""]);
    assert_eq!(split_lines("a\rb\n"), vec!["a\rb"]);
    assert!(split_lines("").is_empty());
    for text in ["x\r\r\ny", "\n\n", "one", "\r", "a\n\rb"] {
        let expected: Vec<String> = text.lines().map(|l| l.to_string()).collect();
        assert_eq!(split_lines(text), expected);
    }
}

#[test]
fn words_are_runs_without_white_space() {
    let words: Vec<String> = split_words("  lib  foo\tbar\u{a0}baz ").iter().map(|w| w.iter().collect()).collect();
    assert_eq!(words, vec!["lib", "foo", "bar", "baz"]);
    assert!(split_words(" \n ").is_empty());
    assert!(split_words("").is_empty());
    for text in ["a b", "  x", "x  ", "one\ttwo\nthree", "é ü"] {
        let expected: Vec<String> = text.split_whitespace().map(|w| w.to_string()).collect();
        let words: Vec<String> = split_words(text).iter().map(|w| w.iter().collect()).collect();
        assert_eq!(words, expected);
    }
}

// ---------------------------------------------------------------- registry and intent

#[test]
fn handles_are_given_once_and_kept() {
    let mut registry = HandleRegistry::new();
    assert_eq!(registry.len(), 0);
    let a = registry.id_for("a:amd64");
    let b = registry.id_for("b:amd64");
    assert_eq!(a, PackageId(0));
    assert_eq!(b, PackageId(1));
    assert_eq!(registry.id_for("a:amd64"), a);
    assert_eq!(registry.len(), 2);
    assert_eq!(registry.get_id("b:amd64"), Some(b));
    assert_eq!(registry.get_id("c:amd64"), None);
    assert_eq!(registry.fullname_of(a), Some("a:amd64"));
    assert_eq!(registry.fullname_of(PackageId(2)), None);
    assert_eq!(a.index(), 0);
}

#[test]
fn intent_store_keeps_only_what_the_user_said() {
    let mut store = IntentStore::new();
    assert!(store.is_empty());
    store.set(PackageId(3), UserIntent::Install);
    store.set(PackageId(1), UserIntent::Remove);
    store.set(PackageId(3), UserIntent::Hold);
    assert_eq!(store.len(), 2);
    assert_eq!(store.get(PackageId(3)), UserIntent::Hold);
    assert_eq!(store.get(PackageId(1)), UserIntent::Remove);
    assert_eq!(store.get(PackageId(2)), UserIntent::Default);
    assert!(store.contains(PackageId(1)));
    assert!(!store.contains(PackageId(2)));
    assert_eq!(store.ids(), vec![PackageId(3), PackageId(1)]);
    assert_eq!(store.iter(), vec![(PackageId(3), UserIntent::Hold), (PackageId(1), UserIntent::Remove)]);
    store.set(PackageId(3), UserIntent::Default);
    assert!(!store.contains(PackageId(3)));
    assert_eq!(store.len(), 1);
    store.clear(PackageId(9));
    assert_eq!(store.len(), 1);
    store.clear(PackageId(1));
    assert!(store.is_empty());
    store.set(PackageId(5), UserIntent::Install);
    store.clear_all();
    assert!(store.is_empty());
    assert_eq!(UserIntent::default(), UserIntent::Default);
}

// ---------------------------------------------------------------- cache

#[test]
fn cache_registers_names_in_catalog_order() {
    let mut cache = AptCache::new(
        vec![rec("b", "amd64", true, true, &[]), rec("a", "i386", false, false, &[]), rec("b", "amd64", false, false, &[])],
        "amd64",
    );
    assert_eq!(cache.native_arch(), "amd64");
    assert_eq!(cache.handle_count(), 2);
    assert_eq!(cache.get_id("b:amd64"), Some(PackageId(0)));
    assert_eq!(cache.get_id("a:i386"), Some(PackageId(1)));
    assert_eq!(cache.get_id("a"), None);
    assert_eq!(cache.fullname_of(PackageId(1)), Some("a:i386"));
    assert_eq!(cache.fullname_of(PackageId(2)), None);
    assert_eq!(cache.display_name("b:amd64"), "b");
    assert_eq!(cache.display_name("a:i386"), "a:i386");
    assert!(cache.get("b:amd64").unwrap().state.is_installed);
    assert!(cache.get("b").is_none());
    assert_eq!(cache.get_by_id(PackageId(1)).unwrap().name, "a");
    assert!(cache.get_by_id(PackageId(5)).is_none());
    assert_eq!(cache.packages().len(), 3);
    assert_eq!(cache.count_upgradable(), 1);
    assert_eq!(cache.id_for("new:amd64"), PackageId(2));
    assert_eq!(cache.id_for("a:i386"), PackageId(1));
    let b = cache.get("b:amd64").unwrap();
    assert_eq!(cache.get_apt_status(b), state(true, true));
}

#[test]
fn refresh_keeps_every_handle() {
    let mut cache = AptCache::new(vec![rec("a", "amd64", true, false, &[]), rec("b", "amd64", true, false, &[])], "amd64");
    let b = cache.get_id("b:amd64").unwrap();
    cache.refresh(vec![rec("c", "amd64", false, false, &[]), rec("b", "amd64", true, true, &[])]);
    assert_eq!(cache.fullname_of(PackageId(0)), Some("a:amd64"));
    assert_eq!(cache.get_id("b:amd64"), Some(b));
    assert_eq!(cache.get_id("c:amd64"), Some(PackageId(2)));
    assert!(cache.get("a:amd64").is_none());
    assert!(cache.get_by_id(PackageId(0)).is_none());
    assert!(cache.get("b:amd64").unwrap().state.is_upgradable);
    assert_eq!(cache.packages().len(), 2);
}

#[test]
fn marks_are_written_and_cleared() {
    let mut cache = AptCache::new(vec![rec("a", "amd64", true, true, &[]), rec("b", "amd64", false, false, &[])], "amd64");
    assert!(cache.get_changes().is_empty());
    cache.apply_marks(&vec![
        change("b:amd64", false, true, false, false, None),
        change("zzz:amd64", false, true, false, false, None),
        change("a:amd64", true, false, true, false, None),
    ]);
    assert_eq!(cache.get_changes(), vec![0, 1]);
    assert!(cache.get("a:amd64").unwrap().state.marked_upgrade);
    assert!(cache.get("b:amd64").unwrap().state.marked_install);
    cache.apply_marks(&vec![change("a:amd64", true, false, false, true, None)]);
    let a = cache.get("a:amd64").unwrap().state;
    assert!(a.marked_delete && !a.marked_upgrade && a.is_installed);
    cache.clear_all_marks();
    assert!(cache.get_changes().is_empty());
    assert!(cache.get("a:amd64").unwrap().state.is_upgradable);
}

#[test]
fn package_info_comes_from_the_candidate() {
    let mut r = rec("a", "amd64", true, true, &[]);
    r.candidate.as_mut().unwrap().section = Some("net".to_string());
    r.candidate.as_mut().unwrap().summary = Some("a thing".to_string());
    let mut no_candidate = rec("n", "amd64", false, false, &[]);
    no_candidate.candidate = None;
    let cache = AptCache::new(vec![r, rec("b", "amd64", false, false, &[]), rec("c", "amd64", true, false, &[]), no_candidate], "amd64");
    let a = cache.extract_package_info_by_name("a:amd64").unwrap();
    assert_eq!(a.id, PackageId(0));
    assert_eq!(a.name, "a:amd64");
    assert_eq!(a.status, PackageStatus::Upgradable);
    assert_eq!(a.section, "net");
    assert_eq!(a.installed_version, "1.0");
    assert_eq!(a.candidate_version, "2.0");
    assert_eq!(a.installed_size, 30);
    assert_eq!(a.download_size, 10);
    assert_eq!(a.description, "a thing");
    assert_eq!(a.architecture, "amd64");
    let b = cache.extract_package_info_by_name("b:amd64").unwrap();
    assert_eq!(b.status, PackageStatus::NotInstalled);
    assert_eq!(b.section, "unknown");
    assert_eq!(b.installed_version, "");
    assert_eq!(b.description, "");
    assert_eq!(cache.extract_package_info_by_name("c:amd64").unwrap().status, PackageStatus::Installed);
    let n = cache.extract_package_info_by_name("n:amd64").unwrap();
    assert_eq!(n.id, PackageId(3));
    assert_eq!(n.status, PackageStatus::NotInstalled);
    assert_eq!(n.section, "unknown");
    assert_eq!(n.candidate_version, "");
    assert_eq!((n.installed_size, n.download_size), (0, 0));
    assert_eq!(n.architecture, "");
    assert!(cache.extract_package_info_by_name("nope").is_none());
    let stranger = rec("s", "amd64", false, false, &[]);
    assert_eq!(cache.extract_package_info(&stranger).unwrap().id, PackageId(u32::MAX));
    let copy = a.clone();
    assert_eq!(copy.name, a.name);
}

#[test]
fn dependencies_come_strongest_first() {
    assert_eq!(dep_type_order("PreDepends"), 0);
    assert_eq!(dep_type_order("Depends"), 1);
    assert_eq!(dep_type_order("Recommends"), 2);
    assert_eq!(dep_type_order("Suggests"), 3);
    assert_eq!(dep_type_order("Enhances"), 4);
    assert_eq!(dep_type_order("Conflicts"), 5);
    assert_eq!(dep_type_order(""), 5);
    let mut r = rec(
        "a",
        "amd64",
        true,
        false,
        &[
            ("Suggests", "z"),
            ("Replaces", "q"),
            ("Depends", "m"),
            ("Conflicts", "q"),
            ("Depends", "b"),
            ("PreDepends", "x"),
            ("Breaks", "a"),
        ],
    );
    r.reverse_dependencies = vec![("Recommends".to_string(), "u".to_string()), ("Depends".to_string(), "v".to_string())];
    let cache = AptCache::new(vec![r], "amd64");
    let deps = cache.get_dependencies("a:amd64");
    let shown: Vec<(&str, &str)> = deps.iter().map(|(k, t)| (k.as_str(), t.as_str())).collect();
    assert_eq!(
        shown,
        vec![
            ("PreDepends", "x"),
            ("Depends", "b"),
            ("Depends", "m"),
            ("Suggests", "z"),
            ("Breaks", "a"),
            ("Replaces", "q"),
            ("Conflicts", "q"),
        ]
    );
    let rdeps = cache.get_reverse_dependencies("a:amd64");
    assert_eq!(rdeps[0], ("Depends".to_string(), "v".to_string()));
    assert_eq!(rdeps[1], ("Recommends".to_string(), "u".to_string()));
    assert!(cache.get_dependencies("missing").is_empty());
    assert!(cache.get_reverse_dependencies("missing").is_empty());
}

#[test]
fn solver_messages_become_one_line() {
    assert_eq!(format_apt_errors(&vec![]), "Dependency resolution failed (no specific details available)");
    assert_eq!(
        format_apt_errors(&vec!["".to_string(), "E:".to_string()]),
        "Dependency resolution failed (no specific details available)"
    );
    assert_eq!(format_apt_errors(&vec!["E:".to_string(), "broken".to_string()]), "broken");
    assert_eq!(
        format_apt_errors(&vec!["one".to_string(), "two".to_string(), "".to_string(), "three".to_string()]),
        "one; and 2 more issue(s)"
    );
    let many: Vec<String> = (0..12).map(|i| format!("m{}", i)).collect();
    assert_eq!(format_apt_errors(&many), "m0; and 11 more issue(s)");
}

// ---------------------------------------------------------------- planner

#[test]
fn plan_classifies_each_change() {
    let mut cache = AptCache::new(vec![rec("a", "amd64", true, true, &[]), rec("b", "amd64", false, false, &[])], "amd64");
    let mut intent = IntentStore::new();
    intent.set(PackageId(0), UserIntent::Install);
    intent.set(PackageId(3), UserIntent::Remove);
    intent.set(PackageId(9), UserIntent::Hold);
    let requests = mark_requests(&cache, &intent);
    assert_eq!(requests.len(), 1);
    assert_eq!(requests[0].fullname, "a:amd64");
    let outcome = SolverOutcome {
        changes: vec![
            change("a:amd64", true, true, false, false, Some((100, 300))),
            change("b:amd64", false, true, false, false, Some((10, 30))),
            change("old:amd64", true, false, false, true, Some((5, 50))),
            change("gone:amd64", true, false, false, true, Some((7, 70))),
            change("idle:amd64", true, false, false, false, Some((1000, 1000))),
            change("bare:amd64", false, false, true, false, None),
        ],
        failure: None,
    };
    assert!(check_sizes(&outcome.changes));
    let planned = plan_from(&mut cache, &intent, outcome);
    assert_eq!(
        planned.changes,
        vec![
            PlannedChange { package: PackageId(0), action: ChangeAction::Upgrade, reason: ChangeReason::UserRequested, download_size: 100, size_change: 300 },
            PlannedChange { package: PackageId(1), action: ChangeAction::Install, reason: ChangeReason::Dependency, download_size: 10, size_change: 30 },
            PlannedChange { package: PackageId(2), action: ChangeAction::Remove, reason: ChangeReason::AutoRemove, download_size: 5, size_change: -50 },
            PlannedChange { package: PackageId(3), action: ChangeAction::Remove, reason: ChangeReason::UserRequested, download_size: 7, size_change: -70 },
            PlannedChange { package: PackageId(5), action: ChangeAction::Install, reason: ChangeReason::Dependency, download_size: 0, size_change: 0 },
        ]
    );
    assert_eq!(planned.download_size, 122);
    assert_eq!(planned.install_size_change, 210);
    assert!(planned.errors.is_empty());
    assert_eq!(cache.get_id("idle:amd64"), Some(PackageId(4)));
    assert!(cache.get("a:amd64").unwrap().state.marked_install);
    assert!(cache.get("b:amd64").unwrap().state.marked_install);
}

#[test]
fn requests_follow_the_intent() {
    let cache = AptCache::new(vec![rec("a", "amd64", true, true, &[]), rec("b", "amd64", true, false, &[]), rec("c", "amd64", true, false, &[])], "amd64");
    let mut intent = IntentStore::new();
    intent.set(PackageId(2), UserIntent::Hold);
    intent.set(PackageId(0), UserIntent::Remove);
    intent.set(PackageId(1), UserIntent::Install);
    let requests = mark_requests(&cache, &intent);
    let shown: Vec<(u32, &str, MarkOp)> = requests.iter().map(|r| (r.package.0, r.fullname.as_str(), r.op)).collect();
    assert_eq!(shown, vec![(0, "a:amd64", MarkOp::Delete), (1, "b:amd64", MarkOp::Install), (2, "c:amd64", MarkOp::Keep)]);
    let mut other = IntentStore::new();
    other.set(PackageId(1), UserIntent::Remove);
    other.set(PackageId(0), UserIntent::Remove);
    other.set(PackageId(7), UserIntent::Install);
    other.set(PackageId(2), UserIntent::Hold);
    other.set(PackageId(1), UserIntent::Install);
    let again = mark_requests(&cache, &other);
    let shown_again: Vec<(u32, &str, MarkOp)> = again.iter().map(|r| (r.package.0, r.fullname.as_str(), r.op)).collect();
    assert_eq!(shown_again, shown);
}

#[test]
fn sizes_that_cannot_be_held_are_found() {
    assert!(check_sizes(&vec![]));
    assert!(check_sizes(&vec![change("a", false, true, false, false, Some((u64::MAX, i64::MAX as u64)))]));
    assert!(!check_sizes(&vec![change("a", false, true, false, false, Some((1, i64::MAX as u64 + 1)))]));
    assert!(!check_sizes(&vec![change("a", false, false, false, false, Some((1, u64::MAX)))]));
    assert!(!check_sizes(&vec![
        change("a", false, true, false, false, Some((u64::MAX, 1))),
        change("b", false, true, false, false, Some((1, 1))),
    ]));
    assert!(check_sizes(&vec![
        change("a", false, false, false, false, Some((u64::MAX, 1))),
        change("b", false, true, false, false, Some((1, 1))),
    ]));
    assert!(!check_sizes(&vec![
        change("a", false, true, false, false, Some((0, i64::MAX as u64))),
        change("b", false, true, false, false, Some((0, 1))),
    ]));
    assert!(check_sizes(&vec![
        change("a", false, true, false, false, Some((0, i64::MAX as u64))),
        change("b", true, false, false, true, Some((0, i64::MAX as u64))),
        change("c", true, false, false, true, Some((0, i64::MAX as u64))),
    ]));
}

// ---------------------------------------------------------------- projection

#[test]
fn status_counts_intent_before_plan() {
    let mut intent = IntentStore::new();
    intent.set(PackageId(1), UserIntent::Install);
    intent.set(PackageId(2), UserIntent::Remove);
    intent.set(PackageId(3), UserIntent::Hold);
    let changes = vec![
        PlannedChange { package: PackageId(3), action: ChangeAction::Upgrade, reason: ChangeReason::Dependency, download_size: 0, size_change: 0 },
        PlannedChange { package: PackageId(4), action: ChangeAction::Install, reason: ChangeReason::Dependency, download_size: 0, size_change: 0 },
        PlannedChange { package: PackageId(4), action: ChangeAction::Remove, reason: ChangeReason::AutoRemove, download_size: 0, size_change: 0 },
        PlannedChange { package: PackageId(5), action: ChangeAction::Downgrade, reason: ChangeReason::Dependency, download_size: 0, size_change: 0 },
    ];
    assert_eq!(display_status(PackageStatus::Upgradable, PackageId(1), &intent, &changes), PackageStatus::MarkedForUpgrade);
    assert_eq!(display_status(PackageStatus::NotInstalled, PackageId(1), &intent, &changes), PackageStatus::MarkedForInstall);
    assert_eq!(display_status(PackageStatus::Installed, PackageId(1), &intent, &changes), PackageStatus::MarkedForInstall);
    assert_eq!(display_status(PackageStatus::Installed, PackageId(2), &intent, &changes), PackageStatus::MarkedForRemove);
    assert_eq!(display_status(PackageStatus::Installed, PackageId(3), &intent, &changes), PackageStatus::Keep);
    assert_eq!(display_status(PackageStatus::Installed, PackageId(4), &intent, &changes), PackageStatus::MarkedForRemove);
    assert_eq!(display_status(PackageStatus::Installed, PackageId(5), &intent, &changes), PackageStatus::MarkedForUpgrade);
    assert_eq!(display_status(PackageStatus::Installed, PackageId(6), &intent, &changes), PackageStatus::Installed);
    assert_eq!(planned_action(&changes, PackageId(4)), Some(ChangeAction::Remove));
    assert_eq!(planned_action(&changes, PackageId(7)), None);
}

#[test]
fn column_widths_fit_the_rows() {
    let mut long = rec("a-package-with-a-long-name", "amd64", true, true, &[]);
    long.candidate.as_mut().unwrap().version = "2:1.2.3-4ubuntu5~rc1".to_string();
    long.candidate.as_mut().unwrap().section = Some("universe/net".to_string());
    long.installed_version = Some("1:0.9.9-1build2".to_string());
    let mut foreign = rec("ü", "i386", false, false, &[]);
    foreign.candidate.as_mut().unwrap().section = Some("x".to_string());
    let cache = AptCache::new(vec![long, foreign], "amd64");
    let (list, widths) = project(&cache, &IntentStore::new(), &Vec::new(), FilterCategory::All, &None);
    assert_eq!(list.len(), 2);
    assert_eq!(widths, ColumnWidths { name: 26, section: 12, installed: 15, candidate: 20 });
    for row in &list {
        assert!(widths.name as usize >= cache.display_name(&row.name).len());
        assert!(widths.section as usize >= row.section.len());
        assert!(widths.installed as usize >= row.installed_version.len());
        assert!(widths.candidate as usize >= row.candidate_version.len());
    }
    let (list, widths) = project(&cache, &IntentStore::new(), &Vec::new(), FilterCategory::NotInstalled, &None);
    assert_eq!(list.len(), 1);
    assert_eq!(list[0].name, "ü:i386");
    assert_eq!(widths, ColumnWidths { name: 10, section: 7, installed: 9, candidate: 9 });
    let (list, widths) = project(&cache, &IntentStore::new(), &Vec::new(), FilterCategory::MarkedChanges, &None);
    assert!(list.is_empty());
    assert_eq!(widths, ColumnWidths::new());
}

#[test]
fn width_stops_where_sixteen_bits_end() {
    let mut huge = rec("h", "amd64", true, false, &[]);
    huge.candidate.as_mut().unwrap().section = Some("s".repeat(65536 + 3));
    let mut full = rec("f", "amd64", true, false, &[]);
    full.candidate.as_mut().unwrap().section = Some("s".repeat(65535));
    let cache = AptCache::new(vec![full], "amd64");
    let (_list, widths) = project(&cache, &IntentStore::new(), &Vec::new(), FilterCategory::All, &None);
    assert_eq!(widths.section, 65535);
    let cache = AptCache::new(vec![rec("s", "amd64", true, false, &[]), huge], "amd64");
    let (_list, widths) = project(&cache, &IntentStore::new(), &Vec::new(), FilterCategory::All, &None);
    assert_eq!(widths.section, 65535);
    assert_eq!(widths.candidate, 9);
}

#[test]
fn a_package_without_candidate_is_listed() {
    let mut bare = rec("bare", "amd64", true, false, &[]);
    bare.candidate = None;
    let mut gone = rec("gone", "amd64", false, false, &[]);
    gone.candidate = None;
    let cache = AptCache::new(vec![rec("a", "amd64", true, true, &[]), bare, gone], "amd64");
    let (list, _) = project(&cache, &IntentStore::new(), &Vec::new(), FilterCategory::All, &None);
    assert_eq!(list.len(), 3);
    assert_eq!(list[1].name, "bare:amd64");
    assert_eq!(list[1].id, PackageId(1));
    assert_eq!(list[1].status, PackageStatus::Installed);
    assert_eq!(list[1].section, "unknown");
    assert_eq!(list[1].installed_version, "1.0");
    assert_eq!(list[1].candidate_version, "");
    assert_eq!((list[1].installed_size, list[1].download_size), (0, 0));
    assert_eq!(list[1].description, "");
    assert_eq!(list[1].architecture, "");
    assert_eq!(list[2].status, PackageStatus::NotInstalled);
    let (list, _) = project(&cache, &IntentStore::new(), &Vec::new(), FilterCategory::Installed, &None);
    assert_eq!(list.iter().map(|r| r.name.as_str()).collect::<Vec<_>>(), vec!["a:amd64", "bare:amd64"]);
    let (list, _) = project(&cache, &IntentStore::new(), &Vec::new(), FilterCategory::NotInstalled, &None);
    assert_eq!(list.iter().map(|r| r.name.as_str()).collect::<Vec<_>>(), vec!["gone:amd64"]);
    let found = names_found(&vec!["bare".to_string()]);
    let (list, _) = project(&cache, &IntentStore::new(), &Vec::new(), FilterCategory::All, &Some(found));
    assert_eq!(list.iter().map(|r| r.name.as_str()).collect::<Vec<_>>(), vec!["bare:amd64"]);
}

#[test]
fn a_package_is_listed_once() {
    let mut again = rec("a", "amd64", false, false, &[]);
    again.candidate.as_mut().unwrap().version = "9.9".to_string();
    let cache = AptCache::new(vec![rec("a", "amd64", true, true, &[]), rec("b", "amd64", true, false, &[]), again], "amd64");
    assert_eq!(cache.position_of("a:amd64"), Some(0));
    assert_eq!(cache.position_of("b:amd64"), Some(1));
    assert_eq!(cache.position_of("c:amd64"), None);
    let (list, _) = project(&cache, &IntentStore::new(), &Vec::new(), FilterCategory::All, &None);
    assert_eq!(list.len(), 2);
    assert_eq!((list[0].id, list[1].id), (PackageId(0), PackageId(1)));
    assert_eq!(list[0].candidate_version, "2.0");
    let (list, _) = project(&cache, &IntentStore::new(), &Vec::new(), FilterCategory::NotInstalled, &None);
    assert_eq!(list.len(), 0);
}

// ---------------------------------------------------------------- cascade

#[test]
fn dependency_walk_follows_hard_dependencies_only() {
    let cache = AptCache::new(
        vec![
            rec("app", "amd64", false, false, &[("Depends", "mid"), ("Recommends", "extra")]),
            rec("mid", "amd64", false, false, &[("PreDepends", "base"), ("Depends", "app")]),
            rec("base", "amd64", false, false, &[("Depends", "virtual-thing")]),
            rec("extra", "amd64", false, false, &[("Depends", "deep")]),
            rec("deep", "amd64", false, false, &[]),
            rec("lonely", "amd64", false, false, &[]),
            rec("foreign", "i386", false, false, &[("Depends", "deep")]),
            rec("user", "amd64", false, false, &[("Depends", "foreign")]),
        ],
        "amd64",
    );
    let id = |name: &str| cache.get_id(name).unwrap();
    assert!(package_depends_on(&cache, id("app:amd64"), "mid"));
    assert!(package_depends_on(&cache, id("app:amd64"), "base"));
    assert!(package_depends_on(&cache, id("app:amd64"), "virtual-thing"));
    assert!(package_depends_on(&cache, id("app:amd64"), "app"));
    assert!(!package_depends_on(&cache, id("app:amd64"), "extra"));
    assert!(!package_depends_on(&cache, id("app:amd64"), "deep"));
    assert!(!package_depends_on(&cache, id("lonely:amd64"), "base"));
    assert!(!package_depends_on(&cache, id("base:amd64"), "app"));
    assert!(package_depends_on(&cache, id("extra:amd64"), "deep"));
    assert!(package_depends_on(&cache, id("user:amd64"), "foreign"));
    assert!(!package_depends_on(&cache, id("user:amd64"), "deep"));

    let mut intent = IntentStore::new();
    intent.set(id("lonely:amd64"), UserIntent::Install);
    intent.set(id("mid:amd64"), UserIntent::Install);
    intent.set(id("extra:amd64"), UserIntent::Install);
    intent.set(id("app:amd64"), UserIntent::Install);
    intent.set(PackageId(99), UserIntent::Install);
    assert_eq!(find_user_intent_depending_on(&cache, &intent, id("base:amd64")), vec![id("mid:amd64"), id("app:amd64")]);
    assert_eq!(find_user_intent_depending_on(&cache, &intent, id("deep:amd64")), vec![id("extra:amd64")]);
    assert!(find_user_intent_depending_on(&cache, &intent, id("lonely:amd64")).is_empty());
    assert!(find_user_intent_depending_on(&cache, &intent, PackageId(99)).is_empty());
}

#[test]
fn dependency_walk_resolves_on_the_native_architecture() {
    let cache = AptCache::new(
        vec![
            rec("a", "arm64", false, false, &[("Depends", "b")]),
            rec("b", "arm64", false, false, &[("PreDepends", "c")]),
            rec("c", "arm64", false, false, &[]),
            rec("p", "arm64", false, false, &[("Depends", "q")]),
            rec("q", "amd64", false, false, &[("Depends", "r")]),
            rec("r", "arm64", false, false, &[]),
            rec("s", "arm64", false, false, &[("Depends", "q:amd64")]),
        ],
        "arm64",
    );
    assert_eq!(cache.native_arch(), "arm64");
    assert_eq!(cache.on_native_arch("b"), "b:arm64");
    let id = |name: &str| cache.get_id(name).unwrap();
    assert!(package_depends_on(&cache, id("a:arm64"), "b"));
    assert!(package_depends_on(&cache, id("a:arm64"), "c"));
    assert!(package_depends_on(&cache, id("b:arm64"), "c"));
    assert!(!package_depends_on(&cache, id("c:arm64"), "a"));
    assert!(package_depends_on(&cache, id("p:arm64"), "q"));
    assert!(!package_depends_on(&cache, id("p:arm64"), "r"));
    assert!(package_depends_on(&cache, id("s:arm64"), "r"));

    let mut intent = IntentStore::new();
    intent.set(id("a:arm64"), UserIntent::Install);
    intent.set(id("p:arm64"), UserIntent::Install);
    assert_eq!(find_user_intent_depending_on(&cache, &intent, id("c:arm64")), vec![id("a:arm64")]);
    assert_eq!(find_user_intent_depending_on(&cache, &intent, id("b:arm64")), vec![id("a:arm64")]);
    assert!(find_user_intent_depending_on(&cache, &intent, id("r:arm64")).is_empty());

    let other = AptCache::new(
        vec![
            rec("a", "amd64", false, false, &[("Depends", "b")]),
            rec("b", "amd64", false, false, &[("Depends", "c")]),
            rec("c", "amd64", false, false, &[]),
        ],
        "arm64",
    );
    assert!(!package_depends_on(&other, other.get_id("a:amd64").unwrap(), "c"));
}

#[test]
fn changes_name_each_package_once() {
    assert!(check_names(&vec![]));
    assert!(check_names(&vec![
        change("a:amd64", false, true, false, false, Some((1, 1))),
        change("b:amd64", false, true, false, false, Some((1, 1))),
        change("a:i386", false, true, false, false, Some((1, 1))),
    ]));
    let twice = vec![
        change("a:amd64", false, true, false, false, Some((1, 1))),
        change("b:amd64", false, true, false, false, Some((1, 1))),
        change("a:amd64", true, false, false, true, Some((1, 1))),
    ];
    assert!(!check_names(&twice));
    assert!(check_sizes(&twice));
    let cache = AptCache::new(vec![rec("a", "amd64", true, true, &[])], "amd64");
    assert!(!admissible_now(&cache, &SolverOutcome { changes: twice, failure: None }));
    let once = vec![
        change("a:amd64", true, true, false, false, Some((1, 1))),
        change("b:amd64", false, true, false, false, Some((1, 1))),
    ];
    assert!(admissible_now(&cache, &SolverOutcome { changes: once, failure: None }));
    let too_large = vec![change("a:amd64", false, true, false, false, Some((1, u64::MAX)))];
    assert!(!admissible_now(&cache, &SolverOutcome { changes: too_large, failure: None }));
}

#[test]
fn missing_from_keeps_order_and_leaves_the_target_out() {
    let from = vec![PackageId(1), PackageId(2), PackageId(3), PackageId(4)];
    assert_eq!(missing_from(&from, &vec![PackageId(2)], PackageId(4)), vec![PackageId(1), PackageId(3)]);
    assert_eq!(missing_from(&from, &vec![], PackageId(9)), from);
    assert!(missing_from(&vec![], &from, PackageId(1)).is_empty());
}

// ---------------------------------------------------------------- search

#[test]
fn query_becomes_prefix_terms() {
    assert_eq!(build_pattern("lib"), "lib*");
    assert_eq!(build_pattern("  lib   foo "), "lib* foo*");
    assert_eq!(build_pattern("\"quoted\" w\"or\"d"), "quoted* word*");
    assert_eq!(build_pattern("\""), "*");
    assert_eq!(build_pattern(""), "");
    assert_eq!(build_pattern(" \t"), "");
}

#[test]
fn names_found_are_a_set() {
    let found = names_found(&vec!["b".to_string(), "a".to_string(), "b".to_string()]);
    assert_eq!(found.len(), 2);
    assert!(found.contains("a"));
    assert!(found.contains("b"));
    assert!(!found.contains("c"));
    assert_eq!(names_found(&Vec::new()).len(), 0);
}

#[test]
fn an_empty_query_is_answered_without_the_engine() {
    let index = SearchIndex::new().unwrap();
    assert!(index.search("").is_ok());
    assert_eq!(index.search("").unwrap_or_else(|_| panic!("an empty query failed")).len(), 0);
}

fn searchable() -> AptCache {
    let mut a = rec("libfoo", "amd64", true, false, &[]);
    a.candidate.as_mut().unwrap().summary = Some("Foo runtime".to_string());
    let mut b = rec("zlib", "amd64", true, false, &[]);
    b.candidate.as_mut().unwrap().summary = Some("compression library".to_string());
    let mut c = rec("bar", "amd64", false, false, &[]);
    c.candidate.as_mut().unwrap().summary = Some("a calibrated tool".to_string());
    let mut d = rec("libfoo", "i386", false, false, &[]);
    d.candidate = None;
    AptCache::new(vec![a, b, c, d, rec("plain", "amd64", false, false, &[])], "amd64")
}

#[test]
fn search_finds_words_by_prefix_in_name_and_summary() {
    let cache = searchable();
    let mut index = SearchIndex::new().unwrap();
    assert_eq!(index.search("lib").unwrap().len(), 0);
    let (count, _took) = index.build(&cache).unwrap();
    assert_eq!(count, 5);
    let found = index.search("lib").unwrap();
    assert_eq!(found.len(), 2);
    assert!(found.contains("libfoo"));
    assert!(found.contains("zlib"));
    assert!(!found.contains("bar"));
    for r in cache.packages() {
        let summary = r.candidate.as_ref().and_then(|c| c.summary.clone()).unwrap_or_default();
        let expected = r.name.to_lowercase().starts_with("lib")
            || summary.split_whitespace().any(|w| w.to_lowercase().starts_with("lib"));
        assert_eq!(found.contains(&r.name), expected, "{}", r.name);
    }
    let both = index.search("foo run").unwrap();
    assert_eq!(both.len(), 1);
    assert!(both.contains("libfoo"));
    assert_eq!(index.search("nothing").unwrap().len(), 0);
    assert_eq!(index.search("").unwrap().len(), 0);
    assert_eq!(index.search("LIBF").unwrap().len(), 1);
    assert!(index.search("(").is_err());
    match index.search("(") {
        Err(e) => assert!(!e.message.is_empty()),
        Ok(_) => panic!("the engine took a query that it cannot parse"),
    }
    let (count, _took) = index.build(&cache).unwrap();
    assert_eq!(count, 5);
    assert_eq!(index.search("lib").unwrap().len(), 2);
}

// ---------------------------------------------------------------- progress and changelog

#[test]
fn progress_log_keeps_the_last_items() {
    let mut p = ProgressState::new("Applying");
    assert_eq!(p.title, "Applying");
    assert_eq!(p.phase, ProgressPhase::Downloading);
    assert_eq!(MAX_ITEMS, 50);
    assert_eq!(PULSE_INTERVAL, 500_000);
    for i in 0..60u32 {
        p.log_item(ItemStatus::Fetch, i, format!("item {}", i), None);
    }
    assert_eq!(p.items.len(), 50);
    assert_eq!(p.items[0].label, "Get:10");
    assert_eq!(p.items[49].label, "Get:59");
    assert_eq!(p.items[49].short_desc, "item 59");
    p.log_item(ItemStatus::Hit, 7, "h".to_string(), None);
    p.log_item(ItemStatus::Done, 8, "d".to_string(), None);
    p.log_item(ItemStatus::Fail, 9, "f".to_string(), Some("timed out".to_string()));
    p.log_item(ItemStatus::Fail, 10, "g".to_string(), Some(String::new()));
    assert_eq!(p.items[46].label, "Hit:7");
    assert_eq!(p.items[47].label, "Done:8");
    assert_eq!(p.items[48].label, "Err:9");
    assert_eq!(p.items[48].status, ItemStatus::Fail);
    assert_eq!(p.items[48].error, Some("timed out".to_string()));
    assert_eq!(p.errors, vec!["f: timed out".to_string()]);
}

#[test]
fn progress_shows_what_was_reported() {
    let mut p = ProgressState::new("t");
    p.pulse(10, 100, 5);
    assert_eq!((p.current_bytes, p.total_bytes, p.speed_bps), (10, 100, 5));
    let before = p.current_bytes;
    p.pulse(40, 100, 6);
    assert!(p.current_bytes >= before);
    assert_eq!(p.phase, ProgressPhase::Downloading);
    p.pulse(25, 120, 7);
    assert_eq!((p.current_bytes, p.total_bytes, p.speed_bps), (40, 120, 7));
    p.pulse(40, 120, 0);
    assert_eq!(p.current_bytes, 40);
    p.pulse(41, 120, 1);
    assert_eq!(p.current_bytes, 41);
    p.status_changed("vim", 3, 9, "Unpacking".to_string());
    assert_eq!(p.phase, ProgressPhase::Installing);
    assert_eq!(p.install_action, "Unpacking vim");
    assert_eq!((p.install_steps_done, p.install_total_steps), (3, 9));
    p.status_changed("", 4, 9, "Running triggers".to_string());
    assert_eq!(p.install_action, "Running triggers");
    p.error("vim", "exit status 1");
    assert_eq!(p.errors, vec!["vim: exit status 1".to_string()]);
    p.start();
    assert_eq!(p.phase, ProgressPhase::Downloading);
    assert_eq!((p.current_bytes, p.total_bytes, p.speed_bps), (0, 0, 0));
    p.pulse(3, 50, 2);
    assert_eq!((p.current_bytes, p.total_bytes, p.speed_bps), (3, 50, 2));
}

#[test]
fn changelog_is_the_output_line_by_line() {
    assert_eq!(changelog_lines(true, "vim (9.0) unstable\n\n  * fix\n", ""), Ok(vec!["vim (9.0) unstable".to_string(), "".to_string(), "  * fix".to_string()]));
    assert_eq!(changelog_lines(true, "", "ignored"), Ok(vec!["No changelog available.".to_string()]));
    assert_eq!(changelog_lines(false, "ignored", "E: not found\n"), Err("Error: E: not found\n".to_string()));
    assert_eq!(changelog_failure("No such file"), "Failed to run apt changelog: No such file");
}

// ---------------------------------------------------------------- display types

#[test]
fn display_types_have_their_texts() {
    assert_eq!(PackageStatus::Upgradable.symbol(), "↑");
    assert_eq!(PackageStatus::MarkedForUpgrade.symbol(), "↑");
    assert_eq!(PackageStatus::MarkedForInstall.symbol(), "+");
    assert_eq!(PackageStatus::MarkedForRemove.symbol(), "-");
    assert_eq!(PackageStatus::Keep.symbol(), "=");
    assert_eq!(PackageStatus::Installed.symbol(), "·");
    assert_eq!(PackageStatus::NotInstalled.symbol(), " ");
    assert_eq!(PackageStatus::Broken.symbol(), "✗");
    assert!(PackageStatus::MarkedForRemove.is_marked());
    assert!(!PackageStatus::Keep.is_marked());
    assert!(!PackageStatus::Upgradable.is_marked());
    assert_eq!(FilterCategory::MarkedChanges.label(), "Marked Changes");
    assert_eq!(FilterCategory::All.label(), "All Packages");
    assert_eq!(FilterCategory::all().len(), 5);
    assert_eq!(FilterCategory::all()[0], FilterCategory::Upgradable);
    assert_eq!(SortBy::InstalledVersion.label(), "Installed version");
    assert_eq!(SortBy::all(), vec![SortBy::Name, SortBy::Section, SortBy::InstalledVersion, SortBy::CandidateVersion]);
    assert_eq!(Column::Status.header(), "S");
    assert_eq!(Column::Name.header(), "Package");
    assert_eq!(Column::DownloadSize.header(), "Download");
    let settings = Settings::default();
    assert_eq!(settings.sort_by, SortBy::CandidateVersion);
    assert_eq!(Column::visible_columns(&settings), vec![Column::Status, Column::Name, Column::CandidateVersion]);
    let all = Settings { show_section_column: true, show_installed_version_column: true, show_download_size_column: true, ..settings };
    assert_eq!(Column::visible_columns(&all).len(), 6);
    let mut widths = ColumnWidths::new();
    assert_eq!(widths, ColumnWidths { name: 10, section: 7, installed: 9, candidate: 9 });
    widths.reset();
    assert_eq!(widths, ColumnWidths { name: 7, section: 7, installed: 9, candidate: 9 });
    assert_eq!(ColumnWidths::default().name, 0);
    let preview = MarkPreview::default();
    assert!(preview.package_name.is_empty() && !preview.is_marking);
    assert_eq!(PendingChanges::default().download_size, 0);
}
