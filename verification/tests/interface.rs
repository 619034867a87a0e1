//! The parts that the terminal interface leans on.

use synh8::apt::{AptChange, AptPackageState, CandidateInfo, PackageRecord};
use synh8::planner::SolverOutcome;
use synh8::state::ManagerState;
use synh8::types::{
    moved_selection, scrolled, Column, ColumnSpan, ColumnWidths, DetailsTab, FocusedPane, PackageId,
    PackageInfo, PackageStatus, PendingChanges, Settings, SizeUnit, SortBy, StatusColor,
    SETTINGS_ITEMS,
};

#[test]
fn focus_and_tabs_go_round() {
    assert_eq!(FocusedPane::Filters.next(), FocusedPane::Packages);
    assert_eq!(FocusedPane::Packages.next(), FocusedPane::Details);
    assert_eq!(FocusedPane::Details.next(), FocusedPane::Filters);
    assert_eq!(DetailsTab::Info.next(), DetailsTab::Dependencies);
    assert_eq!(DetailsTab::Dependencies.next(), DetailsTab::ReverseDeps);
    assert_eq!(DetailsTab::ReverseDeps.next(), DetailsTab::Info);
    for pane in [FocusedPane::Filters, FocusedPane::Packages, FocusedPane::Details] {
        assert_eq!(pane.next().previous(), pane);
        assert_eq!(pane.previous().next(), pane);
    }
    for tab in [DetailsTab::Info, DetailsTab::Dependencies, DetailsTab::ReverseDeps] {
        assert_eq!(tab.next().previous(), tab);
        assert_eq!(tab.previous().next(), tab);
    }
    assert_eq!(SortBy::Name.next(), SortBy::Section);
    assert_eq!(SortBy::CandidateVersion.next(), SortBy::Name);
    let all = SortBy::all();
    for (i, key) in all.iter().enumerate() {
        assert_eq!(key.next(), all[(i + 1) % all.len()]);
    }
}

#[test]
fn settings_toggle_by_position() {
    assert_eq!(SETTINGS_ITEMS, 8);
    let start = Settings::default();
    let mut s = start;
    s.toggle(0);
    assert!(!s.show_status_column);
    s.toggle(1);
    assert!(!s.show_name_column);
    s.toggle(2);
    assert!(s.show_section_column);
    s.toggle(3);
    assert!(s.show_installed_version_column);
    s.toggle(4);
    assert!(!s.show_candidate_version_column);
    s.toggle(5);
    assert!(s.show_download_size_column);
    s.toggle(6);
    assert_eq!(s.sort_by, SortBy::Name);
    s.toggle(7);
    assert!(!s.sort_ascending);
    let before = s;
    s.toggle(8);
    s.toggle(usize::MAX);
    assert_eq!(s, before);
    for i in 0..8 {
        if i != 6 {
            s.toggle(i);
        }
    }
    for _ in 0..3 {
        s.toggle(6);
    }
    assert_eq!(s, start);
}

#[test]
fn scrolling_stays_within_the_view() {
    assert_eq!(scrolled(0, -1, 10), 0);
    assert_eq!(scrolled(3, -1, 10), 2);
    assert_eq!(scrolled(3, 20, 10), 10);
    assert_eq!(scrolled(10, 1, 10), 10);
    assert_eq!(scrolled(5, 0, 3), 3);
    assert_eq!(scrolled(u16::MAX, i32::MAX, u16::MAX), u16::MAX);
    assert_eq!(scrolled(u16::MAX, i32::MIN, u16::MAX), 0);
    assert_eq!(scrolled(0, 7, 0), 0);
}

#[test]
fn selection_stays_on_a_row() {
    assert_eq!(moved_selection(0, 1, 0), None);
    assert_eq!(moved_selection(0, -1, 5), Some(0));
    assert_eq!(moved_selection(2, -1, 5), Some(1));
    assert_eq!(moved_selection(2, 10, 5), Some(4));
    assert_eq!(moved_selection(4, 1, 5), Some(4));
    assert_eq!(moved_selection(9, -1, 5), Some(4));
    assert_eq!(moved_selection(9, 1, 5), Some(4));
    assert_eq!(moved_selection(usize::MAX, i32::MAX, usize::MAX), Some(usize::MAX - 1));
    assert_eq!(moved_selection(usize::MAX, i32::MIN, 3), Some(2));
    assert_eq!(moved_selection(0, i32::MIN, 3), Some(0));
    for current in 0..6usize {
        for delta in -7..7i32 {
            let expected = (current as i64 + delta as i64).clamp(0, 3) as usize;
            assert_eq!(moved_selection(current, delta, 4), Some(expected));
        }
    }
}

fn pending(install: &[&str], upgrade: &[&str], remove: &[&str], auto_install: &[&str], auto_upgrade: &[&str], auto_remove: &[&str]) -> PendingChanges {
    let own = |names: &[&str]| names.iter().map(|n| n.to_string()).collect::<Vec<String>>();
    PendingChanges {
        to_install: own(install),
        to_upgrade: own(upgrade),
        to_remove: own(remove),
        auto_install: own(auto_install),
        auto_upgrade: own(auto_upgrade),
        auto_remove: own(auto_remove),
        download_size: 0,
        install_size_change: 0,
    }
}

#[test]
fn apt_get_line_names_every_change() {
    assert_eq!(PendingChanges::default().apt_get_args(), vec!["apt-get", "-y"]);
    assert_eq!(
        pending(&["a"], &["b", "c"], &["d"], &["e"], &["f"], &["g", "h"]).apt_get_args(),
        vec!["apt-get", "-y", "install", "a", "b", "c", "e", "f", "d-", "g-", "h-"]
    );
    assert_eq!(pending(&[], &[], &[], &[], &[], &["old"]).apt_get_args(), vec!["apt-get", "-y", "install", "old-"]);
    assert_eq!(pending(&[], &[], &[], &[], &["lib"], &[]).apt_get_args(), vec!["apt-get", "-y", "install", "lib"]);
}

fn rec(name: &str, arch: &str, installed: bool) -> PackageRecord {
    PackageRecord {
        name: name.to_string(),
        fullname: format!("{}:{}", name, arch),
        state: AptPackageState {
            is_installed: installed,
            is_upgradable: installed,
            marked_install: false,
            marked_delete: false,
            marked_upgrade: false,
        },
        installed_version: None,
        candidate: Some(CandidateInfo {
            version: "1".to_string(),
            section: None,
            size: 1,
            installed_size: 1,
            summary: None,
            arch: arch.to_string(),
        }),
        dependencies: Vec::new(),
        reverse_dependencies: Vec::new(),
    }
}

fn change(fullname: &str, installed: bool, delete: bool, sizes: (u64, u64)) -> AptChange {
    AptChange {
        fullname: fullname.to_string(),
        is_installed: installed,
        marked_install: !delete && !installed,
        marked_upgrade: !delete && installed,
        marked_delete: delete,
        candidate: Some(sizes),
    }
}

#[test]
fn pending_changes_sort_the_plan_by_action_and_asker() {
    let mut state = ManagerState::new(
        vec![rec("new", "amd64", false), rec("up", "amd64", true), rec("gone", "amd64", true), rec("dep", "i386", false), rec("libup", "amd64", true), rec("orphan", "amd64", true)],
        "amd64",
    );
    assert_eq!(state.pending_changes().apt_get_args(), vec!["apt-get", "-y"]);
    state.mark_install(PackageId(0));
    state.mark_install(PackageId(1));
    state.mark_remove(PackageId(2));
    assert!(state.pending_changes().to_install.is_empty());
    state.compute_plan(SolverOutcome {
        changes: vec![
            change("new:amd64", false, false, (10, 100)),
            change("dep:i386", false, false, (20, 200)),
            change("up:amd64", true, false, (30, 300)),
            change("libup:amd64", true, false, (40, 400)),
            change("gone:amd64", true, true, (50, 500)),
            change("orphan:amd64", true, true, (60, 600)),
        ],
        failure: None,
    });
    let p = state.pending_changes();
    assert_eq!(p.to_install, vec!["new"]);
    assert_eq!(p.auto_install, vec!["dep:i386"]);
    assert_eq!(p.to_upgrade, vec!["up"]);
    assert_eq!(p.auto_upgrade, vec!["libup"]);
    assert_eq!(p.to_remove, vec!["gone"]);
    assert_eq!(p.auto_remove, vec!["orphan"]);
    assert_eq!(p.download_size, 210);
    assert_eq!(p.install_size_change, 100 + 200 + 300 + 400 - 500 - 600);
    assert_eq!(
        p.apt_get_args(),
        vec!["apt-get", "-y", "install", "new", "up", "dep:i386", "libup", "gone-", "orphan-"]
    );
}

#[test]
fn statuses_have_their_colours() {
    assert_eq!(PackageStatus::Upgradable.color(), StatusColor::Yellow);
    assert_eq!(PackageStatus::MarkedForUpgrade.color(), StatusColor::Green);
    assert_eq!(PackageStatus::MarkedForInstall.color(), StatusColor::Green);
    assert_eq!(PackageStatus::MarkedForRemove.color(), StatusColor::Red);
    assert_eq!(PackageStatus::Keep.color(), StatusColor::Blue);
    assert_eq!(PackageStatus::Installed.color(), StatusColor::DarkGray);
    assert_eq!(PackageStatus::NotInstalled.color(), StatusColor::Gray);
    assert_eq!(PackageStatus::Broken.color(), StatusColor::LightRed);
}

#[test]
fn columns_have_their_widths() {
    let widths = ColumnWidths { name: 21, section: 8, installed: 11, candidate: 13 };
    assert_eq!(Column::Status.width(&widths), ColumnSpan::Length(3));
    assert_eq!(Column::Name.width(&widths), ColumnSpan::Min(21));
    assert_eq!(Column::Section.width(&widths), ColumnSpan::Length(8));
    assert_eq!(Column::InstalledVersion.width(&widths), ColumnSpan::Length(11));
    assert_eq!(Column::CandidateVersion.width(&widths), ColumnSpan::Length(13));
    assert_eq!(Column::DownloadSize.width(&widths), ColumnSpan::Length(10));
}

#[test]
fn sizes_have_their_units() {
    assert_eq!(PackageInfo::size_unit(0), SizeUnit::Nothing);
    assert_eq!(PackageInfo::size_unit(1), SizeUnit::Bytes);
    assert_eq!(PackageInfo::size_unit(1023), SizeUnit::Bytes);
    assert_eq!(PackageInfo::size_unit(1024), SizeUnit::Kilobytes);
    assert_eq!(PackageInfo::size_unit(1024 * 1024 - 1), SizeUnit::Kilobytes);
    assert_eq!(PackageInfo::size_unit(1024 * 1024), SizeUnit::Megabytes);
    assert_eq!(PackageInfo::size_unit(1024 * 1024 * 1024 - 1), SizeUnit::Megabytes);
    assert_eq!(PackageInfo::size_unit(1024 * 1024 * 1024), SizeUnit::Gigabytes);
    assert_eq!(PackageInfo::size_unit(u64::MAX), SizeUnit::Gigabytes);
    assert_eq!(SizeUnit::Nothing.bytes(), 1);
    assert_eq!(SizeUnit::Bytes.bytes(), 1);
    assert_eq!(SizeUnit::Kilobytes.bytes(), 1024);
    assert_eq!(SizeUnit::Megabytes.bytes(), 1_048_576);
    assert_eq!(SizeUnit::Gigabytes.bytes(), 1_073_741_824);
}

#[test]
fn package_status_counts_intent_and_plan() {
    let mut state = ManagerState::new(
        vec![rec("new", "amd64", false), rec("up", "amd64", true), rec("dep", "amd64", false)],
        "amd64",
    );
    assert_eq!(state.get_package_status("new:amd64"), PackageStatus::NotInstalled);
    assert_eq!(state.get_package_status("up:amd64"), PackageStatus::Upgradable);
    assert_eq!(state.get_package_status("up"), PackageStatus::NotInstalled);
    assert_eq!(state.get_package_status("missing:amd64"), PackageStatus::NotInstalled);
    state.mark_install(PackageId(0));
    state.mark_install(PackageId(1));
    assert_eq!(state.get_package_status("new:amd64"), PackageStatus::MarkedForInstall);
    assert_eq!(state.get_package_status("up:amd64"), PackageStatus::MarkedForUpgrade);
    assert_eq!(state.get_package_status("dep:amd64"), PackageStatus::NotInstalled);
    state.compute_plan(SolverOutcome {
        changes: vec![
            change("new:amd64", false, false, (1, 1)),
            change("up:amd64", true, false, (1, 1)),
            change("dep:amd64", false, false, (1, 1)),
        ],
        failure: None,
    });
    assert_eq!(state.get_package_status("dep:amd64"), PackageStatus::MarkedForInstall);
    state.modify();
    assert_eq!(state.get_package_status("dep:amd64"), PackageStatus::NotInstalled);
}
