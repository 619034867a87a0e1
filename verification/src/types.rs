//! Value types shared by every layer of the package manager core.

use vstd::prelude::*;

verus! {

// ============================================================================
// Handles, intent and planned changes
// ============================================================================

/// Opaque handle to a package: an index into the handle registry.
#[derive(Clone, Copy, PartialEq, Eq, Hash, Debug, Structural)]
pub struct PackageId(pub u32);

impl PackageId {
    /// The position of this handle in the registry.
    pub fn index(self) -> (i: usize)
        ensures
            i == self.0,
    {
        self.0 as usize
    }
}

/// What the user explicitly wants for a package.
#[derive(Clone, Copy, PartialEq, Eq, Debug, Structural)]
pub enum UserIntent {
    /// No user action: whatever the solver decides.
    Default,
    /// The user wants this installed or upgraded.
    Install,
    /// The user wants this removed.
    Remove,
    /// The user wants the current version kept.
    Hold,
}

impl Default for UserIntent {
    fn default() -> (r: Self)
        ensures
            r == UserIntent::Default,
    {
        UserIntent::Default
    }
}

/// Why a package is changing.
#[derive(Clone, Copy, PartialEq, Eq, Debug, Structural)]
pub enum ChangeReason {
    /// The user asked for it.
    UserRequested,
    /// Pulled in by the solver for a user request.
    Dependency,
    /// Removed by the solver as no longer needed.
    AutoRemove,
}

/// What happens to a package.
#[derive(Clone, Copy, PartialEq, Eq, Debug, Structural)]
pub enum ChangeAction {
    Install,
    Upgrade,
    Remove,
    Downgrade,
}

/// One entry of the computed changeset. The name is derived from the handle.
#[derive(Clone, Copy, PartialEq, Eq, Debug, Structural)]
pub struct PlannedChange {
    pub package: PackageId,
    pub action: ChangeAction,
    pub reason: ChangeReason,
    pub download_size: u64,
    pub size_change: i64,
}

// ============================================================================
// Lifecycle markers
// ============================================================================

/// No pending changes.
pub struct Clean;

/// User marks exist, no plan has been computed for them.
pub struct Dirty;

/// The solver has run: the changeset is available.
pub struct Planned {
    pub changes: Vec<PlannedChange>,
    pub download_size: u64,
    pub install_size_change: i64,
    pub errors: Vec<String>,
}

/// States in which the package list can be read.
pub trait ReadableState {

}

impl ReadableState for Clean {

}

impl ReadableState for Dirty {

}

impl ReadableState for Planned {

}

/// States in which the user can change marks directly.
pub trait MarkableState {

}

impl MarkableState for Clean {

}

impl MarkableState for Dirty {

}

/// The strings of a vector, as sequences of characters.
pub open spec fn texts(v: Seq<String>) -> Seq<Seq<char>> {
    Seq::new(v.len(), |i: int| v[i]@)
}

/// Sum of the download sizes of a changeset.
pub open spec fn total_download(changes: Seq<PlannedChange>) -> int
    decreases changes.len(),
{
    if changes.len() == 0 {
        0
    } else {
        total_download(changes.drop_last()) + changes.last().download_size
    }
}

/// Sum of the installed-size deltas of a changeset.
pub open spec fn total_size_change(changes: Seq<PlannedChange>) -> int
    decreases changes.len(),
{
    if changes.len() == 0 {
        0
    } else {
        total_size_change(changes.drop_last()) + changes.last().size_change
    }
}

// ============================================================================
// Display types
// ============================================================================

/// Display status of a package. Marked packages look the same whether the
/// user or the solver marked them.
#[derive(Debug, Clone, Copy, PartialEq, Eq, Structural)]
pub enum PackageStatus {
    Installed,
    NotInstalled,
    Upgradable,
    MarkedForInstall,
    MarkedForUpgrade,
    MarkedForRemove,
    Keep,
    Broken,
}

impl PackageStatus {
    /// The one-character icon of a status.
    pub open spec fn symbol_text(self) -> Seq<char> {
        match self {
            PackageStatus::Upgradable | PackageStatus::MarkedForUpgrade => "↑"@,
            PackageStatus::MarkedForInstall => "+"@,
            PackageStatus::MarkedForRemove => "-"@,
            PackageStatus::Keep => "="@,
            PackageStatus::Installed => "·"@,
            PackageStatus::NotInstalled => " "@,
            PackageStatus::Broken => "✗"@,
        }
    }

    pub fn symbol(&self) -> (s: &'static str)
        ensures
            s@ == self.symbol_text(),
    {
        match self {
            PackageStatus::Upgradable | PackageStatus::MarkedForUpgrade => "↑",
            PackageStatus::MarkedForInstall => "+",
            PackageStatus::MarkedForRemove => "-",
            PackageStatus::Keep => "=",
            PackageStatus::Installed => "·",
            PackageStatus::NotInstalled => " ",
            PackageStatus::Broken => "✗",
        }
    }

    /// Whether a status stands for a pending change.
    pub open spec fn marked(&self) -> bool {
        *self == PackageStatus::MarkedForInstall || *self == PackageStatus::MarkedForUpgrade
            || *self == PackageStatus::MarkedForRemove
    }

    #[verifier::when_used_as_spec(marked)]
    pub fn is_marked(&self) -> (b: bool)
        ensures
            b == self.marked(),
    {
        match self {
            PackageStatus::MarkedForInstall
            | PackageStatus::MarkedForUpgrade
            | PackageStatus::MarkedForRemove => true,
            _ => false,
        }
    }
}

/// Filter categories of the left panel.
#[derive(Debug, Clone, Copy, PartialEq, Eq, Structural)]
pub enum FilterCategory {
    Upgradable,
    MarkedChanges,
    Installed,
    NotInstalled,
    All,
}

impl FilterCategory {
    pub open spec fn label_text(self) -> Seq<char> {
        match self {
            FilterCategory::Upgradable => "Upgradable"@,
            FilterCategory::MarkedChanges => "Marked Changes"@,
            FilterCategory::Installed => "Installed"@,
            FilterCategory::NotInstalled => "Not Installed"@,
            FilterCategory::All => "All Packages"@,
        }
    }

    pub fn label(&self) -> (s: &'static str)
        ensures
            s@ == self.label_text(),
    {
        match self {
            FilterCategory::Upgradable => "Upgradable",
            FilterCategory::MarkedChanges => "Marked Changes",
            FilterCategory::Installed => "Installed",
            FilterCategory::NotInstalled => "Not Installed",
            FilterCategory::All => "All Packages",
        }
    }

    /// Every category, in display order.
    pub fn all() -> (v: Vec<FilterCategory>)
        ensures
            v@ == seq![
                FilterCategory::Upgradable,
                FilterCategory::MarkedChanges,
                FilterCategory::Installed,
                FilterCategory::NotInstalled,
                FilterCategory::All,
            ],
    {
        let mut v: Vec<FilterCategory> = Vec::new();
        v.push(FilterCategory::Upgradable);
        v.push(FilterCategory::MarkedChanges);
        v.push(FilterCategory::Installed);
        v.push(FilterCategory::NotInstalled);
        v.push(FilterCategory::All);
        v
    }
}

/// One row of the package list.
#[derive(Debug)]
pub struct PackageInfo {
    /// Stable handle: the only identifier of the row.
    pub id: PackageId,
    /// Full name including the architecture, for display and sorting.
    pub name: String,
    pub status: PackageStatus,
    pub section: String,
    pub installed_version: String,
    pub candidate_version: String,
    pub installed_size: u64,
    pub download_size: u64,
    pub description: String,
    pub architecture: String,
}

/// A row of the package list with its texts as sequences of characters.
pub ghost struct PackageInfoView {
    pub id: PackageId,
    pub name: Seq<char>,
    pub status: PackageStatus,
    pub section: Seq<char>,
    pub installed_version: Seq<char>,
    pub candidate_version: Seq<char>,
    pub installed_size: u64,
    pub download_size: u64,
    pub description: Seq<char>,
    pub architecture: Seq<char>,
}

impl View for PackageInfo {
    type V = PackageInfoView;

    open spec fn view(&self) -> PackageInfoView {
        PackageInfoView {
            id: self.id,
            name: self.name@,
            status: self.status,
            section: self.section@,
            installed_version: self.installed_version@,
            candidate_version: self.candidate_version@,
            installed_size: self.installed_size,
            download_size: self.download_size,
            description: self.description@,
            architecture: self.architecture@,
        }
    }
}

impl Clone for PackageInfo {
    fn clone(&self) -> (r: Self)
        ensures
            r == *self,
    {
        PackageInfo {
            id: self.id,
            name: self.name.clone(),
            status: self.status,
            section: self.section.clone(),
            installed_version: self.installed_version.clone(),
            candidate_version: self.candidate_version.clone(),
            installed_size: self.installed_size,
            download_size: self.download_size,
            description: self.description.clone(),
            architecture: self.architecture.clone(),
        }
    }
}

/// The rows of a list, each by its view.
pub open spec fn rows(v: Seq<PackageInfo>) -> Seq<PackageInfoView> {
    Seq::new(v.len(), |i: int| v[i]@)
}

/// Which pane has focus.
#[derive(Debug, Clone, Copy, PartialEq, Eq, Structural)]
pub enum FocusedPane {
    Filters,
    Packages,
    Details,
}

/// Which tab is shown in the details pane.
#[derive(Debug, Clone, Copy, PartialEq, Eq, Structural)]
pub enum DetailsTab {
    Info,
    Dependencies,
    ReverseDeps,
}

/// Screens of the terminal front end.
#[derive(Debug, Clone, Copy, PartialEq, Eq, Structural)]
pub enum AppState {
    Listing,
    Searching,
    ShowingMarkConfirm,
    ShowingChanges,
    ShowingChangelog,
    ShowingSettings,
    ConfirmExit,
    EnteringPassword,
    Upgrading,
    Done,
}

/// Sort keys of the package list.
#[derive(Debug, Clone, Copy, PartialEq, Eq, Structural)]
pub enum SortBy {
    Name,
    Section,
    InstalledVersion,
    CandidateVersion,
}

impl SortBy {
    pub open spec fn label_text(self) -> Seq<char> {
        match self {
            SortBy::Name => "Name"@,
            SortBy::Section => "Section"@,
            SortBy::InstalledVersion => "Installed version"@,
            SortBy::CandidateVersion => "Candidate version"@,
        }
    }

    pub fn label(&self) -> (s: &'static str)
        ensures
            s@ == self.label_text(),
    {
        match self {
            SortBy::Name => "Name",
            SortBy::Section => "Section",
            SortBy::InstalledVersion => "Installed version",
            SortBy::CandidateVersion => "Candidate version",
        }
    }

    /// Every sort key, in the order in which the settings view cycles.
    pub fn all() -> (v: Vec<SortBy>)
        ensures
            v@ == seq![
                SortBy::Name,
                SortBy::Section,
                SortBy::InstalledVersion,
                SortBy::CandidateVersion,
            ],
    {
        let mut v: Vec<SortBy> = Vec::new();
        v.push(SortBy::Name);
        v.push(SortBy::Section);
        v.push(SortBy::InstalledVersion);
        v.push(SortBy::CandidateVersion);
        v
    }
}

/// Display settings.
#[derive(Debug, Clone, Copy, PartialEq, Eq, Structural)]
pub struct Settings {
    pub show_status_column: bool,
    pub show_name_column: bool,
    pub show_section_column: bool,
    pub show_installed_version_column: bool,
    pub show_candidate_version_column: bool,
    pub show_download_size_column: bool,
    pub sort_by: SortBy,
    pub sort_ascending: bool,
}

impl Default for Settings {
    fn default() -> (s: Self)
        ensures
            s == (Settings {
                show_status_column: true,
                show_name_column: true,
                show_section_column: false,
                show_installed_version_column: false,
                show_candidate_version_column: true,
                show_download_size_column: false,
                sort_by: SortBy::CandidateVersion,
                sort_ascending: true,
            }),
    {
        Settings {
            show_status_column: true,
            show_name_column: true,
            show_section_column: false,
            show_installed_version_column: false,
            show_candidate_version_column: true,
            show_download_size_column: false,
            sort_by: SortBy::CandidateVersion,
            sort_ascending: true,
        }
    }
}

/// What applying the changes needs next.
#[derive(Debug, Clone, Copy, PartialEq, Eq, Structural)]
pub enum ApplyResult {
    NeedsPassword,
    NeedsCommit,
}

/// Result of toggling a package.
#[derive(Debug)]
pub enum ToggleResult {
    /// The package was marked; `additional` came into the changeset with it.
    Marked { package: PackageId, additional: Vec<PackageId> },
    /// The package left the changeset; `also_unmarked` left with it.
    Unmarked { package: PackageId, also_unmarked: Vec<PackageId> },
    /// The package is still in the changeset. Either no user request
    /// accounts for it and nothing was touched, or the requests that account
    /// for it were taken back, and stay taken back, and the solver planned it
    /// all the same.
    NoChange { package: PackageId },
}

/// A toggle result with its vectors as sequences.
pub ghost enum ToggleResultView {
    Marked { package: PackageId, additional: Seq<PackageId> },
    Unmarked { package: PackageId, also_unmarked: Seq<PackageId> },
    NoChange { package: PackageId },
}

impl View for ToggleResult {
    type V = ToggleResultView;

    open spec fn view(&self) -> ToggleResultView {
        match *self {
            ToggleResult::Marked { package, additional } => ToggleResultView::Marked {
                package,
                additional: additional@,
            },
            ToggleResult::Unmarked { package, also_unmarked } => ToggleResultView::Unmarked {
                package,
                also_unmarked: also_unmarked@,
            },
            ToggleResult::NoChange { package } => ToggleResultView::NoChange { package },
        }
    }
}

/// What marking one package brings with it, for the confirmation dialog.
#[derive(Debug)]
pub struct MarkPreview {
    pub package_name: String,
    /// The marked package is upgraded rather than newly installed.
    pub is_upgrade: bool,
    /// The dialog confirms a mark rather than an unmark.
    pub is_marking: bool,
    pub additional_installs: Vec<String>,
    pub additional_upgrades: Vec<String>,
    pub additional_removes: Vec<String>,
    pub download_size: u64,
}

/// A mark preview with its texts as sequences of characters.
pub ghost struct MarkPreviewView {
    pub package_name: Seq<char>,
    pub is_upgrade: bool,
    pub is_marking: bool,
    pub additional_installs: Seq<Seq<char>>,
    pub additional_upgrades: Seq<Seq<char>>,
    pub additional_removes: Seq<Seq<char>>,
    pub download_size: u64,
}

impl View for MarkPreview {
    type V = MarkPreviewView;

    open spec fn view(&self) -> MarkPreviewView {
        MarkPreviewView {
            package_name: self.package_name@,
            is_upgrade: self.is_upgrade,
            is_marking: self.is_marking,
            additional_installs: texts(self.additional_installs@),
            additional_upgrades: texts(self.additional_upgrades@),
            additional_removes: texts(self.additional_removes@),
            download_size: self.download_size,
        }
    }
}

impl Default for MarkPreview {
    fn default() -> (p: Self)
        ensures
            p@ == (MarkPreviewView {
                package_name: Seq::<char>::empty(),
                is_upgrade: false,
                is_marking: false,
                additional_installs: Seq::<Seq<char>>::empty(),
                additional_upgrades: Seq::<Seq<char>>::empty(),
                additional_removes: Seq::<Seq<char>>::empty(),
                download_size: 0,
            }),
    {
        let p = MarkPreview {
            package_name: String::new(),
            is_upgrade: false,
            is_marking: false,
            additional_installs: Vec::new(),
            additional_upgrades: Vec::new(),
            additional_removes: Vec::new(),
            download_size: 0,
        };
        assert(texts(p.additional_installs@) =~= Seq::<Seq<char>>::empty());
        assert(texts(p.additional_upgrades@) =~= Seq::<Seq<char>>::empty());
        assert(texts(p.additional_removes@) =~= Seq::<Seq<char>>::empty());
        p
    }
}

/// The changes of a transaction, by name and by who asked for them.
#[derive(Debug)]
pub struct PendingChanges {
    pub to_install: Vec<String>,
    pub to_upgrade: Vec<String>,
    pub to_remove: Vec<String>,
    pub auto_install: Vec<String>,
    pub auto_upgrade: Vec<String>,
    pub auto_remove: Vec<String>,
    pub download_size: u64,
    pub install_size_change: i64,
}

impl Default for PendingChanges {
    fn default() -> (p: Self)
        ensures
            p.to_install@.len() == 0,
            p.to_upgrade@.len() == 0,
            p.to_remove@.len() == 0,
            p.auto_install@.len() == 0,
            p.auto_upgrade@.len() == 0,
            p.auto_remove@.len() == 0,
            p.download_size == 0,
            p.install_size_change == 0,
    {
        PendingChanges {
            to_install: Vec::new(),
            to_upgrade: Vec::new(),
            to_remove: Vec::new(),
            auto_install: Vec::new(),
            auto_upgrade: Vec::new(),
            auto_remove: Vec::new(),
            download_size: 0,
            install_size_change: 0,
        }
    }
}

/// Columns of the package table.
#[derive(Debug, Clone, Copy, PartialEq, Eq, Hash, Structural)]
pub enum Column {
    Status,
    Name,
    Section,
    InstalledVersion,
    CandidateVersion,
    DownloadSize,
}

impl Column {
    pub open spec fn header_text(self) -> Seq<char> {
        match self {
            Column::Status => "S"@,
            Column::Name => "Package"@,
            Column::Section => "Section"@,
            Column::InstalledVersion => "Installed"@,
            Column::CandidateVersion => "Candidate"@,
            Column::DownloadSize => "Download"@,
        }
    }

    pub fn header(&self) -> (s: &'static str)
        ensures
            s@ == self.header_text(),
    {
        match self {
            Column::Status => "S",
            Column::Name => "Package",
            Column::Section => "Section",
            Column::InstalledVersion => "Installed",
            Column::CandidateVersion => "Candidate",
            Column::DownloadSize => "Download",
        }
    }

    /// Whether the settings show a column.
    pub open spec fn shown(self, settings: Settings) -> bool {
        match self {
            Column::Status => settings.show_status_column,
            Column::Name => settings.show_name_column,
            Column::Section => settings.show_section_column,
            Column::InstalledVersion => settings.show_installed_version_column,
            Column::CandidateVersion => settings.show_candidate_version_column,
            Column::DownloadSize => settings.show_download_size_column,
        }
    }

    /// Every column, in table order.
    pub open spec fn table_order() -> Seq<Column> {
        seq![
            Column::Status,
            Column::Name,
            Column::Section,
            Column::InstalledVersion,
            Column::CandidateVersion,
            Column::DownloadSize,
        ]
    }

    /// The columns that the settings show, in table order.
    pub fn visible_columns(settings: &Settings) -> (cols: Vec<Column>)
        ensures
            cols@ == Self::table_order().filter(|c: Column| c.shown(*settings)),
    {
        let mut cols: Vec<Column> = Vec::new();
        let ghost shown = |c: Column| c.shown(*settings);
        let ghost order = Self::table_order();
        proof {
            assert(order.take(0).filter(shown) =~= Seq::<Column>::empty());
        }
        if settings.show_status_column {
            cols.push(Column::Status);
        }
        proof {
            lemma_filter_step(order, shown, 0);
        }
        if settings.show_name_column {
            cols.push(Column::Name);
        }
        proof {
            lemma_filter_step(order, shown, 1);
        }
        if settings.show_section_column {
            cols.push(Column::Section);
        }
        proof {
            lemma_filter_step(order, shown, 2);
        }
        if settings.show_installed_version_column {
            cols.push(Column::InstalledVersion);
        }
        proof {
            lemma_filter_step(order, shown, 3);
        }
        if settings.show_candidate_version_column {
            cols.push(Column::CandidateVersion);
        }
        proof {
            lemma_filter_step(order, shown, 4);
        }
        if settings.show_download_size_column {
            cols.push(Column::DownloadSize);
        }
        proof {
            lemma_filter_step(order, shown, 5);
            assert(order.take(6) =~= order);
        }
        cols
    }
}

/// Filtering one more element either appends it or leaves the result as it is.
pub proof fn lemma_filter_step<A>(s: Seq<A>, keep: spec_fn(A) -> bool, i: int)
    requires
        0 <= i < s.len(),
    ensures
        s.take(i + 1).filter(keep) == if keep(s[i]) {
            s.take(i).filter(keep).push(s[i])
        } else {
            s.take(i).filter(keep)
        },
{
    reveal(Seq::filter);
    assert(s.take(i + 1).drop_last() =~= s.take(i));
    assert(s.take(i + 1).last() == s[i]);
}

/// Widths of the text columns of the package table.
#[derive(Debug, Clone, Copy, PartialEq, Eq, Structural)]
pub struct ColumnWidths {
    pub name: u16,
    pub section: u16,
    pub installed: u16,
    pub candidate: u16,
}

impl ColumnWidths {
    /// The widths of an empty table.
    pub fn new() -> (w: Self)
        ensures
            w == (ColumnWidths { name: 10, section: 7, installed: 9, candidate: 9 }),
    {
        ColumnWidths { name: 10, section: 7, installed: 9, candidate: 9 }
    }

    /// Back to the widths of the column headers.
    pub fn reset(&mut self)
        ensures
            *final(self) == (ColumnWidths { name: 7, section: 7, installed: 9, candidate: 9 }),
    {
        self.name = 7;
        self.section = 7;
        self.installed = 9;
        self.candidate = 9;
    }
}

impl Default for ColumnWidths {
    fn default() -> (w: Self)
        ensures
            w == (ColumnWidths { name: 0, section: 0, installed: 0, candidate: 0 }),
    {
        ColumnWidths { name: 0, section: 0, installed: 0, candidate: 0 }
    }
}

/// The changes of a transaction with their names as sequences of
/// characters.
pub ghost struct PendingView {
    pub to_install: Seq<Seq<char>>,
    pub to_upgrade: Seq<Seq<char>>,
    pub to_remove: Seq<Seq<char>>,
    pub auto_install: Seq<Seq<char>>,
    pub auto_upgrade: Seq<Seq<char>>,
    pub auto_remove: Seq<Seq<char>>,
    pub download_size: u64,
    pub install_size_change: i64,
}

impl View for PendingChanges {
    type V = PendingView;

    open spec fn view(&self) -> PendingView {
        PendingView {
            to_install: texts(self.to_install@),
            to_upgrade: texts(self.to_upgrade@),
            to_remove: texts(self.to_remove@),
            auto_install: texts(self.auto_install@),
            auto_upgrade: texts(self.auto_upgrade@),
            auto_remove: texts(self.auto_remove@),
            download_size: self.download_size,
            install_size_change: self.install_size_change,
        }
    }
}

/// Names with a suffix after each.
pub open spec fn with_suffix(names: Seq<Seq<char>>, suffix: Seq<char>) -> Seq<Seq<char>> {
    Seq::new(names.len(), |i: int| names[i] + suffix)
}

/// The packages that a transaction installs or upgrades, the user's first.
pub open spec fn installed_names(p: PendingView) -> Seq<Seq<char>> {
    p.to_install + p.to_upgrade + p.auto_install + p.auto_upgrade
}

/// The packages that a transaction removes, the user's first.
pub open spec fn removed_names(p: PendingView) -> Seq<Seq<char>> {
    p.to_remove + p.auto_remove
}

/// The command line that applies the changes through `apt-get`: what is
/// installed by its name, what is removed by its name and a minus sign.
/// Without changes the command has no operation.
pub open spec fn apt_get_line(p: PendingView) -> Seq<Seq<char>> {
    let names = installed_names(p) + with_suffix(removed_names(p), "-"@);
    if names.len() == 0 {
        seq!["apt-get"@, "-y"@]
    } else {
        seq!["apt-get"@, "-y"@, "install"@] + names
    }
}

fn push_names(args: &mut Vec<String>, names: &Vec<String>)
    ensures
        texts(final(args)@) == texts(old(args)@) + texts(names@),
{
    let ghost before = texts(args@);
    let mut i: usize = 0;
    proof {
        assert(before + texts(names@).take(0) =~= before);
    }
    while i < names.len()
        invariant
            i <= names@.len(),
            texts(args@) == before + texts(names@).take(i as int),
        decreases names@.len() - i,
    {
        let ghost so_far = texts(args@);
        args.push(names[i].clone());
        proof {
            assert(texts(args@) =~= so_far.push(names@[i as int]@));
            assert(before + texts(names@).take(i + 1) =~= (before + texts(names@).take(
                i as int,
            )).push(names@[i as int]@));
        }
        i += 1;
    }
    proof {
        assert(texts(names@).take(i as int) =~= texts(names@));
    }
}

fn push_removals(args: &mut Vec<String>, names: &Vec<String>)
    ensures
        texts(final(args)@) == texts(old(args)@) + with_suffix(texts(names@), "-"@),
{
    let ghost before = texts(args@);
    let ghost all = with_suffix(texts(names@), "-"@);
    let mut i: usize = 0;
    proof {
        assert(before + all.take(0) =~= before);
    }
    while i < names.len()
        invariant
            i <= names@.len(),
            all == with_suffix(texts(names@), "-"@),
            texts(args@) == before + all.take(i as int),
        decreases names@.len() - i,
    {
        let ghost so_far = texts(args@);
        let mut name = names[i].clone();
        name.append("-");
        args.push(name);
        proof {
            assert(texts(args@) =~= so_far.push(names@[i as int]@ + "-"@));
            assert(before + all.take(i + 1) =~= (before + all.take(i as int)).push(all[i as int]));
        }
        i += 1;
    }
    proof {
        assert(all.take(i as int) =~= all);
    }
}

impl PendingChanges {
    /// The command line that applies the changes through `apt-get`.
    pub fn apt_get_args(&self) -> (args: Vec<String>)
        ensures
            texts(args@) == apt_get_line(self@),
    {
        let mut args: Vec<String> = Vec::new();
        args.push(String::from_str("apt-get"));
        args.push(String::from_str("-y"));
        proof {
            assert(texts(args@) =~= seq!["apt-get"@, "-y"@]);
        }
        let none = self.to_install.len() == 0 && self.to_upgrade.len() == 0
            && self.auto_install.len() == 0 && self.auto_upgrade.len() == 0
            && self.to_remove.len() == 0 && self.auto_remove.len() == 0;
        if none {
            proof {
                assert(installed_names(self@) + with_suffix(removed_names(self@), "-"@)
                    =~= Seq::<Seq<char>>::empty());
            }
            return args;
        }
        args.push(String::from_str("install"));
        proof {
            assert(texts(args@) =~= seq!["apt-get"@, "-y"@, "install"@]);
        }
        push_names(&mut args, &self.to_install);
        push_names(&mut args, &self.to_upgrade);
        push_names(&mut args, &self.auto_install);
        push_names(&mut args, &self.auto_upgrade);
        push_removals(&mut args, &self.to_remove);
        push_removals(&mut args, &self.auto_remove);
        proof {
            let p = self@;
            assert(with_suffix(removed_names(p), "-"@) =~= with_suffix(p.to_remove, "-"@)
                + with_suffix(p.auto_remove, "-"@));
            assert(texts(args@) =~= seq!["apt-get"@, "-y"@, "install"@] + (installed_names(p)
                + with_suffix(removed_names(p), "-"@)));
            assert((installed_names(p) + with_suffix(removed_names(p), "-"@)).len() > 0);
        }
        args
    }
}

// ============================================================================
// Colours, widths and units
// ============================================================================

/// The colours of status icons, by the names that terminals give them.
#[derive(Debug, Clone, Copy, PartialEq, Eq, Structural)]
pub enum StatusColor {
    Yellow,
    Green,
    Red,
    Blue,
    DarkGray,
    Gray,
    LightRed,
}

impl PackageStatus {
    /// The colour of a status icon: what can be upgraded is yellow, what
    /// will be installed or upgraded green, what will be removed red.
    pub open spec fn color_of(self) -> StatusColor {
        match self {
            PackageStatus::Upgradable => StatusColor::Yellow,
            PackageStatus::MarkedForUpgrade => StatusColor::Green,
            PackageStatus::MarkedForInstall => StatusColor::Green,
            PackageStatus::MarkedForRemove => StatusColor::Red,
            PackageStatus::Keep => StatusColor::Blue,
            PackageStatus::Installed => StatusColor::DarkGray,
            PackageStatus::NotInstalled => StatusColor::Gray,
            PackageStatus::Broken => StatusColor::LightRed,
        }
    }

    /// The colour of a status icon.
    pub fn color(&self) -> (c: StatusColor)
        ensures
            c == self.color_of(),
    {
        match self {
            PackageStatus::Upgradable => StatusColor::Yellow,
            PackageStatus::MarkedForUpgrade => StatusColor::Green,
            PackageStatus::MarkedForInstall => StatusColor::Green,
            PackageStatus::MarkedForRemove => StatusColor::Red,
            PackageStatus::Keep => StatusColor::Blue,
            PackageStatus::Installed => StatusColor::DarkGray,
            PackageStatus::NotInstalled => StatusColor::Gray,
            PackageStatus::Broken => StatusColor::LightRed,
        }
    }
}

/// How wide a table column is laid out.
#[derive(Debug, Clone, Copy, PartialEq, Eq, Structural)]
pub enum ColumnSpan {
    /// Exactly so many cells.
    Length(u16),
    /// So many cells at least.
    Min(u16),
}

impl Column {
    /// The width of a column: status and download size are fixed, the name
    /// takes what is left, the others fit their content.
    pub open spec fn span(self, widths: ColumnWidths) -> ColumnSpan {
        match self {
            Column::Status => ColumnSpan::Length(3),
            Column::Name => ColumnSpan::Min(widths.name),
            Column::Section => ColumnSpan::Length(widths.section),
            Column::InstalledVersion => ColumnSpan::Length(widths.installed),
            Column::CandidateVersion => ColumnSpan::Length(widths.candidate),
            Column::DownloadSize => ColumnSpan::Length(10),
        }
    }

    /// The width of a column.
    pub fn width(&self, col_widths: &ColumnWidths) -> (w: ColumnSpan)
        ensures
            w == self.span(*col_widths),
    {
        match self {
            Column::Status => ColumnSpan::Length(3),
            Column::Name => ColumnSpan::Min(col_widths.name),
            Column::Section => ColumnSpan::Length(col_widths.section),
            Column::InstalledVersion => ColumnSpan::Length(col_widths.installed),
            Column::CandidateVersion => ColumnSpan::Length(col_widths.candidate),
            Column::DownloadSize => ColumnSpan::Length(10),
        }
    }
}

/// The unit in which a size is shown.
#[derive(Debug, Clone, Copy, PartialEq, Eq, Structural)]
pub enum SizeUnit {
    /// Nothing to show: the size is zero.
    Nothing,
    Bytes,
    Kilobytes,
    Megabytes,
    Gigabytes,
}

impl SizeUnit {
    /// The number of bytes in one of the unit.
    pub open spec fn scale(self) -> u64 {
        match self {
            SizeUnit::Nothing | SizeUnit::Bytes => 1,
            SizeUnit::Kilobytes => 1024,
            SizeUnit::Megabytes => 1_048_576,
            SizeUnit::Gigabytes => 1_073_741_824,
        }
    }

    /// The number of bytes in one of the unit.
    pub fn bytes(self) -> (n: u64)
        ensures
            n == self.scale(),
    {
        match self {
            SizeUnit::Nothing | SizeUnit::Bytes => 1,
            SizeUnit::Kilobytes => 1024,
            SizeUnit::Megabytes => 1024 * 1024,
            SizeUnit::Gigabytes => 1024 * 1024 * 1024,
        }
    }
}

impl PackageInfo {
    /// The unit in which a size is shown: the largest of which the size
    /// holds one at least.
    pub open spec fn unit_of(bytes: u64) -> SizeUnit {
        if bytes == 0 {
            SizeUnit::Nothing
        } else if bytes >= 1024 * 1024 * 1024 {
            SizeUnit::Gigabytes
        } else if bytes >= 1024 * 1024 {
            SizeUnit::Megabytes
        } else if bytes >= 1024 {
            SizeUnit::Kilobytes
        } else {
            SizeUnit::Bytes
        }
    }

    /// The unit in which a size is shown.
    pub fn size_unit(bytes: u64) -> (unit: SizeUnit)
        ensures
            unit == Self::unit_of(bytes),
    {
        if bytes == 0 {
            SizeUnit::Nothing
        } else if bytes >= 1024 * 1024 * 1024 {
            SizeUnit::Gigabytes
        } else if bytes >= 1024 * 1024 {
            SizeUnit::Megabytes
        } else if bytes >= 1024 {
            SizeUnit::Kilobytes
        } else {
            SizeUnit::Bytes
        }
    }
}

// ============================================================================
// Moving through the interface
// ============================================================================

impl FocusedPane {
    /// The pane that takes the focus next: filters, packages, details, and
    /// round again.
    pub open spec fn following(self) -> FocusedPane {
        match self {
            FocusedPane::Filters => FocusedPane::Packages,
            FocusedPane::Packages => FocusedPane::Details,
            FocusedPane::Details => FocusedPane::Filters,
        }
    }

    /// The pane that takes the focus next.
    pub fn next(self) -> (p: FocusedPane)
        ensures
            p == self.following(),
    {
        match self {
            FocusedPane::Filters => FocusedPane::Packages,
            FocusedPane::Packages => FocusedPane::Details,
            FocusedPane::Details => FocusedPane::Filters,
        }
    }

    /// The pane that had the focus before: `next` the other way round.
    pub fn previous(self) -> (p: FocusedPane)
        ensures
            p.following() == self,
    {
        match self {
            FocusedPane::Filters => FocusedPane::Details,
            FocusedPane::Packages => FocusedPane::Filters,
            FocusedPane::Details => FocusedPane::Packages,
        }
    }
}

impl DetailsTab {
    /// The tab shown next: info, dependencies, reverse dependencies, and
    /// round again.
    pub open spec fn following(self) -> DetailsTab {
        match self {
            DetailsTab::Info => DetailsTab::Dependencies,
            DetailsTab::Dependencies => DetailsTab::ReverseDeps,
            DetailsTab::ReverseDeps => DetailsTab::Info,
        }
    }

    /// The tab shown next.
    pub fn next(self) -> (t: DetailsTab)
        ensures
            t == self.following(),
    {
        match self {
            DetailsTab::Info => DetailsTab::Dependencies,
            DetailsTab::Dependencies => DetailsTab::ReverseDeps,
            DetailsTab::ReverseDeps => DetailsTab::Info,
        }
    }

    /// The tab shown before: `next` the other way round.
    pub fn previous(self) -> (t: DetailsTab)
        ensures
            t.following() == self,
    {
        match self {
            DetailsTab::Info => DetailsTab::ReverseDeps,
            DetailsTab::Dependencies => DetailsTab::Info,
            DetailsTab::ReverseDeps => DetailsTab::Dependencies,
        }
    }
}

impl SortBy {
    /// The sort key that the settings view cycles to.
    pub open spec fn following(self) -> SortBy {
        match self {
            SortBy::Name => SortBy::Section,
            SortBy::Section => SortBy::InstalledVersion,
            SortBy::InstalledVersion => SortBy::CandidateVersion,
            SortBy::CandidateVersion => SortBy::Name,
        }
    }

    /// The sort key that the settings view cycles to.
    pub fn next(self) -> (k: SortBy)
        ensures
            k == self.following(),
    {
        match self {
            SortBy::Name => SortBy::Section,
            SortBy::Section => SortBy::InstalledVersion,
            SortBy::InstalledVersion => SortBy::CandidateVersion,
            SortBy::CandidateVersion => SortBy::Name,
        }
    }
}

/// The number of entries of the settings view: six columns, the sort key
/// and the sort order.
pub const SETTINGS_ITEMS: usize = 8;

impl Settings {
    /// The settings after the entry at `index` of the settings view has
    /// been toggled: a column is shown or hidden, the sort key moves on, the
    /// sort order turns round. Other positions change nothing.
    pub open spec fn toggled(self, index: usize) -> Settings {
        if index == 0 {
            Settings { show_status_column: !self.show_status_column, ..self }
        } else if index == 1 {
            Settings { show_name_column: !self.show_name_column, ..self }
        } else if index == 2 {
            Settings { show_section_column: !self.show_section_column, ..self }
        } else if index == 3 {
            Settings {
                show_installed_version_column: !self.show_installed_version_column,
                ..self
            }
        } else if index == 4 {
            Settings {
                show_candidate_version_column: !self.show_candidate_version_column,
                ..self
            }
        } else if index == 5 {
            Settings { show_download_size_column: !self.show_download_size_column, ..self }
        } else if index == 6 {
            Settings { sort_by: self.sort_by.following(), ..self }
        } else if index == 7 {
            Settings { sort_ascending: !self.sort_ascending, ..self }
        } else {
            self
        }
    }

    /// Toggles the entry at `index` of the settings view.
    pub fn toggle(&mut self, index: usize)
        ensures
            *final(self) == old(self).toggled(index),
    {
        if index == 0 {
            self.show_status_column = !self.show_status_column;
        } else if index == 1 {
            self.show_name_column = !self.show_name_column;
        } else if index == 2 {
            self.show_section_column = !self.show_section_column;
        } else if index == 3 {
            self.show_installed_version_column = !self.show_installed_version_column;
        } else if index == 4 {
            self.show_candidate_version_column = !self.show_candidate_version_column;
        } else if index == 5 {
            self.show_download_size_column = !self.show_download_size_column;
        } else if index == 6 {
            self.sort_by = self.sort_by.next();
        } else if index == 7 {
            self.sort_ascending = !self.sort_ascending;
        }
    }
}

/// Where a view stands after scrolling by `delta` lines: never before its
/// first line and never past `max`.
pub open spec fn scroll_target(current: u16, delta: i32, max: u16) -> u16 {
    if current + delta < 0 {
        0
    } else if current + delta > max {
        max
    } else {
        (current + delta) as u16
    }
}

/// Where a view stands after scrolling by `delta` lines.
pub fn scrolled(current: u16, delta: i32, max: u16) -> (position: u16)
    ensures
        position == scroll_target(current, delta, max),
{
    let target: i64 = current as i64 + delta as i64;
    if target < 0 {
        0
    } else if target > max as i64 {
        max
    } else {
        target as u16
    }
}

/// Where a selection stands after moving by `delta` rows among `count`
/// rows: on the first row at least, on the last at most. Without rows
/// there is no selection.
pub open spec fn selection_target(current: usize, delta: i32, count: usize) -> Option<usize> {
    if count == 0 {
        None
    } else if current + delta < 0 {
        Some(0usize)
    } else if current + delta > count - 1 {
        Some((count - 1) as usize)
    } else {
        Some((current + delta) as usize)
    }
}

/// Where a selection stands after moving by `delta` rows among `count`.
pub fn moved_selection(current: usize, delta: i32, count: usize) -> (position: Option<usize>)
    ensures
        position == selection_target(current, delta, count),
{
    if count == 0 {
        None
    } else if delta < 0 {
        let back: usize = (-(delta as i64)) as usize;
        if back > current {
            Some(0)
        } else if current - back > count - 1 {
            Some(count - 1)
        } else {
            Some(current - back)
        }
    } else {
        let forth: usize = delta as usize;
        if current > count - 1 || forth > count - 1 - current {
            Some(count - 1)
        } else {
            Some(current + forth)
        }
    }
}

} // verus!
