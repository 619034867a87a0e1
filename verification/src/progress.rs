//! The progress sink: what the download and install phases of a
//! transaction report, kept as plain state for whoever draws it.
//!
//! The native library calls back with its own types; the caller takes the
//! numbers and texts out of them and passes them on to the methods here.

use crate::text::{joined, push_decimal};
use crate::text::decimal_text;
use crate::types::texts;
use vstd::prelude::*;
use vstd::string::*;

verus! {

/// The phase of a transaction.
#[derive(Debug, Clone, Copy, PartialEq, Eq, Structural)]
pub enum ProgressPhase {
    Downloading,
    Installing,
    Done,
}

/// What happened to a download item.
#[derive(Debug, Clone, Copy, PartialEq, Eq, Structural)]
pub enum ItemStatus {
    /// The source was already up to date.
    Hit,
    /// The download started.
    Fetch,
    /// The download finished.
    Done,
    /// The download failed.
    Fail,
}

/// One line of the download log.
#[derive(Debug)]
pub struct ProgressItem {
    pub label: String,
    pub short_desc: String,
    pub status: ItemStatus,
    pub error: Option<String>,
}

/// A line of the download log with its texts as sequences of characters.
pub ghost struct ProgressItemView {
    pub label: Seq<char>,
    pub short_desc: Seq<char>,
    pub status: ItemStatus,
    pub error: Option<Seq<char>>,
}

impl View for ProgressItem {
    type V = ProgressItemView;

    open spec fn view(&self) -> ProgressItemView {
        ProgressItemView {
            label: self.label@,
            short_desc: self.short_desc@,
            status: self.status,
            error: match self.error {
                Some(e) => Some(e@),
                None => None,
            },
        }
    }
}

/// The lines of a log, each by its view.
pub open spec fn items_view(v: Seq<ProgressItem>) -> Seq<ProgressItemView> {
    Seq::new(v.len(), |i: int| v[i]@)
}

/// The number of lines that the download log keeps.
pub const MAX_ITEMS: usize = 50;

/// The microseconds between two pulses of the download phase.
pub const PULSE_INTERVAL: usize = 500_000;

/// The state of a transaction in progress.
#[derive(Debug)]
pub struct ProgressState {
    pub phase: ProgressPhase,
    pub current_bytes: u64,
    pub total_bytes: u64,
    pub speed_bps: u64,
    pub items: Vec<ProgressItem>,
    pub install_steps_done: u64,
    pub install_total_steps: u64,
    pub install_action: String,
    pub errors: Vec<String>,
    /// Title of the progress box.
    pub title: String,
}

/// The prefix of a log label.
pub open spec fn label_prefix(status: ItemStatus) -> Seq<char> {
    match status {
        ItemStatus::Hit => "Hit:"@,
        ItemStatus::Fetch => "Get:"@,
        ItemStatus::Done => "Done:"@,
        ItemStatus::Fail => "Err:"@,
    }
}

/// The log after one more line: the oldest line goes once the log is full.
pub open spec fn logged(items: Seq<ProgressItemView>, item: ProgressItemView) -> Seq<
    ProgressItemView,
> {
    if items.len() + 1 > MAX_ITEMS {
        items.push(item).drop_first()
    } else {
        items.push(item)
    }
}

/// What the install phase shows as its action.
pub open spec fn action_text(pkgname: Seq<char>, action: Seq<char>) -> Seq<char> {
    if pkgname.len() == 0 {
        action
    } else {
        action + " "@ + pkgname
    }
}

impl ProgressState {
    /// The state before anything was reported.
    pub fn new(title: &str) -> (s: Self)
        ensures
            s.phase == ProgressPhase::Downloading,
            s.current_bytes == 0,
            s.total_bytes == 0,
            s.speed_bps == 0,
            s.items@.len() == 0,
            s.install_steps_done == 0,
            s.install_total_steps == 0,
            s.install_action@.len() == 0,
            s.errors@.len() == 0,
            s.title@ == title@,
    {
        ProgressState {
            phase: ProgressPhase::Downloading,
            current_bytes: 0,
            total_bytes: 0,
            speed_bps: 0,
            items: Vec::new(),
            install_steps_done: 0,
            install_total_steps: 0,
            install_action: String::new(),
            errors: Vec::new(),
            title: String::from_str(title),
        }
    }

    /// Adds a line to the download log, which keeps the last `MAX_ITEMS`.
    pub fn push_item(&mut self, item: ProgressItem)
        ensures
            items_view(final(self).items@) == logged(items_view(old(self).items@), item@),
            final(self).phase == old(self).phase,
            final(self).current_bytes == old(self).current_bytes,
            final(self).total_bytes == old(self).total_bytes,
            final(self).speed_bps == old(self).speed_bps,
            final(self).install_steps_done == old(self).install_steps_done,
            final(self).install_total_steps == old(self).install_total_steps,
            final(self).install_action == old(self).install_action,
            final(self).errors == old(self).errors,
            final(self).title == old(self).title,
    {
        let ghost before = items_view(self.items@);
        let ghost added = item@;
        self.items.push(item);
        proof {
            assert(items_view(self.items@) =~= before.push(added));
        }
        if self.items.len() > MAX_ITEMS {
            self.items.remove(0);
            proof {
                assert(items_view(self.items@) =~= before.push(added).drop_first());
            }
        }
    }

    /// Logs what happened to the download item `id`. A failure with a
    /// message is also kept among the errors, as `description: message`.
    pub fn log_item(&mut self, status: ItemStatus, id: u32, short_desc: String, error_text: Option<String>)
        ensures
            items_view(final(self).items@) == logged(
                items_view(old(self).items@),
                ProgressItemView {
                    label: label_prefix(status) + decimal_text(id as nat),
                    short_desc: short_desc@,
                    status,
                    error: match error_text {
                        Some(e) => Some(e@),
                        None => None,
                    },
                },
            ),
            texts(final(self).errors@) == match error_text {
                Some(e) => if status == ItemStatus::Fail && e@.len() > 0 {
                    texts(old(self).errors@).push(short_desc@ + ": "@ + e@)
                } else {
                    texts(old(self).errors@)
                },
                None => texts(old(self).errors@),
            },
            final(self).phase == old(self).phase,
            final(self).current_bytes == old(self).current_bytes,
            final(self).total_bytes == old(self).total_bytes,
            final(self).speed_bps == old(self).speed_bps,
            final(self).install_steps_done == old(self).install_steps_done,
            final(self).install_total_steps == old(self).install_total_steps,
            final(self).install_action == old(self).install_action,
            final(self).title == old(self).title,
    {
        let mut label = String::from_str(
            match status {
                ItemStatus::Hit => "Hit:",
                ItemStatus::Fetch => "Get:",
                ItemStatus::Done => "Done:",
                ItemStatus::Fail => "Err:",
            },
        );
        push_decimal(&mut label, id as u64);
        let ghost errors_before = texts(self.errors@);
        if let Some(e) = &error_text {
            if status == ItemStatus::Fail && e.as_str().unicode_len() > 0 {
                let mut line = joined(short_desc.as_str(), ": ");
                line.append(e.as_str());
                self.errors.push(line);
                proof {
                    assert(texts(self.errors@) =~= errors_before.push(short_desc@ + ": "@ + e@));
                }
            }
        }
        self.push_item(ProgressItem { label, short_desc, status, error: error_text });
    }

    /// Takes a pulse of the download phase: the bytes so far, the bytes in
    /// all, and the speed in bytes per second. The bytes so far never go
    /// back within a phase: a report below what is shown leaves it.
    pub fn pulse(&mut self, current_bytes: u64, total_bytes: u64, speed_bps: u64)
        ensures
            *final(self) == pulsed(*old(self), current_bytes, total_bytes, speed_bps),
            final(self).current_bytes >= old(self).current_bytes,
            current_bytes >= old(self).current_bytes ==> final(self).current_bytes == current_bytes,
    {
        if current_bytes > self.current_bytes {
            self.current_bytes = current_bytes;
        }
        self.total_bytes = total_bytes;
        self.speed_bps = speed_bps;
    }

    /// The download phase starts: nothing is downloaded yet.
    pub fn start(&mut self)
        ensures
            *final(self) == started(*old(self)),
    {
        self.phase = ProgressPhase::Downloading;
        self.current_bytes = 0;
        self.total_bytes = 0;
        self.speed_bps = 0;
    }

    /// The install phase reports a step.
    pub fn status_changed(&mut self, pkgname: &str, steps_done: u64, total_steps: u64, action: String)
        ensures
            final(self).phase == ProgressPhase::Installing,
            final(self).install_steps_done == steps_done,
            final(self).install_total_steps == total_steps,
            final(self).install_action@ == action_text(pkgname@, action@),
            final(self).current_bytes == old(self).current_bytes,
            final(self).total_bytes == old(self).total_bytes,
            final(self).speed_bps == old(self).speed_bps,
            final(self).items == old(self).items,
            final(self).errors == old(self).errors,
            final(self).title == old(self).title,
    {
        self.phase = ProgressPhase::Installing;
        self.install_steps_done = steps_done;
        self.install_total_steps = total_steps;
        if pkgname.unicode_len() == 0 {
            self.install_action = action;
        } else {
            let mut text = action;
            text.append(" ");
            text.append(pkgname);
            self.install_action = text;
        }
    }

    /// The install phase reports an error, kept as `package: message`.
    pub fn error(&mut self, pkgname: &str, error: &str)
        ensures
            texts(final(self).errors@) == texts(old(self).errors@).push(pkgname@ + ": "@ + error@),
            final(self).phase == old(self).phase,
            final(self).current_bytes == old(self).current_bytes,
            final(self).total_bytes == old(self).total_bytes,
            final(self).speed_bps == old(self).speed_bps,
            final(self).items == old(self).items,
            final(self).install_steps_done == old(self).install_steps_done,
            final(self).install_total_steps == old(self).install_total_steps,
            final(self).install_action == old(self).install_action,
            final(self).title == old(self).title,
    {
        let ghost before = texts(self.errors@);
        let mut line = joined(pkgname, ": ");
        line.append(error);
        self.errors.push(line);
        proof {
            assert(texts(self.errors@) =~= before.push(pkgname@ + ": "@ + error@));
        }
    }
}

/// The state after a pulse: the bytes so far are the report, or what was
/// shown before where the report is lower.
pub open spec fn pulsed(s: ProgressState, current_bytes: u64, total_bytes: u64, speed_bps: u64) -> ProgressState {
    ProgressState {
        current_bytes: if current_bytes > s.current_bytes {
            current_bytes
        } else {
            s.current_bytes
        },
        total_bytes,
        speed_bps,
        ..s
    }
}

/// The state at the start of a download phase.
pub open spec fn started(s: ProgressState) -> ProgressState {
    ProgressState {
        phase: ProgressPhase::Downloading,
        current_bytes: 0,
        total_bytes: 0,
        speed_bps: 0,
        ..s
    }
}

/// The state after the pulses of one phase, one after the other.
pub open spec fn pulsed_all(s: ProgressState, reports: Seq<(u64, u64, u64)>) -> ProgressState
    decreases reports.len(),
{
    if reports.len() == 0 {
        s
    } else {
        let r = reports.last();
        pulsed(pulsed_all(s, reports.drop_last()), r.0, r.1, r.2)
    }
}

/// The bytes so far never go back within a phase, whatever is reported: not
/// from one pulse to the next, and not over any run of pulses. A pulse
/// leaves the phase as it is, and shows the report where that is not lower.
pub proof fn lemma_bytes_never_go_back(s: ProgressState, reports: Seq<(u64, u64, u64)>, k: int)
    requires
        0 <= k <= reports.len(),
    ensures
        pulsed_all(s, reports.take(k)).current_bytes <= pulsed_all(s, reports).current_bytes,
        pulsed_all(s, reports).phase == s.phase,
        reports.len() > 0 && reports.last().0 >= pulsed_all(s, reports.drop_last()).current_bytes
            ==> pulsed_all(s, reports).current_bytes == reports.last().0,
    decreases reports.len(),
{
    if k == reports.len() {
        assert(reports.take(k) =~= reports);
        if reports.len() > 0 {
            lemma_bytes_never_go_back(s, reports.drop_last(), 0);
        }
    } else {
        lemma_bytes_never_go_back(s, reports.drop_last(), k);
        assert(reports.take(k) =~= reports.drop_last().take(k));
    }
}

} // verus!
