//! The business rules: starting a task (closing any open one first),
//! stopping the active task, and the same-day summary.
//!
//! Each operation is a pure transition on a loaded log; the caller loads
//! the log before and persists it afterward.

use vstd::prelude::*;
use crate::data::{
    DataStore, EntryModel, TimeEntry, at_most_one_open, current_open, has_open,
    last_open_index, lemma_last_open_index_pins, lemma_last_open_index_props, wf_log,
};
use crate::error::TimeCheckerError;
use crate::summary::{Summary, summarize, summary_of};
use crate::time::{Timestamp, now_local};

verus! {

/// The entry closed at `now`.
pub open spec fn close_entry(e: EntryModel, now: Timestamp) -> EntryModel {
    EntryModel { task: e.task, start: e.start, end: Some(now), note: e.note }
}

/// The log with its most recently appended open entry (if any) closed at
/// `now`; a log with nothing open is unchanged.
pub open spec fn close_last_open(log: Seq<EntryModel>, now: Timestamp) -> Seq<EntryModel> {
    if has_open(log) {
        log.update(last_open_index(log), close_entry(log[last_open_index(log)], now))
    } else {
        log
    }
}

/// The log after starting a task at `now`: any open entry is closed at
/// `now`, and a fresh open entry is appended.
pub open spec fn start_spec(
    log: Seq<EntryModel>,
    task: Seq<char>,
    note: Option<Seq<char>>,
    now: Timestamp,
) -> Seq<EntryModel> {
    close_last_open(log, now).push(EntryModel { task, start: now, end: None, note })
}

/// The log after stopping at `now`; meaningful only when an entry is open.
pub open spec fn stop_spec(log: Seq<EntryModel>, now: Timestamp) -> Seq<EntryModel> {
    close_last_open(log, now)
}

/// Owns the business rules. It keeps no state of its own: the log handed
/// in by the caller is the sole source of truth.
pub struct Tracker {
    store: DataStore,
}

/// Index of the most recently appended open entry.
fn find_open_index(entries: &Vec<TimeEntry>) -> (r: Option<usize>)
    ensures
        match r {
            Some(i) => i < entries.deep_view().len() && i as int == last_open_index(
                entries.deep_view(),
            ),
            None => !has_open(entries.deep_view()),
        },
{
    let ghost log = entries.deep_view();
    let mut i: usize = entries.len();
    while i > 0
        invariant
            i <= entries@.len(),
            log == entries.deep_view(),
            forall|j: int| i <= j < log.len() ==> (#[trigger] log[j]).end is Some,
        decreases i,
    {
        i = i - 1;
        if entries[i].end.is_none() {
            proof {
                lemma_last_open_index_pins(log, i as int);
            }
            return Some(i);
        }
    }
    proof {
        lemma_last_open_index_props(log);
    }
    None
}

/// Closes the most recently appended open entry, if any, at `now`.
#[verifier::loop_isolation(false)]
fn close_open_entry(entries: &mut Vec<TimeEntry>, now: Timestamp)
    ensures
        final(entries).deep_view() == close_last_open(old(entries).deep_view(), now),
{
    let ghost log = entries.deep_view();
    match find_open_index(entries) {
        Some(i) => {
            let task = entries[i].task.clone();
            let note = match &entries[i].note {
                Some(n) => Some(n.clone()),
                None => None,
            };
            let start = entries[i].start;
            entries[i] = TimeEntry { task, start, end: Some(now), note };
            proof {
                assert(entries.deep_view() =~= log.update(
                    i as int,
                    close_entry(log[i as int], now),
                ));
            }
        },
        None => {
            proof {
                assert(entries.deep_view() =~= close_last_open(log, now));
            }
        },
    }
}

impl Tracker {
    /// The store this tracker was built around.
    pub closed spec fn spec_store(self) -> DataStore {
        self.store
    }

    pub fn new(store: DataStore) -> (t: Self)
        ensures
            t.spec_store() == store,
    {
        Tracker { store }
    }

    pub fn store(&self) -> (s: &DataStore)
        ensures
            s == self.spec_store(),
    {
        &self.store
    }

    /// Starts a task at the given instant: closes any open entry at `now`
    /// and appends a fresh open entry for `task`.
    pub fn start_task_at(
        entries: &mut Vec<TimeEntry>,
        task: String,
        note: Option<String>,
        now: Timestamp,
    )
        ensures
            final(entries).deep_view() == start_spec(
                old(entries).deep_view(),
                task@,
                note.deep_view(),
                now,
            ),
    {
        close_open_entry(entries, now);
        let entry = TimeEntry { task, start: now, end: None, note };
        entries.push(entry);
        proof {
            assert(entries.deep_view() =~= start_spec(
                old(entries).deep_view(),
                task@,
                note.deep_view(),
                now,
            ));
        }
    }

    /// Starts a task now. A previously open entry is closed first; that no
    /// entry was open is no error.
    pub fn start_task(&self, entries: &mut Vec<TimeEntry>, task: String, note: Option<String>)
        ensures
            exists|now: Timestamp|
                now.wf() && final(entries).deep_view() == #[trigger] start_spec(
                    old(entries).deep_view(),
                    task@,
                    note.deep_view(),
                    now,
                ),
    {
        let now = now_local();
        let ghost t = now;
        Self::start_task_at(entries, task, note, now);
        proof {
            assert(t.wf() && final(entries).deep_view() == start_spec(
                old(entries).deep_view(),
                task@,
                note.deep_view(),
                t,
            ));
        }
    }

    /// Stops the open entry at the given instant, or reports `NoActiveTask`
    /// (leaving the log unchanged) when nothing is open.
    pub fn stop_task_at(entries: &mut Vec<TimeEntry>, now: Timestamp) -> (r: Result<
        (),
        TimeCheckerError,
    >)
        ensures
            match r {
                Ok(_) => has_open(old(entries).deep_view()) && final(entries).deep_view()
                    == stop_spec(old(entries).deep_view(), now),
                Err(e) => !has_open(old(entries).deep_view()) && final(entries)@ == old(entries)@
                    && e is NoActiveTask,
            },
    {
        if find_open_index(entries).is_some() {
            close_open_entry(entries, now);
            Ok(())
        } else {
            Err(TimeCheckerError::NoActiveTask)
        }
    }

    /// Stops the open entry now; fails with `NoActiveTask`, writing
    /// nothing, when no entry is open.
    pub fn stop_task(&self, entries: &mut Vec<TimeEntry>) -> (r: Result<(), TimeCheckerError>)
        ensures
            match r {
                Ok(_) => has_open(old(entries).deep_view()) && exists|now: Timestamp|
                    now.wf() && final(entries).deep_view() == #[trigger] stop_spec(
                        old(entries).deep_view(),
                        now,
                    ),
                Err(e) => !has_open(old(entries).deep_view()) && final(entries)@ == old(entries)@
                    && e is NoActiveTask,
            },
    {
        let now = now_local();
        let ghost t = now;
        let r = Self::stop_task_at(entries, now);
        proof {
            if r is Ok {
                assert(t.wf() && final(entries).deep_view() == stop_spec(
                    old(entries).deep_view(),
                    t,
                ));
            }
        }
        r
    }

    /// Today's summary at the given instant: per-task totals over the
    /// entries whose start falls on `now`'s calendar day.
    pub fn get_today_summary_at(entries: &Vec<TimeEntry>, now: Timestamp) -> (s: Summary)
        requires
            wf_log(entries.deep_view()),
            now.wf(),
        ensures
            s.wf(),
            s@ == summary_of(entries.deep_view(), now.spec_date(), now),
    {
        summarize(entries, now.date(), now)
    }

    /// Today's summary, read at the current local time.
    pub fn get_today_summary(&self, entries: &Vec<TimeEntry>) -> (s: Summary)
        requires
            wf_log(entries.deep_view()),
        ensures
            s.wf(),
            exists|now: Timestamp|
                now.wf() && s@ == #[trigger] summary_of(
                    entries.deep_view(),
                    now.spec_date(),
                    now,
                ),
    {
        let now = now_local();
        let ghost t = now;
        let s = Self::get_today_summary_at(entries, now);
        proof {
            assert(t.wf() && s@ == summary_of(entries.deep_view(), t.spec_date(), t));
        }
        s
    }
}

/// Law: starting a task closes the previously open entry (if any) with the
/// call time and leaves exactly one open entry, the new one — so any
/// sequence of starts keeps at most one entry open.
pub proof fn lemma_start_single_open(
    log: Seq<EntryModel>,
    task: Seq<char>,
    note: Option<Seq<char>>,
    now: Timestamp,
)
    requires
        at_most_one_open(log),
    ensures
        ({
            let new = start_spec(log, task, note, now);
            &&& new.len() == log.len() + 1
            &&& at_most_one_open(new)
            &&& last_open_index(new) == log.len()
            &&& (current_open(new) == Some(
                EntryModel { task, start: now, end: None, note },
            ))
            &&& has_open(log) ==> new[last_open_index(log)] == close_entry(
                log[last_open_index(log)],
                now,
            )
            &&& !has_open(log) ==> forall|i: int| 0 <= i < log.len() ==> new[i] == log[i]
        }),
{
    let closed = close_last_open(log, now);
    let new = start_spec(log, task, note, now);
    lemma_last_open_index_props(log);
    assert forall|i: int| 0 <= i < closed.len() implies (#[trigger] closed[i]).end is Some by {
        if has_open(log) && i != last_open_index(log) {
            assert(log[i].end is Some);
        }
    }
    assert(new.last().end is None);
    assert(last_open_index(new) == new.len() - 1);
}

/// Law: stopping with an open entry closes exactly that entry with the
/// call time; afterward no entry is open and the rest of the log is
/// untouched.
pub proof fn lemma_stop_closes(log: Seq<EntryModel>, now: Timestamp)
    requires
        at_most_one_open(log),
        has_open(log),
    ensures
        ({
            let new = stop_spec(log, now);
            &&& new.len() == log.len()
            &&& new[last_open_index(log)] == close_entry(log[last_open_index(log)], now)
            &&& forall|i: int|
                0 <= i < log.len() && i != last_open_index(log) ==> new[i] == log[i]
            &&& current_open(new) is None
            &&& at_most_one_open(new)
        }),
{
    let new = stop_spec(log, now);
    lemma_last_open_index_props(log);
    assert forall|i: int| 0 <= i < new.len() implies (#[trigger] new[i]).end is Some by {
        if i != last_open_index(log) {
            assert(log[i].end is Some);
        }
    }
    lemma_last_open_index_props(new);
    if last_open_index(new) >= 0 {
        assert(new[last_open_index(new)].end is None);
    }
}

} // verus!
