//! Time entries, the log they form, and the store's derived queries.
//!
//! The log is an ordered sequence of entries; an entry whose `end` is unset
//! is open (work in progress). The derived queries here are pure functions
//! of a loaded log; reading and writing the storage itself is left to the
//! caller.

use vstd::prelude::*;
use crate::time::{Date, Timestamp};

verus! {

/// One recorded span of work on a task.
#[derive(Debug, PartialEq)]
pub struct TimeEntry {
    /// Display name of the task; not required to be unique across entries.
    pub task: String,
    /// When the span began; set at creation and immutable thereafter.
    pub start: Timestamp,
    /// When the span ended; unset while the entry is still running.
    pub end: Option<Timestamp>,
    /// Free-text annotation.
    pub note: Option<String>,
}

/// The mathematical value of a `TimeEntry`.
pub ghost struct EntryModel {
    pub task: Seq<char>,
    pub start: Timestamp,
    pub end: Option<Timestamp>,
    pub note: Option<Seq<char>>,
}

impl EntryModel {
    /// Both timestamps lie in the representable calendar ranges.
    pub open spec fn wf(self) -> bool {
        &&& self.start.wf()
        &&& match self.end {
            Some(t) => t.wf(),
            None => true,
        }
    }
}

impl View for TimeEntry {
    type V = EntryModel;

    open spec fn view(&self) -> EntryModel {
        EntryModel {
            task: self.task@,
            start: self.start,
            end: self.end,
            note: match self.note {
                Some(n) => Some(n@),
                None => None,
            },
        }
    }
}

impl DeepView for TimeEntry {
    type V = EntryModel;

    open spec fn deep_view(&self) -> EntryModel {
        self.view()
    }
}

impl Clone for TimeEntry {
    fn clone(&self) -> (r: Self)
        ensures
            r@ == self@,
    {
        TimeEntry {
            task: self.task.clone(),
            start: self.start,
            end: self.end,
            note: match &self.note {
                Some(n) => Some(n.clone()),
                None => None,
            },
        }
    }
}

/// Every entry of the log is well formed.
pub open spec fn wf_log(log: Seq<EntryModel>) -> bool {
    forall|i: int| 0 <= i < log.len() ==> (#[trigger] log[i]).wf()
}

/// Index of the most recently appended open entry, or -1 if none is open.
pub open spec fn last_open_index(log: Seq<EntryModel>) -> int
    decreases log.len(),
{
    if log.len() == 0 {
        -1
    } else if log.last().end is None {
        log.len() - 1
    } else {
        last_open_index(log.drop_last())
    }
}

pub open spec fn has_open(log: Seq<EntryModel>) -> bool {
    last_open_index(log) >= 0
}

/// The open entry the queries report: the most recently appended one, so
/// that if the single-active-task invariant were ever violated the newest
/// open entry wins.
pub open spec fn current_open(log: Seq<EntryModel>) -> Option<EntryModel> {
    if has_open(log) {
        Some(log[last_open_index(log)])
    } else {
        None
    }
}

/// The single-active-task invariant: at most one entry is open.
pub open spec fn at_most_one_open(log: Seq<EntryModel>) -> bool {
    forall|i: int, j: int|
        0 <= i < j < log.len() ==> !((#[trigger] log[i]).end is None && (#[trigger] log[j]).end
            is None)
}

/// What `last_open_index` points at: an open entry with only closed entries
/// after it, or -1 with no open entry at all.
pub proof fn lemma_last_open_index_props(log: Seq<EntryModel>)
    ensures
        -1 <= last_open_index(log) < log.len(),
        last_open_index(log) >= 0 ==> log[last_open_index(log)].end is None,
        forall|j: int|
            last_open_index(log) < j < log.len() ==> (#[trigger] log[j]).end is Some,
    decreases log.len(),
{
    if log.len() == 0 {
    } else if log.last().end is None {
    } else {
        lemma_last_open_index_props(log.drop_last());
        assert forall|j: int|
            last_open_index(log) < j < log.len() implies (#[trigger] log[j]).end is Some by {
            if j < log.len() - 1 {
                assert(log.drop_last()[j] == log[j]);
            }
        }
    }
}

/// An open entry with nothing open after it is the one the scan finds.
pub proof fn lemma_last_open_index_pins(log: Seq<EntryModel>, k: int)
    requires
        0 <= k < log.len(),
        log[k].end is None,
        forall|j: int| k < j < log.len() ==> (#[trigger] log[j]).end is Some,
    ensures
        last_open_index(log) == k,
    decreases log.len(),
{
    if k == log.len() - 1 {
    } else {
        assert(log.last().end is Some);
        assert(log.drop_last()[k] == log[k]);
        assert forall|j: int| k < j < log.drop_last().len() implies (#[trigger] log.drop_last()[j]).end
            is Some by {
            assert(log.drop_last()[j] == log[j]);
        }
        lemma_last_open_index_pins(log.drop_last(), k);
    }
}

/// Entries whose start falls on the given day, in log order.
pub open spec fn day_filter(log: Seq<EntryModel>, day: Date) -> Seq<EntryModel>
    decreases log.len(),
{
    if log.len() == 0 {
        Seq::empty()
    } else if log.last().start.spec_date() == day {
        day_filter(log.drop_last(), day).push(log.last())
    } else {
        day_filter(log.drop_last(), day)
    }
}

/// Knows where the log is persisted; the derived queries are pure functions
/// of a loaded log.
pub struct DataStore {
    data_file: String,
}

impl DataStore {
    /// Where this store's log is persisted.
    pub closed spec fn spec_data_file(self) -> Seq<char> {
        self.data_file@
    }

    pub fn new(data_file: String) -> (s: Self)
        ensures
            s.spec_data_file() == data_file@,
    {
        DataStore { data_file }
    }

    pub fn data_file(&self) -> (p: &String)
        ensures
            p@ == self.spec_data_file(),
    {
        &self.data_file
    }

    /// The entry with `end` unset, scanning from the most recent entry
    /// backward; `None` if no entry is open.
    pub fn get_current_task(entries: &Vec<TimeEntry>) -> (r: Option<TimeEntry>)
        ensures
            r.deep_view() == current_open(entries.deep_view()),
    {
        let ghost log = entries.deep_view();
        let mut i: usize = entries.len();
        while i > 0
            invariant
                i <= entries.len(),
                log == entries.deep_view(),
                forall|j: int| i <= j < log.len() ==> (#[trigger] log[j]).end is Some,
            decreases i,
        {
            i = i - 1;
            if entries[i].end.is_none() {
                proof {
                    lemma_last_open_index_pins(log, i as int);
                }
                return Some(entries[i].clone());
            }
        }
        proof {
            lemma_last_open_index_props(log);
        }
        None
    }

    /// The entries whose start falls on the given calendar day.
    pub fn get_today_entries(entries: &Vec<TimeEntry>, day: Date) -> (r: Vec<TimeEntry>)
        ensures
            r.deep_view() == day_filter(entries.deep_view(), day),
    {
        let ghost log = entries.deep_view();
        let mut r: Vec<TimeEntry> = Vec::new();
        let mut i: usize = 0;
        while i < entries.len()
            invariant
                i <= entries.len(),
                log == entries.deep_view(),
                r.deep_view() == day_filter(log.take(i as int), day),
            decreases entries.len() - i,
        {
            proof {
                assert(log.take(i + 1).drop_last() =~= log.take(i as int));
                assert(log.take(i + 1).last() == log[i as int]);
            }
            if entries[i].start.date() == day {
                r.push(entries[i].clone());
                proof {
                    assert(r.deep_view() =~= day_filter(log.take(i + 1), day));
                }
            } else {
                proof {
                    assert(r.deep_view() =~= day_filter(log.take(i + 1), day));
                }
            }
            i = i + 1;
        }
        proof {
            assert(log.take(log.len() as int) =~= log);
        }
        r
    }
}

} // verus!
