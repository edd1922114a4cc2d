//! Per-task total durations for one day, and the aggregation that
//! computes them from a log.

use vstd::prelude::*;
use crate::data::{EntryModel, TimeEntry, wf_log};
use crate::time::{Date, Timestamp};

verus! {

/// Addition on second counts that tops out at `u64::MAX` instead of
/// overflowing.
pub open spec fn sat_add_u64(a: int, b: int) -> int {
    if a + b > u64::MAX {
        u64::MAX as int
    } else {
        a + b
    }
}

/// Signed length of an entry's span: its end (or `now`, while it is still
/// open) minus its start.
pub open spec fn dur_secs(e: EntryModel, now: Timestamp) -> int {
    (match e.end {
        Some(t) => t,
        None => now,
    }).epoch_secs() - e.start.epoch_secs()
}

/// What one entry adds to its task's total: its duration, with a negative
/// span (clock skew, corrupted data) contributing zero.
pub open spec fn contribution(e: EntryModel, now: Timestamp) -> int {
    let d = dur_secs(e, now);
    if d < 0 {
        0
    } else if d > u64::MAX {
        u64::MAX as int
    } else {
        d
    }
}

/// Total seconds per task name over the entries of the log whose start
/// falls on `day`; tasks with no entry that day are absent.
pub open spec fn summary_of(log: Seq<EntryModel>, day: Date, now: Timestamp) -> Map<Seq<char>, u64>
    decreases log.len(),
{
    if log.len() == 0 {
        Map::empty()
    } else {
        let m = summary_of(log.drop_last(), day, now);
        let e = log.last();
        if e.start.spec_date() == day {
            let prev: int = if m.dom().contains(e.task) {
                m[e.task] as int
            } else {
                0
            };
            m.insert(e.task, sat_add_u64(prev, contribution(e, now)) as u64)
        } else {
            m
        }
    }
}

/// The mapping a list of (task, seconds) pairs denotes.
pub open spec fn map_of(items: Seq<(String, u64)>) -> Map<Seq<char>, u64>
    decreases items.len(),
{
    if items.len() == 0 {
        Map::empty()
    } else {
        map_of(items.drop_last()).insert(items.last().0@, items.last().1)
    }
}

pub open spec fn unique_keys(items: Seq<(String, u64)>) -> bool {
    forall|i: int, j: int|
        0 <= i < j < items.len() ==> (#[trigger] items[i]).0@ != (#[trigger] items[j]).0@
}

pub proof fn lemma_map_of_contains(items: Seq<(String, u64)>, k: Seq<char>)
    ensures
        map_of(items).dom().contains(k) <==> (exists|i: int|
            0 <= i < items.len() && (#[trigger] items[i]).0@ == k),
        map_of(items).dom().finite(),
    decreases items.len(),
{
    if items.len() == 0 {
    } else {
        lemma_map_of_contains(items.drop_last(), k);
        if map_of(items).dom().contains(k) {
            if items.last().0@ != k {
                let i = choose|i: int|
                    0 <= i < items.drop_last().len() && (#[trigger] items.drop_last()[i]).0@ == k;
                assert(items[i].0@ == k);
            } else {
                assert(items[items.len() - 1].0@ == k);
            }
        }
        if exists|i: int| 0 <= i < items.len() && (#[trigger] items[i]).0@ == k {
            let i = choose|i: int| 0 <= i < items.len() && (#[trigger] items[i]).0@ == k;
            if i < items.len() - 1 {
                assert(items.drop_last()[i].0@ == k);
            }
        }
    }
}

pub proof fn lemma_map_of_at(items: Seq<(String, u64)>, i: int)
    requires
        unique_keys(items),
        0 <= i < items.len(),
    ensures
        map_of(items).dom().contains(items[i].0@),
        map_of(items)[items[i].0@] == items[i].1,
    decreases items.len(),
{
    if i == items.len() - 1 {
    } else {
        assert(items.drop_last()[i] == items[i]);
        lemma_map_of_at(items.drop_last(), i);
        assert(items.last().0@ != items[i].0@);
    }
}

pub proof fn lemma_map_of_update(items: Seq<(String, u64)>, i: int, p: (String, u64))
    requires
        unique_keys(items),
        0 <= i < items.len(),
        p.0@ == items[i].0@,
    ensures
        map_of(items.update(i, p)) == map_of(items).insert(p.0@, p.1),
        unique_keys(items.update(i, p)),
    decreases items.len(),
{
    let upd = items.update(i, p);
    if i == items.len() - 1 {
        assert(upd.drop_last() =~= items.drop_last());
        assert(upd.last() == p);
        assert(map_of(upd) =~= map_of(items).insert(p.0@, p.1));
    } else {
        assert(upd.drop_last() =~= items.drop_last().update(i, p));
        assert(upd.last() == items.last());
        assert(items.drop_last()[i] == items[i]);
        lemma_map_of_update(items.drop_last(), i, p);
        assert(items.last().0@ != p.0@);
        assert(map_of(upd) =~= map_of(items).insert(p.0@, p.1));
    }
}

pub proof fn lemma_map_of_dom_len(items: Seq<(String, u64)>)
    requires
        unique_keys(items),
    ensures
        map_of(items).dom().finite(),
        map_of(items).dom().len() == items.len(),
    decreases items.len(),
{
    if items.len() == 0 {
        assert(map_of(items).dom() =~= Set::<Seq<char>>::empty());
    } else {
        lemma_map_of_dom_len(items.drop_last());
        lemma_map_of_contains(items.drop_last(), items.last().0@);
        assert(!map_of(items.drop_last()).dom().contains(items.last().0@)) by {
            if exists|i: int|
                0 <= i < items.drop_last().len() && (#[trigger] items.drop_last()[i]).0@
                    == items.last().0@ {
                let i = choose|i: int|
                    0 <= i < items.drop_last().len() && (#[trigger] items.drop_last()[i]).0@
                        == items.last().0@;
                assert(items[i].0@ == items[items.len() - 1].0@);
            }
        }
        assert(map_of(items).dom() =~= map_of(items.drop_last()).dom().insert(items.last().0@));
    }
}

/// A finished day summary: each task that was worked on that day, with its
/// total duration in seconds. No ordering is guaranteed.
pub struct Summary {
    items: Vec<(String, u64)>,
}

impl View for Summary {
    type V = Map<Seq<char>, u64>;

    closed spec fn view(&self) -> Map<Seq<char>, u64> {
        map_of(self.items@)
    }
}

impl Summary {
    /// Each task name appears at most once.
    pub closed spec fn wf(self) -> bool {
        unique_keys(self.items@)
    }

    pub fn new() -> (s: Summary)
        ensures
            s.wf(),
            s@ == Map::<Seq<char>, u64>::empty(),
    {
        Summary { items: Vec::new() }
    }

    /// The total recorded for a task, if it appears.
    pub fn get(&self, task: &str) -> (r: Option<u64>)
        requires
            self.wf(),
        ensures
            r == (if self@.dom().contains(task@) {
                Some(self@[task@])
            } else {
                None::<u64>
            }),
    {
        let key = task.to_owned();
        let mut i: usize = 0;
        while i < self.items.len()
            invariant
                i <= self.items@.len(),
                self.wf(),
                key@ == task@,
                forall|j: int| 0 <= j < i ==> (#[trigger] self.items@[j]).0@ != task@,
            decreases self.items@.len() - i,
        {
            if self.items[i].0 == key {
                proof {
                    lemma_map_of_at(self.items@, i as int);
                }
                return Some(self.items[i].1);
            }
            i = i + 1;
        }
        proof {
            lemma_map_of_contains(self.items@, task@);
        }
        None
    }

    /// Whether the task was worked on that day.
    pub fn contains_key(&self, task: &str) -> (r: bool)
        requires
            self.wf(),
        ensures
            r == self@.dom().contains(task@),
    {
        self.get(task).is_some()
    }

    /// How many distinct tasks the summary holds.
    pub fn len(&self) -> (n: usize)
        requires
            self.wf(),
        ensures
            n == self@.dom().len(),
    {
        proof {
            lemma_map_of_dom_len(self.items@);
        }
        self.items.len()
    }

    pub fn is_empty(&self) -> (r: bool)
        requires
            self.wf(),
        ensures
            r <==> self@ == Map::<Seq<char>, u64>::empty(),
    {
        proof {
            if self.items@.len() > 0 {
                lemma_map_of_at(self.items@, self.items@.len() - 1);
                assert(self@.dom().contains(self.items@.last().0@));
            } else {
                assert(self@ =~= Map::<Seq<char>, u64>::empty());
            }
        }
        self.items.is_empty()
    }

    /// The (task, seconds) pairs, in first-appearance order; each task
    /// occurs once, with the value the mapping gives it.
    pub fn items(&self) -> (r: &Vec<(String, u64)>)
        requires
            self.wf(),
        ensures
            unique_keys(r@),
            forall|i: int|
                0 <= i < r@.len() ==> self@.dom().contains((#[trigger] r@[i]).0@) && self@[r@[i].0@]
                    == r@[i].1,
            forall|k: Seq<char>|
                self@.dom().contains(k) ==> exists|i: int|
                    0 <= i < r@.len() && (#[trigger] r@[i]).0@ == k,
    {
        proof {
            assert forall|i: int|
                0 <= i < self.items@.len() implies self@.dom().contains(
                (#[trigger] self.items@[i]).0@,
            ) && self@[self.items@[i].0@] == self.items@[i].1 by {
                lemma_map_of_at(self.items@, i);
            }
            assert forall|k: Seq<char>| self@.dom().contains(k) implies exists|i: int|
                0 <= i < self.items@.len() && (#[trigger] self.items@[i]).0@ == k by {
                lemma_map_of_contains(self.items@, k);
            }
        }
        &self.items
    }

    /// Adds `secs` to the task's total, creating the task if absent; the
    /// total tops out at `u64::MAX` instead of overflowing.
    #[verifier::loop_isolation(false)]
    pub fn add_secs(&mut self, task: &String, secs: u64)
        requires
            old(self).wf(),
        ensures
            final(self).wf(),
            final(self)@ == old(self)@.insert(
                task@,
                sat_add_u64(
                    (if old(self)@.dom().contains(task@) {
                        old(self)@[task@] as int
                    } else {
                        0
                    }),
                    secs as int,
                ) as u64,
            ),
    {
        let ghost orig = *old(self);
        let n = self.items.len();
        let mut i: usize = 0;
        while i < n
            invariant
                n == self.items@.len(),
                i <= n,
                self.items@ == orig.items@,
                unique_keys(self.items@),
                forall|j: int| 0 <= j < i ==> (#[trigger] self.items@[j]).0@ != task@,
            decreases n - i,
        {
            if self.items[i].0 == *task {
                let cur = self.items[i].1;
                let nv: u64 = if cur > u64::MAX - secs {
                    u64::MAX
                } else {
                    cur + secs
                };
                let key = self.items[i].0.clone();
                let ghost p = (key, nv);
                proof {
                    lemma_map_of_at(self.items@, i as int);
                    lemma_map_of_update(self.items@, i as int, p);
                }
                self.items[i] = (key, nv);
                proof {
                    assert(self.items@ =~= orig.items@.update(i as int, p));
                    assert(self@ == orig@.insert(p.0@, p.1));
                }
                return ;
            }
            i = i + 1;
        }
        proof {
            lemma_map_of_contains(self.items@, task@);
        }
        let k2 = task.clone();
        self.items.push((k2, secs));
        proof {
            assert(self.items@.drop_last() =~= orig.items@);
        }
    }
}

/// Law: a task appears in a day's summary exactly when some entry of the
/// log with that task name starts on that day — tasks without an entry
/// that day are absent, never zero-valued.
pub proof fn lemma_summary_keys(log: Seq<EntryModel>, day: Date, now: Timestamp)
    ensures
        forall|k: Seq<char>|
            summary_of(log, day, now).dom().contains(k) <==> exists|j: int|
                0 <= j < log.len() && (#[trigger] log[j]).start.spec_date() == day && log[j].task
                    == k,
    decreases log.len(),
{
    if log.len() == 0 {
    } else {
        lemma_summary_keys(log.drop_last(), day, now);
        let e = log.last();
        let m = summary_of(log, day, now);
        let prev = summary_of(log.drop_last(), day, now);
        assert forall|k: Seq<char>| m.dom().contains(k) implies exists|j: int|
            0 <= j < log.len() && (#[trigger] log[j]).start.spec_date() == day && log[j].task
                == k by {
            if e.start.spec_date() == day && k == e.task {
                assert(0 <= log.len() - 1 < log.len() && log[log.len() - 1].start.spec_date()
                    == day && log[log.len() - 1].task == k);
            } else {
                assert(prev.dom().contains(k));
                let j = choose|j: int|
                    0 <= j < log.drop_last().len() && (#[trigger] log.drop_last()[j]).start.spec_date()
                        == day && log.drop_last()[j].task == k;
                assert(log.drop_last()[j] == log[j]);
                assert(0 <= j < log.len() && log[j].start.spec_date() == day && log[j].task == k);
            }
        }
        assert forall|k: Seq<char>|
            (exists|j: int|
                0 <= j < log.len() && (#[trigger] log[j]).start.spec_date() == day && log[j].task
                    == k) implies m.dom().contains(k) by {
            let j = choose|j: int|
                0 <= j < log.len() && (#[trigger] log[j]).start.spec_date() == day && log[j].task
                    == k;
            if j < log.len() - 1 {
                assert(log.drop_last()[j] == log[j]);
                assert(0 <= j < log.drop_last().len() && log.drop_last()[j].start.spec_date()
                    == day && log.drop_last()[j].task == k);
                assert(prev.dom().contains(k));
            }
        }
    }
}

/// Law: the summary of a day sees only that day's entries — summarizing
/// the whole log and summarizing the day-filtered log give the same
/// mapping.
pub proof fn lemma_summary_of_day_filter(log: Seq<EntryModel>, day: Date, now: Timestamp)
    ensures
        summary_of(crate::data::day_filter(log, day), day, now) == summary_of(log, day, now),
    decreases log.len(),
{
    if log.len() == 0 {
    } else {
        lemma_summary_of_day_filter(log.drop_last(), day, now);
        let f = crate::data::day_filter(log, day);
        if log.last().start.spec_date() == day {
            assert(f == crate::data::day_filter(log.drop_last(), day).push(log.last()));
            assert(f.drop_last() =~= crate::data::day_filter(log.drop_last(), day));
            assert(f.last() == log.last());
        } else {
            assert(f == crate::data::day_filter(log.drop_last(), day));
        }
    }
}

/// Totals per task over the given log for the given day. An entry still
/// open contributes its elapsed time up to `now`; a negative span
/// contributes zero.
pub fn summarize(entries: &Vec<TimeEntry>, day: Date, now: Timestamp) -> (s: Summary)
    requires
        wf_log(entries.deep_view()),
        now.wf(),
    ensures
        s.wf(),
        s@ == summary_of(entries.deep_view(), day, now),
{
    let ghost log = entries.deep_view();
    let mut s = Summary::new();
    let mut i: usize = 0;
    while i < entries.len()
        invariant
            i <= entries@.len(),
            log == entries.deep_view(),
            wf_log(log),
            now.wf(),
            s.wf(),
            s@ == summary_of(log.take(i as int), day, now),
        decreases entries@.len() - i,
    {
        proof {
            assert(log.take(i + 1).drop_last() =~= log.take(i as int));
            assert(log.take(i + 1).last() == log[i as int]);
            assert(log[i as int] == entries@[i as int].deep_view());
        }
        if entries[i].start.date() == day {
            let end_ts: Timestamp = match &entries[i].end {
                Some(t) => *t,
                None => now,
            };
            proof {
                crate::time::lemma_epoch_secs_bounds(end_ts);
                crate::time::lemma_epoch_secs_bounds(entries@[i as int].start);
            }
            let d: i64 = end_ts.epoch_seconds() - entries[i].start.epoch_seconds();
            let secs: u64 = if d < 0 {
                0
            } else {
                d as u64
            };
            assert(secs as int == contribution(log[i as int], now));
            s.add_secs(&entries[i].task, secs);
        }
        i = i + 1;
    }
    proof {
        assert(log.take(log.len() as int) =~= log);
    }
    s
}

} // verus!
