//! The persisted form of a log: a JSON document holding the full ordered
//! sequence of entries. Each entry is an object with `task` and `start`,
//! plus `end` and `note` only when present; timestamps are ISO-8601
//! strings (`YYYY-MM-DDTHH:MM:SS+HH:MM`).
//!
//! Encoding and parsing are defined here as functions on character
//! sequences; decoding an encoded log yields the same log (the round-trip
//! law in `codec_laws`).

use vstd::prelude::*;
use crate::data::{EntryModel, TimeEntry, wf_log};
use crate::time::Timestamp;

verus! {

// ---------------------------------------------------------------------
// Encoding, as spec functions on character sequences.
// ---------------------------------------------------------------------
/// The decimal digit character for 0 <= d <= 9.
pub open spec fn digit(d: int) -> char {
    ((48 + d) as u8) as char
}

/// Lowercase hexadecimal digit character for 0 <= d <= 15.
pub open spec fn hex_digit(d: int) -> char {
    if d < 10 {
        ((48 + d) as u8) as char
    } else {
        ((87 + d) as u8) as char
    }
}

/// Two-digit zero-padded decimal.
pub open spec fn d2(n: int) -> Seq<char> {
    seq![digit(n / 10), digit(n % 10)]
}

/// Four-digit zero-padded decimal.
pub open spec fn d4(n: int) -> Seq<char> {
    seq![digit(n / 1000), digit((n / 100) % 10), digit((n / 10) % 10), digit(n % 10)]
}

/// How one character appears inside a JSON string: quote and backslash get
/// a backslash escape, control characters become `\u00XX`, everything else
/// stands as itself.
pub open spec fn esc_char(c: char) -> Seq<char> {
    if c == '"' {
        seq!['\\', '"']
    } else if c == '\\' {
        seq!['\\', '\\']
    } else if (c as u32) < 32 {
        seq!['\\', 'u', '0', '0', hex_digit((c as u32) as int / 16), hex_digit((c as u32) as int % 16)]
    } else {
        seq![c]
    }
}

pub open spec fn esc_str(s: Seq<char>) -> Seq<char>
    decreases s.len(),
{
    if s.len() == 0 {
        Seq::empty()
    } else {
        esc_char(s[0]) + esc_str(s.drop_first())
    }
}

/// A JSON string literal: the escaped text in double quotes.
pub open spec fn enc_string(s: Seq<char>) -> Seq<char> {
    seq!['"'] + (esc_str(s) + seq!['"'])
}

/// A timestamp as a quoted `YYYY-MM-DDTHH:MM:SS+HH:MM` string; the offset
/// sign is `-` only for a strictly negative offset.
pub open spec fn enc_ts(t: Timestamp) -> Seq<char> {
    let off_min = if t.offset_seconds >= 0 {
        t.offset_seconds / 60
    } else {
        (-t.offset_seconds) / 60
    };
    let sign: char = if t.offset_seconds >= 0 {
        '+'
    } else {
        '-'
    };
    seq!['"'] + (d4(t.year as int) + (seq!['-'] + (d2(t.month as int) + (seq!['-'] + (d2(
        t.day as int,
    ) + (seq!['T'] + (d2(t.hour as int) + (seq![':'] + (d2(t.minute as int) + (seq![':'] + (d2(
        t.second as int,
    ) + (seq![sign] + (d2(off_min / 60) + (seq![':'] + (d2(off_min % 60) + seq!['"'])))))))))))))))
}

/// `"task":` with no leading comma: the first member of every object.
pub open spec fn key_task() -> Seq<char> {
    seq!['"', 't', 'a', 's', 'k', '"', ':']
}

pub open spec fn key_start() -> Seq<char> {
    seq![',', '"', 's', 't', 'a', 'r', 't', '"', ':']
}

pub open spec fn key_end() -> Seq<char> {
    seq![',', '"', 'e', 'n', 'd', '"', ':']
}

pub open spec fn key_note() -> Seq<char> {
    seq![',', '"', 'n', 'o', 't', 'e', '"', ':']
}

/// The optional members after `start`: `end` and `note` appear only when
/// present, in that order, then the closing brace.
pub open spec fn enc_entry_tail(e: EntryModel) -> Seq<char> {
    match e.end {
        Some(t) => key_end() + (enc_ts(t) + enc_entry_tail2(e)),
        None => enc_entry_tail2(e),
    }
}

pub open spec fn enc_entry_tail2(e: EntryModel) -> Seq<char> {
    match e.note {
        Some(n) => key_note() + (enc_string(n) + seq!['}']),
        None => seq!['}'],
    }
}

/// One entry as a JSON object.
pub open spec fn enc_entry(e: EntryModel) -> Seq<char> {
    seq!['{'] + (key_task() + (enc_string(e.task) + (key_start() + (enc_ts(e.start)
        + enc_entry_tail(e)))))
}

/// The entries joined by commas.
pub open spec fn enc_entries(log: Seq<EntryModel>) -> Seq<char>
    decreases log.len(),
{
    if log.len() == 0 {
        Seq::empty()
    } else if log.len() == 1 {
        enc_entry(log[0])
    } else {
        enc_entry(log[0]) + (seq![','] + enc_entries(log.drop_first()))
    }
}

/// The whole log as a JSON array.
pub open spec fn enc_log(log: Seq<EntryModel>) -> Seq<char> {
    seq!['['] + (enc_entries(log) + seq![']'])
}

// ---------------------------------------------------------------------
// Executable encoding.
// ---------------------------------------------------------------------
/// Relies on String::push: appends exactly the given character.
#[verifier::external_body]
fn push_char(s: &mut String, c: char)
    ensures
        final(s)@ == old(s)@.push(c),
{
    s.push(c);
}

pub(crate) fn chars_to_string(v: &Vec<char>) -> (s: String)
    ensures
        s@ == v@,
{
    let mut s = String::new();
    let mut i: usize = 0;
    while i < v.len()
        invariant
            i <= v@.len(),
            s@ == v@.take(i as int),
        decreases v@.len() - i,
    {
        push_char(&mut s, v[i]);
        proof {
            assert(s@ =~= v@.take(i + 1));
        }
        i = i + 1;
    }
    proof {
        assert(v@.take(v@.len() as int) =~= v@);
    }
    s
}

pub(crate) fn string_to_chars(s: &str) -> (v: Vec<char>)
    ensures
        v@ == s@,
{
    let n = s.unicode_len();
    let mut v: Vec<char> = Vec::new();
    let mut i: usize = 0;
    while i < n
        invariant
            n == s@.len(),
            i <= n,
            v@ == s@.take(i as int),
        decreases n - i,
    {
        v.push(s.get_char(i));
        proof {
            assert(v@ =~= s@.take(i + 1));
        }
        i = i + 1;
    }
    proof {
        assert(s@.take(s@.len() as int) =~= s@);
    }
    v
}

/// `esc_str` distributes over concatenation.
pub proof fn lemma_esc_str_concat(a: Seq<char>, b: Seq<char>)
    ensures
        esc_str(a + b) == esc_str(a) + esc_str(b),
    decreases a.len(),
{
    if a.len() == 0 {
        assert(a + b =~= b);
        assert(esc_str(a) + esc_str(b) =~= esc_str(b));
    } else {
        lemma_esc_str_concat(a.drop_first(), b);
        assert((a + b).drop_first() =~= a.drop_first() + b);
        assert((a + b)[0] == a[0]);
        assert(esc_str(a + b) =~= esc_str(a) + esc_str(b));
    }
}

fn push_digit2(out: &mut Vec<char>, n: u8)
    requires
        n < 100,
    ensures
        final(out)@ == old(out)@ + d2(n as int),
{
    out.push((48 + n / 10) as char);
    out.push((48 + n % 10) as char);
    proof {
        assert(out@ =~= old(out)@ + d2(n as int));
    }
}

fn push_digit4(out: &mut Vec<char>, n: u16)
    requires
        n < 10000,
    ensures
        final(out)@ == old(out)@ + d4(n as int),
{
    out.push((48 + n / 1000) as u8 as char);
    out.push((48 + (n / 100) % 10) as u8 as char);
    out.push((48 + (n / 10) % 10) as u8 as char);
    out.push((48 + n % 10) as u8 as char);
    proof {
        assert(out@ =~= old(out)@ + d4(n as int));
    }
}

fn push_escaped(out: &mut Vec<char>, s: &String)
    ensures
        final(out)@ == old(out)@ + esc_str(s@),
{
    let st = s.as_str();
    let n = st.unicode_len();
    let mut i: usize = 0;
    while i < n
        invariant
            n == s@.len(),
            st@ == s@,
            out@ == old(out)@ + esc_str(s@.take(i as int)),
            i <= n,
        decreases n - i,
    {
        let c = st.get_char(i);
        if c == '"' {
            out.push('\\');
            out.push('"');
        } else if c == '\\' {
            out.push('\\');
            out.push('\\');
        } else if (c as u32) < 32 {
            let v = c as u32;
            let hi = (v / 16) as u8;
            let lo = (v % 16) as u8;
            out.push('\\');
            out.push('u');
            out.push('0');
            out.push('0');
            out.push(if hi < 10 {
                (48 + hi) as char
            } else {
                (87 + hi) as char
            });
            out.push(if lo < 10 {
                (48 + lo) as char
            } else {
                (87 + lo) as char
            });
        } else {
            out.push(c);
        }
        proof {
            assert(s@.take(i + 1) =~= s@.take(i as int) + seq![s@[i as int]]);
            lemma_esc_str_concat(s@.take(i as int), seq![s@[i as int]]);
            assert(seq![s@[i as int]].drop_first() =~= Seq::<char>::empty());
            assert(esc_str(seq![s@[i as int]]) =~= esc_char(s@[i as int]) + esc_str(
                Seq::<char>::empty(),
            ));
            assert(esc_char(s@[i as int]) + Seq::<char>::empty() =~= esc_char(s@[i as int]));
            assert(out@ =~= old(out)@ + esc_str(s@.take(i + 1)));
        }
        i = i + 1;
    }
    proof {
        assert(s@.take(s@.len() as int) =~= s@);
    }
}

fn push_json_string(out: &mut Vec<char>, s: &String)
    ensures
        final(out)@ == old(out)@ + enc_string(s@),
{
    out.push('"');
    push_escaped(out, s);
    out.push('"');
    proof {
        assert(out@ =~= old(out)@ + enc_string(s@));
    }
}

#[verifier::rlimit(100)]
fn push_ts(out: &mut Vec<char>, t: &Timestamp)
    requires
        t.wf(),
    ensures
        final(out)@ == old(out)@ + enc_ts(*t),
{
    out.push('"');
    push_digit4(out, t.year);
    out.push('-');
    push_digit2(out, t.month);
    out.push('-');
    push_digit2(out, t.day);
    out.push('T');
    push_digit2(out, t.hour);
    out.push(':');
    push_digit2(out, t.minute);
    out.push(':');
    push_digit2(out, t.second);
    let off_min: i32 = if t.offset_seconds >= 0 {
        out.push('+');
        t.offset_seconds / 60
    } else {
        out.push('-');
        (-t.offset_seconds) / 60
    };
    push_digit2(out, (off_min / 60) as u8);
    out.push(':');
    push_digit2(out, (off_min % 60) as u8);
    out.push('"');
    proof {
        assert(out@ =~= old(out)@ + enc_ts(*t));
    }
}

fn push_task_key(out: &mut Vec<char>)
    ensures
        final(out)@ == old(out)@ + key_task(),
{
    out.push('"');
    out.push('t');
    out.push('a');
    out.push('s');
    out.push('k');
    out.push('"');
    out.push(':');
    proof {
        assert(out@ =~= old(out)@ + key_task());
    }
}

fn push_start_key(out: &mut Vec<char>)
    ensures
        final(out)@ == old(out)@ + key_start(),
{
    out.push(',');
    out.push('"');
    out.push('s');
    out.push('t');
    out.push('a');
    out.push('r');
    out.push('t');
    out.push('"');
    out.push(':');
    proof {
        assert(out@ =~= old(out)@ + key_start());
    }
}

fn push_end_key(out: &mut Vec<char>)
    ensures
        final(out)@ == old(out)@ + key_end(),
{
    out.push(',');
    out.push('"');
    out.push('e');
    out.push('n');
    out.push('d');
    out.push('"');
    out.push(':');
    proof {
        assert(out@ =~= old(out)@ + key_end());
    }
}

fn push_note_key(out: &mut Vec<char>)
    ensures
        final(out)@ == old(out)@ + key_note(),
{
    out.push(',');
    out.push('"');
    out.push('n');
    out.push('o');
    out.push('t');
    out.push('e');
    out.push('"');
    out.push(':');
    proof {
        assert(out@ =~= old(out)@ + key_note());
    }
}

#[verifier::rlimit(100)]
fn push_entry(out: &mut Vec<char>, e: &TimeEntry)
    requires
        e.deep_view().wf(),
    ensures
        final(out)@ == old(out)@ + enc_entry(e.deep_view()),
{
    let ghost m = e.deep_view();
    out.push('{');
    push_task_key(out);
    push_json_string(out, &e.task);
    push_start_key(out);
    push_ts(out, &e.start);
    proof {
        assert(out@ =~= old(out)@ + (seq!['{'] + (key_task() + (enc_string(m.task) + (key_start()
            + enc_ts(m.start))))));
    }
    let ghost mid = out@;
    match &e.end {
        Some(t) => {
            push_end_key(out);
            push_ts(out, t);
        },
        None => {},
    }
    match &e.note {
        Some(n) => {
            push_note_key(out);
            push_json_string(out, n);
        },
        None => {},
    }
    out.push('}');
    proof {
        match m.note {
            Some(n) => {
                assert(enc_entry_tail2(m) == key_note() + (enc_string(n) + seq!['}']));
            },
            None => {},
        }
        match m.end {
            Some(t) => {
                assert(out@ =~= mid + (key_end() + (enc_ts(t) + enc_entry_tail2(m))));
            },
            None => {
                assert(out@ =~= mid + enc_entry_tail2(m));
            },
        }
        assert(out@ =~= mid + enc_entry_tail(m));
        assert(mid + enc_entry_tail(m) =~= old(out)@ + (seq!['{'] + (key_task() + (enc_string(
            m.task,
        ) + (key_start() + (enc_ts(m.start) + enc_entry_tail(m)))))));
    }
}

/// Appending one entry to a joined sequence.
pub proof fn lemma_enc_entries_push(log: Seq<EntryModel>, e: EntryModel)
    ensures
        enc_entries(log.push(e)) == if log.len() == 0 {
            enc_entry(e)
        } else {
            enc_entries(log) + (seq![','] + enc_entry(e))
        },
    decreases log.len(),
{
    let p = log.push(e);
    if log.len() == 0 {
        assert(p.len() == 1);
        assert(p[0] == e);
        assert(enc_entries(p) =~= enc_entry(e));
    } else {
        lemma_enc_entries_push(log.drop_first(), e);
        assert(p.drop_first() =~= log.drop_first().push(e));
        assert(p[0] == log[0]);
        assert(enc_entries(p) =~= enc_entries(log) + (seq![','] + enc_entry(e)));
    }
}

/// One entry as JSON text.
pub fn entry_to_json(e: &TimeEntry) -> (r: String)
    requires
        e.deep_view().wf(),
    ensures
        r@ == enc_entry(e.deep_view()),
{
    let mut out: Vec<char> = Vec::new();
    push_entry(&mut out, e);
    chars_to_string(&out)
}

/// The whole log as JSON text, the persisted representation.
pub fn log_to_json(entries: &Vec<TimeEntry>) -> (r: String)
    requires
        wf_log(entries.deep_view()),
    ensures
        r@ == enc_log(entries.deep_view()),
{
    let ghost log = entries.deep_view();
    let mut out: Vec<char> = Vec::new();
    out.push('[');
    let mut i: usize = 0;
    while i < entries.len()
        invariant
            i <= entries@.len(),
            log == entries.deep_view(),
            wf_log(log),
            out@ == seq!['['] + enc_entries(log.take(i as int)),
        decreases entries@.len() - i,
    {
        if i > 0 {
            out.push(',');
        }
        push_entry(&mut out, &entries[i]);
        proof {
            assert(log.take(i + 1) =~= log.take(i as int).push(log[i as int]));
            lemma_enc_entries_push(log.take(i as int), log[i as int]);
            assert(out@ =~= seq!['['] + enc_entries(log.take(i + 1)));
        }
        i = i + 1;
    }
    out.push(']');
    proof {
        assert(log.take(log.len() as int) =~= log);
        assert(out@ =~= enc_log(log));
    }
    chars_to_string(&out)
}

} // verus!
