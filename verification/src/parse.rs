//! Parsing of the persisted JSON document back into a log.
//!
//! The grammar is the one `codec` emits — objects with `task` and `start`
//! first and optional `end` and `note` after, in that order — with
//! whitespace allowed between tokens and the usual backslash escapes
//! inside strings.

use vstd::prelude::*;
use crate::codec::{chars_to_string, string_to_chars};
use crate::data::{EntryModel, TimeEntry, wf_log};
use crate::error::TimeCheckerError;
use crate::time::{Timestamp, days_in_month, days_in_month_of};

verus! {

pub open spec fn is_ws(c: char) -> bool {
    c == ' ' || c == '\n' || c == '\r' || c == '\t'
}

/// First position at or after `i` holding a non-whitespace character.
pub open spec fn skip_ws(s: Seq<char>, i: int) -> int
    decreases s.len() - i,
{
    if i < 0 || i >= s.len() {
        i
    } else if is_ws(s[i]) {
        skip_ws(s, i + 1)
    } else {
        i
    }
}

pub open spec fn is_digit(c: char) -> bool {
    48 <= c as u32 <= 57
}

pub open spec fn dval(c: char) -> int {
    c as u32 - 48
}

pub open spec fn is_hex(c: char) -> bool {
    (48 <= c as u32 <= 57) || (97 <= c as u32 <= 102) || (65 <= c as u32 <= 70)
}

pub open spec fn hex_val(c: char) -> int {
    if 48 <= c as u32 <= 57 {
        c as u32 - 48
    } else if 97 <= c as u32 {
        c as u32 - 87
    } else {
        c as u32 - 55
    }
}

/// The literal `lit` stands at position `i`.
pub open spec fn match_at(s: Seq<char>, i: int, lit: Seq<char>) -> bool {
    0 <= i && i + lit.len() <= s.len() && s.subrange(i, i + lit.len()) == lit
}

/// Body of a JSON string after the opening quote: the decoded text and the
/// position after the closing quote.
pub open spec fn parse_str_body(s: Seq<char>, i: int, acc: Seq<char>) -> Option<(Seq<char>, int)>
    decreases s.len() - i,
{
    if i < 0 || i >= s.len() {
        None
    } else if s[i] == '"' {
        Some((acc, i + 1))
    } else if s[i] == '\\' {
        if i + 1 >= s.len() {
            None
        } else {
            let c = s[i + 1];
            if c == '"' {
                parse_str_body(s, i + 2, acc.push('"'))
            } else if c == '\\' {
                parse_str_body(s, i + 2, acc.push('\\'))
            } else if c == '/' {
                parse_str_body(s, i + 2, acc.push('/'))
            } else if c == 'n' {
                parse_str_body(s, i + 2, acc.push('\n'))
            } else if c == 'r' {
                parse_str_body(s, i + 2, acc.push('\r'))
            } else if c == 't' {
                parse_str_body(s, i + 2, acc.push('\t'))
            } else if c == 'b' {
                parse_str_body(s, i + 2, acc.push('\u{8}'))
            } else if c == 'f' {
                parse_str_body(s, i + 2, acc.push('\u{c}'))
            } else if c == 'u' {
                if i + 6 > s.len() {
                    None
                } else if s[i + 2] == '0' && s[i + 3] == '0' && is_hex(s[i + 4]) && is_hex(
                    s[i + 5],
                ) {
                    parse_str_body(
                        s,
                        i + 6,
                        acc.push(((16 * hex_val(s[i + 4]) + hex_val(s[i + 5])) as u8) as char),
                    )
                } else {
                    None
                }
            } else {
                None
            }
        }
    } else {
        parse_str_body(s, i + 1, acc.push(s[i]))
    }
}

/// A JSON string starting at `i` with its opening quote.
pub open spec fn parse_string(s: Seq<char>, i: int) -> Option<(Seq<char>, int)> {
    if 0 <= i < s.len() && s[i] == '"' {
        parse_str_body(s, i + 1, Seq::empty())
    } else {
        None
    }
}

pub open spec fn digits2_at(s: Seq<char>, i: int) -> bool {
    is_digit(s[i]) && is_digit(s[i + 1])
}

pub open spec fn digits4_at(s: Seq<char>, i: int) -> bool {
    is_digit(s[i]) && is_digit(s[i + 1]) && is_digit(s[i + 2]) && is_digit(s[i + 3])
}

pub open spec fn val2(s: Seq<char>, i: int) -> int {
    10 * dval(s[i]) + dval(s[i + 1])
}

pub open spec fn val4(s: Seq<char>, i: int) -> int {
    1000 * dval(s[i]) + 100 * dval(s[i + 1]) + 10 * dval(s[i + 2]) + dval(s[i + 3])
}

/// A quoted `YYYY-MM-DDTHH:MM:SS+HH:MM` timestamp starting at `i`; the
/// fields must lie in the representable calendar ranges.
pub open spec fn parse_ts(s: Seq<char>, i: int) -> Option<(Timestamp, int)> {
    if i < 0 || i + 27 > s.len() {
        None
    } else if s[i] != '"' || s[i + 26] != '"' {
        None
    } else if !(digits4_at(s, i + 1) && s[i + 5] == '-' && digits2_at(s, i + 6) && s[i + 8] == '-'
        && digits2_at(s, i + 9) && s[i + 11] == 'T' && digits2_at(s, i + 12) && s[i + 14] == ':'
        && digits2_at(s, i + 15) && s[i + 17] == ':' && digits2_at(s, i + 18) && (s[i + 20] == '+'
        || s[i + 20] == '-') && digits2_at(s, i + 21) && s[i + 23] == ':' && digits2_at(
        s,
        i + 24,
    )) {
        None
    } else {
        let year = val4(s, i + 1);
        let month = val2(s, i + 6);
        let day = val2(s, i + 9);
        let hour = val2(s, i + 12);
        let minute = val2(s, i + 15);
        let second = val2(s, i + 18);
        let oh = val2(s, i + 21);
        let om = val2(s, i + 24);
        let mag = oh * 3600 + om * 60;
        let off: int = if s[i + 20] == '-' {
            -mag
        } else {
            mag
        };
        if 1 <= month <= 12 && 1 <= day <= days_in_month(year, month) && hour <= 23 && minute
            <= 59 && second <= 59 && oh <= 23 && om <= 59 {
            Some(
                (
                    Timestamp {
                        year: year as u16,
                        month: month as u8,
                        day: day as u8,
                        hour: hour as u8,
                        minute: minute as u8,
                        second: second as u8,
                        offset_seconds: off as i32,
                    },
                    i + 27,
                ),
            )
        } else {
            None
        }
    }
}

pub open spec fn kq_task() -> Seq<char> {
    seq!['"', 't', 'a', 's', 'k', '"']
}

pub open spec fn kq_start() -> Seq<char> {
    seq!['"', 's', 't', 'a', 'r', 't', '"']
}

pub open spec fn kq_end() -> Seq<char> {
    seq!['"', 'e', 'n', 'd', '"']
}

pub open spec fn kq_note() -> Seq<char> {
    seq!['"', 'n', 'o', 't', 'e', '"']
}

/// Closing brace after an entry's last member.
pub open spec fn parse_entry_close(s: Seq<char>, i: int, e: EntryModel) -> Option<
    (EntryModel, int),
> {
    let q = skip_ws(s, i);
    if q < s.len() && s[q] == '}' {
        Some((e, q + 1))
    } else {
        None
    }
}

/// After `end`: either the closing brace or a `note` member.
pub open spec fn parse_entry_opt2(
    s: Seq<char>,
    i: int,
    task: Seq<char>,
    start: Timestamp,
    end: Timestamp,
) -> Option<(EntryModel, int)> {
    let q = skip_ws(s, i);
    if q < s.len() && s[q] == '}' {
        Some((EntryModel { task, start, end: Some(end), note: None }, q + 1))
    } else if q < s.len() && s[q] == ',' {
        let r = skip_ws(s, q + 1);
        if match_at(s, r, kq_note()) {
            let c = skip_ws(s, r + 6);
            if c < s.len() && s[c] == ':' {
                match parse_string(s, skip_ws(s, c + 1)) {
                    None => None,
                    Some((note, p)) => parse_entry_close(
                        s,
                        p,
                        EntryModel { task, start, end: Some(end), note: Some(note) },
                    ),
                }
            } else {
                None
            }
        } else {
            None
        }
    } else {
        None
    }
}

/// After `start`: the closing brace, an `end` member, or a `note` member.
pub open spec fn parse_entry_opt(s: Seq<char>, i: int, task: Seq<char>, start: Timestamp) -> Option<
    (EntryModel, int),
> {
    let q = skip_ws(s, i);
    if q < s.len() && s[q] == '}' {
        Some((EntryModel { task, start, end: None, note: None }, q + 1))
    } else if q < s.len() && s[q] == ',' {
        let r = skip_ws(s, q + 1);
        if match_at(s, r, kq_end()) {
            let c = skip_ws(s, r + 5);
            if c < s.len() && s[c] == ':' {
                match parse_ts(s, skip_ws(s, c + 1)) {
                    None => None,
                    Some((end, p)) => parse_entry_opt2(s, p, task, start, end),
                }
            } else {
                None
            }
        } else if match_at(s, r, kq_note()) {
            let c = skip_ws(s, r + 6);
            if c < s.len() && s[c] == ':' {
                match parse_string(s, skip_ws(s, c + 1)) {
                    None => None,
                    Some((note, p)) => parse_entry_close(
                        s,
                        p,
                        EntryModel { task, start, end: None, note: Some(note) },
                    ),
                }
            } else {
                None
            }
        } else {
            None
        }
    } else {
        None
    }
}

/// One entry object starting at or after `i`.
pub open spec fn parse_entry(s: Seq<char>, i: int) -> Option<(EntryModel, int)> {
    let a = skip_ws(s, i);
    if !(a < s.len() && s[a] == '{') {
        None
    } else {
        let b = skip_ws(s, a + 1);
        if !match_at(s, b, kq_task()) {
            None
        } else {
            let c = skip_ws(s, b + 6);
            if !(c < s.len() && s[c] == ':') {
                None
            } else {
                match parse_string(s, skip_ws(s, c + 1)) {
                    None => None,
                    Some((task, p1)) => {
                        let d = skip_ws(s, p1);
                        if !(d < s.len() && s[d] == ',') {
                            None
                        } else {
                            let e2 = skip_ws(s, d + 1);
                            if !match_at(s, e2, kq_start()) {
                                None
                            } else {
                                let f = skip_ws(s, e2 + 7);
                                if !(f < s.len() && s[f] == ':') {
                                    None
                                } else {
                                    match parse_ts(s, skip_ws(s, f + 1)) {
                                        None => None,
                                        Some((start, p2)) => parse_entry_opt(s, p2, task, start),
                                    }
                                }
                            }
                        }
                    },
                }
            }
        }
    }
}

/// The comma-separated entries of a non-empty array, ending at `]`.
pub open spec fn parse_entries(s: Seq<char>, i: int, acc: Seq<EntryModel>, fuel: nat) -> Option<
    (Seq<EntryModel>, int),
>
    decreases fuel,
{
    match parse_entry(s, i) {
        None => None,
        Some((e, p)) => {
            let q = skip_ws(s, p);
            if q < s.len() && s[q] == ']' {
                Some((acc.push(e), q + 1))
            } else if q < s.len() && s[q] == ',' {
                if fuel == 0 {
                    None
                } else {
                    parse_entries(s, q + 1, acc.push(e), (fuel - 1) as nat)
                }
            } else {
                None
            }
        },
    }
}

/// A whole document: one array of entries with nothing but whitespace
/// around it.
pub open spec fn parse_log(s: Seq<char>) -> Option<Seq<EntryModel>> {
    let i = skip_ws(s, 0);
    if i < s.len() && s[i] == '[' {
        let q = skip_ws(s, i + 1);
        if q < s.len() && s[q] == ']' {
            if skip_ws(s, q + 1) == s.len() {
                Some(Seq::empty())
            } else {
                None
            }
        } else {
            match parse_entries(s, i + 1, Seq::empty(), s.len() as nat) {
                Some((es, p)) => if skip_ws(s, p) == s.len() {
                    Some(es)
                } else {
                    None
                },
                None => None,
            }
        }
    } else {
        None
    }
}

/// One entry with nothing but whitespace after it.
pub open spec fn parse_entry_doc(s: Seq<char>) -> Option<EntryModel> {
    match parse_entry(s, 0) {
        Some((e, p)) => if skip_ws(s, p) == s.len() {
            Some(e)
        } else {
            None
        },
        None => None,
    }
}

/// What stored content denotes: absent or whitespace-only content is the
/// empty log; anything else must parse as a document.
pub open spec fn decode_spec(s: Seq<char>) -> Option<Seq<EntryModel>> {
    if skip_ws(s, 0) == s.len() {
        Some(Seq::empty())
    } else {
        parse_log(s)
    }
}


// ---------------------------------------------------------------------
// Executable parsing.
// ---------------------------------------------------------------------
fn is_ws_exec(c: char) -> (r: bool)
    ensures
        r == is_ws(c),
{
    c == ' ' || c == '\n' || c == '\r' || c == '\t'
}

fn skip_ws_exec(v: &Vec<char>, i: usize) -> (r: usize)
    requires
        i <= v@.len(),
    ensures
        r as int == skip_ws(v@, i as int),
        i <= r <= v@.len(),
{
    let mut j = i;
    while j < v.len() && is_ws_exec(v[j])
        invariant
            i <= j <= v@.len(),
            skip_ws(v@, i as int) == skip_ws(v@, j as int),
        decreases v@.len() - j,
    {
        j = j + 1;
    }
    j
}

fn is_digit_exec(c: char) -> (r: bool)
    ensures
        r == is_digit(c),
{
    let u = c as u32;
    48 <= u && u <= 57
}

fn dval_exec(c: char) -> (r: u32)
    requires
        is_digit(c),
    ensures
        r as int == dval(c),
        r <= 9,
{
    c as u32 - 48
}

fn is_hex_exec(c: char) -> (r: bool)
    ensures
        r == is_hex(c),
{
    let u = c as u32;
    (48 <= u && u <= 57) || (97 <= u && u <= 102) || (65 <= u && u <= 70)
}

fn hex_val_exec(c: char) -> (r: u32)
    requires
        is_hex(c),
    ensures
        r as int == hex_val(c),
        r <= 15,
{
    let u = c as u32;
    if u >= 97 {
        u - 87
    } else if u >= 65 {
        u - 55
    } else {
        u - 48
    }
}

#[verifier::loop_isolation(false)]
fn parse_string_exec(v: &Vec<char>, i: usize) -> (r: Option<(String, usize)>)
    requires
        i <= v@.len(),
    ensures
        match r {
            Some((t, p)) => parse_string(v@, i as int) == Some((t@, p as int)) && i < p
                <= v@.len(),
            None => parse_string(v@, i as int) is None,
        },
{
    if !(i < v.len() && v[i] == '"') {
        return None;
    }
    let mut acc: Vec<char> = Vec::new();
    let mut j: usize = i + 1;
    loop
        invariant
            i + 1 <= j <= v@.len(),
            parse_str_body(v@, i as int + 1, Seq::empty()) == parse_str_body(v@, j as int, acc@),
        decreases v@.len() - j,
    {
        if j >= v.len() {
            return None;
        }
        let c = v[j];
        if c == '"' {
            let st = chars_to_string(&acc);
            return Some((st, j + 1));
        } else if c == '\\' {
            if j + 1 >= v.len() {
                return None;
            }
            let c2 = v[j + 1];
            if c2 == '"' {
                acc.push('"');
                j = j + 2;
            } else if c2 == '\\' {
                acc.push('\\');
                j = j + 2;
            } else if c2 == '/' {
                acc.push('/');
                j = j + 2;
            } else if c2 == 'n' {
                acc.push('\n');
                j = j + 2;
            } else if c2 == 'r' {
                acc.push('\r');
                j = j + 2;
            } else if c2 == 't' {
                acc.push('\t');
                j = j + 2;
            } else if c2 == 'b' {
                acc.push('\u{8}');
                j = j + 2;
            } else if c2 == 'f' {
                acc.push('\u{c}');
                j = j + 2;
            } else if c2 == 'u' {
                if v.len() - j < 6 {
                    return None;
                }
                let z0 = v[j + 2];
                let z1 = v[j + 3];
                let h0 = v[j + 4];
                let h1 = v[j + 5];
                if z0 == '0' && z1 == '0' && is_hex_exec(h0) && is_hex_exec(h1) {
                    let code: u32 = 16 * hex_val_exec(h0) + hex_val_exec(h1);
                    acc.push(code as u8 as char);
                    j = j + 6;
                } else {
                    return None;
                }
            } else {
                return None;
            }
        } else {
            acc.push(c);
            j = j + 1;
        }
    }
}

#[verifier::rlimit(100)]
fn parse_ts_exec(v: &Vec<char>, i: usize) -> (r: Option<(Timestamp, usize)>)
    requires
        i <= v@.len(),
    ensures
        match r {
            Some((t, p)) => parse_ts(v@, i as int) == Some((t, p as int)) && t.wf() && i < p
                <= v@.len(),
            None => parse_ts(v@, i as int) is None,
        },
{
    if v.len() - i < 27 {
        return None;
    }
    if v[i] != '"' || v[i + 26] != '"' {
        return None;
    }
    let shape = is_digit_exec(v[i + 1]) && is_digit_exec(v[i + 2]) && is_digit_exec(v[i + 3])
        && is_digit_exec(v[i + 4]) && v[i + 5] == '-' && is_digit_exec(v[i + 6]) && is_digit_exec(
        v[i + 7],
    ) && v[i + 8] == '-' && is_digit_exec(v[i + 9]) && is_digit_exec(v[i + 10]) && v[i + 11] == 'T'
        && is_digit_exec(v[i + 12]) && is_digit_exec(v[i + 13]) && v[i + 14] == ':'
        && is_digit_exec(v[i + 15]) && is_digit_exec(v[i + 16]) && v[i + 17] == ':'
        && is_digit_exec(v[i + 18]) && is_digit_exec(v[i + 19]) && (v[i + 20] == '+' || v[i + 20]
        == '-') && is_digit_exec(v[i + 21]) && is_digit_exec(v[i + 22]) && v[i + 23] == ':'
        && is_digit_exec(v[i + 24]) && is_digit_exec(v[i + 25]);
    if !shape {
        return None;
    }
    let year: u32 = 1000 * dval_exec(v[i + 1]) + 100 * dval_exec(v[i + 2]) + 10 * dval_exec(
        v[i + 3],
    ) + dval_exec(v[i + 4]);
    let month: u32 = 10 * dval_exec(v[i + 6]) + dval_exec(v[i + 7]);
    let day: u32 = 10 * dval_exec(v[i + 9]) + dval_exec(v[i + 10]);
    let hour: u32 = 10 * dval_exec(v[i + 12]) + dval_exec(v[i + 13]);
    let minute: u32 = 10 * dval_exec(v[i + 15]) + dval_exec(v[i + 16]);
    let second: u32 = 10 * dval_exec(v[i + 18]) + dval_exec(v[i + 19]);
    let oh: u32 = 10 * dval_exec(v[i + 21]) + dval_exec(v[i + 22]);
    let om: u32 = 10 * dval_exec(v[i + 24]) + dval_exec(v[i + 25]);
    if !(1 <= month && month <= 12 && 1 <= day && hour <= 23 && minute <= 59 && second <= 59 && oh
        <= 23 && om <= 59) {
        return None;
    }
    if !(day as u8 <= days_in_month_of(year as u16, month as u8)) {
        return None;
    }
    let mag: u32 = oh * 3600 + om * 60;
    let off: i32 = if v[i + 20] == '-' {
        -(mag as i32)
    } else {
        mag as i32
    };
    let t = Timestamp {
        year: year as u16,
        month: month as u8,
        day: day as u8,
        hour: hour as u8,
        minute: minute as u8,
        second: second as u8,
        offset_seconds: off,
    };
    proof {
        assert(mag as int % 60 == 0) by {
            assert(mag as int == 60 * (60 * oh as int + om as int));
        }
        assert(t.offset_seconds as int % 60 == 0);
        assert(t.wf());
    }
    Some((t, i + 27))
}

fn match_kq_task(v: &Vec<char>, i: usize) -> (r: bool)
    requires
        i <= v@.len(),
    ensures
        r == match_at(v@, i as int, kq_task()),
{
    if v.len() - i < 6 {
        return false;
    }
    let r = v[i] == '"' && v[i + 1] == 't' && v[i + 2] == 'a' && v[i + 3] == 's' && v[i + 4] == 'k'
        && v[i + 5] == '"';
    proof {
        let sub = v@.subrange(i as int, i as int + 6);
        assert(sub[0] == v@[i as int]);
        assert(sub[1] == v@[i as int + 1]);
        assert(sub[2] == v@[i as int + 2]);
        assert(sub[3] == v@[i as int + 3]);
        assert(sub[4] == v@[i as int + 4]);
        assert(sub[5] == v@[i as int + 5]);
        if r {
            assert(sub =~= kq_task());
        } else {
            if sub == kq_task() {
                assert(sub[0] == '"' && sub[1] == 't' && sub[2] == 'a' && sub[3] == 's' && sub[4]
                    == 'k' && sub[5] == '"');
            }
        }
    }
    r
}

fn match_kq_start(v: &Vec<char>, i: usize) -> (r: bool)
    requires
        i <= v@.len(),
    ensures
        r == match_at(v@, i as int, kq_start()),
{
    if v.len() - i < 7 {
        return false;
    }
    let r = v[i] == '"' && v[i + 1] == 's' && v[i + 2] == 't' && v[i + 3] == 'a' && v[i + 4] == 'r'
        && v[i + 5] == 't' && v[i + 6] == '"';
    proof {
        let sub = v@.subrange(i as int, i as int + 7);
        assert(sub[0] == v@[i as int]);
        assert(sub[1] == v@[i as int + 1]);
        assert(sub[2] == v@[i as int + 2]);
        assert(sub[3] == v@[i as int + 3]);
        assert(sub[4] == v@[i as int + 4]);
        assert(sub[5] == v@[i as int + 5]);
        assert(sub[6] == v@[i as int + 6]);
        if r {
            assert(sub =~= kq_start());
        } else {
            if sub == kq_start() {
                assert(sub[0] == '"' && sub[1] == 's' && sub[2] == 't' && sub[3] == 'a' && sub[4]
                    == 'r' && sub[5] == 't' && sub[6] == '"');
            }
        }
    }
    r
}

fn match_kq_end(v: &Vec<char>, i: usize) -> (r: bool)
    requires
        i <= v@.len(),
    ensures
        r == match_at(v@, i as int, kq_end()),
{
    if v.len() - i < 5 {
        return false;
    }
    let r = v[i] == '"' && v[i + 1] == 'e' && v[i + 2] == 'n' && v[i + 3] == 'd' && v[i + 4] == '"';
    proof {
        let sub = v@.subrange(i as int, i as int + 5);
        assert(sub[0] == v@[i as int]);
        assert(sub[1] == v@[i as int + 1]);
        assert(sub[2] == v@[i as int + 2]);
        assert(sub[3] == v@[i as int + 3]);
        assert(sub[4] == v@[i as int + 4]);
        if r {
            assert(sub =~= kq_end());
        } else {
            if sub == kq_end() {
                assert(sub[0] == '"' && sub[1] == 'e' && sub[2] == 'n' && sub[3] == 'd' && sub[4]
                    == '"');
            }
        }
    }
    r
}

fn match_kq_note(v: &Vec<char>, i: usize) -> (r: bool)
    requires
        i <= v@.len(),
    ensures
        r == match_at(v@, i as int, kq_note()),
{
    if v.len() - i < 6 {
        return false;
    }
    let r = v[i] == '"' && v[i + 1] == 'n' && v[i + 2] == 'o' && v[i + 3] == 't' && v[i + 4] == 'e'
        && v[i + 5] == '"';
    proof {
        let sub = v@.subrange(i as int, i as int + 6);
        assert(sub[0] == v@[i as int]);
        assert(sub[1] == v@[i as int + 1]);
        assert(sub[2] == v@[i as int + 2]);
        assert(sub[3] == v@[i as int + 3]);
        assert(sub[4] == v@[i as int + 4]);
        assert(sub[5] == v@[i as int + 5]);
        if r {
            assert(sub =~= kq_note());
        } else {
            if sub == kq_note() {
                assert(sub[0] == '"' && sub[1] == 'n' && sub[2] == 'o' && sub[3] == 't' && sub[4]
                    == 'e' && sub[5] == '"');
            }
        }
    }
    r
}

fn parse_entry_close_exec(v: &Vec<char>, i: usize, e: TimeEntry) -> (r: Option<(TimeEntry, usize)>)
    requires
        i <= v@.len(),
    ensures
        match r {
            Some((out, p)) => parse_entry_close(v@, i as int, e.deep_view()) == Some(
                (out.deep_view(), p as int),
            ) && out.deep_view() == e.deep_view() && i < p <= v@.len(),
            None => parse_entry_close(v@, i as int, e.deep_view()) is None,
        },
{
    let q = skip_ws_exec(v, i);
    if q < v.len() && v[q] == '}' {
        Some((e, q + 1))
    } else {
        None
    }
}

#[verifier::rlimit(100)]
fn parse_entry_opt2_exec(
    v: &Vec<char>,
    i: usize,
    task: String,
    start: Timestamp,
    end: Timestamp,
) -> (r: Option<(TimeEntry, usize)>)
    requires
        i <= v@.len(),
    ensures
        match r {
            Some((out, p)) => parse_entry_opt2(v@, i as int, task@, start, end) == Some(
                (out.deep_view(), p as int),
            ) && out.start == start && out.end == Some(end) && i < p <= v@.len(),
            None => parse_entry_opt2(v@, i as int, task@, start, end) is None,
        },
{
    let q = skip_ws_exec(v, i);
    if q < v.len() && v[q] == '}' {
        Some((TimeEntry { task, start, end: Some(end), note: None }, q + 1))
    } else if q < v.len() && v[q] == ',' {
        let r2 = skip_ws_exec(v, q + 1);
        if match_kq_note(v, r2) {
            let c = skip_ws_exec(v, r2 + 6);
            if c < v.len() && v[c] == ':' {
                let sw = skip_ws_exec(v, c + 1);
                match parse_string_exec(v, sw) {
                    None => None,
                    Some((note, p)) => parse_entry_close_exec(
                        v,
                        p,
                        TimeEntry { task, start, end: Some(end), note: Some(note) },
                    ),
                }
            } else {
                None
            }
        } else {
            None
        }
    } else {
        None
    }
}

#[verifier::rlimit(100)]
fn parse_entry_opt_exec(v: &Vec<char>, i: usize, task: String, start: Timestamp) -> (r: Option<
    (TimeEntry, usize),
>)
    requires
        i <= v@.len(),
    ensures
        match r {
            Some((out, p)) => parse_entry_opt(v@, i as int, task@, start) == Some(
                (out.deep_view(), p as int),
            ) && out.start == start && i < p <= v@.len(),
            None => parse_entry_opt(v@, i as int, task@, start) is None,
        },
{
    let q = skip_ws_exec(v, i);
    if q < v.len() && v[q] == '}' {
        Some((TimeEntry { task, start, end: None, note: None }, q + 1))
    } else if q < v.len() && v[q] == ',' {
        let r2 = skip_ws_exec(v, q + 1);
        if match_kq_end(v, r2) {
            let c = skip_ws_exec(v, r2 + 5);
            if c < v.len() && v[c] == ':' {
                let sw = skip_ws_exec(v, c + 1);
                match parse_ts_exec(v, sw) {
                    None => None,
                    Some((end, p)) => parse_entry_opt2_exec(v, p, task, start, end),
                }
            } else {
                None
            }
        } else if match_kq_note(v, r2) {
            let c = skip_ws_exec(v, r2 + 6);
            if c < v.len() && v[c] == ':' {
                let sw = skip_ws_exec(v, c + 1);
                match parse_string_exec(v, sw) {
                    None => None,
                    Some((note, p)) => parse_entry_close_exec(
                        v,
                        p,
                        TimeEntry { task, start, end: None, note: Some(note) },
                    ),
                }
            } else {
                None
            }
        } else {
            None
        }
    } else {
        None
    }
}

#[verifier::rlimit(100)]
fn parse_entry_exec(v: &Vec<char>, i: usize) -> (r: Option<(TimeEntry, usize)>)
    requires
        i <= v@.len(),
    ensures
        match r {
            Some((out, p)) => parse_entry(v@, i as int) == Some((out.deep_view(), p as int))
                && out.deep_view().wf() && i < p <= v@.len(),
            None => parse_entry(v@, i as int) is None,
        },
{
    let a = skip_ws_exec(v, i);
    if !(a < v.len() && v[a] == '{') {
        return None;
    }
    let b = skip_ws_exec(v, a + 1);
    if !match_kq_task(v, b) {
        return None;
    }
    let c = skip_ws_exec(v, b + 6);
    if !(c < v.len() && v[c] == ':') {
        return None;
    }
    let sw = skip_ws_exec(v, c + 1);
    match parse_string_exec(v, sw) {
        None => None,
        Some((task, p1)) => {
            let d = skip_ws_exec(v, p1);
            if !(d < v.len() && v[d] == ',') {
                return None;
            }
            let e2 = skip_ws_exec(v, d + 1);
            if !match_kq_start(v, e2) {
                return None;
            }
            let f = skip_ws_exec(v, e2 + 7);
            if !(f < v.len() && v[f] == ':') {
                return None;
            }
            let sw2 = skip_ws_exec(v, f + 1);
            match parse_ts_exec(v, sw2) {
                None => None,
                Some((start, p2)) => parse_entry_opt_exec(v, p2, task, start),
            }
        },
    }
}

#[verifier::loop_isolation(false)]
#[verifier::rlimit(100)]
fn parse_entries_exec(v: &Vec<char>, i: usize) -> (r: Option<(Vec<TimeEntry>, usize)>)
    requires
        i <= v@.len(),
    ensures
        match r {
            Some((es, p)) => parse_entries(v@, i as int, Seq::empty(), v@.len() as nat) == Some(
                (es.deep_view(), p as int),
            ) && wf_log(es.deep_view()) && p <= v@.len(),
            None => parse_entries(v@, i as int, Seq::empty(), v@.len() as nat) is None,
        },
{
    let mut acc: Vec<TimeEntry> = Vec::new();
    let mut j: usize = i;
    let ghost mut fuel: nat = v@.len() as nat;
    proof {
        assert(acc.deep_view() =~= Seq::<EntryModel>::empty());
    }
    loop
        invariant
            i <= j <= v@.len(),
            fuel >= v@.len() - j,
            wf_log(acc.deep_view()),
            parse_entries(v@, i as int, Seq::empty(), v@.len() as nat) == parse_entries(
                v@,
                j as int,
                acc.deep_view(),
                fuel,
            ),
        decreases v@.len() - j,
    {
        match parse_entry_exec(v, j) {
            None => {
                return None;
            },
            Some((e, p)) => {
                let ghost em = e.deep_view();
                let q = skip_ws_exec(v, p);
                if q < v.len() && v[q] == ']' {
                    let ghost acc0 = acc.deep_view();
                    acc.push(e);
                    proof {
                        assert(acc.deep_view() =~= acc0.push(em));
                    }
                    return Some((acc, q + 1));
                } else if q < v.len() && v[q] == ',' {
                    let ghost acc0 = acc.deep_view();
                    acc.push(e);
                    proof {
                        assert(acc.deep_view() =~= acc0.push(em));
                        fuel = (fuel - 1) as nat;
                    }
                    j = q + 1;
                } else {
                    return None;
                }
            },
        }
    }
}

fn load_error() -> (e: TimeCheckerError)
    ensures
        e is DataLoadError,
{
    TimeCheckerError::DataLoadError(String::from_str("malformed log document"))
}

#[verifier::rlimit(100)]
fn parse_log_chars(v: &Vec<char>) -> (r: Result<Vec<TimeEntry>, TimeCheckerError>)
    ensures
        match r {
            Ok(es) => parse_log(v@) == Some(es.deep_view()) && wf_log(es.deep_view()),
            Err(e) => parse_log(v@) is None && e is DataLoadError,
        },
{
    let i = skip_ws_exec(v, 0);
    if i < v.len() && v[i] == '[' {
        let q = skip_ws_exec(v, i + 1);
        if q < v.len() && v[q] == ']' {
            if skip_ws_exec(v, q + 1) == v.len() {
                let es: Vec<TimeEntry> = Vec::new();
                proof {
                    assert(es.deep_view() =~= Seq::<EntryModel>::empty());
                }
                Ok(es)
            } else {
                Err(load_error())
            }
        } else {
            match parse_entries_exec(v, i + 1) {
                Some((es, p)) => {
                    if skip_ws_exec(v, p) == v.len() {
                        Ok(es)
                    } else {
                        Err(load_error())
                    }
                },
                None => Err(load_error()),
            }
        }
    } else {
        Err(load_error())
    }
}

/// Parses a stored JSON document into a log; any malformed document is the
/// `DataLoadError` failure.
pub fn log_from_json(s: &str) -> (r: Result<Vec<TimeEntry>, TimeCheckerError>)
    ensures
        match r {
            Ok(es) => parse_log(s@) == Some(es.deep_view()) && wf_log(es.deep_view()),
            Err(e) => parse_log(s@) is None && e is DataLoadError,
        },
{
    let v = string_to_chars(s);
    parse_log_chars(&v)
}

/// Parses one entry object (with nothing but whitespace after it).
pub fn entry_from_json(s: &str) -> (r: Option<TimeEntry>)
    ensures
        match r {
            Some(e) => parse_entry_doc(s@) == Some(e.deep_view()) && e.deep_view().wf(),
            None => parse_entry_doc(s@) is None,
        },
{
    let v = string_to_chars(s);
    match parse_entry_exec(&v, 0) {
        None => None,
        Some((e, p)) => {
            if skip_ws_exec(&v, p) == v.len() {
                Some(e)
            } else {
                None
            }
        },
    }
}

/// What stored content denotes: absent or whitespace-only content is the
/// empty log without error; anything else must parse as a document.
pub fn decode_content(s: &str) -> (r: Result<Vec<TimeEntry>, TimeCheckerError>)
    ensures
        match r {
            Ok(es) => decode_spec(s@) == Some(es.deep_view()) && wf_log(es.deep_view()),
            Err(e) => decode_spec(s@) is None && e is DataLoadError,
        },
{
    let v = string_to_chars(s);
    let j = skip_ws_exec(&v, 0);
    if j == v.len() {
        let es: Vec<TimeEntry> = Vec::new();
        proof {
            assert(es.deep_view() =~= Seq::<EntryModel>::empty());
        }
        Ok(es)
    } else {
        parse_log_chars(&v)
    }
}

} // verus!
