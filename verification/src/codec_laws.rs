//! The round-trip law of the persisted form: parsing an encoded log (or a
//! single encoded entry) yields exactly what was encoded.

use vstd::prelude::*;
use crate::codec::{
    d2, d4, digit, enc_entries, enc_entry, enc_entry_tail, enc_entry_tail2, enc_log, enc_string,
    enc_ts, esc_char, esc_str, hex_digit, key_end, key_note, key_start, key_task,
};
use crate::data::{EntryModel, wf_log};
use crate::parse::{
    decode_spec, digits2_at, digits4_at, dval, hex_val, is_digit, is_hex, is_ws, kq_end, kq_note,
    kq_start, kq_task, match_at, parse_entries, parse_entry, parse_entry_close, parse_entry_doc,
    parse_entry_opt, parse_entry_opt2, parse_log, parse_str_body, parse_string, parse_ts, skip_ws,
    val2, val4,
};
use crate::time::Timestamp;

verus! {

/// Each character of a matched literal stands at its offset.
pub proof fn lemma_match_at_index(s: Seq<char>, i: int, lit: Seq<char>)
    requires
        match_at(s, i, lit),
    ensures
        forall|k: int| 0 <= k < lit.len() ==> s[i + k] == lit[k],
        lit.len() > 0 ==> s[i] == lit[0],
{
    assert forall|k: int| 0 <= k < lit.len() implies s[i + k] == lit[k] by {
        assert(s.subrange(i, i + lit.len())[k] == lit[k]);
    }
    if lit.len() > 0 {
        assert(s[i + 0] == lit[0]);
    }
}

/// A matched concatenation matches piece by piece.
pub proof fn lemma_match_at_concat(s: Seq<char>, i: int, a: Seq<char>, b: Seq<char>)
    requires
        match_at(s, i, a + b),
    ensures
        match_at(s, i, a),
        match_at(s, i + a.len(), b),
{
    lemma_match_at_index(s, i, a + b);
    assert forall|k: int| 0 <= k < a.len() implies s.subrange(i, i + a.len())[k] == a[k] by {
        assert((a + b)[k] == a[k]);
    }
    assert(s.subrange(i, i + a.len()) =~= a);
    assert forall|k: int|
        0 <= k < b.len() implies s.subrange(i + a.len(), i + a.len() + b.len())[k] == b[k] by {
        assert((a + b)[a.len() + k] == b[k]);
        assert(s[i + a.len() + k] == (a + b)[a.len() + k]);
    }
    assert(s.subrange(i + a.len(), i + a.len() + b.len()) =~= b);
}

/// Decimal digit characters decode to their value.
pub proof fn lemma_digit_char(d: int)
    requires
        0 <= d <= 9,
    ensures
        is_digit(digit(d)),
        dval(digit(d)) == d,
        !is_ws(digit(d)),
        digit(d) != '"' && digit(d) != '-' && digit(d) != ':' && digit(d) != '+',
{
}

/// Hexadecimal digit characters decode to their value.
pub proof fn lemma_hex_digit_char(d: int)
    requires
        0 <= d <= 15,
    ensures
        is_hex(hex_digit(d)),
        hex_val(hex_digit(d)) == d,
{
}

/// A two-digit field decodes to the number it was printed from.
pub proof fn lemma_d2_parse(s: Seq<char>, i: int, n: int)
    requires
        0 <= n < 100,
        match_at(s, i, d2(n)),
    ensures
        digits2_at(s, i),
        val2(s, i) == n,
{
    lemma_match_at_index(s, i, d2(n));
    lemma_digit_char(n / 10);
    lemma_digit_char(n % 10);
    assert(s[i] == digit(n / 10));
    assert(s[i + 1] == digit(n % 10));
    assert(10 * (n / 10) + n % 10 == n);
}

/// A four-digit field decodes to the number it was printed from.
pub proof fn lemma_d4_parse(s: Seq<char>, i: int, n: int)
    requires
        0 <= n < 10000,
        match_at(s, i, d4(n)),
    ensures
        digits4_at(s, i),
        val4(s, i) == n,
{
    lemma_match_at_index(s, i, d4(n));
    lemma_digit_char(n / 1000);
    lemma_digit_char((n / 100) % 10);
    lemma_digit_char((n / 10) % 10);
    lemma_digit_char(n % 10);
    assert(1000 * (n / 1000) + 100 * ((n / 100) % 10) + 10 * ((n / 10) % 10) + n % 10 == n) by {
        assert(n / 100 == 10 * (n / 1000) + (n / 100) % 10);
        assert(n / 10 == 10 * (n / 100) + (n / 10) % 10);
        assert(n == 10 * (n / 10) + n % 10);
    }
}

/// Parsing the escaped text (with the closing quote after it) recovers the
/// original text.
pub proof fn lemma_parse_body_esc(s: Seq<char>, i: int, acc: Seq<char>, v: Seq<char>)
    requires
        match_at(s, i, esc_str(v) + seq!['"']),
    ensures
        parse_str_body(s, i, acc) == Some((acc + v, i + esc_str(v).len() + 1)),
    decreases v.len(),
{
    lemma_match_at_index(s, i, esc_str(v) + seq!['"']);
    if v.len() == 0 {
        assert(s[i] == '"');
        assert(acc + v =~= acc);
    } else {
        let c = v[0];
        let rest = v.drop_first();
        assert(esc_str(v) == esc_char(c) + esc_str(rest));
        assert((esc_char(c) + esc_str(rest)) + seq!['"'] =~= esc_char(c) + (esc_str(rest)
            + seq!['"']));
        lemma_match_at_concat(s, i, esc_char(c), esc_str(rest) + seq!['"']);
        lemma_match_at_index(s, i, esc_char(c));
        if c == '"' {
            assert(s[i] == '\\' && s[i + 1] == '"');
            lemma_parse_body_esc(s, i + 2, acc.push(c), rest);
            assert(acc.push(c) + rest =~= acc + v);
        } else if c == '\\' {
            assert(s[i] == '\\' && s[i + 1] == '\\');
            lemma_parse_body_esc(s, i + 2, acc.push(c), rest);
            assert(acc.push(c) + rest =~= acc + v);
        } else if (c as u32) < 32 {
            assert(esc_char(c)[0] == '\\');
            assert(esc_char(c)[1] == 'u');
            assert(esc_char(c)[2] == '0');
            assert(esc_char(c)[3] == '0');
            assert(s[i] == '\\' && s[i + 1] == 'u' && s[i + 2] == '0' && s[i + 3] == '0');
            let cv = (c as u32) as int;
            let hi = cv / 16;
            let lo = cv % 16;
            assert(s[i + 4] == hex_digit(hi) && s[i + 5] == hex_digit(lo));
            lemma_hex_digit_char(hi);
            lemma_hex_digit_char(lo);
            let w = 16 * hex_val(s[i + 4]) + hex_val(s[i + 5]);
            assert(w == c as u32);
            let ch = ((w as u8) as char);
            assert(ch as u32 == w);
            vstd::utf8::char_u32_cast(ch, ch as u32);
            vstd::utf8::char_u32_cast(c, c as u32);
            assert(ch == c);
            lemma_parse_body_esc(s, i + 6, acc.push(c), rest);
            assert(acc.push(c) + rest =~= acc + v);
        } else {
            assert(s[i] == c);
            assert(s[i] != '"' && s[i] != '\\');
            lemma_parse_body_esc(s, i + 1, acc.push(c), rest);
            assert(acc.push(c) + rest =~= acc + v);
        }
    }
}

/// Parsing an encoded string recovers the original text.
pub proof fn lemma_parse_string_enc(s: Seq<char>, i: int, v: Seq<char>)
    requires
        match_at(s, i, enc_string(v)),
    ensures
        parse_string(s, i) == Some((v, i + enc_string(v).len())),
        enc_string(v).len() == esc_str(v).len() + 2,
{
    assert(enc_string(v) == seq!['"'] + (esc_str(v) + seq!['"']));
    lemma_match_at_concat(s, i, seq!['"'], esc_str(v) + seq!['"']);
    lemma_match_at_index(s, i, seq!['"']);
    assert(s[i] == '"');
    lemma_parse_body_esc(s, i + 1, Seq::empty(), v);
    assert(Seq::<char>::empty() + v =~= v);
}


/// Parsing an encoded timestamp recovers the original timestamp.
#[verifier::rlimit(100)]
pub proof fn lemma_parse_ts_enc(s: Seq<char>, i: int, t: Timestamp)
    requires
        t.wf(),
        match_at(s, i, enc_ts(t)),
    ensures
        enc_ts(t).len() == 27,
        parse_ts(s, i) == Some((t, i + 27)),
{
    let y = t.year as int;
    let mo = t.month as int;
    let d = t.day as int;
    let h = t.hour as int;
    let mi = t.minute as int;
    let sec = t.second as int;
    let off = t.offset_seconds as int;
    let off_min = if off >= 0 {
        off / 60
    } else {
        (-off) / 60
    };
    let sign: char = if off >= 0 {
        '+'
    } else {
        '-'
    };
    let flat = seq![
        '"', digit(y / 1000), digit((y / 100) % 10), digit((y / 10) % 10), digit(y % 10), '-',
        digit(mo / 10), digit(mo % 10), '-', digit(d / 10), digit(d % 10), 'T', digit(h / 10),
        digit(h % 10), ':', digit(mi / 10), digit(mi % 10), ':', digit(sec / 10), digit(sec % 10),
        sign, digit(off_min / 60 / 10), digit(off_min / 60 % 10), ':', digit(off_min % 60 / 10),
        digit(off_min % 60 % 10), '"',
    ];
    assert(enc_ts(t) =~= flat);
    lemma_match_at_index(s, i, enc_ts(t));
    assert(s[i] == '"');
    assert(s[i + 26] == '"');
    assert(s.subrange(i + 1, i + 5) =~= d4(y));
    lemma_d4_parse(s, i + 1, y);
    assert(s[i + 5] == '-');
    assert(s.subrange(i + 6, i + 8) =~= d2(mo));
    lemma_d2_parse(s, i + 6, mo);
    assert(s[i + 8] == '-');
    assert(s.subrange(i + 9, i + 11) =~= d2(d));
    lemma_d2_parse(s, i + 9, d);
    assert(s[i + 11] == 'T');
    assert(s.subrange(i + 12, i + 14) =~= d2(h));
    lemma_d2_parse(s, i + 12, h);
    assert(s[i + 14] == ':');
    assert(s.subrange(i + 15, i + 17) =~= d2(mi));
    lemma_d2_parse(s, i + 15, mi);
    assert(s[i + 17] == ':');
    assert(s.subrange(i + 18, i + 20) =~= d2(sec));
    lemma_d2_parse(s, i + 18, sec);
    assert(s[i + 20] == sign);
    let oh = off_min / 60;
    let om = off_min % 60;
    assert(0 <= off_min <= 1439);
    assert(0 <= oh <= 23);
    assert(0 <= om <= 59);
    assert(s.subrange(i + 21, i + 23) =~= d2(oh));
    lemma_d2_parse(s, i + 21, oh);
    assert(s[i + 23] == ':');
    assert(s.subrange(i + 24, i + 26) =~= d2(om));
    lemma_d2_parse(s, i + 24, om);
    // the offset magnitude rebuilds exactly
    assert(off == 60 * (off / 60));
    if off >= 0 {
        assert(60 * off_min == off);
    } else {
        assert(-off == 60 * (-(off / 60)));
        assert((-off) / 60 == -(off / 60));
        assert(60 * off_min == -off);
    }
    assert(oh * 3600 + om * 60 == 60 * (60 * oh + om));
    assert(60 * oh + om == off_min);
    let mag = val2(s, i + 21) * 3600 + val2(s, i + 24) * 60;
    assert(mag == 60 * off_min);
    if off >= 0 {
        assert(s[i + 20] == '+');
        assert(mag == off);
    } else {
        assert(s[i + 20] == '-');
        assert(-mag == off);
    }
    assert(parse_ts(s, i) == Some((t, i + 27)));
}

/// Closing brace: the parser accepts it and hands the entry through.
pub proof fn lemma_parse_close_enc(s: Seq<char>, i: int, e: EntryModel)
    requires
        match_at(s, i, seq!['}']),
    ensures
        parse_entry_close(s, i, e) == Some((e, i + 1)),
{
    lemma_match_at_index(s, i, seq!['}']);
    assert(s[i] == '}');
}

/// Parsing the encoded members after `end` recovers the note.
pub proof fn lemma_parse_opt2_enc(
    s: Seq<char>,
    i: int,
    task: Seq<char>,
    start: Timestamp,
    end: Timestamp,
    note: Option<Seq<char>>,
)
    requires
        match_at(
            s,
            i,
            enc_entry_tail2(EntryModel { task, start, end: Some(end), note }),
        ),
    ensures
        parse_entry_opt2(s, i, task, start, end) == Some(
            (
                EntryModel { task, start, end: Some(end), note },
                i + enc_entry_tail2(EntryModel { task, start, end: Some(end), note }).len(),
            ),
        ),
{
    let e = EntryModel { task, start, end: Some(end), note };
    match note {
        None => {
            lemma_parse_close_enc(s, i, e);
        },
        Some(n) => {
            assert(enc_entry_tail2(e) == key_note() + (enc_string(n) + seq!['}']));
            assert(key_note() =~= seq![','] + (kq_note() + seq![':']));
            assert(key_note() + (enc_string(n) + seq!['}']) =~= seq![','] + ((kq_note()
                + seq![':']) + (enc_string(n) + seq!['}'])));
            lemma_match_at_concat(s, i, seq![','], (kq_note() + seq![':']) + (enc_string(n)
                + seq!['}']));
            lemma_match_at_index(s, i, seq![',']);
            assert(s[i] == ',');
            assert((kq_note() + seq![':']) + (enc_string(n) + seq!['}']) =~= kq_note() + (seq![':']
                + (enc_string(n) + seq!['}'])));
            lemma_match_at_concat(s, i + 1, kq_note(), seq![':'] + (enc_string(n) + seq!['}']));
            lemma_match_at_index(s, i + 1, kq_note());
            assert(s[i + 1] == '"');
            lemma_match_at_concat(s, i + 7, seq![':'], enc_string(n) + seq!['}']);
            lemma_match_at_index(s, i + 7, seq![':']);
            assert(s[i + 7] == ':');
            lemma_match_at_concat(s, i + 8, enc_string(n), seq!['}']);
            lemma_parse_string_enc(s, i + 8, n);
            lemma_match_at_index(s, i + 8, enc_string(n));
            assert(s[i + 8] == '"');
            let p = i + 8 + enc_string(n).len();
            lemma_parse_close_enc(s, p, e);
            assert(parse_entry_opt2(s, i, task, start, end) == Some((e, p + 1)));
            assert(enc_entry_tail2(e).len() == 8 + enc_string(n).len() + 1);
        },
    }
}

/// Parsing the encoded members after `start` recovers `end` and `note`.
#[verifier::rlimit(100)]
pub proof fn lemma_parse_opt_enc(s: Seq<char>, i: int, e: EntryModel)
    requires
        e.wf(),
        match_at(s, i, enc_entry_tail(e)),
    ensures
        parse_entry_opt(s, i, e.task, e.start) == Some((e, i + enc_entry_tail(e).len())),
{
    match e.end {
        Some(t) => {
            assert(enc_entry_tail(e) == key_end() + (enc_ts(t) + enc_entry_tail2(e)));
            assert(key_end() =~= seq![','] + (kq_end() + seq![':']));
            assert(key_end() + (enc_ts(t) + enc_entry_tail2(e)) =~= seq![','] + ((kq_end()
                + seq![':']) + (enc_ts(t) + enc_entry_tail2(e))));
            lemma_match_at_concat(s, i, seq![','], (kq_end() + seq![':']) + (enc_ts(t)
                + enc_entry_tail2(e)));
            lemma_match_at_index(s, i, seq![',']);
            assert(s[i] == ',');
            assert((kq_end() + seq![':']) + (enc_ts(t) + enc_entry_tail2(e)) =~= kq_end() + (seq![
                ':',
            ] + (enc_ts(t) + enc_entry_tail2(e))));
            lemma_match_at_concat(s, i + 1, kq_end(), seq![':'] + (enc_ts(t) + enc_entry_tail2(e)));
            lemma_match_at_index(s, i + 1, kq_end());
            assert(s[i + 1] == '"');
            lemma_match_at_concat(s, i + 6, seq![':'], enc_ts(t) + enc_entry_tail2(e));
            lemma_match_at_index(s, i + 6, seq![':']);
            assert(s[i + 6] == ':');
            lemma_match_at_concat(s, i + 7, enc_ts(t), enc_entry_tail2(e));
            lemma_parse_ts_enc(s, i + 7, t);
            lemma_match_at_index(s, i + 7, enc_ts(t));
            assert(s[i + 7] == '"');
            let p = i + 7 + 27;
            let e2 = EntryModel { task: e.task, start: e.start, end: Some(t), note: e.note };
            lemma_parse_opt2_enc(s, p, e.task, e.start, t, e.note);
            assert(e2 == e);
            assert(enc_entry_tail(e).len() == 7 + 27 + enc_entry_tail2(e).len());
        },
        None => {
            assert(enc_entry_tail(e) == enc_entry_tail2(e));
            match e.note {
                None => {
                    assert(enc_entry_tail2(e) == seq!['}']);
                    lemma_match_at_index(s, i, seq!['}']);
                    assert(s[i] == '}');
                    assert(parse_entry_opt(s, i, e.task, e.start) == Some(
                        (EntryModel { task: e.task, start: e.start, end: None, note: None }, i + 1),
                    ));
                    assert(EntryModel { task: e.task, start: e.start, end: None, note: None }
                        == e);
                },
                Some(n) => {
                    assert(enc_entry_tail2(e) == key_note() + (enc_string(n) + seq!['}']));
                    assert(key_note() =~= seq![','] + (kq_note() + seq![':']));
                    assert(key_note() + (enc_string(n) + seq!['}']) =~= seq![','] + ((kq_note()
                        + seq![':']) + (enc_string(n) + seq!['}'])));
                    lemma_match_at_concat(s, i, seq![','], (kq_note() + seq![':']) + (enc_string(n)
                        + seq!['}']));
                    lemma_match_at_index(s, i, seq![',']);
                    assert(s[i] == ',');
                    assert((kq_note() + seq![':']) + (enc_string(n) + seq!['}']) =~= kq_note() + (
                    seq![':'] + (enc_string(n) + seq!['}'])));
                    lemma_match_at_concat(s, i + 1, kq_note(), seq![':'] + (enc_string(n)
                        + seq!['}']));
                    lemma_match_at_index(s, i + 1, kq_note());
                    assert(s[i + 1] == '"');
                    // `"note"` does not begin with `"e`, so the `end` branch
                    // is not taken
                    assert(s[i + 2] == 'n');
                    assert(!match_at(s, i + 1, kq_end())) by {
                        if match_at(s, i + 1, kq_end()) {
                            lemma_match_at_index(s, i + 1, kq_end());
                            assert(s[i + 1 + 1] == 'e');
                        }
                    }
                    lemma_match_at_concat(s, i + 7, seq![':'], enc_string(n) + seq!['}']);
                    lemma_match_at_index(s, i + 7, seq![':']);
                    assert(s[i + 7] == ':');
                    lemma_match_at_concat(s, i + 8, enc_string(n), seq!['}']);
                    lemma_parse_string_enc(s, i + 8, n);
                    lemma_match_at_index(s, i + 8, enc_string(n));
                    assert(s[i + 8] == '"');
                    let p = i + 8 + enc_string(n).len();
                    let e2 = EntryModel {
                        task: e.task,
                        start: e.start,
                        end: None,
                        note: Some(n),
                    };
                    lemma_parse_close_enc(s, p, e2);
                    assert(e2 == e);
                    assert(parse_entry_opt(s, i, e.task, e.start) == Some((e, p + 1)));
                    assert(enc_entry_tail(e).len() == 8 + enc_string(n).len() + 1);
                },
            }
        },
    }
}

/// Round trip of one entry: parsing its encoding recovers it.
#[verifier::rlimit(100)]
pub proof fn lemma_parse_entry_enc(s: Seq<char>, i: int, e: EntryModel)
    requires
        e.wf(),
        match_at(s, i, enc_entry(e)),
    ensures
        parse_entry(s, i) == Some((e, i + enc_entry(e).len())),
{
    assert(enc_entry(e) == seq!['{'] + (key_task() + (enc_string(e.task) + (key_start() + (enc_ts(
        e.start,
    ) + enc_entry_tail(e))))));
    lemma_match_at_concat(s, i, seq!['{'], key_task() + (enc_string(e.task) + (key_start() + (
    enc_ts(e.start) + enc_entry_tail(e)))));
    lemma_match_at_index(s, i, seq!['{']);
    assert(s[i] == '{');
    assert(key_task() =~= kq_task() + seq![':']);
    assert(key_task() + (enc_string(e.task) + (key_start() + (enc_ts(e.start) + enc_entry_tail(
        e,
    )))) =~= kq_task() + (seq![':'] + (enc_string(e.task) + (key_start() + (enc_ts(e.start)
        + enc_entry_tail(e))))));
    lemma_match_at_concat(s, i + 1, kq_task(), seq![':'] + (enc_string(e.task) + (key_start() + (
    enc_ts(e.start) + enc_entry_tail(e)))));
    lemma_match_at_index(s, i + 1, kq_task());
    assert(s[i + 1] == '"');
    lemma_match_at_concat(s, i + 7, seq![':'], enc_string(e.task) + (key_start() + (enc_ts(e.start)
        + enc_entry_tail(e))));
    lemma_match_at_index(s, i + 7, seq![':']);
    assert(s[i + 7] == ':');
    lemma_match_at_concat(s, i + 8, enc_string(e.task), key_start() + (enc_ts(e.start)
        + enc_entry_tail(e)));
    lemma_parse_string_enc(s, i + 8, e.task);
    lemma_match_at_index(s, i + 8, enc_string(e.task));
    assert(s[i + 8] == '"');
    let p1 = i + 8 + enc_string(e.task).len();
    assert(key_start() =~= seq![','] + (kq_start() + seq![':']));
    assert(key_start() + (enc_ts(e.start) + enc_entry_tail(e)) =~= seq![','] + ((kq_start()
        + seq![':']) + (enc_ts(e.start) + enc_entry_tail(e))));
    lemma_match_at_concat(s, p1, seq![','], (kq_start() + seq![':']) + (enc_ts(e.start)
        + enc_entry_tail(e)));
    lemma_match_at_index(s, p1, seq![',']);
    assert(s[p1] == ',');
    assert((kq_start() + seq![':']) + (enc_ts(e.start) + enc_entry_tail(e)) =~= kq_start() + (seq![
        ':',
    ] + (enc_ts(e.start) + enc_entry_tail(e))));
    lemma_match_at_concat(s, p1 + 1, kq_start(), seq![':'] + (enc_ts(e.start) + enc_entry_tail(e)));
    lemma_match_at_index(s, p1 + 1, kq_start());
    assert(s[p1 + 1] == '"');
    lemma_match_at_concat(s, p1 + 8, seq![':'], enc_ts(e.start) + enc_entry_tail(e));
    lemma_match_at_index(s, p1 + 8, seq![':']);
    assert(s[p1 + 8] == ':');
    lemma_match_at_concat(s, p1 + 9, enc_ts(e.start), enc_entry_tail(e));
    lemma_parse_ts_enc(s, p1 + 9, e.start);
    lemma_match_at_index(s, p1 + 9, enc_ts(e.start));
    assert(s[p1 + 9] == '"');
    let p2 = p1 + 9 + 27;
    lemma_parse_opt_enc(s, p2, e);
    assert(parse_entry(s, i) == Some((e, p2 + enc_entry_tail(e).len())));
    assert(enc_entry(e).len() == 1 + 7 + enc_string(e.task).len() + 9 + 27 + enc_entry_tail(
        e,
    ).len());
}

/// Every encoded entry takes at least one character.
pub proof fn lemma_enc_entries_len(log: Seq<EntryModel>)
    ensures
        enc_entries(log).len() >= log.len(),
    decreases log.len(),
{
    if log.len() == 0 {
    } else if log.len() == 1 {
        assert(enc_entries(log) == enc_entry(log[0]));
        assert(enc_entry(log[0]).len() >= 1);
    } else {
        lemma_enc_entries_len(log.drop_first());
    }
}

/// Round trip of a joined entry list followed by the closing bracket.
#[verifier::rlimit(100)]
pub proof fn lemma_parse_entries_enc(
    s: Seq<char>,
    i: int,
    acc: Seq<EntryModel>,
    log: Seq<EntryModel>,
    fuel: nat,
)
    requires
        log.len() >= 1,
        wf_log(log),
        fuel >= log.len(),
        match_at(s, i, enc_entries(log) + seq![']']),
    ensures
        parse_entries(s, i, acc, fuel) == Some((acc + log, i + enc_entries(log).len() + 1)),
    decreases log.len(),
{
    if log.len() == 1 {
        assert(enc_entries(log) == enc_entry(log[0]));
        lemma_match_at_concat(s, i, enc_entry(log[0]), seq![']']);
        assert(log[0].wf());
        lemma_parse_entry_enc(s, i, log[0]);
        let p = i + enc_entry(log[0]).len();
        lemma_match_at_index(s, p, seq![']']);
        assert(s[p] == ']');
        assert(acc.push(log[0]) =~= acc + log);
    } else {
        let rest = log.drop_first();
        assert(enc_entries(log) == enc_entry(log[0]) + (seq![','] + enc_entries(rest)));
        assert(enc_entries(log) + seq![']'] =~= enc_entry(log[0]) + ((seq![','] + enc_entries(
            rest,
        )) + seq![']']));
        lemma_match_at_concat(s, i, enc_entry(log[0]), (seq![','] + enc_entries(rest))
            + seq![']']);
        assert(log[0].wf());
        lemma_parse_entry_enc(s, i, log[0]);
        let p = i + enc_entry(log[0]).len();
        assert((seq![','] + enc_entries(rest)) + seq![']'] =~= seq![','] + (enc_entries(rest)
            + seq![']']));
        lemma_match_at_concat(s, p, seq![','], enc_entries(rest) + seq![']']);
        lemma_match_at_index(s, p, seq![',']);
        assert(s[p] == ',');
        assert(wf_log(rest)) by {
            assert(forall|k: int| 0 <= k < rest.len() ==> rest[k] == log[k + 1]);
        }
        lemma_parse_entries_enc(s, p + 1, acc.push(log[0]), rest, (fuel - 1) as nat);
        assert(acc.push(log[0]) + rest =~= acc + log);
        assert(enc_entries(log).len() == enc_entry(log[0]).len() + 1 + enc_entries(rest).len());
    }
}

/// The round-trip law of the store: parsing an encoded log yields exactly
/// the log that was encoded.
pub proof fn lemma_log_round_trip(log: Seq<EntryModel>)
    requires
        wf_log(log),
    ensures
        parse_log(enc_log(log)) == Some(log),
        decode_spec(enc_log(log)) == Some(log),
{
    let s = enc_log(log);
    assert(s == seq!['['] + (enc_entries(log) + seq![']']));
    assert(s.subrange(0, s.len() as int) =~= s);
    assert(match_at(s, 0, s));
    lemma_match_at_concat(s, 0, seq!['['], enc_entries(log) + seq![']']);
    lemma_match_at_index(s, 0, seq!['[']);
    assert(s[0] == '[');
    assert(skip_ws(s, 0) == 0);
    if log.len() == 0 {
        assert(enc_entries(log) == Seq::<char>::empty());
        assert(s.len() == 2);
        lemma_match_at_index(s, 1, seq![']']);
        assert(s[1] == ']');
        assert(skip_ws(s, 1) == 1);
        assert(skip_ws(s, 2) == 2);
        assert(parse_log(s) == Some(Seq::<EntryModel>::empty()));
        assert(Seq::<EntryModel>::empty() =~= log);
    } else {
        lemma_match_at_concat(s, 1, enc_entries(log), seq![']']);
        lemma_enc_entries_len(log);
        assert(log[0].wf());
        assert(enc_entries(log)[0] == enc_entry(log[0])[0]);
        assert(enc_entry(log[0])[0] == '{');
        lemma_match_at_index(s, 1, enc_entries(log));
        assert(s[1] == '{');
        assert(skip_ws(s, 1) == 1);
        lemma_parse_entries_enc(s, 1, Seq::empty(), log, s.len() as nat);
        let p: int = 1 + enc_entries(log).len() as int + 1;
        assert(p == s.len());
        assert(skip_ws(s, p) == p);
        assert(Seq::<EntryModel>::empty() + log =~= log);
        assert(parse_log(s) == Some(log));
    }
    assert(s.len() > 0 && !is_ws(s[0]));
    assert(skip_ws(s, 0) != s.len());
}

/// An absent `end` or `note` contributes nothing to the serialized form:
/// the object holds only the members that are present and then closes.
pub proof fn lemma_absent_fields_not_encoded(e: EntryModel)
    requires
        e.end is None,
        e.note is None,
    ensures
        enc_entry(e) == seq!['{'] + (key_task() + (enc_string(e.task) + (key_start() + (enc_ts(
            e.start,
        ) + seq!['}'])))),
{
}

/// Round trip of one entry document: parsing an encoded entry (as
/// `entry_to_json` emits it) recovers an equal entry; and, by the shape of
/// `enc_entry`, an absent `end` or `note` never appears in the encoding.
#[verifier::rlimit(100)]
pub proof fn lemma_entry_round_trip(e: EntryModel)
    requires
        e.wf(),
    ensures
        parse_entry_doc(enc_entry(e)) == Some(e),
{
    let s = enc_entry(e);
    assert(s.subrange(0, s.len() as int) =~= s);
    assert(match_at(s, 0, s));
    lemma_parse_entry_enc(s, 0, e);
    assert(skip_ws(s, s.len() as int) == s.len());
}

} // verus!
