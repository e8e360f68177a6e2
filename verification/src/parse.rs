//! The executable reader for the on-disk text format.
//!
//! Each function here is proved to behave exactly as the matching spec
//! decoder of [`crate::decode`] says: it succeeds with the same value and
//! the same resting position, or fails exactly when the decoder does.

use vstd::prelude::*;

use crate::decode::{
    complete_key, created_at_key, dec_bool, dec_lit, dec_nat, dec_str_body, dec_string, dec_task,
    dec_task_members, dec_task_value, dec_tasks, dec_tasks_rest, digit_val, digits_end, hex_val,
    is_digit, is_hex, is_ws, named_escape, no_task_parts, skip_ws, text_key,
    val_of_digits, PartialTask,
};
use crate::errors::ErrorKind;
use crate::task::{Task, TaskList};
use crate::text::{chars_to_string, str_to_chars};

verus! {

/// Whether `c` is a decimal digit.
fn is_digit_exec(c: char) -> (r: bool)
    ensures
        r == is_digit(c),
{
    let v = c as u32;
    48 <= v && v <= 57
}

/// Whether `c` is a hexadecimal digit, either case.
fn is_hex_exec(c: char) -> (r: bool)
    ensures
        r == is_hex(c),
{
    let v = c as u32;
    (48 <= v && v <= 57) || (97 <= v && v <= 102) || (65 <= v && v <= 70)
}

/// The value of a hexadecimal digit.
fn hex_val_exec(c: char) -> (r: u32)
    requires
        is_hex(c),
    ensures
        r == hex_val(c),
        r < 16,
{
    let v = c as u32;
    if v <= 57 {
        v - 48
    } else if 97 <= v {
        v - 97 + 10
    } else {
        v - 65 + 10
    }
}

/// Whether `c` is JSON whitespace.
fn is_ws_exec(c: char) -> (r: bool)
    ensures
        r == is_ws(c),
{
    c == ' ' || c == '\t' || c == '\n' || c == '\r'
}

/// Step past whitespace.
pub(crate) fn skip_ws_exec(v: &Vec<char>, i: usize) -> (r: usize)
    requires
        i <= v@.len(),
    ensures
        r as int == skip_ws(v@, i as int),
        i <= r <= v@.len(),
{
    let mut j: usize = i;
    while j < v.len() && is_ws_exec(v[j])
        invariant
            i <= j <= v@.len(),
            skip_ws(v@, i as int) == skip_ws(v@, j as int),
        decreases v@.len() - j,
    {
        j = j + 1;
    }
    proof {
        crate::decode::lemma_skip_ws_bounds(v@, j as int);
    }
    j
}

/// Match an exact run of characters at `i`.
pub(crate) fn parse_lit(v: &Vec<char>, i: usize, lit: &[char]) -> (r: Option<usize>)
    ensures
        match r {
            Some(j) => dec_lit(v@, i as int, lit@) == Some(j as int) && i <= j <= v@.len(),
            None => dec_lit(v@, i as int, lit@) is None,
        },
{
    if i > v.len() || lit.len() > v.len() - i {
        return None;
    }
    let mut k: usize = 0;
    while k < lit.len()
        invariant
            v@.len() <= usize::MAX,
            i + lit@.len() <= v@.len(),
            k <= lit@.len(),
            forall|m: int| 0 <= m < k ==> v@[i + m] == lit@[m],
        decreases lit@.len() - k,
    {
        if v[i + k] != lit[k] {
            proof {
                assert(v@.subrange(i as int, i + lit@.len())[k as int] != lit@[k as int]);
            }
            return None;
        }
        k = k + 1;
    }
    proof {
        assert(v@.subrange(i as int, i + lit@.len()) =~= lit@);
    }
    Some(i + lit.len())
}

/// Read a string body up to and past its closing quote.
fn parse_str_body(v: &Vec<char>, start: usize) -> (r: Option<(Vec<char>, usize)>)
    requires
        start <= v@.len(),
    ensures
        match r {
            Some(p) => dec_str_body(v@, start as int) == Some((p.0@, p.1 as int)) && p.1
                <= v@.len(),
            None => dec_str_body(v@, start as int) is None,
        },
{
    let mut acc: Vec<char> = Vec::new();
    let mut i: usize = start;
    loop
        invariant
            start <= i,
            i <= v@.len(),
            dec_str_body(v@, i as int) matches Some(p) ==> dec_str_body(v@, start as int)
                == Some((acc@ + p.0, p.1)),
            dec_str_body(v@, i as int) is None ==> dec_str_body(v@, start as int) is None,
        decreases v@.len() - i,
    {
        if i >= v.len() {
            return None;
        }
        let c = v[i];
        if c == '"' {
            proof {
                assert(acc@ + Seq::<char>::empty() =~= acc@);
            }
            return Some((acc, i + 1));
        } else if c == '\\' {
            if i + 1 >= v.len() {
                return None;
            }
            let esc = v[i + 1];
            let named: Option<char> = if esc == '"' {
                Some('"')
            } else if esc == '\\' {
                Some('\\')
            } else if esc == '/' {
                Some('/')
            } else if esc == 'b' {
                Some('\u{0008}')
            } else if esc == 'f' {
                Some('\u{000c}')
            } else if esc == 'n' {
                Some('\n')
            } else if esc == 'r' {
                Some('\r')
            } else if esc == 't' {
                Some('\t')
            } else {
                None
            };
            proof {
                assert(named == named_escape(esc));
            }
            match named {
                Some(e) => {
                    proof {
                        if let Some((t, j)) = dec_str_body(v@, i + 2) {
                            assert(acc@ + (seq![e] + t) =~= acc@.push(e) + t);
                        }
                    }
                    acc.push(e);
                    i = i + 2;
                },
                None => {
                    if esc != 'u' {
                        return None;
                    }
                    if v.len() - i <= 5 {
                        return None;
                    }
                    if !(is_hex_exec(v[i + 2]) && is_hex_exec(v[i + 3]) && is_hex_exec(v[i + 4])
                        && is_hex_exec(v[i + 5])) {
                        return None;
                    }
                    let code: u32 = hex_val_exec(v[i + 2]) * 4096 + hex_val_exec(v[i + 3]) * 256
                        + hex_val_exec(v[i + 4]) * 16 + hex_val_exec(v[i + 5]);
                    proof {
                        assert(code == crate::decode::hex4_val(v@, i + 2));
                    }
                    if 0xD800 <= code && code <= 0xDFFF {
                        return None;
                    }
                    let e = match char::from_u32(code) {
                        Some(e) => e,
                        None => {
                            proof {
                                assert(false);
                            }
                            ' '
                        },
                    };
                    proof {
                        vstd::utf8::char_u32_cast(e, code);
                        assert(e == (crate::decode::hex4_val(v@, i + 2) as u32) as char);
                        if let Some((t, j)) = dec_str_body(v@, i + 6) {
                            assert(acc@ + (seq![e] + t) =~= acc@.push(e) + t);
                        }
                    }
                    acc.push(e);
                    i = i + 6;
                },
            }
        } else if (c as u32) < 32 {
            return None;
        } else {
            proof {
                if let Some((t, j)) = dec_str_body(v@, i + 1) {
                    assert(acc@ + (seq![c] + t) =~= acc@.push(c) + t);
                }
            }
            acc.push(c);
            i = i + 1;
        }
    }
}

/// Read a whole JSON string, quotes included.
pub(crate) fn parse_string(v: &Vec<char>, i: usize) -> (r: Option<(String, usize)>)
    ensures
        match r {
            Some(p) => dec_string(v@, i as int) == Some((p.0@, p.1 as int)) && p.1 <= v@.len(),
            None => dec_string(v@, i as int) is None,
        },
{
    if i < v.len() && v[i] == '"' {
        match parse_str_body(v, i + 1) {
            Some((chars, j)) => Some((chars_to_string(&chars), j)),
            None => None,
        }
    } else {
        None
    }
}

/// Digit runs have non-negative value.
proof fn lemma_val_of_digits_nonneg(ds: Seq<char>)
    requires
        forall|m: int| 0 <= m < ds.len() ==> is_digit(ds[m]),
    ensures
        val_of_digits(ds) >= 0,
    decreases ds.len(),
{
    if ds.len() > 0 {
        lemma_val_of_digits_nonneg(ds.drop_last());
    }
}

/// A digit run is worth at least any of its prefixes.
proof fn lemma_val_of_digits_prefix(ds: Seq<char>, k: int)
    requires
        forall|m: int| 0 <= m < ds.len() ==> is_digit(ds[m]),
        0 <= k <= ds.len(),
    ensures
        val_of_digits(ds.take(k)) <= val_of_digits(ds),
    decreases ds.len(),
{
    if k < ds.len() {
        assert(ds.drop_last().take(k) =~= ds.take(k));
        lemma_val_of_digits_prefix(ds.drop_last(), k);
        lemma_val_of_digits_nonneg(ds.drop_last());
    } else {
        assert(ds.take(k) =~= ds);
    }
}

/// Everything up to `digits_end` is a digit, and what stands there is none.
pub(crate) proof fn lemma_digits_end_facts(s: Seq<char>, i: int)
    requires
        0 <= i <= s.len(),
    ensures
        i <= digits_end(s, i) <= s.len(),
        forall|m: int| i <= m < digits_end(s, i) ==> is_digit(s[m]),
        digits_end(s, i) < s.len() ==> !is_digit(s[digits_end(s, i)]),
    decreases s.len() - i,
{
    if i < s.len() && is_digit(s[i]) {
        lemma_digits_end_facts(s, i + 1);
    }
}

/// Read an unsigned decimal number.
fn parse_nat(v: &Vec<char>, i: usize) -> (r: Option<(u64, usize)>)
    ensures
        match r {
            Some(p) => dec_nat(v@, i as int) == Some((p.0, p.1 as int)) && p.1 <= v@.len(),
            None => dec_nat(v@, i as int) is None,
        },
{
    if i >= v.len() || !is_digit_exec(v[i]) {
        return None;
    }
    if v[i] == '0' {
        return Some((0, i + 1));
    }
    proof {
        lemma_digits_end_facts(v@, i as int);
    }
    let ghost end = digits_end(v@, i as int);
    let mut j: usize = i;
    let mut acc: u64 = 0;
    while j < v.len() && is_digit_exec(v[j])
        invariant
            i < v@.len(),
            is_digit(v@[i as int]),
            v@[i as int] != '0',
            i <= j <= v@.len(),
            j <= end <= v@.len(),
            forall|m: int| i <= m < end ==> is_digit(v@[m]),
            end < v@.len() ==> !is_digit(v@[end]),
            end == digits_end(v@, i as int),
            acc == val_of_digits(v@.subrange(i as int, j as int)),
        decreases v@.len() - j,
    {
        let d = v[j] as u32 - 48;
        proof {
            assert(is_digit(v@[j as int]));
            assert(d == digit_val(v@[j as int]));
            assert(v@.subrange(i as int, j + 1).drop_last() =~= v@.subrange(i as int, j as int));
            assert(v@.subrange(i as int, j + 1).last() == v@[j as int]);
        }
        if acc > (u64::MAX - d as u64) / 10 {
            proof {
                let whole = v@.subrange(i as int, end);
                let part = v@.subrange(i as int, j + 1);
                assert(val_of_digits(part) == acc * 10 + d);
                vstd::arithmetic::div_mod::lemma_fundamental_div_mod(u64::MAX - d as int, 10);
                assert(val_of_digits(part) > u64::MAX);
                assert(whole.take(j + 1 - i) =~= part);
                lemma_val_of_digits_prefix(whole, j + 1 - i);
                assert(val_of_digits(whole) > u64::MAX);
            }
            return None;
        }
        acc = acc * 10 + d as u64;
        j = j + 1;
    }
    proof {
        assert(j == end);
    }
    Some((acc, j))
}

/// Read a boolean literal.
fn parse_bool(v: &Vec<char>, i: usize) -> (r: Option<(bool, usize)>)
    ensures
        match r {
            Some(p) => dec_bool(v@, i as int) == Some((p.0, p.1 as int)) && p.1 <= v@.len(),
            None => dec_bool(v@, i as int) is None,
        },
{
    let word_true: [char; 4] = ['t', 'r', 'u', 'e'];
    let word_false: [char; 5] = ['f', 'a', 'l', 's', 'e'];
    proof {
        assert(word_true@ =~= crate::encode::bool_chars(true));
        assert(word_false@ =~= crate::encode::bool_chars(false));
    }
    match parse_lit(v, i, word_true.as_slice()) {
        Some(j) => Some((true, j)),
        None => match parse_lit(v, i, word_false.as_slice()) {
            Some(j) => Some((false, j)),
            None => None,
        },
    }
}

/// The members already read, as the spec decoder tracks them.
pub open spec fn parts_view(
    text: &Option<String>,
    created_at: &Option<u64>,
    complete: &Option<bool>,
) -> PartialTask {
    PartialTask {
        text: match text {
            Some(t) => Some(t@),
            None => None,
        },
        created_at: *created_at,
        complete: *complete,
    }
}

/// Whether a vector holds exactly the given characters.
pub(crate) fn chars_eq(v: &Vec<char>, w: &[char]) -> (r: bool)
    ensures
        r == (v@ == w@),
{
    if v.len() != w.len() {
        proof {
            assert(v@.len() != w@.len());
        }
        return false;
    }
    let mut k: usize = 0;
    while k < v.len()
        invariant
            v@.len() == w@.len(),
            k <= v@.len(),
            forall|m: int| 0 <= m < k ==> v@[m] == w@[m],
        decreases v@.len() - k,
    {
        if v[k] != w[k] {
            return false;
        }
        k = k + 1;
    }
    proof {
        assert(v@ =~= w@);
    }
    true
}

/// Read the members of a task object, from the opening quote of the next
/// key to past the closing brace.
fn parse_task_members(
    v: &Vec<char>,
    i: usize,
    text: Option<String>,
    created_at: Option<u64>,
    complete: Option<bool>,
) -> (r: Option<(Task, usize)>)
    requires
        i <= v@.len(),
    ensures
        match r {
            Some(p) => dec_task_members(v@, i as int, parts_view(&text, &created_at, &complete))
                == Some((p.0@, p.1 as int)) && p.1 <= v@.len(),
            None => dec_task_members(v@, i as int, parts_view(&text, &created_at, &complete))
                is None,
        },
    decreases v@.len() - i,
{
    let ghost acc = parts_view(&text, &created_at, &complete);
    let (key, j1) = match parse_str_body_key(v, i) {
        Some(p) => p,
        None => {
            return None;
        },
    };
    let j2 = skip_ws_exec(v, j1);
    if !(j2 < v.len() && v[j2] == ':') {
        return None;
    }
    let j3 = skip_ws_exec(v, j2 + 1);
    let word_text: [char; 4] = ['t', 'e', 'x', 't'];
    let word_created: [char; 10] = ['c', 'r', 'e', 'a', 't', 'e', 'd', '_', 'a', 't'];
    let word_complete: [char; 8] = ['c', 'o', 'm', 'p', 'l', 'e', 't', 'e'];
    proof {
        assert(word_text@ =~= text_key());
        assert(word_created@ =~= created_at_key());
        assert(word_complete@ =~= complete_key());
    }
    let text2: Option<String>;
    let created2: Option<u64>;
    let complete2: Option<bool>;
    let j4: usize;
    if chars_eq(&key, word_text.as_slice()) {
        if text.is_some() {
            return None;
        }
        let (t, j) = match parse_string(v, j3) {
            Some(p) => p,
            None => {
                return None;
            },
        };
        text2 = Some(t);
        created2 = created_at;
        complete2 = complete;
        j4 = j;
    } else if chars_eq(&key, word_created.as_slice()) {
        if created_at.is_some() {
            return None;
        }
        let (n, j) = match parse_nat(v, j3) {
            Some(p) => p,
            None => {
                return None;
            },
        };
        text2 = text;
        created2 = Some(n);
        complete2 = complete;
        j4 = j;
    } else if chars_eq(&key, word_complete.as_slice()) {
        if complete.is_some() {
            return None;
        }
        let (b, j) = match parse_bool(v, j3) {
            Some(p) => p,
            None => {
                return None;
            },
        };
        text2 = text;
        created2 = created_at;
        complete2 = Some(b);
        j4 = j;
    } else {
        proof {
            assert(dec_task_value(v@, j3 as int, key@, acc) is None);
        }
        return None;
    }
    proof {
        assert(dec_task_value(v@, j3 as int, key@, acc) == Some(
            (parts_view(&text2, &created2, &complete2), j4 as int),
        ));
    }
    let j5 = skip_ws_exec(v, j4);
    if j5 < v.len() && v[j5] == ',' {
        let next = skip_ws_exec(v, j5 + 1);
        proof {
            crate::decode::lemma_dec_str_body_advances(v@, i + 1);
            crate::decode::lemma_dec_task_value_advances(v@, j3 as int, key@, acc);
        }
        parse_task_members(v, next, text2, created2, complete2)
    } else if j5 < v.len() && v[j5] == '}' {
        match (text2, created2, complete2) {
            (Some(t), Some(n), Some(b)) => Some(
                (Task { text: t, created_at: n, complete: b }, j5 + 1),
            ),
            _ => None,
        }
    } else {
        None
    }
}

/// Read the quoted key that must begin a member.
fn parse_str_body_key(v: &Vec<char>, i: usize) -> (r: Option<(Vec<char>, usize)>)
    ensures
        match r {
            Some(p) => dec_string(v@, i as int) == Some((p.0@, p.1 as int)) && p.1 <= v@.len()
                && i < p.1,
            None => dec_string(v@, i as int) is None,
        },
{
    if i < v.len() && v[i] == '"' {
        proof {
            crate::decode::lemma_dec_str_body_advances(v@, i + 1);
        }
        parse_str_body(v, i + 1)
    } else {
        None
    }
}

/// Read one task object, brace to brace.
fn parse_task(v: &Vec<char>, i: usize) -> (r: Option<(Task, usize)>)
    ensures
        match r {
            Some(p) => dec_task(v@, i as int) == Some((p.0@, p.1 as int)) && p.1 <= v@.len(),
            None => dec_task(v@, i as int) is None,
        },
{
    if i < v.len() && v[i] == '{' {
        let j = skip_ws_exec(v, i + 1);
        proof {
            assert(parts_view(&None, &None, &None) == no_task_parts());
        }
        parse_task_members(v, j, None, None, None)
    } else {
        None
    }
}

/// Read the whole text as a task list: everything but whitespace must be
/// consumed.
fn parse_tasks(v: &Vec<char>) -> (r: Option<TaskList>)
    ensures
        match r {
            Some(l) => dec_tasks(v@) == Some(l.deep_view()),
            None => dec_tasks(v@) is None,
        },
{
    let i = skip_ws_exec(v, 0);
    if !(i < v.len() && v[i] == '[') {
        return None;
    }
    let j = skip_ws_exec(v, i + 1);
    if j < v.len() && v[j] == ']' {
        if skip_ws_exec(v, j + 1) == v.len() {
            let empty: TaskList = Vec::new();
            proof {
                assert(empty.deep_view() =~= Seq::<crate::task::TaskView>::empty());
            }
            return Some(empty);
        } else {
            return None;
        }
    }
    let (first, start) = match parse_task(v, j) {
        Some(p) => p,
        None => {
            return None;
        },
    };
    let ghost first_view = first@;
    let ghost j0 = start as int;
    let mut acc: TaskList = Vec::new();
    acc.push(first);
    let mut pos: usize = start;
    proof {
        assert(acc.deep_view() =~= seq![first_view]);
        assert(acc.deep_view().skip(1) =~= Seq::<crate::task::TaskView>::empty());
    }
    loop
        invariant
            pos <= v@.len(),
            skip_ws(v@, 0) == i as int && i < v@.len() && v@[i as int] == '[',
            skip_ws(v@, i + 1) == j as int && j < v@.len() && v@[j as int] != ']',
            dec_task(v@, j as int) == Some((first_view, j0)),
            acc@.len() >= 1,
            acc.deep_view()[0] == first_view,
            dec_tasks_rest(v@, pos as int) matches Some(q) ==> dec_tasks_rest(v@, j0) == Some(
                (acc.deep_view().skip(1) + q.0, q.1),
            ),
            dec_tasks_rest(v@, pos as int) is None ==> dec_tasks_rest(v@, j0) is None,
        decreases v@.len() - pos,
    {
        let w = skip_ws_exec(v, pos);
        if w >= v.len() {
            return None;
        }
        if v[w] == ']' {
            proof {
                let q0 = (Seq::<crate::task::TaskView>::empty(), w + 1 as int);
                assert(dec_tasks_rest(v@, pos as int) == Some(q0));
                assert(acc.deep_view().skip(1) + q0.0 =~= acc.deep_view().skip(1));
                assert(seq![first_view] + acc.deep_view().skip(1) =~= acc.deep_view());
            }
            if skip_ws_exec(v, w + 1) == v.len() {
                return Some(acc);
            } else {
                return None;
            }
        }
        if v[w] != ',' {
            return None;
        }
        let after = skip_ws_exec(v, w + 1);
        let (t, k) = match parse_task(v, after) {
            Some(p) => p,
            None => {
                return None;
            },
        };
        proof {
            crate::decode::lemma_dec_task_advances(v@, after as int);
            let old_dv = acc.deep_view();
            if let Some((ts, m)) = dec_tasks_rest(v@, k as int) {
                assert(old_dv.skip(1) + (seq![t@] + ts) =~= old_dv.push(t@).skip(1) + ts);
            }
        }
        let ghost old_dv = acc.deep_view();
        acc.push(t);
        proof {
            assert(acc.deep_view() =~= old_dv.push(t@));
        }
        pos = k;
    }
}

/// The task list a file's text denotes: empty text stands for the empty
/// list (the first-run state), and any other text must be valid JSON task
/// data.
pub open spec fn contents_list(s: Seq<char>) -> Option<Seq<crate::task::TaskView>> {
    if s.len() == 0 {
        Some(Seq::empty())
    } else {
        dec_tasks(s)
    }
}

/// Decode a task-list file's text.
///
/// Empty text stands for the empty list (the first-run state of a list
/// file).  Any other text must be JSON task data as [`dec_tasks`] admits
/// it, in any layout; otherwise the data is malformed and nothing is
/// changed on disk by the caller.
pub fn load_tasks(s: &str) -> (r: Result<TaskList, ErrorKind>)
    ensures
        match r {
            Ok(l) => contents_list(s@) == Some(l.deep_view()),
            Err(e) => contents_list(s@) is None && e == ErrorKind::MalformedData,
        },
{
    let chars = str_to_chars(s);
    if chars.len() == 0 {
        let empty: TaskList = Vec::new();
        proof {
            assert(empty.deep_view() =~= Seq::<crate::task::TaskView>::empty());
        }
        return Ok(empty);
    }
    match parse_tasks(&chars) {
        Some(l) => Ok(l),
        None => Err(ErrorKind::MalformedData),
    }
}

} // verus!
