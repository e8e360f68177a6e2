//! The on-disk text format, writing side.
//!
//! A task list is stored as a JSON array of objects, each with the keys
//! `text` (string), `created_at` (unsigned integer, seconds since the Unix
//! epoch) and `complete` (boolean), in that order and with no blanks between
//! tokens.  The spec functions here define that canonical text exactly; the
//! executable writer is proved to produce it character for character.

use vstd::prelude::*;

use crate::task::{Task, TaskList, TaskView};
use crate::text::chars_to_string;

verus! {

/// The character for one decimal digit value.
pub open spec fn digit_char(d: int) -> char {
    if d == 0 { '0' }
    else if d == 1 { '1' }
    else if d == 2 { '2' }
    else if d == 3 { '3' }
    else if d == 4 { '4' }
    else if d == 5 { '5' }
    else if d == 6 { '6' }
    else if d == 7 { '7' }
    else if d == 8 { '8' }
    else { '9' }
}

/// The character for one hexadecimal digit value, lower case.
pub open spec fn hex_char(d: int) -> char {
    if d < 10 {
        digit_char(d)
    } else if d == 10 { 'a' }
    else if d == 11 { 'b' }
    else if d == 12 { 'c' }
    else if d == 13 { 'd' }
    else if d == 14 { 'e' }
    else { 'f' }
}

/// The decimal digits of `n`, most significant first, no leading zeros.
pub open spec fn dec_digits(n: nat) -> Seq<char>
    decreases n,
{
    if n < 10 {
        seq![digit_char(n as int)]
    } else {
        dec_digits(n / 10) + seq![digit_char((n % 10) as int)]
    }
}

/// How one character appears inside a JSON string: quote and backslash get a
/// backslash escape, control characters become `\u00XX` with lower-case hex,
/// and everything else stands for itself.
pub open spec fn escape_char(c: char) -> Seq<char> {
    if c == '"' {
        seq!['\\', '"']
    } else if c == '\\' {
        seq!['\\', '\\']
    } else if (c as u32) < 32 {
        seq!['\\', 'u', '0', '0', hex_char(c as u32 as int / 16), hex_char(c as u32 as int % 16)]
    } else {
        seq![c]
    }
}

/// The body of a JSON string: every character escaped, in order.
pub open spec fn escape_text(s: Seq<char>) -> Seq<char>
    decreases s.len(),
{
    if s.len() == 0 {
        Seq::empty()
    } else {
        escape_char(s[0]) + escape_text(s.skip(1))
    }
}

/// A whole JSON string: the escaped body between double quotes.
pub open spec fn quote_text(s: Seq<char>) -> Seq<char> {
    seq!['"'] + escape_text(s) + seq!['"']
}

/// A JSON boolean literal.
pub open spec fn bool_chars(b: bool) -> Seq<char> {
    if b {
        seq!['t', 'r', 'u', 'e']
    } else {
        seq!['f', 'a', 'l', 's', 'e']
    }
}

/// The opening of a task object, up to the text value.
pub open spec fn key_text() -> Seq<char> {
    seq!['{', '"', 't', 'e', 'x', 't', '"', ':']
}

/// The middle of a task object, between text and creation time.
pub open spec fn key_created_at() -> Seq<char> {
    seq![',', '"', 'c', 'r', 'e', 'a', 't', 'e', 'd', '_', 'a', 't', '"', ':']
}

/// The last key of a task object, between creation time and flag.
pub open spec fn key_complete() -> Seq<char> {
    seq![',', '"', 'c', 'o', 'm', 'p', 'l', 'e', 't', 'e', '"', ':']
}

/// One task as a JSON object.
pub open spec fn encode_task(t: TaskView) -> Seq<char> {
    key_text() + quote_text(t.text) + key_created_at() + dec_digits(t.created_at as nat)
        + key_complete() + bool_chars(t.complete) + seq!['}']
}

/// The comma-separated run of task objects.
pub open spec fn encode_tasks_body(ts: Seq<TaskView>) -> Seq<char>
    decreases ts.len(),
{
    if ts.len() == 0 {
        Seq::empty()
    } else if ts.len() == 1 {
        encode_task(ts[0])
    } else {
        encode_task(ts[0]) + seq![','] + encode_tasks_body(ts.skip(1))
    }
}

/// A whole task list file: the run of objects between square brackets.
pub open spec fn encode_tasks(ts: Seq<TaskView>) -> Seq<char> {
    seq!['['] + encode_tasks_body(ts) + seq![']']
}

/// The digit character for a value below ten.
fn digit_char_exec(d: u64) -> (c: char)
    requires
        d < 10,
    ensures
        c == digit_char(d as int),
{
    match d {
        0 => '0',
        1 => '1',
        2 => '2',
        3 => '3',
        4 => '4',
        5 => '5',
        6 => '6',
        7 => '7',
        8 => '8',
        _ => '9',
    }
}

/// The lower-case hex character for a value below sixteen.
fn hex_char_exec(d: u32) -> (c: char)
    requires
        d < 16,
    ensures
        c == hex_char(d as int),
{
    match d {
        0 => '0',
        1 => '1',
        2 => '2',
        3 => '3',
        4 => '4',
        5 => '5',
        6 => '6',
        7 => '7',
        8 => '8',
        9 => '9',
        10 => 'a',
        11 => 'b',
        12 => 'c',
        13 => 'd',
        14 => 'e',
        _ => 'f',
    }
}

/// Append the decimal digits of `n`.
pub(crate) fn push_dec_digits(out: &mut Vec<char>, n: u64)
    ensures
        final(out)@ == old(out)@ + dec_digits(n as nat),
    decreases n,
{
    if n < 10 {
        out.push(digit_char_exec(n));
        proof {
            assert(final(out)@ =~= old(out)@ + dec_digits(n as nat));
        }
    } else {
        push_dec_digits(out, n / 10);
        out.push(digit_char_exec(n % 10));
        proof {
            assert((n / 10) as nat == n as nat / 10);
            assert((n % 10) as nat == n as nat % 10);
            assert(final(out)@ =~= old(out)@ + dec_digits(n as nat));
        }
    }
}

/// Append the escaped form of one character.
fn push_escaped_char(out: &mut Vec<char>, c: char)
    ensures
        final(out)@ == old(out)@ + escape_char(c),
{
    if c == '"' {
        out.push('\\');
        out.push('"');
    } else if c == '\\' {
        out.push('\\');
        out.push('\\');
    } else if (c as u32) < 32 {
        let v = c as u32;
        out.push('\\');
        out.push('u');
        out.push('0');
        out.push('0');
        out.push(hex_char_exec(v / 16));
        out.push(hex_char_exec(v % 16));
    } else {
        out.push(c);
    }
    proof {
        assert(final(out)@ =~= old(out)@ + escape_char(c));
    }
}

/// Append a whole JSON string holding the characters of `s`.
pub(crate) fn push_quoted(out: &mut Vec<char>, s: &String)
    ensures
        final(out)@ == old(out)@ + quote_text(s@),
{
    out.push('"');
    let chars = crate::text::str_to_chars(s.as_str());
    let mut i: usize = 0;
    while i < chars.len()
        invariant
            chars@ == s@,
            i <= chars@.len(),
            out@ == old(out)@ + seq!['"'] + escape_text(s@.take(i as int)),
        decreases chars@.len() - i,
    {
        push_escaped_char(out, chars[i]);
        i = i + 1;
        proof {
            lemma_escape_text_snoc(s@.take(i - 1), s@[i - 1]);
            assert(s@.take(i as int) =~= s@.take(i - 1).push(s@[i - 1]));
        }
    }
    out.push('"');
    proof {
        assert(s@.take(s@.len() as int) =~= s@);
        assert(final(out)@ =~= old(out)@ + quote_text(s@));
    }
}

/// Escaping distributes over adding one character at the end.
proof fn lemma_escape_text_snoc(s: Seq<char>, c: char)
    ensures
        escape_text(s.push(c)) == escape_text(s) + escape_char(c),
    decreases s.len(),
{
    let sc = s.push(c);
    assert(sc.len() == s.len() + 1);
    if s.len() == 0 {
        assert(sc[0] == c);
        assert(sc.skip(1) =~= Seq::<char>::empty());
        assert(escape_text(sc) == escape_char(c) + escape_text(Seq::<char>::empty()));
        assert(escape_text(sc) =~= escape_text(s) + escape_char(c));
    } else {
        lemma_escape_text_snoc(s.skip(1), c);
        assert(sc[0] == s[0]);
        assert(sc.skip(1) =~= s.skip(1).push(c));
        assert(escape_text(sc) == escape_char(s[0]) + escape_text(s.skip(1).push(c)));
        assert(escape_text(sc) =~= escape_text(s) + escape_char(c));
    }
}

/// Append a sequence of characters given as a spec-known slice of pieces.
pub(crate) fn push_lit(out: &mut Vec<char>, piece: &[char])
    ensures
        final(out)@ == old(out)@ + piece@,
{
    let mut i: usize = 0;
    while i < piece.len()
        invariant
            i <= piece@.len(),
            out@ == old(out)@ + piece@.take(i as int),
        decreases piece@.len() - i,
    {
        out.push(piece[i]);
        i = i + 1;
        proof {
            assert(old(out)@ + piece@.take(i as int) =~= (old(out)@ + piece@.take(i - 1)).push(
                piece@[i - 1],
            ));
        }
    }
    proof {
        assert(piece@.take(piece@.len() as int) =~= piece@);
    }
}

/// Append one task object.
fn push_task(out: &mut Vec<char>, t: &Task)
    ensures
        final(out)@ == old(out)@ + encode_task(t@),
{
    let open: [char; 8] = ['{', '"', 't', 'e', 'x', 't', '"', ':'];
    let mid: [char; 14] = [',', '"', 'c', 'r', 'e', 'a', 't', 'e', 'd', '_', 'a', 't', '"', ':'];
    let last: [char; 12] = [',', '"', 'c', 'o', 'm', 'p', 'l', 'e', 't', 'e', '"', ':'];
    push_lit(out, open.as_slice());
    proof {
        assert(open@ =~= key_text());
    }
    push_quoted(out, &t.text);
    push_lit(out, mid.as_slice());
    proof {
        assert(mid@ =~= key_created_at());
    }
    push_dec_digits(out, t.created_at);
    push_lit(out, last.as_slice());
    proof {
        assert(last@ =~= key_complete());
    }
    if t.complete {
        let word: [char; 4] = ['t', 'r', 'u', 'e'];
        push_lit(out, word.as_slice());
        proof {
            assert(word@ =~= bool_chars(true));
        }
    } else {
        let word: [char; 5] = ['f', 'a', 'l', 's', 'e'];
        push_lit(out, word.as_slice());
        proof {
            assert(word@ =~= bool_chars(false));
        }
    }
    out.push('}');
    proof {
        assert(final(out)@ =~= old(out)@ + encode_task(t@));
    }
}

/// Append the comma-separated run of task objects starting at index `i`.
fn push_tasks_body(out: &mut Vec<char>, list: &TaskList, i: usize)
    requires
        i <= list@.len(),
    ensures
        final(out)@ == old(out)@ + encode_tasks_body(list.deep_view().skip(i as int)),
    decreases list@.len() - i,
{
    if i < list.len() {
        push_task(out, &list[i]);
        proof {
            assert(list.deep_view().skip(i as int)[0] == list@[i as int]@);
        }
        if i + 1 < list.len() {
            out.push(',');
        }
        push_tasks_body(out, list, i + 1);
        proof {
            assert(list.deep_view().skip(i as int).skip(1) =~= list.deep_view().skip(i + 1));
            assert(final(out)@ =~= old(out)@ + encode_tasks_body(
                list.deep_view().skip(i as int),
            ));
        }
    } else {
        proof {
            assert(list.deep_view().skip(i as int) =~= Seq::<TaskView>::empty());
        }
    }
}

/// Serialize the whole list to its canonical file text.
///
/// The result is exactly `encode_tasks` of the list's content: a full
/// rewrite of the file, never an incremental patch.
pub fn save_tasks(list: &TaskList) -> (r: String)
    ensures
        r@ == encode_tasks(list.deep_view()),
{
    let mut out: Vec<char> = Vec::new();
    out.push('[');
    push_tasks_body(&mut out, list, 0);
    out.push(']');
    proof {
        assert(list.deep_view().skip(0) =~= list.deep_view());
        assert(out@ =~= encode_tasks(list.deep_view()));
    }
    chars_to_string(&out)
}

} // verus!
