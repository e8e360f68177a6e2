//! The on-disk text format, reading side.
//!
//! These spec functions define which texts are valid task-list files and
//! what list each one denotes.  The reader accepts the JSON task-array
//! language: insignificant whitespace between tokens, the standard string
//! escapes (`\" \\ \/ \b \f \n \r \t \uXXXX` with either hex case), and the
//! three task keys in any order, each exactly once.  Outside that language
//! the data is malformed.  Two deliberate bounds: a `\uXXXX` escape naming
//! a surrogate code point is rejected rather than paired, and `created_at`
//! must be an unsigned integer that fits in 64 bits.  Each decoder consumes
//! characters from a position and reports the value read and the position
//! after it.

use vstd::prelude::*;

use crate::task::TaskView;

verus! {

/// Whether `c` is a decimal digit.
pub open spec fn is_digit(c: char) -> bool {
    48 <= c as u32 && c as u32 <= 57
}

/// The value of a decimal digit character.
pub open spec fn digit_val(c: char) -> int {
    c as u32 - 48
}

/// Whether `c` is a hexadecimal digit, either case.
pub open spec fn is_hex(c: char) -> bool {
    is_digit(c) || (97 <= c as u32 && c as u32 <= 102) || (65 <= c as u32 && c as u32 <= 70)
}

/// The value of a hexadecimal digit character.
pub open spec fn hex_val(c: char) -> int {
    if is_digit(c) {
        digit_val(c)
    } else if 97 <= c as u32 {
        c as u32 - 97 + 10
    } else {
        c as u32 - 65 + 10
    }
}

/// JSON insignificant whitespace.
pub open spec fn is_ws(c: char) -> bool {
    c == ' ' || c == '\t' || c == '\n' || c == '\r'
}

/// The first position at or after `i` that holds no whitespace.
pub open spec fn skip_ws(s: Seq<char>, i: int) -> int
    decreases s.len() - i,
{
    if 0 <= i && i < s.len() && is_ws(s[i]) {
        skip_ws(s, i + 1)
    } else {
        i
    }
}

/// Skipping whitespace stays inside the text and stops on none.
pub proof fn lemma_skip_ws_bounds(s: Seq<char>, i: int)
    requires
        0 <= i <= s.len(),
    ensures
        i <= skip_ws(s, i) <= s.len(),
        skip_ws(s, i) < s.len() ==> !is_ws(s[skip_ws(s, i)]),
    decreases s.len() - i,
{
    if i < s.len() && is_ws(s[i]) {
        lemma_skip_ws_bounds(s, i + 1);
    }
}

/// Consume an exact run of characters: the position after it, or nothing if
/// the text at `i` does not carry `lit`.
pub open spec fn dec_lit(s: Seq<char>, i: int, lit: Seq<char>) -> Option<int> {
    if 0 <= i && i + lit.len() <= s.len() && s.subrange(i, i + lit.len()) == lit {
        Some(i + lit.len())
    } else {
        None
    }
}

/// Put one character in front of a decoded remainder.
pub open spec fn dec_prepend(c: char, r: Option<(Seq<char>, int)>) -> Option<(Seq<char>, int)> {
    match r {
        Some((t, j)) => Some((seq![c] + t, j)),
        None => None,
    }
}

/// What a single-letter escape stands for, if the letter names one.
pub open spec fn named_escape(c: char) -> Option<char> {
    if c == '"' {
        Some('"')
    } else if c == '\\' {
        Some('\\')
    } else if c == '/' {
        Some('/')
    } else if c == 'b' {
        Some('\u{0008}')
    } else if c == 'f' {
        Some('\u{000c}')
    } else if c == 'n' {
        Some('\n')
    } else if c == 'r' {
        Some('\r')
    } else if c == 't' {
        Some('\t')
    } else {
        None
    }
}

/// The code point named by the four hex digits at `i`.
pub open spec fn hex4_val(s: Seq<char>, i: int) -> int {
    hex_val(s[i]) * 4096 + hex_val(s[i + 1]) * 256 + hex_val(s[i + 2]) * 16 + hex_val(s[i + 3])
}

/// Whether four hex digits stand at `i` and name a Unicode scalar value
/// (not a surrogate code point).
pub open spec fn valid_hex4(s: Seq<char>, i: int) -> bool {
    &&& i + 4 <= s.len()
    &&& is_hex(s[i])
    &&& is_hex(s[i + 1])
    &&& is_hex(s[i + 2])
    &&& is_hex(s[i + 3])
    &&& !(0xD800 <= hex4_val(s, i) && hex4_val(s, i) <= 0xDFFF)
}

/// Consume the body of a JSON string up to and including its closing quote,
/// undoing the standard escapes.  Unescaped control characters, unknown
/// escapes and surrogate `\uXXXX` escapes are rejected.
pub open spec fn dec_str_body(s: Seq<char>, i: int) -> Option<(Seq<char>, int)>
    decreases s.len() - i,
{
    if i < 0 || i >= s.len() {
        None
    } else if s[i] == '"' {
        Some((Seq::empty(), i + 1))
    } else if s[i] == '\\' {
        if i + 1 < s.len() && named_escape(s[i + 1]) is Some {
            dec_prepend(named_escape(s[i + 1]).unwrap(), dec_str_body(s, i + 2))
        } else if i + 1 < s.len() && s[i + 1] == 'u' && valid_hex4(s, i + 2) {
            dec_prepend(
                (hex4_val(s, i + 2) as u32) as char,
                dec_str_body(s, i + 6),
            )
        } else {
            None
        }
    } else if (s[i] as u32) < 32 {
        None
    } else {
        dec_prepend(s[i], dec_str_body(s, i + 1))
    }
}

/// Consume a whole JSON string, quotes included.
pub open spec fn dec_string(s: Seq<char>, i: int) -> Option<(Seq<char>, int)> {
    if 0 <= i && i < s.len() && s[i] == '"' {
        dec_str_body(s, i + 1)
    } else {
        None
    }
}

/// The position of the first character at or after `i` that is no digit.
pub open spec fn digits_end(s: Seq<char>, i: int) -> int
    decreases s.len() - i,
{
    if i < 0 || i >= s.len() || !is_digit(s[i]) {
        i
    } else {
        digits_end(s, i + 1)
    }
}

/// The number written by a run of digit characters, most significant first.
pub open spec fn val_of_digits(ds: Seq<char>) -> int
    decreases ds.len(),
{
    if ds.len() == 0 {
        0
    } else {
        val_of_digits(ds.drop_last()) * 10 + digit_val(ds.last())
    }
}

/// Consume an unsigned decimal number: no sign, no leading zero (as JSON
/// demands), and a value that fits in a `u64`.
pub open spec fn dec_nat(s: Seq<char>, i: int) -> Option<(u64, int)> {
    if 0 <= i && i < s.len() && is_digit(s[i]) {
        if s[i] == '0' {
            Some((0, i + 1))
        } else {
            let j = digits_end(s, i);
            let v = val_of_digits(s.subrange(i, j));
            if v <= u64::MAX {
                Some((v as u64, j))
            } else {
                None
            }
        }
    } else {
        None
    }
}

/// Consume a boolean literal.
pub open spec fn dec_bool(s: Seq<char>, i: int) -> Option<(bool, int)> {
    match dec_lit(s, i, crate::encode::bool_chars(true)) {
        Some(j) => Some((true, j)),
        None => match dec_lit(s, i, crate::encode::bool_chars(false)) {
            Some(j) => Some((false, j)),
            None => None,
        },
    }
}

/// The name of the text member.
pub open spec fn text_key() -> Seq<char> {
    seq!['t', 'e', 'x', 't']
}

/// The name of the creation-time member.
pub open spec fn created_at_key() -> Seq<char> {
    seq!['c', 'r', 'e', 'a', 't', 'e', 'd', '_', 'a', 't']
}

/// The name of the completion-flag member.
pub open spec fn complete_key() -> Seq<char> {
    seq!['c', 'o', 'm', 'p', 'l', 'e', 't', 'e']
}

/// A task object part-way through reading: each member that has already
/// appeared, at most once.
pub ghost struct PartialTask {
    pub text: Option<Seq<char>>,
    pub created_at: Option<u64>,
    pub complete: Option<bool>,
}

/// A task object before any member has been read.
pub open spec fn no_task_parts() -> PartialTask {
    PartialTask { text: None, created_at: None, complete: None }
}

/// The task a fully read object denotes, once every member has appeared.
pub open spec fn task_of_parts(acc: PartialTask) -> Option<TaskView> {
    match (acc.text, acc.created_at, acc.complete) {
        (Some(text), Some(created_at), Some(complete)) => Some(
            TaskView { text, created_at, complete },
        ),
        _ => None,
    }
}

/// Consume the value of the member named `key`, rejecting an unknown name
/// or a repeated member.
pub open spec fn dec_task_value(s: Seq<char>, i: int, key: Seq<char>, acc: PartialTask) -> Option<
    (PartialTask, int),
> {
    if key == text_key() {
        if acc.text is Some {
            None
        } else {
            match dec_string(s, i) {
                None => None,
                Some((t, j)) => Some(
                    (
                        PartialTask {
                            text: Some(t),
                            created_at: acc.created_at,
                            complete: acc.complete,
                        },
                        j,
                    ),
                ),
            }
        }
    } else if key == created_at_key() {
        if acc.created_at is Some {
            None
        } else {
            match dec_nat(s, i) {
                None => None,
                Some((n, j)) => Some(
                    (
                        PartialTask {
                            text: acc.text,
                            created_at: Some(n),
                            complete: acc.complete,
                        },
                        j,
                    ),
                ),
            }
        }
    } else if key == complete_key() {
        if acc.complete is Some {
            None
        } else {
            match dec_bool(s, i) {
                None => None,
                Some((b, j)) => Some(
                    (
                        PartialTask {
                            text: acc.text,
                            created_at: acc.created_at,
                            complete: Some(b),
                        },
                        j,
                    ),
                ),
            }
        }
    } else {
        None
    }
}

/// A decoded string body ends strictly past where it began and within the
/// text.
pub proof fn lemma_dec_str_body_advances(s: Seq<char>, i: int)
    ensures
        dec_str_body(s, i) matches Some(p) ==> i < p.1 <= s.len(),
    decreases s.len() - i,
{
    if i < 0 || i >= s.len() {
    } else {
        lemma_dec_str_body_advances(s, i + 1);
        if i + 1 < s.len() {
            lemma_dec_str_body_advances(s, i + 2);
        }
        if i + 5 < s.len() {
            lemma_dec_str_body_advances(s, i + 6);
        }
    }
}

/// The end of a digit run lies between its start and the end of the text.
pub proof fn lemma_digits_end_bounds(s: Seq<char>, i: int)
    requires
        0 <= i <= s.len(),
    ensures
        i <= digits_end(s, i) <= s.len(),
    decreases s.len() - i,
{
    if i < s.len() && is_digit(s[i]) {
        lemma_digits_end_bounds(s, i + 1);
    }
}

/// A decoded member value ends no earlier than it began and within the
/// text.
pub proof fn lemma_dec_task_value_advances(s: Seq<char>, i: int, key: Seq<char>, acc: PartialTask)
    requires
        0 <= i <= s.len(),
    ensures
        dec_task_value(s, i, key, acc) matches Some(p) ==> i <= p.1 <= s.len(),
{
    lemma_dec_str_body_advances(s, i + 1);
    if i < s.len() && s[i] != '0' {
        lemma_digits_end_bounds(s, i);
    }
}

/// Consume the members of a task object from the opening quote of a key to
/// past the closing brace: `"key" : value`, separated by commas, each of
/// the three members exactly once in any order.
pub open spec fn dec_task_members(s: Seq<char>, i: int, acc: PartialTask) -> Option<
    (TaskView, int),
>
    decreases s.len() - i,
{
    if i < 0 {
        None
    } else {
        match dec_string(s, i) {
            None => None,
            Some((key, j1)) => {
                proof {
                    lemma_dec_str_body_advances(s, i + 1);
                }
                let j2 = skip_ws(s, j1);
                if j2 < s.len() && s[j2] == ':' {
                    proof {
                        lemma_skip_ws_bounds(s, j1);
                    }
                    let j3 = skip_ws(s, j2 + 1);
                    match dec_task_value(s, j3, key, acc) {
                        None => None,
                        Some((acc2, j4)) => {
                            proof {
                                lemma_skip_ws_bounds(s, j2 + 1);
                                lemma_dec_task_value_advances(s, j3, key, acc);
                                lemma_skip_ws_bounds(s, j4);
                            }
                            let j5 = skip_ws(s, j4);
                            if j5 < s.len() && s[j5] == ',' {
                                proof {
                                    lemma_skip_ws_bounds(s, j5 + 1);
                                }
                                dec_task_members(s, skip_ws(s, j5 + 1), acc2)
                            } else if j5 < s.len() && s[j5] == '}' {
                                match task_of_parts(acc2) {
                                    None => None,
                                    Some(t) => Some((t, j5 + 1)),
                                }
                            } else {
                                None
                            }
                        },
                    }
                } else {
                    None
                }
            },
        }
    }
}

/// Consume one task object, brace to brace.
pub open spec fn dec_task(s: Seq<char>, i: int) -> Option<(TaskView, int)> {
    if 0 <= i && i < s.len() && s[i] == '{' {
        dec_task_members(s, skip_ws(s, i + 1), no_task_parts())
    } else {
        None
    }
}

/// A decoded task ends strictly past where it began and within the text.
pub proof fn lemma_dec_task_members_advances(s: Seq<char>, i: int, acc: PartialTask)
    ensures
        dec_task_members(s, i, acc) matches Some(p) ==> i < p.1 <= s.len(),
    decreases s.len() - i,
{
    if i < 0 {
    } else if let Some((key, j1)) = dec_string(s, i) {
        lemma_dec_str_body_advances(s, i + 1);
        let j2 = skip_ws(s, j1);
        if j2 < s.len() && s[j2] == ':' {
            lemma_skip_ws_bounds(s, j1);
            let j3 = skip_ws(s, j2 + 1);
            lemma_skip_ws_bounds(s, j2 + 1);
            if let Some((acc2, j4)) = dec_task_value(s, j3, key, acc) {
                lemma_dec_task_value_advances(s, j3, key, acc);
                let j5 = skip_ws(s, j4);
                lemma_skip_ws_bounds(s, j4);
                if j5 < s.len() && s[j5] == ',' {
                    lemma_skip_ws_bounds(s, j5 + 1);
                    lemma_dec_task_members_advances(s, skip_ws(s, j5 + 1), acc2);
                }
            }
        }
    }
}

/// A decoded task ends strictly past where it began and within the text.
pub proof fn lemma_dec_task_advances(s: Seq<char>, i: int)
    ensures
        dec_task(s, i) matches Some(p) ==> i < p.1 <= s.len(),
{
    if 0 <= i && i < s.len() && s[i] == '{' {
        lemma_skip_ws_bounds(s, i + 1);
        lemma_dec_task_members_advances(s, skip_ws(s, i + 1), no_task_parts());
    }
}

/// Consume the rest of the array after its first task: either the closing
/// bracket, or a comma and a task, again and again, with whitespace
/// allowed around the separators.
pub open spec fn dec_tasks_rest(s: Seq<char>, i: int) -> Option<(Seq<TaskView>, int)>
    decreases s.len() - i,
{
    if i < 0 || i > s.len() {
        None
    } else {
        proof {
            lemma_skip_ws_bounds(s, i);
        }
        let j = skip_ws(s, i);
        if j >= s.len() {
            None
        } else if s[j] == ']' {
            Some((Seq::empty(), j + 1))
        } else if s[j] == ',' {
            match dec_task(s, skip_ws(s, j + 1)) {
                None => None,
                Some((t, k)) => {
                    proof {
                        lemma_skip_ws_bounds(s, j + 1);
                        lemma_dec_task_advances(s, skip_ws(s, j + 1));
                    }
                    match dec_tasks_rest(s, k) {
                        None => None,
                        Some((ts, m)) => Some((seq![t] + ts, m)),
                    }
                },
            }
        } else {
            None
        }
    }
}

/// The list a whole text denotes: one JSON array of task objects with
/// nothing but whitespace around it, or nothing.
pub open spec fn dec_tasks(s: Seq<char>) -> Option<Seq<TaskView>> {
    let i = skip_ws(s, 0);
    if i < s.len() && s[i] == '[' {
        let j = skip_ws(s, i + 1);
        if j < s.len() && s[j] == ']' {
            if skip_ws(s, j + 1) == s.len() {
                Some(Seq::empty())
            } else {
                None
            }
        } else {
            match dec_task(s, j) {
                None => None,
                Some((t, k)) => match dec_tasks_rest(s, k) {
                    None => None,
                    Some((ts, m)) => if skip_ws(s, m) == s.len() {
                        Some(seq![t] + ts)
                    } else {
                        None
                    },
                },
            }
        }
    } else {
        None
    }
}

} // verus!
