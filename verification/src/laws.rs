//! Round-trip laws of the on-disk task-list format.
//!
//! Reading what [`crate::encode::encode_tasks`] wrote gives the list back.
//! The reader accepts more layouts than the writer produces, so one load
//! and save cycle first normalizes a file; from then on the text is a
//! fixed point: loading the saved text yields the same list, and saving
//! again yields identical text.

use vstd::prelude::*;

use crate::decode::{
    complete_key, created_at_key, dec_bool, dec_lit, dec_nat, dec_str_body, dec_string, dec_task,
    dec_task_members, dec_tasks, dec_tasks_rest, digit_val, digits_end, hex_val, is_digit, is_hex,
    is_ws, no_task_parts, skip_ws, task_of_parts, text_key, val_of_digits, PartialTask,
};
use crate::encode::{
    bool_chars, dec_digits, digit_char, encode_task, encode_tasks, encode_tasks_body, escape_char,
    escape_text, hex_char, key_complete, key_created_at, key_text, quote_text,
};
use crate::task::TaskView;

verus! {

/// A digit value comes back from its character.
proof fn lemma_digit_val_of_char(d: int)
    requires
        0 <= d < 10,
    ensures
        is_digit(digit_char(d)),
        digit_val(digit_char(d)) == d,
        d == 0 <==> digit_char(d) == '0',
{
}

/// A hex value comes back from its character.
proof fn lemma_hex_val_of_char(d: int)
    requires
        0 <= d < 16,
    ensures
        is_hex(hex_char(d)),
        hex_val(hex_char(d)) == d,
{
}

/// Every character of a printed number is a digit, and the first is only
/// `'0'` when the number itself is zero.
proof fn lemma_dec_digits_shape(n: nat)
    ensures
        dec_digits(n).len() >= 1,
        forall|m: int| 0 <= m < dec_digits(n).len() ==> is_digit(#[trigger] dec_digits(n)[m]),
        n > 0 ==> dec_digits(n)[0] != '0',
    decreases n,
{
    if n < 10 {
        lemma_digit_val_of_char(n as int);
    } else {
        lemma_dec_digits_shape(n / 10);
        lemma_digit_val_of_char((n % 10) as int);
        assert forall|m: int| 0 <= m < dec_digits(n).len() implies is_digit(
            #[trigger] dec_digits(n)[m],
        ) by {
            if m < dec_digits(n / 10).len() {
                assert(dec_digits(n)[m] == dec_digits(n / 10)[m]);
            } else {
                assert(dec_digits(n)[m] == digit_char((n % 10) as int));
            }
        }
        assert(dec_digits(n)[0] == dec_digits(n / 10)[0]);
    }
}

/// The value written by the digits of `n` is `n` itself.
proof fn lemma_val_of_dec_digits(n: nat)
    ensures
        val_of_digits(dec_digits(n)) == n,
    decreases n,
{
    if n < 10 {
        lemma_digit_val_of_char(n as int);
        assert(dec_digits(n).drop_last() =~= Seq::<char>::empty());
        assert(val_of_digits(Seq::<char>::empty()) == 0);
        assert(dec_digits(n).last() == digit_char(n as int));
        assert(val_of_digits(dec_digits(n)) == val_of_digits(dec_digits(n).drop_last()) * 10
            + digit_val(dec_digits(n).last()));
    } else {
        lemma_val_of_dec_digits(n / 10);
        lemma_digit_val_of_char((n % 10) as int);
        assert(dec_digits(n).drop_last() =~= dec_digits(n / 10));
        assert(dec_digits(n).last() == digit_char((n % 10) as int));
        assert(val_of_digits(dec_digits(n)) == val_of_digits(dec_digits(n).drop_last()) * 10
            + digit_val(dec_digits(n).last()));
        vstd::arithmetic::div_mod::lemma_fundamental_div_mod(n as int, 10);
    }
}

/// A region that equals a concatenation splits into its two parts.
pub(crate) proof fn lemma_subrange_split(s: Seq<char>, i: int, a: Seq<char>, b: Seq<char>)
    requires
        0 <= i,
        i + a.len() + b.len() <= s.len(),
        s.subrange(i, i + a.len() + b.len()) == a + b,
    ensures
        s.subrange(i, i + a.len()) == a,
        s.subrange(i + a.len(), i + a.len() + b.len()) == b,
{
    let ab = s.subrange(i, i + a.len() + b.len());
    assert forall|k: int| 0 <= k < a.len() implies s.subrange(i, i + a.len())[k] == a[k] by {
        assert(ab[k] == (a + b)[k]);
    }
    assert(s.subrange(i, i + a.len()) =~= a);
    assert forall|k: int| 0 <= k < b.len() implies s.subrange(
        i + a.len(),
        i + a.len() + b.len(),
    )[k] == b[k] by {
        assert(ab[a.len() + k] == (a + b)[a.len() + k]);
    }
    assert(s.subrange(i + a.len(), i + a.len() + b.len()) =~= b);
}

/// Characters of a region that equals a known run can be read off one by one.
pub(crate) proof fn lemma_subrange_chars(s: Seq<char>, i: int, a: Seq<char>)
    requires
        0 <= i,
        i + a.len() <= s.len(),
        s.subrange(i, i + a.len()) == a,
    ensures
        forall|m: int| 0 <= m < a.len() ==> s[i + m] == a[m],
{
    assert forall|m: int| 0 <= m < a.len() implies s[i + m] == a[m] by {
        assert(s.subrange(i, i + a.len())[m] == a[m]);
    }
}

/// Skipping whitespace at a character that is none stands still.
pub(crate) proof fn lemma_skip_ws_at(s: Seq<char>, i: int)
    requires
        0 <= i < s.len(),
        !is_ws(s[i]),
    ensures
        skip_ws(s, i) == i,
{
}

/// Where a digit run is known to stop, `digits_end` stops.
proof fn lemma_digits_end_at(s: Seq<char>, i: int, e: int)
    requires
        0 <= i <= e <= s.len(),
        forall|m: int| i <= m < e ==> is_digit(s[m]),
        e == s.len() || !is_digit(s[e]),
    ensures
        digits_end(s, i) == e,
    decreases e - i,
{
    if i < e {
        lemma_digits_end_at(s, i + 1, e);
    }
}

/// Reading a printed number gives the number back.  The character after the
/// digits must not be a digit; in a written task a comma follows.
proof fn lemma_dec_nat_at(s: Seq<char>, i: int, n: nat)
    requires
        n <= u64::MAX,
        0 <= i,
        i + dec_digits(n).len() < s.len(),
        s.subrange(i, i + dec_digits(n).len()) == dec_digits(n),
        !is_digit(s[i + dec_digits(n).len()]),
    ensures
        dec_nat(s, i) == Some((n as u64, i + dec_digits(n).len())),
{
    let e = i + dec_digits(n).len();
    lemma_dec_digits_shape(n);
    lemma_subrange_chars(s, i, dec_digits(n));
    assert(s[i] == dec_digits(n)[0]);
    if n == 0 {
        assert(dec_digits(0)[0] == '0');
        assert(s[i] == '0');
    } else {
        assert(s[i] != '0');
        assert forall|m: int| i <= m < e implies is_digit(s[m]) by {
            assert(s[m] == dec_digits(n)[m - i]);
        }
        lemma_digits_end_at(s, i, e);
        assert(s.subrange(i, e) == dec_digits(n));
        lemma_val_of_dec_digits(n);
        assert(val_of_digits(s.subrange(i, e)) == n);
    }
}

/// Reading a printed boolean literal gives the boolean back.
proof fn lemma_dec_bool_at(s: Seq<char>, i: int, b: bool)
    requires
        0 <= i,
        i + bool_chars(b).len() <= s.len(),
        s.subrange(i, i + bool_chars(b).len()) == bool_chars(b),
    ensures
        dec_bool(s, i) == Some((b, i + bool_chars(b).len())),
{
    lemma_subrange_chars(s, i, bool_chars(b));
    if b {
    } else {
        assert(s[i + 0] == 'f');
        if i + 4 <= s.len() {
            assert(s.subrange(i, i + 4)[0] == s[i]);
            assert(s.subrange(i, i + 4) != bool_chars(true));
        }
        assert(dec_lit(s, i, bool_chars(true)) is None);
    }
}

/// Text without quotes, backslashes or control characters escapes to
/// itself.
pub(crate) proof fn lemma_escape_text_plain(s: Seq<char>)
    requires
        forall|m: int| 0 <= m < s.len() ==> s[m] != '"' && s[m] != '\\' && (
        #[trigger] s[m]) as u32 >= 32,
    ensures
        escape_text(s) == s,
    decreases s.len(),
{
    if s.len() > 0 {
        lemma_escape_text_plain(s.skip(1));
        assert(escape_char(s[0]) == seq![s[0]]);
        assert(escape_text(s) =~= s);
    }
}

/// Reading an escaped body followed by a closing quote gives the text back.
proof fn lemma_dec_str_body_at(text: Seq<char>, s: Seq<char>, i: int)
    requires
        0 <= i,
        i + escape_text(text).len() + 1 <= s.len(),
        s.subrange(i, i + escape_text(text).len()) == escape_text(text),
        s[i + escape_text(text).len()] == '"',
    ensures
        dec_str_body(s, i) == Some((text, i + escape_text(text).len() + 1)),
    decreases text.len(),
{
    if text.len() == 0 {
        assert(escape_text(text).len() == 0);
        assert(s[i] == '"');
        assert(dec_str_body(s, i) == Some((Seq::<char>::empty(), i + 1)));
        assert(text =~= Seq::<char>::empty());
    } else {
        let c = text[0];
        let t2 = text.skip(1);
        let ec = escape_char(c);
        let et2 = escape_text(t2);
        assert(escape_text(text) == ec + et2);
        lemma_subrange_split(s, i, ec, et2);
        lemma_subrange_chars(s, i, ec);
        assert(s[i + 0] == ec[0]);
        let mid = i + ec.len();
        assert(s[mid + et2.len()] == '"');
        lemma_dec_str_body_at(t2, s, mid);
        if c == '"' {
            assert(s[i] == '\\' && s[i + 1] == '"');
            assert(crate::decode::named_escape('"') == Some('"'));
            assert(seq![c] + t2 =~= text);
        } else if c == '\\' {
            assert(s[i] == '\\' && s[i + 1] == '\\');
            assert(crate::decode::named_escape('\\') == Some('\\'));
            assert(seq![c] + t2 =~= text);
        } else if (c as u32) < 32 {
            let v = c as u32 as int;
            assert(s[i] == '\\' && s[i + 1] == 'u' && s[i + 2] == '0' && s[i + 3] == '0');
            assert(crate::decode::named_escape('u') is None);
            assert(s[i + 4] == hex_char(v / 16) && s[i + 5] == hex_char(v % 16));
            lemma_hex_val_of_char(v / 16);
            lemma_hex_val_of_char(v % 16);
            vstd::arithmetic::div_mod::lemma_fundamental_div_mod(v, 16);
            assert(hex_val('0') == 0);
            assert(crate::decode::hex4_val(s, i + 2) == v);
            assert(crate::decode::valid_hex4(s, i + 2));
            assert(((v as u32) as char) == c) by {
                vstd::utf8::char_u32_cast(c, v as u32);
            }
            assert(seq![c] + t2 =~= text);
        } else {
            assert(s[i] == c);
            assert(seq![c] + t2 =~= text);
        }
    }
}

/// Reading a printed string gives the text back.
pub(crate) proof fn lemma_dec_string_at(text: Seq<char>, s: Seq<char>, i: int)
    requires
        0 <= i,
        i + quote_text(text).len() <= s.len(),
        s.subrange(i, i + quote_text(text).len()) == quote_text(text),
    ensures
        dec_string(s, i) == Some((text, i + quote_text(text).len())),
{
    lemma_subrange_chars(s, i, quote_text(text));
    assert(s[i + 0] == quote_text(text)[0]);
    assert(quote_text(text)[0] == '"');
    let et = escape_text(text);
    assert forall|m: int| 0 <= m < et.len() implies s.subrange(i + 1, i + 1 + et.len())[m]
        == et[m] by {
        assert(quote_text(text)[1 + m] == et[m]);
        assert(s[i + 1 + m] == quote_text(text)[1 + m]);
    }
    assert(s.subrange(i + 1, i + 1 + et.len()) =~= et);
    assert(s[i + 1 + et.len()] == quote_text(text)[1 + et.len() as int]);
    assert(quote_text(text)[1 + et.len() as int] == '"');
    lemma_dec_str_body_at(text, s, i + 1);
}

/// Reading the canonical spelling of a member key gives the key back.
proof fn lemma_dec_key_at(key: Seq<char>, s: Seq<char>, i: int)
    requires
        0 <= i,
        i + key.len() + 2 <= s.len(),
        forall|m: int| 0 <= m < key.len() ==> key[m] != '"' && key[m] != '\\' && (
        #[trigger] key[m]) as u32 >= 32,
        s[i] == '"',
        s[i + key.len() + 1] == '"',
        forall|m: int| 0 <= m < key.len() ==> s[i + 1 + m] == key[m],
    ensures
        dec_string(s, i) == Some((key, i + key.len() + 2)),
{
    lemma_escape_text_plain(key);
    assert forall|m: int| 0 <= m < quote_text(key).len() implies s.subrange(
        i,
        i + quote_text(key).len(),
    )[m] == quote_text(key)[m] by {
        if m == 0 {
        } else if m <= key.len() {
            assert(s[i + 1 + (m - 1)] == key[m - 1]);
            assert(quote_text(key)[m] == escape_text(key)[m - 1]);
        } else {
            assert(quote_text(key)[m] == '"');
        }
    }
    assert(s.subrange(i, i + quote_text(key).len()) =~= quote_text(key));
    lemma_dec_string_at(key, s, i);
}

/// The three member keys are pairwise different.
proof fn lemma_keys_differ()
    ensures
        text_key() != created_at_key(),
        text_key() != complete_key(),
        created_at_key() != complete_key(),
{
    assert(text_key().len() != created_at_key().len());
    assert(text_key().len() != complete_key().len());
    assert(created_at_key().len() != complete_key().len());
}

/// Reading a printed task object gives the task back.
#[verifier::rlimit(100)]
#[verifier::spinoff_prover]
proof fn lemma_dec_task_at(t: TaskView, s: Seq<char>, i: int)
    requires
        0 <= i,
        i + encode_task(t).len() <= s.len(),
        s.subrange(i, i + encode_task(t).len()) == encode_task(t),
    ensures
        dec_task(s, i) == Some((t, i + encode_task(t).len())),
{
    let a1 = key_text();
    let a2 = quote_text(t.text);
    let a3 = key_created_at();
    let a4 = dec_digits(t.created_at as nat);
    let a5 = key_complete();
    let a6 = bool_chars(t.complete);
    let a7 = seq!['}'];
    let r6 = a6 + a7;
    let r5 = a5 + r6;
    let r4 = a4 + r5;
    let r3 = a3 + r4;
    let r2 = a2 + r3;
    assert(encode_task(t) =~= a1 + r2);
    lemma_subrange_split(s, i, a1, r2);
    let i1 = i + a1.len();
    lemma_subrange_chars(s, i, a1);
    assert(r2 =~= a2 + r3);
    lemma_subrange_split(s, i1, a2, r3);
    let i2 = i1 + a2.len();
    assert(r3 =~= a3 + r4);
    lemma_subrange_split(s, i2, a3, r4);
    let i3 = i2 + a3.len();
    lemma_subrange_chars(s, i2, a3);
    assert(r4 =~= a4 + r5);
    lemma_subrange_split(s, i3, a4, r5);
    let i4 = i3 + a4.len();
    assert(r5 =~= a5 + r6);
    lemma_subrange_split(s, i4, a5, r6);
    let i5 = i4 + a5.len();
    lemma_subrange_chars(s, i4, a5);
    assert(r6 =~= a6 + a7);
    lemma_subrange_split(s, i5, a6, a7);
    let i6 = i5 + a6.len();
    lemma_subrange_chars(s, i5, a6);
    lemma_subrange_chars(s, i6, a7);
    lemma_keys_differ();

    // The object opens and the first key follows at once.
    assert(s[i + 0] == '{' && s[i + 1] == '"' && s[i + 7] == ':');
    lemma_skip_ws_at(s, i + 1);
    assert(dec_task(s, i) == dec_task_members(s, i + 1, no_task_parts()));

    // Member one: the text.
    assert forall|m: int| 0 <= m < text_key().len() implies s[i + 2 + m] == text_key()[m] by {
        assert(s[i + (2 + m)] == a1[2 + m]);
    }
    assert(s[i + 1 + text_key().len() as int + 1] == '"') by {
        assert(s[i + 6] == a1[6]);
    }
    lemma_dec_key_at(text_key(), s, i + 1);
    assert(dec_string(s, i + 1) == Some((text_key(), i + 7)));
    lemma_skip_ws_at(s, i + 7);
    lemma_subrange_chars(s, i1, a2);
    assert(quote_text(t.text)[0] == '"');
    assert(s[i1 + 0] == '"');
    lemma_skip_ws_at(s, i + 8);
    lemma_dec_string_at(t.text, s, i1);
    let acc1 = PartialTask { text: Some(t.text), created_at: None, complete: None };
    assert(crate::decode::dec_task_value(s, i1, text_key(), no_task_parts()) == Some(
        (acc1, i2),
    ));
    assert(s[i2 + 0] == ',' && s[i2 + 1] == '"' && s[i2 + 13] == ':');
    lemma_skip_ws_at(s, i2);
    lemma_skip_ws_at(s, i2 + 1);

    // Member two: the creation time.
    assert forall|m: int| 0 <= m < created_at_key().len() implies s[i2 + 2 + m]
        == created_at_key()[m] by {
        assert(s[i2 + (2 + m)] == a3[2 + m]);
    }
    assert(s[i2 + 1 + created_at_key().len() as int + 1] == '"') by {
        assert(s[i2 + 12] == a3[12]);
    }
    lemma_dec_key_at(created_at_key(), s, i2 + 1);
    assert(dec_string(s, i2 + 1) == Some((created_at_key(), i2 + 13)));
    lemma_skip_ws_at(s, i2 + 13);
    lemma_dec_digits_shape(t.created_at as nat);
    lemma_subrange_chars(s, i3, a4);
    assert(s[i3 + 0] == a4[0]);
    assert(!is_ws(s[i3]));
    lemma_skip_ws_at(s, i3);
    assert(s[i4 + 0] == ',');
    assert(!is_digit(s[i3 + a4.len() as int]));
    lemma_dec_nat_at(s, i3, t.created_at as nat);
    assert((t.created_at as nat) as u64 == t.created_at);
    let acc2 = PartialTask {
        text: Some(t.text),
        created_at: Some(t.created_at),
        complete: None,
    };
    assert(crate::decode::dec_task_value(s, i3, created_at_key(), acc1) == Some((acc2, i4)));
    assert(s[i4 + 1] == '"' && s[i4 + 11] == ':');
    lemma_skip_ws_at(s, i4);
    lemma_skip_ws_at(s, i4 + 1);

    // Member three: the completion flag.
    assert forall|m: int| 0 <= m < complete_key().len() implies s[i4 + 2 + m]
        == complete_key()[m] by {
        assert(s[i4 + (2 + m)] == a5[2 + m]);
    }
    assert(s[i4 + 1 + complete_key().len() as int + 1] == '"') by {
        assert(s[i4 + 10] == a5[10]);
    }
    lemma_dec_key_at(complete_key(), s, i4 + 1);
    assert(dec_string(s, i4 + 1) == Some((complete_key(), i4 + 11)));
    lemma_skip_ws_at(s, i4 + 11);
    assert(s[i5 + 0] == a6[0]);
    assert(!is_ws(s[i5]));
    lemma_skip_ws_at(s, i5);
    lemma_dec_bool_at(s, i5, t.complete);
    let acc3 = PartialTask {
        text: Some(t.text),
        created_at: Some(t.created_at),
        complete: Some(t.complete),
    };
    assert(crate::decode::dec_task_value(s, i5, complete_key(), acc2) == Some((acc3, i6)));
    assert(a7[0] == '}');
    assert(s[i6 + 0] == a7[0]);
    assert(s[i6 + 0] == '}');
    lemma_skip_ws_at(s, i6);
    assert(task_of_parts(acc3) == Some(
        TaskView { text: t.text, created_at: t.created_at, complete: t.complete },
    ));
    assert(TaskView { text: t.text, created_at: t.created_at, complete: t.complete } == t);
    assert(i6 + 1 == i + encode_task(t).len());
    assert(dec_task_members(s, i4 + 1, acc2) == Some((t, i6 + 1)));
    assert(dec_task_members(s, i2 + 1, acc1) == dec_task_members(s, i4 + 1, acc2));
    assert(dec_task_members(s, i + 1, no_task_parts()) == dec_task_members(s, i2 + 1, acc1));
}

/// What follows the first task of a written list: for each further task a
/// comma and its object, then the closing bracket.
spec fn enc_rest(ts: Seq<TaskView>) -> Seq<char>
    decreases ts.len(),
{
    if ts.len() == 0 {
        seq![']']
    } else {
        seq![','] + encode_task(ts[0]) + enc_rest(ts.skip(1))
    }
}

/// The written body and closing bracket regroup around the first task.
proof fn lemma_body_rest(ts: Seq<TaskView>)
    requires
        ts.len() >= 1,
    ensures
        encode_tasks_body(ts) + seq![']'] == encode_task(ts[0]) + enc_rest(ts.skip(1)),
    decreases ts.len(),
{
    if ts.len() == 1 {
        assert(enc_rest(ts.skip(1)) =~= seq![']']);
        assert(encode_tasks_body(ts) + seq![']'] =~= encode_task(ts[0]) + enc_rest(ts.skip(1)));
    } else {
        let tail = ts.skip(1);
        lemma_body_rest(tail);
        assert(tail[0] == ts[1]);
        assert(enc_rest(tail) == seq![','] + encode_task(tail[0]) + enc_rest(tail.skip(1)));
        assert(encode_tasks_body(ts) + seq![']'] =~= encode_task(ts[0]) + (seq![','] + (
        encode_tasks_body(tail) + seq![']'])));
        assert(encode_task(ts[0]) + (seq![','] + (encode_tasks_body(tail) + seq![']']))
            =~= encode_task(ts[0]) + enc_rest(tail));
    }
}

/// A written task object opens with its brace.
proof fn lemma_encode_task_first(t: TaskView)
    ensures
        encode_task(t).len() >= 1,
        encode_task(t)[0] == '{',
{
    assert(encode_task(t)[0] == key_text()[0]);
}

/// Reading the printed remainder of a list gives the remaining tasks back.
proof fn lemma_dec_tasks_rest_at(ts: Seq<TaskView>, s: Seq<char>, i: int)
    requires
        0 <= i,
        i + enc_rest(ts).len() <= s.len(),
        s.subrange(i, i + enc_rest(ts).len()) == enc_rest(ts),
    ensures
        dec_tasks_rest(s, i) == Some((ts, i + enc_rest(ts).len())),
    decreases ts.len(),
{
    lemma_subrange_chars(s, i, enc_rest(ts));
    assert(s[i + 0] == enc_rest(ts)[0]);
    if ts.len() == 0 {
        assert(s[i] == ']');
        lemma_skip_ws_at(s, i);
    } else {
        assert(enc_rest(ts)[0] == ',');
        assert(s[i] == ',');
        lemma_skip_ws_at(s, i);
        let a = encode_task(ts[0]);
        let b = enc_rest(ts.skip(1));
        assert(enc_rest(ts) =~= seq![','] + (a + b));
        lemma_subrange_split(s, i, seq![','], a + b);
        lemma_subrange_split(s, i + 1, a, b);
        lemma_subrange_chars(s, i + 1, a);
        lemma_encode_task_first(ts[0]);
        assert(s[i + 1 + 0] == '{');
        lemma_skip_ws_at(s, i + 1);
        lemma_dec_task_at(ts[0], s, i + 1);
        let j = i + 1 + a.len();
        lemma_dec_tasks_rest_at(ts.skip(1), s, j);
        assert(seq![ts[0]] + ts.skip(1) =~= ts);
    }
}

/// Reading a written list gives the list back: saving never loses or
/// alters a task, and a saved file always loads.
#[verifier::rlimit(100)]
#[verifier::spinoff_prover]
pub proof fn lemma_load_after_save(ts: Seq<TaskView>)
    ensures
        dec_tasks(encode_tasks(ts)) == Some(ts),
{
    let s = encode_tasks(ts);
    if ts.len() == 0 {
        assert(s =~= seq!['[', ']']);
        assert(s[0] == '[' && s[1] == ']' && s.len() == 2);
        lemma_skip_ws_at(s, 0);
        lemma_skip_ws_at(s, 1);
        assert(skip_ws(s, 2) == 2);
    } else {
        lemma_body_rest(ts);
        let a = encode_task(ts[0]);
        let b = enc_rest(ts.skip(1));
        assert(s =~= seq!['['] + (encode_tasks_body(ts) + seq![']']));
        assert(encode_tasks_body(ts) + seq![']'] == a + b);
        assert(s.subrange(0, s.len() as int) =~= s);
        assert(s.len() == 1 + (a + b).len());
        lemma_subrange_split(s, 0, seq!['['], a + b);
        lemma_subrange_split(s, 1, a, b);
        assert(s[0] == '[') by {
            assert(s.subrange(0, 1)[0] == seq!['['][0]);
        }
        lemma_skip_ws_at(s, 0);
        lemma_subrange_chars(s, 1, a);
        assert(s[(1 + 0) as int] == a[0]);
        lemma_encode_task_first(ts[0]);
        assert(s[1] == '{');
        lemma_skip_ws_at(s, 1);
        lemma_dec_task_at(ts[0], s, 1);
        lemma_dec_tasks_rest_at(ts.skip(1), s, 1 + a.len() as int);
        assert(skip_ws(s, s.len() as int) == s.len());
        assert(seq![ts[0]] + ts.skip(1) =~= ts);
    }
}

/// One load-and-save cycle normalizes a file: whatever layout a text used,
/// the list it denotes saves to a text that loads back to the same list —
/// so saving a freshly loaded list twice produces identical text.
pub proof fn lemma_save_load_fixed_point(s: Seq<char>)
    ensures
        dec_tasks(s) matches Some(ts) ==> dec_tasks(encode_tasks(ts)) == Some(ts),
{
    if let Some(ts) = dec_tasks(s) {
        lemma_load_after_save(ts);
    }
}

/// A list saved after appending a fresh task loads back with that task as
/// its last entry, not yet complete, and every earlier task untouched.
pub proof fn lemma_add_then_load(ts: Seq<TaskView>, text: Seq<char>, now: u64)
    ensures
        ({
            let added = ts.push(TaskView { text, created_at: now, complete: false });
            &&& crate::parse::contents_list(encode_tasks(added)) == Some(added)
            &&& added.len() == ts.len() + 1
            &&& added[added.len() - 1] == TaskView { text, created_at: now, complete: false }
            &&& forall|i: int| 0 <= i < ts.len() ==> added[i] == ts[i]
        }),
{
    let added = ts.push(TaskView { text, created_at: now, complete: false });
    lemma_load_after_save(added);
    assert(encode_tasks(added).len() > 0) by {
        assert(encode_tasks(added)[0] == '[');
    }
}

} // verus!
