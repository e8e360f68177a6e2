//! Rendering a task list for display.
//!
//! Each task is shown as `{position}: {text}[{stamp}]`: its 1-based
//! position, its text left-aligned in a column of fifty characters, and its
//! creation time as a local calendar stamp in brackets.  An empty list is
//! shown as a single notice instead of an empty table.

use vstd::prelude::*;

use crate::clock::local_offset_at;
use crate::encode::dec_digits;
use crate::stamp::{format_stamp, local_stamp};
use crate::task::{Task, TaskList, TaskView};
use crate::text::{chars_to_string, str_to_chars};

verus! {

/// A run of `n` blanks.
pub open spec fn spaces(n: int) -> Seq<char>
    decreases n,
{
    if n <= 0 {
        Seq::empty()
    } else {
        spaces(n - 1) + seq![' ']
    }
}

/// Text left-aligned in a column of fifty characters: shorter text is
/// filled up with blanks, longer text stands as it is.
pub open spec fn pad_text(s: Seq<char>) -> Seq<char> {
    if s.len() < 50 {
        s + spaces(50 - s.len())
    } else {
        s
    }
}

/// One displayed line: position, padded text, bracketed stamp.
pub open spec fn render_line(pos: nat, t: TaskView, offset: i32) -> Seq<char> {
    dec_digits(pos) + seq![':', ' '] + pad_text(t.text) + seq![' ', '['] + local_stamp(
        t.created_at,
        offset,
    ) + seq![']']
}

/// The notice shown in place of an empty list.
pub open spec fn empty_notice() -> Seq<char> {
    seq!['T', 'a', 's', 'k', ' ', 'l', 'i', 's', 't', ' ', 'i', 's', ' ', 'e', 'm', 'p', 't',
        'y', '!']
}

/// Append the text of `s`, left-aligned in the fifty-character column.
fn push_padded(out: &mut Vec<char>, s: &String)
    ensures
        final(out)@ == old(out)@ + pad_text(s@),
{
    let chars = str_to_chars(s.as_str());
    let mut i: usize = 0;
    while i < chars.len()
        invariant
            chars@ == s@,
            i <= chars@.len(),
            out@ == old(out)@ + s@.take(i as int),
        decreases chars@.len() - i,
    {
        out.push(chars[i]);
        i = i + 1;
        proof {
            assert(s@.take(i as int) =~= s@.take(i - 1).push(s@[i - 1]));
            assert(old(out)@ + s@.take(i - 1).push(s@[i - 1]) =~= (old(out)@ + s@.take(i - 1)).push(
                s@[i - 1],
            ));
        }
    }
    proof {
        assert(s@.take(s@.len() as int) =~= s@);
    }
    let mut k: usize = chars.len();
    proof {
        assert(spaces(0) =~= Seq::<char>::empty());
        assert(out@ =~= old(out)@ + s@ + spaces(k - s@.len()));
    }
    while k < 50
        invariant
            chars@.len() <= k <= 50 || k == chars@.len(),
            chars@ == s@,
            out@ == old(out)@ + s@ + spaces(k - s@.len()),
        decreases 50 - k,
    {
        out.push(' ');
        k = k + 1;
        proof {
            assert(out@ =~= old(out)@ + s@ + spaces(k - s@.len()));
        }
    }
    proof {
        if s@.len() < 50 {
            assert(final(out)@ =~= old(out)@ + pad_text(s@));
        } else {
            assert(spaces(k - s@.len()) =~= Seq::<char>::empty());
            assert(final(out)@ =~= old(out)@ + pad_text(s@));
        }
    }
}

/// Render one task as its displayed line.
pub fn render_task_line(pos: u64, task: &Task, offset: i32) -> (r: String)
    ensures
        r@ == render_line(pos as nat, task@, offset),
{
    let mut out: Vec<char> = Vec::new();
    crate::encode::push_dec_digits(&mut out, pos);
    out.push(':');
    out.push(' ');
    push_padded(&mut out, &task.text);
    out.push(' ');
    out.push('[');
    let stamp = format_stamp(task.created_at, offset);
    let stamp_chars = str_to_chars(stamp.as_str());
    let ghost prefix = out@;
    let mut i: usize = 0;
    while i < stamp_chars.len()
        invariant
            i <= stamp_chars@.len(),
            out@ == prefix + stamp_chars@.take(i as int),
        decreases stamp_chars@.len() - i,
    {
        out.push(stamp_chars[i]);
        i = i + 1;
        proof {
            assert(stamp_chars@.take(i as int) =~= stamp_chars@.take(i - 1).push(
                stamp_chars@[i - 1],
            ));
            assert(out@ =~= prefix + stamp_chars@.take(i as int));
        }
    }
    proof {
        assert(stamp_chars@.take(stamp_chars@.len() as int) =~= stamp_chars@);
    }
    out.push(']');
    proof {
        assert(out@ =~= render_line(pos as nat, task@, offset));
    }
    chars_to_string(&out)
}

/// Render every task of the list, with positions counted from one and all
/// stamps shifted by the one given `offset`.
pub fn render_all(list: &TaskList, offset: i32) -> (r: Vec<String>)
    ensures
        list@.len() == 0 ==> r@.len() == 1 && r@[0]@ == empty_notice(),
        list@.len() > 0 ==> r@.len() == list@.len() && forall|i: int|
            0 <= i < list@.len() ==> r@[i]@ == render_line((i + 1) as nat, list@[i]@, offset),
{
    if list.len() == 0 {
        let notice: [char; 19] = ['T', 'a', 's', 'k', ' ', 'l', 'i', 's', 't', ' ', 'i', 's', ' ',
            'e', 'm', 'p', 't', 'y', '!'];
        let mut chars: Vec<char> = Vec::new();
        crate::encode::push_lit(&mut chars, notice.as_slice());
        proof {
            assert(notice@ =~= empty_notice());
        }
        let mut r: Vec<String> = Vec::new();
        r.push(chars_to_string(&chars));
        return r;
    }
    let mut r: Vec<String> = Vec::new();
    let mut i: usize = 0;
    while i < list.len()
        invariant
            i <= list@.len(),
            list@.len() <= usize::MAX,
            r@.len() == i,
            forall|m: int| 0 <= m < i ==> r@[m]@ == render_line((m + 1) as nat, list@[m]@, offset),
        decreases list@.len() - i,
    {
        r.push(render_task_line((i as u64) + 1, &list[i], offset));
        i = i + 1;
    }
    r
}

/// Whether `line` displays the task `t` at position `pos` for some time
/// zone offset.
pub open spec fn line_in_some_zone(line: Seq<char>, pos: nat, t: TaskView) -> bool {
    exists|off: i32| line == render_line(pos, t, off)
}

/// Render every task of the list, shifting each stamp by the local time
/// zone's offset at that task's own creation instant.  The zone comes from
/// the environment, so each line is correct for some offset; everything
/// else about the lines is fixed.
pub fn list_all(list: &TaskList) -> (r: Vec<String>)
    ensures
        list@.len() == 0 ==> r@.len() == 1 && r@[0]@ == empty_notice(),
        list@.len() > 0 ==> r@.len() == list@.len() && forall|i: int|
            0 <= i < list@.len() ==> #[trigger] line_in_some_zone(
                r@[i]@,
                (i + 1) as nat,
                list@[i]@,
            ),
{
    if list.len() == 0 {
        return render_all(list, 0);
    }
    let mut r: Vec<String> = Vec::new();
    let mut i: usize = 0;
    while i < list.len()
        invariant
            i <= list@.len(),
            list@.len() <= usize::MAX,
            r@.len() == i,
            forall|m: int|
                0 <= m < i ==> #[trigger] line_in_some_zone(r@[m]@, (m + 1) as nat, list@[m]@),
        decreases list@.len() - i,
    {
        let created = list[i].created_at;
        let signed: i64 = if created > 0x7fff_ffff_ffff_ffffu64 {
            i64::MAX
        } else {
            created as i64
        };
        let off = local_offset_at(signed);
        let line = render_task_line((i as u64) + 1, &list[i], off);
        r.push(line);
        proof {
            let m = i as int;
            assert(r@[m]@ == render_line((m + 1) as nat, list@[m]@, off));
            assert(line_in_some_zone(r@[m]@, (m + 1) as nat, list@[m]@));
        }
        i = i + 1;
    }
    r
}

} // verus!
