//! Round-trip laws of the state-file format.
//!
//! Reading what [`crate::state::encode_state`] wrote gives the state back,
//! provided its index names are distinct — a duplicate-free index is the
//! only state the library ever writes.  As with task files, the reader
//! accepts more layouts than the writer produces, so one load and save
//! cycle normalizes the file and from then on the text is a fixed point.

use vstd::prelude::*;

use crate::decode::{dec_lit, dec_string, skip_ws};
use crate::encode::quote_text;
use crate::laws::{
    lemma_dec_string_at, lemma_escape_text_plain, lemma_skip_ws_at, lemma_subrange_chars,
    lemma_subrange_split,
};
use crate::state::{
    active_list_key, dec_active, dec_entries_rest, dec_entry, dec_index, dec_state,
    dec_state_members, dec_state_value, encode_active, encode_entries, encode_entry, encode_state,
    key_active, key_index, list_index_key, names_distinct,
    no_state_parts, null_chars, state_of_parts, EntryView, PartialState, StateView,
};

verus! {

/// A written index record opens with a quote.
proof fn lemma_encode_entry_first(e: EntryView)
    ensures
        encode_entry(e).len() >= 1,
        encode_entry(e)[0] == '"',
{
    assert(encode_entry(e)[0] == quote_text(e.name)[0]);
}

/// Reading a canonically printed member key gives the key back.
proof fn lemma_dec_state_key_at(key: Seq<char>, s: Seq<char>, i: int)
    requires
        0 <= i,
        i + key.len() + 2 <= s.len(),
        forall|m: int| 0 <= m < key.len() ==> key[m] != '"' && key[m] != '\\' && (
        #[trigger] key[m]) as u32 >= 32,
        s[i] == '"',
        s[i + key.len() + 1] == '"',
        forall|m: int| 0 <= m < key.len() ==> s[i + 1 + m] == key[m],
    ensures
        dec_string(s, i) == Some((key, i + key.len() + 2)),
{
    lemma_escape_text_plain(key);
    assert forall|m: int| 0 <= m < quote_text(key).len() implies s.subrange(
        i,
        i + quote_text(key).len(),
    )[m] == quote_text(key)[m] by {
        if m == 0 {
        } else if m <= key.len() {
            assert(s[i + 1 + (m - 1)] == key[m - 1]);
            assert(quote_text(key)[m] == crate::encode::escape_text(key)[m - 1]);
        } else {
            assert(quote_text(key)[m] == '"');
        }
    }
    assert(s.subrange(i, i + quote_text(key).len()) =~= quote_text(key));
    lemma_dec_string_at(key, s, i);
}

/// Reading a printed index record gives the record back.
proof fn lemma_dec_entry_at(e: EntryView, s: Seq<char>, i: int)
    requires
        0 <= i,
        i + encode_entry(e).len() <= s.len(),
        s.subrange(i, i + encode_entry(e).len()) == encode_entry(e),
    ensures
        dec_entry(s, i) == Some((e, i + encode_entry(e).len())),
{
    let a1 = quote_text(e.name);
    let a2 = seq![':'];
    let a3 = quote_text(e.path);
    let r2 = a2 + a3;
    assert(encode_entry(e) =~= a1 + r2);
    lemma_subrange_split(s, i, a1, r2);
    let i1 = i + a1.len();
    lemma_dec_string_at(e.name, s, i);
    assert(r2 =~= a2 + a3);
    lemma_subrange_split(s, i1, a2, a3);
    let i2 = i1 + a2.len();
    lemma_subrange_chars(s, i1, a2);
    assert(a2[0] == ':');
    assert(s[i1 + 0] == ':');
    lemma_skip_ws_at(s, i1);
    lemma_subrange_chars(s, i2, a3);
    assert(quote_text(e.path)[0] == '"');
    assert(s[i2 + 0] == '"');
    lemma_skip_ws_at(s, i2);
    lemma_dec_string_at(e.path, s, i2);
    assert(EntryView { name: e.name, path: e.path } == e);
}

/// Reading a printed active-list value gives the value back.
proof fn lemma_dec_active_at(a: Option<Seq<char>>, s: Seq<char>, i: int)
    requires
        0 <= i,
        i + encode_active(a).len() <= s.len(),
        s.subrange(i, i + encode_active(a).len()) == encode_active(a),
    ensures
        dec_active(s, i) == Some((a, i + encode_active(a).len())),
{
    lemma_subrange_chars(s, i, encode_active(a));
    match a {
        None => {
            assert(s.subrange(i, i + 4) =~= null_chars());
        },
        Some(n) => {
            assert(s[i + 0] == encode_active(a)[0]);
            assert(encode_active(a)[0] == quote_text(n)[0]);
            assert(s[i] == '"');
            if i + 4 <= s.len() {
                assert(s.subrange(i, i + 4)[0] == s[i]);
                assert(null_chars()[0] == 'n');
                assert(s.subrange(i, i + 4) != null_chars());
            }
            assert(dec_lit(s, i, null_chars()) is None);
            lemma_dec_string_at(n, s, i);
        },
    }
}

/// What follows the first record of a written index: for each further
/// record a comma and the record, then the closing brace.
spec fn enc_entries_rest(es: Seq<EntryView>) -> Seq<char>
    decreases es.len(),
{
    if es.len() == 0 {
        seq!['}']
    } else {
        seq![','] + encode_entry(es[0]) + enc_entries_rest(es.skip(1))
    }
}

/// The written index body and closing brace regroup around the first
/// record.
proof fn lemma_entries_body_rest(es: Seq<EntryView>)
    requires
        es.len() >= 1,
    ensures
        encode_entries(es) + seq!['}'] == encode_entry(es[0]) + enc_entries_rest(es.skip(1)),
    decreases es.len(),
{
    if es.len() == 1 {
        assert(enc_entries_rest(es.skip(1)) =~= seq!['}']);
        assert(encode_entries(es) + seq!['}'] =~= encode_entry(es[0]) + enc_entries_rest(
            es.skip(1),
        ));
    } else {
        let tail = es.skip(1);
        lemma_entries_body_rest(tail);
        assert(tail[0] == es[1]);
        assert(enc_entries_rest(tail) == seq![','] + encode_entry(tail[0]) + enc_entries_rest(
            tail.skip(1),
        ));
        assert(encode_entries(es) + seq!['}'] =~= encode_entry(es[0]) + (seq![','] + (
        encode_entries(tail) + seq!['}'])));
        assert(encode_entry(es[0]) + (seq![','] + (encode_entries(tail) + seq!['}']))
            =~= encode_entry(es[0]) + enc_entries_rest(tail));
    }
}

/// Reading the printed remainder of an index gives the remaining records
/// back.
proof fn lemma_dec_entries_rest_at(es: Seq<EntryView>, s: Seq<char>, i: int)
    requires
        0 <= i,
        i + enc_entries_rest(es).len() <= s.len(),
        s.subrange(i, i + enc_entries_rest(es).len()) == enc_entries_rest(es),
    ensures
        dec_entries_rest(s, i) == Some((es, i + enc_entries_rest(es).len())),
    decreases es.len(),
{
    lemma_subrange_chars(s, i, enc_entries_rest(es));
    assert(s[i + 0] == enc_entries_rest(es)[0]);
    if es.len() == 0 {
        assert(s[i] == '}');
        lemma_skip_ws_at(s, i);
    } else {
        assert(enc_entries_rest(es)[0] == ',');
        assert(s[i] == ',');
        lemma_skip_ws_at(s, i);
        let a = encode_entry(es[0]);
        let b = enc_entries_rest(es.skip(1));
        assert(enc_entries_rest(es) =~= seq![','] + (a + b));
        lemma_subrange_split(s, i, seq![','], a + b);
        lemma_subrange_split(s, i + 1, a, b);
        lemma_subrange_chars(s, i + 1, a);
        lemma_encode_entry_first(es[0]);
        assert(s[i + 1 + 0] == '"');
        lemma_skip_ws_at(s, i + 1);
        lemma_dec_entry_at(es[0], s, i + 1);
        let j = i + 1 + a.len();
        lemma_dec_entries_rest_at(es.skip(1), s, j);
        assert(seq![es[0]] + es.skip(1) =~= es);
    }
}

/// Reading a printed index, its closing brace included, gives the records
/// back.
proof fn lemma_dec_index_at(es: Seq<EntryView>, s: Seq<char>, i: int)
    requires
        0 <= i,
        i + 1 + encode_entries(es).len() + 1 <= s.len(),
        s[i] == '{',
        s.subrange(i + 1, i + 1 + encode_entries(es).len() + 1) == encode_entries(es) + seq!['}'],
    ensures
        dec_index(s, i) == Some((es, i + 1 + encode_entries(es).len() + 1)),
{
    if es.len() == 0 {
        lemma_subrange_chars(s, i + 1, encode_entries(es) + seq!['}']);
        assert((encode_entries(es) + seq!['}'])[0] == '}');
        assert(s[i + 1 + 0] == '}');
        lemma_skip_ws_at(s, i + 1);
        assert(encode_entries(es).len() == 0);
    } else {
        lemma_entries_body_rest(es);
        let a = encode_entry(es[0]);
        let b = enc_entries_rest(es.skip(1));
        assert(encode_entries(es) + seq!['}'] == a + b);
        lemma_subrange_split(s, i + 1, a, b);
        lemma_subrange_chars(s, i + 1, a);
        lemma_encode_entry_first(es[0]);
        assert(s[i + 1 + 0] == '"');
        lemma_skip_ws_at(s, i + 1);
        lemma_dec_entry_at(es[0], s, i + 1);
        let j = i + 1 + a.len();
        lemma_dec_entries_rest_at(es.skip(1), s, j);
        assert(seq![es[0]] + es.skip(1) =~= es);
    }
}

/// The two member keys differ.
proof fn lemma_state_keys_differ()
    ensures
        active_list_key() != list_index_key(),
{
    assert(active_list_key().len() != list_index_key().len());
}

/// An abstract text whose tokens decode as a canonical state decodes to
/// exactly that state.
proof fn lemma_dec_state_at(a: Option<Seq<char>>, es: Seq<EntryView>, s: Seq<char>, i1: int, i3: int)
    requires
        s.len() >= 2,
        skip_ws(s, 0) == 0 && s[0] == '{',
        skip_ws(s, 1) == 1,
        dec_string(s, 1) == Some((active_list_key(), 14int)),
        skip_ws(s, 14) == 14 && s[14] == ':',
        skip_ws(s, 15) == 15,
        dec_active(s, 15) == Some((a, i1)),
        skip_ws(s, i1) == i1 && i1 < s.len() && s[i1] == ',',
        skip_ws(s, i1 + 1) == i1 + 1,
        dec_string(s, i1 + 1) == Some((list_index_key(), i1 + 13int)),
        skip_ws(s, i1 + 13) == i1 + 13 && i1 + 13 < s.len() && s[i1 + 13] == ':',
        skip_ws(s, i1 + 14) == i1 + 14,
        dec_index(s, i1 + 14) == Some((es, i3 + 1)),
        skip_ws(s, i3 + 1) == i3 + 1 && i3 + 1 < s.len() && s[i3 + 1] == '}',
        i3 + 2 == s.len(),
        names_distinct(es),
    ensures
        dec_state(s) == Some(StateView { active_list: a, list_index: es }),
{
    lemma_state_keys_differ();
    let acc1 = PartialState { active_list: Some(a), list_index: None };
    let acc2 = PartialState { active_list: Some(a), list_index: Some(es) };
    assert(dec_state_value(s, 15, active_list_key(), no_state_parts()) == Some((acc1, i1)));
    assert(dec_state_value(s, i1 + 14, list_index_key(), acc1) == Some((acc2, i3 + 1)));
    assert(state_of_parts(acc2) == Some(StateView { active_list: a, list_index: es }));
    assert(dec_state_members(s, i1 + 1, acc1) == Some(
        (StateView { active_list: a, list_index: es }, i3 + 2),
    ));
    assert(dec_state_members(s, 1, no_state_parts()) == dec_state_members(s, i1 + 1, acc1));
    assert(skip_ws(s, s.len() as int) == s.len());
}

/// A written state splits into its five regions.
#[verifier::rlimit(100)]
#[verifier::spinoff_prover]
proof fn lemma_state_regions(sv: StateView)
    ensures
        ({
            let s = encode_state(sv);
            let i0 = key_active().len() as int;
            let i1 = i0 + encode_active(sv.active_list).len();
            let i2 = i1 + key_index().len();
            let i3 = i2 + encode_entries(sv.list_index).len();
            &&& s.len() == i3 + 2
            &&& s.subrange(0, i0) == key_active()
            &&& s.subrange(i0, i1) == encode_active(sv.active_list)
            &&& s.subrange(i1, i2) == key_index()
            &&& s.subrange(i2, i3 + 1) == encode_entries(sv.list_index) + seq!['}']
            &&& s.subrange(i3 + 1, i3 + 2) == seq!['}']
        }),
{
    reveal(encode_state);
    let s = encode_state(sv);
    let ka = key_active();
    let av = encode_active(sv.active_list);
    let ki = key_index();
    let en = encode_entries(sv.list_index);
    let i0 = ka.len() as int;
    let i1 = i0 + av.len();
    let i2 = i1 + ki.len();
    let i3 = i2 + en.len();
    let tail = (en + seq!['}']) + seq!['}'];
    assert(s =~= ka + (av + (ki + tail)));
    assert(s.subrange(0, s.len() as int) =~= s);
    lemma_subrange_split(s, 0, ka, av + (ki + tail));
    lemma_subrange_split(s, i0, av, ki + tail);
    lemma_subrange_split(s, i1, ki, tail);
    lemma_subrange_split(s, i2, en + seq!['}'], seq!['}']);
}

/// Reading a written state gives the state back: saving the state loses
/// nothing, and a saved state file always loads as itself.  The index the
/// library writes always has distinct names, which is all the reader
/// demands.
#[verifier::rlimit(100)]
#[verifier::spinoff_prover]
pub proof fn lemma_state_load_after_save(sv: StateView)
    requires
        names_distinct(sv.list_index),
    ensures
        dec_state(encode_state(sv)) == Some(sv),
{
    let s = encode_state(sv);
    let ka = key_active();
    let av = encode_active(sv.active_list);
    let ki = key_index();
    let en = encode_entries(sv.list_index);
    let i0 = ka.len() as int;
    let i1 = i0 + av.len();
    let i2 = i1 + ki.len();
    let i3 = i2 + en.len();
    lemma_state_regions(sv);
    lemma_subrange_chars(s, 0, ka);
    lemma_subrange_chars(s, i1, ki);

    // The object opens and the first key follows at once.
    assert(s[(0 + 0) as int] == '{' && s[(0 + 1) as int] == '"' && s[(0 + 14) as int] == ':');
    lemma_skip_ws_at(s, 0);
    lemma_skip_ws_at(s, 1);

    // Member one: the active list.
    assert forall|m: int| 0 <= m < active_list_key().len() implies s[1 + 1 + m]
        == active_list_key()[m] by {
        assert(s[(0 + (2 + m)) as int] == ka[2 + m]);
    }
    assert(s[1 + active_list_key().len() as int + 1] == '"') by {
        assert(s[(0 + 13) as int] == ka[13]);
    }
    lemma_dec_state_key_at(active_list_key(), s, 1);
    lemma_skip_ws_at(s, 14);
    lemma_subrange_chars(s, i0, av);
    assert(s[i0 + 0] == av[0]);
    assert(av[0] == 'n' || av[0] == '"') by {
        if sv.active_list is Some {
            assert(av[0] == quote_text(sv.active_list.unwrap())[0]);
        }
    }
    lemma_skip_ws_at(s, i0);
    lemma_dec_active_at(sv.active_list, s, i0);
    assert(s[i1 + 0] == ',' && s[i1 + 1] == '"' && s[i1 + 13] == ':' && s[i1 + 14] == '{');
    lemma_skip_ws_at(s, i1);
    lemma_skip_ws_at(s, i1 + 1);

    // Member two: the index.
    assert forall|m: int| 0 <= m < list_index_key().len() implies s[i1 + 1 + 1 + m]
        == list_index_key()[m] by {
        assert(s[i1 + (2 + m)] == ki[2 + m]);
    }
    assert(s[i1 + 1 + list_index_key().len() as int + 1] == '"') by {
        assert(s[i1 + 12] == ki[12]);
    }
    lemma_dec_state_key_at(list_index_key(), s, i1 + 1);
    lemma_skip_ws_at(s, i1 + 13);
    lemma_skip_ws_at(s, i1 + 14);
    lemma_dec_index_at(sv.list_index, s, i1 + 14);
    let brace = seq!['}'];
    lemma_subrange_chars(s, i3 + 1, brace);
    assert(brace[0] == '}');
    assert(s[i3 + 1 + 0] == brace[0]);
    lemma_skip_ws_at(s, i3 + 1);
    lemma_dec_state_at(sv.active_list, sv.list_index, s, i1, i3);
    assert(StateView { active_list: sv.active_list, list_index: sv.list_index } == sv);
}

/// One load-and-save cycle normalizes a state file: whatever layout a text
/// used, the state it denotes saves to a text that loads back to the same
/// state — so saving a freshly loaded state twice produces identical text.
pub proof fn lemma_state_save_load_fixed_point(s: Seq<char>)
    ensures
        dec_state(s) matches Some(sv) ==> dec_state(encode_state(sv)) == Some(sv),
{
    if let Some(sv) = dec_state(s) {
        assert(names_distinct(sv.list_index));
        lemma_state_load_after_save(sv);
    }
}

} // verus!
