//! Application state: the named lists the tool knows of, and which one is
//! active.
//!
//! The state is stored as a JSON object with an `active_list` key (a string
//! or null) and a `list_index` object mapping list names to file paths, in
//! the same canonical text style as the task-list format.  Names in the
//! index are unique; activation only selects among existing names and never
//! creates entries.

use vstd::prelude::*;

use crate::decode::{dec_lit, dec_string, skip_ws};
use crate::encode::quote_text;
use crate::errors::ErrorKind;
use crate::parse::{parse_lit, parse_string, skip_ws_exec};
use crate::text::{chars_to_string, str_to_chars};

verus! {

/// One record of the index: a list's name and the path of its file.
#[derive(Debug, Clone)]
pub struct ListEntry {
    pub name: String,
    pub path: String,
}

/// The mathematical content of a [`ListEntry`].
pub ghost struct EntryView {
    pub name: Seq<char>,
    pub path: Seq<char>,
}

impl View for ListEntry {
    type V = EntryView;

    open spec fn view(&self) -> EntryView {
        EntryView { name: self.name@, path: self.path@ }
    }
}

impl DeepView for ListEntry {
    type V = EntryView;

    open spec fn deep_view(&self) -> EntryView {
        self.view()
    }
}

/// The application state: the name of the active list, if one is set, and
/// the index of known lists.
#[derive(Debug)]
pub struct State {
    /// Name of the currently active list, if any.
    pub active_list: Option<String>,
    /// The known lists: unique names, each with its file path.
    pub list_index: Vec<ListEntry>,
}

/// The mathematical content of a [`State`].
pub ghost struct StateView {
    pub active_list: Option<Seq<char>>,
    pub list_index: Seq<EntryView>,
}

impl View for State {
    type V = StateView;

    open spec fn view(&self) -> StateView {
        StateView {
            active_list: match self.active_list {
                Some(ref s) => Some(s@),
                None => None,
            },
            list_index: self.list_index.deep_view(),
        }
    }
}

/// No two records of the index carry the same name.
pub open spec fn names_distinct(es: Seq<EntryView>) -> bool {
    forall|p: int, q: int| 0 <= p < q < es.len() ==> es[p].name != es[q].name
}

/// A well-formed state has a duplicate-free index.
pub open spec fn state_wf(sv: StateView) -> bool {
    names_distinct(sv.list_index)
}

/// The path filed under `name`, searching the index from record `i` on.
pub open spec fn lookup_from(es: Seq<EntryView>, i: int, name: Seq<char>) -> Option<Seq<char>>
    decreases es.len() - i,
{
    if i < 0 || i >= es.len() {
        None
    } else if es[i].name == name {
        Some(es[i].path)
    } else {
        lookup_from(es, i + 1, name)
    }
}

/// The path filed under `name`, if the index holds that name.
pub open spec fn lookup(es: Seq<EntryView>, name: Seq<char>) -> Option<Seq<char>> {
    lookup_from(es, 0, name)
}

/// Find the path filed under `key`.
///
/// Returns a copy of the stored path, or nothing if no record carries the
/// name.
pub fn get_list_path(state: &State, key: &String) -> (r: Option<String>)
    ensures
        match r {
            Some(p) => lookup(state@.list_index, key@) == Some(p@),
            None => lookup(state@.list_index, key@) is None,
        },
{
    let es = &state.list_index;
    let mut i: usize = 0;
    while i < es.len()
        invariant
            i <= es@.len(),
            es.deep_view() == state@.list_index,
            lookup(state@.list_index, key@) == lookup_from(state@.list_index, i as int, key@),
        decreases es@.len() - i,
    {
        if es[i].name.eq(key) {
            return Some(es[i].path.clone());
        }
        i = i + 1;
    }
    None
}

/// Find the path of the active list.
///
/// Nothing comes back when no list is active or when the active name has no
/// record in the index.
pub fn get_active_path(state: &State) -> (r: Option<String>)
    ensures
        state@.active_list is None ==> r is None,
        state@.active_list matches Some(k) ==> match r {
            Some(p) => lookup(state@.list_index, k) == Some(p@),
            None => lookup(state@.list_index, k) is None,
        },
{
    match &state.active_list {
        Some(key) => get_list_path(state, key),
        None => None,
    }
}

/// Make the list named `key` the active one.
///
/// Fails with `UnknownList` when no record of the index carries the name;
/// the state is then left exactly as it was.  Activation never creates
/// entries: it only selects among existing lists.
pub fn activate_list(state: &mut State, key: String) -> (r: Result<(), ErrorKind>)
    ensures
        r is Ok <==> lookup(old(state)@.list_index, key@) is Some,
        r is Ok ==> final(state)@.list_index == old(state)@.list_index,
        r is Ok ==> final(state)@.active_list == Some(key@),
        r is Err ==> final(state)@ == old(state)@ && r == Err::<(), ErrorKind>(
            ErrorKind::UnknownList,
        ),
{
    if get_list_path(state, &key).is_none() {
        return Err(ErrorKind::UnknownList);
    }
    state.active_list = Some(key);
    Ok(())
}


/// The opening of the state object, up to the active-list value.
pub open spec fn key_active() -> Seq<char> {
    seq!['{', '"', 'a', 'c', 't', 'i', 'v', 'e', '_', 'l', 'i', 's', 't', '"', ':']
}

/// The JSON null literal.
pub open spec fn null_chars() -> Seq<char> {
    seq!['n', 'u', 'l', 'l']
}

/// The middle of the state object, opening the index.
pub open spec fn key_index() -> Seq<char> {
    seq![',', '"', 'l', 'i', 's', 't', '_', 'i', 'n', 'd', 'e', 'x', '"', ':', '{']
}

/// The active-list value: a name, or null when none is set.
pub open spec fn encode_active(a: Option<Seq<char>>) -> Seq<char> {
    match a {
        None => null_chars(),
        Some(n) => quote_text(n),
    }
}

/// One index record: name and path as a JSON key and value.
pub open spec fn encode_entry(e: EntryView) -> Seq<char> {
    quote_text(e.name) + seq![':'] + quote_text(e.path)
}

/// The comma-separated run of index records.
pub open spec fn encode_entries(es: Seq<EntryView>) -> Seq<char>
    decreases es.len(),
{
    if es.len() == 0 {
        Seq::empty()
    } else if es.len() == 1 {
        encode_entry(es[0])
    } else {
        encode_entry(es[0]) + seq![','] + encode_entries(es.skip(1))
    }
}

/// A whole state file.
#[verifier::opaque]
pub open spec fn encode_state(sv: StateView) -> Seq<char> {
    key_active() + encode_active(sv.active_list) + key_index() + encode_entries(sv.list_index)
        + seq!['}', '}']
}

/// Consume the active-list value: a name, or the null literal.
pub open spec fn dec_active(s: Seq<char>, i: int) -> Option<(Option<Seq<char>>, int)> {
    match dec_lit(s, i, null_chars()) {
        Some(j) => Some((None, j)),
        None => match dec_string(s, i) {
            Some((n, j)) => Some((Some(n), j)),
            None => None,
        },
    }
}

/// Consume one index record: a name, a colon and a path, with whitespace
/// allowed around the colon.
pub open spec fn dec_entry(s: Seq<char>, i: int) -> Option<(EntryView, int)> {
    match dec_string(s, i) {
        None => None,
        Some((name, j1)) => {
            let j2 = skip_ws(s, j1);
            if j2 < s.len() && s[j2] == ':' {
                let j3 = skip_ws(s, j2 + 1);
                match dec_string(s, j3) {
                    None => None,
                    Some((path, j4)) => Some((EntryView { name, path }, j4)),
                }
            } else {
                None
            }
        },
    }
}

/// A decoded index record ends strictly past where it began and within the
/// text.
pub proof fn lemma_dec_entry_advances(s: Seq<char>, i: int)
    ensures
        dec_entry(s, i) matches Some(p) ==> i < p.1 <= s.len(),
{
    if 0 <= i && i < s.len() && s[i] == '"' {
        crate::decode::lemma_dec_str_body_advances(s, i + 1);
        if let Some((name, j1)) = dec_string(s, i) {
            let j2 = skip_ws(s, j1);
            crate::decode::lemma_skip_ws_bounds(s, j1);
            if j2 < s.len() && s[j2] == ':' {
                crate::decode::lemma_skip_ws_bounds(s, j2 + 1);
                let j3 = skip_ws(s, j2 + 1);
                if 0 <= j3 && j3 < s.len() && s[j3] == '"' {
                    crate::decode::lemma_dec_str_body_advances(s, j3 + 1);
                }
            }
        }
    }
}

/// Consume the rest of the index after its first record: either the
/// closing brace, or a comma and a record, again and again, with
/// whitespace allowed around the separators.
pub open spec fn dec_entries_rest(s: Seq<char>, i: int) -> Option<(Seq<EntryView>, int)>
    decreases s.len() - i,
{
    if i < 0 || i > s.len() {
        None
    } else {
        proof {
            crate::decode::lemma_skip_ws_bounds(s, i);
        }
        let j = skip_ws(s, i);
        if j >= s.len() {
            None
        } else if s[j] == '}' {
            Some((Seq::empty(), j + 1))
        } else if s[j] == ',' {
            match dec_entry(s, skip_ws(s, j + 1)) {
                None => None,
                Some((e, k)) => {
                    proof {
                        crate::decode::lemma_skip_ws_bounds(s, j + 1);
                        lemma_dec_entry_advances(s, skip_ws(s, j + 1));
                    }
                    match dec_entries_rest(s, k) {
                        None => None,
                        Some((es, m)) => Some((seq![e] + es, m)),
                    }
                },
            }
        } else {
            None
        }
    }
}

/// Consume a whole index object, brace to brace.
pub open spec fn dec_index(s: Seq<char>, i: int) -> Option<(Seq<EntryView>, int)> {
    if 0 <= i && i < s.len() && s[i] == '{' {
        let j = skip_ws(s, i + 1);
        if j < s.len() && s[j] == '}' {
            Some((Seq::empty(), j + 1))
        } else {
            match dec_entry(s, j) {
                None => None,
                Some((e0, k)) => match dec_entries_rest(s, k) {
                    None => None,
                    Some((es, m)) => Some((seq![e0] + es, m)),
                },
            }
        }
    } else {
        None
    }
}

/// The name of the active-list member.
pub open spec fn active_list_key() -> Seq<char> {
    seq!['a', 'c', 't', 'i', 'v', 'e', '_', 'l', 'i', 's', 't']
}

/// The name of the index member.
pub open spec fn list_index_key() -> Seq<char> {
    seq!['l', 'i', 's', 't', '_', 'i', 'n', 'd', 'e', 'x']
}

/// A state object part-way through reading: each member that has already
/// appeared, at most once.
pub ghost struct PartialState {
    pub active_list: Option<Option<Seq<char>>>,
    pub list_index: Option<Seq<EntryView>>,
}

/// A state object before any member has been read.
pub open spec fn no_state_parts() -> PartialState {
    PartialState { active_list: None, list_index: None }
}

/// The state a fully read object denotes, once both members have appeared.
pub open spec fn state_of_parts(acc: PartialState) -> Option<StateView> {
    match (acc.active_list, acc.list_index) {
        (Some(active_list), Some(list_index)) => Some(StateView { active_list, list_index }),
        _ => None,
    }
}

/// Consume the value of the member named `key`, rejecting an unknown name
/// or a repeated member.
pub open spec fn dec_state_value(s: Seq<char>, i: int, key: Seq<char>, acc: PartialState) -> Option<
    (PartialState, int),
> {
    if key == active_list_key() {
        if acc.active_list is Some {
            None
        } else {
            match dec_active(s, i) {
                None => None,
                Some((a, j)) => Some(
                    (PartialState { active_list: Some(a), list_index: acc.list_index }, j),
                ),
            }
        }
    } else if key == list_index_key() {
        if acc.list_index is Some {
            None
        } else {
            match dec_index(s, i) {
                None => None,
                Some((es, j)) => Some(
                    (PartialState { active_list: acc.active_list, list_index: Some(es) }, j),
                ),
            }
        }
    } else {
        None
    }
}

/// A decoded member value ends no earlier than it began and within the
/// text.
pub proof fn lemma_dec_state_value_advances(
    s: Seq<char>,
    i: int,
    key: Seq<char>,
    acc: PartialState,
)
    requires
        0 <= i <= s.len(),
    ensures
        dec_state_value(s, i, key, acc) matches Some(p) ==> i <= p.1 <= s.len(),
{
    crate::decode::lemma_dec_str_body_advances(s, i + 1);
    if 0 <= i && i < s.len() && s[i] == '{' {
        crate::decode::lemma_skip_ws_bounds(s, i + 1);
        let j = skip_ws(s, i + 1);
        lemma_dec_entry_advances(s, j);
        if let Some((e0, k)) = dec_entry(s, j) {
            lemma_dec_entries_rest_advances(s, k);
        }
    }
}

/// A decoded index remainder ends within the text.
pub proof fn lemma_dec_entries_rest_advances(s: Seq<char>, i: int)
    ensures
        dec_entries_rest(s, i) matches Some(p) ==> i <= p.1 <= s.len(),
    decreases s.len() - i,
{
    if i < 0 || i > s.len() {
    } else {
        crate::decode::lemma_skip_ws_bounds(s, i);
        let j = skip_ws(s, i);
        if j < s.len() && s[j] == ',' {
            crate::decode::lemma_skip_ws_bounds(s, j + 1);
            lemma_dec_entry_advances(s, skip_ws(s, j + 1));
            if let Some((e, k)) = dec_entry(s, skip_ws(s, j + 1)) {
                lemma_dec_entries_rest_advances(s, k);
            }
        }
    }
}

/// Consume the members of the state object from the opening quote of a key
/// to past the closing brace: both members exactly once, in any order.
pub open spec fn dec_state_members(s: Seq<char>, i: int, acc: PartialState) -> Option<
    (StateView, int),
>
    decreases s.len() - i,
{
    if i < 0 {
        None
    } else {
        match dec_string(s, i) {
            None => None,
            Some((key, j1)) => {
                proof {
                    crate::decode::lemma_dec_str_body_advances(s, i + 1);
                }
                let j2 = skip_ws(s, j1);
                if j2 < s.len() && s[j2] == ':' {
                    proof {
                        crate::decode::lemma_skip_ws_bounds(s, j1);
                    }
                    let j3 = skip_ws(s, j2 + 1);
                    match dec_state_value(s, j3, key, acc) {
                        None => None,
                        Some((acc2, j4)) => {
                            proof {
                                crate::decode::lemma_skip_ws_bounds(s, j2 + 1);
                                lemma_dec_state_value_advances(s, j3, key, acc);
                                crate::decode::lemma_skip_ws_bounds(s, j4);
                            }
                            let j5 = skip_ws(s, j4);
                            if j5 < s.len() && s[j5] == ',' {
                                proof {
                                    crate::decode::lemma_skip_ws_bounds(s, j5 + 1);
                                }
                                dec_state_members(s, skip_ws(s, j5 + 1), acc2)
                            } else if j5 < s.len() && s[j5] == '}' {
                                match state_of_parts(acc2) {
                                    None => None,
                                    Some(sv) => Some((sv, j5 + 1)),
                                }
                            } else {
                                None
                            }
                        },
                    }
                } else {
                    None
                }
            },
        }
    }
}

/// The state a whole text denotes: one JSON state object with nothing but
/// whitespace around it, every character accounted for, and the index free
/// of duplicate names.
pub open spec fn dec_state(s: Seq<char>) -> Option<StateView> {
    let i = skip_ws(s, 0);
    if i < s.len() && s[i] == '{' {
        match dec_state_members(s, skip_ws(s, i + 1), no_state_parts()) {
            None => None,
            Some((sv, j)) => if skip_ws(s, j) == s.len() && names_distinct(sv.list_index) {
                Some(sv)
            } else {
                None
            },
        }
    } else {
        None
    }
}

/// The state substituted for missing or unreadable data: one reserved list
/// name, mapped to a file beside the state file, marked active.
pub open spec fn default_state_view() -> StateView {
    StateView {
        active_list: Some("[default]"@),
        list_index: seq![EntryView { name: "[default]"@, path: "[default].json"@ }],
    }
}

impl Default for State {
    /// The first-run state: the reserved list name, active.
    fn default() -> (r: State)
        ensures
            r@ == default_state_view(),
            state_wf(r@),
    {
        let name = String::from_str("[default]");
        let path = String::from_str("[default].json");
        let mut list_index: Vec<ListEntry> = Vec::new();
        list_index.push(ListEntry { name, path });
        let r = State { active_list: Some(String::from_str("[default]")), list_index };
        proof {
            assert(r@.list_index =~= default_state_view().list_index);
        }
        r
    }
}

/// Append one index record.
fn push_entry(out: &mut Vec<char>, e: &ListEntry)
    ensures
        final(out)@ == old(out)@ + encode_entry(e@),
{
    crate::encode::push_quoted(out, &e.name);
    out.push(':');
    crate::encode::push_quoted(out, &e.path);
    proof {
        assert(final(out)@ =~= old(out)@ + encode_entry(e@));
    }
}

/// Append the comma-separated run of index records starting at `i`.
fn push_entries(out: &mut Vec<char>, es: &Vec<ListEntry>, i: usize)
    requires
        i <= es@.len(),
    ensures
        final(out)@ == old(out)@ + encode_entries(es.deep_view().skip(i as int)),
    decreases es@.len() - i,
{
    if i < es.len() {
        push_entry(out, &es[i]);
        proof {
            assert(es.deep_view().skip(i as int)[0] == es@[i as int]@);
        }
        if i + 1 < es.len() {
            out.push(',');
        }
        push_entries(out, es, i + 1);
        proof {
            assert(es.deep_view().skip(i as int).skip(1) =~= es.deep_view().skip(i + 1));
            assert(final(out)@ =~= old(out)@ + encode_entries(es.deep_view().skip(i as int)));
        }
    } else {
        proof {
            assert(es.deep_view().skip(i as int) =~= Seq::<EntryView>::empty());
        }
    }
}

impl State {
    /// Serialize the state to its canonical file text: a full rewrite of the
    /// state file, never a patch.
    pub fn save(&self) -> (r: String)
        ensures
            r@ == encode_state(self@),
    {
        let head: [char; 15] = ['{', '"', 'a', 'c', 't', 'i', 'v', 'e', '_', 'l', 'i', 's', 't',
            '"', ':'];
        let null_word: [char; 4] = ['n', 'u', 'l', 'l'];
        let index_word: [char; 15] = [',', '"', 'l', 'i', 's', 't', '_', 'i', 'n', 'd', 'e', 'x',
            '"', ':', '{'];
        let mut out: Vec<char> = Vec::new();
        crate::encode::push_lit(&mut out, head.as_slice());
        proof {
            assert(head@ =~= key_active());
        }
        match &self.active_list {
            Some(name) => crate::encode::push_quoted(&mut out, name),
            None => {
                crate::encode::push_lit(&mut out, null_word.as_slice());
                proof {
                    assert(null_word@ =~= null_chars());
                }
            },
        }
        crate::encode::push_lit(&mut out, index_word.as_slice());
        proof {
            assert(index_word@ =~= key_index());
        }
        push_entries(&mut out, &self.list_index, 0);
        out.push('}');
        out.push('}');
        proof {
            reveal(encode_state);
            assert(self.list_index.deep_view().skip(0) =~= self@.list_index);
            assert(out@ =~= encode_state(self@));
        }
        chars_to_string(&out)
    }

    /// Decode a state file's text, substituting the default state when the
    /// text does not parse.  Missing, empty or corrupt data never fails:
    /// first runs start from the default.
    pub fn load(contents: &str) -> (st: State)
        ensures
            match dec_state(contents@) {
                Some(sv) => st@ == sv,
                None => st@ == default_state_view(),
            },
            state_wf(st@),
    {
        let chars = str_to_chars(contents);
        match parse_state(&chars) {
            Some(st) => st,
            None => State::default(),
        }
    }
}

/// Whether all record names are pairwise distinct.
fn check_names_distinct(es: &Vec<ListEntry>) -> (r: bool)
    ensures
        r == names_distinct(es.deep_view()),
{
    let mut p: usize = 0;
    while p < es.len()
        invariant
            p <= es@.len(),
            forall|x: int, y: int|
                0 <= x < y < es.deep_view().len() && x < p ==> es.deep_view()[x].name
                    != es.deep_view()[y].name,
        decreases es@.len() - p,
    {
        let mut q: usize = p + 1;
        while q < es.len()
            invariant
                p < es@.len(),
                q <= es@.len(),
                p + 1 <= q,
                forall|y: int| p < y < q ==> es.deep_view()[p as int].name
                    != es.deep_view()[y].name,
            decreases es@.len() - q,
        {
            if es[p].name.eq(&es[q].name) {
                proof {
                    assert(es.deep_view()[p as int].name == es.deep_view()[q as int].name);
                }
                return false;
            }
            q = q + 1;
        }
        p = p + 1;
    }
    true
}

/// The view of an optional name.
pub open spec fn opt_str_view(a: &Option<String>) -> Option<Seq<char>> {
    match a {
        Some(s) => Some(s@),
        None => None,
    }
}

/// The members already read, as the spec decoder tracks them.
pub open spec fn state_parts_view(
    active_list: &Option<Option<String>>,
    list_index: &Option<Vec<ListEntry>>,
) -> PartialState {
    PartialState {
        active_list: match active_list {
            Some(a) => Some(opt_str_view(a)),
            None => None,
        },
        list_index: match list_index {
            Some(es) => Some(es.deep_view()),
            None => None,
        },
    }
}

/// Read the active-list value.
fn parse_active(v: &Vec<char>, i: usize) -> (r: Option<(Option<String>, usize)>)
    ensures
        match r {
            Some(p) => dec_active(v@, i as int) == Some((opt_str_view(&p.0), p.1 as int)) && p.1
                <= v@.len(),
            None => dec_active(v@, i as int) is None,
        },
{
    let null_word: [char; 4] = ['n', 'u', 'l', 'l'];
    proof {
        assert(null_word@ =~= null_chars());
    }
    match parse_lit(v, i, null_word.as_slice()) {
        Some(j) => Some((None, j)),
        None => match parse_string(v, i) {
            Some((n, j)) => Some((Some(n), j)),
            None => None,
        },
    }
}

/// Read one index record.
fn parse_entry(v: &Vec<char>, i: usize) -> (r: Option<(ListEntry, usize)>)
    ensures
        match r {
            Some(p) => dec_entry(v@, i as int) == Some((p.0@, p.1 as int)) && p.1 <= v@.len(),
            None => dec_entry(v@, i as int) is None,
        },
{
    let (name, j1) = match parse_string(v, i) {
        Some(p) => p,
        None => {
            return None;
        },
    };
    let j2 = skip_ws_exec(v, j1);
    if !(j2 < v.len() && v[j2] == ':') {
        return None;
    }
    let j3 = skip_ws_exec(v, j2 + 1);
    let (path, j4) = match parse_string(v, j3) {
        Some(p) => p,
        None => {
            return None;
        },
    };
    Some((ListEntry { name, path }, j4))
}

/// Read a whole index object, brace to brace.
fn parse_index(v: &Vec<char>, i: usize) -> (r: Option<(Vec<ListEntry>, usize)>)
    ensures
        match r {
            Some(p) => dec_index(v@, i as int) == Some((p.0.deep_view(), p.1 as int)) && p.1
                <= v@.len(),
            None => dec_index(v@, i as int) is None,
        },
{
    if !(i < v.len() && v[i] == '{') {
        return None;
    }
    let j = skip_ws_exec(v, i + 1);
    if j < v.len() && v[j] == '}' {
        let empty: Vec<ListEntry> = Vec::new();
        proof {
            assert(empty.deep_view() =~= Seq::<EntryView>::empty());
        }
        return Some((empty, j + 1));
    }
    let (first, start) = match parse_entry(v, j) {
        Some(p) => p,
        None => {
            return None;
        },
    };
    let ghost first_view = first@;
    let ghost j0 = start as int;
    let mut acc: Vec<ListEntry> = Vec::new();
    acc.push(first);
    let mut pos: usize = start;
    proof {
        assert(acc.deep_view() =~= seq![first_view]);
        assert(acc.deep_view().skip(1) =~= Seq::<EntryView>::empty());
    }
    loop
        invariant
            pos <= v@.len(),
            i < v@.len() && v@[i as int] == '{',
            skip_ws(v@, i + 1) == j as int && j < v@.len() && v@[j as int] != '}',
            dec_entry(v@, j as int) == Some((first_view, j0)),
            acc@.len() >= 1,
            acc.deep_view()[0] == first_view,
            dec_entries_rest(v@, pos as int) matches Some(q) ==> dec_entries_rest(v@, j0) == Some(
                (acc.deep_view().skip(1) + q.0, q.1),
            ),
            dec_entries_rest(v@, pos as int) is None ==> dec_entries_rest(v@, j0) is None,
        decreases v@.len() - pos,
    {
        let w = skip_ws_exec(v, pos);
        if w >= v.len() {
            return None;
        }
        if v[w] == '}' {
            proof {
                let q0 = (Seq::<EntryView>::empty(), w + 1 as int);
                assert(dec_entries_rest(v@, pos as int) == Some(q0));
                assert(acc.deep_view().skip(1) + q0.0 =~= acc.deep_view().skip(1));
                assert(seq![first_view] + acc.deep_view().skip(1) =~= acc.deep_view());
            }
            return Some((acc, w + 1));
        }
        if v[w] != ',' {
            return None;
        }
        let after = skip_ws_exec(v, w + 1);
        let (e, k) = match parse_entry(v, after) {
            Some(p) => p,
            None => {
                return None;
            },
        };
        proof {
            lemma_dec_entry_advances(v@, after as int);
            let old_dv = acc.deep_view();
            if let Some((es, m)) = dec_entries_rest(v@, k as int) {
                assert(old_dv.skip(1) + (seq![e@] + es) =~= old_dv.push(e@).skip(1) + es);
            }
        }
        let ghost old_dv = acc.deep_view();
        acc.push(e);
        proof {
            assert(acc.deep_view() =~= old_dv.push(e@));
        }
        pos = k;
    }
}

/// Read the members of the state object.
fn parse_state_members(
    v: &Vec<char>,
    i: usize,
    active_list: Option<Option<String>>,
    list_index: Option<Vec<ListEntry>>,
) -> (r: Option<(State, usize)>)
    requires
        i <= v@.len(),
    ensures
        match r {
            Some(p) => dec_state_members(v@, i as int, state_parts_view(&active_list, &list_index))
                == Some((p.0@, p.1 as int)) && p.1 <= v@.len(),
            None => dec_state_members(
                v@,
                i as int,
                state_parts_view(&active_list, &list_index),
            ) is None,
        },
    decreases v@.len() - i,
{
    let ghost acc = state_parts_view(&active_list, &list_index);
    let (key, j1) = match parse_string(v, i) {
        Some(p) => p,
        None => {
            return None;
        },
    };
    proof {
        crate::decode::lemma_dec_str_body_advances(v@, i + 1);
    }
    let j2 = skip_ws_exec(v, j1);
    if !(j2 < v.len() && v[j2] == ':') {
        return None;
    }
    let j3 = skip_ws_exec(v, j2 + 1);
    let word_active: [char; 11] = ['a', 'c', 't', 'i', 'v', 'e', '_', 'l', 'i', 's', 't'];
    let word_index: [char; 10] = ['l', 'i', 's', 't', '_', 'i', 'n', 'd', 'e', 'x'];
    proof {
        assert(word_active@ =~= active_list_key());
        assert(word_index@ =~= list_index_key());
    }
    let key_chars = crate::text::str_to_chars(key.as_str());
    let active2: Option<Option<String>>;
    let index2: Option<Vec<ListEntry>>;
    let j4: usize;
    if crate::parse::chars_eq(&key_chars, word_active.as_slice()) {
        if active_list.is_some() {
            return None;
        }
        let (a, j) = match parse_active(v, j3) {
            Some(p) => p,
            None => {
                return None;
            },
        };
        active2 = Some(a);
        index2 = list_index;
        j4 = j;
    } else if crate::parse::chars_eq(&key_chars, word_index.as_slice()) {
        if list_index.is_some() {
            return None;
        }
        let (es, j) = match parse_index(v, j3) {
            Some(p) => p,
            None => {
                return None;
            },
        };
        active2 = active_list;
        index2 = Some(es);
        j4 = j;
    } else {
        proof {
            assert(dec_state_value(v@, j3 as int, key@, acc) is None);
        }
        return None;
    }
    proof {
        assert(dec_state_value(v@, j3 as int, key@, acc) == Some(
            (state_parts_view(&active2, &index2), j4 as int),
        ));
    }
    let j5 = skip_ws_exec(v, j4);
    if j5 < v.len() && v[j5] == ',' {
        let next = skip_ws_exec(v, j5 + 1);
        proof {
            lemma_dec_state_value_advances(v@, j3 as int, key@, acc);
        }
        parse_state_members(v, next, active2, index2)
    } else if j5 < v.len() && v[j5] == '}' {
        match (active2, index2) {
            (Some(a), Some(es)) => Some((State { active_list: a, list_index: es }, j5 + 1)),
            _ => None,
        }
    } else {
        None
    }
}

/// Read the whole text as a state: everything but whitespace must be
/// consumed and the index must be free of duplicate names.
fn parse_state(v: &Vec<char>) -> (r: Option<State>)
    ensures
        match r {
            Some(st) => dec_state(v@) == Some(st@) && state_wf(st@),
            None => dec_state(v@) is None,
        },
{
    let i = skip_ws_exec(v, 0);
    if !(i < v.len() && v[i] == '{') {
        return None;
    }
    let j = skip_ws_exec(v, i + 1);
    let (st, k) = match parse_state_members(v, j, None, None) {
        Some(p) => p,
        None => {
            proof {
                assert(state_parts_view(
                    &None::<Option<String>>,
                    &None::<Vec<ListEntry>>,
                ) == no_state_parts());
            }
            return None;
        },
    };
    proof {
        assert(state_parts_view(&None::<Option<String>>, &None::<Vec<ListEntry>>)
            == no_state_parts());
    }
    if skip_ws_exec(v, k) != v.len() {
        return None;
    }
    if !check_names_distinct(&st.list_index) {
        return None;
    }
    Some(st)
}

} // verus!
