use rs_todo::{activate_list, get_active_path, get_list_path, ErrorKind, ListEntry, State};

fn sample_state() -> State {
    State {
        active_list: Some(String::from("home")),
        list_index: vec![
            ListEntry { name: String::from("home"), path: String::from("home.json") },
            ListEntry { name: String::from("work"), path: String::from("work.json") },
        ],
    }
}

#[test]
fn lookup_finds_each_known_list() {
    let st = sample_state();
    assert_eq!(get_list_path(&st, &String::from("home")), Some(String::from("home.json")));
    assert_eq!(get_list_path(&st, &String::from("work")), Some(String::from("work.json")));
    assert_eq!(get_list_path(&st, &String::from("missing")), None);
}

#[test]
fn active_path_follows_the_active_name() {
    let st = sample_state();
    assert_eq!(get_active_path(&st), Some(String::from("home.json")));
    let unset = State { active_list: None, list_index: st.list_index };
    assert_eq!(get_active_path(&unset), None);
}

#[test]
fn activating_a_known_list_selects_it() {
    let mut st = sample_state();
    assert!(activate_list(&mut st, String::from("work")).is_ok());
    assert_eq!(st.active_list, Some(String::from("work")));
    assert_eq!(st.list_index.len(), 2);
}

#[test]
fn activating_an_unknown_list_fails_and_changes_nothing() {
    let mut st = sample_state();
    let r = activate_list(&mut st, String::from("nonexistent"));
    assert_eq!(r, Err(ErrorKind::UnknownList));
    assert_eq!(st.active_list, Some(String::from("home")));
    assert_eq!(st.list_index.len(), 2);
    assert_eq!(st.list_index[0].name, "home");
    assert_eq!(st.list_index[1].name, "work");
}

#[test]
fn state_serializes_to_the_expected_json() {
    let st = sample_state();
    assert_eq!(
        st.save(),
        "{\"active_list\":\"home\",\"list_index\":{\"home\":\"home.json\",\"work\":\"work.json\"}}"
    );
    let none = State { active_list: None, list_index: Vec::new() };
    assert_eq!(none.save(), "{\"active_list\":null,\"list_index\":{}}");
}

#[test]
fn loading_a_saved_state_gives_the_state_back() {
    let st = sample_state();
    let text = st.save();
    let loaded = State::load(&text);
    assert_eq!(loaded.active_list, Some(String::from("home")));
    assert_eq!(loaded.list_index.len(), 2);
    assert_eq!(loaded.list_index[0].name, "home");
    assert_eq!(loaded.list_index[0].path, "home.json");
    assert_eq!(loaded.list_index[1].name, "work");
    assert_eq!(loaded.list_index[1].path, "work.json");
    assert_eq!(loaded.save(), text);
}

#[test]
fn missing_or_corrupt_state_becomes_the_default() {
    for bad in ["", "garbage", "{\"active_list\":}", "{}"] {
        let st = State::load(bad);
        assert_eq!(st.active_list, Some(String::from("[default]")));
        assert_eq!(st.list_index.len(), 1);
        assert_eq!(st.list_index[0].name, "[default]");
        assert_eq!(st.list_index[0].path, "[default].json");
    }
}

#[test]
fn duplicate_names_in_the_index_are_rejected_as_corrupt() {
    let text = "{\"active_list\":null,\"list_index\":{\"a\":\"x\",\"a\":\"y\"}}";
    let st = State::load(text);
    assert_eq!(st.active_list, Some(String::from("[default]")));
    assert_eq!(st.list_index.len(), 1);
}

#[test]
fn default_state_comes_from_the_default_impl() {
    let st = State::default();
    assert_eq!(st.active_list, Some(String::from("[default]")));
    assert_eq!(st.list_index.len(), 1);
    assert_eq!(get_active_path(&st), Some(String::from("[default].json")));
}

#[test]
fn state_whitespace_and_member_order_are_accepted() {
    let spread = "{ \"list_index\" : { \"a\" : \"a.json\" , \"b\" : \"b.json\" } , \"active_list\" : \"b\" }";
    let st = State::load(spread);
    assert_eq!(st.active_list, Some(String::from("b")));
    assert_eq!(st.list_index.len(), 2);
    assert_eq!(st.list_index[0].name, "a");
    assert_eq!(st.list_index[1].path, "b.json");
    // One save normalizes; after that the text is a fixed point.
    let first = st.save();
    assert_eq!(
        first,
        "{\"active_list\":\"b\",\"list_index\":{\"a\":\"a.json\",\"b\":\"b.json\"}}"
    );
    assert_eq!(State::load(&first).save(), first);
}
