use rs_todo::{load_tasks, save_tasks, ErrorKind, Task, TaskList};

#[test]
fn one_task_serializes_to_the_expected_json() {
    let list = vec![Task { text: String::from("Buy milk"), created_at: 123, complete: false }];
    assert_eq!(
        save_tasks(&list),
        "[{\"text\":\"Buy milk\",\"created_at\":123,\"complete\":false}]"
    );
}

#[test]
fn empty_list_serializes_to_empty_array() {
    let list: TaskList = Vec::new();
    assert_eq!(save_tasks(&list), "[]");
}

#[test]
fn empty_text_loads_as_the_empty_list() {
    let loaded = load_tasks("").expect("empty text is the first-run state");
    assert!(loaded.is_empty());
}

#[test]
fn loading_a_saved_list_gives_the_list_back() {
    let list = vec![
        Task { text: String::from("plain"), created_at: 0, complete: false },
        Task { text: String::from("with \"quotes\" and \\slashes\\"), created_at: 999, complete: true },
        Task { text: String::from("line\nbreak\tand tab"), created_at: u64::MAX, complete: false },
        Task { text: String::from("unicode: héllo wörld ☃"), created_at: 1, complete: true },
        Task { text: String::new(), created_at: 42, complete: false },
    ];
    let text = save_tasks(&list);
    let loaded = load_tasks(&text).expect("own output must load");
    assert_eq!(loaded.len(), list.len());
    for (a, b) in list.iter().zip(loaded.iter()) {
        assert_eq!(a.text, b.text);
        assert_eq!(a.created_at, b.created_at);
        assert_eq!(a.complete, b.complete);
    }
}

#[test]
fn saving_a_loaded_list_gives_the_text_back() {
    let original = vec![
        Task { text: String::from("one"), created_at: 11, complete: true },
        Task { text: String::from("two"), created_at: 22, complete: false },
    ];
    let text = save_tasks(&original);
    let first = save_tasks(&load_tasks(&text).unwrap());
    let second = save_tasks(&load_tasks(&first).unwrap());
    assert_eq!(text, first);
    assert_eq!(first, second);
}

#[test]
fn control_characters_are_escaped_and_recovered() {
    let list = vec![Task { text: String::from("\u{1}\u{1f}"), created_at: 7, complete: false }];
    let text = save_tasks(&list);
    assert_eq!(text, "[{\"text\":\"\\u0001\\u001f\",\"created_at\":7,\"complete\":false}]");
    let loaded = load_tasks(&text).unwrap();
    assert_eq!(loaded[0].text, "\u{1}\u{1f}");
}

#[test]
fn malformed_text_is_rejected() {
    for bad in [
        "nonsense",
        "[",
        "[]x",
        "[{\"text\":\"a\",\"created_at\":1,\"complete\":false}",
        "[{\"text\":\"a\",\"created_at\":,\"complete\":false}]",
        "[{\"text\":\"a\",\"created_at\":1,\"complete\":maybe}]",
        "[{\"text\":a,\"created_at\":1,\"complete\":false}]",
        "{\"text\":\"a\"}",
        "[{\"text\":\"a\",\"created_at\":01,\"complete\":false}]",
        "[{\"text\":\"a\",\"created_at\":18446744073709551616,\"complete\":false}]",
        "[{\"text\":\"\\ud800\",\"created_at\":1,\"complete\":false}]",
        "[{\"text\":\"a\",\"text\":\"b\",\"created_at\":1,\"complete\":false}]",
        "[{\"text\":\"a\",\"created_at\":1}]",
        "[{\"text\":\"a\",\"created_at\":1,\"complete\":false,\"extra\":0}]",
        "[{\"text\":\"a\",\"created_at\":1,\"complete\":false,}]",
    ] {
        let r = load_tasks(bad);
        assert!(matches!(r, Err(ErrorKind::MalformedData)), "input: {bad}");
    }
}

#[test]
fn large_timestamps_round_trip() {
    let list = vec![Task {
        text: String::from("far future"),
        created_at: u64::MAX,
        complete: false,
    }];
    let text = save_tasks(&list);
    assert!(text.contains("18446744073709551615"));
    assert_eq!(load_tasks(&text).unwrap()[0].created_at, u64::MAX);
}

#[test]
fn whitespace_between_tokens_is_accepted() {
    assert!(load_tasks("[ ]").unwrap().is_empty());
    assert!(load_tasks("  [\n]\t").unwrap().is_empty());
    let pretty = "[\n  {\n    \"text\": \"a\",\n    \"created_at\": 1,\n    \"complete\": false\n  }\n]";
    let loaded = load_tasks(pretty).unwrap();
    assert_eq!(loaded.len(), 1);
    assert_eq!(loaded[0].text, "a");
    assert_eq!(loaded[0].created_at, 1);
    assert!(!loaded[0].complete);
}

#[test]
fn member_order_does_not_matter() {
    let reordered = "[{\"complete\":true,\"text\":\"b\",\"created_at\":2}]";
    let loaded = load_tasks(reordered).unwrap();
    assert_eq!(loaded.len(), 1);
    assert_eq!(loaded[0].text, "b");
    assert_eq!(loaded[0].created_at, 2);
    assert!(loaded[0].complete);
}

#[test]
fn standard_escapes_are_accepted() {
    let text = "[{\"text\":\"a\\nb\\tc\\rd\\be\\ff\\/g\\u0041\\u000a\\u4E2D\",\"created_at\":1,\"complete\":false}]";
    let loaded = load_tasks(text).unwrap();
    assert_eq!(
        loaded[0].text,
        "a\nb\tc\rd\u{8}e\u{c}f/gA\n\u{4e2d}"
    );
}

#[test]
fn loading_normalizes_once_then_stays_fixed() {
    let scruffy =
        "[ { \"created_at\" : 7 , \"complete\" : false , \"text\" : \"tea\\nbreak\" } ]";
    let first = save_tasks(&load_tasks(scruffy).unwrap());
    assert_eq!(
        first,
        "[{\"text\":\"tea\\u000abreak\",\"created_at\":7,\"complete\":false}]"
    );
    let second = save_tasks(&load_tasks(&first).unwrap());
    assert_eq!(first, second);
}
