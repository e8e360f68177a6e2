use rs_todo::{
    load_tasks, run, CommandLineArgs, Commands, ErrorKind, ListEntry, State,
};

fn one_list_state() -> State {
    State {
        active_list: Some(String::from("todo")),
        list_index: vec![ListEntry { name: String::from("todo"), path: String::from("todo.json") }],
    }
}

fn args(command: Commands) -> CommandLineArgs {
    CommandLineArgs { command, data_dir: None, list: None }
}

#[test]
fn milk_from_scratch() {
    // Starting from no file: adding writes a one-task file.
    let now: u64 = 1_700_000_000;
    let out = run(&args(Commands::Add { text: String::from("Buy milk") }), one_list_state(), "", now)
        .expect("add on a fresh file succeeds");
    let contents = out.new_list_contents.expect("add rewrites the file");
    assert!(out.new_state.is_none());
    assert_eq!(
        contents,
        "[{\"text\":\"Buy milk\",\"created_at\":1700000000,\"complete\":false}]"
    );

    // Listing shows the one task at position 1 with the padded column.
    let out = run(&args(Commands::List), one_list_state(), &contents, now).unwrap();
    assert_eq!(out.output.len(), 1);
    let line = &out.output[0];
    let expected_head = format!("1: {:<50} [", "Buy milk");
    assert!(line.starts_with(&expected_head), "line was: {line}");
    assert!(line.ends_with(']'));

    // Completing position 1 marks the task; reloading shows it complete.
    let out = run(&args(Commands::Done { position: 1 }), one_list_state(), &contents, now).unwrap();
    let completed = out.new_list_contents.unwrap();
    let reloaded = load_tasks(&completed).unwrap();
    assert_eq!(reloaded.len(), 1);
    assert!(reloaded[0].complete);
    assert_eq!(reloaded[0].text, "Buy milk");
    assert_eq!(reloaded[0].created_at, now);

    // Completing position 2 is out of range for a one-task list.
    let r = run(&args(Commands::Done { position: 2 }), one_list_state(), &completed, now);
    assert!(matches!(r, Err(ErrorKind::InvalidPosition { valid_up_to: 1, given: 2 })));
}

#[test]
fn listing_a_missing_file_shows_the_empty_notice() {
    // The caller maps a missing file to empty contents (open-or-create).
    let out = run(&args(Commands::List), one_list_state(), "", 0).unwrap();
    assert_eq!(out.output, vec![String::from("Task list is empty!")]);
    assert!(out.new_list_contents.is_none());
    assert!(out.new_state.is_none());
}

#[test]
fn rejected_completion_leaves_the_file_text_alone() {
    let now: u64 = 5;
    let out = run(&args(Commands::Add { text: String::from("only one") }), one_list_state(), "", now)
        .unwrap();
    let contents = out.new_list_contents.unwrap();
    for bad in [0usize, 2usize] {
        let r = run(&args(Commands::Done { position: bad }), one_list_state(), &contents, now);
        assert!(
            matches!(r, Err(ErrorKind::InvalidPosition { valid_up_to: 1, given }) if given == bad)
        );
        // Nothing to write: the caller leaves the file byte for byte as it was.
    }
}

#[test]
fn activate_selects_a_known_list() {
    let state = State {
        active_list: None,
        list_index: vec![
            ListEntry { name: String::from("home"), path: String::from("h.json") },
            ListEntry { name: String::from("work"), path: String::from("w.json") },
        ],
    };
    let out = run(&args(Commands::Activate { key: String::from("work") }), state, "", 0).unwrap();
    let st = out.new_state.expect("activation rewrites the state");
    assert_eq!(st.active_list, Some(String::from("work")));
    assert_eq!(st.list_index.len(), 2);
    assert!(out.new_list_contents.is_none());
    assert!(out.output.is_empty());
}

#[test]
fn activate_unknown_list_fails() {
    let r = run(
        &args(Commands::Activate { key: String::from("nonexistent") }),
        one_list_state(),
        "",
        0,
    );
    assert!(matches!(r, Err(ErrorKind::UnknownList)));
}

#[test]
fn task_commands_need_a_resolvable_list() {
    let adrift = State { active_list: None, list_index: Vec::new() };
    let r = run(&args(Commands::Add { text: String::from("x") }), adrift, "", 0);
    assert!(matches!(r, Err(ErrorKind::NoActiveList)));
    let adrift = State { active_list: Some(String::from("gone")), list_index: Vec::new() };
    let r = run(&args(Commands::List), adrift, "", 0);
    assert!(matches!(r, Err(ErrorKind::NoActiveList)));
}

#[test]
fn a_requested_known_list_overrides_the_active_one() {
    let state = State {
        active_list: Some(String::from("home")),
        list_index: vec![
            ListEntry { name: String::from("home"), path: String::from("h.json") },
            ListEntry { name: String::from("work"), path: String::from("w.json") },
        ],
    };
    let chosen = rs_todo::resolve_target_path(&state, &Some(String::from("work")));
    assert_eq!(chosen, Some(String::from("w.json")));
    let fallback = rs_todo::resolve_target_path(&state, &Some(String::from("unknown")));
    assert_eq!(fallback, Some(String::from("h.json")));
    let plain = rs_todo::resolve_target_path(&state, &None);
    assert_eq!(plain, Some(String::from("h.json")));
}

#[test]
fn corrupt_task_data_stops_every_command() {
    let garbage = "not a task list";
    for command in [
        Commands::Add { text: String::from("x") },
        Commands::Done { position: 1 },
        Commands::List,
    ] {
        let r = run(&args(command), one_list_state(), garbage, 0);
        assert!(matches!(r, Err(ErrorKind::MalformedData)));
    }
}

#[test]
fn current_timestamp_is_recent() {
    let before = chrono::Utc::now().timestamp() as u64;
    let now = rs_todo::current_timestamp();
    let after = chrono::Utc::now().timestamp() as u64;
    assert!(now >= before && now <= after);
}
