use rs_todo::{format_stamp, render_all, render_task_line, Task};

#[test]
fn the_epoch_formats_as_its_date() {
    assert_eq!(format_stamp(0, 0), "1970-01-01 00:00");
}

#[test]
fn known_instants_format_as_their_dates() {
    assert_eq!(format_stamp(1_000_000_000, 0), "2001-09-09 01:46");
    assert_eq!(format_stamp(951_782_400, 0), "2000-02-29 00:00");
    assert_eq!(format_stamp(4_102_444_799, 0), "2099-12-31 23:59");
}

#[test]
fn stamps_agree_with_the_calendar() {
    for ts in [1u64, 86_399, 86_400, 1_234_567_890, 2_000_000_000, 4_000_000_000] {
        let expected = chrono::DateTime::from_timestamp(ts as i64, 0)
            .unwrap()
            .format("%F %H:%M")
            .to_string();
        assert_eq!(format_stamp(ts, 0), expected, "timestamp {ts}");
    }
}

#[test]
fn the_offset_shifts_the_wall_clock() {
    assert_eq!(format_stamp(0, 3600), "1970-01-01 01:00");
    assert_eq!(format_stamp(86_400, -60), "1970-01-01 23:59");
    assert_eq!(format_stamp(0, -3600), "1970-01-01 00:00");
}

#[test]
fn a_line_pads_short_text_to_fifty_columns() {
    let task = Task { text: String::from("Buy milk"), created_at: 0, complete: false };
    let line = render_task_line(1, &task, 0);
    let expected = format!("1: {:<50} [{}]", "Buy milk", "1970-01-01 00:00");
    assert_eq!(line, expected);
}

#[test]
fn a_line_keeps_long_text_whole() {
    let long = "x".repeat(60);
    let task = Task { text: long.clone(), created_at: 0, complete: true };
    let line = render_task_line(3, &task, 0);
    let expected = format!("3: {:<50} [{}]", long, "1970-01-01 00:00");
    assert_eq!(line, expected);
    assert!(line.contains(&long));
}

#[test]
fn an_empty_list_renders_as_the_notice() {
    let list: Vec<Task> = Vec::new();
    assert_eq!(render_all(&list, 0), vec![String::from("Task list is empty!")]);
}

#[test]
fn rendering_numbers_every_line_from_one() {
    let list = vec![
        Task { text: String::from("a"), created_at: 0, complete: false },
        Task { text: String::from("b"), created_at: 0, complete: false },
    ];
    let lines = render_all(&list, 0);
    assert_eq!(lines.len(), 2);
    assert!(lines[0].starts_with("1: a"));
    assert!(lines[1].starts_with("2: b"));
}
