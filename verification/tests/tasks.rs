use rs_todo::{add_task, complete_task, create, ErrorKind, Task, TaskList};

fn sample_list() -> TaskList {
    vec![
        Task { text: String::from("alpha"), created_at: 100, complete: false },
        Task { text: String::from("beta"), created_at: 200, complete: false },
        Task { text: String::from("gamma"), created_at: 300, complete: true },
    ]
}

#[test]
fn add_appends_at_the_end() {
    let mut list = sample_list();
    add_task(&mut list, Task { text: String::from("delta"), created_at: 400, complete: false });
    assert_eq!(list.len(), 4);
    assert_eq!(list[3].text, "delta");
    assert_eq!(list[3].created_at, 400);
    assert!(!list[3].complete);
    assert_eq!(list[0].text, "alpha");
    assert_eq!(list[2].text, "gamma");
}

#[test]
fn complete_sets_exactly_the_addressed_task() {
    for p in 1..=3usize {
        let mut list = sample_list();
        let before: Vec<(String, u64, bool)> =
            list.iter().map(|t| (t.text.clone(), t.created_at, t.complete)).collect();
        assert!(complete_task(&mut list, p).is_ok());
        for (i, t) in list.iter().enumerate() {
            assert_eq!(t.text, before[i].0);
            assert_eq!(t.created_at, before[i].1);
            if i == p - 1 {
                assert!(t.complete);
            } else {
                assert_eq!(t.complete, before[i].2);
            }
        }
    }
}

#[test]
fn complete_rejects_zero_and_past_the_end() {
    for bad in [0usize, 4usize] {
        let mut list = sample_list();
        let r = complete_task(&mut list, bad);
        assert_eq!(r, Err(ErrorKind::InvalidPosition { valid_up_to: 3, given: bad }));
        assert_eq!(list.len(), 3);
        assert!(!list[0].complete);
        assert!(!list[1].complete);
        assert!(list[2].complete);
        assert_eq!(list[0].text, "alpha");
        assert_eq!(list[1].created_at, 200);
    }
}

#[test]
fn complete_on_empty_list_rejects_one() {
    let mut list: TaskList = Vec::new();
    let r = complete_task(&mut list, 1);
    assert_eq!(r, Err(ErrorKind::InvalidPosition { valid_up_to: 0, given: 1 }));
    assert!(list.is_empty());
}

#[test]
fn new_tasks_start_incomplete_and_carry_their_text() {
    let t = Task::new(String::from("water the plants"));
    assert_eq!(t.text, "water the plants");
    assert!(!t.complete);
    let u = create(String::from("second"));
    assert_eq!(u.text, "second");
    assert!(!u.complete);
}

#[test]
fn new_task_is_stamped_with_the_current_time() {
    let before = chrono::Utc::now().timestamp();
    let t = Task::new(String::from("timed"));
    let after = chrono::Utc::now().timestamp();
    assert!(before >= 0 && after >= 0);
    assert!(t.created_at >= before as u64);
    assert!(t.created_at <= after as u64);
}
