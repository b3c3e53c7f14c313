use task_cli::datetime::DateTime;
use task_cli::task::{Outcome, Task, Tasks};
use task_cli::{Command, Status};

fn t1() -> DateTime {
    DateTime::new(2024, 2, 29, 1, 2, 3)
}

fn t2() -> DateTime {
    DateTime::new(2024, 2, 29, 1, 2, 4)
}

fn t3() -> DateTime {
    DateTime::new(2025, 1, 1, 0, 0, 0)
}

fn tasks_of(store: &Tasks) -> Vec<Task> {
    (0..store.len()).map(|i| store.get(i).clone()).collect()
}

fn ids_of(store: &Tasks) -> Vec<u32> {
    (0..store.len()).map(|i| store.get(i).id()).collect()
}

fn three() -> Tasks {
    let mut store = Tasks::new();
    store.add(String::from("one"), t1());
    store.add(String::from("two"), t1());
    store.add(String::from("three"), t1());
    store
}

#[test]
fn a_new_store_is_empty() {
    let store = Tasks::new();
    assert_eq!(store.len(), 0);
    assert_eq!(store.last_id(), 0);
    assert_eq!(store.locate(1), None);
}

#[test]
fn the_first_task_gets_the_id_one() {
    let mut store = Tasks::new();
    assert_eq!(store.add(String::from("buy milk"), t1()), 1);
    assert_eq!(
        tasks_of(&store),
        vec![Task::new(1, String::from("buy milk"), Status::Todo, t1(), t1())]
    );
}

#[test]
fn each_task_gets_the_id_after_the_last() {
    let mut store = three();
    assert_eq!(ids_of(&store), vec![1, 2, 3]);
    assert_eq!(store.last_id(), 3);
    assert_eq!(store.add(String::from("four"), t2()), 4);
    assert_eq!(ids_of(&store), vec![1, 2, 3, 4]);
}

#[test]
fn a_gap_in_the_ids_is_not_filled() {
    let mut store = three();
    assert!(store.delete(2));
    assert_eq!(store.add(String::from("four"), t2()), 4);
    assert_eq!(ids_of(&store), vec![1, 3, 4]);
    assert!(store.delete(1));
    assert_eq!(store.add(String::from("five"), t2()), 5);
    assert_eq!(ids_of(&store), vec![3, 4, 5]);
}

#[test]
fn the_id_of_a_removed_last_task_is_given_again() {
    let mut store = three();
    assert!(store.delete(3));
    assert_eq!(store.add(String::from("again"), t2()), 3);
    assert!(store.delete(3));
    assert!(store.delete(2));
    assert!(store.delete(1));
    assert_eq!(store.add(String::from("anew"), t2()), 1);
}

#[test]
fn the_next_id_follows_the_last_task_not_the_greatest() {
    let mut store = Tasks::from_vec(vec![
        Task::new(9, String::from("nine"), Status::Todo, t1(), t1()),
        Task::new(4, String::from("four"), Status::Todo, t1(), t1()),
    ]);
    assert_eq!(store.add(String::from("next"), t2()), 5);
}

#[test]
fn the_greatest_id_but_one_can_still_be_followed() {
    let mut store = Tasks::from_vec(vec![Task::new(
        u32::MAX - 1,
        String::from("late"),
        Status::Todo,
        t1(),
        t1(),
    )]);
    assert_eq!(store.add(String::from("last"), t2()), u32::MAX);
}

#[test]
fn update_changes_the_description_and_the_time_of_change() {
    let mut store = three();
    assert!(store.update(2, String::from("zwei"), t2()));
    assert_eq!(
        tasks_of(&store),
        vec![
            Task::new(1, String::from("one"), Status::Todo, t1(), t1()),
            Task::new(2, String::from("zwei"), Status::Todo, t1(), t2()),
            Task::new(3, String::from("three"), Status::Todo, t1(), t1()),
        ]
    );
}

#[test]
fn mark_changes_the_status_and_the_time_of_change() {
    let mut store = three();
    assert!(store.mark(Status::InProgress, 3, t2()));
    assert!(store.mark(Status::Done, 1, t3()));
    assert_eq!(
        tasks_of(&store),
        vec![
            Task::new(1, String::from("one"), Status::Done, t1(), t3()),
            Task::new(2, String::from("two"), Status::Todo, t1(), t1()),
            Task::new(3, String::from("three"), Status::InProgress, t1(), t2()),
        ]
    );
}

#[test]
fn delete_keeps_the_order_of_the_others() {
    let mut store = three();
    store.add(String::from("four"), t1());
    assert!(store.delete(2));
    assert_eq!(ids_of(&store), vec![1, 3, 4]);
    assert!(store.delete(4));
    assert_eq!(ids_of(&store), vec![1, 3]);
    assert!(store.delete(1));
    assert_eq!(ids_of(&store), vec![3]);
    assert!(store.delete(3));
    assert_eq!(store.len(), 0);
}

#[test]
fn an_unknown_id_changes_nothing() {
    let mut store = three();
    let before = tasks_of(&store);
    assert!(!store.update(7, String::from("seven"), t2()));
    assert_eq!(tasks_of(&store), before);
    assert!(!store.delete(7));
    assert_eq!(tasks_of(&store), before);
    assert!(!store.mark(Status::Done, 7, t2()));
    assert_eq!(tasks_of(&store), before);
    assert!(!store.delete(0));
    assert_eq!(tasks_of(&store), before);
}

#[test]
fn an_unknown_id_is_reported_as_not_found() {
    let mut store = three();
    let before = tasks_of(&store);
    for command in [
        Command::Update(7, String::from("seven")),
        Command::Delete(7),
        Command::Mark(Status::Done, 7),
    ] {
        let outcome = store.apply(command, t2());
        assert_eq!(outcome, Outcome::NotFound(7));
        assert_eq!(outcome.lines(), vec![String::from("Task(ID: 7) does not exist")]);
        assert_eq!(tasks_of(&store), before);
    }
}

#[test]
fn an_empty_store_knows_no_id() {
    let mut store = Tasks::new();
    assert!(!store.update(1, String::from("x"), t1()));
    assert!(!store.delete(1));
    assert!(!store.mark(Status::Done, 1, t1()));
    assert_eq!(store.len(), 0);
}

#[test]
fn of_two_tasks_with_one_id_the_first_is_meant() {
    let twice = || {
        Tasks::from_vec(vec![
            Task::new(1, String::from("a"), Status::Todo, t1(), t1()),
            Task::new(5, String::from("b"), Status::Todo, t1(), t1()),
            Task::new(5, String::from("c"), Status::Todo, t1(), t1()),
        ])
    };
    let mut store = twice();
    assert_eq!(store.locate(5), Some(1));
    assert!(store.update(5, String::from("B"), t2()));
    assert_eq!(store.get(1).description(), "B");
    assert_eq!(store.get(2).description(), "c");
    let mut store = twice();
    assert!(store.mark(Status::Done, 5, t2()));
    assert_eq!(store.get(1).status(), Status::Done);
    assert_eq!(store.get(2).status(), Status::Todo);
    let mut store = twice();
    assert!(store.delete(5));
    assert_eq!(store.len(), 2);
    assert_eq!(store.get(1).description(), "c");
}

#[test]
fn a_listing_shows_the_tasks_with_the_status_in_order() {
    let mut store = three();
    store.add(String::from("four"), t1());
    store.mark(Status::Done, 4, t2());
    store.mark(Status::Done, 1, t3());
    store.mark(Status::InProgress, 2, t2());
    assert_eq!(
        store.list(Some(Status::Done)),
        vec![
            String::from("ID: 1 description: one status: done created at: 2024-02-29T01:02:03Z updated at: 2025-01-01T00:00:00Z"),
            String::from("ID: 4 description: four status: done created at: 2024-02-29T01:02:03Z updated at: 2024-02-29T01:02:04Z"),
        ]
    );
    assert_eq!(
        store.list(Some(Status::InProgress)),
        vec![String::from("ID: 2 description: two status: in-progress created at: 2024-02-29T01:02:03Z updated at: 2024-02-29T01:02:04Z")]
    );
    assert_eq!(
        store.list(Some(Status::Todo)),
        vec![String::from("ID: 3 description: three status: todo created at: 2024-02-29T01:02:03Z updated at: 2024-02-29T01:02:03Z")]
    );
}

#[test]
fn a_listing_without_a_status_shows_every_task() {
    let mut store = three();
    store.mark(Status::Done, 2, t2());
    let lines = store.list(None);
    assert_eq!(lines.len(), 3);
    assert!(lines[0].starts_with("ID: 1 description: one status: todo "));
    assert!(lines[1].starts_with("ID: 2 description: two status: done "));
    assert!(lines[2].starts_with("ID: 3 description: three status: todo "));
}

#[test]
fn a_listing_of_nothing_is_empty() {
    assert_eq!(Tasks::new().list(None), Vec::<String>::new());
    assert_eq!(Tasks::new().list(Some(Status::Todo)), Vec::<String>::new());
    assert_eq!(three().list(Some(Status::Done)), Vec::<String>::new());
}

#[test]
fn a_listing_changes_nothing() {
    let mut store = three();
    let before = tasks_of(&store);
    let outcome = store.apply(Command::List(Some(Status::Todo)), t3());
    assert_eq!(tasks_of(&store), before);
    match outcome {
        Outcome::Listed(lines) => assert_eq!(lines.len(), 3),
        other => panic!("{:?}", other),
    }
    assert_eq!(store.apply(Command::Nothing, t3()), Outcome::Nothing);
    assert_eq!(tasks_of(&store), before);
}

#[test]
fn each_command_tells_what_it_came_to() {
    let mut store = Tasks::new();
    let outcome = store.apply(Command::Add(String::from("buy milk")), t1());
    assert_eq!(outcome, Outcome::Added(1));
    assert_eq!(outcome.lines(), vec![String::from("Task(ID: 1) added successfully")]);

    let outcome = store.apply(Command::Update(1, String::from("buy oat milk")), t2());
    assert_eq!(outcome, Outcome::Updated(1, String::from("buy oat milk")));
    assert_eq!(outcome.lines(), vec![String::from("Task(ID: 1) updated to: buy oat milk")]);
    assert_eq!(store.get(0).description(), "buy oat milk");

    let outcome = store.apply(Command::Mark(Status::InProgress, 1), t2());
    assert_eq!(outcome, Outcome::Marked(1, Status::InProgress));
    assert_eq!(outcome.lines(), vec![String::from("Task(ID: 1) marked as: in-progress")]);
    assert_eq!(store.get(0).status(), Status::InProgress);

    let outcome = store.apply(Command::List(None), t2());
    let expected = vec![String::from(
        "ID: 1 description: buy oat milk status: in-progress created at: 2024-02-29T01:02:03Z updated at: 2024-02-29T01:02:04Z",
    )];
    assert_eq!(outcome, Outcome::Listed(expected.clone()));
    assert_eq!(outcome.lines(), expected);

    let outcome = store.apply(Command::Delete(1), t3());
    assert_eq!(outcome, Outcome::Deleted(1));
    assert_eq!(outcome.lines(), vec![String::from("Task(ID: 1) deleted successfully")]);
    assert_eq!(store.len(), 0);

    let outcome = store.apply(Command::Nothing, t3());
    assert_eq!(outcome.lines(), Vec::<String>::new());
}

#[test]
fn large_ids_are_written_in_full() {
    assert_eq!(
        Outcome::NotFound(4_294_967_295).lines(),
        vec![String::from("Task(ID: 4294967295) does not exist")]
    );
    assert_eq!(Outcome::Deleted(0).lines(), vec![String::from("Task(ID: 0) deleted successfully")]);
    assert_eq!(
        Outcome::Marked(10, Status::Todo).lines(),
        vec![String::from("Task(ID: 10) marked as: todo")]
    );
    assert_eq!(
        Outcome::Marked(10, Status::Done).lines(),
        vec![String::from("Task(ID: 10) marked as: done")]
    );
}

#[test]
fn from_an_empty_store_to_a_done_task() {
    let mut store = Tasks::new();
    store.apply(Command::Add(String::from("buy milk")), t1());
    assert_eq!(store.len(), 1);
    let task = store.get(0).clone();
    assert_eq!(task.id(), 1);
    assert_eq!(task.description(), "buy milk");
    assert_eq!(task.status(), Status::Todo);
    assert_eq!(task.created_at(), task.updated_at());

    store.apply(Command::Mark(Status::Done, 1), t2());
    let task = store.get(0).clone();
    assert_eq!(task.status(), Status::Done);
    assert_eq!(task.created_at(), t1());
    assert!(task.created_at().not_after(&task.updated_at()));

    assert_eq!(
        store.list(Some(Status::Done)),
        vec![String::from("ID: 1 description: buy milk status: done created at: 2024-02-29T01:02:03Z updated at: 2024-02-29T01:02:04Z")]
    );
    assert_eq!(store.list(Some(Status::Todo)), Vec::<String>::new());
}

#[test]
fn process_stamps_the_task_and_hands_back_the_text() {
    let mut store = Tasks::new();
    let done = store.process(Command::Add(String::from("buy milk")));
    assert_eq!(done.outcome, Outcome::Added(1));
    assert_eq!(store.len(), 1);
    assert_eq!(store.get(0).created_at(), done.stamp);
    assert_eq!(store.get(0).updated_at(), done.stamp);
    assert_eq!(done.contents, store.to_contents());

    let done = store.process(Command::Mark(Status::Done, 1));
    assert_eq!(done.outcome, Outcome::Marked(1, Status::Done));
    assert_eq!(store.get(0).updated_at(), done.stamp);
    assert_eq!(done.contents, store.to_contents());
}

#[test]
fn process_writes_the_text_for_every_command() {
    let mut store = three();
    let text = store.to_contents();
    let done = store.process(Command::List(None));
    assert_eq!(done.contents, text);
    let done = store.process(Command::Nothing);
    assert_eq!(done.outcome, Outcome::Nothing);
    assert_eq!(done.contents, text);
    let done = store.process(Command::Delete(9));
    assert_eq!(done.outcome, Outcome::NotFound(9));
    assert_eq!(done.contents, text);
}

#[test]
fn timestamps_are_ordered_field_by_field() {
    assert!(t1().not_after(&t1()));
    assert!(t1().not_after(&t2()));
    assert!(!t2().not_after(&t1()));
    assert!(t2().not_after(&t3()));
    assert!(!t3().not_after(&t1()));
    assert!(DateTime::default().not_after(&t1()));
    assert!(DateTime::new(2024, 1, 31, 23, 59, 59).not_after(&DateTime::new(2024, 2, 1, 0, 0, 0)));
    assert!(!DateTime::new(2024, 2, 1, 0, 0, 0).not_after(&DateTime::new(2024, 1, 31, 23, 59, 59)));
    assert!(DateTime::new(2024, 1, 1, 0, 59, 59).not_after(&DateTime::new(2024, 1, 1, 1, 0, 0)));
    assert!(DateTime::new(2024, 1, 1, 0, 0, 59).not_after(&DateTime::new(2024, 1, 1, 0, 1, 0)));
}

#[test]
fn a_status_has_one_word() {
    assert_eq!(Status::Todo.as_str(), "todo");
    assert_eq!(Status::InProgress.as_str(), "in-progress");
    assert_eq!(Status::Done.as_str(), "done");
    assert_eq!(Status::default(), Status::Todo);
}

#[test]
fn a_status_word_names_its_status() {
    assert_eq!(Status::from("todo"), Status::Todo);
    assert_eq!(Status::from("in-progress"), Status::InProgress);
    assert_eq!(Status::from("done"), Status::Done);
    for status in [Status::Todo, Status::InProgress, Status::Done] {
        assert_eq!(Status::parse(status.as_str()), Some(status));
        assert_eq!(Status::from(status.as_str()), status);
    }
}

#[test]
fn other_words_name_no_status() {
    for word in ["", "Todo", "to-do", "in progress", "inprogress", "done ", " done", "don", "donee"] {
        assert_eq!(Status::parse(word), None, "{:?}", word);
    }
    let chars: Vec<char> = "done".chars().collect();
    assert_eq!(Status::from_chars(&chars), Some(Status::Done));
}
