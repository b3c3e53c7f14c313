use task_cli::codec::{read_tasks, write_tasks, ParseError};
use task_cli::datetime::{DateTime, FormatError};
use task_cli::task::{Task, Tasks};
use task_cli::Status;

fn stamp() -> DateTime {
    DateTime::new(2024, 2, 29, 1, 2, 3)
}

fn later() -> DateTime {
    DateTime::new(2024, 3, 1, 12, 0, 0)
}

fn two_tasks() -> Vec<Task> {
    vec![
        Task::new(1, String::from("buy milk"), Status::Todo, stamp(), stamp()),
        Task::new(2, String::from("walk the dog"), Status::Done, stamp(), later()),
    ]
}

fn tasks_of(store: &Tasks) -> Vec<Task> {
    (0..store.len()).map(|i| store.get(i).clone()).collect()
}

fn decode(text: &str) -> Result<Vec<Task>, ParseError> {
    Tasks::from_contents(String::from(text)).map(|store| tasks_of(&store))
}

const TWO_TASKS: &str = "[\n  {\n    \"id\" : 1,\n    \"description\" : \"buy milk\",\n    \"status\" : \"todo\",\n    \"createdAt\" : \"2024-02-29T01:02:03Z\",\n    \"updatedAt\" : \"2024-02-29T01:02:03Z\"\n  },\n  {\n    \"id\" : 2,\n    \"description\" : \"walk the dog\",\n    \"status\" : \"done\",\n    \"createdAt\" : \"2024-02-29T01:02:03Z\",\n    \"updatedAt\" : \"2024-03-01T12:00:00Z\"\n  }\n]";

#[test]
fn an_empty_store_is_two_brackets() {
    assert_eq!(Tasks::new().to_contents(), "[\n]");
}

#[test]
fn one_task_is_written_as_seven_lines_between_brackets() {
    let store = Tasks::from_vec(vec![Task::new(
        7,
        String::from("in progress"),
        Status::InProgress,
        stamp(),
        later(),
    )]);
    let expected = "[\n  {\n    \"id\" : 7,\n    \"description\" : \"in progress\",\n    \"status\" : \"in-progress\",\n    \"createdAt\" : \"2024-02-29T01:02:03Z\",\n    \"updatedAt\" : \"2024-03-01T12:00:00Z\"\n  }\n]";
    assert_eq!(store.to_contents(), expected);
}

#[test]
fn a_comma_stands_between_two_tasks() {
    assert_eq!(Tasks::from_vec(two_tasks()).to_contents(), TWO_TASKS);
}

#[test]
fn write_tasks_gives_the_characters_of_the_text() {
    let chars = write_tasks(&two_tasks());
    assert_eq!(chars.iter().collect::<String>(), TWO_TASKS);
}

#[test]
fn read_tasks_reads_characters() {
    let chars: Vec<char> = TWO_TASKS.chars().collect();
    assert_eq!(read_tasks(&chars), Ok(two_tasks()));
}

#[test]
fn reading_gives_back_what_was_written() {
    assert_eq!(decode(TWO_TASKS), Ok(two_tasks()));
    let written = Tasks::from_vec(two_tasks()).to_contents();
    assert_eq!(decode(&written), Ok(two_tasks()));
}

#[test]
fn from_reads_as_from_contents_does() {
    let store = Tasks::from(String::from(TWO_TASKS)).unwrap();
    assert_eq!(tasks_of(&store), two_tasks());
    assert!(Tasks::from(String::from("nonsense")).is_err());
}

#[test]
fn an_empty_store_comes_back_empty() {
    let written = Tasks::new().to_contents();
    assert_eq!(decode(&written), Ok(vec![]));
}

#[test]
fn writing_again_gives_the_same_text() {
    let first = Tasks::from_vec(two_tasks()).to_contents();
    let second = Tasks::from_contents(first.clone()).unwrap().to_contents();
    assert_eq!(first, second);
    let third = Tasks::from_contents(second.clone()).unwrap().to_contents();
    assert_eq!(second, third);
}

#[test]
fn descriptions_with_odd_characters_come_back() {
    for description in [
        "",
        " ",
        "  padded  ",
        "a, b, c,",
        "colon: inside",
        "quote \" inside",
        "tab\tand\rreturn",
        "{",
        "},",
        "[",
        "gr\u{fc}\u{df}e \u{1f600}",
        "\u{a0}",
        "'single'",
    ] {
        let task = Task::new(3, String::from(description), Status::Todo, stamp(), later());
        let written = Tasks::from_vec(vec![task.clone()]).to_contents();
        assert_eq!(decode(&written), Ok(vec![task]), "{:?}", description);
    }
}

#[test]
fn every_id_comes_back() {
    for id in [0u32, 1, 9, 10, 4_294_967_295] {
        let task = Task::new(id, String::from("x"), Status::Done, stamp(), stamp());
        let written = Tasks::from_vec(vec![task.clone()]).to_contents();
        assert_eq!(decode(&written), Ok(vec![task]));
    }
}

#[test]
fn a_description_with_a_separator_is_cut_there() {
    let task = Task::new(1, String::from("left : right"), Status::Todo, stamp(), stamp());
    let written = Tasks::from_vec(vec![task]).to_contents();
    let read = decode(&written).unwrap();
    assert_eq!(read.len(), 1);
    assert_eq!(read[0].description(), "left");
}

#[test]
fn a_description_loses_the_quotes_at_its_ends() {
    let task = Task::new(1, String::from("\"said\""), Status::Todo, stamp(), stamp());
    let written = Tasks::from_vec(vec![task]).to_contents();
    let read = decode(&written).unwrap();
    assert_eq!(read[0].description(), "said");
}

#[test]
fn a_description_with_a_line_feed_does_not_come_back() {
    let task = Task::new(1, String::from("two\nlines"), Status::Todo, stamp(), stamp());
    let written = Tasks::from_vec(vec![task]).to_contents();
    assert_eq!(decode(&written), Err(ParseError::MalformedPair));
}

#[test]
fn empty_and_blank_texts_are_empty_stores() {
    for text in ["", " ", "\n", "\n\n\n", "  \n\t\n ", "\r\n", "\u{a0}\n\u{3000}"] {
        assert_eq!(decode(text), Ok(vec![]), "{:?}", text);
    }
}

#[test]
fn brackets_alone_are_an_empty_store() {
    for text in ["[\n]", "[", "]", "[\n\n]", "\n]", "  [  \n  ]  \n", "]\n[\n]"] {
        assert_eq!(decode(text), Ok(vec![]), "{:?}", text);
    }
}

#[test]
fn blank_lines_and_line_ends_of_other_systems_do_no_harm() {
    let text = TWO_TASKS.replace('\n', "\r\n\r\n");
    assert_eq!(decode(&text), Ok(two_tasks()));
    let text = format!("\n\n{}\n\n", TWO_TASKS);
    assert_eq!(decode(&text), Ok(two_tasks()));
}

#[test]
fn the_blanks_around_a_line_do_not_count() {
    let text = "[\n{\n\"id\" : 4,\n\t\t\"description\" : \"x\",   \n}\n]";
    let read = decode(text).unwrap();
    assert_eq!(read.len(), 1);
    assert_eq!(read[0].id(), 4);
    assert_eq!(read[0].description(), "x");
}

#[test]
fn the_keys_may_come_in_any_order() {
    let text = "[\n  {\n    \"updatedAt\" : \"2024-03-01T12:00:00Z\",\n    \"status\" : \"done\",\n    \"createdAt\" : \"2024-02-29T01:02:03Z\",\n    \"description\" : \"walk the dog\",\n    \"id\" : 2\n  }\n]";
    assert_eq!(decode(text), Ok(vec![two_tasks().remove(1)]));
}

#[test]
fn a_missing_key_leaves_its_field_zero() {
    let read = decode("{\n\"description\" : \"only this\"\n}").unwrap();
    assert_eq!(
        read,
        vec![Task::new(
            0,
            String::from("only this"),
            Status::Todo,
            DateTime::default(),
            DateTime::default()
        )]
    );
    assert_eq!(decode("{\n}"), Ok(vec![Task::default()]));
}

#[test]
fn an_unknown_key_is_passed_over() {
    let text = "{\n\"id\" : 5,\n\"priority\" : \"high\",\n\"ID\" : 6,\n\"\" : 7,\n}";
    let read = decode(text).unwrap();
    assert_eq!(read.len(), 1);
    assert_eq!(read[0].id(), 5);
}

#[test]
fn a_key_set_twice_keeps_the_later_value() {
    let read = decode("{\n\"id\" : 5,\n\"id\" : 6,\n}").unwrap();
    assert_eq!(read[0].id(), 6);
}

#[test]
fn an_opening_brace_clears_every_field() {
    let text = "{\n\"id\" : 5,\n\"description\" : \"a\",\n\"status\" : \"done\",\n},\n{\n}";
    let read = decode(text).unwrap();
    assert_eq!(read.len(), 2);
    assert_eq!(read[0].id(), 5);
    assert_eq!(read[1], Task::default());
}

#[test]
fn without_an_opening_brace_the_fields_stay() {
    let text = "{\n\"id\" : 5,\n\"description\" : \"a\",\n},\n\"id\" : 6,\n}\n}";
    let read = decode(text).unwrap();
    assert_eq!(read.len(), 3);
    assert_eq!((read[0].id(), read[0].description()), (5, "a"));
    assert_eq!((read[1].id(), read[1].description()), (6, "a"));
    assert_eq!(read[1], read[2]);
}

#[test]
fn a_task_without_a_closing_brace_is_not_kept() {
    assert_eq!(decode("[\n{\n\"id\" : 5,\n]"), Ok(vec![]));
}

#[test]
fn a_value_ends_at_the_second_separator() {
    let read = decode("{\n\"description\" : \"a\" : \"b\",\n}").unwrap();
    assert_eq!(read[0].description(), "a");
    let read = decode("{\n\"id\" : 12 : 13,\n}").unwrap();
    assert_eq!(read[0].id(), 12);
}

#[test]
fn commas_and_quotes_around_a_value_go() {
    let read = decode("{\n\"description\" : \"\"\"a\"b\"\"\",,,\n}").unwrap();
    assert_eq!(read[0].description(), "a\"b");
    let read = decode("{\n\"id\" : \"12\",\n}").unwrap();
    assert_eq!(read[0].id(), 12);
    let read = decode("{\n\"\"id\"\" : +12,,\n}").unwrap();
    assert_eq!(read[0].id(), 12);
    let read = decode("{\nstatus : done\n}").unwrap();
    assert_eq!(read[0].status(), Status::Done);
}

#[test]
fn a_line_without_a_separator_is_malformed() {
    for text in ["nonsense", "{\n\"id\": 5\n}", "[\n{\n\"id\" :5\n}\n]", "{ }", "[]", "\"id\" :", ","] {
        assert_eq!(decode(text), Err(ParseError::MalformedPair), "{:?}", text);
    }
}

#[test]
fn an_id_that_is_no_number_is_invalid() {
    for value in ["x", "", "-1", "1.5", "4294967296", "1 2", "0x10", "+"] {
        let text = format!("{{\n\"id\" : {},\n}}", value);
        assert_eq!(decode(&text), Err(ParseError::InvalidId), "{:?}", value);
    }
}

#[test]
fn a_status_that_is_no_status_word_is_unknown() {
    for value in ["", "Todo", "DONE", "in progress", "finished", "todo "] {
        let text = format!("{{\n\"status\" : \"{}\",\n}}", value);
        assert_eq!(decode(&text), Err(ParseError::UnknownStatus), "{:?}", value);
    }
}

#[test]
fn a_timestamp_that_is_too_short_is_invalid() {
    for key in ["createdAt", "updatedAt"] {
        let text = format!("{{\n\"{}\" : \"2024-02-29\",\n}}", key);
        assert_eq!(decode(&text), Err(ParseError::InvalidTimestamp(FormatError::TooShort)));
    }
}

#[test]
fn a_timestamp_with_a_bad_field_is_invalid() {
    for key in ["createdAt", "updatedAt"] {
        let text = format!("{{\n\"{}\" : \"2024-02-29T01:xx:03Z\",\n}}", key);
        assert_eq!(decode(&text), Err(ParseError::InvalidTimestamp(FormatError::Malformed)));
    }
}

#[test]
fn the_first_bad_line_gives_the_error() {
    let text = "{\n\"status\" : \"never\",\n\"id\" : x,\nnonsense\n}";
    assert_eq!(decode(text), Err(ParseError::UnknownStatus));
    let text = "{\n\"id\" : x,\n\"status\" : \"never\",\nnonsense\n}";
    assert_eq!(decode(text), Err(ParseError::InvalidId));
    let text = "{\n\"id\" : 1,\n}\nnonsense\n\"id\" : x,";
    assert_eq!(decode(text), Err(ParseError::MalformedPair));
}

#[test]
fn timestamps_out_of_the_calendar_are_read_as_they_stand() {
    let text = "{\n\"createdAt\" : \"2024-13-40T99:99:99Z\",\n}";
    let read = decode(text).unwrap();
    assert_eq!(read[0].created_at(), DateTime::new(2024, 13, 40, 99, 99, 99));
}
