//! A task tracker that keeps its tasks in one text file: the records and the
//! operations on them, the text form in which they are stored, and a small
//! calendar that stamps them.

use vstd::prelude::*;
use crate::text::{chars_of, equals_str};

pub mod codec;
pub mod datetime;
pub mod decimal;
pub mod roundtrip;
pub mod task;
pub mod text;

verus! {

/// The stage of a task.
#[derive(Clone, Copy, Debug, PartialEq, Eq, Structural)]
pub enum Status {
    Todo,
    InProgress,
    Done,
}

/// What a caller asks of the task store.
#[derive(Debug)]
pub enum Command {
    Add(String),
    Update(u32, String),
    Delete(u32),
    Mark(Status, u32),
    List(Option<Status>),
    /// A request that was not understood: nothing is to be done.
    Nothing,
}

impl Clone for Command {
    fn clone(&self) -> (r: Self)
        ensures
            r == *self,
    {
        match self {
            Command::Add(description) => Command::Add(description.clone()),
            Command::Update(id, description) => Command::Update(*id, description.clone()),
            Command::Delete(id) => Command::Delete(*id),
            Command::Mark(status, id) => Command::Mark(*status, *id),
            Command::List(status) => Command::List(*status),
            Command::Nothing => Command::Nothing,
        }
    }
}

impl Default for Status {
    fn default() -> (r: Self)
        ensures
            r == Status::Todo,
    {
        Status::Todo
    }
}

impl Status {
    /// The word that stands for a status in text.
    pub open spec fn token(self) -> Seq<char> {
        match self {
            Status::Todo => "todo"@,
            Status::InProgress => "in-progress"@,
            Status::Done => "done"@,
        }
    }

    /// The status that a word stands for, if it is one of the three.
    pub open spec fn of_token(word: Seq<char>) -> Option<Status> {
        if word == "todo"@ {
            Some(Status::Todo)
        } else if word == "in-progress"@ {
            Some(Status::InProgress)
        } else if word == "done"@ {
            Some(Status::Done)
        } else {
            None
        }
    }

    /// Each status is what its own word stands for.
    pub proof fn lemma_token_round_trip(self)
        ensures
            Status::of_token(self.token()) == Some(self),
    {
        reveal_strlit("todo");
        reveal_strlit("in-progress");
        reveal_strlit("done");
        assert("todo"@.len() == 4 && "in-progress"@.len() == 11 && "done"@.len() == 4);
        assert("todo"@[0] == 't' && "done"@[0] == 'd');
    }

    /// The status that `word` stands for, or `None` for any other word.
    pub fn from_chars(word: &Vec<char>) -> (r: Option<Status>)
        ensures
            r == Status::of_token(word@),
    {
        if equals_str(word, "todo") {
            Some(Status::Todo)
        } else if equals_str(word, "in-progress") {
            Some(Status::InProgress)
        } else if equals_str(word, "done") {
            Some(Status::Done)
        } else {
            None
        }
    }

    /// The status that `word` stands for, or `None` for any other word.
    pub fn parse(word: &str) -> (r: Option<Status>)
        ensures
            r == Status::of_token(word@),
    {
        let chars = chars_of(word);
        Status::from_chars(&chars)
    }

    /// The status that `status` stands for. The word must be one of `todo`,
    /// `in-progress` and `done`.
    pub fn from(status: &str) -> (r: Status)
        requires
            Status::of_token(status@) is Some,
        ensures
            Status::of_token(status@) == Some(r),
    {
        let chars = chars_of(status);
        if equals_str(&chars, "todo") {
            Status::Todo
        } else if equals_str(&chars, "in-progress") {
            Status::InProgress
        } else {
            Status::Done
        }
    }

    /// The word that stands for this status.
    pub fn as_str(&self) -> (word: &'static str)
        ensures
            word@ == self.token(),
    {
        match self {
            Status::Todo => "todo",
            Status::InProgress => "in-progress",
            Status::Done => "done",
        }
    }
}

} // verus!
