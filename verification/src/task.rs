//! The task store: an ordered collection of tasks, and the operations that
//! add, change, remove and list them. Every operation is specified over the
//! sequence of task views that the store stands for.

use vstd::prelude::*;
use crate::codec::{decode, encode, read_tasks, write_tasks, ParseError};
use crate::datetime::{format_iso8601, Civil, DateTime, EPOCH_SECONDS_LIMIT};
use crate::decimal::{decimal, push_decimal};
use crate::roundtrip::{lemma_decode_encode, plain_description, storable};
use crate::text::{chars_of, push_str, string_of};
use crate::{Command, Status};

verus! {

/// What a task holds, as plain values.
pub struct TaskView {
    pub id: nat,
    pub description: Seq<char>,
    pub status: Status,
    pub created_at: Civil,
    pub updated_at: Civil,
}

impl TaskView {
    /// The task with every field at its zero value.
    pub open spec fn blank() -> TaskView {
        TaskView {
            id: 0,
            description: Seq::empty(),
            status: Status::Todo,
            created_at: Civil::zero(),
            updated_at: Civil::zero(),
        }
    }
}

/// A unit of tracked work.
#[derive(Debug, PartialEq, Eq)]
pub struct Task {
    id: u32,
    description: String,
    status: Status,
    created_at: DateTime,
    updated_at: DateTime,
}

impl View for Task {
    type V = TaskView;

    closed spec fn view(&self) -> TaskView {
        TaskView {
            id: self.id as nat,
            description: self.description@,
            status: self.status,
            created_at: self.created_at@,
            updated_at: self.updated_at@,
        }
    }
}

impl Clone for Task {
    fn clone(&self) -> (r: Self)
        ensures
            r@ == self@,
    {
        Task {
            id: self.id,
            description: self.description.clone(),
            status: self.status,
            created_at: self.created_at,
            updated_at: self.updated_at,
        }
    }
}

impl Default for Task {
    fn default() -> (r: Self)
        ensures
            r@ == TaskView::blank(),
    {
        Task {
            id: 0,
            description: String::new(),
            status: Status::Todo,
            created_at: DateTime::default(),
            updated_at: DateTime::default(),
        }
    }
}

impl Task {
    /// A task with the given fields.
    pub fn new(
        id: u32,
        description: String,
        status: Status,
        created_at: DateTime,
        updated_at: DateTime,
    ) -> (r: Self)
        ensures
            r@ == (TaskView {
                id: id as nat,
                description: description@,
                status,
                created_at: created_at@,
                updated_at: updated_at@,
            }),
    {
        Task { id, description, status, created_at, updated_at }
    }

    /// The id, which no other task of the store has.
    pub fn id(&self) -> (r: u32)
        ensures
            r == self@.id,
    {
        self.id
    }

    /// What is to be done.
    pub fn description(&self) -> (r: &str)
        ensures
            r@ == self@.description,
    {
        self.description.as_str()
    }

    /// The stage that the task is in.
    pub fn status(&self) -> (r: Status)
        ensures
            r == self@.status,
    {
        self.status
    }

    /// When the task was made.
    pub fn created_at(&self) -> (r: DateTime)
        ensures
            r@ == self@.created_at,
    {
        self.created_at
    }

    /// When the task was last changed; for a new task, when it was made.
    pub fn updated_at(&self) -> (r: DateTime)
        ensures
            r@ == self@.updated_at,
    {
        self.updated_at
    }
}

/// The views of a sequence of tasks, in order.
pub open spec fn views(tasks: Seq<Task>) -> Seq<TaskView> {
    tasks.map_values(|t: Task| t@)
}

// ---------------------------------------------------------------------------
// The operations, over task views
// ---------------------------------------------------------------------------

/// The id of the last task, or zero for an empty store.
pub open spec fn last_id(tasks: Seq<TaskView>) -> nat {
    if tasks.len() == 0 {
        0
    } else {
        tasks.last().id
    }
}

/// The index of the first task from `from` on that has the id `id`.
pub open spec fn position_from(tasks: Seq<TaskView>, id: nat, from: int) -> Option<int>
    decreases tasks.len() - from,
{
    if from < 0 || from >= tasks.len() {
        None
    } else if tasks[from].id == id {
        Some(from)
    } else {
        position_from(tasks, id, from + 1)
    }
}

/// The index of the first task that has the id `id`.
pub open spec fn position(tasks: Seq<TaskView>, id: nat) -> Option<int> {
    position_from(tasks, id, 0)
}

/// The store after a task was added: the new task comes last, and its id is
/// one more than that of the task before it.
pub open spec fn with_added(tasks: Seq<TaskView>, description: Seq<char>, now: Civil) -> Seq<
    TaskView,
> {
    tasks.push(
        TaskView {
            id: last_id(tasks) + 1,
            description,
            status: Status::Todo,
            created_at: now,
            updated_at: now,
        },
    )
}

/// The store after the first task with the id `id` got a new description.
/// A store without such a task stays as it is.
pub open spec fn with_updated(
    tasks: Seq<TaskView>,
    id: nat,
    description: Seq<char>,
    now: Civil,
) -> Seq<TaskView> {
    match position(tasks, id) {
        Some(i) => tasks.update(i, TaskView { description, updated_at: now, ..tasks[i] }),
        None => tasks,
    }
}

/// The store after the first task with the id `id` left it. A store without
/// such a task stays as it is.
pub open spec fn with_deleted(tasks: Seq<TaskView>, id: nat) -> Seq<TaskView> {
    match position(tasks, id) {
        Some(i) => tasks.remove(i),
        None => tasks,
    }
}

/// The store after the first task with the id `id` got a new status. A store
/// without such a task stays as it is.
pub open spec fn with_marked(tasks: Seq<TaskView>, status: Status, id: nat, now: Civil) -> Seq<
    TaskView,
> {
    match position(tasks, id) {
        Some(i) => tasks.update(i, TaskView { status, updated_at: now, ..tasks[i] }),
        None => tasks,
    }
}

/// Whether the ids grow from each task to the next.
pub open spec fn ids_ascend(tasks: Seq<TaskView>) -> bool {
    forall|i: int, j: int| 0 <= i < j < tasks.len() ==> tasks[i].id < tasks[j].id
}

/// What `position` finds is the first task with the id, and it finds
/// nothing only where no task has the id.
pub proof fn lemma_position(tasks: Seq<TaskView>, id: nat, from: int)
    requires
        0 <= from,
    ensures
        match position_from(tasks, id, from) {
            Some(i) => from <= i < tasks.len() && tasks[i].id == id && forall|j: int|
                from <= j < i ==> tasks[j].id != id,
            None => forall|j: int| from <= j < tasks.len() ==> tasks[j].id != id,
        },
    decreases tasks.len() - from,
{
    if from < tasks.len() && tasks[from].id != id {
        lemma_position(tasks, id, from + 1);
    }
}

/// The test that a task has the status `status`.
pub open spec fn has_status(status: Status) -> spec_fn(TaskView) -> bool {
    |t: TaskView| t.status == status
}

/// The tasks that a listing shows: those with the given status, in the order
/// of the store, or all of them where no status is given.
pub open spec fn selected(tasks: Seq<TaskView>, filter: Option<Status>) -> Seq<TaskView> {
    match filter {
        Some(status) => tasks.filter(has_status(status)),
        None => tasks,
    }
}

/// The line that a listing shows for one task.
pub open spec fn listing_line(t: TaskView) -> Seq<char> {
    "ID: "@ + decimal(t.id) + " description: "@ + t.description + " status: "@
        + t.status.token() + " created at: "@ + format_iso8601(t.created_at)
        + " updated at: "@ + format_iso8601(t.updated_at)
}

/// A listing: one line for each task that it shows.
pub open spec fn listing(tasks: Seq<TaskView>, filter: Option<Status>) -> Seq<Seq<char>> {
    selected(tasks, filter).map_values(|t: TaskView| listing_line(t))
}

/// The texts of a sequence of strings, in order.
pub open spec fn texts(lines: Seq<String>) -> Seq<Seq<char>> {
    lines.map_values(|s: String| s@)
}

/// The store after a command.
pub open spec fn applied(tasks: Seq<TaskView>, command: Command, now: Civil) -> Seq<TaskView> {
    match command {
        Command::Add(description) => with_added(tasks, description@, now),
        Command::Update(id, description) => with_updated(tasks, id as nat, description@, now),
        Command::Delete(id) => with_deleted(tasks, id as nat),
        Command::Mark(status, id) => with_marked(tasks, status, id as nat, now),
        Command::List(_) => tasks,
        Command::Nothing => tasks,
    }
}

/// What a command came to, as plain values.
pub enum OutcomeView {
    Added(nat),
    Updated(nat, Seq<char>),
    Deleted(nat),
    Marked(nat, Status),
    NotFound(nat),
    Listed(Seq<Seq<char>>),
    Nothing,
}

/// What a command comes to in a store: a task's id where one was added,
/// changed or removed, `NotFound` where a command names an id that no task
/// has, and the lines of a listing.
pub open spec fn outcome_of(tasks: Seq<TaskView>, command: Command) -> OutcomeView {
    match command {
        Command::Add(_) => OutcomeView::Added(last_id(tasks) + 1),
        Command::Update(id, description) => if position(tasks, id as nat) is Some {
            OutcomeView::Updated(id as nat, description@)
        } else {
            OutcomeView::NotFound(id as nat)
        },
        Command::Delete(id) => if position(tasks, id as nat) is Some {
            OutcomeView::Deleted(id as nat)
        } else {
            OutcomeView::NotFound(id as nat)
        },
        Command::Mark(status, id) => if position(tasks, id as nat) is Some {
            OutcomeView::Marked(id as nat, status)
        } else {
            OutcomeView::NotFound(id as nat)
        },
        Command::List(filter) => OutcomeView::Listed(listing(tasks, filter)),
        Command::Nothing => OutcomeView::Nothing,
    }
}

/// What is said of an outcome: one line that names the task, or the lines
/// of a listing, or nothing.
pub open spec fn report(outcome: OutcomeView) -> Seq<Seq<char>> {
    match outcome {
        OutcomeView::Added(id) => seq!["Task(ID: "@ + decimal(id) + ") added successfully"@],
        OutcomeView::Updated(id, description) => seq![
            "Task(ID: "@ + decimal(id) + ") updated to: "@ + description,
        ],
        OutcomeView::Deleted(id) => seq!["Task(ID: "@ + decimal(id) + ") deleted successfully"@],
        OutcomeView::Marked(id, status) => seq![
            "Task(ID: "@ + decimal(id) + ") marked as: "@ + status.token(),
        ],
        OutcomeView::NotFound(id) => seq!["Task(ID: "@ + decimal(id) + ") does not exist"@],
        OutcomeView::Listed(lines) => lines,
        OutcomeView::Nothing => Seq::empty(),
    }
}

/// What a command came to.
#[derive(Debug, PartialEq, Eq)]
pub enum Outcome {
    /// A task was added under this id.
    Added(u32),
    /// The task with this id has this description now.
    Updated(u32, String),
    /// The task with this id was removed.
    Deleted(u32),
    /// The task with this id has this status now.
    Marked(u32, Status),
    /// No task has this id; the store is as it was.
    NotFound(u32),
    /// The lines of a listing.
    Listed(Vec<String>),
    /// Nothing was asked.
    Nothing,
}

impl View for Outcome {
    type V = OutcomeView;

    open spec fn view(&self) -> OutcomeView {
        match self {
            Outcome::Added(id) => OutcomeView::Added(*id as nat),
            Outcome::Updated(id, description) => OutcomeView::Updated(*id as nat, description@),
            Outcome::Deleted(id) => OutcomeView::Deleted(*id as nat),
            Outcome::Marked(id, status) => OutcomeView::Marked(*id as nat, *status),
            Outcome::NotFound(id) => OutcomeView::NotFound(*id as nat),
            Outcome::Listed(lines) => OutcomeView::Listed(texts(lines@)),
            Outcome::Nothing => OutcomeView::Nothing,
        }
    }
}

fn named(id: u32, rest: &str) -> (line: String)
    ensures
        line@ == "Task(ID: "@ + decimal(id as nat) + rest@,
{
    let mut out: Vec<char> = Vec::new();
    push_str(&mut out, "Task(ID: ");
    push_decimal(&mut out, id as u64);
    push_str(&mut out, rest);
    assert(out@ =~= "Task(ID: "@ + decimal(id as nat) + rest@);
    string_of(&out)
}

fn named_with(id: u32, rest: &str, detail: &str) -> (line: String)
    ensures
        line@ == "Task(ID: "@ + decimal(id as nat) + rest@ + detail@,
{
    let mut out: Vec<char> = Vec::new();
    push_str(&mut out, "Task(ID: ");
    push_decimal(&mut out, id as u64);
    push_str(&mut out, rest);
    push_str(&mut out, detail);
    assert(out@ =~= "Task(ID: "@ + decimal(id as nat) + rest@ + detail@);
    string_of(&out)
}

fn one_line(line: String) -> (lines: Vec<String>)
    ensures
        texts(lines@) == seq![line@],
{
    let mut lines: Vec<String> = Vec::new();
    lines.push(line);
    assert(texts(lines@) =~= seq![line@]);
    lines
}

impl Outcome {
    /// The lines that tell of this outcome.
    pub fn lines(&self) -> (lines: Vec<String>)
        ensures
            texts(lines@) == report(self@),
    {
        match self {
            Outcome::Added(id) => one_line(named(*id, ") added successfully")),
            Outcome::Updated(id, description) => one_line(
                named_with(*id, ") updated to: ", description.as_str()),
            ),
            Outcome::Deleted(id) => one_line(named(*id, ") deleted successfully")),
            Outcome::Marked(id, status) => one_line(
                named_with(*id, ") marked as: ", status.as_str()),
            ),
            Outcome::NotFound(id) => one_line(named(*id, ") does not exist")),
            Outcome::Listed(listed) => {
                let mut lines: Vec<String> = Vec::new();
                let mut i: usize = 0;
                while i < listed.len()
                    invariant
                        i <= listed@.len(),
                        lines@.len() == i,
                        texts(lines@) == texts(listed@).take(i as int),
                    decreases listed@.len() - i,
                {
                    let ghost before = lines@;
                    let line = listed[i].clone();
                    assert(line@ == listed@[i as int]@);
                    lines.push(line);
                    i += 1;
                    assert forall|k: int| 0 <= k < i implies texts(lines@)[k] == texts(
                        listed@,
                    ).take(i as int)[k] by {
                        if k < i - 1 {
                            assert(texts(before)[k] == texts(listed@).take(i - 1)[k]);
                        }
                    }
                    assert(texts(lines@) =~= texts(listed@).take(i as int));
                }
                assert(texts(listed@).take(i as int) =~= texts(listed@));
                lines
            },
            Outcome::Nothing => {
                let lines: Vec<String> = Vec::new();
                assert(texts(lines@) =~= Seq::<Seq<char>>::empty());
                lines
            },
        }
    }
}

/// What `process` hands back: the outcome, the time that the command was
/// stamped with, and the text of the store after it, which is to be kept.
#[derive(Debug)]
pub struct Processed {
    pub outcome: Outcome,
    pub stamp: DateTime,
    pub contents: String,
}

// ---------------------------------------------------------------------------
// What holds of the operations
// ---------------------------------------------------------------------------

/// Whether a store is in order: the ids grow from each task to the next, and
/// no task was changed before it was made.
pub open spec fn in_order(tasks: Seq<TaskView>) -> bool {
    &&& ids_ascend(tasks)
    &&& forall|i: int|
        0 <= i < tasks.len() ==> (#[trigger] tasks[i]).created_at.not_after(tasks[i].updated_at)
}

/// Whether every task of a store was made at the time `now` or before it.
pub open spec fn made_by(tasks: Seq<TaskView>, now: Civil) -> bool {
    forall|i: int| 0 <= i < tasks.len() ==> (#[trigger] tasks[i]).created_at.not_after(now)
}

/// The id that a command names: that of the task to change or to remove.
pub open spec fn named_id(command: Command) -> Option<nat> {
    match command {
        Command::Update(id, _) => Some(id as nat),
        Command::Delete(id) => Some(id as nat),
        Command::Mark(_, id) => Some(id as nat),
        _ => None,
    }
}

/// Where the ids grow from each task to the next, no two tasks share an id.
pub proof fn lemma_ascending_ids_differ(tasks: Seq<TaskView>)
    requires
        ids_ascend(tasks),
    ensures
        forall|i: int, j: int|
            0 <= i < tasks.len() && 0 <= j < tasks.len() && i != j ==> tasks[i].id != tasks[j].id,
{
    assert forall|i: int, j: int|
        0 <= i < tasks.len() && 0 <= j < tasks.len() && i != j implies tasks[i].id
        != tasks[j].id by {
        if i < j {
            assert(tasks[i].id < tasks[j].id);
        } else {
            assert(tasks[j].id < tasks[i].id);
        }
    }
}

/// A listing by status goes through the store in order and takes each task
/// that has the status; a listing without a status takes every task.
pub proof fn lemma_selected_step(tasks: Seq<TaskView>, next: TaskView, status: Status)
    ensures
        selected(Seq::empty(), Some(status)) == Seq::<TaskView>::empty(),
        selected(tasks.push(next), Some(status)) == if next.status == status {
            selected(tasks, Some(status)).push(next)
        } else {
            selected(tasks, Some(status))
        },
        selected(tasks, None) == tasks,
{
    reveal(Seq::filter);
    Seq::lemma_filter_push(tasks, next, has_status(status));
    assert(Seq::<TaskView>::empty().filter(has_status(status)) =~= Seq::<TaskView>::empty());
}

/// The task that `add` makes comes last and leaves the others as they are.
/// Its id is 1 in an empty store and one more than the id of the last task
/// in any other, whatever ids are free below that.
pub proof fn lemma_added_id(tasks: Seq<TaskView>, description: Seq<char>, now: Civil)
    ensures
        with_added(tasks, description, now).len() == tasks.len() + 1,
        with_added(tasks, description, now).take(tasks.len() as int) == tasks,
        tasks.len() == 0 ==> with_added(tasks, description, now).last().id == 1,
        tasks.len() > 0 ==> with_added(tasks, description, now).last().id == tasks.last().id + 1,
        with_added(tasks, description, now).last().created_at == with_added(
            tasks,
            description,
            now,
        ).last().updated_at,
{
    assert(with_added(tasks, description, now).take(tasks.len() as int) =~= tasks);
}

/// A command that names an id which no task has leaves the store as it is,
/// and its outcome says that the task was not found.
pub proof fn lemma_unknown_id(tasks: Seq<TaskView>, command: Command, now: Civil)
    requires
        named_id(command) is Some,
        forall|i: int| 0 <= i < tasks.len() ==> tasks[i].id != named_id(command)->0,
    ensures
        applied(tasks, command, now) == tasks,
        outcome_of(tasks, command) == OutcomeView::NotFound(named_id(command)->0),
{
    let id = named_id(command)->0;
    lemma_position(tasks, id, 0);
    match position(tasks, id) {
        Some(i) => {
            assert(tasks[i].id == id);
        },
        None => {},
    }
}

/// A command that names an id which some task has changes the first such
/// task only, and leaves its id and the time of its making as they were.
pub proof fn lemma_known_id(tasks: Seq<TaskView>, command: Command, now: Civil, at: int)
    requires
        named_id(command) is Some,
        0 <= at < tasks.len(),
        tasks[at].id == named_id(command)->0,
        forall|i: int| 0 <= i < at ==> tasks[i].id != named_id(command)->0,
    ensures
        position(tasks, named_id(command)->0) == Some(at),
        !(outcome_of(tasks, command) is NotFound),
        command is Delete ==> applied(tasks, command, now) == tasks.remove(at),
        !(command is Delete) ==> {
            let after = applied(tasks, command, now);
            &&& after.len() == tasks.len()
            &&& forall|i: int| 0 <= i < tasks.len() && i != at ==> after[i] == tasks[i]
            &&& after[at].id == tasks[at].id
            &&& after[at].created_at == tasks[at].created_at
            &&& after[at].updated_at == now
        },
{
    let id = named_id(command)->0;
    lemma_position(tasks, id, 0);
    match position(tasks, id) {
        Some(i) => {
            if i < at {
                assert(tasks[i].id != id);
            }
            if at < i {
                assert(tasks[at].id != id);
            }
        },
        None => {
            assert(tasks[at].id != id);
        },
    }
}

/// A store in order stays in order where one task is changed, as long as the
/// task keeps its id and the time of its making, and is not stamped with a
/// time before that.
pub proof fn lemma_changed_in_order(tasks: Seq<TaskView>, at: int, changed: TaskView)
    requires
        in_order(tasks),
        0 <= at < tasks.len(),
        changed.id == tasks[at].id,
        changed.created_at == tasks[at].created_at,
        changed.created_at.not_after(changed.updated_at),
    ensures
        in_order(tasks.update(at, changed)),
{
    let after = tasks.update(at, changed);
    assert forall|i: int, j: int| 0 <= i < j < after.len() implies after[i].id < after[j].id by {
        assert(tasks[i].id < tasks[j].id);
    }
    assert forall|i: int| 0 <= i < after.len() implies (#[trigger] after[i]).created_at.not_after(
        after[i].updated_at,
    ) by {
        if i != at {
            assert(tasks[i].created_at.not_after(tasks[i].updated_at));
        }
    }
}

/// Every command keeps a store in order, as long as the clock does not run
/// behind the making of a task in it.
pub proof fn lemma_applied_in_order(tasks: Seq<TaskView>, command: Command, now: Civil)
    requires
        in_order(tasks),
        made_by(tasks, now),
    ensures
        in_order(applied(tasks, command, now)),
{
    let after = applied(tasks, command, now);
    match command {
        Command::Add(description) => {
            assert forall|i: int, j: int| 0 <= i < j < after.len() implies after[i].id
                < after[j].id by {
                if j == tasks.len() {
                    if i < tasks.len() - 1 {
                        assert(tasks[i].id < tasks[tasks.len() - 1].id);
                    }
                } else {
                    assert(tasks[i].id < tasks[j].id);
                }
            }
            assert forall|i: int| 0 <= i < after.len() implies (#[trigger] after[i]).created_at.not_after(
                after[i].updated_at,
            ) by {
                if i < tasks.len() {
                    assert(after[i] == tasks[i]);
                }
            }
        },
        Command::Update(id, _) => {
            lemma_position(tasks, id as nat, 0);
            if let Some(at) = position(tasks, id as nat) {
                lemma_changed_in_order(tasks, at, after[at]);
            }
        },
        Command::Mark(_, id) => {
            lemma_position(tasks, id as nat, 0);
            if let Some(at) = position(tasks, id as nat) {
                lemma_changed_in_order(tasks, at, after[at]);
            }
        },
        Command::Delete(id) => {
            lemma_position(tasks, id as nat, 0);
            match position(tasks, id as nat) {
                Some(at) => {
                    assert forall|i: int, j: int| 0 <= i < j < after.len() implies after[i].id
                        < after[j].id by {
                        let from_i = if i < at {
                            i
                        } else {
                            i + 1
                        };
                        let from_j = if j < at {
                            j
                        } else {
                            j + 1
                        };
                        assert(after[i] == tasks[from_i]);
                        assert(after[j] == tasks[from_j]);
                        assert(tasks[from_i].id < tasks[from_j].id);
                    }
                    assert forall|i: int| 0 <= i < after.len() implies (
                    #[trigger] after[i]).created_at.not_after(after[i].updated_at) by {
                        let from_i = if i < at {
                            i
                        } else {
                            i + 1
                        };
                        assert(after[i] == tasks[from_i]);
                        assert(tasks[from_i].created_at.not_after(tasks[from_i].updated_at));
                    }
                },
                None => {},
            }
        },
        Command::List(_) => {},
        Command::Nothing => {},
    }
}

// ---------------------------------------------------------------------------
// The store
// ---------------------------------------------------------------------------

/// The tasks of one store, in the order in which they were added.
///
/// A store that grew from an empty one by the operations below is in order
/// (`in_order`): its ids grow from task to task, so that no two tasks share
/// an id, and `lemma_applied_in_order` says that every command keeps it so.
/// A store that was read from text holds what the text gave, in order or
/// not.
#[derive(Debug)]
pub struct Tasks(Vec<Task>);

impl View for Tasks {
    type V = Seq<TaskView>;

    closed spec fn view(&self) -> Seq<TaskView> {
        views(self.0@)
    }
}

impl Tasks {
    /// A store without tasks.
    pub fn new() -> (r: Self)
        ensures
            r@ == Seq::<TaskView>::empty(),
            in_order(r@),
    {
        let r = Tasks(Vec::new());
        assert(r@ =~= Seq::<TaskView>::empty());
        r
    }

    /// Every id in a store fits 32 bits.
    pub proof fn lemma_ids_bounded(&self)
        ensures
            forall|i: int| 0 <= i < self@.len() ==> (#[trigger] self@[i]).id <= u32::MAX,
    {
        assert forall|i: int| 0 <= i < self@.len() implies (#[trigger] self@[i]).id
            <= u32::MAX by {
            assert(self@[i] == self.0@[i]@);
        }
    }

    /// A store comes back from its text form as it was: the same tasks in
    /// the same order, field for field. This holds where every description
    /// is plain and every timestamp fits the text form.
    pub proof fn lemma_round_trip(&self)
        requires
            forall|i: int|
                0 <= i < self@.len() ==> {
                    let t = #[trigger] self@[i];
                    plain_description(t.description) && t.created_at.fits_text()
                        && t.updated_at.fits_text()
                },
        ensures
            decode(encode(self@)) == Ok::<Seq<TaskView>, ParseError>(self@),
    {
        self.lemma_ids_bounded();
        assert forall|i: int| 0 <= i < self@.len() implies storable(#[trigger] self@[i]) by {}
        lemma_decode_encode(self@);
    }

    /// A store with the given tasks.
    pub fn from_vec(tasks: Vec<Task>) -> (r: Self)
        ensures
            r@ == views(tasks@),
    {
        Tasks(tasks)
    }

    /// How many tasks the store holds.
    pub fn len(&self) -> (r: usize)
        ensures
            r == self@.len(),
    {
        self.0.len()
    }

    /// The task at index `i`.
    pub fn get(&self, i: usize) -> (r: &Task)
        requires
            i < self@.len(),
        ensures
            r@ == self@[i as int],
    {
        &self.0[i]
    }

    /// The id of the last task, or zero for an empty store.
    pub fn last_id(&self) -> (r: u32)
        ensures
            r == last_id(self@),
    {
        let n = self.0.len();
        if n == 0 {
            0
        } else {
            self.0[n - 1].id
        }
    }

    /// The index of the first task with the id `id`.
    pub fn locate(&self, id: u32) -> (r: Option<usize>)
        ensures
            match r {
                Some(i) => i < self@.len() && self@[i as int].id == id && position(
                    self@,
                    id as nat,
                ) == Some(i as int),
                None => position(self@, id as nat) is None,
            },
    {
        let mut i: usize = 0;
        while i < self.0.len()
            invariant
                i <= self.0@.len(),
                self@ == views(self.0@),
                position(self@, id as nat) == position_from(self@, id as nat, i as int),
            decreases self.0@.len() - i,
        {
            if self.0[i].id == id {
                return Some(i);
            }
            i += 1;
        }
        None
    }

    /// Adds a task with the given description, stamped `now`, and returns
    /// its id: one more than the id of the last task, and 1 in an empty
    /// store, whatever ids are free below that.
    pub fn add(&mut self, description: String, now: DateTime) -> (id: u32)
        requires
            last_id(old(self)@) < u32::MAX,
        ensures
            id == last_id(old(self)@) + 1,
            final(self)@ == with_added(old(self)@, description@, now@),
    {
        let id: u32 = self.last_id() + 1;
        let task = Task::new(id, description, Status::Todo, now, now);
        self.0.push(task);
        assert(self@ =~= with_added(old(self)@, description@, now@));
        id
    }

    /// Gives the first task with the id `id` a new description and stamps
    /// it `now`. Returns whether there was such a task; without one the
    /// store stays as it is.
    pub fn update(&mut self, id: u32, description: String, now: DateTime) -> (found: bool)
        ensures
            found == position(old(self)@, id as nat).is_some(),
            final(self)@ == with_updated(old(self)@, id as nat, description@, now@),
    {
        match self.locate(id) {
            Some(i) => {
                let task = Task::new(
                    id,
                    description,
                    self.0[i].status,
                    self.0[i].created_at,
                    now,
                );
                self.0.set(i, task);
                assert(self@ =~= with_updated(old(self)@, id as nat, description@, now@));
                true
            },
            None => false,
        }
    }

    /// Removes the first task with the id `id`; the others keep their order.
    /// Returns whether there was such a task; without one the store stays as
    /// it is.
    pub fn delete(&mut self, id: u32) -> (found: bool)
        ensures
            found == position(old(self)@, id as nat).is_some(),
            final(self)@ == with_deleted(old(self)@, id as nat),
    {
        match self.locate(id) {
            Some(i) => {
                let _ = self.0.remove(i);
                assert(self@ =~= with_deleted(old(self)@, id as nat));
                true
            },
            None => false,
        }
    }

    /// Gives the first task with the id `id` the status `status` and stamps
    /// it `now`. Returns whether there was such a task; without one the
    /// store stays as it is.
    pub fn mark(&mut self, status: Status, id: u32, now: DateTime) -> (found: bool)
        ensures
            found == position(old(self)@, id as nat).is_some(),
            final(self)@ == with_marked(old(self)@, status, id as nat, now@),
    {
        match self.locate(id) {
            Some(i) => {
                let description = self.0[i].description.clone();
                let task = Task::new(id, description, status, self.0[i].created_at, now);
                self.0.set(i, task);
                assert(self@ =~= with_marked(old(self)@, status, id as nat, now@));
                true
            },
            None => false,
        }
    }

    /// Reads a store from its text form. A text that is no store gives the
    /// error of its first line that cannot be read.
    pub fn from_contents(contents: String) -> (r: Result<Self, ParseError>)
        ensures
            match r {
                Ok(tasks) => decode(contents@) == Ok::<Seq<TaskView>, ParseError>(tasks@),
                Err(e) => decode(contents@) == Err::<Seq<TaskView>, ParseError>(e),
            },
    {
        let chars = chars_of(contents.as_str());
        match read_tasks(&chars) {
            Ok(tasks) => Ok(Tasks(tasks)),
            Err(e) => Err(e),
        }
    }

    /// Reads a store from its text form, as `from_contents` does.
    pub fn from(contents: String) -> (r: Result<Self, ParseError>)
        ensures
            match r {
                Ok(tasks) => decode(contents@) == Ok::<Seq<TaskView>, ParseError>(tasks@),
                Err(e) => decode(contents@) == Err::<Seq<TaskView>, ParseError>(e),
            },
    {
        Tasks::from_contents(contents)
    }

    /// The text form of the store.
    pub fn to_contents(&self) -> (text: String)
        ensures
            text@ == encode(self@),
    {
        let chars = write_tasks(&self.0);
        string_of(&chars)
    }

    /// The lines of a listing: one for each task that has the given status,
    /// in the order of the store, or one for each task where no status is
    /// given.
    pub fn list(&self, status: Option<Status>) -> (lines: Vec<String>)
        ensures
            texts(lines@) == listing(self@, status),
    {
        let mut lines: Vec<String> = Vec::new();
        let n = self.0.len();
        let mut i: usize = 0;
        proof {
            assert(self@.take(0) =~= Seq::<TaskView>::empty());
            if let Some(s) = status {
                reveal(Seq::filter);
                assert(self@.take(0).filter(has_status(s)) =~= Seq::<TaskView>::empty());
            }
            assert(texts(lines@) =~= listing(self@.take(0), status));
        }
        while i < n
            invariant
                i <= n,
                n == self.0@.len(),
                self@ == views(self.0@),
                texts(lines@) == listing(self@.take(i as int), status),
            decreases n - i,
        {
            let task = &self.0[i];
            let shown = match status {
                Some(s) => task.status == s,
                None => true,
            };
            let ghost shown_before = selected(self@.take(i as int), status);
            let ghost shown_after = selected(self@.take(i + 1), status);
            let ghost lines_before = lines@;
            proof {
                let before = self@.take(i as int);
                assert(self@.take(i + 1) =~= before.push(task@));
                if let Some(s) = status {
                    Seq::lemma_filter_push(before, task@, has_status(s));
                }
                assert(shown_after == if shown {
                    shown_before.push(task@)
                } else {
                    shown_before
                });
            }
            if shown {
                let mut out: Vec<char> = Vec::new();
                push_str(&mut out, "ID: ");
                push_decimal(&mut out, task.id as u64);
                push_str(&mut out, " description: ");
                push_str(&mut out, task.description.as_str());
                push_str(&mut out, " status: ");
                push_str(&mut out, task.status.as_str());
                push_str(&mut out, " created at: ");
                task.created_at.write_iso8601(&mut out);
                push_str(&mut out, " updated at: ");
                task.updated_at.write_iso8601(&mut out);
                assert(out@ =~= listing_line(task@));
                lines.push(string_of(&out));
                assert(texts(lines@).len() == lines_before.len() + 1);
                assert(texts(lines_before).len() == lines_before.len());
                assert(listing(self@.take(i as int), status).len() == shown_before.len());
                assert(listing(self@.take(i + 1), status).len() == shown_before.len() + 1);
                assert forall|k: int| 0 <= k < lines@.len() implies texts(lines@)[k] == listing(
                    self@.take(i + 1),
                    status,
                )[k] by {
                    if k < lines_before.len() {
                        assert(texts(lines_before)[k] == listing(self@.take(i as int), status)[k]);
                        assert(shown_after[k] == shown_before[k]);
                    }
                }
                assert(texts(lines@) =~= listing(self@.take(i + 1), status));
            }
            i += 1;
        }
        assert(self@.take(n as int) =~= self@);
        lines
    }

    /// Carries out a command at the time `now`, and tells what it came to.
    /// A command that names an id that no task has leaves the store as it
    /// is; so do a listing and the empty command.
    pub fn apply(&mut self, command: Command, now: DateTime) -> (outcome: Outcome)
        requires
            command is Add ==> last_id(old(self)@) < u32::MAX,
        ensures
            final(self)@ == applied(old(self)@, command, now@),
            outcome@ == outcome_of(old(self)@, command),
            in_order(old(self)@) && made_by(old(self)@, now@) ==> in_order(final(self)@),
    {
        proof {
            if in_order(self@) && made_by(self@, now@) {
                lemma_applied_in_order(self@, command, now@);
            }
        }
        match command {
            Command::Add(description) => Outcome::Added(self.add(description, now)),
            Command::Update(id, description) => {
                let said = description.clone();
                if self.update(id, description, now) {
                    Outcome::Updated(id, said)
                } else {
                    Outcome::NotFound(id)
                }
            },
            Command::Delete(id) => {
                if self.delete(id) {
                    Outcome::Deleted(id)
                } else {
                    Outcome::NotFound(id)
                }
            },
            Command::Mark(status, id) => {
                if self.mark(status, id, now) {
                    Outcome::Marked(id, status)
                } else {
                    Outcome::NotFound(id)
                }
            },
            Command::List(status) => Outcome::Listed(self.list(status)),
            Command::Nothing => Outcome::Nothing,
        }
    }

    /// Carries out a command at the current time. The result holds the
    /// outcome, the time that was used, and the text of the store after the
    /// command, which is written anew for every command, also for one that
    /// changed nothing.
    pub fn process(&mut self, command: Command) -> (done: Processed)
        requires
            command is Add ==> last_id(old(self)@) < u32::MAX,
        ensures
            final(self)@ == applied(old(self)@, command, done.stamp@),
            done.outcome@ == outcome_of(old(self)@, command),
            done.contents@ == encode(final(self)@),
            done.stamp@ == Civil::zero() || (done.stamp@.is_calendar_date()
                && done.stamp@.epoch_seconds() < EPOCH_SECONDS_LIMIT),
            in_order(old(self)@) && made_by(old(self)@, done.stamp@) ==> in_order(final(self)@),
    {
        let stamp = DateTime::now();
        let outcome = self.apply(command, stamp);
        let contents = self.to_contents();
        Processed { outcome, stamp, contents }
    }
}

} // verus!
