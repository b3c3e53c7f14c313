//! The text form of a store. A store is written as a bracketed list of
//! records, one line for each bracket and for each field, and read back line
//! by line: the reader holds one unfinished task, which a field line changes
//! and a closing brace adds to the result.

use vstd::prelude::*;
use crate::datetime::{format_iso8601, parse_iso8601, DateTime, FormatError};
use crate::decimal::{decimal, parse_unsigned, push_decimal, unsigned_literal};
use crate::task::{views, Task, TaskView};
use crate::text::{
    after_line,
    chars_of,
    equals_str,
    find,
    find_line_end,
    first_occurrence,
    line_end,
    lines,
    push_all,
    push_str,
    slice,
    string_of,
    strip,
    strip_end,
    stripped,
    trimmed,
    without_trailing,
    CharClass,
};
use crate::Status;

verus! {

/// Why a text is no store.
#[derive(Clone, Copy, Debug, PartialEq, Eq)]
pub enum ParseError {
    /// A line that is neither blank nor a bracket or brace has no ` : `.
    MalformedPair,
    /// The value of `id` is not an unsigned number of 32 bits.
    InvalidId,
    /// The value of `status` is none of the three status words.
    UnknownStatus,
    /// The value of `createdAt` or `updatedAt` is no timestamp.
    InvalidTimestamp(FormatError),
}

// ---------------------------------------------------------------------------
// Writing
// ---------------------------------------------------------------------------

/// Each of the lines, with a line feed before it.
pub open spec fn continued(ls: Seq<Seq<char>>) -> Seq<char>
    decreases ls.len(),
{
    if ls.len() == 0 {
        Seq::empty()
    } else {
        continued(ls.drop_last()) + seq!['\n'] + ls.last()
    }
}

/// The lines, with a line feed between each two of them.
pub open spec fn join_lines(ls: Seq<Seq<char>>) -> Seq<char> {
    if ls.len() == 0 {
        Seq::empty()
    } else {
        ls[0] + continued(ls.drop_first())
    }
}

/// `s` between two double quotes.
pub open spec fn quoted(s: Seq<char>) -> Seq<char> {
    seq!['"'] + s + seq!['"']
}

/// The line for one field: the key in quotes, ` : `, the value, and a comma
/// where `more` fields follow.
pub open spec fn pair_line(key: Seq<char>, value: Seq<char>, more: bool) -> Seq<char> {
    "    \""@ + key + "\" : "@ + value + if more {
        seq![',']
    } else {
        Seq::empty()
    }
}

/// The seven lines of one record: the id as a bare number, then the
/// description, the status and the two timestamps in quotes, between braces.
/// A comma follows the closing brace where `more` records follow.
pub open spec fn record_lines(t: TaskView, more: bool) -> Seq<Seq<char>> {
    seq![
        "  {"@,
        pair_line("id"@, decimal(t.id), true),
        pair_line("description"@, quoted(t.description), true),
        pair_line("status"@, quoted(t.status.token()), true),
        pair_line("createdAt"@, quoted(format_iso8601(t.created_at)), true),
        pair_line("updatedAt"@, quoted(format_iso8601(t.updated_at)), false),
        if more {
            "  },"@
        } else {
            "  }"@
        },
    ]
}

/// The lines of the first `upto` records of a store.
pub open spec fn records_lines(tasks: Seq<TaskView>, upto: int) -> Seq<Seq<char>>
    decreases upto,
{
    if upto <= 0 {
        Seq::empty()
    } else {
        records_lines(tasks, upto - 1) + record_lines(tasks[upto - 1], upto < tasks.len())
    }
}

/// The lines of a store: an opening bracket, the records, a closing bracket.
pub open spec fn document_lines(tasks: Seq<TaskView>) -> Seq<Seq<char>> {
    seq!["["@] + records_lines(tasks, tasks.len() as int) + seq!["]"@]
}

/// The text form of a store.
pub open spec fn encode(tasks: Seq<TaskView>) -> Seq<char> {
    join_lines(document_lines(tasks))
}

/// Lines that follow other lines continue their text.
pub proof fn lemma_continued_add(a: Seq<Seq<char>>, b: Seq<Seq<char>>)
    ensures
        continued(a + b) == continued(a) + continued(b),
    decreases b.len(),
{
    if b.len() == 0 {
        assert(a + b =~= a);
        assert(continued(a) + continued(b) =~= continued(a));
    } else {
        lemma_continued_add(a, b.drop_last());
        assert((a + b).drop_last() =~= a + b.drop_last());
        assert((a + b).last() == b.last());
        assert(continued(a + b) =~= continued(a) + continued(b));
    }
}

/// One more line continues a text by a line feed and itself.
pub proof fn lemma_continued_push(ls: Seq<Seq<char>>, l: Seq<char>)
    ensures
        continued(ls.push(l)) == continued(ls) + seq!['\n'] + l,
{
    assert(ls.push(l).drop_last() =~= ls);
}

proof fn lemma_line_written(
    base: Seq<char>,
    done: Seq<Seq<char>>,
    l: Seq<char>,
    before: Seq<char>,
    after: Seq<char>,
)
    requires
        before == base + continued(done),
        after == before + seq!['\n'] + l,
    ensures
        after == base + continued(done.push(l)),
{
    lemma_continued_push(done, l);
    assert(after =~= base + continued(done.push(l)));
}

fn write_line(out: &mut Vec<char>, line: &str)
    ensures
        final(out)@ == old(out)@ + seq!['\n'] + line@,
{
    out.push('\n');
    push_str(out, line);
    assert(out@ =~= old(out)@ + seq!['\n'] + line@);
}

fn write_pair(out: &mut Vec<char>, key: &str, value: &Vec<char>, more: bool)
    ensures
        final(out)@ == old(out)@ + seq!['\n'] + pair_line(key@, value@, more),
{
    out.push('\n');
    let ghost begun = out@;
    push_str(out, "    \"");
    push_str(out, key);
    push_str(out, "\" : ");
    push_all(out, value);
    if more {
        out.push(',');
    }
    assert(out@ =~= begun + pair_line(key@, value@, more));
}

fn quote(s: &str) -> (out: Vec<char>)
    ensures
        out@ == quoted(s@),
{
    let mut out: Vec<char> = Vec::new();
    out.push('"');
    push_str(&mut out, s);
    out.push('"');
    assert(out@ =~= quoted(s@));
    out
}

fn write_record(out: &mut Vec<char>, task: &Task, more: bool)
    ensures
        final(out)@ == old(out)@ + continued(record_lines(task@, more)),
{
    let ghost t = task@;
    let ghost base = out@;
    let ghost mut done: Seq<Seq<char>> = Seq::empty();
    let ghost mut before = out@;
    assert(before =~= base + continued(done));

    write_line(out, "  {");
    proof {
        lemma_line_written(base, done, "  {"@, before, out@);
        done = done.push("  {"@);
        before = out@;
    }
    let mut id: Vec<char> = Vec::new();
    push_decimal(&mut id, task.id() as u64);
    assert(id@ =~= decimal(t.id));
    write_pair(out, "id", &id, true);
    proof {
        let l = pair_line("id"@, decimal(t.id), true);
        lemma_line_written(base, done, l, before, out@);
        done = done.push(l);
        before = out@;
    }
    let description = quote(task.description());
    write_pair(out, "description", &description, true);
    proof {
        let l = pair_line("description"@, quoted(t.description), true);
        lemma_line_written(base, done, l, before, out@);
        done = done.push(l);
        before = out@;
    }
    let status = quote(task.status().as_str());
    write_pair(out, "status", &status, true);
    proof {
        let l = pair_line("status"@, quoted(t.status.token()), true);
        lemma_line_written(base, done, l, before, out@);
        done = done.push(l);
        before = out@;
    }
    let created = task.created_at().to_iso8601();
    let created = quote(created.as_str());
    write_pair(out, "createdAt", &created, true);
    proof {
        let l = pair_line("createdAt"@, quoted(format_iso8601(t.created_at)), true);
        lemma_line_written(base, done, l, before, out@);
        done = done.push(l);
        before = out@;
    }
    let updated = task.updated_at().to_iso8601();
    let updated = quote(updated.as_str());
    write_pair(out, "updatedAt", &updated, false);
    proof {
        let l = pair_line("updatedAt"@, quoted(format_iso8601(t.updated_at)), false);
        lemma_line_written(base, done, l, before, out@);
        done = done.push(l);
        before = out@;
    }
    if more {
        write_line(out, "  },");
    } else {
        write_line(out, "  }");
    }
    proof {
        let l = if more {
            "  },"@
        } else {
            "  }"@
        };
        lemma_line_written(base, done, l, before, out@);
        done = done.push(l);
        assert(done == record_lines(t, more));
    }
}

/// Writes a store as text.
pub fn write_tasks(tasks: &Vec<Task>) -> (out: Vec<char>)
    ensures
        out@ == encode(views(tasks@)),
{
    let ghost ts = views(tasks@);
    let mut out: Vec<char> = Vec::new();
    push_str(&mut out, "[");
    let n = tasks.len();
    let mut i: usize = 0;
    assert(out@ =~= "["@ + continued(records_lines(ts, 0)));
    while i < n
        invariant
            i <= n,
            n == tasks@.len(),
            ts == views(tasks@),
            out@ == "["@ + continued(records_lines(ts, i as int)),
        decreases n - i,
    {
        let more = i + 1 < n;
        write_record(&mut out, &tasks[i], more);
        proof {
            lemma_continued_add(records_lines(ts, i as int), record_lines(ts[i as int], more));
            assert(out@ =~= "["@ + continued(records_lines(ts, i + 1)));
        }
        i += 1;
    }
    write_line(&mut out, "]");
    proof {
        let records = records_lines(ts, n as int);
        lemma_continued_push(records, "]"@);
        assert(records.push("]"@) =~= records + seq!["]"@]);
        assert(document_lines(ts).drop_first() =~= records + seq!["]"@]);
        assert(document_lines(ts)[0] == "["@);
        assert(out@ =~= encode(ts));
    }
    out
}

// ---------------------------------------------------------------------------
// Reading
// ---------------------------------------------------------------------------

/// What the reader holds between two lines: the task that the field lines
/// fill in, and the tasks that are finished.
pub struct Reading {
    pub scratch: TaskView,
    pub done: Seq<TaskView>,
}

/// What stands between a key and its value.
pub open spec fn separator() -> Seq<char> {
    " : "@
}

/// The key and the value of a field line, or `None` for a line without a
/// separator. The key is what stands before the first separator, without
/// the quotes around it. The value is what stands between the first
/// separator and the second, or the end of the line where there is no
/// second, without the commas at its end and then without the quotes around
/// it.
pub open spec fn pair_of(line: Seq<char>) -> Option<(Seq<char>, Seq<char>)> {
    match first_occurrence(line, separator(), 0) {
        None => None,
        Some(at) => {
            let rest = line.skip(at + separator().len());
            let raw = match first_occurrence(rest, separator(), 0) {
                Some(end) => rest.take(end),
                None => rest,
            };
            Some(
                (
                    stripped(line.take(at), CharClass::Only('"')),
                    stripped(without_trailing(raw, CharClass::Only(',')), CharClass::Only('"')),
                ),
            )
        },
    }
}

/// The task after one field was set. The keys `id`, `description`, `status`,
/// `createdAt` and `updatedAt` set their field; a line with any other key
/// changes nothing.
pub open spec fn with_field(t: TaskView, key: Seq<char>, value: Seq<char>) -> Result<
    TaskView,
    ParseError,
> {
    if key == "id"@ {
        match unsigned_literal(value, u32::MAX as nat) {
            Some(id) => Ok(TaskView { id, ..t }),
            None => Err(ParseError::InvalidId),
        }
    } else if key == "description"@ {
        Ok(TaskView { description: value, ..t })
    } else if key == "status"@ {
        match Status::of_token(value) {
            Some(status) => Ok(TaskView { status, ..t }),
            None => Err(ParseError::UnknownStatus),
        }
    } else if key == "createdAt"@ {
        match parse_iso8601(value) {
            Ok(created_at) => Ok(TaskView { created_at, ..t }),
            Err(e) => Err(ParseError::InvalidTimestamp(e)),
        }
    } else if key == "updatedAt"@ {
        match parse_iso8601(value) {
            Ok(updated_at) => Ok(TaskView { updated_at, ..t }),
            Err(e) => Err(ParseError::InvalidTimestamp(e)),
        }
    } else {
        Ok(t)
    }
}

/// What one line does to the reader. The whitespace at its ends does not
/// count. A blank line and a bracket change nothing; an opening brace
/// starts a task with every field zero; a closing brace, with or without a
/// comma, adds the task as it stands to the finished ones; any other line
/// is a field line.
pub open spec fn read_line(state: Reading, raw: Seq<char>) -> Result<Reading, ParseError> {
    let line = trimmed(raw);
    if line.len() == 0 || line == "["@ || line == "]"@ {
        Ok(state)
    } else if line == "{"@ {
        Ok(Reading { scratch: TaskView::blank(), ..state })
    } else if line == "}"@ || line == "},"@ {
        Ok(Reading { done: state.done.push(state.scratch), ..state })
    } else {
        match pair_of(line) {
            None => Err(ParseError::MalformedPair),
            Some((key, value)) => match with_field(state.scratch, key, value) {
                Ok(scratch) => Ok(Reading { scratch, ..state }),
                Err(e) => Err(e),
            },
        }
    }
}

/// What a run of lines does to the reader: the lines are read in order, and
/// the first that fails ends the reading with its error.
pub open spec fn read_lines(state: Reading, ls: Seq<Seq<char>>) -> Result<Reading, ParseError>
    decreases ls.len(),
{
    if ls.len() == 0 {
        Ok(state)
    } else {
        match read_line(state, ls[0]) {
            Ok(next) => read_lines(next, ls.drop_first()),
            Err(e) => Err(e),
        }
    }
}

/// The reader before the first line.
pub open spec fn start() -> Reading {
    Reading { scratch: TaskView::blank(), done: Seq::empty() }
}

/// The store that a text stands for: the tasks that are finished when its
/// last line is read.
pub open spec fn decode(text: Seq<char>) -> Result<Seq<TaskView>, ParseError> {
    match read_lines(start(), lines(text)) {
        Ok(state) => Ok(state.done),
        Err(e) => Err(e),
    }
}

struct Scratch {
    id: u32,
    description: Vec<char>,
    status: Status,
    created_at: DateTime,
    updated_at: DateTime,
}

impl View for Scratch {
    type V = TaskView;

    closed spec fn view(&self) -> TaskView {
        TaskView {
            id: self.id as nat,
            description: self.description@,
            status: self.status,
            created_at: self.created_at@,
            updated_at: self.updated_at@,
        }
    }
}

impl Scratch {
    fn blank() -> (r: Self)
        ensures
            r@ == TaskView::blank(),
    {
        Scratch {
            id: 0,
            description: Vec::new(),
            status: Status::Todo,
            created_at: DateTime::default(),
            updated_at: DateTime::default(),
        }
    }

    fn task(&self) -> (r: Task)
        ensures
            r@ == self@,
    {
        Task::new(
            self.id,
            string_of(&self.description),
            self.status,
            self.created_at,
            self.updated_at,
        )
    }

    fn set(&mut self, key: &Vec<char>, value: Vec<char>) -> (r: Result<(), ParseError>)
        ensures
            match r {
                Ok(()) => with_field(old(self)@, key@, value@) == Ok::<TaskView, ParseError>(
                    final(self)@,
                ),
                Err(e) => with_field(old(self)@, key@, value@) == Err::<TaskView, ParseError>(e),
            },
    {
        if equals_str(key, "id") {
            match parse_unsigned(&value, 0xFFFF_FFFF) {
                Some(id) => {
                    self.id = id as u32;
                    Ok(())
                },
                None => Err(ParseError::InvalidId),
            }
        } else if equals_str(key, "description") {
            self.description = value;
            Ok(())
        } else if equals_str(key, "status") {
            match Status::from_chars(&value) {
                Some(status) => {
                    self.status = status;
                    Ok(())
                },
                None => Err(ParseError::UnknownStatus),
            }
        } else if equals_str(key, "createdAt") {
            match DateTime::from_chars(&value) {
                Ok(created_at) => {
                    self.created_at = created_at;
                    Ok(())
                },
                Err(e) => Err(ParseError::InvalidTimestamp(e)),
            }
        } else if equals_str(key, "updatedAt") {
            match DateTime::from_chars(&value) {
                Ok(updated_at) => {
                    self.updated_at = updated_at;
                    Ok(())
                },
                Err(e) => Err(ParseError::InvalidTimestamp(e)),
            }
        } else {
            Ok(())
        }
    }
}

fn split_pair(line: &Vec<char>) -> (r: Option<(Vec<char>, Vec<char>)>)
    ensures
        match r {
            Some((key, value)) => pair_of(line@) == Some((key@, value@)),
            None => pair_of(line@) is None,
        },
{
    let sep = chars_of(" : ");
    let n = line.len();
    match find(line, &sep, 0) {
        None => None,
        Some(at) => {
            let rest = slice(line, at + sep.len(), n);
            let raw = match find(&rest, &sep, 0) {
                Some(end) => slice(&rest, 0, end),
                None => rest,
            };
            let key = strip(&slice(line, 0, at), CharClass::Only('"'));
            let value = strip(&strip_end(&raw, CharClass::Only(',')), CharClass::Only('"'));
            Some((key, value))
        },
    }
}

fn take_line(scratch: &mut Scratch, done: &mut Vec<Task>, raw: &Vec<char>) -> (r: Result<
    (),
    ParseError,
>)
    ensures
        match r {
            Ok(()) => read_line(
                Reading { scratch: old(scratch)@, done: views(old(done)@) },
                raw@,
            ) == Ok::<Reading, ParseError>(
                Reading { scratch: final(scratch)@, done: views(final(done)@) },
            ),
            Err(e) => read_line(
                Reading { scratch: old(scratch)@, done: views(old(done)@) },
                raw@,
            ) == Err::<Reading, ParseError>(e),
        },
{
    let line = strip(raw, CharClass::Whitespace);
    if line.len() == 0 || equals_str(&line, "[") || equals_str(&line, "]") {
        Ok(())
    } else if equals_str(&line, "{") {
        *scratch = Scratch::blank();
        Ok(())
    } else if equals_str(&line, "}") || equals_str(&line, "},") {
        done.push(scratch.task());
        assert(views(done@) =~= views(old(done)@).push(scratch@));
        Ok(())
    } else {
        match split_pair(&line) {
            None => Err(ParseError::MalformedPair),
            Some((key, value)) => scratch.set(&key, value),
        }
    }
}

/// Reads a store from its text form.
pub fn read_tasks(text: &Vec<char>) -> (r: Result<Vec<Task>, ParseError>)
    ensures
        match r {
            Ok(tasks) => decode(text@) == Ok::<Seq<TaskView>, ParseError>(views(tasks@)),
            Err(e) => decode(text@) == Err::<Seq<TaskView>, ParseError>(e),
        },
{
    let mut done: Vec<Task> = Vec::new();
    let mut scratch = Scratch::blank();
    let n = text.len();
    let mut pos: usize = 0;
    assert(text@.skip(0) =~= text@);
    assert(views(done@) =~= Seq::<TaskView>::empty());
    while pos < n
        invariant
            pos <= n,
            n == text@.len(),
            read_lines(start(), lines(text@)) == read_lines(
                Reading { scratch: scratch@, done: views(done@) },
                lines(text@.skip(pos as int)),
            ),
        decreases n - pos,
    {
        let end = find_line_end(text, pos);
        let raw = slice(text, pos, end);
        let next: usize = if end < n {
            end + 1
        } else {
            end
        };
        proof {
            let rest = text@.skip(pos as int);
            assert(rest.take(line_end(rest)) =~= raw@);
            assert(after_line(rest) =~= text@.skip(next as int));
            let ls = lines(rest);
            assert(ls =~= seq![raw@] + lines(text@.skip(next as int)));
            assert(ls[0] == raw@);
            assert(ls.drop_first() =~= lines(text@.skip(next as int)));
        }
        match take_line(&mut scratch, &mut done, &raw) {
            Ok(()) => {},
            Err(e) => {
                return Err(e);
            },
        }
        pos = next;
    }
    assert(text@.skip(pos as int) =~= Seq::<char>::empty());
    Ok(done)
}

} // verus!
