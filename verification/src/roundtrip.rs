//! What is written can be read: the laws that tie the reader of the text
//! form to its writer.

use vstd::prelude::*;
use crate::codec::{
    continued,
    decode,
    document_lines,
    encode,
    lemma_continued_add,
    lemma_continued_push,
    pair_line,
    pair_of,
    quoted,
    read_line,
    read_lines,
    record_lines,
    records_lines,
    separator,
    start,
    with_field,
    ParseError,
    Reading,
};
use crate::datetime::{format_iso8601, lemma_format_layout, lemma_parse_format_civil, Civil};
use crate::decimal::{
    all_digits,
    decimal,
    is_digit,
    lemma_decimal_denotes,
    lemma_read_decimal,
    lemma_zero_padded_denotes,
    zero_padded,
};
use crate::task::TaskView;
use crate::text::{
    after_line,
    is_whitespace,
    lemma_first_occurrence,
    lemma_line_end,
    lemma_no_occurrence,
    lemma_without_leading,
    lemma_without_trailing,
    lines,
    occurs_at,
    stripped,
    trimmed,
    CharClass,
};
use crate::Status;

verus! {

/// Whether a text is free of line feeds.
pub open spec fn one_line(s: Seq<char>) -> bool {
    forall|i: int| 0 <= i < s.len() ==> #[trigger] s[i] != '\n'
}

/// Whether a text is free of spaces, quotes, commas and line feeds.
pub open spec fn bare(s: Seq<char>) -> bool {
    forall|i: int|
        0 <= i < s.len() ==> {
            let c = #[trigger] s[i];
            c != ' ' && c != '"' && c != ',' && c != '\n'
        }
}

// ---------------------------------------------------------------------------
// Lines of a joined text
// ---------------------------------------------------------------------------

/// A text that was joined from lines splits into those lines again, as long
/// as no line holds a line feed and the last line is not empty.
pub proof fn lemma_lines_of_joined(first: Seq<char>, rest: Seq<Seq<char>>)
    requires
        one_line(first),
        forall|i: int| 0 <= i < rest.len() ==> one_line(#[trigger] rest[i]),
        rest.len() == 0 ==> first.len() > 0,
        rest.len() > 0 ==> rest.last().len() > 0,
    ensures
        lines(first + continued(rest)) == seq![first] + rest,
    decreases rest.len(),
{
    let text = first + continued(rest);
    if rest.len() == 0 {
        assert(continued(rest) =~= Seq::<char>::empty());
        assert(text =~= first);
        lemma_line_end(text, text.len() as int);
        assert(text.take(text.len() as int) =~= first);
        assert(after_line(text) =~= Seq::<char>::empty());
        assert(lines(after_line(text)) =~= Seq::<Seq<char>>::empty());
        assert(lines(text) =~= seq![first] + rest);
    } else {
        let head = rest[0];
        let tail = rest.drop_first();
        assert(rest =~= seq![head] + tail);
        lemma_continued_add(seq![head], tail);
        lemma_continued_push(Seq::empty(), head);
        assert(Seq::<Seq<char>>::empty().push(head) =~= seq![head]);
        assert(continued(Seq::<Seq<char>>::empty()) =~= Seq::<char>::empty());
        let after = head + continued(tail);
        assert(continued(rest) =~= seq!['\n'] + after);
        assert(text =~= first + seq!['\n'] + after);
        assert forall|i: int| 0 <= i < first.len() implies #[trigger] text[i] != '\n' by {
            assert(text[i] == first[i]);
        }
        assert(text[first.len() as int] == '\n');
        lemma_line_end(text, first.len() as int);
        assert(text.take(first.len() as int) =~= first);
        assert(after_line(text) =~= after);
        assert forall|i: int| 0 <= i < tail.len() implies one_line(#[trigger] tail[i]) by {
            assert(tail[i] == rest[i + 1]);
        }
        if tail.len() > 0 {
            assert(tail.last() == rest.last());
        } else {
            assert(head == rest.last());
        }
        lemma_lines_of_joined(head, tail);
        assert(lines(text) =~= seq![first] + rest);
    }
}

// ---------------------------------------------------------------------------
// Reading line after line
// ---------------------------------------------------------------------------

/// Reading two runs of lines in a row is reading the first and, where that
/// went well, the second from where the first left off.
pub proof fn lemma_read_lines_add(state: Reading, a: Seq<Seq<char>>, b: Seq<Seq<char>>)
    ensures
        read_lines(state, a + b) == match read_lines(state, a) {
            Ok(mid) => read_lines(mid, b),
            Err(e) => Err(e),
        },
    decreases a.len(),
{
    if a.len() == 0 {
        assert(a + b =~= b);
    } else {
        assert((a + b)[0] == a[0]);
        assert((a + b).drop_first() =~= a.drop_first() + b);
        match read_line(state, a[0]) {
            Ok(next) => {
                lemma_read_lines_add(next, a.drop_first(), b);
            },
            Err(_) => {},
        }
    }
}

/// Reading one line more.
pub proof fn lemma_read_lines_push(state: Reading, ls: Seq<Seq<char>>, l: Seq<char>)
    ensures
        read_lines(state, ls.push(l)) == match read_lines(state, ls) {
            Ok(mid) => read_line(mid, l),
            Err(e) => Err(e),
        },
{
    lemma_read_lines_add(state, ls, seq![l]);
    assert(ls.push(l) =~= ls + seq![l]);
    assert(seq![l].drop_first() =~= Seq::<Seq<char>>::empty());
    match read_lines(state, ls) {
        Ok(mid) => {
            assert(read_lines(mid, seq![l]) == match read_line(mid, l) {
                Ok(next) => read_lines(next, seq![l].drop_first()),
                Err(e) => Err(e),
            });
        },
        Err(_) => {},
    }
}

// ---------------------------------------------------------------------------
// One field line
// ---------------------------------------------------------------------------

/// Stripping the quotes from a quoted text gives the text back, unless the
/// text itself starts or ends with a quote.
pub proof fn lemma_strip_quoted(inner: Seq<char>)
    requires
        inner.len() > 0 ==> inner[0] != '"' && inner.last() != '"',
    ensures
        stripped(quoted(inner), CharClass::Only('"')) == inner,
{
    let class = CharClass::Only('"');
    let q = quoted(inner);
    if inner.len() == 0 {
        lemma_without_leading(q, class, 2);
        assert(q.skip(2) =~= inner);
        lemma_without_trailing(inner, class, 0);
        assert(inner.take(0) =~= inner);
    } else {
        lemma_without_leading(q, class, 1);
        let rest = q.skip(1);
        assert(rest =~= inner + seq!['"']);
        lemma_without_trailing(rest, class, inner.len() as int);
        assert(rest.take(inner.len() as int) =~= inner);
    }
}

/// A text without quotes keeps its form when quotes are stripped.
pub proof fn lemma_strip_bare(s: Seq<char>)
    requires
        bare(s),
    ensures
        stripped(s, CharClass::Only('"')) == s,
{
    let class = CharClass::Only('"');
    lemma_without_leading(s, class, 0);
    assert(s.skip(0) =~= s);
    lemma_without_trailing(s, class, s.len() as int);
    assert(s.take(s.len() as int) =~= s);
}

/// The separator stands nowhere in a text without spaces.
pub proof fn lemma_bare_has_no_separator(s: Seq<char>)
    requires
        bare(s),
    ensures
        forall|j: int| !occurs_at(s, separator(), j),
{
    reveal_strlit(" : ");
    assert forall|j: int| !occurs_at(s, separator(), j) by {
        if occurs_at(s, separator(), j) {
            assert(s.subrange(j, j + 3)[0] == s[j]);
        }
    }
}

/// The separator stands nowhere in a quoted text unless it stands in the
/// text between the quotes.
pub proof fn lemma_quoted_has_no_separator(inner: Seq<char>)
    requires
        forall|j: int| !occurs_at(inner, separator(), j),
    ensures
        forall|j: int| !occurs_at(quoted(inner), separator(), j),
{
    reveal_strlit(" : ");
    let q = quoted(inner);
    assert forall|j: int| !occurs_at(q, separator(), j) by {
        if occurs_at(q, separator(), j) {
            let found = q.subrange(j, j + 3);
            assert(found[0] == q[j]);
            assert(found[2] == q[j + 2]);
            assert(j >= 1);
            assert(j + 3 <= q.len() - 1);
            assert(inner.subrange(j - 1, j + 2) =~= found);
            assert(occurs_at(inner, separator(), j - 1));
        }
    }
}

/// What the reader makes of a field line as the writer writes it: the line
/// starts with a quote once the blanks before it are gone, and splits into
/// the key and the value without its quotes.
pub proof fn lemma_pair_of_line(key: Seq<char>, value: Seq<char>, inner: Seq<char>, more: bool)
    requires
        key.len() > 0,
        bare(key),
        value.len() > 0,
        !is_whitespace(value.last()),
        value.last() != ',',
        forall|j: int| !occurs_at(value, separator(), j),
        stripped(value, CharClass::Only('"')) == inner,
    ensures
        trimmed(pair_line(key, value, more)).len() > 0,
        trimmed(pair_line(key, value, more))[0] == '"',
        pair_of(trimmed(pair_line(key, value, more))) == Some((key, inner)),
{
    reveal_strlit("    \"");
    reveal_strlit("\" : ");
    reveal_strlit(" : ");
    let sep = separator();
    let comma = if more {
        seq![',']
    } else {
        Seq::<char>::empty()
    };
    let raw = pair_line(key, value, more);
    assert(raw == "    \""@ + key + "\" : "@ + value + comma);
    let tail = value + comma;
    let line = seq!['"'] + key + seq!['"'] + sep + tail;
    assert(raw =~= seq![' ', ' ', ' ', ' '] + line);

    // The blanks at the start go, and nothing goes at the end.
    lemma_without_leading(raw, CharClass::Whitespace, 4);
    assert(raw.skip(4) =~= line);
    assert(line.last() == tail.last());
    assert(!is_whitespace(tail.last()));
    lemma_without_trailing(line, CharClass::Whitespace, line.len() as int);
    assert(line.take(line.len() as int) =~= line);
    assert(trimmed(raw) == line);

    // The first separator follows the key.
    let at = key.len() as int + 2;
    assert(line.subrange(at, at + 3) =~= sep);
    assert forall|j: int| 0 <= j < at implies !occurs_at(line, sep, j) by {
        if occurs_at(line, sep, j) {
            assert(line.subrange(j, j + 3)[0] == line[j]);
            if 1 <= j <= key.len() {
                assert(line[j] == key[j - 1]);
            }
        }
    }
    lemma_first_occurrence(line, sep, 0, at);

    // No second separator follows.
    let rest = line.skip(at + sep.len());
    assert(rest =~= tail);
    assert forall|j: int| 0 <= j implies !occurs_at(tail, sep, j) by {
        if occurs_at(tail, sep, j) {
            let found = tail.subrange(j, j + 3);
            if j + 3 <= value.len() {
                assert(value.subrange(j, j + 3) =~= found);
                assert(occurs_at(value, sep, j));
            } else {
                assert(found[2] == tail[j + 2]);
            }
        }
    }
    lemma_no_occurrence(tail, sep, 0);

    // The comma goes, then the quotes.
    lemma_without_trailing(tail, CharClass::Only(','), value.len() as int);
    assert(tail.take(value.len() as int) =~= value);
    assert(line.take(at) =~= quoted(key));
    lemma_strip_quoted(key);
}

/// A field line holds no line feed where its key and its value hold none.
pub proof fn lemma_pair_line_one_line(key: Seq<char>, value: Seq<char>, more: bool)
    requires
        one_line(key),
        one_line(value),
    ensures
        one_line(pair_line(key, value, more)),
{
    reveal_strlit("    \"");
    reveal_strlit("\" : ");
    let line = pair_line(key, value, more);
    assert forall|i: int| 0 <= i < line.len() implies #[trigger] line[i] != '\n' by {
        if i < 5 {
        } else if i < 5 + key.len() {
            assert(line[i] == key[i - 5]);
        } else if i < 9 + key.len() {
        } else if i < 9 + key.len() + value.len() {
            assert(line[i] == value[i - 9 - key.len()]);
        } else {
        }
    }
}

/// What a field line does to the reader: it sets the field that its key
/// names to the value without its quotes.
pub proof fn lemma_read_field(
    state: Reading,
    key: Seq<char>,
    value: Seq<char>,
    inner: Seq<char>,
    more: bool,
)
    requires
        key.len() > 0,
        bare(key),
        value.len() > 0,
        !is_whitespace(value.last()),
        value.last() != ',',
        forall|j: int| !occurs_at(value, separator(), j),
        stripped(value, CharClass::Only('"')) == inner,
    ensures
        read_line(state, pair_line(key, value, more)) == match with_field(
            state.scratch,
            key,
            inner,
        ) {
            Ok(scratch) => Ok::<Reading, ParseError>(Reading { scratch, ..state }),
            Err(e) => Err(e),
        },
{
    lemma_pair_of_line(key, value, inner, more);
    reveal_strlit("[");
    reveal_strlit("]");
    reveal_strlit("{");
    reveal_strlit("}");
    reveal_strlit("},");
}

// ---------------------------------------------------------------------------
// The keys and the values of a record
// ---------------------------------------------------------------------------

/// The five keys are bare words, each different from the others.
pub proof fn lemma_keys()
    ensures
        bare("id"@) && "id"@.len() > 0,
        bare("description"@) && "description"@.len() > 0,
        bare("status"@) && "status"@.len() > 0,
        bare("createdAt"@) && "createdAt"@.len() > 0,
        bare("updatedAt"@) && "updatedAt"@.len() > 0,
        "description"@ != "id"@,
        "status"@ != "id"@ && "status"@ != "description"@,
        "createdAt"@ != "id"@ && "createdAt"@ != "description"@ && "createdAt"@ != "status"@,
        "updatedAt"@ != "id"@ && "updatedAt"@ != "description"@ && "updatedAt"@ != "status"@
            && "updatedAt"@ != "createdAt"@,
{
    reveal_strlit("id");
    reveal_strlit("description");
    reveal_strlit("status");
    reveal_strlit("createdAt");
    reveal_strlit("updatedAt");
    assert("createdAt"@[0] == 'c' && "updatedAt"@[0] == 'u');
}

/// The three status words are bare words.
pub proof fn lemma_token_bare(status: Status)
    ensures
        bare(status.token()),
        status.token().len() > 0,
{
    reveal_strlit("todo");
    reveal_strlit("in-progress");
    reveal_strlit("done");
}

/// A run of digits is a bare word, and no digit is whitespace.
pub proof fn lemma_digits_bare(s: Seq<char>)
    requires
        all_digits(s),
    ensures
        bare(s),
        forall|i: int| 0 <= i < s.len() ==> !is_whitespace(#[trigger] s[i]),
{
    assert forall|i: int| 0 <= i < s.len() implies {
        let c = #[trigger] s[i];
        c != ' ' && c != '"' && c != ',' && c != '\n' && !is_whitespace(c)
    } by {
        assert(is_digit(s[i]));
    }
}

/// The text form of a timestamp is a bare word of twenty characters, where
/// every field fits its width.
pub proof fn lemma_format_bare(t: Civil)
    requires
        t.fits_text(),
    ensures
        format_iso8601(t).len() == 20,
        bare(format_iso8601(t)),
{
    lemma_format_layout(t);
    lemma_zero_padded_denotes(t.year, 4);
    lemma_zero_padded_denotes(t.month, 2);
    lemma_zero_padded_denotes(t.day, 2);
    lemma_zero_padded_denotes(t.hour, 2);
    lemma_zero_padded_denotes(t.minute, 2);
    lemma_zero_padded_denotes(t.second, 2);
    let s = format_iso8601(t);
    assert forall|i: int| 0 <= i < s.len() implies {
        let c = #[trigger] s[i];
        c != ' ' && c != '"' && c != ',' && c != '\n'
    } by {
        if i < 4 {
            assert(s[i] == s.subrange(0, 4)[i]);
            assert(is_digit(zero_padded(t.year, 4)[i]));
        } else if 5 <= i < 7 {
            assert(s[i] == s.subrange(5, 7)[i - 5]);
            assert(is_digit(zero_padded(t.month, 2)[i - 5]));
        } else if 8 <= i < 10 {
            assert(s[i] == s.subrange(8, 10)[i - 8]);
            assert(is_digit(zero_padded(t.day, 2)[i - 8]));
        } else if 11 <= i < 13 {
            assert(s[i] == s.subrange(11, 13)[i - 11]);
            assert(is_digit(zero_padded(t.hour, 2)[i - 11]));
        } else if 14 <= i < 16 {
            assert(s[i] == s.subrange(14, 16)[i - 14]);
            assert(is_digit(zero_padded(t.minute, 2)[i - 14]));
        } else if 17 <= i < 19 {
            assert(s[i] == s.subrange(17, 19)[i - 17]);
            assert(is_digit(zero_padded(t.second, 2)[i - 17]));
        }
    }
}

/// Whether a description comes back as it is from the text form: it holds
/// no line feed and no separator, and neither starts nor ends with a quote.
pub open spec fn plain_description(d: Seq<char>) -> bool {
    &&& one_line(d)
    &&& forall|j: int| !occurs_at(d, separator(), j)
    &&& d.len() > 0 ==> d[0] != '"' && d.last() != '"'
}

/// Whether a task comes back as it is from the text form: its id fits 32
/// bits, its description is plain, and its timestamps fit the text form.
pub open spec fn storable(t: TaskView) -> bool {
    &&& t.id <= u32::MAX
    &&& plain_description(t.description)
    &&& t.created_at.fits_text()
    &&& t.updated_at.fits_text()
}

/// Whether every task of a store is storable.
pub open spec fn all_storable(tasks: Seq<TaskView>) -> bool {
    forall|i: int| 0 <= i < tasks.len() ==> storable(#[trigger] tasks[i])
}

/// What a quoted value needs to be read back: it ends with a quote, holds
/// no separator and no line feed, and gives the text between its quotes
/// when they are stripped.
pub proof fn lemma_quoted_value(inner: Seq<char>)
    requires
        one_line(inner),
        forall|j: int| !occurs_at(inner, separator(), j),
        inner.len() > 0 ==> inner[0] != '"' && inner.last() != '"',
    ensures
        quoted(inner).len() > 0,
        !is_whitespace(quoted(inner).last()),
        quoted(inner).last() != ',',
        one_line(quoted(inner)),
        forall|j: int| !occurs_at(quoted(inner), separator(), j),
        stripped(quoted(inner), CharClass::Only('"')) == inner,
{
    lemma_quoted_has_no_separator(inner);
    lemma_strip_quoted(inner);
    let q = quoted(inner);
    assert(q.last() == '"');
    assert forall|i: int| 0 <= i < q.len() implies #[trigger] q[i] != '\n' by {
        if 1 <= i <= inner.len() {
            assert(q[i] == inner[i - 1]);
        }
    }
}

/// A bare word can stand between quotes as a value.
pub proof fn lemma_bare_is_plain(s: Seq<char>)
    requires
        bare(s),
    ensures
        one_line(s),
        forall|j: int| !occurs_at(s, separator(), j),
        s.len() > 0 ==> s[0] != '"' && s.last() != '"',
{
    lemma_bare_has_no_separator(s);
}

// ---------------------------------------------------------------------------
// Brackets and braces
// ---------------------------------------------------------------------------

/// A bracket changes nothing.
pub proof fn lemma_read_bracket(state: Reading, closing: bool)
    ensures
        read_line(state, if closing { "]"@ } else { "["@ }) == Ok::<Reading, ParseError>(state),
        one_line("["@) && "["@.len() > 0,
        one_line("]"@) && "]"@.len() > 0,
{
    reveal_strlit("[");
    reveal_strlit("]");
    let raw = if closing {
        "]"@
    } else {
        "["@
    };
    lemma_without_leading(raw, CharClass::Whitespace, 0);
    assert(raw.skip(0) =~= raw);
    lemma_without_trailing(raw, CharClass::Whitespace, 1);
    assert(raw.take(1) =~= raw);
}

/// An opening brace starts a task with every field zero.
pub proof fn lemma_read_open_brace(state: Reading)
    ensures
        read_line(state, "  {"@) == Ok::<Reading, ParseError>(
            Reading { scratch: TaskView::blank(), ..state },
        ),
        one_line("  {"@),
{
    reveal_strlit("  {");
    reveal_strlit("[");
    reveal_strlit("]");
    reveal_strlit("{");
    let raw = "  {"@;
    lemma_without_leading(raw, CharClass::Whitespace, 2);
    let line = raw.skip(2);
    lemma_without_trailing(line, CharClass::Whitespace, 1);
    assert(line.take(1) =~= line);
    assert(line =~= "{"@);
}

/// A closing brace, with or without a comma, adds the task to the finished
/// ones.
pub proof fn lemma_read_close_brace(state: Reading, more: bool)
    ensures
        read_line(state, if more { "  },"@ } else { "  }"@ }) == Ok::<Reading, ParseError>(
            Reading { done: state.done.push(state.scratch), ..state },
        ),
        one_line("  },"@) && one_line("  }"@),
{
    reveal_strlit("  },");
    reveal_strlit("  }");
    reveal_strlit("[");
    reveal_strlit("]");
    reveal_strlit("{");
    reveal_strlit("}");
    reveal_strlit("},");
    let raw = if more {
        "  },"@
    } else {
        "  }"@
    };
    lemma_without_leading(raw, CharClass::Whitespace, 2);
    let line = raw.skip(2);
    lemma_without_trailing(line, CharClass::Whitespace, line.len() as int);
    assert(line.take(line.len() as int) =~= line);
    if more {
        assert(line =~= "},"@);
    } else {
        assert(line =~= "}"@);
    }
}

// ---------------------------------------------------------------------------
// One record
// ---------------------------------------------------------------------------

/// The line of each field of a storable task sets that field, and holds no
/// line feed.
pub proof fn lemma_read_record_fields(state: Reading, t: TaskView)
    requires
        storable(t),
    ensures
        read_line(state, pair_line("id"@, decimal(t.id), true)) == Ok::<Reading, ParseError>(
            Reading { scratch: TaskView { id: t.id, ..state.scratch }, ..state },
        ),
        read_line(state, pair_line("description"@, quoted(t.description), true)) == Ok::<
            Reading,
            ParseError,
        >(Reading { scratch: TaskView { description: t.description, ..state.scratch }, ..state }),
        read_line(state, pair_line("status"@, quoted(t.status.token()), true)) == Ok::<
            Reading,
            ParseError,
        >(Reading { scratch: TaskView { status: t.status, ..state.scratch }, ..state }),
        read_line(
            state,
            pair_line("createdAt"@, quoted(format_iso8601(t.created_at)), true),
        ) == Ok::<Reading, ParseError>(
            Reading { scratch: TaskView { created_at: t.created_at, ..state.scratch }, ..state },
        ),
        read_line(
            state,
            pair_line("updatedAt"@, quoted(format_iso8601(t.updated_at)), false),
        ) == Ok::<Reading, ParseError>(
            Reading { scratch: TaskView { updated_at: t.updated_at, ..state.scratch }, ..state },
        ),
        one_line(pair_line("id"@, decimal(t.id), true)),
        one_line(pair_line("description"@, quoted(t.description), true)),
        one_line(pair_line("status"@, quoted(t.status.token()), true)),
        one_line(pair_line("createdAt"@, quoted(format_iso8601(t.created_at)), true)),
        one_line(pair_line("updatedAt"@, quoted(format_iso8601(t.updated_at)), false)),
{
    lemma_keys();
    lemma_bare_is_plain("id"@);
    lemma_bare_is_plain("description"@);
    lemma_bare_is_plain("status"@);
    lemma_bare_is_plain("createdAt"@);
    lemma_bare_is_plain("updatedAt"@);

    // The id.
    let id = decimal(t.id);
    lemma_decimal_denotes(t.id);
    lemma_digits_bare(id);
    lemma_bare_is_plain(id);
    lemma_strip_bare(id);
    lemma_read_decimal(t.id, u32::MAX as nat);
    lemma_read_field(state, "id"@, id, id, true);
    lemma_pair_line_one_line("id"@, id, true);

    // The description.
    lemma_quoted_value(t.description);
    lemma_read_field(state, "description"@, quoted(t.description), t.description, true);
    lemma_pair_line_one_line("description"@, quoted(t.description), true);

    // The status.
    let token = t.status.token();
    lemma_token_bare(t.status);
    lemma_bare_is_plain(token);
    lemma_quoted_value(token);
    t.status.lemma_token_round_trip();
    lemma_read_field(state, "status"@, quoted(token), token, true);
    lemma_pair_line_one_line("status"@, quoted(token), true);

    // The two timestamps.
    let created = format_iso8601(t.created_at);
    lemma_format_bare(t.created_at);
    lemma_bare_is_plain(created);
    lemma_quoted_value(created);
    lemma_parse_format_civil(t.created_at);
    lemma_read_field(state, "createdAt"@, quoted(created), created, true);
    lemma_pair_line_one_line("createdAt"@, quoted(created), true);

    let updated = format_iso8601(t.updated_at);
    lemma_format_bare(t.updated_at);
    lemma_bare_is_plain(updated);
    lemma_quoted_value(updated);
    lemma_parse_format_civil(t.updated_at);
    lemma_read_field(state, "updatedAt"@, quoted(updated), updated, false);
    lemma_pair_line_one_line("updatedAt"@, quoted(updated), false);
}

/// Reading the lines of a storable task adds that task to the finished
/// ones, whatever the reader held before.
pub proof fn lemma_read_record(state: Reading, t: TaskView, more: bool)
    requires
        storable(t),
    ensures
        read_lines(state, record_lines(t, more)) == Ok::<Reading, ParseError>(
            Reading { scratch: t, done: state.done.push(t) },
        ),
        record_lines(t, more).len() == 7,
        forall|i: int| 0 <= i < 7 ==> one_line(#[trigger] record_lines(t, more)[i]),
{
    let l0 = "  {"@;
    let l1 = pair_line("id"@, decimal(t.id), true);
    let l2 = pair_line("description"@, quoted(t.description), true);
    let l3 = pair_line("status"@, quoted(t.status.token()), true);
    let l4 = pair_line("createdAt"@, quoted(format_iso8601(t.created_at)), true);
    let l5 = pair_line("updatedAt"@, quoted(format_iso8601(t.updated_at)), false);
    let l6 = if more {
        "  },"@
    } else {
        "  }"@
    };
    let blank = TaskView::blank();
    let s1 = Reading { scratch: blank, ..state };
    let s2 = Reading { scratch: TaskView { id: t.id, ..s1.scratch }, ..state };
    let s3 = Reading { scratch: TaskView { description: t.description, ..s2.scratch }, ..state };
    let s4 = Reading { scratch: TaskView { status: t.status, ..s3.scratch }, ..state };
    let s5 = Reading { scratch: TaskView { created_at: t.created_at, ..s4.scratch }, ..state };
    let s6 = Reading { scratch: TaskView { updated_at: t.updated_at, ..s5.scratch }, ..state };
    assert(s6.scratch == t);

    lemma_read_open_brace(state);
    lemma_read_record_fields(s1, t);
    lemma_read_record_fields(s2, t);
    lemma_read_record_fields(s3, t);
    lemma_read_record_fields(s4, t);
    lemma_read_record_fields(s5, t);
    lemma_read_close_brace(s6, more);

    let ls0 = Seq::<Seq<char>>::empty();
    let ls1 = ls0.push(l0);
    let ls2 = ls1.push(l1);
    let ls3 = ls2.push(l2);
    let ls4 = ls3.push(l3);
    let ls5 = ls4.push(l4);
    let ls6 = ls5.push(l5);
    let ls7 = ls6.push(l6);
    assert(read_lines(state, ls0) == Ok::<Reading, ParseError>(state));
    lemma_read_lines_push(state, ls0, l0);
    lemma_read_lines_push(state, ls1, l1);
    lemma_read_lines_push(state, ls2, l2);
    lemma_read_lines_push(state, ls3, l3);
    lemma_read_lines_push(state, ls4, l4);
    lemma_read_lines_push(state, ls5, l5);
    lemma_read_lines_push(state, ls6, l6);
    assert(record_lines(t, more) == ls7);
    assert forall|i: int| 0 <= i < 7 implies one_line(#[trigger] ls7[i]) by {
        if i == 0 {
        } else if i == 1 {
        } else if i == 2 {
        } else if i == 3 {
        } else if i == 4 {
        } else if i == 5 {
        } else {
        }
    }
}

// ---------------------------------------------------------------------------
// The whole text
// ---------------------------------------------------------------------------

/// Reading the bracket and the lines of the first `upto` tasks of a store
/// leaves those tasks finished.
pub proof fn lemma_read_records(tasks: Seq<TaskView>, upto: int)
    requires
        all_storable(tasks),
        0 <= upto <= tasks.len(),
    ensures
        read_lines(start(), seq!["["@] + records_lines(tasks, upto)) == Ok::<
            Reading,
            ParseError,
        >(
            Reading {
                scratch: if upto == 0 {
                    TaskView::blank()
                } else {
                    tasks[upto - 1]
                },
                done: tasks.take(upto),
            },
        ),
        forall|i: int|
            0 <= i < records_lines(tasks, upto).len() ==> one_line(
                #[trigger] records_lines(tasks, upto)[i],
            ),
    decreases upto,
{
    if upto == 0 {
        lemma_read_bracket(start(), false);
        lemma_read_lines_push(start(), Seq::empty(), "["@);
        assert(Seq::<Seq<char>>::empty().push("["@) =~= seq!["["@] + records_lines(tasks, 0));
        assert(tasks.take(0) =~= Seq::<TaskView>::empty());
    } else {
        lemma_read_records(tasks, upto - 1);
        let t = tasks[upto - 1];
        let more = upto < tasks.len();
        let before = seq!["["@] + records_lines(tasks, upto - 1);
        let mid = Reading {
            scratch: if upto - 1 == 0 {
                TaskView::blank()
            } else {
                tasks[upto - 2]
            },
            done: tasks.take(upto - 1),
        };
        lemma_read_record(mid, t, more);
        lemma_read_lines_add(start(), before, record_lines(t, more));
        assert(before + record_lines(t, more) =~= seq!["["@] + records_lines(tasks, upto));
        assert(tasks.take(upto - 1).push(t) =~= tasks.take(upto));
        let all = records_lines(tasks, upto);
        let earlier = records_lines(tasks, upto - 1);
        assert forall|i: int| 0 <= i < all.len() implies one_line(#[trigger] all[i]) by {
            if i < earlier.len() {
                assert(all[i] == earlier[i]);
            } else {
                assert(all[i] == record_lines(t, more)[i - earlier.len()]);
            }
        }
    }
}

/// The text of a store of storable tasks splits into the lines that it was
/// joined from.
pub proof fn lemma_lines_of_encoded(tasks: Seq<TaskView>)
    requires
        all_storable(tasks),
    ensures
        lines(encode(tasks)) == document_lines(tasks),
{
    let records = records_lines(tasks, tasks.len() as int);
    let rest = records + seq!["]"@];
    lemma_read_records(tasks, tasks.len() as int);
    lemma_read_bracket(start(), true);
    assert forall|i: int| 0 <= i < rest.len() implies one_line(#[trigger] rest[i]) by {
        if i < records.len() {
            assert(rest[i] == records[i]);
        }
    }
    assert(rest.last() == "]"@);
    lemma_lines_of_joined("["@, rest);
    assert(document_lines(tasks)[0] == "["@);
    assert(document_lines(tasks).drop_first() =~= rest);
    assert(seq!["["@] + rest =~= document_lines(tasks));
}

/// Reading what was written gives the store back: for every store whose
/// tasks are storable, the empty store among them, the text form stands for
/// the same tasks in the same order.
pub proof fn lemma_decode_encode(tasks: Seq<TaskView>)
    requires
        all_storable(tasks),
    ensures
        decode(encode(tasks)) == Ok::<Seq<TaskView>, ParseError>(tasks),
{
    let n = tasks.len() as int;
    let records = records_lines(tasks, n);
    lemma_lines_of_encoded(tasks);
    lemma_read_records(tasks, n);
    let before = seq!["["@] + records;
    let state = Reading {
        scratch: if n == 0 {
            TaskView::blank()
        } else {
            tasks[n - 1]
        },
        done: tasks.take(n),
    };
    lemma_read_lines_push(start(), before, "]"@);
    lemma_read_bracket(state, true);
    assert(before.push("]"@) =~= document_lines(tasks));
    assert(tasks.take(n) =~= tasks);
}

/// Writing is stable: the text of a store of storable tasks, read and
/// written again, is the same text, character for character.
pub proof fn lemma_encode_decode_encode(tasks: Seq<TaskView>)
    requires
        all_storable(tasks),
    ensures
        decode(encode(tasks)) is Ok,
        encode(decode(encode(tasks))->Ok_0) == encode(tasks),
{
    lemma_decode_encode(tasks);
}

} // verus!
