//! What holds of the protocol as a whole.
use crate::command;
use crate::decimal;
use crate::encoding;
use crate::exchange::{
    self, ActionView, EventView, ExchangeView, Header, OutcomeView, Reply, State,
};
use crate::reply::{self, JobHeader};
use crate::stats;
use crate::text::{self, Blank};
use crate::types::{ErrorView, IgnoreResult, JobView, PutResult, ReleaseResult, ReserveView};
use vstd::prelude::*;
use vstd::utf8::*;

verus! {

/// Whether an outcome is of the kind that a form of reply gives.
pub open spec fn fits(form: Reply, outcome: OutcomeView) -> bool {
    match form {
        Reply::PauseTube | Reply::KickJob | Reply::Touch | Reply::Bury | Reply::Delete => outcome
            is Flag,
        Reply::Kick | Reply::Watch => outcome is Count,
        Reply::Tube | Reply::UseTube => outcome is Tube,
        Reply::Tubes => outcome is Tubes,
        Reply::Stats => outcome is Stats,
        Reply::StatsTubeOrJob => outcome is StatsIfFound,
        Reply::Peek | Reply::ReserveJob => outcome is JobIfFound,
        Reply::Ignore => outcome is Ignore,
        Reply::Release => outcome is Release,
        Reply::Reserve => outcome is Reserve,
        Reply::Put => outcome is Put,
    }
}

/// The result of a command is of one kind, which the form of its reply fixes.
pub proof fn law_typed_results(form: Reply, header: Header, event: EventView)
    ensures
        exchange::acceptable(State::Line(form), event) ==> (exchange::next(
            State::Line(form),
            event,
        ).action matches ActionView::Finish(Ok(outcome)) ==> fits(form, outcome)),
        exchange::acceptable(State::Body(form, header), event) ==> (exchange::next(
            State::Body(form, header),
            event,
        ).action matches ActionView::Finish(Ok(outcome)) ==> fits(form, outcome)),
{
}

/// Where reading or writing fails, the command fails with that error, wherever it stood.
pub proof fn law_io_failure_is_reported(state: State, e: std::io::Error)
    requires
        !(state is Finished),
    ensures
        exchange::acceptable(state, EventView::Failed(e)),
        exchange::next(state, EventView::Failed(e)) == exchange::finished(
            Err(ErrorView::Io(e)),
        ),
{
}

/// How many steps an exchange may still take.
pub open spec fn steps_left(state: State) -> nat {
    match state {
        State::Sending(_) => 3,
        State::Line(_) => 2,
        State::Body(_, _) => 1,
        State::Finished => 0,
    }
}

/// Whether what is to be done is what the state waits for: a body is read with its line end,
/// and the result is there exactly at the end.
pub open spec fn in_step(x: ExchangeView) -> bool {
    match x.state {
        State::Sending(_) => x.action is Write,
        State::Line(_) => x.action is ReadLine,
        State::Body(_, header) => x.action == ActionView::ReadExact(
            (exchange::body_size(header) + 2) as usize,
        ) && exchange::body_size(header) <= usize::MAX - 2,
        State::Finished => x.action is Finish,
    }
}

/// Every step brings an exchange nearer to its end, and the state and the action keep in step.
pub proof fn law_exchange_ends(state: State, event: EventView)
    requires
        exchange::acceptable(state, event),
    ensures
        steps_left(exchange::next(state, event).state) < steps_left(state),
        in_step(exchange::next(state, event)),
{
    if let (State::Line(form), EventView::Line(line)) = (state, event) {
        reply::lemma_size_leaves_room(line, "FOUND "@);
        reply::lemma_size_leaves_room(line, "RESERVED "@);
    }
}

/// A line that no rule covers is reported as it came, and nothing else is reported so.
pub proof fn law_unexpected_response_is_verbatim(state: State, event: EventView, shown: Seq<char>)
    requires
        exchange::acceptable(state, event),
        exchange::next(state, event) == exchange::finished(
            Err(ErrorView::UnexpectedResponse(shown)),
        ),
    ensures
        event == EventView::Line(shown),
{
}

/// A word that differs from a line in one of the first two characters does not start it.
pub(crate) proof fn lemma_not_prefix(word: Seq<char>, line: Seq<char>)
    requires
        word.len() > 1,
        line.len() > 1,
        word[0] != line[0] || word[1] != line[1],
    ensures
        !word.is_prefix_of(line),
{
    if word.is_prefix_of(line) {
        assert(word == line.subrange(0, word.len() as int));
        assert(word[0] == line[0]);
        assert(word[1] == line[1]);
    }
}

/// Whatever the command was, a line that refuses it ends the exchange with its error.
pub proof fn law_global_errors_end_every_exchange(form: Reply, line: Seq<char>)
    requires
        reply::global_error(line) is Some,
    ensures
        exchange::acceptable(State::Line(form), EventView::Line(line)),
        exchange::next(State::Line(form), EventView::Line(line)) == exchange::finished(
            Err(reply::global_error(line)->0),
        ),
{
    reveal_strlit("OUT_OF_MEMORY\r\n");
    reveal_strlit("INTERNAL_ERROR\r\n");
    reveal_strlit("BAD_FORMAT\r\n");
    reveal_strlit("UNKNOWN_COMMAND\r\n");
    reveal_strlit("OK");
    reveal_strlit("USING");
    reveal_strlit("KICKED");
    reveal_strlit("WATCHING");
    reveal_strlit("INSERTED");
    reveal_strlit("BURIED");
    reveal_strlit("FOUND");
    reveal_strlit("RESERVED");
    lemma_not_prefix("OK"@, line);
    lemma_not_prefix("USING"@, line);
    lemma_not_prefix("KICKED"@, line);
    lemma_not_prefix("WATCHING"@, line);
    lemma_not_prefix("BURIED"@, line);
    lemma_not_prefix("FOUND"@, line);
    lemma_not_prefix("RESERVED"@, line);
    assert(!"INSERTED"@.is_prefix_of(line)) by {
        if "INSERTED"@.is_prefix_of(line) {
            assert("INSERTED"@ == line.subrange(0, 8));
            assert("INSERTED"@[2] == line[2]);
        }
    }
}

/// A line end is what is trimmed off a line that has no blank before it.
proof fn lemma_trim_line_end(s: Seq<char>, blank: Blank)
    requires
        s.len() > 0,
        !text::is_blank(s.last(), blank),
    ensures
        text::trimmed(s + "\r\n"@, blank) == s,
{
    reveal_strlit("\r\n");
    let line = s + "\r\n"@;
    assert forall|j: int| s.len() <= j < line.len() implies text::is_blank(line[j], blank) by {
        assert(line[j] == "\r\n"@[j - s.len()]);
    }
    text::lemma_trimmed(line, blank, s.len() as int);
    assert(line.take(s.len() as int) == s);
}

/// What follows a prefix is what was put after it.
proof fn lemma_after_prefix(p: Seq<char>, s: Seq<char>)
    ensures
        text::after_prefix(p + s, p) == Some(s),
{
    assert((p + s).subrange(0, p.len() as int) == p);
    assert((p + s).skip(p.len() as int) == s);
}

/// A prefix of a prefix is a prefix.
pub(crate) proof fn lemma_prefix_of_sum(word: Seq<char>, head: Seq<char>, s: Seq<char>)
    requires
        word.is_prefix_of(head),
    ensures
        word.is_prefix_of(head + s),
{
    assert((head + s).subrange(0, word.len() as int) == head.subrange(0, word.len() as int));
}

/// A digit is not blank.
proof fn lemma_digit_not_blank(c: char, blank: Blank)
    requires
        '0' <= c <= '9',
    ensures
        !text::is_blank(c, blank),
{
}

/// The parts before and after a separator are those that it was put between, if the
/// separator is one character that the first part does not hold.
pub(crate) proof fn lemma_halves_at(a: Seq<char>, c: char, b: Seq<char>)
    requires
        !a.contains(c),
    ensures
        text::halves(a + seq![c] + b, seq![c]) == Some((a, b)),
{
    let s = a + seq![c] + b;
    let n = a.len() as int;
    assert(s.skip(n).subrange(0, 1) == seq![c]);
    assert(text::occurs_at(s, seq![c], n));
    assert forall|j: int| 0 <= j < n implies !text::occurs_at(s, seq![c], j) by {
        if text::occurs_at(s, seq![c], j) {
            assert(seq![c] == s.skip(j).subrange(0, 1));
            assert(seq![c][0] == a[j]);
        }
    }
    text::lemma_first_position_is(s, seq![c], n);
    assert(s.take(n) == a);
    assert(s.skip(n + 1) == b);
}

/// A number that stands in a line after `head` is read back.
proof fn lemma_number_field(head: Seq<char>, n: u64)
    ensures
        reply::number_field(head + decimal::decimal(n as nat) + "\r\n"@, head) == Some(n),
{
    let digits = decimal::decimal(n as nat);
    decimal::lemma_decimal_value(n as nat);
    decimal::lemma_decimal_roundtrip(n as nat, u64::MAX as int);
    assert((head + digits).last() == digits[digits.len() - 1]);
    lemma_digit_not_blank(digits[digits.len() - 1], Blank::Ascii);
    lemma_trim_line_end(head + digits, Blank::Ascii);
    lemma_after_prefix(head, digits);
}

/// The number and the size of a job that stand in a line after `head` are read back.
proof fn lemma_job_fields(head: Seq<char>, h: JobHeader)
    requires
        h.bytes <= usize::MAX - 2,
    ensures
        reply::job_fields(
            head + decimal::decimal(h.id as nat) + " "@ + decimal::decimal(h.bytes as nat)
                + "\r\n"@,
            head,
        ) == Some(h),
{
    reveal_strlit(" ");
    assert(" "@ == seq![' ']);
    let id = decimal::decimal(h.id as nat);
    let size = decimal::decimal(h.bytes as nat);
    decimal::lemma_decimal_value(h.id as nat);
    decimal::lemma_decimal_value(h.bytes as nat);
    decimal::lemma_decimal_roundtrip(h.id as nat, u64::MAX as int);
    decimal::lemma_decimal_roundtrip(h.bytes as nat, usize::MAX - 2);
    let fields = id + seq![' '] + size;
    let start = head + id + " "@ + size;
    assert(start == head + fields);
    assert(start.last() == size[size.len() - 1]);
    lemma_digit_not_blank(size[size.len() - 1], Blank::Ascii);
    lemma_trim_line_end(start, Blank::Ascii);
    lemma_after_prefix(head, fields);
    assert(!id.contains(' ')) by {
        if id.contains(' ') {
            let i = choose|i: int| 0 <= i < id.len() && id[i] == ' ';
            assert('0' <= id[i] <= '9');
        }
    }
    lemma_halves_at(id, ' ', size);
    text::lemma_first_position(size, seq![' ']);
    if let Some(i) = text::first_position(size, seq![' ']) {
        assert(seq![' '] == size.skip(i).subrange(0, 1));
        assert(seq![' '][0] == size[i]);
        assert('0' <= size[i] <= '9');
    }
}

/// The line that announces a text of `n` bytes.
pub open spec fn ok_line(n: nat) -> Seq<char> {
    "OK "@ + decimal::decimal(n) + "\r\n"@
}

/// The size of an announced text is read back.
proof fn lemma_text_size(n: usize)
    requires
        n <= usize::MAX - 2,
    ensures
        reply::text_size(ok_line(n as nat)) == Some(n),
{
    let digits = decimal::decimal(n as nat);
    decimal::lemma_decimal_value(n as nat);
    decimal::lemma_decimal_roundtrip(n as nat, usize::MAX - 2);
    assert(("OK "@ + digits).last() == digits[digits.len() - 1]);
    lemma_digit_not_blank(digits[digits.len() - 1], Blank::Unicode);
    lemma_trim_line_end("OK "@ + digits, Blank::Unicode);
    lemma_after_prefix("OK "@, digits);
}

/// A line that starts with one of these words is none of the lines that are fixed as a whole.
pub(crate) proof fn lemma_not_global_error(line: Seq<char>, word: Seq<char>)
    requires
        word.is_prefix_of(line),
        word == "OK"@ || word == "USING"@ || word == "KICKED"@ || word == "WATCHING"@ || word
            == "INSERTED"@ || word == "BURIED"@ || word == "FOUND"@ || word == "RESERVED"@,
    ensures
        reply::global_error(line) is None,
        line != "NOT_FOUND\r\n"@,
        line != "NOT_IGNORED\r\n"@,
        line != "TIMED_OUT\r\n"@,
        line != "DEADLINE_SOON\r\n"@,
{
    reveal_strlit("OUT_OF_MEMORY\r\n");
    reveal_strlit("INTERNAL_ERROR\r\n");
    reveal_strlit("BAD_FORMAT\r\n");
    reveal_strlit("UNKNOWN_COMMAND\r\n");
    reveal_strlit("NOT_FOUND\r\n");
    reveal_strlit("NOT_IGNORED\r\n");
    reveal_strlit("TIMED_OUT\r\n");
    reveal_strlit("DEADLINE_SOON\r\n");
    reveal_strlit("OK");
    reveal_strlit("USING");
    reveal_strlit("KICKED");
    reveal_strlit("WATCHING");
    reveal_strlit("INSERTED");
    reveal_strlit("BURIED");
    reveal_strlit("FOUND");
    reveal_strlit("RESERVED");
    assert(word == line.subrange(0, word.len() as int));
    assert(word[0] == line[0]);
    assert(word[1] == line[1]);
    if word == "INSERTED"@ {
        assert(word[2] == line[2]);
    }
}

/// A word is the start of the word with a space after it.
pub(crate) proof fn lemma_words()
    ensures
        "OK"@.is_prefix_of("OK "@),
        "USING"@.is_prefix_of("USING "@),
        "KICKED"@.is_prefix_of("KICKED "@),
        "WATCHING"@.is_prefix_of("WATCHING "@),
        "INSERTED"@.is_prefix_of("INSERTED "@),
        "BURIED"@.is_prefix_of("BURIED "@),
        "FOUND"@.is_prefix_of("FOUND "@),
        "RESERVED"@.is_prefix_of("RESERVED "@),
{
    reveal_strlit("OK");
    reveal_strlit("USING");
    reveal_strlit("KICKED");
    reveal_strlit("WATCHING");
    reveal_strlit("INSERTED");
    reveal_strlit("BURIED");
    reveal_strlit("FOUND");
    reveal_strlit("RESERVED");
    reveal_strlit("OK ");
    reveal_strlit("USING ");
    reveal_strlit("KICKED ");
    reveal_strlit("WATCHING ");
    reveal_strlit("INSERTED ");
    reveal_strlit("BURIED ");
    reveal_strlit("FOUND ");
    reveal_strlit("RESERVED ");
    assert("OK"@ =~= "OK "@.subrange(0, 2));
    assert("USING"@ =~= "USING "@.subrange(0, 5));
    assert("KICKED"@ =~= "KICKED "@.subrange(0, 6));
    assert("WATCHING"@ =~= "WATCHING "@.subrange(0, 8));
    assert("INSERTED"@ =~= "INSERTED "@.subrange(0, 8));
    assert("BURIED"@ =~= "BURIED "@.subrange(0, 6));
    assert("FOUND"@ =~= "FOUND "@.subrange(0, 5));
    assert("RESERVED"@ =~= "RESERVED "@.subrange(0, 8));
}

/// The line that the server answers with a word and a number.
pub open spec fn number_line(head: Seq<char>, n: u64) -> Seq<char> {
    head + decimal::decimal(n as nat) + "\r\n"@
}

/// The exchange of a form of reply after a line.
pub open spec fn after_line(form: Reply, line: Seq<char>) -> ExchangeView {
    exchange::next(State::Line(form), EventView::Line(line))
}

/// Whether a line can be read as a form of reply.
pub open spec fn readable(form: Reply, line: Seq<char>) -> bool {
    exchange::acceptable(State::Line(form), EventView::Line(line))
}

/// A number line starts with its word and is none of the fixed lines.
proof fn lemma_number_line(word: Seq<char>, head: Seq<char>, n: u64)
    requires
        word.is_prefix_of(head),
        word == "KICKED"@ || word == "WATCHING"@ || word == "INSERTED"@ || word == "BURIED"@,
    ensures
        word.is_prefix_of(number_line(head, n)),
        reply::number_field(number_line(head, n), head) == Some(n),
        reply::global_error(number_line(head, n)) is None,
        number_line(head, n) != "NOT_IGNORED\r\n"@,
{
    let line = number_line(head, n);
    assert(line == head + (decimal::decimal(n as nat) + "\r\n"@));
    lemma_prefix_of_sum(word, head, decimal::decimal(n as nat) + "\r\n"@);
    lemma_number_field(head, n);
    lemma_not_global_error(line, word);
}

/// Every number that the server gives is the one that the command hands back.
pub proof fn law_numbers_are_read_back(n: u64)
    ensures
        readable(Reply::Kick, number_line("KICKED "@, n)),
        after_line(Reply::Kick, number_line("KICKED "@, n)) == exchange::finished(
            Ok(OutcomeView::Count(n)),
        ),
        readable(Reply::Watch, number_line("WATCHING "@, n)),
        after_line(Reply::Watch, number_line("WATCHING "@, n)) == exchange::finished(
            Ok(OutcomeView::Count(n)),
        ),
        readable(Reply::Ignore, number_line("WATCHING "@, n)),
        after_line(Reply::Ignore, number_line("WATCHING "@, n)) == exchange::finished(
            Ok(OutcomeView::Ignore(IgnoreResult::Watching(n))),
        ),
        readable(Reply::Put, number_line("INSERTED "@, n)),
        after_line(Reply::Put, number_line("INSERTED "@, n)) == exchange::finished(
            Ok(OutcomeView::Put(PutResult::Inserted(n))),
        ),
        readable(Reply::Put, number_line("BURIED "@, n)),
        after_line(Reply::Put, number_line("BURIED "@, n)) == exchange::finished(
            Ok(OutcomeView::Put(PutResult::Buried(n))),
        ),
{
    lemma_words();
    lemma_number_line("KICKED"@, "KICKED "@, n);
    lemma_number_line("WATCHING"@, "WATCHING "@, n);
    lemma_number_line("INSERTED"@, "INSERTED "@, n);
    lemma_number_line("BURIED"@, "BURIED "@, n);
    reveal_strlit("INSERTED");
    reveal_strlit("BURIED");
    let a = number_line("INSERTED "@, n);
    let b = number_line("BURIED "@, n);
    assert("INSERTED"@ == a.subrange(0, 8));
    assert("INSERTED"@[0] == a[0]);
    assert("BURIED"@ == b.subrange(0, 6));
    assert("BURIED"@[0] == b[0]);
    lemma_not_prefix("BURIED"@, a);
    lemma_not_prefix("INSERTED"@, b);
}

/// The line that announces the job `id` of `size` bytes.
pub open spec fn job_line(head: Seq<char>, id: u64, size: nat) -> Seq<char> {
    head + decimal::decimal(id as nat) + " "@ + decimal::decimal(size) + "\r\n"@
}

/// The outcome of a form of reply that is a job.
pub open spec fn job_outcome(form: Reply, job: JobView) -> OutcomeView {
    match form {
        Reply::Reserve => OutcomeView::Reserve(ReserveView::Reserved(job)),
        _ => OutcomeView::JobIfFound(Some(job)),
    }
}

/// The word with which the line that announces a job starts, and the space after it.
pub open spec fn job_word(form: Reply) -> Seq<char> {
    match form {
        Reply::Peek => "FOUND "@,
        _ => "RESERVED "@,
    }
}

/// Every job is handed back as the server sent it: its number and its bytes, whatever they
/// are. The bytes that are read are those of the job and its line end, and no more.
pub proof fn law_jobs_are_handed_back(form: Reply, id: u64, data: Seq<u8>)
    requires
        form == Reply::Peek || form == Reply::ReserveJob || form == Reply::Reserve,
        data.len() <= usize::MAX - 2,
    ensures
        ({
            let line = job_line(job_word(form), id, data.len());
            let header = Header::Job(JobHeader { id, bytes: data.len() as usize });
            let raw = data + encode_utf8("\r\n"@);
            &&& readable(form, line)
            &&& after_line(form, line) == (ExchangeView {
                state: State::Body(form, header),
                action: ActionView::ReadExact(raw.len() as usize),
            })
            &&& exchange::acceptable(State::Body(form, header), EventView::Body(raw))
            &&& exchange::next(State::Body(form, header), EventView::Body(raw))
                == exchange::finished(Ok(job_outcome(form, JobView { id, body: data })))
        }),
{
    let head = job_word(form);
    let line = job_line(head, id, data.len());
    let h = JobHeader { id, bytes: data.len() as usize };
    let raw = data + encode_utf8("\r\n"@);
    lemma_words();
    lemma_job_fields(head, h);
    let word = if form == Reply::Peek { "FOUND"@ } else { "RESERVED"@ };
    let tail = decimal::decimal(id as nat) + " "@ + decimal::decimal(data.len()) + "\r\n"@;
    assert(line == head + tail);
    lemma_prefix_of_sum(word, head, tail);
    lemma_not_global_error(line, word);
    lemma_line_end_size();
    assert(raw.take(data.len() as int) == data);
}

/// A line end has two bytes.
proof fn lemma_line_end_size()
    ensures
        encode_utf8("\r\n"@).len() == 2,
{
    reveal_strlit("\r\n");
    is_ascii_chars_encode_utf8("\r\n"@);
}

/// The name of the tube in use is handed back, if it is not empty and has no blank at its end.
pub proof fn law_used_tube_is_handed_back(name: Seq<char>)
    requires
        name.len() > 0,
    ensures
        ({
            let line = "USING "@ + name + "\r\n"@;
            &&& !text::is_blank(name.last(), Blank::Unicode) ==> readable(Reply::Tube, line)
                && after_line(Reply::Tube, line) == exchange::finished(Ok(OutcomeView::Tube(name)))
            &&& !text::is_blank(name.last(), Blank::Ascii) ==> readable(Reply::UseTube, line)
                && after_line(Reply::UseTube, line) == exchange::finished(
                Ok(OutcomeView::Tube(name)),
            )
        }),
{
    let line = "USING "@ + name + "\r\n"@;
    lemma_words();
    assert(line == "USING "@ + (name + "\r\n"@));
    lemma_prefix_of_sum("USING"@, "USING "@, name + "\r\n"@);
    lemma_not_global_error(line, "USING"@);
    lemma_after_prefix("USING "@, name);
    assert(("USING "@ + name).last() == name.last());
    if !text::is_blank(name.last(), Blank::Unicode) {
        lemma_trim_line_end("USING "@ + name, Blank::Unicode);
    }
    if !text::is_blank(name.last(), Blank::Ascii) {
        lemma_trim_line_end("USING "@ + name, Blank::Ascii);
    }
}

/// The line that reports an error, to a command with this form of reply. An I/O error has no
/// line, and an unexpected line is any other.
pub open spec fn error_line(form: Reply, error: ErrorView) -> Option<Seq<char>> {
    match error {
        ErrorView::OutOfMemory => Some("OUT_OF_MEMORY\r\n"@),
        ErrorView::InternalError => Some("INTERNAL_ERROR\r\n"@),
        ErrorView::BadFormat => Some("BAD_FORMAT\r\n"@),
        ErrorView::UnknownCommand => Some("UNKNOWN_COMMAND\r\n"@),
        ErrorView::ExpectedCrlf if form == Reply::Put => Some("EXPECTED_CRLF\r\n"@),
        ErrorView::JobTooBig if form == Reply::Put => Some("JOB_TOO_BIG\r\n"@),
        ErrorView::Draining if form == Reply::Put => Some("DRAINING\r\n"@),
        _ => None,
    }
}

/// Every error of the server has one line, and a command fails with that error on that line
/// and on no other. The errors of a refused job come from `put` alone.
pub proof fn law_errors_have_their_lines(form: Reply, line: Seq<char>, error: ErrorView)
    requires
        readable(form, line),
        !(error is UnexpectedResponse),
    ensures
        after_line(form, line) == exchange::finished(Err(error)) <==> error_line(form, error)
            == Some(line),
{
    reveal_strlit("OUT_OF_MEMORY\r\n");
    reveal_strlit("INTERNAL_ERROR\r\n");
    reveal_strlit("BAD_FORMAT\r\n");
    reveal_strlit("UNKNOWN_COMMAND\r\n");
    reveal_strlit("EXPECTED_CRLF\r\n");
    reveal_strlit("JOB_TOO_BIG\r\n");
    reveal_strlit("DRAINING\r\n");
    reveal_strlit("INSERTED");
    reveal_strlit("BURIED");
    assert("OUT_OF_MEMORY\r\n"@[0] == 'O');
    assert("INTERNAL_ERROR\r\n"@[0] == 'I');
    assert("BAD_FORMAT\r\n"@[0] == 'B');
    assert("UNKNOWN_COMMAND\r\n"@[0] == 'U');
    assert("EXPECTED_CRLF\r\n"@[0] == 'E');
    assert("JOB_TOO_BIG\r\n"@[0] == 'J');
    assert("DRAINING\r\n"@[0] == 'D');
    if reply::global_error(line) is Some {
        law_global_errors_end_every_exchange(form, line);
    }
    if error_line(form, error) == Some(line) && reply::global_error(line) is None {
        lemma_not_prefix("INSERTED"@, line);
        lemma_not_prefix("BURIED"@, line);
    }
}

/// The line that stands for an outcome as a whole, with no number, name or body in it.
pub open spec fn answer_line(form: Reply, outcome: OutcomeView) -> Option<Seq<char>> {
    match (form, outcome) {
        (Reply::PauseTube, OutcomeView::Flag(true)) => Some("PAUSED\r\n"@),
        (Reply::KickJob, OutcomeView::Flag(true)) => Some("KICKED\r\n"@),
        (Reply::Touch, OutcomeView::Flag(true)) => Some("TOUCHED\r\n"@),
        (Reply::Bury, OutcomeView::Flag(true)) => Some("BURIED\r\n"@),
        (Reply::Delete, OutcomeView::Flag(true)) => Some("DELETED\r\n"@),
        (_, OutcomeView::Flag(false)) => Some("NOT_FOUND\r\n"@),
        (_, OutcomeView::JobIfFound(None)) => Some("NOT_FOUND\r\n"@),
        (_, OutcomeView::StatsIfFound(None)) => Some("NOT_FOUND\r\n"@),
        (_, OutcomeView::Release(ReleaseResult::Released)) => Some("RELEASED\r\n"@),
        (_, OutcomeView::Release(ReleaseResult::Buried)) => Some("BURIED\r\n"@),
        (_, OutcomeView::Release(ReleaseResult::NotFound)) => Some("NOT_FOUND\r\n"@),
        (_, OutcomeView::Reserve(ReserveView::TimedOut)) => Some("TIMED_OUT\r\n"@),
        (_, OutcomeView::Reserve(ReserveView::DeadlineSoon)) => Some("DEADLINE_SOON\r\n"@),
        (_, OutcomeView::Ignore(IgnoreResult::NotIgnored)) => Some("NOT_IGNORED\r\n"@),
        _ => None,
    }
}

/// An outcome that has a line of its own comes on that line and on no other. So a command
/// that is answered with yes or no hands back yes on its own line alone, and no on the line
/// that its object was not found alone.
pub proof fn law_answers_have_their_lines(form: Reply, line: Seq<char>, outcome: OutcomeView)
    requires
        readable(form, line),
        fits(form, outcome),
        answer_line(form, outcome) is Some,
    ensures
        after_line(form, line) == exchange::finished(Ok(outcome)) <==> answer_line(form, outcome)
            == Some(line),
{
    reveal_strlit("OUT_OF_MEMORY\r\n");
    reveal_strlit("INTERNAL_ERROR\r\n");
    reveal_strlit("BAD_FORMAT\r\n");
    reveal_strlit("UNKNOWN_COMMAND\r\n");
    reveal_strlit("NOT_FOUND\r\n");
    reveal_strlit("PAUSED\r\n");
    reveal_strlit("KICKED\r\n");
    reveal_strlit("TOUCHED\r\n");
    reveal_strlit("BURIED\r\n");
    reveal_strlit("DELETED\r\n");
    reveal_strlit("RELEASED\r\n");
    reveal_strlit("TIMED_OUT\r\n");
    reveal_strlit("DEADLINE_SOON\r\n");
    reveal_strlit("NOT_IGNORED\r\n");
    assert("OUT_OF_MEMORY\r\n"@[0] == 'O');
    assert("INTERNAL_ERROR\r\n"@[0] == 'I');
    assert("UNKNOWN_COMMAND\r\n"@[0] == 'U');
    assert("NOT_FOUND\r\n"@[0] == 'N');
    assert("PAUSED\r\n"@[0] == 'P');
    assert("KICKED\r\n"@[0] == 'K');
    assert("TOUCHED\r\n"@[0] == 'T');
    assert("DELETED\r\n"@[0] == 'D');
    assert("RELEASED\r\n"@[0] == 'R');
    assert("TIMED_OUT\r\n"@[0] == 'T');
    assert("DEADLINE_SOON\r\n"@[0] == 'D');
    assert("NOT_IGNORED\r\n"@[0] == 'N');
    assert("BURIED\r\n"@[0] == 'B');
    assert("BAD_FORMAT\r\n"@[0] == 'B');
    assert("BURIED\r\n"@[1] == 'U');
    assert("BAD_FORMAT\r\n"@[1] == 'A');
}

/// The texts, each with a line feed after it, one after the other.
pub open spec fn joined(list: Seq<Seq<char>>) -> Seq<char>
    decreases list.len(),
{
    if list.len() == 0 {
        seq![]
    } else {
        list[0] + seq!['\n'] + joined(list.drop_first())
    }
}

/// Whether a text can stand in a line by itself: it holds no line feed and does not end with
/// a carriage return, which would be taken for a part of the line's end.
pub open spec fn fits_a_line(s: Seq<char>) -> bool {
    &&& !s.contains('\n')
    &&& s.len() > 0 ==> s.last() != '\r'
}

/// The lines of texts that were put into lines are those texts.
pub proof fn law_lines_are_read_back(list: Seq<Seq<char>>)
    requires
        forall|i: int| 0 <= i < list.len() ==> fits_a_line(#[trigger] list[i]),
    ensures
        text::lines_of(joined(list)) == list,
    decreases list.len(),
{
    if list.len() > 0 {
        let rest = list.drop_first();
        assert forall|i: int| 0 <= i < rest.len() implies fits_a_line(#[trigger] rest[i]) by {
            assert(rest[i] == list[i + 1]);
        }
        law_lines_are_read_back(rest);
        assert(fits_a_line(list[0]));
        lemma_halves_at(list[0], '\n', joined(rest));
        assert(seq![list[0]] + rest == list);
    }
}

/// The text of a list: a line that opens it, and a line for each item.
pub open spec fn list_text(list: Seq<Seq<char>>) -> Seq<char> {
    joined(seq!["---"@] + list)
}

/// The items of a list are read back from its text.
proof fn lemma_items(list: Seq<Seq<char>>)
    requires
        forall|i: int| 0 <= i < list.len() ==> fits_a_line(#[trigger] list[i]),
    ensures
        reply::items(list_text(list)) == list,
{
    reveal_strlit("---");
    let all = seq!["---"@] + list;
    assert forall|i: int| 0 <= i < all.len() implies fits_a_line(#[trigger] all[i]) by {
        if i > 0 {
            assert(all[i] == list[i - 1]);
        }
    }
    law_lines_are_read_back(all);
    assert(all.drop_first() == list);
}

/// The bytes that follow the line which announces `content`.
pub open spec fn text_body(content: Seq<char>) -> Seq<u8> {
    encode_utf8(content) + encode_utf8("\r\n"@)
}

/// Whether the exchange of `form` reads the line that announces `content`, asks for its bytes
/// and its line end and no more, and then hands back `outcome`.
pub open spec fn hands_back_text(form: Reply, content: Seq<char>, outcome: OutcomeView) -> bool {
    let size = encode_utf8(content).len();
    let line = ok_line(size);
    let header = Header::Text(size as usize);
    let raw = text_body(content);
    &&& readable(form, line)
    &&& after_line(form, line) == (ExchangeView {
        state: State::Body(form, header),
        action: ActionView::ReadExact(raw.len() as usize),
    })
    &&& exchange::acceptable(State::Body(form, header), EventView::Body(raw))
    &&& exchange::next(State::Body(form, header), EventView::Body(raw)) == exchange::finished(
        Ok(outcome),
    )
}

/// A text that is announced is read back.
proof fn lemma_text_exchange(form: Reply, content: Seq<char>)
    requires
        form == Reply::Tubes || form == Reply::Stats || form == Reply::StatsTubeOrJob,
        encode_utf8(content).len() <= usize::MAX - 2,
    ensures
        ({
            let size = encode_utf8(content).len();
            let raw = text_body(content);
            &&& readable(form, ok_line(size))
            &&& after_line(form, ok_line(size)) == (ExchangeView {
                state: State::Body(form, Header::Text(size as usize)),
                action: ActionView::ReadExact(raw.len() as usize),
            })
            &&& raw.len() == size + 2
            &&& valid_utf8(raw.take(size as int))
            &&& reply::text_of(size as usize, raw) == content
        }),
{
    let bytes = encode_utf8(content);
    let line = ok_line(bytes.len());
    let tail = decimal::decimal(bytes.len()) + "\r\n"@;
    lemma_words();
    lemma_text_size(bytes.len() as usize);
    assert(line == "OK "@ + tail);
    lemma_prefix_of_sum("OK"@, "OK "@, tail);
    lemma_not_global_error(line, "OK"@);
    lemma_line_end_size();
    assert(text_body(content).take(bytes.len() as int) == bytes);
    encode_utf8_valid_utf8(content);
    encode_utf8_decode_utf8(content);
}

/// The text of a list of tubes.
pub open spec fn tubes_text(names: Seq<Seq<char>>) -> Seq<char> {
    list_text(names.map_values(|name: Seq<char>| "- "@ + name))
}

/// The names of the tubes are handed back as the server lists them, in its order.
pub proof fn law_tubes_are_handed_back(names: Seq<Seq<char>>)
    requires
        forall|i: int| 0 <= i < names.len() ==> fits_a_line(#[trigger] names[i]),
        encode_utf8(tubes_text(names)).len() <= usize::MAX - 2,
    ensures
        hands_back_text(Reply::Tubes, tubes_text(names), OutcomeView::Tubes(names)),
{
    let content = tubes_text(names);
    let list = names.map_values(|name: Seq<char>| "- "@ + name);
    reveal_strlit("- ");
    assert forall|i: int| 0 <= i < list.len() implies fits_a_line(#[trigger] list[i])
        && text::after_prefix(list[i], "- "@) == Some(names[i]) by {
        assert(list[i] == "- "@ + names[i]);
        assert(fits_a_line(names[i]));
        lemma_after_prefix("- "@, names[i]);
        if list[i].contains('\n') {
            let j = choose|j: int| 0 <= j < list[i].len() && list[i][j] == '\n';
            if j >= 2 {
                assert(names[i][j - 2] == '\n');
            }
        }
    }
    lemma_items(list);
    lemma_text_exchange(Reply::Tubes, content);
    assert(reply::tube_names(content) =~= names);
}

/// The text of statistics.
pub open spec fn stats_text(entries: Seq<(Seq<char>, Seq<char>)>) -> Seq<char> {
    list_text(entries.map_values(|e: (Seq<char>, Seq<char>)| e.0 + ": "@ + e.1))
}

/// Whether a name and a value can stand in a line together: the name does not hold what
/// separates the two.
pub open spec fn fits_an_entry(e: (Seq<char>, Seq<char>)) -> bool {
    &&& !e.0.contains('\n')
    &&& text::first_position(e.0, ": "@) is None
    &&& fits_a_line(e.1)
}

/// The name and the value of an entry are read back.
proof fn lemma_entry(name: Seq<char>, value: Seq<char>)
    requires
        fits_an_entry((name, value)),
    ensures
        fits_a_line(name + ": "@ + value),
        text::halves(name + ": "@ + value, ": "@) == Some((name, value)),
{
    reveal_strlit(": ");
    let s = name + ": "@ + value;
    let n = name.len() as int;
    text::lemma_first_position(name, ": "@);
    assert(s.skip(n).subrange(0, 2) == ": "@);
    assert(text::occurs_at(s, ": "@, n));
    assert forall|j: int| 0 <= j < n implies !text::occurs_at(s, ": "@, j) by {
        if text::occurs_at(s, ": "@, j) {
            assert(": "@ == s.skip(j).subrange(0, 2));
            assert(": "@[0] == s[j]);
            assert(": "@[1] == s[j + 1]);
            assert(j + 1 < n);
            assert(name.skip(j).subrange(0, 2) == ": "@);
            assert(text::occurs_at(name, ": "@, j));
        }
    }
    text::lemma_first_position_is(s, ": "@, n);
    assert(s.take(n) == name);
    assert(s.skip(n + 2) == value);
    if s.contains('\n') {
        let j = choose|j: int| 0 <= j < s.len() && s[j] == '\n';
        if j < n {
            assert(name[j] == '\n');
        } else if j >= n + 2 {
            assert(value[j - n - 2] == '\n');
        }
    }
}

/// Every statistic that the server lists is handed back under its name, by `stats` and by
/// `stats-tube` and `stats-job`. Of two with the same name the later one counts.
pub proof fn law_stats_are_handed_back(entries: Seq<(Seq<char>, Seq<char>)>)
    requires
        forall|i: int| 0 <= i < entries.len() ==> fits_an_entry(#[trigger] entries[i]),
        encode_utf8(stats_text(entries)).len() <= usize::MAX - 2,
    ensures
        hands_back_text(
            Reply::Stats,
            stats_text(entries),
            OutcomeView::Stats(stats::entries_map(entries)),
        ),
        hands_back_text(
            Reply::StatsTubeOrJob,
            stats_text(entries),
            OutcomeView::StatsIfFound(Some(stats::entries_map(entries))),
        ),
{
    let content = stats_text(entries);
    let list = entries.map_values(|e: (Seq<char>, Seq<char>)| e.0 + ": "@ + e.1);
    assert forall|i: int| 0 <= i < list.len() implies fits_a_line(#[trigger] list[i])
        && text::halves(list[i], ": "@) == Some(entries[i]) by {
        assert(fits_an_entry(entries[i]));
        lemma_entry(entries[i].0, entries[i].1);
    }
    lemma_items(list);
    lemma_text_exchange(Reply::Stats, content);
    lemma_text_exchange(Reply::StatsTubeOrJob, content);
    assert(reply::stats_entries(content) =~= entries);
}

/// Whether a text holds ASCII characters and no line feed.
spec fn plain(s: Seq<char>) -> bool {
    is_ascii_chars(s) && !s.contains('\n')
}

/// Two plain texts put together are plain.
proof fn lemma_plain_sum(a: Seq<char>, b: Seq<char>)
    requires
        plain(a),
        plain(b),
    ensures
        plain(a + b),
{
    assert forall|i: int| 0 <= i < (a + b).len() implies '\0' <= #[trigger] (a + b)[i]
        <= '\u{7f}' && (a + b)[i] != '\n' by {
        if i < a.len() {
            assert((a + b)[i] == a[i]);
        } else {
            assert((a + b)[i] == b[i - a.len()]);
        }
    }
}

/// The decimal notation of a number is plain and holds no space.
proof fn lemma_plain_decimal(n: nat)
    ensures
        plain(decimal::decimal(n)),
        !decimal::decimal(n).contains(' '),
{
    decimal::lemma_decimal_value(n);
    let s = decimal::decimal(n);
    assert forall|i: int| 0 <= i < s.len() implies '0' <= #[trigger] s[i] <= '9' by {}
}

/// Two numbers with the same decimal notation are the same.
proof fn lemma_decimal_injective(m: nat, n: nat)
    requires
        decimal::decimal(m) == decimal::decimal(n),
    ensures
        m == n,
{
    decimal::lemma_decimal_value(m);
    decimal::lemma_decimal_value(n);
}

/// The first line feed ends a plain line, whatever follows it.
proof fn lemma_line_cut(a: Seq<char>, b: Seq<char>, x: Seq<u8>, y: Seq<u8>)
    requires
        plain(a),
        plain(b),
        encode_utf8(a.push('\n')) + x == encode_utf8(b.push('\n')) + y,
        a.len() <= b.len(),
    ensures
        a == b,
        x == y,
{
    let s = a.push('\n');
    let t = b.push('\n');
    assert(is_ascii_chars(s));
    assert(is_ascii_chars(t));
    is_ascii_chars_encode_utf8(s);
    is_ascii_chars_encode_utf8(t);
    let whole = encode_utf8(s) + x;
    let n = a.len() as int;
    assert(whole[n] == s[n] as u8);
    if n < b.len() {
        assert(whole[n] == t[n] as u8);
        assert(t[n] == b[n]);
        assert(b[n] != '\n');
        assert('\0' <= b[n] <= '\u{7f}');
        assert(false);
    }
    assert(encode_utf8(s) == whole.take(n + 1));
    assert(encode_utf8(t) == whole.take(n + 1));
    encoding::lemma_encode_injective(s, t);
    assert(a == s.drop_last());
    assert(b == t.drop_last());
    assert(x == whole.skip(n + 1));
    assert(y == whole.skip(n + 1));
}

/// Texts that are the same up to a space, and hold none before it, are the same on both sides.
proof fn lemma_space_cut(a: Seq<char>, r: Seq<char>, b: Seq<char>, s: Seq<char>)
    requires
        !a.contains(' '),
        !b.contains(' '),
        a + seq![' '] + r == b + seq![' '] + s,
    ensures
        a == b,
        r == s,
{
    lemma_halves_at(a, ' ', r);
    lemma_halves_at(b, ' ', s);
}

/// The line of `put` without its line feed.
spec fn put_words(pri: u32, delay: u32, ttr: u32, size: nat) -> Seq<char> {
    "put "@ + put_numbers(pri, delay, ttr, size)
}

/// What follows the first word in the line of `put`, without the line feed.
spec fn put_numbers(pri: u32, delay: u32, ttr: u32, size: nat) -> Seq<char> {
    decimal::decimal(pri as nat) + seq![' '] + (decimal::decimal(delay as nat) + seq![' '] + (
    decimal::decimal(ttr as nat) + seq![' '] + decimal::decimal(size).push('\r')))
}

/// The line of `put` is plain but for the line feed at its end.
proof fn lemma_put_words(pri: u32, delay: u32, ttr: u32, size: nat)
    ensures
        plain(put_words(pri, delay, ttr, size)),
        command::put_line(pri, delay, ttr, size) == put_words(pri, delay, ttr, size).push('\n'),
{
    reveal_strlit("put ");
    reveal_strlit(" ");
    reveal_strlit("\r\n");
    let space = seq![' '];
    let p = decimal::decimal(pri as nat);
    let d = decimal::decimal(delay as nat);
    let t = decimal::decimal(ttr as nat);
    let n = decimal::decimal(size);
    assert(" "@ == space);
    assert("\r\n"@ == seq!['\r', '\n']);
    lemma_plain_decimal(pri as nat);
    lemma_plain_decimal(delay as nat);
    lemma_plain_decimal(ttr as nat);
    lemma_plain_decimal(size);
    assert(plain("put "@));
    assert(plain(space));
    lemma_plain_sum(n, seq!['\r']);
    assert(n + seq!['\r'] == n.push('\r'));
    lemma_plain_sum(t, space);
    lemma_plain_sum(t + space, n.push('\r'));
    lemma_plain_sum(d, space);
    lemma_plain_sum(d + space, t + space + n.push('\r'));
    lemma_plain_sum(p, space);
    lemma_plain_sum(p + space, d + space + (t + space + n.push('\r')));
    lemma_plain_sum("put "@, put_numbers(pri, delay, ttr, size));
    assert(command::put_line(pri, delay, ttr, size) =~= put_words(pri, delay, ttr, size).push(
        '\n',
    ));
}

/// A request of `put` holds its priority, its delay, its time to run and its job so that each
/// can be told from the bytes, whatever bytes the job is made of.
pub proof fn law_put_requests_are_unambiguous(
    pri: u32,
    delay: u32,
    ttr: u32,
    data: Seq<u8>,
    other_pri: u32,
    other_delay: u32,
    other_ttr: u32,
    other_data: Seq<u8>,
)
    requires
        command::put_request(pri, delay, ttr, data) == command::put_request(
            other_pri,
            other_delay,
            other_ttr,
            other_data,
        ),
    ensures
        pri == other_pri,
        delay == other_delay,
        ttr == other_ttr,
        data == other_data,
{
    let end = encode_utf8("\r\n"@);
    let a = put_words(pri, delay, ttr, data.len());
    let b = put_words(other_pri, other_delay, other_ttr, other_data.len());
    lemma_put_words(pri, delay, ttr, data.len());
    lemma_put_words(other_pri, other_delay, other_ttr, other_data.len());
    let x = data + end;
    let y = other_data + end;
    assert(command::put_request(pri, delay, ttr, data) == encode_utf8(a.push('\n')) + x);
    assert(command::put_request(other_pri, other_delay, other_ttr, other_data) == encode_utf8(
        b.push('\n'),
    ) + y);
    if a.len() <= b.len() {
        lemma_line_cut(a, b, x, y);
    } else {
        lemma_line_cut(b, a, y, x);
    }
    assert(data == x.take(x.len() - end.len()));
    assert(other_data == y.take(y.len() - end.len()));
    let k = "put "@.len() as int;
    assert(put_numbers(pri, delay, ttr, data.len()) == a.skip(k));
    assert(put_numbers(other_pri, other_delay, other_ttr, other_data.len()) == b.skip(k));
    let t = decimal::decimal(ttr as nat) + seq![' '] + decimal::decimal(data.len()).push('\r');
    let ot = decimal::decimal(other_ttr as nat) + seq![' '] + decimal::decimal(
        other_data.len(),
    ).push('\r');
    let d = decimal::decimal(delay as nat) + seq![' '] + t;
    let od = decimal::decimal(other_delay as nat) + seq![' '] + ot;
    lemma_plain_decimal(pri as nat);
    lemma_plain_decimal(delay as nat);
    lemma_plain_decimal(ttr as nat);
    lemma_plain_decimal(other_pri as nat);
    lemma_plain_decimal(other_delay as nat);
    lemma_plain_decimal(other_ttr as nat);
    lemma_space_cut(decimal::decimal(pri as nat), d, decimal::decimal(other_pri as nat), od);
    lemma_space_cut(decimal::decimal(delay as nat), t, decimal::decimal(other_delay as nat), ot);
    lemma_space_cut(
        decimal::decimal(ttr as nat),
        decimal::decimal(data.len()).push('\r'),
        decimal::decimal(other_ttr as nat),
        decimal::decimal(other_data.len()).push('\r'),
    );
    lemma_decimal_injective(pri as nat, other_pri as nat);
    lemma_decimal_injective(delay as nat, other_delay as nat);
    lemma_decimal_injective(ttr as nat, other_ttr as nat);
}

} // verus!
