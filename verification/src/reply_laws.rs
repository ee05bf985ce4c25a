//! What every line and every body of a reply is read as.
//!
//! Each law puts a line or a body together from its parts, whatever these are, and says what
//! the exchange makes of it.
use crate::decimal;
use crate::exchange::{
    self, Action, ActionView, Event, EventView, Exchange, ExchangeView, Header, Outcome,
    OutcomeView, Reply, State,
};
use crate::laws::{self, after_line, readable};
use crate::reply::{self, JobHeader};
use crate::stats::{self, Stats};
use crate::text::{self, Blank};
use crate::types::{
    self, Error, ErrorView, IgnoreResult, Job, JobView, PutResult, ReleaseResult, ReserveResult,
    ReserveView,
};
use vstd::prelude::*;
use vstd::utf8::*;

verus! {

/// Whether a text is made of blanks alone.
pub open spec fn all_blank(s: Seq<char>, blank: Blank) -> bool {
    forall|i: int| 0 <= i < s.len() ==> text::is_blank(#[trigger] s[i], blank)
}

/// Blanks are trimmed off the end of a text, and no more than these.
pub proof fn law_blanks_are_trimmed(s: Seq<char>, blanks: Seq<char>, blank: Blank)
    requires
        s.len() > 0 ==> !text::is_blank(s.last(), blank),
        all_blank(blanks, blank),
    ensures
        text::trimmed(s + blanks, blank) == s,
{
    let line = s + blanks;
    assert forall|j: int| s.len() <= j < line.len() implies text::is_blank(line[j], blank) by {
        assert(line[j] == blanks[j - s.len()]);
    }
    if s.len() > 0 {
        assert(line[s.len() - 1] == s.last());
    }
    text::lemma_trimmed(line, blank, s.len() as int);
    assert(line.take(s.len() as int) == s);
}

/// A text that starts with a prefix is the prefix and what follows it.
pub proof fn law_prefixes_are_stripped(p: Seq<char>, s: Seq<char>)
    ensures
        text::after_prefix(p + s, p) == Some(s),
        text::after_prefix(s, p) matches Some(rest) ==> s == p + rest,
        text::after_prefix(s, p) is None ==> s.len() < p.len() || s.take(p.len() as int) != p,
{
    assert((p + s).subrange(0, p.len() as int) == p);
    assert((p + s).skip(p.len() as int) == s);
    if let Some(rest) = text::after_prefix(s, p) {
        assert(s =~= p + rest);
    }
}

/// A text is cut at the first place where the separator stands.
pub proof fn law_texts_are_cut_once(a: Seq<char>, pat: Seq<char>, b: Seq<char>)
    requires
        forall|j: int|
            0 <= j < a.len() ==> #[trigger] (a + pat + b).skip(j).take(pat.len() as int) != pat,
    ensures
        text::halves(a + pat + b, pat) == Some((a, b)),
{
    let s = a + pat + b;
    let n = a.len() as int;
    assert(s.skip(n).subrange(0, pat.len() as int) =~= pat);
    assert(text::occurs_at(s, pat, n));
    assert forall|j: int| 0 <= j < n implies !text::occurs_at(s, pat, j) by {
        assert(s.skip(j).take(pat.len() as int) != pat);
        if text::occurs_at(s, pat, j) {
            assert(pat =~= s.skip(j).subrange(0, pat.len() as int));
            assert(s.skip(j).take(pat.len() as int) =~= pat);
        }
    }
    text::lemma_first_position_is(s, pat, n);
    assert(s.take(n) =~= a);
    assert(s.skip(n + pat.len()) =~= b);
}

/// A text that the separator stands in is cut, and one that it does not stand in is not.
pub proof fn law_cuts_are_at_separators(s: Seq<char>, pat: Seq<char>)
    ensures
        text::halves(s, pat) matches Some((a, b)) ==> s == a + pat + b,
        text::halves(s, pat) is None ==> forall|j: int|
            0 <= j <= s.len() ==> !pat.is_prefix_of(#[trigger] s.skip(j)),
{
    text::lemma_first_position(s, pat);
    if let Some(i) = text::first_position(s, pat) {
        assert(pat =~= s.skip(i).subrange(0, pat.len() as int));
        assert(s =~= s.take(i) + pat + s.skip(i + pat.len()));
    } else {
        assert forall|j: int| 0 <= j <= s.len() implies !pat.is_prefix_of(
            #[trigger] s.skip(j),
        ) by {
            assert(!text::occurs_at(s, pat, j));
        }
    }
}

/// No digits stand for zero. A digit at the end of others counts for itself, and they for ten
/// times what they stand for alone.
pub proof fn law_place_values(s: Seq<char>, c: char)
    ensures
        decimal::digits_value(Seq::<char>::empty()) == 0,
        decimal::digits_value(s.push(c)) == 10 * decimal::digits_value(s) + (c as int - '0' as int),
{
    assert(s.push(c).drop_last() == s);
}

/// Digits are read as the number that they stand for, with a plus sign before them or without,
/// unless it is above the limit.
pub proof fn law_digits_are_numbers(digits: Seq<char>, max: int)
    requires
        digits.len() > 0,
        forall|i: int| 0 <= i < digits.len() ==> '0' <= #[trigger] digits[i] <= '9',
    ensures
        decimal::number_in(digits, max) == (if decimal::digits_value(digits) <= max {
            Some(decimal::digits_value(digits))
        } else {
            None
        }),
        decimal::number_in(seq!['+'] + digits, max) == decimal::number_in(digits, max),
{
    assert('0' <= digits[0] <= '9');
    assert((seq!['+'] + digits).skip(1) == digits);
}

/// What is no digit, other than a plus sign at the start, makes no number, nor do no digits.
pub proof fn law_other_texts_are_no_numbers(s: Seq<char>, i: int, max: int)
    requires
        0 <= i < s.len(),
        !('0' <= s[i] <= '9'),
        i == 0 ==> s[0] != '+',
    ensures
        decimal::number_in(s, max) is None,
        decimal::number_in(Seq::<char>::empty(), max) is None,
        decimal::number_in(seq!['+'], max) is None,
{
    let digits = decimal::unsigned_part(s);
    if s[0] == '+' {
        assert(digits[i - 1] == s[i]);
    } else {
        assert(digits[i] == s[i]);
    }
    assert(seq!['+'].skip(1).len() == 0);
}

/// The number that stands after a head, before blanks.
proof fn lemma_number_field(head: Seq<char>, number: Seq<char>, blanks: Seq<char>)
    requires
        number.len() > 0,
        !text::is_blank(number.last(), Blank::Ascii),
        all_blank(blanks, Blank::Ascii),
    ensures
        reply::number_field(head + number + blanks, head) == (match decimal::number_in(
            number,
            u64::MAX as int,
        ) {
            Some(n) => Some(n as u64),
            None => None,
        }),
{
    assert((head + number).last() == number.last());
    law_blanks_are_trimmed(head + number, blanks, Blank::Ascii);
    law_prefixes_are_stripped(head, number);
}

/// A line with a number starts with its word and is none of the fixed lines.
proof fn lemma_number_line(
    word: Seq<char>,
    head: Seq<char>,
    number: Seq<char>,
    blanks: Seq<char>,
)
    requires
        word.is_prefix_of(head),
        word == "KICKED"@ || word == "WATCHING"@ || word == "INSERTED"@ || word == "BURIED"@
            || word == "OK"@ || word == "USING"@ || word == "FOUND"@ || word == "RESERVED"@,
    ensures
        word.is_prefix_of(head + number + blanks),
        reply::global_error(head + number + blanks) is None,
        head + number + blanks != "NOT_IGNORED\r\n"@,
        head + number + blanks != "NOT_FOUND\r\n"@,
        head + number + blanks != "TIMED_OUT\r\n"@,
        head + number + blanks != "DEADLINE_SOON\r\n"@,
{
    let line = head + number + blanks;
    assert(line =~= head + (number + blanks));
    laws::lemma_prefix_of_sum(word, head, number + blanks);
    laws::lemma_not_global_error(line, word);
}

/// A number that the server gives is what the command hands back, however it is written and
/// whatever blanks follow it. A line with something else in its place cannot be read.
pub proof fn law_number_lines(number: Seq<char>, blanks: Seq<char>)
    requires
        number.len() > 0,
        !text::is_blank(number.last(), Blank::Ascii),
        all_blank(blanks, Blank::Ascii),
    ensures
        ({
            let read = decimal::number_in(number, u64::MAX as int);
            let n = read->0 as u64;
            let kicked = "KICKED "@ + number + blanks;
            let watching = "WATCHING "@ + number + blanks;
            let inserted = "INSERTED "@ + number + blanks;
            let buried = "BURIED "@ + number + blanks;
            &&& readable(Reply::Kick, kicked) <==> read is Some
            &&& readable(Reply::Watch, watching) <==> read is Some
            &&& readable(Reply::Ignore, watching) <==> read is Some
            &&& readable(Reply::Put, inserted) <==> read is Some
            &&& readable(Reply::Put, buried) <==> read is Some
            &&& read is Some ==> after_line(Reply::Kick, kicked) == exchange::finished(
                Ok(OutcomeView::Count(n)),
            )
            &&& read is Some ==> after_line(Reply::Watch, watching) == exchange::finished(
                Ok(OutcomeView::Count(n)),
            )
            &&& read is Some ==> after_line(Reply::Ignore, watching) == exchange::finished(
                Ok(OutcomeView::Ignore(IgnoreResult::Watching(n))),
            )
            &&& read is Some ==> after_line(Reply::Put, inserted) == exchange::finished(
                Ok(OutcomeView::Put(PutResult::Inserted(n))),
            )
            &&& read is Some ==> after_line(Reply::Put, buried) == exchange::finished(
                Ok(OutcomeView::Put(PutResult::Buried(n))),
            )
        }),
{
    laws::lemma_words();
    lemma_number_line("KICKED"@, "KICKED "@, number, blanks);
    lemma_number_line("WATCHING"@, "WATCHING "@, number, blanks);
    lemma_number_line("INSERTED"@, "INSERTED "@, number, blanks);
    lemma_number_line("BURIED"@, "BURIED "@, number, blanks);
    lemma_number_field("KICKED "@, number, blanks);
    lemma_number_field("WATCHING "@, number, blanks);
    lemma_number_field("INSERTED "@, number, blanks);
    lemma_number_field("BURIED "@, number, blanks);
    reveal_strlit("INSERTED");
    reveal_strlit("BURIED");
    let a = "INSERTED "@ + number + blanks;
    let b = "BURIED "@ + number + blanks;
    assert("INSERTED"@ == a.subrange(0, 8));
    assert("INSERTED"@[0] == a[0]);
    assert("BURIED"@ == b.subrange(0, 6));
    assert("BURIED"@[0] == b[0]);
    laws::lemma_not_prefix("BURIED"@, a);
    laws::lemma_not_prefix("INSERTED"@, b);
}

/// The size of a text that the server announces is how much is read, with the line end,
/// however the size is written and whatever blanks follow it. A line with something else in
/// its place cannot be read.
pub proof fn law_text_lines(form: Reply, number: Seq<char>, blanks: Seq<char>)
    requires
        form == Reply::Tubes || form == Reply::Stats || form == Reply::StatsTubeOrJob,
        number.len() > 0,
        !text::is_blank(number.last(), Blank::Unicode),
        all_blank(blanks, Blank::Unicode),
    ensures
        ({
            let read = decimal::number_in(number, usize::MAX - 2);
            let n = read->0;
            let line = "OK "@ + number + blanks;
            &&& readable(form, line) <==> read is Some
            &&& read is Some ==> after_line(form, line) == (ExchangeView {
                state: State::Body(form, Header::Text(n as usize)),
                action: ActionView::ReadExact((n + 2) as usize),
            })
        }),
{
    laws::lemma_words();
    lemma_number_line("OK"@, "OK "@, number, blanks);
    assert(("OK "@ + number).last() == number.last());
    law_blanks_are_trimmed("OK "@ + number, blanks, Blank::Unicode);
    law_prefixes_are_stripped("OK "@, number);
    decimal::lemma_number_in_range(number, usize::MAX - 2);
}

/// The number and the size of a job that the server announces are what is read, however they
/// are written, whatever follows a space after them and whatever blanks end the line. A line
/// with something else in their place cannot be read.
pub proof fn law_job_lines(
    form: Reply,
    id: Seq<char>,
    size: Seq<char>,
    extra: Seq<char>,
    blanks: Seq<char>,
)
    requires
        form == Reply::Peek || form == Reply::ReserveJob || form == Reply::Reserve,
        !id.contains(' '),
        !size.contains(' '),
        extra.len() > 0 ==> extra[0] == ' ',
        size.len() + extra.len() > 0,
        !text::is_blank((size + extra).last(), Blank::Ascii),
        all_blank(blanks, Blank::Ascii),
    ensures
        ({
            let read_id = decimal::number_in(id, u64::MAX as int);
            let read_size = decimal::number_in(size, usize::MAX - 2);
            let head = if form == Reply::Peek { "FOUND "@ } else { "RESERVED "@ };
            let line = head + (id + seq![' '] + (size + extra)) + blanks;
            let header = JobHeader { id: read_id->0 as u64, bytes: read_size->0 as usize };
            &&& readable(form, line) <==> read_id is Some && read_size is Some
            &&& read_id is Some && read_size is Some ==> after_line(form, line) == (ExchangeView {
                state: State::Body(form, Header::Job(header)),
                action: ActionView::ReadExact((read_size->0 + 2) as usize),
            })
        }),
{
    reveal_strlit(" ");
    assert(" "@ =~= seq![' ']);
    let head = if form == Reply::Peek { "FOUND "@ } else { "RESERVED "@ };
    let word = if form == Reply::Peek { "FOUND"@ } else { "RESERVED"@ };
    let tail = size + extra;
    let fields = id + seq![' '] + tail;
    laws::lemma_words();
    lemma_number_line(word, head, fields, blanks);
    assert((head + fields).last() == tail.last());
    law_blanks_are_trimmed(head + fields, blanks, Blank::Ascii);
    law_prefixes_are_stripped(head, fields);
    laws::lemma_halves_at(id, ' ', tail);
    lemma_first_word(size, extra);
    decimal::lemma_number_in_range(size, usize::MAX - 2);
}

/// The first word of a text is what stands before its first space.
proof fn lemma_first_word(word: Seq<char>, extra: Seq<char>)
    requires
        !word.contains(' '),
        extra.len() > 0 ==> extra[0] == ' ',
    ensures
        reply::first_word(word + extra) == word,
{
    reveal_strlit(" ");
    assert(" "@ =~= seq![' ']);
    if extra.len() > 0 {
        laws::lemma_halves_at(word, ' ', extra.skip(1));
        assert(word + extra =~= word + seq![' '] + extra.skip(1));
    } else {
        assert(word + extra =~= word);
        law_cuts_are_at_separators(word, seq![' ']);
        if let Some((a, b)) = text::halves(word, seq![' ']) {
            assert(word[a.len() as int] == ' ');
        }
    }
}

/// A line that announces a job without its size cannot be read.
pub proof fn law_jobs_need_a_size(form: Reply, id: Seq<char>, blanks: Seq<char>)
    requires
        form == Reply::Peek || form == Reply::ReserveJob || form == Reply::Reserve,
        id.len() > 0,
        !id.contains(' '),
        !text::is_blank(id.last(), Blank::Ascii),
        all_blank(blanks, Blank::Ascii),
    ensures
        form == Reply::Peek ==> !readable(form, "FOUND "@ + id + blanks),
        form != Reply::Peek ==> !readable(form, "RESERVED "@ + id + blanks),
{
    reveal_strlit(" ");
    assert(" "@ =~= seq![' ']);
    let head = if form == Reply::Peek { "FOUND "@ } else { "RESERVED "@ };
    let word = if form == Reply::Peek { "FOUND"@ } else { "RESERVED"@ };
    laws::lemma_words();
    lemma_number_line(word, head, id, blanks);
    assert((head + id).last() == id.last());
    law_blanks_are_trimmed(head + id, blanks, Blank::Ascii);
    law_prefixes_are_stripped(head, id);
    law_cuts_are_at_separators(id, seq![' ']);
    if let Some((a, b)) = text::halves(id, seq![' ']) {
        assert(id[a.len() as int] == ' ');
    }
}

/// The name of the tube in use is what stands between the word and the blanks that end the
/// line. `list-tube-used` counts other blanks as such than `use` does.
pub proof fn law_used_tube_lines(name: Seq<char>, blanks: Seq<char>)
    requires
        name.len() > 0,
    ensures
        ({
            let line = "USING "@ + name + blanks;
            &&& all_blank(blanks, Blank::Unicode) && !text::is_blank(name.last(), Blank::Unicode)
                ==> readable(Reply::Tube, line) && after_line(Reply::Tube, line)
                == exchange::finished(Ok(OutcomeView::Tube(name)))
            &&& all_blank(blanks, Blank::Ascii) && !text::is_blank(name.last(), Blank::Ascii)
                ==> readable(Reply::UseTube, line) && after_line(Reply::UseTube, line)
                == exchange::finished(Ok(OutcomeView::Tube(name)))
        }),
{
    laws::lemma_words();
    lemma_number_line("USING"@, "USING "@, name, blanks);
    law_prefixes_are_stripped("USING "@, name);
    assert(("USING "@ + name).last() == name.last());
    if all_blank(blanks, Blank::Unicode) && !text::is_blank(name.last(), Blank::Unicode) {
        law_blanks_are_trimmed("USING "@ + name, blanks, Blank::Unicode);
    }
    if all_blank(blanks, Blank::Ascii) && !text::is_blank(name.last(), Blank::Ascii) {
        law_blanks_are_trimmed("USING "@ + name, blanks, Blank::Ascii);
    }
}

/// Whether a line that starts with `word` is an answer with a number, a name or a body to a
/// command with this form of reply.
pub open spec fn is_answer_word(form: Reply, word: Seq<char>) -> bool {
    match form {
        Reply::Tubes | Reply::Stats | Reply::StatsTubeOrJob => word == "OK"@,
        Reply::Tube | Reply::UseTube => word == "USING"@,
        Reply::Kick => word == "KICKED"@,
        Reply::Ignore | Reply::Watch => word == "WATCHING"@,
        Reply::Put => word == "INSERTED"@ || word == "BURIED"@,
        Reply::Peek => word == "FOUND"@,
        Reply::ReserveJob | Reply::Reserve => word == "RESERVED"@,
        Reply::PauseTube | Reply::KickJob | Reply::Touch | Reply::Bury | Reply::Delete
        | Reply::Release => false,
    }
}

/// The blanks that a form of reply takes for the end of its line.
pub open spec fn line_blank(form: Reply) -> Blank {
    match form {
        Reply::Tubes | Reply::Stats | Reply::StatsTubeOrJob | Reply::Tube => Blank::Unicode,
        _ => Blank::Ascii,
    }
}

/// A line that starts with a word of an answer and does not go on with a space and something
/// after it cannot be read.
pub proof fn law_answers_go_on(form: Reply, word: Seq<char>, rest: Seq<char>)
    requires
        is_answer_word(form, word),
        rest.len() == 0 || rest[0] != ' ' || all_blank(rest, line_blank(form)),
    ensures
        !readable(form, word + rest),
{
    let line = word + rest;
    let blank = line_blank(form);
    laws::lemma_words();
    lemma_words_end(word);
    let head = word + seq![' '];
    assert(line.subrange(0, word.len() as int) =~= word);
    let t = text::trimmed(line, blank);
    lemma_trimmed_is_start(line, blank);
    if text::after_prefix(t, head) is Some {
        assert(head =~= t.subrange(0, head.len() as int));
        assert(t[word.len() as int] == head[word.len() as int]);
        assert(line[word.len() as int] == t[word.len() as int]);
        assert(rest[0] == ' ');
        law_blanks_are_trimmed(word, rest, blank);
    }
}

/// A trimmed text is a start of the text.
proof fn lemma_trimmed_is_start(s: Seq<char>, blank: Blank)
    ensures
        text::trimmed(s, blank).is_prefix_of(s),
    decreases s.len(),
{
    if s.len() > 0 && text::is_blank(s.last(), blank) {
        lemma_trimmed_is_start(s.drop_last(), blank);
        let t = text::trimmed(s.drop_last(), blank);
        assert(s.drop_last().subrange(0, t.len() as int) =~= s.subrange(0, t.len() as int));
    }
}

/// The words of answers do not end with a blank, and a space after each makes its head.
proof fn lemma_words_end(word: Seq<char>)
    requires
        word == "KICKED"@ || word == "WATCHING"@ || word == "INSERTED"@ || word == "BURIED"@
            || word == "OK"@ || word == "USING"@ || word == "FOUND"@ || word == "RESERVED"@,
    ensures
        word.len() > 0,
        !text::is_blank(word.last(), Blank::Unicode),
        !text::is_blank(word.last(), Blank::Ascii),
        word == "KICKED"@ ==> "KICKED "@ == word + seq![' '],
        word == "WATCHING"@ ==> "WATCHING "@ == word + seq![' '],
        word == "INSERTED"@ ==> "INSERTED "@ == word + seq![' '],
        word == "BURIED"@ ==> "BURIED "@ == word + seq![' '],
        word == "OK"@ ==> "OK "@ == word + seq![' '],
        word == "USING"@ ==> "USING "@ == word + seq![' '],
        word == "FOUND"@ ==> "FOUND "@ == word + seq![' '],
        word == "RESERVED"@ ==> "RESERVED "@ == word + seq![' '],
{
    reveal_strlit("OK");
    reveal_strlit("USING");
    reveal_strlit("KICKED");
    reveal_strlit("WATCHING");
    reveal_strlit("INSERTED");
    reveal_strlit("BURIED");
    reveal_strlit("FOUND");
    reveal_strlit("RESERVED");
    reveal_strlit("OK ");
    reveal_strlit("USING ");
    reveal_strlit("KICKED ");
    reveal_strlit("WATCHING ");
    reveal_strlit("INSERTED ");
    reveal_strlit("BURIED ");
    reveal_strlit("FOUND ");
    reveal_strlit("RESERVED ");
    assert("OK "@ =~= "OK"@ + seq![' ']);
    assert("USING "@ =~= "USING"@ + seq![' ']);
    assert("KICKED "@ =~= "KICKED"@ + seq![' ']);
    assert("WATCHING "@ =~= "WATCHING"@ + seq![' ']);
    assert("INSERTED "@ =~= "INSERTED"@ + seq![' ']);
    assert("BURIED "@ =~= "BURIED"@ + seq![' ']);
    assert("FOUND "@ =~= "FOUND"@ + seq![' ']);
    assert("RESERVED "@ =~= "RESERVED"@ + seq![' ']);
}

/// A line that is neither an error nor an answer, whole or by its first word, is reported as
/// an unexpected response, whatever it is.
pub proof fn law_other_lines_are_unexpected(form: Reply, line: Seq<char>)
    requires
        forall|word: Seq<char>| #[trigger]
            is_answer_word(form, word) ==> !word.is_prefix_of(line),
        forall|error: ErrorView| #[trigger] laws::error_line(form, error) != Some(line),
        forall|outcome: OutcomeView|
            laws::fits(form, outcome) ==> #[trigger] laws::answer_line(form, outcome) != Some(line),
    ensures
        readable(form, line),
        after_line(form, line) == exchange::finished(Err(ErrorView::UnexpectedResponse(line))),
{
    assert(laws::error_line(form, ErrorView::OutOfMemory) != Some(line));
    assert(laws::error_line(form, ErrorView::InternalError) != Some(line));
    assert(laws::error_line(form, ErrorView::BadFormat) != Some(line));
    assert(laws::error_line(form, ErrorView::UnknownCommand) != Some(line));
    assert(laws::error_line(form, ErrorView::ExpectedCrlf) != Some(line));
    assert(laws::error_line(form, ErrorView::JobTooBig) != Some(line));
    assert(laws::error_line(form, ErrorView::Draining) != Some(line));
    assert(reply::global_error(line) is None);
    let yes = OutcomeView::Flag(true);
    let no = OutcomeView::Flag(false);
    assert(laws::fits(form, yes) ==> laws::answer_line(form, yes) != Some(line));
    assert(laws::fits(form, no) ==> laws::answer_line(form, no) != Some(line));
    let no_job = OutcomeView::JobIfFound(None);
    let no_stats = OutcomeView::StatsIfFound(None);
    assert(laws::fits(form, no_job) ==> laws::answer_line(form, no_job) != Some(line));
    assert(laws::fits(form, no_stats) ==> laws::answer_line(form, no_stats) != Some(line));
    let released = OutcomeView::Release(ReleaseResult::Released);
    let buried = OutcomeView::Release(ReleaseResult::Buried);
    let gone = OutcomeView::Release(ReleaseResult::NotFound);
    assert(laws::fits(form, released) ==> laws::answer_line(form, released) != Some(line));
    assert(laws::fits(form, buried) ==> laws::answer_line(form, buried) != Some(line));
    assert(laws::fits(form, gone) ==> laws::answer_line(form, gone) != Some(line));
    let late = OutcomeView::Reserve(ReserveView::TimedOut);
    let soon = OutcomeView::Reserve(ReserveView::DeadlineSoon);
    assert(laws::fits(form, late) ==> laws::answer_line(form, late) != Some(line));
    assert(laws::fits(form, soon) ==> laws::answer_line(form, soon) != Some(line));
    let kept = OutcomeView::Ignore(IgnoreResult::NotIgnored);
    assert(laws::fits(form, kept) ==> laws::answer_line(form, kept) != Some(line));
    assert(is_answer_word(form, "OK"@) ==> !"OK"@.is_prefix_of(line));
    assert(is_answer_word(form, "USING"@) ==> !"USING"@.is_prefix_of(line));
    assert(is_answer_word(form, "KICKED"@) ==> !"KICKED"@.is_prefix_of(line));
    assert(is_answer_word(form, "WATCHING"@) ==> !"WATCHING"@.is_prefix_of(line));
    assert(is_answer_word(form, "INSERTED"@) ==> !"INSERTED"@.is_prefix_of(line));
    assert(is_answer_word(form, "BURIED"@) ==> !"BURIED"@.is_prefix_of(line));
    assert(is_answer_word(form, "FOUND"@) ==> !"FOUND"@.is_prefix_of(line));
    assert(is_answer_word(form, "RESERVED"@) ==> !"RESERVED"@.is_prefix_of(line));
}

/// A job is handed back by its number with the bytes that it has, whatever two bytes end it. So
/// many bytes are needed, no fewer and no more.
pub proof fn law_job_bodies(form: Reply, header: JobHeader, data: Seq<u8>, end: Seq<u8>)
    requires
        form == Reply::Peek || form == Reply::ReserveJob || form == Reply::Reserve,
    ensures
        ({
            let state = State::Body(form, Header::Job(header));
            let event = EventView::Body(data + end);
            let job = JobView { id: header.id, body: data };
            &&& exchange::acceptable(state, event) <==> data.len() + end.len() == header.bytes + 2
            &&& data.len() == header.bytes && end.len() == 2 ==> exchange::next(state, event)
                == exchange::finished(
                Ok(
                    match form {
                        Reply::Reserve => OutcomeView::Reserve(ReserveView::Reserved(job)),
                        _ => OutcomeView::JobIfFound(Some(job)),
                    },
                ),
            )
        }),
{
    if data.len() == header.bytes {
        assert((data + end).take(header.bytes as int) =~= data);
    }
}

/// What ends a line: a line feed, or a carriage return and a line feed.
pub open spec fn line_end(with_return: bool) -> Seq<char> {
    if with_return {
        seq!['\r', '\n']
    } else {
        seq!['\n']
    }
}

/// Lines with their ends, one after the other.
pub open spec fn ended(lines: Seq<(Seq<char>, bool)>) -> Seq<char>
    decreases lines.len(),
{
    if lines.len() == 0 {
        seq![]
    } else {
        lines[0].0 + line_end(lines[0].1) + ended(lines.drop_first())
    }
}

/// Whether a line can be told from its end.
pub open spec fn is_line(line: (Seq<char>, bool)) -> bool {
    &&& !line.0.contains('\n')
    &&& !line.1 && line.0.len() > 0 ==> line.0.last() != '\r'
}

/// The lines of a text are what stands before the line ends, of one kind or the other, and
/// what follows the last of these, if anything does.
pub proof fn law_lines_and_their_ends(lines: Seq<(Seq<char>, bool)>, last: Seq<char>)
    requires
        forall|i: int| 0 <= i < lines.len() ==> is_line(#[trigger] lines[i]),
        !last.contains('\n'),
    ensures
        text::lines_of(ended(lines) + last) == lines.map_values(|l: (Seq<char>, bool)| l.0) + (
        if last.len() == 0 {
            Seq::<Seq<char>>::empty()
        } else {
            seq![last]
        }),
    decreases lines.len(),
{
    let texts = lines.map_values(|l: (Seq<char>, bool)| l.0);
    let tail = if last.len() == 0 {
        Seq::<Seq<char>>::empty()
    } else {
        seq![last]
    };
    let s = ended(lines) + last;
    if lines.len() == 0 {
        assert(s =~= last);
        law_cuts_are_at_separators(last, seq!['\n']);
        if let Some((a, b)) = text::halves(last, seq!['\n']) {
            assert(last[a.len() as int] == '\n');
        }
        assert(text::lines_of(s) =~= texts + tail);
    } else {
        let rest = lines.drop_first();
        assert forall|i: int| 0 <= i < rest.len() implies is_line(#[trigger] rest[i]) by {
            assert(rest[i] == lines[i + 1]);
        }
        law_lines_and_their_ends(rest, last);
        assert(is_line(lines[0]));
        let line = lines[0].0;
        let after = ended(rest) + last;
        let front = if lines[0].1 {
            line.push('\r')
        } else {
            line
        };
        if front.contains('\n') {
            let j = choose|j: int| 0 <= j < front.len() && front[j] == '\n';
            assert(line[j] == '\n');
        }
        laws::lemma_halves_at(front, '\n', after);
        assert(s =~= front + seq!['\n'] + after);
        assert(text::without_cr(front) =~= line);
        let rest_texts = rest.map_values(|l: (Seq<char>, bool)| l.0);
        assert(texts =~= seq![line] + rest_texts);
        assert(seq![line] + (rest_texts + tail) =~= texts + tail);
    }
}

/// The items of a list are its lines without the first, whatever the first says.
pub proof fn law_first_lines_are_left_out(
    first: (Seq<char>, bool),
    lines: Seq<(Seq<char>, bool)>,
    last: Seq<char>,
)
    requires
        is_line(first),
        forall|i: int| 0 <= i < lines.len() ==> is_line(#[trigger] lines[i]),
        !last.contains('\n'),
    ensures
        reply::items(ended(seq![first] + lines) + last) == lines.map_values(
            |l: (Seq<char>, bool)| l.0,
        ) + (if last.len() == 0 {
            Seq::<Seq<char>>::empty()
        } else {
            seq![last]
        }),
        reply::items(last).len() == 0,
{
    let all = seq![first] + lines;
    assert forall|i: int| 0 <= i < all.len() implies is_line(#[trigger] all[i]) by {
        if i > 0 {
            assert(all[i] == lines[i - 1]);
        }
    }
    law_lines_and_their_ends(all, last);
    law_lines_and_their_ends(seq![], last);
    assert(ended(Seq::<(Seq<char>, bool)>::empty()) + last =~= last);
    let tail = if last.len() == 0 {
        Seq::<Seq<char>>::empty()
    } else {
        seq![last]
    };
    let texts = all.map_values(|l: (Seq<char>, bool)| l.0);
    assert((texts + tail).drop_first() =~= lines.map_values(|l: (Seq<char>, bool)| l.0) + tail);
}

/// The exchange of a form of reply after the body of a text.
pub open spec fn after_text(form: Reply, content: Seq<char>, end: Seq<u8>) -> ExchangeView {
    exchange::next(
        State::Body(form, Header::Text(encode_utf8(content).len() as usize)),
        EventView::Body(encode_utf8(content) + end),
    )
}

/// Whether a text is a body that a form of reply can be read from.
pub open spec fn text_readable(form: Reply, content: Seq<char>, end: Seq<u8>) -> bool {
    exchange::acceptable(
        State::Body(form, Header::Text(encode_utf8(content).len() as usize)),
        EventView::Body(encode_utf8(content) + end),
    )
}

/// The text of a body is read back, whatever two bytes end it.
proof fn lemma_text_body(content: Seq<char>, end: Seq<u8>)
    requires
        encode_utf8(content).len() <= usize::MAX,
        end.len() == 2,
    ensures
        ({
            let bytes = encode_utf8(content);
            let raw = bytes + end;
            &&& raw.len() == bytes.len() + 2
            &&& valid_utf8(raw.take(bytes.len() as int))
            &&& reply::text_of(bytes.len() as usize, raw) == content
        }),
{
    let bytes = encode_utf8(content);
    assert((bytes + end).take(bytes.len() as int) =~= bytes);
    encode_utf8_valid_utf8(content);
    encode_utf8_decode_utf8(content);
}

/// The tubes that are handed back are the items of the list without the dash and the space
/// before each, as many as there are and in their order.
pub proof fn law_tube_bodies(content: Seq<char>, end: Seq<u8>, names: Seq<Seq<char>>)
    requires
        encode_utf8(content).len() <= usize::MAX,
        end.len() == 2,
        reply::items(content).len() == names.len(),
        forall|i: int|
            0 <= i < names.len() ==> reply::items(content)[i] == "- "@ + #[trigger] names[i],
    ensures
        text_readable(Reply::Tubes, content, end),
        after_text(Reply::Tubes, content, end) == exchange::finished(Ok(OutcomeView::Tubes(names))),
{
    lemma_text_body(content, end);
    let list = reply::items(content);
    assert forall|i: int| 0 <= i < list.len() implies text::after_prefix(
        #[trigger] list[i],
        "- "@,
    ) == Some(names[i]) by {
        law_prefixes_are_stripped("- "@, names[i]);
    }
    assert(reply::tube_names(content) =~= names);
}

/// A list of tubes with an item that has no dash and space before it cannot be read.
pub proof fn law_tubes_need_dashes(content: Seq<char>, end: Seq<u8>, i: int)
    requires
        encode_utf8(content).len() <= usize::MAX,
        end.len() == 2,
        0 <= i < reply::items(content).len(),
        !"- "@.is_prefix_of(reply::items(content)[i]),
    ensures
        !text_readable(Reply::Tubes, content, end),
{
    lemma_text_body(content, end);
    assert(text::after_prefix(reply::items(content)[i], "- "@) is None);
}

/// Every statistic of the text is handed back: the value of a name is what follows the first
/// colon and space in the last item that starts with the name, a colon and a space. No other
/// name has a value.
pub proof fn law_stats_bodies(
    content: Seq<char>,
    end: Seq<u8>,
    entries: Seq<(Seq<char>, Seq<char>)>,
    name: Seq<char>,
    last: int,
)
    requires
        encode_utf8(content).len() <= usize::MAX,
        end.len() == 2,
        reply::items(content).len() == entries.len(),
        forall|i: int|
            0 <= i < entries.len() ==> text::halves(reply::items(content)[i], ": "@) == Some(
                #[trigger] entries[i],
            ),
        -1 <= last < entries.len(),
        last >= 0 ==> entries[last].0 == name,
        forall|i: int| last < i < entries.len() ==> #[trigger] entries[i].0 != name,
    ensures
        text_readable(Reply::Stats, content, end),
        text_readable(Reply::StatsTubeOrJob, content, end),
        after_text(Reply::Stats, content, end).action matches ActionView::Finish(
            Ok(OutcomeView::Stats(table)),
        ) && (table.contains_key(name) <==> last >= 0) && (last >= 0 ==> table[name]
            == entries[last].1) && after_text(Reply::StatsTubeOrJob, content, end)
            == exchange::finished(Ok(OutcomeView::StatsIfFound(Some(table)))),
        after_text(Reply::Stats, content, end).state is Finished,
{
    lemma_text_body(content, end);
    let list = reply::items(content);
    assert forall|i: int| 0 <= i < list.len() implies text::halves(#[trigger] list[i], ": "@)
        == Some(entries[i]) by {
        assert(entries[i] == entries[i]);
    }
    assert(reply::stats_entries(content) =~= entries);
    law_last_value_counts(entries, name, last);
}

/// Statistics with an item that holds no colon and space cannot be read.
pub proof fn law_stats_need_colons(content: Seq<char>, end: Seq<u8>, i: int)
    requires
        encode_utf8(content).len() <= usize::MAX,
        end.len() == 2,
        0 <= i < reply::items(content).len(),
        text::halves(reply::items(content)[i], ": "@) is None,
    ensures
        !text_readable(Reply::Stats, content, end),
        !text_readable(Reply::StatsTubeOrJob, content, end),
{
    lemma_text_body(content, end);
}

/// A body that is no text, or not of the announced size, cannot be read as one.
pub proof fn law_bodies_are_texts(form: Reply, size: usize, raw: Seq<u8>)
    requires
        raw.len() != size + 2 || !valid_utf8(raw.take(size as int)),
    ensures
        !exchange::acceptable(State::Body(form, Header::Text(size)), EventView::Body(raw)),
{
}

/// Of the values that a list gives to a name the last one counts, and a name without one has
/// none.
pub proof fn law_last_value_counts(
    entries: Seq<(Seq<char>, Seq<char>)>,
    name: Seq<char>,
    last: int,
)
    requires
        -1 <= last < entries.len(),
        last >= 0 ==> entries[last].0 == name,
        forall|i: int| last < i < entries.len() ==> #[trigger] entries[i].0 != name,
    ensures
        stats::entries_map(entries).contains_key(name) <==> last >= 0,
        last >= 0 ==> stats::entries_map(entries)[name] == entries[last].1,
    decreases entries.len(),
{
    if entries.len() > 0 && last < entries.len() - 1 {
        let front = entries.drop_last();
        assert forall|i: int| last < i < front.len() implies #[trigger] front[i].0 != name by {
            assert(entries[i].0 != name);
        }
        law_last_value_counts(front, name, last);
        assert(entries[entries.len() - 1].0 != name);
    }
}

/// A request that is written is followed by the line of its reply, and one without a reply is
/// done.
pub proof fn law_replies_follow_requests(request: Seq<u8>, form: Reply)
    ensures
        exchange::started(request, Some(form)).action == ActionView::Write(request),
        exchange::started(request, None).action == ActionView::Write(request),
        exchange::acceptable(
            exchange::started(request, Some(form)).state,
            EventView::Written,
        ),
        exchange::next(exchange::started(request, Some(form)).state, EventView::Written) == (
        ExchangeView { state: State::Line(form), action: ActionView::ReadLine }),
        exchange::acceptable(exchange::started(request, None).state, EventView::Written),
        exchange::next(exchange::started(request, None).state, EventView::Written)
            == exchange::finished(Ok(OutcomeView::Sent)),
{
}

/// Nothing can come after the end, and only what was asked for can come before it: a request
/// is written, then a line is read, then a body.
pub proof fn law_events_come_in_their_turn(state: State, event: EventView)
    requires
        exchange::acceptable(state, event),
    ensures
        state != State::Finished,
        event is Written ==> state is Sending,
        event is Line ==> state is Line,
        event is Body ==> state is Body,
{
}

/// The number of a job that was put is the one that the server gave it, buried or not.
pub proof fn law_put_jobs_have_their_number(n: u64)
    ensures
        PutResult::Inserted(n).spec_id() == n,
        PutResult::Buried(n).spec_id() == n,
{
}

/// A job is seen as its number and its bytes, as they are.
pub proof fn law_jobs_are_seen_as_they_are(job: Job)
    ensures
        job.deep_view().id == job.id,
        job.deep_view().body == job.body@,
        ReserveResult::Reserved(job).deep_view() == ReserveView::Reserved(job.deep_view()),
        ReserveResult::DeadlineSoon.deep_view() == ReserveView::DeadlineSoon,
        ReserveResult::TimedOut.deep_view() == ReserveView::TimedOut,
{
}

/// What a command hands back is seen as it is.
pub proof fn law_outcomes_are_seen_as_they_are(
    flag: bool,
    count: u64,
    tube: String,
    tubes: Vec<String>,
    table: Stats,
    job: Option<Job>,
    ignored: IgnoreResult,
    released: ReleaseResult,
    reserved: ReserveResult,
    put: PutResult,
)
    ensures
        Outcome::Sent.deep_view() == OutcomeView::Sent,
        Outcome::Flag(flag).deep_view() == OutcomeView::Flag(flag),
        Outcome::Count(count).deep_view() == OutcomeView::Count(count),
        Outcome::Tube(tube).deep_view() == OutcomeView::Tube(tube@),
        Outcome::Tubes(tubes).deep_view() == OutcomeView::Tubes(
            Seq::new(tubes@.len(), |i: int| tubes@[i]@),
        ),
        Outcome::Stats(table).deep_view() == OutcomeView::Stats(table@),
        Outcome::StatsIfFound(Some(table)).deep_view() == OutcomeView::StatsIfFound(Some(table@)),
        Outcome::StatsIfFound(None).deep_view() == OutcomeView::StatsIfFound(None),
        job is Some ==> Outcome::JobIfFound(job).deep_view() == OutcomeView::JobIfFound(
            Some((JobView { id: job->0.id, body: job->0.body@ })),
        ),
        job is None ==> Outcome::JobIfFound(job).deep_view() == OutcomeView::JobIfFound(None),
        Outcome::Ignore(ignored).deep_view() == OutcomeView::Ignore(ignored),
        Outcome::Release(released).deep_view() == OutcomeView::Release(released),
        Outcome::Reserve(reserved).deep_view() == OutcomeView::Reserve(reserved.deep_view()),
        Outcome::Put(put).deep_view() == OutcomeView::Put(put),
{
    assert(tubes.deep_view() =~= Seq::new(tubes@.len(), |i: int| tubes@[i]@));
}

/// What is to be done and what came of it are seen as they are.
pub proof fn law_steps_are_seen_as_they_are(
    state: State,
    bytes: Vec<u8>,
    line: String,
    size: usize,
    e: std::io::Error,
    outcome: Outcome,
    error: Error,
)
    ensures
        (Exchange { state, action: Action::Write(bytes) }).deep_view() == (ExchangeView {
            state,
            action: ActionView::Write(bytes@),
        }),
        Action::ReadLine.deep_view() == ActionView::ReadLine,
        Action::ReadExact(size).deep_view() == ActionView::ReadExact(size),
        Action::Finish(Ok(outcome)).deep_view() == ActionView::Finish(Ok(outcome.deep_view())),
        Action::Finish(Err(error)).deep_view() == ActionView::Finish(Err(error.deep_view())),
        Event::Written.deep_view() == EventView::Written,
        Event::Line(line).deep_view() == EventView::Line(line@),
        Event::Body(bytes).deep_view() == EventView::Body(bytes@),
        Event::Failed(e).deep_view() == EventView::Failed(e),
{
}

/// An error is told by what it is: two that are told alike are of one kind and carry the same
/// line or the same I/O error.
pub proof fn law_errors_are_told_apart(a: Error, b: Error)
    requires
        a.deep_view() == b.deep_view(),
    ensures
        a is Io <==> b is Io,
        a is Io ==> a->Io_0 == b->Io_0,
        a is ExpectedCrlf <==> b is ExpectedCrlf,
        a is JobTooBig <==> b is JobTooBig,
        a is OutOfMemory <==> b is OutOfMemory,
        a is InternalError <==> b is InternalError,
        a is BadFormat <==> b is BadFormat,
        a is UnknownCommand <==> b is UnknownCommand,
        a is Draining <==> b is Draining,
        a is UnexpectedResponse ==> b is UnexpectedResponse && a->UnexpectedResponse_0@
            == b->UnexpectedResponse_0@,
        a is UnexpectedResponse <==> a.deep_view() is UnexpectedResponse,
        a is UnexpectedResponse ==> a.deep_view()->UnexpectedResponse_0
            == a->UnexpectedResponse_0@,
        a is Io <==> a.deep_view() is Io,
        a is Io ==> a.deep_view()->Io_0 == a->Io_0,
{
}

/// The message of an unexpected response ends with the line as it came, and that of an I/O
/// error with the text of the error. So what differs in these differs in the messages.
pub proof fn law_messages_name_their_cause(
    line: Seq<char>,
    other_line: Seq<char>,
    io_error: std::io::Error,
    io: Seq<char>,
    other_io: Seq<char>,
)
    ensures
        ({
            let message = types::message_of(ErrorView::UnexpectedResponse(line), io);
            &&& "Unexpected server response: "@.is_prefix_of(message)
            &&& message.skip("Unexpected server response: "@.len() as int) == line
        }),
        ({
            let message = types::message_of(ErrorView::Io(io_error), io);
            &&& "Network I/O error: "@.is_prefix_of(message)
            &&& message.skip("Network I/O error: "@.len() as int) == io
        }),
        types::message_of(ErrorView::UnexpectedResponse(line), io) == types::message_of(
            ErrorView::UnexpectedResponse(other_line),
            other_io,
        ) ==> line == other_line,
        types::message_of(ErrorView::Io(io_error), io) == types::message_of(
            ErrorView::Io(io_error),
            other_io,
        ) ==> io == other_io,
{
    let p = "Unexpected server response: "@;
    let q = "Network I/O error: "@;
    assert((p + line).subrange(0, p.len() as int) =~= p);
    assert((p + line).skip(p.len() as int) =~= line);
    assert((p + other_line).skip(p.len() as int) =~= other_line);
    assert((q + io).subrange(0, q.len() as int) =~= q);
    assert((q + io).skip(q.len() as int) =~= io);
    assert((q + other_io).skip(q.len() as int) =~= other_io);
}

} // verus!
