//! The replies of the server.
//!
//! A reply is a line; the line may announce a body of so many bytes and a line end. Each
//! command has its own set of lines. `..._reply` says what a line means to a command, and
//! `..._line_ok` leaves out the lines that start like an answer and then break off: a count
//! without its number, a job without its size.
use crate::decimal::{self, parse_u64, parse_usize};
use crate::stats::{self, Stats};
use crate::text::{self, lines, same, split_once, starts_with, strip_prefix, trim_end, Blank};
use crate::types::{
    self, Error, ErrorView, IgnoreResult, Job, JobView, PutResult, ReleaseResult, ReserveResult,
    ReserveView,
};
use vstd::prelude::*;
use vstd::utf8::*;

verus! {

/// A reply line that is the whole reply, or one that announces a body.
#[derive(Debug, PartialEq)]
pub enum Opening<T, H> {
    Whole(T),
    Body(H),
}

impl<T: DeepView, H> DeepView for Opening<T, H> {
    type V = Opening<T::V, H>;

    open spec fn deep_view(&self) -> Opening<T::V, H> {
        match self {
            Opening::Whole(v) => Opening::Whole(v.deep_view()),
            Opening::Body(h) => Opening::Body(*h),
        }
    }
}

/// What a line says about the job that follows it.
#[derive(Debug, Clone, Copy, PartialEq)]
pub struct JobHeader {
    pub id: u64,
    /// The size of the job, without the line end after it.
    pub bytes: usize,
}

/// The errors with which the server may answer any command.
pub open spec fn global_error(line: Seq<char>) -> Option<ErrorView> {
    if line == "OUT_OF_MEMORY\r\n"@ {
        Some(ErrorView::OutOfMemory)
    } else if line == "INTERNAL_ERROR\r\n"@ {
        Some(ErrorView::InternalError)
    } else if line == "BAD_FORMAT\r\n"@ {
        Some(ErrorView::BadFormat)
    } else if line == "UNKNOWN_COMMAND\r\n"@ {
        Some(ErrorView::UnknownCommand)
    } else {
        None
    }
}

/// The error that a line stands for, whatever the command was.
pub fn check_global_error(line: &str) -> (r: Option<Error>)
    ensures
        r.deep_view() == global_error(line@),
{
    if same(line, "OUT_OF_MEMORY\r\n") {
        Some(Error::OutOfMemory)
    } else if same(line, "INTERNAL_ERROR\r\n") {
        Some(Error::InternalError)
    } else if same(line, "BAD_FORMAT\r\n") {
        Some(Error::BadFormat)
    } else if same(line, "UNKNOWN_COMMAND\r\n") {
        Some(Error::UnknownCommand)
    } else {
        None
    }
}

/// The number that stands in `line` after `head`.
pub open spec fn number_field(line: Seq<char>, head: Seq<char>) -> Option<u64> {
    match text::after_prefix(text::trimmed(line, Blank::Ascii), head) {
        Some(rest) => match decimal::number_in(rest, u64::MAX as int) {
            Some(n) => Some(n as u64),
            None => None,
        },
        None => None,
    }
}

/// The number that stands in `line` after `head`.
fn read_number(line: &str, head: &str) -> (r: Option<u64>)
    ensures
        r == number_field(line@, head@),
{
    match strip_prefix(trim_end(line, Blank::Ascii), head) {
        Some(rest) => parse_u64(rest),
        None => None,
    }
}

/// The part of `s` before its first space.
pub open spec fn first_word(s: Seq<char>) -> Seq<char> {
    match text::halves(s, " "@) {
        Some((word, _)) => word,
        None => s,
    }
}

/// The number and the size of a job, which stand in `line` after `head`, a space between them.
/// A size is good if the job and its line end fit into memory addresses.
pub open spec fn job_fields(line: Seq<char>, head: Seq<char>) -> Option<JobHeader> {
    match text::after_prefix(text::trimmed(line, Blank::Ascii), head) {
        Some(rest) => match text::halves(rest, " "@) {
            Some((id, tail)) => match (
                decimal::number_in(id, u64::MAX as int),
                decimal::number_in(first_word(tail), usize::MAX - 2),
            ) {
                (Some(id), Some(bytes)) => Some(
                    JobHeader { id: id as u64, bytes: bytes as usize },
                ),
                _ => None,
            },
            None => None,
        },
        None => None,
    }
}

/// Reads a size that leaves room for a line end.
fn read_size(s: &str) -> (r: Option<usize>)
    ensures
        match r {
            Some(n) => decimal::number_in(s@, usize::MAX - 2) == Some(n as int),
            None => decimal::number_in(s@, usize::MAX - 2) is None,
        },
{
    match parse_usize(s) {
        Some(n) => {
            if n <= usize::MAX - 2 {
                Some(n)
            } else {
                None
            }
        },
        None => None,
    }
}

/// The number and the size of a job, which stand in `line` after `head`.
fn read_job_header(line: &str, head: &str) -> (r: Option<JobHeader>)
    ensures
        r == job_fields(line@, head@),
{
    proof {
        reveal_strlit(" ");
    }
    let rest = match strip_prefix(trim_end(line, Blank::Ascii), head) {
        Some(rest) => rest,
        None => {
            return None;
        },
    };
    let (id, tail) = match split_once(rest, " ") {
        Some(parts) => parts,
        None => {
            return None;
        },
    };
    let size = match split_once(tail, " ") {
        Some((word, _)) => word,
        None => tail,
    };
    match (parse_u64(id), read_size(size)) {
        (Some(id), Some(bytes)) => Some(JobHeader { id, bytes }),
        _ => None,
    }
}

/// The size of the text that a line announces with `OK`.
pub open spec fn text_size(line: Seq<char>) -> Option<usize> {
    match text::after_prefix(text::trimmed(line, Blank::Unicode), "OK "@) {
        Some(rest) => match decimal::number_in(rest, usize::MAX - 2) {
            Some(n) => Some(n as usize),
            None => None,
        },
        None => None,
    }
}

/// The size of an announced job or text leaves room for the line end.
pub proof fn lemma_size_leaves_room(line: Seq<char>, head: Seq<char>)
    ensures
        job_fields(line, head) matches Some(h) ==> h.bytes <= usize::MAX - 2,
        text_size(line) matches Some(n) ==> n <= usize::MAX - 2,
{
    if let Some(rest) = text::after_prefix(text::trimmed(line, Blank::Ascii), head) {
        if let Some((_, tail)) = text::halves(rest, " "@) {
            decimal::lemma_number_in_range(first_word(tail), usize::MAX - 2);
        }
    }
    if let Some(rest) = text::after_prefix(text::trimmed(line, Blank::Unicode), "OK "@) {
        decimal::lemma_number_in_range(rest, usize::MAX - 2);
    }
}

/// The size of the text that a line announces with `OK`.
fn read_text_size(line: &str) -> (r: Option<usize>)
    ensures
        r == text_size(line@),
{
    match strip_prefix(trim_end(line, Blank::Unicode), "OK ") {
        Some(rest) => read_size(rest),
        None => None,
    }
}

/// The name of the tube that a line says is in use.
pub open spec fn used_tube(line: Seq<char>, blank: Blank) -> Option<Seq<char>> {
    text::after_prefix(text::trimmed(line, blank), "USING "@)
}

/// An answer that is yes or no.
pub open spec fn flag_reply(line: Seq<char>, yes: Seq<char>) -> Result<bool, ErrorView> {
    match global_error(line) {
        Some(e) => Err(e),
        None => if line == yes {
            Ok(true)
        } else if line == "NOT_FOUND\r\n"@ {
            Ok(false)
        } else {
            Err(ErrorView::UnexpectedResponse(line))
        },
    }
}

/// Reads an answer that is yes or no.
fn parse_flag(line: String, yes: &str) -> (r: Result<bool, Error>)
    ensures
        types::result_view(r) == flag_reply(line@, yes@),
{
    if let Some(err) = check_global_error(line.as_str()) {
        return Err(err);
    }
    if same(line.as_str(), yes) {
        Ok(true)
    } else if same(line.as_str(), "NOT_FOUND\r\n") {
        Ok(false)
    } else {
        Err(Error::UnexpectedResponse(line))
    }
}

/// Reads the answer to `pause-tube`.
pub fn parse_pause_tube(line: String) -> (r: Result<bool, Error>)
    ensures
        types::result_view(r) == flag_reply(line@, "PAUSED\r\n"@),
{
    parse_flag(line, "PAUSED\r\n")
}

/// Reads the answer to `kick-job`.
pub fn parse_kick_job(line: String) -> (r: Result<bool, Error>)
    ensures
        types::result_view(r) == flag_reply(line@, "KICKED\r\n"@),
{
    parse_flag(line, "KICKED\r\n")
}

/// Reads the answer to `touch`.
pub fn parse_touch(line: String) -> (r: Result<bool, Error>)
    ensures
        types::result_view(r) == flag_reply(line@, "TOUCHED\r\n"@),
{
    parse_flag(line, "TOUCHED\r\n")
}

/// Reads the answer to `bury`.
pub fn parse_bury(line: String) -> (r: Result<bool, Error>)
    ensures
        types::result_view(r) == flag_reply(line@, "BURIED\r\n"@),
{
    parse_flag(line, "BURIED\r\n")
}

/// Reads the answer to `delete`.
pub fn parse_delete(line: String) -> (r: Result<bool, Error>)
    ensures
        types::result_view(r) == flag_reply(line@, "DELETED\r\n"@),
{
    parse_flag(line, "DELETED\r\n")
}

/// What a line means to `release`.
pub open spec fn release_reply(line: Seq<char>) -> Result<ReleaseResult, ErrorView> {
    match global_error(line) {
        Some(e) => Err(e),
        None => if line == "RELEASED\r\n"@ {
            Ok(ReleaseResult::Released)
        } else if line == "BURIED\r\n"@ {
            Ok(ReleaseResult::Buried)
        } else if line == "NOT_FOUND\r\n"@ {
            Ok(ReleaseResult::NotFound)
        } else {
            Err(ErrorView::UnexpectedResponse(line))
        },
    }
}

/// Reads the answer to `release`.
pub fn parse_release(line: String) -> (r: Result<ReleaseResult, Error>)
    ensures
        types::result_view(r) == release_reply(line@),
{
    if let Some(err) = check_global_error(line.as_str()) {
        return Err(err);
    }
    if same(line.as_str(), "RELEASED\r\n") {
        Ok(ReleaseResult::Released)
    } else if same(line.as_str(), "BURIED\r\n") {
        Ok(ReleaseResult::Buried)
    } else if same(line.as_str(), "NOT_FOUND\r\n") {
        Ok(ReleaseResult::NotFound)
    } else {
        Err(Error::UnexpectedResponse(line))
    }
}

/// Whether a line that starts with `word` goes on with a number.
pub open spec fn count_line_ok(line: Seq<char>, word: Seq<char>, head: Seq<char>) -> bool {
    word.is_prefix_of(line) ==> number_field(line, head) is Some
}

/// An answer that is a number.
pub open spec fn count_reply(line: Seq<char>, word: Seq<char>, head: Seq<char>) -> Result<
    u64,
    ErrorView,
> {
    match global_error(line) {
        Some(e) => Err(e),
        None => if word.is_prefix_of(line) {
            Ok(number_field(line, head)->0)
        } else {
            Err(ErrorView::UnexpectedResponse(line))
        },
    }
}

/// Whether a line that starts with `word` goes on with a number.
pub fn check_count_line(line: &str, word: &str, head: &str) -> (r: bool)
    ensures
        r == count_line_ok(line@, word@, head@),
{
    !starts_with(line, word) || read_number(line, head).is_some()
}

/// Reads an answer that is a number.
fn parse_count(line: String, word: &str, head: &str) -> (r: Result<u64, Error>)
    requires
        count_line_ok(line@, word@, head@),
    ensures
        types::result_view(r) == count_reply(line@, word@, head@),
{
    if let Some(err) = check_global_error(line.as_str()) {
        return Err(err);
    }
    if starts_with(line.as_str(), word) {
        return Ok(read_number(line.as_str(), head).unwrap());
    }
    Err(Error::UnexpectedResponse(line))
}

/// Reads the answer to `kick`: how many jobs were kicked.
pub fn parse_kick(line: String) -> (r: Result<u64, Error>)
    requires
        count_line_ok(line@, "KICKED"@, "KICKED "@),
    ensures
        types::result_view(r) == count_reply(line@, "KICKED"@, "KICKED "@),
{
    parse_count(line, "KICKED", "KICKED ")
}

/// Reads the answer to `watch`: how many tubes are watched.
pub fn parse_watch(line: String) -> (r: Result<u64, Error>)
    requires
        count_line_ok(line@, "WATCHING"@, "WATCHING "@),
    ensures
        types::result_view(r) == count_reply(line@, "WATCHING"@, "WATCHING "@),
{
    parse_count(line, "WATCHING", "WATCHING ")
}

/// What a line means to `ignore`.
pub open spec fn ignore_reply(line: Seq<char>) -> Result<IgnoreResult, ErrorView> {
    match global_error(line) {
        Some(e) => Err(e),
        None => if line == "NOT_IGNORED\r\n"@ {
            Ok(IgnoreResult::NotIgnored)
        } else if "WATCHING"@.is_prefix_of(line) {
            Ok(IgnoreResult::Watching(number_field(line, "WATCHING "@)->0))
        } else {
            Err(ErrorView::UnexpectedResponse(line))
        },
    }
}

/// Reads the answer to `ignore`.
pub fn parse_ignore(line: String) -> (r: Result<IgnoreResult, Error>)
    requires
        count_line_ok(line@, "WATCHING"@, "WATCHING "@),
    ensures
        types::result_view(r) == ignore_reply(line@),
{
    if let Some(err) = check_global_error(line.as_str()) {
        return Err(err);
    }
    if same(line.as_str(), "NOT_IGNORED\r\n") {
        return Ok(IgnoreResult::NotIgnored);
    }
    if starts_with(line.as_str(), "WATCHING") {
        return Ok(IgnoreResult::Watching(read_number(line.as_str(), "WATCHING ").unwrap()));
    }
    Err(Error::UnexpectedResponse(line))
}

/// Whether a line that starts like a good answer to `put` goes on with the number of the job.
pub open spec fn put_line_ok(line: Seq<char>) -> bool {
    &&& count_line_ok(line, "INSERTED"@, "INSERTED "@)
    &&& count_line_ok(line, "BURIED"@, "BURIED "@)
}

/// Whether a line that starts like a good answer to `put` goes on with the number of the job.
pub fn check_put_line(line: &str) -> (r: bool)
    ensures
        r == put_line_ok(line@),
{
    check_count_line(line, "INSERTED", "INSERTED ") && check_count_line(line, "BURIED", "BURIED ")
}

/// What a line means to `put`.
pub open spec fn put_reply(line: Seq<char>) -> Result<PutResult, ErrorView> {
    match global_error(line) {
        Some(e) => Err(e),
        None => if "INSERTED"@.is_prefix_of(line) {
            Ok(PutResult::Inserted(number_field(line, "INSERTED "@)->0))
        } else if "BURIED"@.is_prefix_of(line) {
            Ok(PutResult::Buried(number_field(line, "BURIED "@)->0))
        } else if line == "EXPECTED_CRLF\r\n"@ {
            Err(ErrorView::ExpectedCrlf)
        } else if line == "JOB_TOO_BIG\r\n"@ {
            Err(ErrorView::JobTooBig)
        } else if line == "DRAINING\r\n"@ {
            Err(ErrorView::Draining)
        } else {
            Err(ErrorView::UnexpectedResponse(line))
        },
    }
}

/// Reads the answer to `put`.
pub fn parse_put(line: String) -> (r: Result<PutResult, Error>)
    requires
        put_line_ok(line@),
    ensures
        types::result_view(r) == put_reply(line@),
{
    if let Some(err) = check_global_error(line.as_str()) {
        return Err(err);
    }
    if starts_with(line.as_str(), "INSERTED") {
        return Ok(PutResult::Inserted(read_number(line.as_str(), "INSERTED ").unwrap()));
    }
    if starts_with(line.as_str(), "BURIED") {
        return Ok(PutResult::Buried(read_number(line.as_str(), "BURIED ").unwrap()));
    }
    if same(line.as_str(), "EXPECTED_CRLF\r\n") {
        return Err(Error::ExpectedCrlf);
    }
    if same(line.as_str(), "JOB_TOO_BIG\r\n") {
        return Err(Error::JobTooBig);
    }
    if same(line.as_str(), "DRAINING\r\n") {
        return Err(Error::Draining);
    }
    Err(Error::UnexpectedResponse(line))
}

/// Whether a line that starts with `USING` goes on with the name of a tube.
pub open spec fn used_tube_line_ok(line: Seq<char>, blank: Blank) -> bool {
    "USING"@.is_prefix_of(line) ==> used_tube(line, blank) is Some
}

/// An answer that names the tube in use.
pub open spec fn used_tube_reply(line: Seq<char>, blank: Blank) -> Result<Seq<char>, ErrorView> {
    match global_error(line) {
        Some(e) => Err(e),
        None => if "USING"@.is_prefix_of(line) {
            Ok(used_tube(line, blank)->0)
        } else {
            Err(ErrorView::UnexpectedResponse(line))
        },
    }
}

/// Whether a line that starts with `USING` goes on with the name of a tube.
pub fn check_used_tube_line(line: &str, blank: Blank) -> (r: bool)
    ensures
        r == used_tube_line_ok(line@, blank),
{
    !starts_with(line, "USING") || strip_prefix(trim_end(line, blank), "USING ").is_some()
}

/// Reads an answer that names the tube in use.
fn parse_used_tube(line: String, blank: Blank) -> (r: Result<String, Error>)
    requires
        used_tube_line_ok(line@, blank),
    ensures
        types::result_view(r) == used_tube_reply(line@, blank),
{
    if let Some(err) = check_global_error(line.as_str()) {
        return Err(err);
    }
    if starts_with(line.as_str(), "USING") {
        return Ok(strip_prefix(trim_end(line.as_str(), blank), "USING ").unwrap().to_owned());
    }
    Err(Error::UnexpectedResponse(line))
}

/// Reads the answer to `list-tube-used`. Blanks of all scripts are dropped at the line's end.
pub fn parse_tube(line: String) -> (r: Result<String, Error>)
    requires
        used_tube_line_ok(line@, Blank::Unicode),
    ensures
        types::result_view(r) == used_tube_reply(line@, Blank::Unicode),
{
    parse_used_tube(line, Blank::Unicode)
}

/// Reads the answer to `use`. ASCII blanks are dropped at the line's end.
pub fn parse_use_tube(line: String) -> (r: Result<String, Error>)
    requires
        used_tube_line_ok(line@, Blank::Ascii),
    ensures
        types::result_view(r) == used_tube_reply(line@, Blank::Ascii),
{
    parse_used_tube(line, Blank::Ascii)
}

/// Whether a line that starts with `word` goes on with the number and the size of a job.
pub open spec fn job_line_ok(line: Seq<char>, word: Seq<char>, head: Seq<char>) -> bool {
    word.is_prefix_of(line) ==> job_fields(line, head) is Some
}

/// Whether a line that starts with `word` goes on with the number and the size of a job.
pub fn check_job_line(line: &str, word: &str, head: &str) -> (r: bool)
    ensures
        r == job_line_ok(line@, word@, head@),
{
    !starts_with(line, word) || read_job_header(line, head).is_some()
}

/// An answer that is a job or none.
pub open spec fn job_reply(line: Seq<char>, word: Seq<char>, head: Seq<char>) -> Result<
    Opening<Option<JobView>, JobHeader>,
    ErrorView,
> {
    match global_error(line) {
        Some(e) => Err(e),
        None => if line == "NOT_FOUND\r\n"@ {
            Ok(Opening::Whole(None))
        } else if word.is_prefix_of(line) {
            Ok(Opening::Body(job_fields(line, head)->0))
        } else {
            Err(ErrorView::UnexpectedResponse(line))
        },
    }
}

/// Reads an answer that is a job or none.
fn parse_job(line: String, word: &str, head: &str) -> (r: Result<
    Opening<Option<Job>, JobHeader>,
    Error,
>)
    requires
        job_line_ok(line@, word@, head@),
    ensures
        types::result_view(r) == job_reply(line@, word@, head@),
{
    if let Some(err) = check_global_error(line.as_str()) {
        return Err(err);
    }
    if same(line.as_str(), "NOT_FOUND\r\n") {
        return Ok(Opening::Whole(None));
    }
    if starts_with(line.as_str(), word) {
        return Ok(Opening::Body(read_job_header(line.as_str(), head).unwrap()));
    }
    Err(Error::UnexpectedResponse(line))
}

/// Reads the line that answers `peek` and its kin.
pub fn parse_peek(line: String) -> (r: Result<Opening<Option<Job>, JobHeader>, Error>)
    requires
        job_line_ok(line@, "FOUND"@, "FOUND "@),
    ensures
        types::result_view(r) == job_reply(line@, "FOUND"@, "FOUND "@),
{
    parse_job(line, "FOUND", "FOUND ")
}

/// Reads the line that answers `reserve-job`.
pub fn parse_reserve_job(line: String) -> (r: Result<Opening<Option<Job>, JobHeader>, Error>)
    requires
        job_line_ok(line@, "RESERVED"@, "RESERVED "@),
    ensures
        types::result_view(r) == job_reply(line@, "RESERVED"@, "RESERVED "@),
{
    parse_job(line, "RESERVED", "RESERVED ")
}

/// What a line means to `reserve` and `reserve-with-timeout`.
pub open spec fn reserve_reply(line: Seq<char>) -> Result<
    Opening<ReserveView, JobHeader>,
    ErrorView,
> {
    match global_error(line) {
        Some(e) => Err(e),
        None => if line == "TIMED_OUT\r\n"@ {
            Ok(Opening::Whole(ReserveView::TimedOut))
        } else if line == "DEADLINE_SOON\r\n"@ {
            Ok(Opening::Whole(ReserveView::DeadlineSoon))
        } else if "RESERVED"@.is_prefix_of(line) {
            Ok(Opening::Body(job_fields(line, "RESERVED "@)->0))
        } else {
            Err(ErrorView::UnexpectedResponse(line))
        },
    }
}

/// Reads the line that answers `reserve` and `reserve-with-timeout`.
pub fn parse_reserve(line: String) -> (r: Result<Opening<ReserveResult, JobHeader>, Error>)
    requires
        job_line_ok(line@, "RESERVED"@, "RESERVED "@),
    ensures
        types::result_view(r) == reserve_reply(line@),
{
    if let Some(err) = check_global_error(line.as_str()) {
        return Err(err);
    }
    if same(line.as_str(), "TIMED_OUT\r\n") {
        return Ok(Opening::Whole(ReserveResult::TimedOut));
    }
    if same(line.as_str(), "DEADLINE_SOON\r\n") {
        return Ok(Opening::Whole(ReserveResult::DeadlineSoon));
    }
    if starts_with(line.as_str(), "RESERVED") {
        return Ok(Opening::Body(read_job_header(line.as_str(), "RESERVED ").unwrap()));
    }
    Err(Error::UnexpectedResponse(line))
}

/// Whether a line that starts with `OK` goes on with the size of a text.
pub open spec fn text_line_ok(line: Seq<char>) -> bool {
    "OK"@.is_prefix_of(line) ==> text_size(line) is Some
}

/// Whether a line that starts with `OK` goes on with the size of a text.
pub fn check_text_line(line: &str) -> (r: bool)
    ensures
        r == text_line_ok(line@),
{
    !starts_with(line, "OK") || read_text_size(line).is_some()
}

/// An answer that is a text: what the line says is its size.
pub open spec fn text_reply(line: Seq<char>) -> Result<usize, ErrorView> {
    match global_error(line) {
        Some(e) => Err(e),
        None => if "OK"@.is_prefix_of(line) {
            Ok(text_size(line)->0)
        } else {
            Err(ErrorView::UnexpectedResponse(line))
        },
    }
}

/// Reads the line that announces a text.
fn parse_text(line: String) -> (r: Result<usize, Error>)
    requires
        text_line_ok(line@),
    ensures
        types::result_view(r) == text_reply(line@),
{
    if let Some(err) = check_global_error(line.as_str()) {
        return Err(err);
    }
    if starts_with(line.as_str(), "OK") {
        return Ok(read_text_size(line.as_str()).unwrap());
    }
    Err(Error::UnexpectedResponse(line))
}

/// Reads the line that answers `list-tubes` and `list-tubes-watched`: the size of the list.
pub fn parse_tubes(line: String) -> (r: Result<usize, Error>)
    requires
        text_line_ok(line@),
    ensures
        types::result_view(r) == text_reply(line@),
{
    parse_text(line)
}

/// Reads the line that answers `stats`: the size of the statistics.
pub fn parse_stats(line: String) -> (r: Result<usize, Error>)
    requires
        text_line_ok(line@),
    ensures
        types::result_view(r) == text_reply(line@),
{
    parse_text(line)
}

/// What a line means to `stats-tube` and `stats-job`.
pub open spec fn stats_tube_or_job_reply(line: Seq<char>) -> Result<
    Opening<Option<Map<Seq<char>, Seq<char>>>, usize>,
    ErrorView,
> {
    match global_error(line) {
        Some(e) => Err(e),
        None => if line == "NOT_FOUND\r\n"@ {
            Ok(Opening::Whole(None))
        } else if "OK"@.is_prefix_of(line) {
            Ok(Opening::Body(text_size(line)->0))
        } else {
            Err(ErrorView::UnexpectedResponse(line))
        },
    }
}

/// Reads the line that answers `stats-tube` and `stats-job`.
pub fn parse_stats_tube_or_job(line: String) -> (r: Result<Opening<Option<Stats>, usize>, Error>)
    requires
        text_line_ok(line@),
    ensures
        types::result_view(r) == stats_tube_or_job_reply(line@),
{
    if let Some(err) = check_global_error(line.as_str()) {
        return Err(err);
    }
    if same(line.as_str(), "NOT_FOUND\r\n") {
        return Ok(Opening::Whole(None));
    }
    if starts_with(line.as_str(), "OK") {
        return Ok(Opening::Body(read_text_size(line.as_str()).unwrap()));
    }
    Err(Error::UnexpectedResponse(line))
}

/// The job that `header` announces, out of the bytes of the body and its line end.
pub open spec fn job_of(header: JobHeader, raw: Seq<u8>) -> JobView {
    JobView { id: header.id, body: raw.take(header.bytes as int) }
}

/// Takes the job out of the bytes that follow its header.
pub fn read_job(header: JobHeader, raw: Vec<u8>) -> (r: Job)
    requires
        raw@.len() == header.bytes + 2,
    ensures
        r.deep_view() == job_of(header, raw@),
{
    let mut body = raw;
    body.truncate(header.bytes);
    Job { id: header.id, body }
}

/// The text of `bytes` bytes that starts the body.
pub open spec fn text_of(bytes: usize, raw: Seq<u8>) -> Seq<char> {
    decode_utf8(raw.take(bytes as int))
}

/// The lines of a text but for the first, which opens the list.
pub open spec fn items(content: Seq<char>) -> Seq<Seq<char>> {
    let all = text::lines_of(content);
    if all.len() == 0 {
        all
    } else {
        all.drop_first()
    }
}

/// Whether the body is a text and each item in it a list entry.
pub open spec fn tubes_body_ok(bytes: usize, raw: Seq<u8>) -> bool {
    let list = items(text_of(bytes, raw));
    &&& raw.len() == bytes + 2
    &&& valid_utf8(raw.take(bytes as int))
    &&& forall|i: int|
        0 <= i < list.len() ==> text::after_prefix(#[trigger] list[i], "- "@) is Some
}

/// The names in a list of tubes.
pub open spec fn tube_names(content: Seq<char>) -> Seq<Seq<char>> {
    items(content).map_values(|item: Seq<char>| text::after_prefix(item, "- "@)->0)
}

/// Whether the body is a text and each item in it a name with a value.
pub open spec fn stats_body_ok(bytes: usize, raw: Seq<u8>) -> bool {
    let list = items(text_of(bytes, raw));
    &&& raw.len() == bytes + 2
    &&& valid_utf8(raw.take(bytes as int))
    &&& forall|i: int| 0 <= i < list.len() ==> text::halves(#[trigger] list[i], ": "@) is Some
}

/// The names with their values in a text of statistics, in order.
pub open spec fn stats_entries(content: Seq<char>) -> Seq<(Seq<char>, Seq<char>)> {
    items(content).map_values(|item: Seq<char>| text::halves(item, ": "@)->0)
}

/// The text that `bytes` encode, if they encode one.
///
/// Calls `std::str::from_utf8`, which is trusted to accept exactly the byte sequences that are
/// valid UTF-8 and to give the characters that they encode.
#[verifier::external_body]
fn utf8_text(bytes: &[u8]) -> (r: Option<&str>)
    ensures
        r is Some <==> valid_utf8(bytes@),
        r matches Some(s) ==> s@ == decode_utf8(bytes@),
{
    std::str::from_utf8(bytes).ok()
}

/// The names in a body that is a list of tubes.
fn try_tubes(bytes: usize, raw: &Vec<u8>) -> (r: Option<Vec<String>>)
    ensures
        r is Some <==> tubes_body_ok(bytes, raw@),
        r matches Some(names) ==> names.deep_view() == tube_names(text_of(bytes, raw@)),
{
    if raw.len() < 2 || raw.len() - 2 != bytes {
        return None;
    }
    let content = match utf8_text(vstd::slice::slice_subrange(raw.as_slice(), 0, bytes)) {
        Some(content) => content,
        None => {
            return None;
        },
    };
    proof {
        assert(raw@.subrange(0, bytes as int) == raw@.take(bytes as int));
    }
    let all = lines(content);
    let ghost list = items(content@);
    let mut names: Vec<String> = Vec::new();
    let mut i: usize = 1;
    proof {
        assert(list.len() == (if all@.len() == 0 { 0 } else { all@.len() - 1 }));
        assert forall|j: int| 0 <= j < list.len() implies list[j] == all@[j + 1]@ by {
            assert(all.deep_view()[j + 1] == all@[j + 1]@);
        }
        assert(names.deep_view() == tube_names(content@).take(0));
    }
    while i < all.len()
        invariant
            1 <= i,
            all@.len() > 0 ==> i <= all@.len(),
            list == items(content@),
            content@ == text_of(bytes, raw@),
            all@.len() == 0 ==> list.len() == 0 && i == 1,
            all@.len() > 0 ==> list.len() == all@.len() - 1,
            forall|j: int| 0 <= j < list.len() ==> list[j] == #[trigger] all@[j + 1]@,
            forall|j: int|
                0 <= j < i - 1 ==> text::after_prefix(#[trigger] list[j], "- "@) is Some,
            names.deep_view() == tube_names(content@).take(i - 1),
        decreases all@.len() - i,
    {
        let ghost before = names.deep_view();
        proof {
            assert(list[i - 1] == all@[i - 1 + 1]@);
        }
        match strip_prefix(all[i], "- ") {
            Some(name) => {
                names.push(name.to_owned());
                proof {
                    assert(names.deep_view() == before.push(name@));
                    assert(tube_names(content@)[i - 1] == name@);
                    assert(tube_names(content@).take(i as int) == tube_names(content@).take(
                        i - 1,
                    ).push(name@));
                }
            },
            None => {
                proof {
                    assert(!(text::after_prefix(list[i - 1], "- "@) is Some));
                }
                return None;
            },
        }
        i = i + 1;
    }
    proof {
        assert(tube_names(content@).take(list.len() as int) == tube_names(content@));
    }
    Some(names)
}

/// Whether the body is a text and each item in it a list entry.
pub fn check_tubes_body(bytes: usize, raw: &Vec<u8>) -> (r: bool)
    ensures
        r == tubes_body_ok(bytes, raw@),
{
    try_tubes(bytes, raw).is_some()
}

/// Takes the names out of a body that is a list of tubes.
pub fn read_tubes(bytes: usize, raw: Vec<u8>) -> (r: Vec<String>)
    requires
        tubes_body_ok(bytes, raw@),
    ensures
        r.deep_view() == tube_names(text_of(bytes, raw@)),
{
    try_tubes(bytes, &raw).unwrap()
}

/// The statistics in a body.
fn try_stats(bytes: usize, raw: &Vec<u8>) -> (r: Option<Stats>)
    ensures
        r is Some <==> stats_body_ok(bytes, raw@),
        r matches Some(s) ==> s@ == stats::entries_map(stats_entries(text_of(bytes, raw@))),
{
    if raw.len() < 2 || raw.len() - 2 != bytes {
        return None;
    }
    let content = match utf8_text(vstd::slice::slice_subrange(raw.as_slice(), 0, bytes)) {
        Some(content) => content,
        None => {
            return None;
        },
    };
    proof {
        assert(raw@.subrange(0, bytes as int) == raw@.take(bytes as int));
        reveal_strlit(": ");
    }
    let all = lines(content);
    let ghost list = items(content@);
    let mut table = Stats::new();
    let mut i: usize = 1;
    proof {
        assert(list.len() == (if all@.len() == 0 { 0 } else { all@.len() - 1 }));
        assert forall|j: int| 0 <= j < list.len() implies list[j] == all@[j + 1]@ by {
            assert(all.deep_view()[j + 1] == all@[j + 1]@);
        }
        assert(stats_entries(content@).take(0).len() == 0);
    }
    while i < all.len()
        invariant
            1 <= i,
            all@.len() > 0 ==> i <= all@.len(),
            list == items(content@),
            content@ == text_of(bytes, raw@),
            ": "@.len() > 0,
            all@.len() == 0 ==> list.len() == 0 && i == 1,
            all@.len() > 0 ==> list.len() == all@.len() - 1,
            forall|j: int| 0 <= j < list.len() ==> list[j] == #[trigger] all@[j + 1]@,
            forall|j: int| 0 <= j < i - 1 ==> text::halves(#[trigger] list[j], ": "@) is Some,
            table@ == stats::entries_map(stats_entries(content@).take(i - 1)),
        decreases all@.len() - i,
    {
        proof {
            assert(list[i - 1] == all@[i - 1 + 1]@);
        }
        match split_once(all[i], ": ") {
            Some((name, value)) => {
                table = table.with(name, value);
                proof {
                    let done = stats_entries(content@).take(i as int);
                    assert(stats_entries(content@)[i - 1] == (name@, value@));
                    assert(done.drop_last() == stats_entries(content@).take(i - 1));
                    assert(done.last() == (name@, value@));
                }
            },
            None => {
                proof {
                    assert(!(text::halves(list[i - 1], ": "@) is Some));
                }
                return None;
            },
        }
        i = i + 1;
    }
    proof {
        assert(stats_entries(content@).take(list.len() as int) == stats_entries(content@));
    }
    Some(table)
}

/// Whether the body is a text and each item in it a name with a value.
pub fn check_stats_body(bytes: usize, raw: &Vec<u8>) -> (r: bool)
    ensures
        r == stats_body_ok(bytes, raw@),
{
    try_stats(bytes, raw).is_some()
}

/// Takes the statistics out of a body.
pub fn read_stats(bytes: usize, raw: Vec<u8>) -> (r: Stats)
    requires
        stats_body_ok(bytes, raw@),
    ensures
        r@ == stats::entries_map(stats_entries(text_of(bytes, raw@))),
{
    try_stats(bytes, &raw).unwrap()
}

} // verus!
