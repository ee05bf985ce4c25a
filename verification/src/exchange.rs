//! The exchange of a request and its reply, step by step.
//!
//! An exchange does no I/O itself. It says what is to be done next, an [`Action`], and is told
//! what came of it, an [`Event`], until the command has its result.
use crate::command;
use crate::reply::{self, JobHeader, Opening};
use crate::request;
use crate::stats::{self, Stats};
use crate::text::Blank;
use crate::types::{
    self, Error, ErrorView, IgnoreResult, Job, JobView, PutResult, ReleaseResult, ReserveResult,
    ReserveView,
};
use vstd::prelude::*;
use vstd::utf8::*;

verus! {

/// The forms that replies take. Each command has one.
#[derive(Debug, Clone, Copy, PartialEq)]
pub enum Reply {
    PauseTube,
    Tubes,
    Tube,
    Stats,
    StatsTubeOrJob,
    KickJob,
    Kick,
    Peek,
    Ignore,
    Watch,
    Touch,
    Bury,
    Release,
    Delete,
    ReserveJob,
    Reserve,
    UseTube,
    Put,
}

/// What a reply line says about the body that follows it.
#[derive(Debug, Clone, Copy, PartialEq)]
pub enum Header {
    Job(JobHeader),
    /// A text of so many bytes.
    Text(usize),
}

/// Where an exchange stands.
#[derive(Debug, Clone, Copy, PartialEq)]
pub enum State {
    /// The request is on its way. It has a reply, or none.
    Sending(Option<Reply>),
    /// The reply line is awaited.
    Line(Reply),
    /// The body of the reply is awaited.
    Body(Reply, Header),
    Finished,
}

/// What a command hands back.
#[derive(Debug)]
pub enum Outcome {
    /// The request went out and has no reply.
    Sent,
    Flag(bool),
    Count(u64),
    Tube(String),
    Tubes(Vec<String>),
    Stats(Stats),
    StatsIfFound(Option<Stats>),
    JobIfFound(Option<Job>),
    Ignore(IgnoreResult),
    Release(ReleaseResult),
    Reserve(ReserveResult),
    Put(PutResult),
}

/// The content of an [`Outcome`].
#[verifier::ext_equal]
pub enum OutcomeView {
    Sent,
    Flag(bool),
    Count(u64),
    Tube(Seq<char>),
    Tubes(Seq<Seq<char>>),
    Stats(Map<Seq<char>, Seq<char>>),
    StatsIfFound(Option<Map<Seq<char>, Seq<char>>>),
    JobIfFound(Option<JobView>),
    Ignore(IgnoreResult),
    Release(ReleaseResult),
    Reserve(ReserveView),
    Put(PutResult),
}

impl DeepView for Outcome {
    type V = OutcomeView;

    open spec fn deep_view(&self) -> OutcomeView {
        match self {
            Outcome::Sent => OutcomeView::Sent,
            Outcome::Flag(b) => OutcomeView::Flag(*b),
            Outcome::Count(n) => OutcomeView::Count(*n),
            Outcome::Tube(s) => OutcomeView::Tube(s@),
            Outcome::Tubes(v) => OutcomeView::Tubes(v.deep_view()),
            Outcome::Stats(s) => OutcomeView::Stats(s@),
            Outcome::StatsIfFound(s) => OutcomeView::StatsIfFound(s.deep_view()),
            Outcome::JobIfFound(j) => OutcomeView::JobIfFound(j.deep_view()),
            Outcome::Ignore(r) => OutcomeView::Ignore(*r),
            Outcome::Release(r) => OutcomeView::Release(*r),
            Outcome::Reserve(r) => OutcomeView::Reserve(r.deep_view()),
            Outcome::Put(r) => OutcomeView::Put(*r),
        }
    }
}

/// What is to be done next.
#[derive(Debug)]
pub enum Action {
    /// Write these bytes, all of them.
    Write(Vec<u8>),
    /// Read up to and with the next line feed.
    ReadLine,
    /// Read so many bytes, no fewer.
    ReadExact(usize),
    /// Nothing: this is the result of the command.
    Finish(Result<Outcome, Error>),
}

/// The content of an [`Action`].
#[verifier::ext_equal]
pub enum ActionView {
    Write(Seq<u8>),
    ReadLine,
    ReadExact(usize),
    Finish(Result<OutcomeView, ErrorView>),
}

impl DeepView for Action {
    type V = ActionView;

    open spec fn deep_view(&self) -> ActionView {
        match self {
            Action::Write(bytes) => ActionView::Write(bytes@),
            Action::ReadLine => ActionView::ReadLine,
            Action::ReadExact(n) => ActionView::ReadExact(*n),
            Action::Finish(r) => ActionView::Finish(types::result_view(*r)),
        }
    }
}

/// What came of an action.
#[derive(Debug)]
pub enum Event {
    /// The bytes were written.
    Written,
    /// This line was read, with its end.
    Line(String),
    /// These bytes were read.
    Body(Vec<u8>),
    /// Reading or writing failed.
    Failed(std::io::Error),
}

/// The content of an [`Event`].
#[verifier::ext_equal]
pub enum EventView {
    Written,
    Line(Seq<char>),
    Body(Seq<u8>),
    Failed(std::io::Error),
}

impl DeepView for Event {
    type V = EventView;

    open spec fn deep_view(&self) -> EventView {
        match self {
            Event::Written => EventView::Written,
            Event::Line(line) => EventView::Line(line@),
            Event::Body(raw) => EventView::Body(raw@),
            Event::Failed(e) => EventView::Failed(*e),
        }
    }
}

/// An exchange: where it stands and what is to be done next.
#[derive(Debug)]
pub struct Exchange {
    pub state: State,
    pub action: Action,
}

/// The content of an [`Exchange`].
#[verifier::ext_equal]
pub struct ExchangeView {
    pub state: State,
    pub action: ActionView,
}

impl DeepView for Exchange {
    type V = ExchangeView;

    open spec fn deep_view(&self) -> ExchangeView {
        ExchangeView { state: self.state, action: self.action.deep_view() }
    }
}

/// Whether a line is one that this form of reply can be read from. The others start like an
/// answer and then break off.
pub open spec fn line_ok(form: Reply, line: Seq<char>) -> bool {
    match form {
        Reply::Tubes | Reply::Stats | Reply::StatsTubeOrJob => reply::text_line_ok(line),
        Reply::Tube => reply::used_tube_line_ok(line, Blank::Unicode),
        Reply::UseTube => reply::used_tube_line_ok(line, Blank::Ascii),
        Reply::Kick => reply::count_line_ok(line, "KICKED"@, "KICKED "@),
        Reply::Ignore | Reply::Watch => reply::count_line_ok(line, "WATCHING"@, "WATCHING "@),
        Reply::Put => reply::put_line_ok(line),
        Reply::Peek => reply::job_line_ok(line, "FOUND"@, "FOUND "@),
        Reply::ReserveJob | Reply::Reserve => reply::job_line_ok(line, "RESERVED"@, "RESERVED "@),
        Reply::PauseTube | Reply::KickJob | Reply::Touch | Reply::Bury | Reply::Delete
        | Reply::Release => true,
    }
}

/// A result whose value is wrapped by `f`.
pub open spec fn mapped<T, U, E>(r: Result<T, E>, f: spec_fn(T) -> U) -> Result<U, E> {
    match r {
        Ok(v) => Ok(f(v)),
        Err(e) => Err(e),
    }
}

/// What a reply line means: the end of the exchange, or a body to come.
pub open spec fn line_meaning(form: Reply, line: Seq<char>) -> Result<
    Opening<OutcomeView, Header>,
    ErrorView,
> {
    let flag = |b: bool| Opening::<OutcomeView, Header>::Whole(OutcomeView::Flag(b));
    let count = |n: u64| Opening::<OutcomeView, Header>::Whole(OutcomeView::Count(n));
    let tube = |s: Seq<char>| Opening::<OutcomeView, Header>::Whole(OutcomeView::Tube(s));
    let size = |n: usize| Opening::<OutcomeView, Header>::Body(Header::Text(n));
    let job = |o: Opening<Option<JobView>, JobHeader>|
        match o {
            Opening::Whole(j) => Opening::<OutcomeView, Header>::Whole(OutcomeView::JobIfFound(j)),
            Opening::Body(h) => Opening::Body(Header::Job(h)),
        };
    match form {
        Reply::PauseTube => mapped(reply::flag_reply(line, "PAUSED\r\n"@), flag),
        Reply::KickJob => mapped(reply::flag_reply(line, "KICKED\r\n"@), flag),
        Reply::Touch => mapped(reply::flag_reply(line, "TOUCHED\r\n"@), flag),
        Reply::Bury => mapped(reply::flag_reply(line, "BURIED\r\n"@), flag),
        Reply::Delete => mapped(reply::flag_reply(line, "DELETED\r\n"@), flag),
        Reply::Kick => mapped(reply::count_reply(line, "KICKED"@, "KICKED "@), count),
        Reply::Watch => mapped(reply::count_reply(line, "WATCHING"@, "WATCHING "@), count),
        Reply::Tube => mapped(reply::used_tube_reply(line, Blank::Unicode), tube),
        Reply::UseTube => mapped(reply::used_tube_reply(line, Blank::Ascii), tube),
        Reply::Release => mapped(
            reply::release_reply(line),
            |r: ReleaseResult| Opening::Whole(OutcomeView::Release(r)),
        ),
        Reply::Ignore => mapped(
            reply::ignore_reply(line),
            |r: IgnoreResult| Opening::Whole(OutcomeView::Ignore(r)),
        ),
        Reply::Put => mapped(
            reply::put_reply(line),
            |r: PutResult| Opening::Whole(OutcomeView::Put(r)),
        ),
        Reply::Tubes | Reply::Stats => mapped(reply::text_reply(line), size),
        Reply::StatsTubeOrJob => mapped(
            reply::stats_tube_or_job_reply(line),
            |o: Opening<Option<Map<Seq<char>, Seq<char>>>, usize>|
                match o {
                    Opening::Whole(s) => Opening::Whole(OutcomeView::StatsIfFound(s)),
                    Opening::Body(n) => Opening::Body(Header::Text(n)),
                },
        ),
        Reply::Peek => mapped(reply::job_reply(line, "FOUND"@, "FOUND "@), job),
        Reply::ReserveJob => mapped(reply::job_reply(line, "RESERVED"@, "RESERVED "@), job),
        Reply::Reserve => mapped(
            reply::reserve_reply(line),
            |o: Opening<ReserveView, JobHeader>|
                match o {
                    Opening::Whole(r) => Opening::Whole(OutcomeView::Reserve(r)),
                    Opening::Body(h) => Opening::Body(Header::Job(h)),
                },
        ),
    }
}

/// The size of the body that `header` announces, without its line end.
pub open spec fn body_size(header: Header) -> usize {
    match header {
        Header::Job(h) => h.bytes,
        Header::Text(n) => n,
    }
}

/// Whether the bytes after the line are a body that this form of reply can be read from.
pub open spec fn body_ok(form: Reply, header: Header, raw: Seq<u8>) -> bool {
    match (form, header) {
        (Reply::Tubes, Header::Text(n)) => reply::tubes_body_ok(n, raw),
        (Reply::Stats, Header::Text(n)) | (
            Reply::StatsTubeOrJob,
            Header::Text(n),
        ) => reply::stats_body_ok(n, raw),
        (Reply::Peek, Header::Job(h)) | (Reply::ReserveJob, Header::Job(h)) | (
            Reply::Reserve,
            Header::Job(h),
        ) => raw.len() == h.bytes + 2,
        _ => false,
    }
}

/// What a body means.
pub open spec fn body_meaning(form: Reply, header: Header, raw: Seq<u8>) -> OutcomeView
    recommends
        body_ok(form, header, raw),
{
    match header {
        Header::Text(n) => {
            let content = reply::text_of(n, raw);
            let table = stats::entries_map(reply::stats_entries(content));
            match form {
                Reply::Tubes => OutcomeView::Tubes(reply::tube_names(content)),
                Reply::Stats => OutcomeView::Stats(table),
                _ => OutcomeView::StatsIfFound(Some(table)),
            }
        },
        Header::Job(h) => {
            let job = reply::job_of(h, raw);
            match form {
                Reply::Reserve => OutcomeView::Reserve(ReserveView::Reserved(job)),
                _ => OutcomeView::JobIfFound(Some(job)),
            }
        },
    }
}

/// Whether `event` can come in `state`, and can be read.
pub open spec fn acceptable(state: State, event: EventView) -> bool {
    match (state, event) {
        (State::Finished, _) => false,
        (_, EventView::Failed(_)) => true,
        (State::Sending(_), EventView::Written) => true,
        (State::Line(form), EventView::Line(line)) => line_ok(form, line),
        (State::Body(form, header), EventView::Body(raw)) => body_ok(form, header, raw),
        _ => false,
    }
}

/// An exchange that has come to its end.
pub open spec fn finished(result: Result<OutcomeView, ErrorView>) -> ExchangeView {
    ExchangeView { state: State::Finished, action: ActionView::Finish(result) }
}

/// The exchange after `event`.
pub open spec fn next(state: State, event: EventView) -> ExchangeView
    recommends
        acceptable(state, event),
{
    match (state, event) {
        (_, EventView::Failed(e)) => finished(Err(ErrorView::Io(e))),
        (State::Sending(Some(form)), _) => ExchangeView {
            state: State::Line(form),
            action: ActionView::ReadLine,
        },
        (State::Sending(None), _) => finished(Ok(OutcomeView::Sent)),
        (State::Line(form), EventView::Line(line)) => match line_meaning(form, line) {
            Err(e) => finished(Err(e)),
            Ok(Opening::Whole(outcome)) => finished(Ok(outcome)),
            Ok(Opening::Body(header)) => ExchangeView {
                state: State::Body(form, header),
                action: ActionView::ReadExact((body_size(header) + 2) as usize),
            },
        },
        (State::Body(form, header), EventView::Body(raw)) => finished(
            Ok(body_meaning(form, header, raw)),
        ),
        _ => arbitrary(),
    }
}

/// Whether a line is one that this form of reply can be read from.
fn check_line(form: Reply, line: &str) -> (r: bool)
    ensures
        r == line_ok(form, line@),
{
    match form {
        Reply::Tubes | Reply::Stats | Reply::StatsTubeOrJob => reply::check_text_line(line),
        Reply::Tube => reply::check_used_tube_line(line, Blank::Unicode),
        Reply::UseTube => reply::check_used_tube_line(line, Blank::Ascii),
        Reply::Kick => reply::check_count_line(line, "KICKED", "KICKED "),
        Reply::Ignore | Reply::Watch => reply::check_count_line(line, "WATCHING", "WATCHING "),
        Reply::Put => reply::check_put_line(line),
        Reply::Peek => reply::check_job_line(line, "FOUND", "FOUND "),
        Reply::ReserveJob | Reply::Reserve => reply::check_job_line(
            line,
            "RESERVED",
            "RESERVED ",
        ),
        Reply::PauseTube | Reply::KickJob | Reply::Touch | Reply::Bury | Reply::Delete
        | Reply::Release => true,
    }
}

/// Whether the bytes after the line are a body that this form of reply can be read from.
fn check_body(form: Reply, header: Header, raw: &Vec<u8>) -> (r: bool)
    ensures
        r == body_ok(form, header, raw@),
{
    match (form, header) {
        (Reply::Tubes, Header::Text(n)) => reply::check_tubes_body(n, raw),
        (Reply::Stats, Header::Text(n)) => reply::check_stats_body(n, raw),
        (Reply::StatsTubeOrJob, Header::Text(n)) => reply::check_stats_body(n, raw),
        (Reply::Peek, Header::Job(h)) => check_job_body(h, raw),
        (Reply::ReserveJob, Header::Job(h)) => check_job_body(h, raw),
        (Reply::Reserve, Header::Job(h)) => check_job_body(h, raw),
        _ => false,
    }
}

/// Whether there are as many bytes as the job and its line end have.
fn check_job_body(header: JobHeader, raw: &Vec<u8>) -> (r: bool)
    ensures
        r == (raw@.len() == header.bytes + 2),
{
    raw.len() >= 2 && raw.len() - 2 == header.bytes
}

/// Whether `event` can come in `state`, and can be read.
pub fn accepts(state: &State, event: &Event) -> (r: bool)
    ensures
        r == acceptable(*state, event.deep_view()),
{
    match (state, event) {
        (State::Finished, _) => false,
        (_, Event::Failed(_)) => true,
        (State::Sending(_), Event::Written) => true,
        (State::Line(form), Event::Line(line)) => check_line(*form, line.as_str()),
        (State::Body(form, header), Event::Body(raw)) => check_body(*form, *header, raw),
        _ => false,
    }
}

/// The end of an exchange.
fn finish(result: Result<Outcome, Error>) -> (r: Exchange)
    ensures
        r.deep_view() == finished(types::result_view(result)),
{
    Exchange { state: State::Finished, action: Action::Finish(result) }
}

/// The end of an exchange with a value that `r` holds, or with the error in it.
fn finish_flag(r: Result<bool, Error>) -> (x: Exchange)
    ensures
        x.deep_view() == finished(mapped(types::result_view(r), |b: bool| OutcomeView::Flag(b))),
{
    match r {
        Ok(b) => finish(Ok(Outcome::Flag(b))),
        Err(e) => finish(Err(e)),
    }
}

/// The end of an exchange with a number.
fn finish_count(r: Result<u64, Error>) -> (x: Exchange)
    ensures
        x.deep_view() == finished(mapped(types::result_view(r), |n: u64| OutcomeView::Count(n))),
{
    match r {
        Ok(n) => finish(Ok(Outcome::Count(n))),
        Err(e) => finish(Err(e)),
    }
}

/// The end of an exchange with the name of a tube.
fn finish_tube(r: Result<String, Error>) -> (x: Exchange)
    ensures
        x.deep_view() == finished(
            mapped(types::result_view(r), |s: Seq<char>| OutcomeView::Tube(s)),
        ),
{
    match r {
        Ok(s) => finish(Ok(Outcome::Tube(s))),
        Err(e) => finish(Err(e)),
    }
}

/// The exchange that awaits a body.
fn await_body(form: Reply, header: Header) -> (x: Exchange)
    requires
        body_size(header) <= usize::MAX - 2,
    ensures
        x.deep_view() == (ExchangeView {
            state: State::Body(form, header),
            action: ActionView::ReadExact((body_size(header) + 2) as usize),
        }),
{
    let size: usize = match header {
        Header::Job(h) => h.bytes,
        Header::Text(n) => n,
    };
    Exchange { state: State::Body(form, header), action: Action::ReadExact(size + 2) }
}

/// The exchange after the line of a text, or its end.
fn after_text_line(form: Reply, r: Result<usize, Error>) -> (x: Exchange)
    requires
        r matches Ok(n) ==> n <= usize::MAX - 2,
    ensures
        x.deep_view() == (match types::result_view(r) {
            Ok(n) => ExchangeView {
                state: State::Body(form, Header::Text(n)),
                action: ActionView::ReadExact((n + 2) as usize),
            },
            Err(e) => finished(Err(e)),
        }),
{
    match r {
        Ok(n) => await_body(form, Header::Text(n)),
        Err(e) => finish(Err(e)),
    }
}

/// The exchange after the line of a job, or its end.
fn after_job_line(form: Reply, r: Result<Opening<Option<Job>, JobHeader>, Error>) -> (x: Exchange)
    requires
        r matches Ok(Opening::Body(h)) ==> h.bytes <= usize::MAX - 2,
    ensures
        x.deep_view() == (match types::result_view(r) {
            Ok(Opening::Whole(j)) => finished(Ok(OutcomeView::JobIfFound(j))),
            Ok(Opening::Body(h)) => ExchangeView {
                state: State::Body(form, Header::Job(h)),
                action: ActionView::ReadExact((h.bytes + 2) as usize),
            },
            Err(e) => finished(Err(e)),
        }),
{
    match r {
        Ok(Opening::Whole(j)) => finish(Ok(Outcome::JobIfFound(j))),
        Ok(Opening::Body(h)) => await_body(form, Header::Job(h)),
        Err(e) => finish(Err(e)),
    }
}

/// The exchange after its reply line.
fn on_line(form: Reply, line: String) -> (x: Exchange)
    requires
        line_ok(form, line@),
    ensures
        x.deep_view() == next(State::Line(form), EventView::Line(line@)),
{
    proof {
        reply::lemma_size_leaves_room(line@, "FOUND "@);
        reply::lemma_size_leaves_room(line@, "RESERVED "@);
    }
    match form {
        Reply::PauseTube => finish_flag(reply::parse_pause_tube(line)),
        Reply::KickJob => finish_flag(reply::parse_kick_job(line)),
        Reply::Touch => finish_flag(reply::parse_touch(line)),
        Reply::Bury => finish_flag(reply::parse_bury(line)),
        Reply::Delete => finish_flag(reply::parse_delete(line)),
        Reply::Kick => finish_count(reply::parse_kick(line)),
        Reply::Watch => finish_count(reply::parse_watch(line)),
        Reply::Tube => finish_tube(reply::parse_tube(line)),
        Reply::UseTube => finish_tube(reply::parse_use_tube(line)),
        Reply::Release => match reply::parse_release(line) {
            Ok(r) => finish(Ok(Outcome::Release(r))),
            Err(e) => finish(Err(e)),
        },
        Reply::Ignore => match reply::parse_ignore(line) {
            Ok(r) => finish(Ok(Outcome::Ignore(r))),
            Err(e) => finish(Err(e)),
        },
        Reply::Put => match reply::parse_put(line) {
            Ok(r) => finish(Ok(Outcome::Put(r))),
            Err(e) => finish(Err(e)),
        },
        Reply::Tubes => after_text_line(form, reply::parse_tubes(line)),
        Reply::Stats => after_text_line(form, reply::parse_stats(line)),
        Reply::StatsTubeOrJob => match reply::parse_stats_tube_or_job(line) {
            Ok(Opening::Whole(s)) => finish(Ok(Outcome::StatsIfFound(s))),
            Ok(Opening::Body(n)) => await_body(form, Header::Text(n)),
            Err(e) => finish(Err(e)),
        },
        Reply::Peek => after_job_line(form, reply::parse_peek(line)),
        Reply::ReserveJob => after_job_line(form, reply::parse_reserve_job(line)),
        Reply::Reserve => match reply::parse_reserve(line) {
            Ok(Opening::Whole(r)) => finish(Ok(Outcome::Reserve(r))),
            Ok(Opening::Body(h)) => await_body(form, Header::Job(h)),
            Err(e) => finish(Err(e)),
        },
    }
}

/// The exchange after the body of its reply.
fn on_body(form: Reply, header: Header, raw: Vec<u8>) -> (x: Exchange)
    requires
        body_ok(form, header, raw@),
    ensures
        x.deep_view() == next(State::Body(form, header), EventView::Body(raw@)),
{
    match header {
        Header::Text(n) => match form {
            Reply::Tubes => finish(Ok(Outcome::Tubes(reply::read_tubes(n, raw)))),
            Reply::Stats => finish(Ok(Outcome::Stats(reply::read_stats(n, raw)))),
            _ => finish(Ok(Outcome::StatsIfFound(Some(reply::read_stats(n, raw))))),
        },
        Header::Job(h) => {
            let job = reply::read_job(h, raw);
            match form {
                Reply::Reserve => finish(Ok(Outcome::Reserve(ReserveResult::Reserved(job)))),
                _ => finish(Ok(Outcome::JobIfFound(Some(job)))),
            }
        },
    }
}

/// The exchange after `event`.
pub fn step(state: State, event: Event) -> (x: Exchange)
    requires
        acceptable(state, event.deep_view()),
    ensures
        x.deep_view() == next(state, event.deep_view()),
{
    match event {
        Event::Failed(e) => finish(Err(Error::from(e))),
        Event::Line(line) => match state {
            State::Line(form) => on_line(form, line),
            _ => vstd::pervasive::unreached(),
        },
        Event::Body(raw) => match state {
            State::Body(form, header) => on_body(form, header, raw),
            _ => vstd::pervasive::unreached(),
        },
        Event::Written => match state {
            State::Sending(Some(form)) => Exchange {
                state: State::Line(form),
                action: Action::ReadLine,
            },
            _ => finish(Ok(Outcome::Sent)),
        },
    }
}

/// The start of an exchange: a request and the form of its reply.
pub open spec fn started(request: Seq<u8>, form: Option<Reply>) -> ExchangeView {
    ExchangeView { state: State::Sending(form), action: ActionView::Write(request) }
}

/// Starts the exchange of `quit`.
pub fn quit_cmd() -> (x: Exchange)
    ensures
        x.deep_view() == started(encode_utf8("quit\r\n"@), None),
        x.action matches Action::Write(r) && request::asks(r@, "quit"@, seq![]),
{
    let request = vstd::slice::slice_to_vec(command::build_quit());
    Exchange { state: State::Sending(None), action: Action::Write(request) }
}

/// Starts the exchange of `pause-tube`.
pub fn pause_tube_cmd(tube_name: &str, delay: u32) -> (x: Exchange)
    ensures
        x.deep_view() == started(encode_utf8(command::pause_tube_line(tube_name@, delay)), Some(Reply::PauseTube)),
        x.action matches Action::Write(r) && request::pauses(r@, tube_name@, delay as nat),
{
    let request = command::build_pause_tube(tube_name, delay);
    Exchange { state: State::Sending(Some(Reply::PauseTube)), action: Action::Write(request) }
}

/// Starts the exchange of `list-tubes-watched`.
pub fn list_tubes_watched_cmd() -> (x: Exchange)
    ensures
        x.deep_view() == started(encode_utf8("list-tubes-watched\r\n"@), Some(Reply::Tubes)),
        x.action matches Action::Write(r) && request::asks(r@, "list-tubes-watched"@, seq![]),
{
    let request = vstd::slice::slice_to_vec(command::build_list_tubes_watched());
    Exchange { state: State::Sending(Some(Reply::Tubes)), action: Action::Write(request) }
}

/// Starts the exchange of `list-tube-used`.
pub fn list_tube_used_cmd() -> (x: Exchange)
    ensures
        x.deep_view() == started(encode_utf8("list-tube-used\r\n"@), Some(Reply::Tube)),
        x.action matches Action::Write(r) && request::asks(r@, "list-tube-used"@, seq![]),
{
    let request = vstd::slice::slice_to_vec(command::build_list_tube_used());
    Exchange { state: State::Sending(Some(Reply::Tube)), action: Action::Write(request) }
}

/// Starts the exchange of `list-tubes`.
pub fn list_tubes_cmd() -> (x: Exchange)
    ensures
        x.deep_view() == started(encode_utf8("list-tubes\r\n"@), Some(Reply::Tubes)),
        x.action matches Action::Write(r) && request::asks(r@, "list-tubes"@, seq![]),
{
    let request = vstd::slice::slice_to_vec(command::build_list_tubes());
    Exchange { state: State::Sending(Some(Reply::Tubes)), action: Action::Write(request) }
}

/// Starts the exchange of `stats`.
pub fn stats_cmd() -> (x: Exchange)
    ensures
        x.deep_view() == started(encode_utf8("stats\r\n"@), Some(Reply::Stats)),
        x.action matches Action::Write(r) && request::asks(r@, "stats"@, seq![]),
{
    let request = vstd::slice::slice_to_vec(command::build_stats());
    Exchange { state: State::Sending(Some(Reply::Stats)), action: Action::Write(request) }
}

/// Starts the exchange of `stats-tube`.
pub fn stats_tube_cmd(tube: &str) -> (x: Exchange)
    ensures
        x.deep_view() == started(encode_utf8(command::stats_tube_line(tube@)), Some(Reply::StatsTubeOrJob)),
        x.action matches Action::Write(r) && request::names_tube(r@, "stats-tube"@, tube@),
{
    let request = command::build_stats_tube(tube);
    Exchange { state: State::Sending(Some(Reply::StatsTubeOrJob)), action: Action::Write(request) }
}

/// Starts the exchange of `stats-job`.
pub fn stats_job_cmd(id: u64) -> (x: Exchange)
    ensures
        x.deep_view() == started(encode_utf8(command::stats_job_line(id)), Some(Reply::StatsTubeOrJob)),
        x.action matches Action::Write(r) && request::asks(r@, "stats-job"@, seq![id as nat]),
{
    let request = command::build_stats_job(id);
    Exchange { state: State::Sending(Some(Reply::StatsTubeOrJob)), action: Action::Write(request) }
}

/// Starts the exchange of `kick-job`.
pub fn kick_job_cmd(id: u64) -> (x: Exchange)
    ensures
        x.deep_view() == started(encode_utf8(command::kick_job_line(id)), Some(Reply::KickJob)),
        x.action matches Action::Write(r) && request::asks(r@, "kick-job"@, seq![id as nat]),
{
    let request = command::build_kick_job(id);
    Exchange { state: State::Sending(Some(Reply::KickJob)), action: Action::Write(request) }
}

/// Starts the exchange of `kick`.
pub fn kick_cmd(bound: u32) -> (x: Exchange)
    ensures
        x.deep_view() == started(encode_utf8(command::kick_line(bound)), Some(Reply::Kick)),
        x.action matches Action::Write(r) && request::asks(r@, "kick"@, seq![bound as nat]),
{
    let request = command::build_kick(bound);
    Exchange { state: State::Sending(Some(Reply::Kick)), action: Action::Write(request) }
}

/// Starts the exchange of `peek`.
pub fn peek_cmd(id: u64) -> (x: Exchange)
    ensures
        x.deep_view() == started(encode_utf8(command::peek_line(id)), Some(Reply::Peek)),
        x.action matches Action::Write(r) && request::asks(r@, "peek"@, seq![id as nat]),
{
    let request = command::build_peek(id);
    Exchange { state: State::Sending(Some(Reply::Peek)), action: Action::Write(request) }
}

/// Starts the exchange of `peek-ready`.
pub fn peek_ready_cmd() -> (x: Exchange)
    ensures
        x.deep_view() == started(encode_utf8("peek-ready\r\n"@), Some(Reply::Peek)),
        x.action matches Action::Write(r) && request::asks(r@, "peek-ready"@, seq![]),
{
    let request = vstd::slice::slice_to_vec(command::build_peek_ready());
    Exchange { state: State::Sending(Some(Reply::Peek)), action: Action::Write(request) }
}

/// Starts the exchange of `peek-delayed`.
pub fn peek_delayed_cmd() -> (x: Exchange)
    ensures
        x.deep_view() == started(encode_utf8("peek-delayed\r\n"@), Some(Reply::Peek)),
        x.action matches Action::Write(r) && request::asks(r@, "peek-delayed"@, seq![]),
{
    let request = vstd::slice::slice_to_vec(command::build_peek_delayed());
    Exchange { state: State::Sending(Some(Reply::Peek)), action: Action::Write(request) }
}

/// Starts the exchange of `peek-buried`.
pub fn peek_buried_cmd() -> (x: Exchange)
    ensures
        x.deep_view() == started(encode_utf8("peek-buried\r\n"@), Some(Reply::Peek)),
        x.action matches Action::Write(r) && request::asks(r@, "peek-buried"@, seq![]),
{
    let request = vstd::slice::slice_to_vec(command::build_peek_buried());
    Exchange { state: State::Sending(Some(Reply::Peek)), action: Action::Write(request) }
}

/// Starts the exchange of `ignore`.
pub fn ignore_cmd(tube: &str) -> (x: Exchange)
    ensures
        x.deep_view() == started(encode_utf8(command::ignore_line(tube@)), Some(Reply::Ignore)),
        x.action matches Action::Write(r) && request::names_tube(r@, "ignore"@, tube@),
{
    let request = command::build_ignore(tube);
    Exchange { state: State::Sending(Some(Reply::Ignore)), action: Action::Write(request) }
}

/// Starts the exchange of `watch`.
pub fn watch_cmd(tube: &str) -> (x: Exchange)
    ensures
        x.deep_view() == started(encode_utf8(command::watch_line(tube@)), Some(Reply::Watch)),
        x.action matches Action::Write(r) && request::names_tube(r@, "watch"@, tube@),
{
    let request = command::build_watch(tube);
    Exchange { state: State::Sending(Some(Reply::Watch)), action: Action::Write(request) }
}

/// Starts the exchange of `touch`.
pub fn touch_cmd(id: u64) -> (x: Exchange)
    ensures
        x.deep_view() == started(encode_utf8(command::touch_line(id)), Some(Reply::Touch)),
        x.action matches Action::Write(r) && request::asks(r@, "touch"@, seq![id as nat]),
{
    let request = command::build_touch(id);
    Exchange { state: State::Sending(Some(Reply::Touch)), action: Action::Write(request) }
}

/// Starts the exchange of `bury`.
pub fn bury_cmd(id: u64, pri: u32) -> (x: Exchange)
    ensures
        x.deep_view() == started(encode_utf8(command::bury_line(id, pri)), Some(Reply::Bury)),
        x.action matches Action::Write(r)
            && request::asks(r@, "bury"@, seq![id as nat, pri as nat]),
{
    let request = command::build_bury(id, pri);
    Exchange { state: State::Sending(Some(Reply::Bury)), action: Action::Write(request) }
}

/// Starts the exchange of `release`.
pub fn release_cmd(id: u64, pri: u32, delay: u32) -> (x: Exchange)
    ensures
        x.deep_view() == started(encode_utf8(command::release_line(id, pri, delay)), Some(Reply::Release)),
        x.action matches Action::Write(r)
            && request::asks(r@, "release"@, seq![id as nat, pri as nat, delay as nat]),
{
    let request = command::build_release(id, pri, delay);
    Exchange { state: State::Sending(Some(Reply::Release)), action: Action::Write(request) }
}

/// Starts the exchange of `delete`.
pub fn delete_cmd(id: u64) -> (x: Exchange)
    ensures
        x.deep_view() == started(encode_utf8(command::delete_line(id)), Some(Reply::Delete)),
        x.action matches Action::Write(r) && request::asks(r@, "delete"@, seq![id as nat]),
{
    let request = command::build_delete(id);
    Exchange { state: State::Sending(Some(Reply::Delete)), action: Action::Write(request) }
}

/// Starts the exchange of `reserve-job`.
pub fn reserve_job_cmd(id: u64) -> (x: Exchange)
    ensures
        x.deep_view() == started(encode_utf8(command::reserve_job_line(id)), Some(Reply::ReserveJob)),
        x.action matches Action::Write(r) && request::asks(r@, "reserve-job"@, seq![id as nat]),
{
    let request = command::build_reserve_job(id);
    Exchange { state: State::Sending(Some(Reply::ReserveJob)), action: Action::Write(request) }
}

/// Starts the exchange of `reserve-with-timeout`.
pub fn reserve_with_timeout_cmd(seconds: u32) -> (x: Exchange)
    ensures
        x.deep_view() == started(encode_utf8(command::reserve_with_timeout_line(seconds)), Some(Reply::Reserve)),
        x.action matches Action::Write(r)
            && request::asks(r@, "reserve-with-timeout"@, seq![seconds as nat]),
{
    let request = command::build_reserve_with_timeout(seconds);
    Exchange { state: State::Sending(Some(Reply::Reserve)), action: Action::Write(request) }
}

/// Starts the exchange of `reserve`.
pub fn reserve_cmd() -> (x: Exchange)
    ensures
        x.deep_view() == started(encode_utf8("reserve\r\n"@), Some(Reply::Reserve)),
        x.action matches Action::Write(r) && request::asks(r@, "reserve"@, seq![]),
{
    let request = vstd::slice::slice_to_vec(command::build_reserve());
    Exchange { state: State::Sending(Some(Reply::Reserve)), action: Action::Write(request) }
}

/// Starts the exchange of `use`.
pub fn use_tube_cmd(tube: &str) -> (x: Exchange)
    ensures
        x.deep_view() == started(encode_utf8(command::use_tube_line(tube@)), Some(Reply::UseTube)),
        x.action matches Action::Write(r) && request::names_tube(r@, "use"@, tube@),
{
    let request = command::build_use_tube(tube);
    Exchange { state: State::Sending(Some(Reply::UseTube)), action: Action::Write(request) }
}

/// Starts the exchange of `put`.
pub fn put_cmd(pri: u32, delay: u32, ttr: u32, data: &[u8]) -> (x: Exchange)
    ensures
        x.deep_view() == started(command::put_request(pri, delay, ttr, data@), Some(Reply::Put)),
        x.action matches Action::Write(r)
            && request::puts(r@, pri as nat, delay as nat, ttr as nat, data@),
{
    let request = command::build_put(pri, delay, ttr, data);
    Exchange { state: State::Sending(Some(Reply::Put)), action: Action::Write(request) }
}

} // verus!
