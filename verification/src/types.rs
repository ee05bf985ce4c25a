//! What the commands hand back.
use vstd::prelude::*;
use vstd::string::*;

verus! {

/// A job: the number that the server knows it by, and its content.
#[derive(Debug, PartialEq)]
pub struct Job {
    pub id: u64,
    pub body: Vec<u8>,
}

/// The content of a [`Job`].
#[verifier::ext_equal]
pub struct JobView {
    pub id: u64,
    pub body: Seq<u8>,
}

impl DeepView for Job {
    type V = JobView;

    open spec fn deep_view(&self) -> JobView {
        JobView { id: self.id, body: self.body@ }
    }
}

/// The answer to `ignore`.
#[derive(Debug, PartialEq)]
pub enum IgnoreResult {
    /// The number of tubes that are still watched.
    Watching(u64),
    /// The tube is the only one that is watched.
    NotIgnored,
}

impl DeepView for IgnoreResult {
    type V = IgnoreResult;

    open spec fn deep_view(&self) -> IgnoreResult {
        *self
    }
}

/// The answer to `release`.
#[derive(Debug, PartialEq)]
pub enum ReleaseResult {
    Released,
    /// The server had no memory left to grow its queue.
    Buried,
    NotFound,
}

impl DeepView for ReleaseResult {
    type V = ReleaseResult;

    open spec fn deep_view(&self) -> ReleaseResult {
        *self
    }
}

/// The answer to `reserve` and `reserve_with_timeout`.
#[derive(Debug, PartialEq)]
pub enum ReserveResult {
    /// A job that this client holds is about to run out of time.
    DeadlineSoon,
    /// No job came in time.
    TimedOut,
    Reserved(Job),
}

/// The content of a [`ReserveResult`].
#[verifier::ext_equal]
pub enum ReserveView {
    DeadlineSoon,
    TimedOut,
    Reserved(JobView),
}

impl DeepView for ReserveResult {
    type V = ReserveView;

    open spec fn deep_view(&self) -> ReserveView {
        match self {
            ReserveResult::DeadlineSoon => ReserveView::DeadlineSoon,
            ReserveResult::TimedOut => ReserveView::TimedOut,
            ReserveResult::Reserved(job) => ReserveView::Reserved(job.deep_view()),
        }
    }
}

/// The answer to `put`.
#[derive(Debug, PartialEq)]
pub enum PutResult {
    Inserted(u64),
    /// The server had no memory left to grow its queue.
    Buried(u64),
}

impl DeepView for PutResult {
    type V = PutResult;

    open spec fn deep_view(&self) -> PutResult {
        *self
    }
}

impl PutResult {
    /// The number of the job that was put.
    pub open spec fn spec_id(&self) -> u64 {
        match self {
            PutResult::Inserted(id) => *id,
            PutResult::Buried(id) => *id,
        }
    }

    /// The number of the job that was put.
    pub fn id(&self) -> (id: u64)
        ensures
            id == self.spec_id(),
    {
        match self {
            PutResult::Inserted(id) => *id,
            PutResult::Buried(id) => *id,
        }
    }
}

/// The I/O error of std, which the library carries and does not look into.
#[verifier::external_type_specification]
#[verifier::external_body]
pub struct ExIoError(std::io::Error);

/// Why a command failed.
#[derive(Debug)]
pub enum Error {
    /// Reading or writing failed.
    Io(std::io::Error),
    /// The job body was not followed by a CR-LF pair.
    ExpectedCrlf,
    /// The job body is larger than the server allows.
    JobTooBig,
    /// The server is out of memory.
    OutOfMemory,
    /// The server failed internally.
    InternalError,
    /// The client sent a malformed command.
    BadFormat,
    /// The client sent a command that the server does not know.
    UnknownCommand,
    /// The server takes no new jobs.
    Draining,
    /// The server answered with this line, which the command does not allow for.
    UnexpectedResponse(String),
}

/// The content of an [`Error`].
#[verifier::ext_equal]
pub enum ErrorView {
    Io(std::io::Error),
    ExpectedCrlf,
    JobTooBig,
    OutOfMemory,
    InternalError,
    BadFormat,
    UnknownCommand,
    Draining,
    UnexpectedResponse(Seq<char>),
}

impl DeepView for Error {
    type V = ErrorView;

    open spec fn deep_view(&self) -> ErrorView {
        match self {
            Error::Io(e) => ErrorView::Io(*e),
            Error::ExpectedCrlf => ErrorView::ExpectedCrlf,
            Error::JobTooBig => ErrorView::JobTooBig,
            Error::OutOfMemory => ErrorView::OutOfMemory,
            Error::InternalError => ErrorView::InternalError,
            Error::BadFormat => ErrorView::BadFormat,
            Error::UnknownCommand => ErrorView::UnknownCommand,
            Error::Draining => ErrorView::Draining,
            Error::UnexpectedResponse(line) => ErrorView::UnexpectedResponse(line@),
        }
    }
}

/// The content of a result.
pub open spec fn result_view<T: DeepView>(r: Result<T, Error>) -> Result<T::V, ErrorView> {
    match r {
        Ok(v) => Ok(v.deep_view()),
        Err(e) => Err(e.deep_view()),
    }
}

/// An I/O error stands in an [`Error`] as it came.
impl From<std::io::Error> for Error {
    fn from(e: std::io::Error) -> (r: Error) {
        Error::Io(e)
    }
}

impl vstd::std_specs::convert::FromSpecImpl<std::io::Error> for Error {
    open spec fn obeys_from_spec() -> bool {
        true
    }

    open spec fn from_spec(e: std::io::Error) -> Error {
        Error::Io(e)
    }
}

/// The message of an error, where `io` is the text of an I/O error.
pub open spec fn message_of(e: ErrorView, io: Seq<char>) -> Seq<char> {
    match e {
        ErrorView::Io(_) => "Network I/O error: "@ + io,
        ErrorView::ExpectedCrlf => "The job body must be followed by a CR-LF pair (\\r\\n)"@,
        ErrorView::JobTooBig => "The job body exceeds max-job-size bytes allowed by the server"@,
        ErrorView::OutOfMemory => "Server is out of memory"@,
        ErrorView::InternalError => "Server encountered an internal error"@,
        ErrorView::BadFormat => "Client sent a bad command format"@,
        ErrorView::UnknownCommand => "Client sent an unknown command"@,
        ErrorView::Draining => "Server is in drain mode and stops accepting puts"@,
        ErrorView::UnexpectedResponse(line) => "Unexpected server response: "@ + line,
    }
}

impl Error {
    /// The message of the error. Of an I/O error it holds the text that std gives it.
    pub fn message(&self) -> (r: String)
        ensures
            exists|io: String|
                r@ == message_of(self.deep_view(), #[trigger] io@) && (self matches Error::Io(e)
                    ==> to_string_from_display_ensures::<std::io::Error>(&e, io)),
    {
        let mut r = String::new();
        let mut io = String::new();
        let text: &str = match self {
            Error::Io(e) => {
                io = e.to_string();
                r = "Network I/O error: ".to_owned();
                io.as_str()
            },
            Error::ExpectedCrlf => "The job body must be followed by a CR-LF pair (\\r\\n)",
            Error::JobTooBig => "The job body exceeds max-job-size bytes allowed by the server",
            Error::OutOfMemory => "Server is out of memory",
            Error::InternalError => "Server encountered an internal error",
            Error::BadFormat => "Client sent a bad command format",
            Error::UnknownCommand => "Client sent an unknown command",
            Error::Draining => "Server is in drain mode and stops accepting puts",
            Error::UnexpectedResponse(line) => {
                r = "Unexpected server response: ".to_owned();
                line.as_str()
            },
        };
        r.append(text);
        proof {
            assert(r@ == message_of(self.deep_view(), io@));
        }
        r
    }
}

} // verus!
