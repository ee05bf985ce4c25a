//! The requests that the client sends.
//!
//! A request is a line of words and numbers; that of `put` is followed by the job.
use crate::decimal;
use crate::encoding;
use crate::request;
use crate::request_laws;
use vstd::prelude::*;
use vstd::utf8::*;

verus! {

/// A line under construction, as bytes.
struct LineBuilder {
    bytes: Vec<u8>,
    text: Ghost<Seq<char>>,
}

impl LineBuilder {
    spec fn well_formed(&self) -> bool {
        self.bytes@ == encode_utf8(self.text@)
    }

    /// A line that starts with `word`.
    fn new(word: &str) -> (r: LineBuilder)
        ensures
            r.well_formed(),
            r.text@ == word@,
    {
        let bytes = word.as_bytes();
        LineBuilder { bytes: vstd::slice::slice_to_vec(bytes), text: Ghost(word@) }
    }

    /// The line with `s` after it.
    fn text(self, s: &str) -> (r: LineBuilder)
        requires
            self.well_formed(),
        ensures
            r.well_formed(),
            r.text@ == self.text@ + s@,
    {
        let mut bytes = self.bytes;
        let more = s.as_bytes();
        bytes.extend_from_slice(more);
        proof {
            assert(bytes@ == self.bytes@ + more@);
            encoding::lemma_encode_concat(self.text@, s@);
        }
        LineBuilder { bytes, text: Ghost(self.text@ + s@) }
    }

    /// The line with the number `n` after it.
    fn number(self, n: u64) -> (r: LineBuilder)
        requires
            self.well_formed(),
        ensures
            r.well_formed(),
            r.text@ == self.text@ + decimal::decimal(n as nat),
    {
        let mut bytes = self.bytes;
        decimal::push_decimal(&mut bytes, n);
        proof {
            encoding::lemma_encode_concat(self.text@, decimal::decimal(n as nat));
        }
        LineBuilder { bytes, text: Ghost(self.text@ + decimal::decimal(n as nat)) }
    }
}

/// Leaves the server.
pub fn build_quit() -> (r: &'static [u8])
    ensures
        r@ == encode_utf8("quit\r\n"@),
        request::asks(r@, "quit"@, seq![]),
{
    proof {
        request_laws::lemma_quit_asks();
    }
    "quit\r\n".as_bytes()
}

/// Asks for the tubes that are watched.
pub fn build_list_tubes_watched() -> (r: &'static [u8])
    ensures
        r@ == encode_utf8("list-tubes-watched\r\n"@),
        request::asks(r@, "list-tubes-watched"@, seq![]),
{
    proof {
        request_laws::lemma_list_tubes_watched_asks();
    }
    "list-tubes-watched\r\n".as_bytes()
}

/// Asks for the tube that is used.
pub fn build_list_tube_used() -> (r: &'static [u8])
    ensures
        r@ == encode_utf8("list-tube-used\r\n"@),
        request::asks(r@, "list-tube-used"@, seq![]),
{
    proof {
        request_laws::lemma_list_tube_used_asks();
    }
    "list-tube-used\r\n".as_bytes()
}

/// Asks for all tubes.
pub fn build_list_tubes() -> (r: &'static [u8])
    ensures
        r@ == encode_utf8("list-tubes\r\n"@),
        request::asks(r@, "list-tubes"@, seq![]),
{
    proof {
        request_laws::lemma_list_tubes_asks();
    }
    "list-tubes\r\n".as_bytes()
}

/// Asks for the statistics of the server.
pub fn build_stats() -> (r: &'static [u8])
    ensures
        r@ == encode_utf8("stats\r\n"@),
        request::asks(r@, "stats"@, seq![]),
{
    proof {
        request_laws::lemma_stats_asks();
    }
    "stats\r\n".as_bytes()
}

/// Asks for the next ready job.
pub fn build_peek_ready() -> (r: &'static [u8])
    ensures
        r@ == encode_utf8("peek-ready\r\n"@),
        request::asks(r@, "peek-ready"@, seq![]),
{
    proof {
        request_laws::lemma_peek_ready_asks();
    }
    "peek-ready\r\n".as_bytes()
}

/// Asks for the delayed job with the shortest delay left.
pub fn build_peek_delayed() -> (r: &'static [u8])
    ensures
        r@ == encode_utf8("peek-delayed\r\n"@),
        request::asks(r@, "peek-delayed"@, seq![]),
{
    proof {
        request_laws::lemma_peek_delayed_asks();
    }
    "peek-delayed\r\n".as_bytes()
}

/// Asks for the next buried job.
pub fn build_peek_buried() -> (r: &'static [u8])
    ensures
        r@ == encode_utf8("peek-buried\r\n"@),
        request::asks(r@, "peek-buried"@, seq![]),
{
    proof {
        request_laws::lemma_peek_buried_asks();
    }
    "peek-buried\r\n".as_bytes()
}

/// Asks for a job, however long it takes.
pub fn build_reserve() -> (r: &'static [u8])
    ensures
        r@ == encode_utf8("reserve\r\n"@),
        request::asks(r@, "reserve"@, seq![]),
{
    proof {
        request_laws::lemma_reserve_asks();
    }
    "reserve\r\n".as_bytes()
}

/// The request line of `pause-tube`.
pub open spec fn pause_tube_line(tube_name: Seq<char>, delay: u32) -> Seq<char> {
    "pause-tube "@ + tube_name + " "@ + decimal::decimal(delay as nat) + "\r\n"@
}

/// Holds back the jobs of a tube for `delay` seconds.
pub fn build_pause_tube(tube_name: &str, delay: u32) -> (r: Vec<u8>)
    ensures
        r@ == encode_utf8(pause_tube_line(tube_name@, delay)),
        request::pauses(r@, tube_name@, delay as nat),
{
    proof {
        request_laws::law_pause_tube_request(tube_name@, delay, tube_name@, delay);
    }
    LineBuilder::new("pause-tube ").text(tube_name).text(" ").number(delay as u64).text("\r\n").bytes
}

/// The request line of `stats-tube`.
pub open spec fn stats_tube_line(tube: Seq<char>) -> Seq<char> {
    "stats-tube "@ + tube + "\r\n"@
}

/// Asks for the statistics of a tube.
pub fn build_stats_tube(tube: &str) -> (r: Vec<u8>)
    ensures
        r@ == encode_utf8(stats_tube_line(tube@)),
        request::names_tube(r@, "stats-tube"@, tube@),
{
    proof {
        request_laws::law_stats_tube_request(tube@, tube@);
    }
    LineBuilder::new("stats-tube ").text(tube).text("\r\n").bytes
}

/// The request line of `stats-job`.
pub open spec fn stats_job_line(id: u64) -> Seq<char> {
    "stats-job "@ + decimal::decimal(id as nat) + "\r\n"@
}

/// Asks for the statistics of a job.
pub fn build_stats_job(id: u64) -> (r: Vec<u8>)
    ensures
        r@ == encode_utf8(stats_job_line(id)),
        request::asks(r@, "stats-job"@, seq![id as nat]),
{
    proof {
        request_laws::lemma_stats_job_asks(id);
    }
    LineBuilder::new("stats-job ").number(id).text("\r\n").bytes
}

/// The request line of `kick-job`.
pub open spec fn kick_job_line(id: u64) -> Seq<char> {
    "kick-job "@ + decimal::decimal(id as nat) + "\r\n"@
}

/// Makes a job ready again.
pub fn build_kick_job(id: u64) -> (r: Vec<u8>)
    ensures
        r@ == encode_utf8(kick_job_line(id)),
        request::asks(r@, "kick-job"@, seq![id as nat]),
{
    proof {
        request_laws::lemma_kick_job_asks(id);
    }
    LineBuilder::new("kick-job ").number(id).text("\r\n").bytes
}

/// The request line of `kick`.
pub open spec fn kick_line(bound: u32) -> Seq<char> {
    "kick "@ + decimal::decimal(bound as nat) + "\r\n"@
}

/// Makes at most `bound` jobs of the used tube ready again.
pub fn build_kick(bound: u32) -> (r: Vec<u8>)
    ensures
        r@ == encode_utf8(kick_line(bound)),
        request::asks(r@, "kick"@, seq![bound as nat]),
{
    proof {
        request_laws::lemma_kick_asks(bound);
    }
    LineBuilder::new("kick ").number(bound as u64).text("\r\n").bytes
}

/// The request line of `peek`.
pub open spec fn peek_line(id: u64) -> Seq<char> {
    "peek "@ + decimal::decimal(id as nat) + "\r\n"@
}

/// Asks for a job by its number.
pub fn build_peek(id: u64) -> (r: Vec<u8>)
    ensures
        r@ == encode_utf8(peek_line(id)),
        request::asks(r@, "peek"@, seq![id as nat]),
{
    proof {
        request_laws::lemma_peek_asks(id);
    }
    LineBuilder::new("peek ").number(id).text("\r\n").bytes
}

/// The request line of `ignore`.
pub open spec fn ignore_line(tube: Seq<char>) -> Seq<char> {
    "ignore "@ + tube + "\r\n"@
}

/// Stops watching a tube.
pub fn build_ignore(tube: &str) -> (r: Vec<u8>)
    ensures
        r@ == encode_utf8(ignore_line(tube@)),
        request::names_tube(r@, "ignore"@, tube@),
{
    proof {
        request_laws::law_ignore_request(tube@, tube@);
    }
    LineBuilder::new("ignore ").text(tube).text("\r\n").bytes
}

/// The request line of `watch`.
pub open spec fn watch_line(tube: Seq<char>) -> Seq<char> {
    "watch "@ + tube + "\r\n"@
}

/// Starts watching a tube.
pub fn build_watch(tube: &str) -> (r: Vec<u8>)
    ensures
        r@ == encode_utf8(watch_line(tube@)),
        request::names_tube(r@, "watch"@, tube@),
{
    proof {
        request_laws::law_watch_request(tube@, tube@);
    }
    LineBuilder::new("watch ").text(tube).text("\r\n").bytes
}

/// The request line of `touch`.
pub open spec fn touch_line(id: u64) -> Seq<char> {
    "touch "@ + decimal::decimal(id as nat) + "\r\n"@
}

/// Asks for more time to work on a job.
pub fn build_touch(id: u64) -> (r: Vec<u8>)
    ensures
        r@ == encode_utf8(touch_line(id)),
        request::asks(r@, "touch"@, seq![id as nat]),
{
    proof {
        request_laws::lemma_touch_asks(id);
    }
    LineBuilder::new("touch ").number(id).text("\r\n").bytes
}

/// The request line of `bury`.
pub open spec fn bury_line(id: u64, pri: u32) -> Seq<char> {
    "bury "@ + decimal::decimal(id as nat) + " "@ + decimal::decimal(pri as nat) + "\r\n"@
}

/// Buries a job.
pub fn build_bury(id: u64, pri: u32) -> (r: Vec<u8>)
    ensures
        r@ == encode_utf8(bury_line(id, pri)),
        request::asks(r@, "bury"@, seq![id as nat, pri as nat]),
{
    proof {
        request_laws::lemma_bury_asks(id, pri);
    }
    LineBuilder::new("bury ").number(id).text(" ").number(pri as u64).text("\r\n").bytes
}

/// The request line of `release`.
pub open spec fn release_line(id: u64, pri: u32, delay: u32) -> Seq<char> {
    "release "@ + decimal::decimal(id as nat) + " "@ + decimal::decimal(pri as nat) + " "@ + decimal::decimal(delay as nat) + "\r\n"@
}

/// Puts a reserved job back into its queue.
pub fn build_release(id: u64, pri: u32, delay: u32) -> (r: Vec<u8>)
    ensures
        r@ == encode_utf8(release_line(id, pri, delay)),
        request::asks(r@, "release"@, seq![id as nat, pri as nat, delay as nat]),
{
    proof {
        request_laws::lemma_release_asks(id, pri, delay);
    }
    LineBuilder::new("release ").number(id).text(" ").number(pri as u64).text(" ").number(delay as u64).text("\r\n").bytes
}

/// The request line of `delete`.
pub open spec fn delete_line(id: u64) -> Seq<char> {
    "delete "@ + decimal::decimal(id as nat) + "\r\n"@
}

/// Removes a job.
pub fn build_delete(id: u64) -> (r: Vec<u8>)
    ensures
        r@ == encode_utf8(delete_line(id)),
        request::asks(r@, "delete"@, seq![id as nat]),
{
    proof {
        request_laws::lemma_delete_asks(id);
    }
    LineBuilder::new("delete ").number(id).text("\r\n").bytes
}

/// The request line of `reserve-job`.
pub open spec fn reserve_job_line(id: u64) -> Seq<char> {
    "reserve-job "@ + decimal::decimal(id as nat) + "\r\n"@
}

/// Reserves a job by its number.
pub fn build_reserve_job(id: u64) -> (r: Vec<u8>)
    ensures
        r@ == encode_utf8(reserve_job_line(id)),
        request::asks(r@, "reserve-job"@, seq![id as nat]),
{
    proof {
        request_laws::lemma_reserve_job_asks(id);
    }
    LineBuilder::new("reserve-job ").number(id).text("\r\n").bytes
}

/// The request line of `reserve-with-timeout`.
pub open spec fn reserve_with_timeout_line(seconds: u32) -> Seq<char> {
    "reserve-with-timeout "@ + decimal::decimal(seconds as nat) + "\r\n"@
}

/// Asks for a job and waits for it at most `seconds`.
pub fn build_reserve_with_timeout(seconds: u32) -> (r: Vec<u8>)
    ensures
        r@ == encode_utf8(reserve_with_timeout_line(seconds)),
        request::asks(r@, "reserve-with-timeout"@, seq![seconds as nat]),
{
    proof {
        request_laws::lemma_reserve_with_timeout_asks(seconds);
    }
    LineBuilder::new("reserve-with-timeout ").number(seconds as u64).text("\r\n").bytes
}

/// The request line of `use`.
pub open spec fn use_tube_line(tube: Seq<char>) -> Seq<char> {
    "use "@ + tube + "\r\n"@
}

/// Puts the jobs that follow into a tube.
pub fn build_use_tube(tube: &str) -> (r: Vec<u8>)
    ensures
        r@ == encode_utf8(use_tube_line(tube@)),
        request::names_tube(r@, "use"@, tube@),
{
    proof {
        request_laws::law_use_tube_request(tube@, tube@);
    }
    LineBuilder::new("use ").text(tube).text("\r\n").bytes
}

/// The request line of `put`, for a job of `size` bytes.
pub open spec fn put_line(pri: u32, delay: u32, ttr: u32, size: nat) -> Seq<char> {
    "put "@ + decimal::decimal(pri as nat) + " "@ + decimal::decimal(delay as nat) + " "@
        + decimal::decimal(ttr as nat) + " "@ + decimal::decimal(size) + "\r\n"@
}

/// The request of `put`: its line, the job and a line end.
pub open spec fn put_request(pri: u32, delay: u32, ttr: u32, data: Seq<u8>) -> Seq<u8> {
    encode_utf8(put_line(pri, delay, ttr, data.len())) + data + encode_utf8("\r\n"@)
}

/// Puts a job into the used tube.
pub fn build_put(pri: u32, delay: u32, ttr: u32, data: &[u8]) -> (r: Vec<u8>)
    ensures
        r@ == put_request(pri, delay, ttr, data@),
        request::puts(r@, pri as nat, delay as nat, ttr as nat, data@),
{
    proof {
        request_laws::law_put_request(pri, delay, ttr, data@);
    }
    let mut r = LineBuilder::new("put ").number(pri as u64).text(" ").number(delay as u64).text(
        " ",
    ).number(ttr as u64).text(" ").number(data.len() as u64).text("\r\n").bytes;
    let ghost line = r@;
    r.extend_from_slice(data);
    proof {
        assert(r@ == line + data@);
    }
    let end = "\r\n".as_bytes();
    r.extend_from_slice(end);
    proof {
        assert(r@ == line + data@ + end@);
    }
    r
}

} // verus!
