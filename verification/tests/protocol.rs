use beanstalkd_rs::command;
use beanstalkd_rs::decimal::{parse_u64, parse_usize, push_decimal};
use beanstalkd_rs::exchange::{
    self, accepts, step, Action, Event, Exchange, Header, Outcome, Reply, State,
};
use beanstalkd_rs::reply::{self, JobHeader, Opening};
use beanstalkd_rs::text::{lines, same, split_once, starts_with, strip_prefix, trim_end, Blank};
use beanstalkd_rs::{Error, PutResult, ReserveResult, Stats};

fn line(s: &str) -> Event {
    Event::Line(s.to_string())
}

fn result(x: Exchange) -> Result<Outcome, Error> {
    assert_eq!(x.state, State::Finished);
    match x.action {
        Action::Finish(r) => r,
        other => panic!("{other:?}"),
    }
}

fn after_line(form: Reply, s: &str) -> Exchange {
    assert!(accepts(&State::Line(form), &line(s)));
    step(State::Line(form), line(s))
}

const FORMS: [Reply; 18] = [
    Reply::PauseTube,
    Reply::Tubes,
    Reply::Tube,
    Reply::Stats,
    Reply::StatsTubeOrJob,
    Reply::KickJob,
    Reply::Kick,
    Reply::Peek,
    Reply::Ignore,
    Reply::Watch,
    Reply::Touch,
    Reply::Bury,
    Reply::Release,
    Reply::Delete,
    Reply::ReserveJob,
    Reply::Reserve,
    Reply::UseTube,
    Reply::Put,
];

#[test]
fn requests_have_their_bytes() {
    assert_eq!(command::build_quit(), b"quit\r\n");
    assert_eq!(command::build_pause_tube("default", 5), b"pause-tube default 5\r\n");
    assert_eq!(command::build_list_tubes_watched(), b"list-tubes-watched\r\n");
    assert_eq!(command::build_list_tube_used(), b"list-tube-used\r\n");
    assert_eq!(command::build_list_tubes(), b"list-tubes\r\n");
    assert_eq!(command::build_stats(), b"stats\r\n");
    assert_eq!(command::build_stats_tube("a"), b"stats-tube a\r\n");
    assert_eq!(command::build_stats_job(u64::MAX), b"stats-job 18446744073709551615\r\n");
    assert_eq!(command::build_kick_job(10), b"kick-job 10\r\n");
    assert_eq!(command::build_kick(u32::MAX), b"kick 4294967295\r\n");
    assert_eq!(command::build_peek(7), b"peek 7\r\n");
    assert_eq!(command::build_peek_ready(), b"peek-ready\r\n");
    assert_eq!(command::build_peek_delayed(), b"peek-delayed\r\n");
    assert_eq!(command::build_peek_buried(), b"peek-buried\r\n");
    assert_eq!(command::build_ignore("\u{e9}"), "ignore \u{e9}\r\n".as_bytes());
    assert_eq!(command::build_watch("w"), b"watch w\r\n");
    assert_eq!(command::build_touch(0), b"touch 0\r\n");
    assert_eq!(command::build_bury(12, 34), b"bury 12 34\r\n");
    assert_eq!(command::build_release(1, 20, 300), b"release 1 20 300\r\n");
    assert_eq!(command::build_delete(99), b"delete 99\r\n");
    assert_eq!(command::build_reserve_job(1), b"reserve-job 1\r\n");
    assert_eq!(command::build_reserve_with_timeout(60), b"reserve-with-timeout 60\r\n");
    assert_eq!(command::build_reserve(), b"reserve\r\n");
    assert_eq!(command::build_use_tube("u"), b"use u\r\n");
    assert_eq!(command::build_put(1, 2, 3, b""), b"put 1 2 3 0\r\n\r\n");
    assert_eq!(
        command::build_put(0, 0, 60, b"Hello, Beanstalkd!"),
        b"put 0 0 60 18\r\nHello, Beanstalkd!\r\n"
    );
}

#[test]
fn put_requests_are_unambiguous() {
    let a = command::build_put(1, 0, 0, b"x\r\n");
    let b = command::build_put(1, 0, 0, b"x");
    let c = command::build_put(10, 0, 0, b"x");
    assert_ne!(a, b);
    assert_ne!(b, c);
}

#[test]
fn exchange_takes_its_steps() {
    let x = exchange::reserve_cmd();
    assert_eq!(x.state, State::Sending(Some(Reply::Reserve)));
    assert!(matches!(x.action, Action::Write(ref b) if b == b"reserve\r\n"));
    assert!(!accepts(&x.state, &line("TIMED_OUT\r\n")));
    let x = step(x.state, Event::Written);
    assert_eq!(x.state, State::Line(Reply::Reserve));
    assert!(matches!(x.action, Action::ReadLine));
    assert!(!accepts(&x.state, &Event::Written));
    let x = step(x.state, line("RESERVED 5 3\r\n"));
    let header = Header::Job(JobHeader { id: 5, bytes: 3 });
    assert_eq!(x.state, State::Body(Reply::Reserve, header));
    assert!(matches!(x.action, Action::ReadExact(5)));
    assert!(!accepts(&x.state, &Event::Body(b"abc".to_vec())));
    let x = step(x.state, Event::Body(b"\r\n\xff\r\n".to_vec()));
    match result(x) {
        Ok(Outcome::Reserve(ReserveResult::Reserved(job))) => {
            assert_eq!(job.id, 5);
            assert_eq!(job.body, b"\r\n\xff");
        }
        other => panic!("{other:?}"),
    }
    assert!(!accepts(&State::Finished, &Event::Written));
}

#[test]
fn quit_has_no_reply() {
    let x = exchange::quit_cmd();
    assert_eq!(x.state, State::Sending(None));
    assert!(matches!(result(step(x.state, Event::Written)), Ok(Outcome::Sent)));
}

#[test]
fn failures_are_reported_in_every_state() {
    let header = Header::Text(0);
    for state in [
        State::Sending(None),
        State::Sending(Some(Reply::Put)),
        State::Line(Reply::Kick),
        State::Body(Reply::Stats, header),
    ] {
        let event = Event::Failed(std::io::Error::other("broken"));
        assert!(accepts(&state, &event));
        match result(step(state, event)) {
            Err(Error::Io(e)) => assert_eq!(e.to_string(), "broken"),
            other => panic!("{other:?}"),
        }
    }
}

#[test]
fn global_errors_end_every_exchange() {
    for form in FORMS {
        assert!(matches!(
            result(after_line(form, "OUT_OF_MEMORY\r\n")),
            Err(Error::OutOfMemory)
        ));
        assert!(matches!(
            result(after_line(form, "INTERNAL_ERROR\r\n")),
            Err(Error::InternalError)
        ));
        assert!(matches!(result(after_line(form, "BAD_FORMAT\r\n")), Err(Error::BadFormat)));
        assert!(matches!(
            result(after_line(form, "UNKNOWN_COMMAND\r\n")),
            Err(Error::UnknownCommand)
        ));
    }
    assert!(reply::check_global_error("OUT_OF_MEMORY").is_none());
}

#[test]
fn put_errors_come_from_put_alone() {
    assert!(matches!(
        result(after_line(Reply::Put, "EXPECTED_CRLF\r\n")),
        Err(Error::ExpectedCrlf)
    ));
    assert!(matches!(result(after_line(Reply::Put, "JOB_TOO_BIG\r\n")), Err(Error::JobTooBig)));
    assert!(matches!(result(after_line(Reply::Put, "DRAINING\r\n")), Err(Error::Draining)));
    assert!(matches!(
        result(after_line(Reply::Delete, "DRAINING\r\n")),
        Err(Error::UnexpectedResponse(s)) if s == "DRAINING\r\n"
    ));
}

#[test]
fn unexpected_lines_are_verbatim() {
    for form in FORMS {
        for s in ["", "ERROR\r\n", "\u{fc}mlaut \r\n"] {
            assert!(matches!(
                result(after_line(form, s)),
                Err(Error::UnexpectedResponse(shown)) if shown == s
            ));
        }
    }
}

#[test]
fn broken_lines_are_not_accepted() {
    for (form, s) in [
        (Reply::Kick, "KICKED\r\n"),
        (Reply::Kick, "KICKED x\r\n"),
        (Reply::Kick, "KICKED 18446744073709551616\r\n"),
        (Reply::Watch, "WATCHING1\r\n"),
        (Reply::Ignore, "WATCHING -1\r\n"),
        (Reply::Put, "INSERTED\r\n"),
        (Reply::Put, "BURIED\r\n"),
        (Reply::Peek, "FOUND 1\r\n"),
        (Reply::Peek, "FOUND  1\r\n"),
        (Reply::ReserveJob, "RESERVED 1 x\r\n"),
        (Reply::Reserve, "RESERVED 1 18446744073709551615\r\n"),
        (Reply::Tube, "USING\r\n"),
        (Reply::UseTube, "USING \r\n"),
        (Reply::Tubes, "OK\r\n"),
        (Reply::Stats, "OKAY 1\r\n"),
        (Reply::StatsTubeOrJob, "OK 18446744073709551614\r\n"),
    ] {
        assert!(!accepts(&State::Line(form), &line(s)), "{s}");
    }
}

#[test]
fn numbers_are_read_back() {
    for n in [0, 9, 10, 12345, u64::MAX] {
        assert!(matches!(
            result(after_line(Reply::Kick, &format!("KICKED {n}\r\n"))),
            Ok(Outcome::Count(m)) if m == n
        ));
        match result(after_line(Reply::Put, &format!("BURIED {n}\r\n"))) {
            Ok(Outcome::Put(r)) => {
                assert_eq!(r, PutResult::Buried(n));
                assert_eq!(r.id(), n);
            }
            other => panic!("{other:?}"),
        }
    }
    assert_eq!(PutResult::Inserted(3).id(), 3);
    assert!(matches!(
        result(after_line(Reply::Kick, "KICKED +07 \t\r\n")),
        Ok(Outcome::Count(7))
    ));
}

#[test]
fn job_lines_may_hold_more_words() {
    assert!(matches!(
        reply::parse_peek("FOUND 3 4 5\r\n".to_string()),
        Ok(Opening::Body(JobHeader { id: 3, bytes: 4 }))
    ));
}

#[test]
fn jobs_are_handed_back() {
    let raw = b"any \x00 bytes\n\r\n".to_vec();
    let size = raw.len() - 2;
    for (form, word) in [
        (Reply::Peek, "FOUND"),
        (Reply::ReserveJob, "RESERVED"),
    ] {
        let x = after_line(form, &format!("{word} 8 {size}\r\n"));
        assert!(matches!(x.action, Action::ReadExact(n) if n == raw.len()));
        match result(step(x.state, Event::Body(raw.clone()))) {
            Ok(Outcome::JobIfFound(Some(job))) => {
                assert_eq!(job.id, 8);
                assert_eq!(job.body, b"any \x00 bytes\n");
            }
            other => panic!("{other:?}"),
        }
    }
}

#[test]
fn used_tube_is_trimmed() {
    let s = "USING a\u{2003}\r\n";
    assert!(matches!(result(after_line(Reply::Tube, s)), Ok(Outcome::Tube(t)) if t == "a"));
    assert!(matches!(
        result(after_line(Reply::UseTube, s)),
        Ok(Outcome::Tube(t)) if t == "a\u{2003}"
    ));
}

fn text_reply(form: Reply, content: &str) -> Result<Outcome, Error> {
    let x = after_line(form, &format!("OK {}\r\n", content.len()));
    assert!(matches!(x.action, Action::ReadExact(n) if n == content.len() + 2));
    let event = Event::Body(format!("{content}\r\n").into_bytes());
    assert!(accepts(&x.state, &event));
    result(step(x.state, event))
}

#[test]
fn tubes_are_handed_back() {
    match text_reply(Reply::Tubes, "---\n- b\n- \n- \u{e9}t\u{e9}\r\n- - a") {
        Ok(Outcome::Tubes(v)) => assert_eq!(v, vec!["b", "", "\u{e9}t\u{e9}", "- a"]),
        other => panic!("{other:?}"),
    }
    assert!(matches!(text_reply(Reply::Tubes, ""), Ok(Outcome::Tubes(v)) if v.is_empty()));
}

#[test]
fn stats_are_handed_back() {
    match text_reply(Reply::Stats, "---\na: 1\nb:: c: d\na: 2\n: \n") {
        Ok(Outcome::Stats(s)) => {
            assert_eq!(s.len(), 3);
            assert_eq!(s.get("a").unwrap(), "2");
            assert_eq!(s.get("b:").unwrap(), "c: d");
            assert_eq!(s.get("").unwrap(), "");
            assert!(s.get("c").is_none());
        }
        other => panic!("{other:?}"),
    }
}

#[test]
fn broken_bodies_are_not_accepted() {
    let bodies: [(Reply, &[u8]); 4] = [
        (Reply::Tubes, b"---\nname\n\r\n"),
        (Reply::Stats, b"---\nname:1\n\r\n"),
        (Reply::Tubes, b"---\n- \xff\n\r\n"),
        (Reply::StatsTubeOrJob, b"\xc3\r\n"),
    ];
    for (form, raw) in bodies {
        let header = Header::Text(raw.len() - 2);
        assert!(!accepts(&State::Body(form, header), &Event::Body(raw.to_vec())));
    }
    assert!(!accepts(&State::Body(Reply::Tubes, Header::Text(9)), &Event::Body(vec![])));
}

#[test]
fn stats_keep_one_value_per_name() {
    let s = Stats::new().with("a", "1").with("b", "2").with("a", "3");
    assert_eq!(s.len(), 2);
    assert_eq!(
        s.into_entries(),
        vec![
            ("a".to_string(), "3".to_string()),
            ("b".to_string(), "2".to_string())
        ]
    );
}

#[test]
fn errors_have_messages() {
    assert_eq!(
        Error::from(std::io::Error::other("gone")).message(),
        "Network I/O error: gone"
    );
    assert_eq!(
        Error::ExpectedCrlf.message(),
        "The job body must be followed by a CR-LF pair (\\r\\n)"
    );
    assert_eq!(
        Error::JobTooBig.message(),
        "The job body exceeds max-job-size bytes allowed by the server"
    );
    assert_eq!(Error::OutOfMemory.message(), "Server is out of memory");
    assert_eq!(Error::InternalError.message(), "Server encountered an internal error");
    assert_eq!(Error::BadFormat.message(), "Client sent a bad command format");
    assert_eq!(Error::UnknownCommand.message(), "Client sent an unknown command");
    assert_eq!(
        Error::Draining.message(),
        "Server is in drain mode and stops accepting puts"
    );
    assert_eq!(
        Error::UnexpectedResponse("HM\r\n".to_string()).message(),
        "Unexpected server response: HM\r\n"
    );
}

#[test]
fn text_operations_agree_with_std() {
    for s in [
        "", "a", "a \t\r\n", "\u{a0}x\u{3000}\u{85}", " \u{b}\u{c}", "\r\n", "a\n\nb\r\n\rc\r", "\n",
        "key: value: x", ": ", "::: ", "\u{1f600}: \u{e9}",
    ] {
        assert_eq!(trim_end(s, Blank::Unicode), s.trim_end());
        assert_eq!(trim_end(s, Blank::Ascii), s.trim_ascii_end());
        assert_eq!(lines(s), s.lines().collect::<Vec<_>>());
        assert_eq!(split_once(s, ": "), s.split_once(": "));
        for p in ["", "a", "\u{a0}", "key: ", "\u{1f600}"] {
            assert_eq!(starts_with(s, p), s.starts_with(p));
            assert_eq!(strip_prefix(s, p), s.strip_prefix(p));
            assert_eq!(same(s, p), s == p);
        }
    }
}

#[test]
fn blanks_agree_with_std() {
    for c in '\0'..=char::MAX {
        let s = c.to_string();
        assert_eq!(trim_end(&s, Blank::Unicode), s.trim_end());
        assert_eq!(trim_end(&s, Blank::Ascii), s.trim_ascii_end());
    }
}

#[test]
fn decimal_agrees_with_std() {
    for s in [
        "", "+", "-1", "0", "+0", "007", "18446744073709551615", "18446744073709551616",
        "99999999999999999999999", "1 ", "++1", "\u{661}", "000000000000000000000000001",
    ] {
        assert_eq!(parse_u64(s), s.parse::<u64>().ok());
        assert_eq!(parse_usize(s), s.parse::<usize>().ok());
    }
    for n in [0, 7, 10, 99, 100, u64::MAX] {
        let mut out = b"n=".to_vec();
        push_decimal(&mut out, n);
        assert_eq!(out, format!("n={n}").into_bytes());
    }
}
