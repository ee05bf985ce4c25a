use beanstalkd_rs::exchange::{self, accepts, step, Action, Event, Exchange, Outcome};
use beanstalkd_rs::{Error, IgnoreResult, Job, PutResult, ReleaseResult, ReserveResult, Stats};
use smol::block_on;
use smol::io::{AsyncBufReadExt, AsyncReadExt, AsyncWriteExt, Cursor};
use std::collections::HashMap;

/// Runs an exchange over a buffer that holds the request and the reply after it.
fn run(stream: &[u8], exchange: Exchange) -> Result<Outcome, Error> {
    let mut c = Cursor::new(stream.to_vec());
    let mut x = exchange;
    block_on(async {
        loop {
            let event = match x.action {
                Action::Finish(result) => return result,
                Action::Write(bytes) => match c.write_all(&bytes).await {
                    Ok(()) => Event::Written,
                    Err(e) => Event::Failed(e),
                },
                Action::ReadLine => {
                    let mut line = String::new();
                    match c.read_line(&mut line).await {
                        Ok(_) => Event::Line(line),
                        Err(e) => Event::Failed(e),
                    }
                }
                Action::ReadExact(n) => {
                    let mut raw = vec![0; n];
                    match c.read_exact(&mut raw).await {
                        Ok(()) => Event::Body(raw),
                        Err(e) => Event::Failed(e),
                    }
                }
            };
            assert!(accepts(&x.state, &event));
            x = step(x.state, event);
        }
    })
}

fn flag(r: Result<Outcome, Error>) -> Result<bool, Error> {
    r.map(|o| match o {
        Outcome::Flag(b) => b,
        other => panic!("{other:?}"),
    })
}

fn count(r: Result<Outcome, Error>) -> Result<u64, Error> {
    r.map(|o| match o {
        Outcome::Count(n) => n,
        other => panic!("{other:?}"),
    })
}

fn tube(r: Result<Outcome, Error>) -> Result<String, Error> {
    r.map(|o| match o {
        Outcome::Tube(s) => s,
        other => panic!("{other:?}"),
    })
}

fn tubes(r: Result<Outcome, Error>) -> Result<Vec<String>, Error> {
    r.map(|o| match o {
        Outcome::Tubes(v) => v,
        other => panic!("{other:?}"),
    })
}

fn map_of(s: Stats) -> HashMap<String, String> {
    s.into_entries().into_iter().collect()
}

fn stats(r: Result<Outcome, Error>) -> Result<HashMap<String, String>, Error> {
    r.map(|o| match o {
        Outcome::Stats(s) => map_of(s),
        other => panic!("{other:?}"),
    })
}

fn stats_if_found(r: Result<Outcome, Error>) -> Result<Option<HashMap<String, String>>, Error> {
    r.map(|o| match o {
        Outcome::StatsIfFound(s) => s.map(map_of),
        other => panic!("{other:?}"),
    })
}

fn job(r: Result<Outcome, Error>) -> Result<Option<Job>, Error> {
    r.map(|o| match o {
        Outcome::JobIfFound(j) => j,
        other => panic!("{other:?}"),
    })
}

fn ignore(r: Result<Outcome, Error>) -> Result<IgnoreResult, Error> {
    r.map(|o| match o {
        Outcome::Ignore(v) => v,
        other => panic!("{other:?}"),
    })
}

fn release(r: Result<Outcome, Error>) -> Result<ReleaseResult, Error> {
    r.map(|o| match o {
        Outcome::Release(v) => v,
        other => panic!("{other:?}"),
    })
}

fn reserve(r: Result<Outcome, Error>) -> Result<ReserveResult, Error> {
    r.map(|o| match o {
        Outcome::Reserve(v) => v,
        other => panic!("{other:?}"),
    })
}

fn put(r: Result<Outcome, Error>) -> Result<PutResult, Error> {
    r.map(|o| match o {
        Outcome::Put(v) => v,
        other => panic!("{other:?}"),
    })
}

#[test]
fn test_quit() {
    assert!(matches!(run(b"quit\r\n", exchange::quit_cmd()), Ok(Outcome::Sent)));
}

#[test]
fn test_pause_tube() {
    assert!(flag(run(b"pause-tube default 5\r\nPAUSED\r\n", exchange::pause_tube_cmd("default", 5))).unwrap());
    assert!(!flag(run(b"pause-tube default 5\r\nNOT_FOUND\r\n", exchange::pause_tube_cmd("default", 5))).unwrap());
    assert!(flag(run(b"pause-tube default 5\r\nERROR\r\n", exchange::pause_tube_cmd("default", 5))).is_err());
    assert!(flag(run(b"pause-tube default 5\r\nBAD_FORMAT\r\n", exchange::pause_tube_cmd("default", 5))).is_err());
}

#[test]
fn test_list_tubes_watched() {
    assert_eq!(tubes(run(b"list-tubes-watched\r\nOK 18\r\n---\n- default\n- a\n\r\n", exchange::list_tubes_watched_cmd())).unwrap(), vec!["default", "a"]);
    assert!(tubes(run(b"list-tubes-watched\r\nERROR\r\n", exchange::list_tubes_watched_cmd())).is_err());
    assert!(tubes(run(b"list-tubes-watched\r\nBAD_FORMAT\r\n", exchange::list_tubes_watched_cmd())).is_err());
}

#[test]
fn test_list_tube_used() {
    assert_eq!(tube(run(b"list-tube-used\r\nUSING default\r\n", exchange::list_tube_used_cmd())).unwrap(), "default");
    assert!(tube(run(b"list-tube-used\r\nERROR\r\n", exchange::list_tube_used_cmd())).is_err());
    assert!(tube(run(b"list-tube-used\r\nBAD_FORMAT\r\n", exchange::list_tube_used_cmd())).is_err());
}

#[test]
fn test_list_tubes() {
    assert_eq!(tubes(run(b"list-tubes\r\nOK 18\r\n---\n- default\n- a\n\r\n", exchange::list_tubes_cmd())).unwrap(), vec!["default", "a"]);
    assert!(tubes(run(b"list-tubes\r\nERROR\r\n", exchange::list_tubes_cmd())).is_err());
    assert!(tubes(run(b"list-tubes\r\nBAD_FORMAT\r\n", exchange::list_tubes_cmd())).is_err());
}

#[test]
fn test_stats() {
    assert_eq!(stats(run(b"stats\r\nOK 27\r\n---\npid: 1\nversion: \"1.13\"\n\r\n", exchange::stats_cmd())).unwrap(), HashMap::from([("pid".to_string(), "1".to_string()), ("version".to_string(), "\"1.13\"".to_string())]));
    assert!(stats(run(b"stats\r\nERROR\r\n", exchange::stats_cmd())).is_err());
    assert!(stats(run(b"stats\r\nBAD_FORMAT\r\n", exchange::stats_cmd())).is_err());
}

#[test]
fn test_stats_tube() {
    assert_eq!(stats_if_found(run(b"stats-tube default\r\nOK 34\r\n---\nname: \"default\"\ntotal-jobs: 0\n\r\n", exchange::stats_tube_cmd("default"))).unwrap(), Some(HashMap::from([("name".to_string(), "\"default\"".to_string()), ("total-jobs".to_string(), "0".to_string())])));
    assert!(stats_if_found(run(b"stats-tube default\r\nERROR\r\n", exchange::stats_tube_cmd("default"))).is_err());
    assert!(stats_if_found(run(b"stats-tube default\r\nBAD_FORMAT\r\n", exchange::stats_tube_cmd("default"))).is_err());
}

#[test]
fn test_stats_job() {
    assert_eq!(stats_if_found(run(b"stats-job 1\r\nOK 25\r\n---\nid: 1\ntube: \"default\"\n\r\n", exchange::stats_job_cmd(1))).unwrap(), Some(HashMap::from([("id".to_string(), "1".to_string()), ("tube".to_string(), "\"default\"".to_string())])));
    assert!(stats_if_found(run(b"stats-job 1\r\nNOT_FOUND\r\n", exchange::stats_job_cmd(1))).unwrap().is_none());
    assert!(stats_if_found(run(b"stats-job 1\r\nERROR\r\n", exchange::stats_job_cmd(1))).is_err());
    assert!(stats_if_found(run(b"stats-job 1\r\nBAD_FORMAT\r\n", exchange::stats_job_cmd(1))).is_err());
}

#[test]
fn test_kick_job() {
    assert!(flag(run(b"kick-job 1\r\nKICKED\r\n", exchange::kick_job_cmd(1))).unwrap());
    assert!(!flag(run(b"kick-job 1\r\nNOT_FOUND\r\n", exchange::kick_job_cmd(1))).unwrap());
    assert!(flag(run(b"kick-job 1\r\nERROR\r\n", exchange::kick_job_cmd(1))).is_err());
    assert!(flag(run(b"kick-job 1\r\nBAD_FORMAT\r\n", exchange::kick_job_cmd(1))).is_err());
}

#[test]
fn test_kick() {
    assert_eq!(count(run(b"kick 10\r\nKICKED 0\r\n", exchange::kick_cmd(10))).unwrap(), 0);
    assert!(count(run(b"kick 10\r\nERROR\r\n", exchange::kick_cmd(10))).is_err());
    assert!(count(run(b"kick 10\r\nBAD_FORMAT\r\n", exchange::kick_cmd(10))).is_err());
}

#[test]
fn test_peek() {
    assert_eq!(job(run(b"peek 1\r\nFOUND 1 1\r\na\r\n", exchange::peek_cmd(1))).unwrap(), Some(Job { id: 1, body: b"a".to_vec() }));
    assert!(job(run(b"peek 1\r\nNOT_FOUND\r\n", exchange::peek_cmd(1))).unwrap().is_none());
    assert!(job(run(b"peek 1\r\nERROR\r\n", exchange::peek_cmd(1))).is_err());
    assert!(job(run(b"peek 1\r\nBAD_FORMAT\r\n", exchange::peek_cmd(1))).is_err());
}

#[test]
fn test_peek_ready() {
    assert_eq!(job(run(b"peek-ready\r\nFOUND 1 1\r\na\r\n", exchange::peek_ready_cmd())).unwrap(), Some(Job { id: 1, body: b"a".to_vec() }));
    assert!(job(run(b"peek-ready\r\nNOT_FOUND\r\n", exchange::peek_ready_cmd())).unwrap().is_none());
    assert!(job(run(b"peek-ready\r\nERROR\r\n", exchange::peek_ready_cmd())).is_err());
    assert!(job(run(b"peek-ready\r\nBAD_FORMAT\r\n", exchange::peek_ready_cmd())).is_err());
}

#[test]
fn test_peek_delayed() {
    assert_eq!(job(run(b"peek-delayed\r\nFOUND 1 1\r\na\r\n", exchange::peek_delayed_cmd())).unwrap(), Some(Job { id: 1, body: b"a".to_vec() }));
    assert!(job(run(b"peek-delayed\r\nNOT_FOUND\r\n", exchange::peek_delayed_cmd())).unwrap().is_none());
    assert!(job(run(b"peek-delayed\r\nERROR\r\n", exchange::peek_delayed_cmd())).is_err());
    assert!(job(run(b"peek-delayed\r\nBAD_FORMAT\r\n", exchange::peek_delayed_cmd())).is_err());
}

#[test]
fn test_peek_buried() {
    assert_eq!(job(run(b"peek-buried\r\nFOUND 1 1\r\na\r\n", exchange::peek_buried_cmd())).unwrap(), Some(Job { id: 1, body: b"a".to_vec() }));
    assert!(job(run(b"peek-buried\r\nNOT_FOUND\r\n", exchange::peek_buried_cmd())).unwrap().is_none());
    assert!(job(run(b"peek-buried\r\nERROR\r\n", exchange::peek_buried_cmd())).is_err());
    assert!(job(run(b"peek-buried\r\nBAD_FORMAT\r\n", exchange::peek_buried_cmd())).is_err());
}

#[test]
fn test_ignore() {
    assert_eq!(ignore(run(b"ignore default\r\nWATCHING 1\r\n", exchange::ignore_cmd("default"))).unwrap(), IgnoreResult::Watching(1));
    assert_eq!(ignore(run(b"ignore default\r\nNOT_IGNORED\r\n", exchange::ignore_cmd("default"))).unwrap(), IgnoreResult::NotIgnored);
    assert!(ignore(run(b"ignore default\r\nERROR\r\n", exchange::ignore_cmd("default"))).is_err());
    assert!(ignore(run(b"ignore default\r\nBAD_FORMAT\r\n", exchange::ignore_cmd("default"))).is_err());
}

#[test]
fn test_watch() {
    assert_eq!(count(run(b"watch default\r\nWATCHING 1\r\n", exchange::watch_cmd("default"))).unwrap(), 1);
    assert!(count(run(b"watch default\r\nERROR\r\n", exchange::watch_cmd("default"))).is_err());
    assert!(count(run(b"watch default\r\nBAD_FORMAT\r\n", exchange::watch_cmd("default"))).is_err());
}

#[test]
fn test_touch() {
    assert!(flag(run(b"touch 1\r\nTOUCHED\r\n", exchange::touch_cmd(1))).unwrap());
    assert!(!flag(run(b"touch 1\r\nNOT_FOUND\r\n", exchange::touch_cmd(1))).unwrap());
    assert!(flag(run(b"touch 1\r\nERROR\r\n", exchange::touch_cmd(1))).is_err());
    assert!(flag(run(b"touch 1\r\nBAD_FORMAT\r\n", exchange::touch_cmd(1))).is_err());
}

#[test]
fn test_bury() {
    assert!(flag(run(b"bury 1 0\r\nBURIED\r\n", exchange::bury_cmd(1, 0))).unwrap());
    assert!(!flag(run(b"bury 1 0\r\nNOT_FOUND\r\n", exchange::bury_cmd(1, 0))).unwrap());
    assert!(flag(run(b"bury 1 0\r\nERROR\r\n", exchange::bury_cmd(1, 0))).is_err());
    assert!(flag(run(b"bury 1 0\r\nBAD_FORMAT\r\n", exchange::bury_cmd(1, 0))).is_err());
}

#[test]
fn test_release() {
    assert_eq!(release(run(b"release 1 0 0\r\nRELEASED\r\n", exchange::release_cmd(1, 0, 0))).unwrap(), ReleaseResult::Released);
    assert_eq!(release(run(b"release 1 0 0\r\nBURIED\r\n", exchange::release_cmd(1, 0, 0))).unwrap(), ReleaseResult::Buried);
    assert_eq!(release(run(b"release 1 0 0\r\nNOT_FOUND\r\n", exchange::release_cmd(1, 0, 0))).unwrap(), ReleaseResult::NotFound);
    assert!(release(run(b"release 1 0 0\r\nERROR\r\n", exchange::release_cmd(1, 0, 0))).is_err());
    assert!(release(run(b"release 1 0 0\r\nBAD_FORMAT\r\n", exchange::release_cmd(1, 0, 0))).is_err());
}

#[test]
fn test_delete() {
    assert!(flag(run(b"delete 1\r\nDELETED\r\n", exchange::delete_cmd(1))).unwrap());
    assert!(!flag(run(b"delete 1\r\nNOT_FOUND\r\n", exchange::delete_cmd(1))).unwrap());
    assert!(flag(run(b"delete 1\r\nERROR\r\n", exchange::delete_cmd(1))).is_err());
    assert!(flag(run(b"delete 1\r\nBAD_FORMAT\r\n", exchange::delete_cmd(1))).is_err());
}

#[test]
fn test_reserve_job() {
    assert_eq!(job(run(b"reserve-job 1\r\nRESERVED 1 1\r\na\r\n", exchange::reserve_job_cmd(1))).unwrap(), Some(Job { id: 1, body: b"a".to_vec() }));
    assert!(job(run(b"reserve-job 1\r\nNOT_FOUND\r\n", exchange::reserve_job_cmd(1))).unwrap().is_none());
    assert!(job(run(b"reserve-job 1\r\nERROR\r\n", exchange::reserve_job_cmd(1))).is_err());
    assert!(job(run(b"reserve-job 1\r\nBAD_FORMAT\r\n", exchange::reserve_job_cmd(1))).is_err());
}

#[test]
fn test_reserve_with_timeout() {
    assert_eq!(reserve(run(b"reserve-with-timeout 1\r\nRESERVED 1 1\r\na\r\n", exchange::reserve_with_timeout_cmd(1))).unwrap(), ReserveResult::Reserved(Job { id: 1, body: b"a".to_vec() }));
    assert_eq!(reserve(run(b"reserve-with-timeout 1\r\nDEADLINE_SOON\r\n", exchange::reserve_with_timeout_cmd(1))).unwrap(), ReserveResult::DeadlineSoon);
    assert_eq!(reserve(run(b"reserve-with-timeout 1\r\nTIMED_OUT\r\n", exchange::reserve_with_timeout_cmd(1))).unwrap(), ReserveResult::TimedOut);
    assert!(reserve(run(b"reserve-with-timeout 1\r\nERROR\r\n", exchange::reserve_with_timeout_cmd(1))).is_err());
    assert!(reserve(run(b"reserve-with-timeout 1\r\nBAD_FORMAT\r\n", exchange::reserve_with_timeout_cmd(1))).is_err());
}

#[test]
fn test_reserve() {
    assert_eq!(reserve(run(b"reserve\r\nRESERVED 1 1\r\na\r\n", exchange::reserve_cmd())).unwrap(), ReserveResult::Reserved(Job { id: 1, body: b"a".to_vec() }));
    assert_eq!(reserve(run(b"reserve\r\nDEADLINE_SOON\r\n", exchange::reserve_cmd())).unwrap(), ReserveResult::DeadlineSoon);
    assert_eq!(reserve(run(b"reserve\r\nTIMED_OUT\r\n", exchange::reserve_cmd())).unwrap(), ReserveResult::TimedOut);
    assert!(reserve(run(b"reserve\r\nERROR\r\n", exchange::reserve_cmd())).is_err());
    assert!(reserve(run(b"reserve\r\nBAD_FORMAT\r\n", exchange::reserve_cmd())).is_err());
}

#[test]
fn test_use_tube() {
    assert_eq!(tube(run(b"use default\r\nUSING default\r\n", exchange::use_tube_cmd("default"))).unwrap(), "default");
    assert!(tube(run(b"use default\r\nERROR\r\n", exchange::use_tube_cmd("default"))).is_err());
    assert!(tube(run(b"use default\r\nBAD_FORMAT\r\n", exchange::use_tube_cmd("default"))).is_err());
}

#[test]
fn test_put() {
    assert_eq!(put(run(b"put 0 0 0 1\r\na\r\nINSERTED 1\r\n", exchange::put_cmd(1, 0, 0, b"a"))).unwrap(), PutResult::Inserted(1));
    assert_eq!(put(run(b"put 0 0 0 1\r\na\r\nBURIED 1\r\n", exchange::put_cmd(1, 0, 0, b"a"))).unwrap(), PutResult::Buried(1));
    assert!(put(run(b"put 0 0 0 1\r\na\r\nEXPECTED_CRLF\r\n", exchange::put_cmd(1, 0, 0, b"a"))).is_err());
    assert!(put(run(b"put 0 0 0 1\r\na\r\nJOB_TOO_BIG\r\n", exchange::put_cmd(1, 0, 0, b"a"))).is_err());
    assert!(put(run(b"put 0 0 0 1\r\na\r\nDRAINING\r\n", exchange::put_cmd(1, 0, 0, b"a"))).is_err());
    assert!(put(run(b"put 0 0 0 1\r\na\r\nERROR\r\n", exchange::put_cmd(1, 0, 0, b"a"))).is_err());
    assert!(put(run(b"put 0 0 0\r\na\r\nBAD_FORMAT\r\n", exchange::put_cmd(1, 0, 0, b"a"))).is_err());
}
