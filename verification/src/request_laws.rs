//! What a server reads from each request.
//!
//! Each law takes the bytes of a request apart as a server does and says that what is found
//! there is what the command was given.
use crate::command;
use crate::decimal;
use crate::encoding;
use crate::laws;
use crate::request;
use crate::text;
use vstd::prelude::*;
use vstd::utf8::*;

verus! {

/// Two words and the space between them.
proof fn lemma_spaced_2(a: Seq<char>, b: Seq<char>)
    ensures
        request::spaced(seq![a, b]) == a + seq![' '] + b,
{
    assert(seq![a, b].drop_first() =~= seq![b]);
    assert(request::spaced(seq![b]) == b);
}

/// Three words and the spaces between them.
proof fn lemma_spaced_3(a: Seq<char>, b: Seq<char>, c: Seq<char>)
    ensures
        request::spaced(seq![a, b, c]) == a + seq![' '] + (b + seq![' '] + c),
{
    assert(seq![a, b, c].drop_first() =~= seq![b, c]);
    lemma_spaced_2(b, c);
}

/// Four words and the spaces between them.
proof fn lemma_spaced_4(a: Seq<char>, b: Seq<char>, c: Seq<char>, d: Seq<char>)
    ensures
        request::spaced(seq![a, b, c, d]) == a + seq![' '] + (b + seq![' '] + (c + seq![' '] + d)),
{
    assert(seq![a, b, c, d].drop_first() =~= seq![b, c, d]);
    lemma_spaced_3(b, c, d);
}

/// Texts that are the same with the same end are the same without it.
proof fn lemma_same_before(a: Seq<char>, b: Seq<char>, end: Seq<char>)
    requires
        a + end == b + end,
    ensures
        a == b,
{
    let whole = a + end;
    assert(whole.len() == b.len() + end.len());
    assert(a =~= whole.take(a.len() as int));
    assert(b =~= (b + end).take(a.len() as int));
}

/// The line of `quit` is its word.
pub(crate) proof fn lemma_quit_asks()
    ensures
        request::asks(encode_utf8("quit\r\n"@), "quit"@, seq![]),
{
    reveal_strlit("quit\r\n");
    reveal_strlit("quit");
    reveal_strlit("\r\n");
    assert(request::number_words("quit"@, seq![]) =~= seq!["quit"@]);
    assert("quit\r\n"@ =~= "quit"@ + "\r\n"@);
    request::lemma_asks("quit"@, seq![]);
}

/// The line of `list-tubes-watched` is its word.
pub(crate) proof fn lemma_list_tubes_watched_asks()
    ensures
        request::asks(encode_utf8("list-tubes-watched\r\n"@), "list-tubes-watched"@, seq![]),
{
    reveal_strlit("list-tubes-watched\r\n");
    reveal_strlit("list-tubes-watched");
    reveal_strlit("\r\n");
    assert(request::number_words("list-tubes-watched"@, seq![]) =~= seq!["list-tubes-watched"@]);
    assert("list-tubes-watched\r\n"@ =~= "list-tubes-watched"@ + "\r\n"@);
    request::lemma_asks("list-tubes-watched"@, seq![]);
}

/// The line of `list-tube-used` is its word.
pub(crate) proof fn lemma_list_tube_used_asks()
    ensures
        request::asks(encode_utf8("list-tube-used\r\n"@), "list-tube-used"@, seq![]),
{
    reveal_strlit("list-tube-used\r\n");
    reveal_strlit("list-tube-used");
    reveal_strlit("\r\n");
    assert(request::number_words("list-tube-used"@, seq![]) =~= seq!["list-tube-used"@]);
    assert("list-tube-used\r\n"@ =~= "list-tube-used"@ + "\r\n"@);
    request::lemma_asks("list-tube-used"@, seq![]);
}

/// The line of `list-tubes` is its word.
pub(crate) proof fn lemma_list_tubes_asks()
    ensures
        request::asks(encode_utf8("list-tubes\r\n"@), "list-tubes"@, seq![]),
{
    reveal_strlit("list-tubes\r\n");
    reveal_strlit("list-tubes");
    reveal_strlit("\r\n");
    assert(request::number_words("list-tubes"@, seq![]) =~= seq!["list-tubes"@]);
    assert("list-tubes\r\n"@ =~= "list-tubes"@ + "\r\n"@);
    request::lemma_asks("list-tubes"@, seq![]);
}

/// The line of `stats` is its word.
pub(crate) proof fn lemma_stats_asks()
    ensures
        request::asks(encode_utf8("stats\r\n"@), "stats"@, seq![]),
{
    reveal_strlit("stats\r\n");
    reveal_strlit("stats");
    reveal_strlit("\r\n");
    assert(request::number_words("stats"@, seq![]) =~= seq!["stats"@]);
    assert("stats\r\n"@ =~= "stats"@ + "\r\n"@);
    request::lemma_asks("stats"@, seq![]);
}

/// The line of `peek-ready` is its word.
pub(crate) proof fn lemma_peek_ready_asks()
    ensures
        request::asks(encode_utf8("peek-ready\r\n"@), "peek-ready"@, seq![]),
{
    reveal_strlit("peek-ready\r\n");
    reveal_strlit("peek-ready");
    reveal_strlit("\r\n");
    assert(request::number_words("peek-ready"@, seq![]) =~= seq!["peek-ready"@]);
    assert("peek-ready\r\n"@ =~= "peek-ready"@ + "\r\n"@);
    request::lemma_asks("peek-ready"@, seq![]);
}

/// The line of `peek-delayed` is its word.
pub(crate) proof fn lemma_peek_delayed_asks()
    ensures
        request::asks(encode_utf8("peek-delayed\r\n"@), "peek-delayed"@, seq![]),
{
    reveal_strlit("peek-delayed\r\n");
    reveal_strlit("peek-delayed");
    reveal_strlit("\r\n");
    assert(request::number_words("peek-delayed"@, seq![]) =~= seq!["peek-delayed"@]);
    assert("peek-delayed\r\n"@ =~= "peek-delayed"@ + "\r\n"@);
    request::lemma_asks("peek-delayed"@, seq![]);
}

/// The line of `peek-buried` is its word.
pub(crate) proof fn lemma_peek_buried_asks()
    ensures
        request::asks(encode_utf8("peek-buried\r\n"@), "peek-buried"@, seq![]),
{
    reveal_strlit("peek-buried\r\n");
    reveal_strlit("peek-buried");
    reveal_strlit("\r\n");
    assert(request::number_words("peek-buried"@, seq![]) =~= seq!["peek-buried"@]);
    assert("peek-buried\r\n"@ =~= "peek-buried"@ + "\r\n"@);
    request::lemma_asks("peek-buried"@, seq![]);
}

/// The line of `reserve` is its word.
pub(crate) proof fn lemma_reserve_asks()
    ensures
        request::asks(encode_utf8("reserve\r\n"@), "reserve"@, seq![]),
{
    reveal_strlit("reserve\r\n");
    reveal_strlit("reserve");
    reveal_strlit("\r\n");
    assert(request::number_words("reserve"@, seq![]) =~= seq!["reserve"@]);
    assert("reserve\r\n"@ =~= "reserve"@ + "\r\n"@);
    request::lemma_asks("reserve"@, seq![]);
}

/// The line of `stats-job` is made of its word and its number.
pub(crate) proof fn lemma_stats_job_asks(id: u64)
    ensures
        request::asks(encode_utf8(command::stats_job_line(id)), "stats-job"@, seq![id as nat]),
{
    reveal_strlit("stats-job ");
    reveal_strlit("stats-job");
    reveal_strlit(" ");
    lemma_spaced_2("stats-job"@, decimal::decimal(id as nat));
    let numbers = seq![id as nat];
    assert(request::number_words("stats-job"@, numbers) =~= seq![
        "stats-job"@,
        decimal::decimal(id as nat),
    ]);
    assert(command::stats_job_line(id) =~= request::spaced(
        request::number_words("stats-job"@, numbers),
    ) + "\r\n"@);
    request::lemma_asks("stats-job"@, numbers);
}

/// The request of `stats-job` is one line of the word and its job number in decimal notation.
/// Requests that are the same ask for the same.
pub proof fn law_stats_job_request(id: u64, other_id: u64)
    ensures
        ({
            let request = encode_utf8(command::stats_job_line(id));
            let words = request::request_words(request);
            &&& words.len() == 2
            &&& words[0] == "stats-job"@
            &&& request::is_number(words[1], id as nat)
            &&& request::after_first_line(request).len() == 0
        }),
        encode_utf8(command::stats_job_line(id))
            == encode_utf8(command::stats_job_line(other_id))
            ==> id == other_id,
{
    lemma_stats_job_asks(id);
    lemma_stats_job_asks(other_id);
    assert(seq![id as nat][0] == id as nat);
    if encode_utf8(command::stats_job_line(id)) == encode_utf8(command::stats_job_line(other_id)) {
        request::lemma_asks_once(
            encode_utf8(command::stats_job_line(id)),
            "stats-job"@,
            seq![id as nat],
            seq![other_id as nat],
        );
        assert(seq![id as nat][0] == seq![other_id as nat][0]);
    }
}

/// The line of `kick-job` is made of its word and its number.
pub(crate) proof fn lemma_kick_job_asks(id: u64)
    ensures
        request::asks(encode_utf8(command::kick_job_line(id)), "kick-job"@, seq![id as nat]),
{
    reveal_strlit("kick-job ");
    reveal_strlit("kick-job");
    reveal_strlit(" ");
    lemma_spaced_2("kick-job"@, decimal::decimal(id as nat));
    let numbers = seq![id as nat];
    assert(request::number_words("kick-job"@, numbers) =~= seq![
        "kick-job"@,
        decimal::decimal(id as nat),
    ]);
    assert(command::kick_job_line(id) =~= request::spaced(
        request::number_words("kick-job"@, numbers),
    ) + "\r\n"@);
    request::lemma_asks("kick-job"@, numbers);
}

/// The request of `kick-job` is one line of the word and its job number in decimal notation.
/// Requests that are the same ask for the same.
pub proof fn law_kick_job_request(id: u64, other_id: u64)
    ensures
        ({
            let request = encode_utf8(command::kick_job_line(id));
            let words = request::request_words(request);
            &&& words.len() == 2
            &&& words[0] == "kick-job"@
            &&& request::is_number(words[1], id as nat)
            &&& request::after_first_line(request).len() == 0
        }),
        encode_utf8(command::kick_job_line(id))
            == encode_utf8(command::kick_job_line(other_id))
            ==> id == other_id,
{
    lemma_kick_job_asks(id);
    lemma_kick_job_asks(other_id);
    assert(seq![id as nat][0] == id as nat);
    if encode_utf8(command::kick_job_line(id)) == encode_utf8(command::kick_job_line(other_id)) {
        request::lemma_asks_once(
            encode_utf8(command::kick_job_line(id)),
            "kick-job"@,
            seq![id as nat],
            seq![other_id as nat],
        );
        assert(seq![id as nat][0] == seq![other_id as nat][0]);
    }
}

/// The line of `kick` is made of its word and its number.
pub(crate) proof fn lemma_kick_asks(bound: u32)
    ensures
        request::asks(encode_utf8(command::kick_line(bound)), "kick"@, seq![bound as nat]),
{
    reveal_strlit("kick ");
    reveal_strlit("kick");
    reveal_strlit(" ");
    lemma_spaced_2("kick"@, decimal::decimal(bound as nat));
    let numbers = seq![bound as nat];
    assert(request::number_words("kick"@, numbers) =~= seq![
        "kick"@,
        decimal::decimal(bound as nat),
    ]);
    assert(command::kick_line(bound) =~= request::spaced(
        request::number_words("kick"@, numbers),
    ) + "\r\n"@);
    request::lemma_asks("kick"@, numbers);
}

/// The request of `kick` is one line of the word and its bound in decimal notation. Requests
/// that are the same ask for the same.
pub proof fn law_kick_request(bound: u32, other_bound: u32)
    ensures
        ({
            let request = encode_utf8(command::kick_line(bound));
            let words = request::request_words(request);
            &&& words.len() == 2
            &&& words[0] == "kick"@
            &&& request::is_number(words[1], bound as nat)
            &&& request::after_first_line(request).len() == 0
        }),
        encode_utf8(command::kick_line(bound))
            == encode_utf8(command::kick_line(other_bound))
            ==> bound == other_bound,
{
    lemma_kick_asks(bound);
    lemma_kick_asks(other_bound);
    assert(seq![bound as nat][0] == bound as nat);
    if encode_utf8(command::kick_line(bound)) == encode_utf8(command::kick_line(other_bound)) {
        request::lemma_asks_once(
            encode_utf8(command::kick_line(bound)),
            "kick"@,
            seq![bound as nat],
            seq![other_bound as nat],
        );
        assert(seq![bound as nat][0] == seq![other_bound as nat][0]);
    }
}

/// The line of `peek` is made of its word and its number.
pub(crate) proof fn lemma_peek_asks(id: u64)
    ensures
        request::asks(encode_utf8(command::peek_line(id)), "peek"@, seq![id as nat]),
{
    reveal_strlit("peek ");
    reveal_strlit("peek");
    reveal_strlit(" ");
    lemma_spaced_2("peek"@, decimal::decimal(id as nat));
    let numbers = seq![id as nat];
    assert(request::number_words("peek"@, numbers) =~= seq!["peek"@, decimal::decimal(id as nat)]);
    assert(command::peek_line(id) =~= request::spaced(
        request::number_words("peek"@, numbers),
    ) + "\r\n"@);
    request::lemma_asks("peek"@, numbers);
}

/// The request of `peek` is one line of the word and its job number in decimal notation.
/// Requests that are the same ask for the same.
pub proof fn law_peek_request(id: u64, other_id: u64)
    ensures
        ({
            let request = encode_utf8(command::peek_line(id));
            let words = request::request_words(request);
            &&& words.len() == 2
            &&& words[0] == "peek"@
            &&& request::is_number(words[1], id as nat)
            &&& request::after_first_line(request).len() == 0
        }),
        encode_utf8(command::peek_line(id))
            == encode_utf8(command::peek_line(other_id))
            ==> id == other_id,
{
    lemma_peek_asks(id);
    lemma_peek_asks(other_id);
    assert(seq![id as nat][0] == id as nat);
    if encode_utf8(command::peek_line(id)) == encode_utf8(command::peek_line(other_id)) {
        request::lemma_asks_once(
            encode_utf8(command::peek_line(id)),
            "peek"@,
            seq![id as nat],
            seq![other_id as nat],
        );
        assert(seq![id as nat][0] == seq![other_id as nat][0]);
    }
}

/// The line of `touch` is made of its word and its number.
pub(crate) proof fn lemma_touch_asks(id: u64)
    ensures
        request::asks(encode_utf8(command::touch_line(id)), "touch"@, seq![id as nat]),
{
    reveal_strlit("touch ");
    reveal_strlit("touch");
    reveal_strlit(" ");
    lemma_spaced_2("touch"@, decimal::decimal(id as nat));
    let numbers = seq![id as nat];
    assert(request::number_words("touch"@, numbers) =~= seq![
        "touch"@,
        decimal::decimal(id as nat),
    ]);
    assert(command::touch_line(id) =~= request::spaced(
        request::number_words("touch"@, numbers),
    ) + "\r\n"@);
    request::lemma_asks("touch"@, numbers);
}

/// The request of `touch` is one line of the word and its job number in decimal notation.
/// Requests that are the same ask for the same.
pub proof fn law_touch_request(id: u64, other_id: u64)
    ensures
        ({
            let request = encode_utf8(command::touch_line(id));
            let words = request::request_words(request);
            &&& words.len() == 2
            &&& words[0] == "touch"@
            &&& request::is_number(words[1], id as nat)
            &&& request::after_first_line(request).len() == 0
        }),
        encode_utf8(command::touch_line(id))
            == encode_utf8(command::touch_line(other_id))
            ==> id == other_id,
{
    lemma_touch_asks(id);
    lemma_touch_asks(other_id);
    assert(seq![id as nat][0] == id as nat);
    if encode_utf8(command::touch_line(id)) == encode_utf8(command::touch_line(other_id)) {
        request::lemma_asks_once(
            encode_utf8(command::touch_line(id)),
            "touch"@,
            seq![id as nat],
            seq![other_id as nat],
        );
        assert(seq![id as nat][0] == seq![other_id as nat][0]);
    }
}

/// The line of `delete` is made of its word and its number.
pub(crate) proof fn lemma_delete_asks(id: u64)
    ensures
        request::asks(encode_utf8(command::delete_line(id)), "delete"@, seq![id as nat]),
{
    reveal_strlit("delete ");
    reveal_strlit("delete");
    reveal_strlit(" ");
    lemma_spaced_2("delete"@, decimal::decimal(id as nat));
    let numbers = seq![id as nat];
    assert(request::number_words("delete"@, numbers) =~= seq![
        "delete"@,
        decimal::decimal(id as nat),
    ]);
    assert(command::delete_line(id) =~= request::spaced(
        request::number_words("delete"@, numbers),
    ) + "\r\n"@);
    request::lemma_asks("delete"@, numbers);
}

/// The request of `delete` is one line of the word and its job number in decimal notation.
/// Requests that are the same ask for the same.
pub proof fn law_delete_request(id: u64, other_id: u64)
    ensures
        ({
            let request = encode_utf8(command::delete_line(id));
            let words = request::request_words(request);
            &&& words.len() == 2
            &&& words[0] == "delete"@
            &&& request::is_number(words[1], id as nat)
            &&& request::after_first_line(request).len() == 0
        }),
        encode_utf8(command::delete_line(id))
            == encode_utf8(command::delete_line(other_id))
            ==> id == other_id,
{
    lemma_delete_asks(id);
    lemma_delete_asks(other_id);
    assert(seq![id as nat][0] == id as nat);
    if encode_utf8(command::delete_line(id)) == encode_utf8(command::delete_line(other_id)) {
        request::lemma_asks_once(
            encode_utf8(command::delete_line(id)),
            "delete"@,
            seq![id as nat],
            seq![other_id as nat],
        );
        assert(seq![id as nat][0] == seq![other_id as nat][0]);
    }
}

/// The line of `reserve-job` is made of its word and its number.
pub(crate) proof fn lemma_reserve_job_asks(id: u64)
    ensures
        request::asks(encode_utf8(command::reserve_job_line(id)), "reserve-job"@, seq![id as nat]),
{
    reveal_strlit("reserve-job ");
    reveal_strlit("reserve-job");
    reveal_strlit(" ");
    lemma_spaced_2("reserve-job"@, decimal::decimal(id as nat));
    let numbers = seq![id as nat];
    assert(request::number_words("reserve-job"@, numbers) =~= seq![
        "reserve-job"@,
        decimal::decimal(id as nat),
    ]);
    assert(command::reserve_job_line(id) =~= request::spaced(
        request::number_words("reserve-job"@, numbers),
    ) + "\r\n"@);
    request::lemma_asks("reserve-job"@, numbers);
}

/// The request of `reserve-job` is one line of the word and its job number in decimal notation.
/// Requests that are the same ask for the same.
pub proof fn law_reserve_job_request(id: u64, other_id: u64)
    ensures
        ({
            let request = encode_utf8(command::reserve_job_line(id));
            let words = request::request_words(request);
            &&& words.len() == 2
            &&& words[0] == "reserve-job"@
            &&& request::is_number(words[1], id as nat)
            &&& request::after_first_line(request).len() == 0
        }),
        encode_utf8(command::reserve_job_line(id))
            == encode_utf8(command::reserve_job_line(other_id))
            ==> id == other_id,
{
    lemma_reserve_job_asks(id);
    lemma_reserve_job_asks(other_id);
    assert(seq![id as nat][0] == id as nat);
    if encode_utf8(command::reserve_job_line(id))
        == encode_utf8(command::reserve_job_line(other_id)) {
        request::lemma_asks_once(
            encode_utf8(command::reserve_job_line(id)),
            "reserve-job"@,
            seq![id as nat],
            seq![other_id as nat],
        );
        assert(seq![id as nat][0] == seq![other_id as nat][0]);
    }
}

/// The line of `reserve-with-timeout` is made of its word and its number.
pub(crate) proof fn lemma_reserve_with_timeout_asks(seconds: u32)
    ensures
        request::asks(
            encode_utf8(command::reserve_with_timeout_line(seconds)),
            "reserve-with-timeout"@,
            seq![seconds as nat],
        ),
{
    reveal_strlit("reserve-with-timeout ");
    reveal_strlit("reserve-with-timeout");
    reveal_strlit(" ");
    lemma_spaced_2("reserve-with-timeout"@, decimal::decimal(seconds as nat));
    let numbers = seq![seconds as nat];
    assert(request::number_words("reserve-with-timeout"@, numbers) =~= seq![
        "reserve-with-timeout"@,
        decimal::decimal(seconds as nat),
    ]);
    assert(command::reserve_with_timeout_line(seconds) =~= request::spaced(
        request::number_words("reserve-with-timeout"@, numbers),
    ) + "\r\n"@);
    request::lemma_asks("reserve-with-timeout"@, numbers);
}

/// The request of `reserve-with-timeout` is one line of the word and its waiting time in
/// decimal notation. Requests that are the same ask for the same.
pub proof fn law_reserve_with_timeout_request(seconds: u32, other_seconds: u32)
    ensures
        ({
            let request = encode_utf8(command::reserve_with_timeout_line(seconds));
            let words = request::request_words(request);
            &&& words.len() == 2
            &&& words[0] == "reserve-with-timeout"@
            &&& request::is_number(words[1], seconds as nat)
            &&& request::after_first_line(request).len() == 0
        }),
        encode_utf8(command::reserve_with_timeout_line(seconds))
            == encode_utf8(command::reserve_with_timeout_line(other_seconds))
            ==> seconds == other_seconds,
{
    lemma_reserve_with_timeout_asks(seconds);
    lemma_reserve_with_timeout_asks(other_seconds);
    assert(seq![seconds as nat][0] == seconds as nat);
    if encode_utf8(command::reserve_with_timeout_line(seconds))
        == encode_utf8(command::reserve_with_timeout_line(other_seconds)) {
        request::lemma_asks_once(
            encode_utf8(command::reserve_with_timeout_line(seconds)),
            "reserve-with-timeout"@,
            seq![seconds as nat],
            seq![other_seconds as nat],
        );
        assert(seq![seconds as nat][0] == seq![other_seconds as nat][0]);
    }
}

/// The line of `bury` is made of its word and its numbers.
pub(crate) proof fn lemma_bury_asks(id: u64, pri: u32)
    ensures
        request::asks(
            encode_utf8(command::bury_line(id, pri)),
            "bury"@,
            seq![id as nat, pri as nat],
        ),
{
    reveal_strlit("bury ");
    reveal_strlit("bury");
    reveal_strlit(" ");
    lemma_spaced_3("bury"@, decimal::decimal(id as nat), decimal::decimal(pri as nat));
    let numbers = seq![id as nat, pri as nat];
    assert(request::number_words("bury"@, numbers) =~= seq![
        "bury"@,
        decimal::decimal(id as nat),
        decimal::decimal(pri as nat),
    ]);
    assert(command::bury_line(id, pri) =~= request::spaced(
        request::number_words("bury"@, numbers),
    ) + "\r\n"@);
    request::lemma_asks("bury"@, numbers);
}

/// The request of `bury` is one line of the word and two numbers in decimal notation, its job
/// number and its priority. Requests that are the same ask for the same.
pub proof fn law_bury_request(id: u64, pri: u32, other_id: u64, other_pri: u32)
    ensures
        ({
            let request = encode_utf8(command::bury_line(id, pri));
            let words = request::request_words(request);
            &&& words.len() == 3
            &&& words[0] == "bury"@
            &&& request::is_number(words[1], id as nat)
            &&& request::is_number(words[2], pri as nat)
            &&& request::after_first_line(request).len() == 0
        }),
        encode_utf8(command::bury_line(id, pri))
            == encode_utf8(command::bury_line(other_id, other_pri))
            ==> id == other_id && pri == other_pri,
{
    lemma_bury_asks(id, pri);
    lemma_bury_asks(other_id, other_pri);
    assert(seq![id as nat, pri as nat][0] == id as nat);
    assert(seq![id as nat, pri as nat][1] == pri as nat);
    if encode_utf8(command::bury_line(id, pri))
        == encode_utf8(command::bury_line(other_id, other_pri)) {
        request::lemma_asks_once(
            encode_utf8(command::bury_line(id, pri)),
            "bury"@,
            seq![id as nat, pri as nat],
            seq![other_id as nat, other_pri as nat],
        );
        assert(seq![id as nat, pri as nat][0] == seq![other_id as nat, other_pri as nat][0]);
        assert(seq![id as nat, pri as nat][1] == seq![other_id as nat, other_pri as nat][1]);
    }
}

/// The line of `release` is made of its word and its numbers.
pub(crate) proof fn lemma_release_asks(id: u64, pri: u32, delay: u32)
    ensures
        request::asks(
            encode_utf8(command::release_line(id, pri, delay)),
            "release"@,
            seq![id as nat, pri as nat, delay as nat],
        ),
{
    reveal_strlit("release ");
    reveal_strlit("release");
    reveal_strlit(" ");
    lemma_spaced_4(
        "release"@,
        decimal::decimal(id as nat),
        decimal::decimal(pri as nat),
        decimal::decimal(delay as nat),
    );
    let numbers = seq![id as nat, pri as nat, delay as nat];
    assert(request::number_words("release"@, numbers) =~= seq![
        "release"@,
        decimal::decimal(id as nat),
        decimal::decimal(pri as nat),
        decimal::decimal(delay as nat),
    ]);
    assert(command::release_line(id, pri, delay) =~= request::spaced(
        request::number_words("release"@, numbers),
    ) + "\r\n"@);
    request::lemma_asks("release"@, numbers);
}

/// The request of `release` is one line of the word and three numbers in decimal notation, its
/// job number, its priority and its delay. Requests that are the same ask for the same.
pub proof fn law_release_request(
    id: u64,
    pri: u32,
    delay: u32,
    other_id: u64,
    other_pri: u32,
    other_delay: u32,
)
    ensures
        ({
            let request = encode_utf8(command::release_line(id, pri, delay));
            let words = request::request_words(request);
            &&& words.len() == 4
            &&& words[0] == "release"@
            &&& request::is_number(words[1], id as nat)
            &&& request::is_number(words[2], pri as nat)
            &&& request::is_number(words[3], delay as nat)
            &&& request::after_first_line(request).len() == 0
        }),
        encode_utf8(command::release_line(id, pri, delay))
            == encode_utf8(command::release_line(other_id, other_pri, other_delay))
            ==> id == other_id && pri == other_pri && delay == other_delay,
{
    lemma_release_asks(id, pri, delay);
    lemma_release_asks(other_id, other_pri, other_delay);
    assert(seq![id as nat, pri as nat, delay as nat][0] == id as nat);
    assert(seq![id as nat, pri as nat, delay as nat][1] == pri as nat);
    assert(seq![id as nat, pri as nat, delay as nat][2] == delay as nat);
    if encode_utf8(command::release_line(id, pri, delay))
        == encode_utf8(command::release_line(other_id, other_pri, other_delay)) {
        request::lemma_asks_once(
            encode_utf8(command::release_line(id, pri, delay)),
            "release"@,
            seq![id as nat, pri as nat, delay as nat],
            seq![other_id as nat, other_pri as nat, other_delay as nat],
        );
        assert(seq![id as nat, pri as nat, delay as nat][0]
            == seq![other_id as nat, other_pri as nat, other_delay as nat][0]);
        assert(seq![id as nat, pri as nat, delay as nat][1]
            == seq![other_id as nat, other_pri as nat, other_delay as nat][1]);
        assert(seq![id as nat, pri as nat, delay as nat][2]
            == seq![other_id as nat, other_pri as nat, other_delay as nat][2]);
    }
}

/// The request of `stats-tube` is one line of the word, a space and the name of the tube, which is
/// read as one word where it holds no space and no line feed. Requests that are the same name
/// the same tube, whatever it is called.
pub proof fn law_stats_tube_request(tube: Seq<char>, other: Seq<char>)
    ensures
        ({
            let request = encode_utf8(command::stats_tube_line(tube));
            &&& text::halves(decode_utf8(request), seq![' '])
                == Some(("stats-tube"@, tube + "\r\n"@))
            &&& request::is_word(tube)
                ==> request::request_words(request) == seq!["stats-tube"@, tube]
                && request::after_first_line(request).len() == 0
        }),
        encode_utf8(command::stats_tube_line(tube))
            == encode_utf8(command::stats_tube_line(other))
            ==> tube
            == other,
{
    reveal_strlit("stats-tube ");
    reveal_strlit("stats-tube");
    assert(command::stats_tube_line(tube) =~= "stats-tube"@ + seq![' '] + (tube + "\r\n"@));
    assert(command::stats_tube_line(other) =~= "stats-tube"@ + seq![' '] + (other + "\r\n"@));
    request::lemma_names("stats-tube"@, tube);
    request::lemma_names("stats-tube"@, other);
    if tube + "\r\n"@ == other + "\r\n"@ {
        lemma_same_before(tube, other, "\r\n"@);
    }
}

/// The request of `ignore` is one line of the word, a space and the name of the tube, which is
/// read as one word where it holds no space and no line feed. Requests that are the same name
/// the same tube, whatever it is called.
pub proof fn law_ignore_request(tube: Seq<char>, other: Seq<char>)
    ensures
        ({
            let request = encode_utf8(command::ignore_line(tube));
            &&& text::halves(decode_utf8(request), seq![' ']) == Some(("ignore"@, tube + "\r\n"@))
            &&& request::is_word(tube) ==> request::request_words(request) == seq!["ignore"@, tube]
                && request::after_first_line(request).len() == 0
        }),
        encode_utf8(command::ignore_line(tube)) == encode_utf8(command::ignore_line(other)) ==> tube
            == other,
{
    reveal_strlit("ignore ");
    reveal_strlit("ignore");
    assert(command::ignore_line(tube) =~= "ignore"@ + seq![' '] + (tube + "\r\n"@));
    assert(command::ignore_line(other) =~= "ignore"@ + seq![' '] + (other + "\r\n"@));
    request::lemma_names("ignore"@, tube);
    request::lemma_names("ignore"@, other);
    if tube + "\r\n"@ == other + "\r\n"@ {
        lemma_same_before(tube, other, "\r\n"@);
    }
}

/// The request of `watch` is one line of the word, a space and the name of the tube, which is
/// read as one word where it holds no space and no line feed. Requests that are the same name
/// the same tube, whatever it is called.
pub proof fn law_watch_request(tube: Seq<char>, other: Seq<char>)
    ensures
        ({
            let request = encode_utf8(command::watch_line(tube));
            &&& text::halves(decode_utf8(request), seq![' ']) == Some(("watch"@, tube + "\r\n"@))
            &&& request::is_word(tube) ==> request::request_words(request) == seq!["watch"@, tube]
                && request::after_first_line(request).len() == 0
        }),
        encode_utf8(command::watch_line(tube)) == encode_utf8(command::watch_line(other)) ==> tube
            == other,
{
    reveal_strlit("watch ");
    reveal_strlit("watch");
    assert(command::watch_line(tube) =~= "watch"@ + seq![' '] + (tube + "\r\n"@));
    assert(command::watch_line(other) =~= "watch"@ + seq![' '] + (other + "\r\n"@));
    request::lemma_names("watch"@, tube);
    request::lemma_names("watch"@, other);
    if tube + "\r\n"@ == other + "\r\n"@ {
        lemma_same_before(tube, other, "\r\n"@);
    }
}

/// The request of `use` is one line of the word, a space and the name of the tube, which is
/// read as one word where it holds no space and no line feed. Requests that are the same name
/// the same tube, whatever it is called.
pub proof fn law_use_tube_request(tube: Seq<char>, other: Seq<char>)
    ensures
        ({
            let request = encode_utf8(command::use_tube_line(tube));
            &&& text::halves(decode_utf8(request), seq![' ']) == Some(("use"@, tube + "\r\n"@))
            &&& request::is_word(tube) ==> request::request_words(request) == seq!["use"@, tube]
                && request::after_first_line(request).len() == 0
        }),
        encode_utf8(command::use_tube_line(tube))
            == encode_utf8(command::use_tube_line(other))
            ==> tube
            == other,
{
    reveal_strlit("use ");
    reveal_strlit("use");
    assert(command::use_tube_line(tube) =~= "use"@ + seq![' '] + (tube + "\r\n"@));
    assert(command::use_tube_line(other) =~= "use"@ + seq![' '] + (other + "\r\n"@));
    request::lemma_names("use"@, tube);
    request::lemma_names("use"@, other);
    if tube + "\r\n"@ == other + "\r\n"@ {
        lemma_same_before(tube, other, "\r\n"@);
    }
}

/// Texts with a number after their last space are the same only where what stands before the
/// space is the same and the number is the same.
proof fn lemma_last_space_cut(a: Seq<char>, m: Seq<char>, b: Seq<char>, n: Seq<char>)
    requires
        !m.contains(' '),
        !n.contains(' '),
        a + seq![' '] + m == b + seq![' '] + n,
        a.len() <= b.len(),
    ensures
        a == b,
        m == n,
{
    let s = a + seq![' '] + m;
    let t = b + seq![' '] + n;
    let k = b.len() as int;
    assert((b + seq![' ']).len() == k + 1);
    assert(t.len() == k + 1 + n.len());
    assert(s.len() == t.len());
    assert(t[k] == ' ');
    if a.len() < b.len() {
        let front = a + seq![' '];
        assert(front.len() == a.len() + 1);
        assert((front + m)[k] == m[k - front.len()]);
        assert(m[k - front.len()] == ' ');
    }
    assert(a =~= s.take(k));
    assert(b =~= t.take(k));
    assert(m =~= s.skip(k + 1));
    assert(n =~= t.skip(k + 1));
}

/// The line of `pause-tube` is its word, a space and what follows the space.
proof fn lemma_pause_tube_line(tube_name: Seq<char>, delay: u32)
    ensures
        command::pause_tube_line(tube_name, delay) == "pause-tube"@ + seq![' '] + (tube_name
            + seq![' '] + decimal::decimal(delay as nat) + "\r\n"@),
        request::is_word("pause-tube"@),
{
    reveal_strlit("pause-tube ");
    reveal_strlit("pause-tube");
    reveal_strlit(" ");
    assert(command::pause_tube_line(tube_name, delay) =~= "pause-tube"@ + seq![' '] + (tube_name
        + seq![' '] + decimal::decimal(delay as nat) + "\r\n"@));
}

/// The request of `pause-tube` is one line of the word, the name of the tube and the delay in
/// decimal notation, with a space between each and the next. The name is read as one word
/// where it holds no space and no line feed. Requests that are the same pause the same tube,
/// whatever it is called, for the same time.
pub proof fn law_pause_tube_request(
    tube_name: Seq<char>,
    delay: u32,
    other_name: Seq<char>,
    other_delay: u32,
)
    ensures
        ({
            let request = encode_utf8(command::pause_tube_line(tube_name, delay));
            let words = request::request_words(request);
            &&& request::is_word(tube_name) ==> words.len() == 3 && words[0] == "pause-tube"@
                && words[1] == tube_name && request::is_number(words[2], delay as nat)
                && request::after_first_line(request).len() == 0
        }),
        ({
            let line = decode_utf8(encode_utf8(command::pause_tube_line(tube_name, delay)));
            let k = tube_name.len() as int;
            &&& text::halves(line, seq![' ']) matches Some((word, rest)) && word == "pause-tube"@
                && tube_name.is_prefix_of(rest) && k < rest.len() - 2 && rest[k] == ' '
                && request::is_number(rest.subrange(k + 1, rest.len() - 2), delay as nat)
                && rest.skip(rest.len() - 2) == "\r\n"@
        }),
        encode_utf8(command::pause_tube_line(tube_name, delay)) == encode_utf8(
            command::pause_tube_line(other_name, other_delay),
        ) ==> tube_name == other_name && delay == other_delay,
{
    lemma_pause_tube_line(tube_name, delay);
    lemma_pause_tube_line(other_name, other_delay);
    reveal_strlit("\r\n");
    let d = decimal::decimal(delay as nat);
    let e = decimal::decimal(other_delay as nat);
    request::law_decimal_is_shortest(delay as nat);
    request::law_decimal_is_shortest(other_delay as nat);
    let line = command::pause_tube_line(tube_name, delay);
    let other_line = command::pause_tube_line(other_name, other_delay);
    let front = tube_name + seq![' '] + d;
    let other_front = other_name + seq![' '] + e;
    let rest = front + "\r\n"@;
    encode_utf8_decode_utf8(line);
    laws::lemma_halves_at("pause-tube"@, ' ', rest);
    let k = tube_name.len() as int;
    assert(rest.subrange(0, k) =~= tube_name);
    assert(rest.subrange(k + 1, rest.len() - 2) =~= d);
    assert(rest.skip(rest.len() - 2) =~= "\r\n"@);
    if request::is_word(tube_name) {
        let words = seq!["pause-tube"@, tube_name, d];
        assert forall|i: int| 0 <= i < words.len() implies request::is_word(
            #[trigger] words[i],
        ) by {}
        lemma_spaced_3("pause-tube"@, tube_name, d);
        assert(line =~= request::spaced(words) + "\r\n"@);
        request::lemma_request(words, seq![]);
        assert(encode_utf8(line) + Seq::<u8>::empty() =~= encode_utf8(line));
    }
    if encode_utf8(line) == encode_utf8(other_line) {
        encoding::lemma_encode_injective(line, other_line);
        let n = "pause-tube"@.len() as int;
        assert(rest =~= line.skip(n + 1));
        assert(other_front + "\r\n"@ =~= other_line.skip(n + 1));
        lemma_same_before(front, other_front, "\r\n"@);
        if tube_name.len() <= other_name.len() {
            lemma_last_space_cut(tube_name, d, other_name, e);
        } else {
            lemma_last_space_cut(other_name, e, tube_name, d);
        }
        request::law_one_notation(d, e, delay as nat, other_delay as nat);
    }
}

/// Five texts, put together in one order of steps or in another.
proof fn lemma_regroup(
    w: Seq<char>,
    p: Seq<char>,
    d: Seq<char>,
    t: Seq<char>,
    n: Seq<char>,
    end: Seq<char>,
)
    ensures
        w + seq![' '] + p + seq![' '] + d + seq![' '] + t + seq![' '] + n + end == w + seq![' ']
            + (p + seq![' '] + (d + seq![' '] + (t + seq![' '] + n))) + end,
{
    let c = seq![' '];
    let tn = t + c + n;
    let dtn = d + c + tn;
    let pdtn = p + c + dtn;
    assert(w + c + pdtn =~= w + c + p + c + dtn);
    assert(w + c + p + c + dtn =~= w + c + p + c + d + c + tn);
    assert(w + c + p + c + d + c + tn =~= w + c + p + c + d + c + t + c + n);
}

/// The words of the line of `put`, and what follows the line.
proof fn lemma_put_words(pri: u32, delay: u32, ttr: u32, data: Seq<u8>)
    ensures
        request::request_words(command::put_request(pri, delay, ttr, data)) == seq![
            "put"@,
            decimal::decimal(pri as nat),
            decimal::decimal(delay as nat),
            decimal::decimal(ttr as nat),
            decimal::decimal(data.len()),
        ],
        request::after_first_line(command::put_request(pri, delay, ttr, data)) == data
            + encode_utf8("\r\n"@),
{
    reveal_strlit("put ");
    reveal_strlit("put");
    reveal_strlit(" ");
    let p = decimal::decimal(pri as nat);
    let d = decimal::decimal(delay as nat);
    let t = decimal::decimal(ttr as nat);
    let n = decimal::decimal(data.len());
    request::law_decimal_is_shortest(pri as nat);
    request::law_decimal_is_shortest(delay as nat);
    request::law_decimal_is_shortest(ttr as nat);
    request::law_decimal_is_shortest(data.len());
    let words = seq!["put"@, p, d, t, n];
    assert forall|i: int| 0 <= i < words.len() implies request::is_word(#[trigger] words[i]) by {}
    assert(words.drop_first() =~= seq![p, d, t, n]);
    lemma_spaced_4(p, d, t, n);
    let line = command::put_line(pri, delay, ttr, data.len());
    assert(line == request::spaced(words) + "\r\n"@) by {
        assert("put "@ =~= "put"@ + seq![' ']);
        assert(" "@ =~= seq![' ']);
        lemma_regroup("put"@, p, d, t, n, "\r\n"@);
    }
    let rest = data + encode_utf8("\r\n"@);
    request::lemma_request(words, rest);
    assert(command::put_request(pri, delay, ttr, data) =~= encode_utf8(line) + rest);
}

/// The request of `put` is a line, the job and a line end. The words of the line are the
/// command and four numbers in decimal notation: the priority, the delay, the time to run and
/// the number of bytes that stand between the line and the line end at the close. These bytes
/// are the job.
pub proof fn law_put_request(pri: u32, delay: u32, ttr: u32, data: Seq<u8>)
    ensures
        ({
            let request = command::put_request(pri, delay, ttr, data);
            let words = request::request_words(request);
            let rest = request::after_first_line(request);
            &&& words.len() == 5
            &&& words[0] == "put"@
            &&& request::is_number(words[1], pri as nat)
            &&& request::is_number(words[2], delay as nat)
            &&& request::is_number(words[3], ttr as nat)
            &&& rest.len() >= 2
            &&& request::is_number(words[4], (rest.len() - 2) as nat)
            &&& rest.take(rest.len() - 2) == data
            &&& rest.skip(rest.len() - 2) == seq![13u8, 10u8]
        }),
{
    lemma_put_words(pri, delay, ttr, data);
    request::law_decimal_is_shortest(pri as nat);
    request::law_decimal_is_shortest(delay as nat);
    request::law_decimal_is_shortest(ttr as nat);
    request::law_decimal_is_shortest(data.len());
    reveal_strlit("\r\n");
    is_ascii_chars_encode_utf8("\r\n"@);
    assert(encode_utf8("\r\n"@) =~= seq![13u8, 10u8]);
    let rest = data + encode_utf8("\r\n"@);
    assert(rest.take(rest.len() - 2) =~= data);
    assert(rest.skip(rest.len() - 2) =~= seq![13u8, 10u8]);
}

} // verus!
