//! How a server reads a request.
//!
//! A request starts with a line that ends with a carriage return and a line feed. The words of
//! the line stand between its spaces. What follows the line is the job that is put.
use crate::decimal;
use crate::encoding;
use crate::laws;
use crate::text;
use vstd::prelude::*;
use vstd::utf8::*;

verus! {

/// The bytes up to the first line feed, and the line feed.
pub open spec fn first_line(bytes: Seq<u8>) -> Seq<u8>
    decreases bytes.len(),
{
    if bytes.len() == 0 {
        seq![]
    } else if bytes[0] == 10 {
        seq![10u8]
    } else {
        seq![bytes[0]] + first_line(bytes.skip(1))
    }
}

/// What follows the first line.
pub open spec fn after_first_line(bytes: Seq<u8>) -> Seq<u8> {
    bytes.skip(first_line(bytes).len() as int)
}

/// The text of the first line, if the line ends with a carriage return and a line feed: what
/// stands before the two.
pub open spec fn line_text(bytes: Seq<u8>) -> Option<Seq<char>> {
    let line = decode_utf8(first_line(bytes));
    let n = line.len() - 2;
    if n >= 0 && line[n] == '\r' && line[n + 1] == '\n' {
        Some(line.take(n))
    } else {
        None
    }
}

/// The words of a text: what stands between its spaces.
pub open spec fn words_of(s: Seq<char>) -> Seq<Seq<char>>
    decreases s.len(),
{
    match text::halves(s, seq![' ']) {
        Some((word, rest)) => {
            proof {
                text::lemma_first_position(s, seq![' ']);
            }
            seq![word] + words_of(rest)
        },
        None => seq![s],
    }
}

/// The words of the first line of a request.
pub open spec fn request_words(bytes: Seq<u8>) -> Seq<Seq<char>> {
    match line_text(bytes) {
        Some(line) => words_of(line),
        None => seq![],
    }
}

/// Whether a word is the shortest decimal notation of `n`.
pub open spec fn is_number(word: Seq<char>, n: nat) -> bool {
    &&& word.len() > 0
    &&& decimal::all_digits(word)
    &&& word.len() > 1 ==> word[0] != '0'
    &&& decimal::digits_value(word) == n
}

/// Whether a request is one line, made of a command and the numbers, in their order.
pub open spec fn asks(request: Seq<u8>, command: Seq<char>, numbers: Seq<nat>) -> bool {
    let words = request_words(request);
    &&& words.len() == numbers.len() + 1
    &&& words[0] == command
    &&& forall|i: int|
        0 < i < words.len() ==> is_number(#[trigger] words[i], numbers[i - 1])
    &&& after_first_line(request) == Seq::<u8>::empty()
}

/// Whether a request is made of a command, a space, the name of a tube and a line end.
pub open spec fn names_tube(request: Seq<u8>, command: Seq<char>, tube: Seq<char>) -> bool {
    text::halves(decode_utf8(request), seq![' ']) == Some((command, tube + "\r\n"@))
}

/// Whether a request pauses a tube: what follows its command is the name of the tube, a space,
/// the delay and a line end.
pub open spec fn pauses(request: Seq<u8>, tube: Seq<char>, delay: nat) -> bool {
    let k = tube.len() as int;
    text::halves(decode_utf8(request), seq![' ']) matches Some((word, rest)) && {
        &&& word == "pause-tube"@
        &&& k < rest.len() - 2
        &&& tube.is_prefix_of(rest)
        &&& rest[k] == ' '
        &&& is_number(rest.subrange(k + 1, rest.len() - 2), delay)
        &&& rest.skip(rest.len() - 2) == "\r\n"@
    }
}

/// Whether a request puts a job: the words of its line are the command, the numbers and the
/// size of what stands between the line and the line end at the close, and that is the job.
pub open spec fn puts(request: Seq<u8>, pri: nat, delay: nat, ttr: nat, job: Seq<u8>) -> bool {
    let words = request_words(request);
    let rest = after_first_line(request);
    &&& words.len() == 5
    &&& words[0] == "put"@
    &&& is_number(words[1], pri)
    &&& is_number(words[2], delay)
    &&& is_number(words[3], ttr)
    &&& rest.len() >= 2
    &&& is_number(words[4], (rest.len() - 2) as nat)
    &&& rest.take(rest.len() - 2) == job
    &&& rest.skip(rest.len() - 2) == seq![13u8, 10u8]
}

/// The texts with a space between each and the next.
pub open spec fn spaced(words: Seq<Seq<char>>) -> Seq<char>
    decreases words.len(),
{
    if words.len() == 0 {
        seq![]
    } else if words.len() == 1 {
        words[0]
    } else {
        words[0] + seq![' '] + spaced(words.drop_first())
    }
}

/// Whether a text can stand in a request as a word: it holds no space and no line feed.
pub open spec fn is_word(s: Seq<char>) -> bool {
    !s.contains(' ') && !s.contains('\n')
}

/// A text without a given character has no first position of it.
proof fn lemma_no_position(s: Seq<char>, c: char)
    requires
        !s.contains(c),
    ensures
        text::halves(s, seq![c]) is None,
{
    text::lemma_first_position(s, seq![c]);
    if let Some(i) = text::first_position(s, seq![c]) {
        assert(seq![c] == s.skip(i).subrange(0, 1));
        assert(seq![c][0] == s[i]);
    }
}

/// Words that were put together with spaces are the words that are read.
pub proof fn law_words_are_read_back(words: Seq<Seq<char>>)
    requires
        words.len() > 0,
        forall|i: int| 0 <= i < words.len() ==> !(#[trigger] words[i]).contains(' '),
    ensures
        words_of(spaced(words)) == words,
    decreases words.len(),
{
    if words.len() == 1 {
        lemma_no_position(words[0], ' ');
        assert(seq![words[0]] == words);
    } else {
        let rest = words.drop_first();
        assert forall|i: int| 0 <= i < rest.len() implies !(#[trigger] rest[i]).contains(' ') by {
            assert(rest[i] == words[i + 1]);
        }
        law_words_are_read_back(rest);
        laws::lemma_halves_at(words[0], ' ', spaced(rest));
        assert(seq![words[0]] + rest == words);
    }
}

/// Words without a line feed, put together with spaces, hold no line feed.
proof fn lemma_spaced_is_one_line(words: Seq<Seq<char>>)
    requires
        forall|i: int| 0 <= i < words.len() ==> !(#[trigger] words[i]).contains('\n'),
    ensures
        !spaced(words).contains('\n'),
    decreases words.len(),
{
    if words.len() > 1 {
        let rest = words.drop_first();
        assert forall|i: int| 0 <= i < rest.len() implies !(#[trigger] rest[i]).contains('\n') by {
            assert(rest[i] == words[i + 1]);
        }
        lemma_spaced_is_one_line(rest);
        let s = spaced(words);
        if s.contains('\n') {
            let j = choose|j: int| 0 <= j < s.len() && s[j] == '\n';
            let n = words[0].len() as int;
            if j < n {
                assert(words[0][j] == '\n');
            } else if j > n {
                assert(spaced(rest)[j - n - 1] == '\n');
            }
        }
    }
}

/// The bytes of a character other than the line feed are none of them a line feed.
proof fn lemma_scalar_without_line_feed(c: char)
    requires
        c != '\n',
    ensures
        !encode_scalar(c as u32).contains(10),
{
    let v = c as u32;
    assert(v <= 0x7f && v != 10 ==> (v & 0x7f) as u8 != 10) by (bit_vector);
    assert(0xC0u8 | ((v >> 6) & 0x1F) as u8 != 10) by (bit_vector);
    assert(0xE0u8 | ((v >> 12) & 0x0F) as u8 != 10) by (bit_vector);
    assert(0xF0u8 | ((v >> 18) & 0x7) as u8 != 10) by (bit_vector);
    assert(0x80u8 | (v & 0x3F) as u8 != 10) by (bit_vector);
    assert(0x80u8 | ((v >> 6) & 0x3F) as u8 != 10) by (bit_vector);
    assert(0x80u8 | ((v >> 12) & 0x3F) as u8 != 10) by (bit_vector);
}

/// The bytes of a text without a line feed are none of them a line feed.
proof fn lemma_bytes_without_line_feed(s: Seq<char>)
    requires
        !s.contains('\n'),
    ensures
        !encode_utf8(s).contains(10),
    decreases s.len(),
{
    if s.len() > 0 {
        let rest = s.drop_first();
        assert(s[0] != '\n');
        assert(!rest.contains('\n')) by {
            if rest.contains('\n') {
                let j = choose|j: int| 0 <= j < rest.len() && rest[j] == '\n';
                assert(s[j + 1] == '\n');
            }
        }
        lemma_scalar_without_line_feed(s[0]);
        lemma_bytes_without_line_feed(rest);
        let a = encode_scalar(s[0] as u32);
        let b = encode_utf8(rest);
        if encode_utf8(s).contains(10) {
            let j = choose|j: int| 0 <= j < (a + b).len() && (a + b)[j] == 10;
            if j < a.len() {
                assert(a[j] == 10);
            } else {
                assert(b[j - a.len()] == 10);
            }
        }
    }
}

/// Bytes without a line feed, and a line feed after them, are the first line of what starts
/// with them.
proof fn lemma_first_line(a: Seq<u8>, rest: Seq<u8>)
    requires
        !a.contains(10),
    ensures
        first_line(a + seq![10u8] + rest) == a + seq![10u8],
    decreases a.len(),
{
    let s = a + seq![10u8] + rest;
    if a.len() == 0 {
        assert(s[0] == 10);
        assert(a + seq![10u8] == seq![10u8]);
    } else {
        let t = a.skip(1);
        assert(a[0] != 10);
        assert(!t.contains(10)) by {
            if t.contains(10) {
                let j = choose|j: int| 0 <= j < t.len() && t[j] == 10;
                assert(a[j + 1] == 10);
            }
        }
        lemma_first_line(t, rest);
        assert(s.skip(1) == t + seq![10u8] + rest);
        assert(seq![a[0]] + (t + seq![10u8]) == a + seq![10u8]);
    }
}

/// A line is read back with what follows it.
pub proof fn law_lines_are_read_first(line: Seq<char>, rest: Seq<u8>)
    requires
        !line.contains('\n'),
    ensures
        line_text(encode_utf8(line + "\r\n"@) + rest) == Some(line),
        after_first_line(encode_utf8(line + "\r\n"@) + rest) == rest,
{
    reveal_strlit("\r\n");
    let front = line.push('\r');
    assert(!front.contains('\n')) by {
        if front.contains('\n') {
            let j = choose|j: int| 0 <= j < front.len() && front[j] == '\n';
            assert(line[j] == '\n');
        }
    }
    let end = seq!['\n'];
    let whole = line + "\r\n"@;
    assert(whole == front + end);
    encoding::lemma_encode_concat(front, end);
    is_ascii_chars_encode_utf8(end);
    assert(encode_utf8(end) == seq![10u8]);
    lemma_bytes_without_line_feed(front);
    lemma_first_line(encode_utf8(front), rest);
    encode_utf8_decode_utf8(whole);
    assert(whole.take(whole.len() - 2) == line);
    let all = encode_utf8(whole) + rest;
    assert(all.skip(encode_utf8(whole).len() as int) == rest);
}

/// The words of a request and what follows its line are those that it was made of.
pub(crate) proof fn lemma_request(words: Seq<Seq<char>>, rest: Seq<u8>)
    requires
        words.len() > 0,
        forall|i: int| 0 <= i < words.len() ==> is_word(#[trigger] words[i]),
    ensures
        request_words(encode_utf8(spaced(words) + "\r\n"@) + rest) == words,
        after_first_line(encode_utf8(spaced(words) + "\r\n"@) + rest) == rest,
{
    law_words_are_read_back(words);
    lemma_spaced_is_one_line(words);
    law_lines_are_read_first(spaced(words), rest);
}

/// A command and the decimal notations of the numbers.
pub open spec fn number_words(command: Seq<char>, numbers: Seq<nat>) -> Seq<Seq<char>> {
    seq![command] + numbers.map_values(|n: nat| decimal::decimal(n))
}

/// The decimal notation of a number has no needless zero and is a word.
pub proof fn law_decimal_is_shortest(n: nat)
    ensures
        is_number(decimal::decimal(n), n),
        is_word(decimal::decimal(n)),
    decreases n,
{
    decimal::lemma_decimal_value(n);
    let s = decimal::decimal(n);
    if n >= 10 {
        law_decimal_is_shortest(n / 10);
        let t = decimal::decimal(n / 10);
        assert(s[0] == t[0]);
        if t.len() == 1 {
            assert(t.drop_last() == Seq::<char>::empty());
            assert(decimal::digits_value(t.drop_last()) == 0);
        }
    }
    assert forall|i: int| 0 <= i < s.len() implies '0' <= #[trigger] s[i] <= '9' by {}
}

/// A word stands for one number, and a number has one shortest notation.
pub proof fn law_one_notation(a: Seq<char>, b: Seq<char>, m: nat, n: nat)
    requires
        is_number(a, m),
        is_number(b, n),
    ensures
        a == b <==> m == n,
{
    lemma_notation(a, m);
    lemma_notation(b, n);
}

/// The shortest notation of a number is its decimal notation.
proof fn lemma_notation(word: Seq<char>, n: nat)
    requires
        is_number(word, n),
    ensures
        word == decimal::decimal(n),
    decreases word.len(),
{
    let front = word.drop_last();
    assert('0' <= word[word.len() - 1] <= '9');
    if word.len() == 1 {
        assert(front == Seq::<char>::empty());
        assert(decimal::digits_value(front) == 0);
        assert(word == seq![decimal::digit(n)]);
    } else {
        assert('0' <= word[0] <= '9');
        assert(decimal::all_digits(front)) by {
            assert forall|i: int| 0 <= i < front.len() implies '0' <= #[trigger] front[i]
                <= '9' by {
                assert(front[i] == word[i]);
            }
        }
        assert(front[0] == word[0]);
        decimal::lemma_leading_digit(front);
        let v = decimal::digits_value(front) as nat;
        lemma_notation(front, v);
        assert(n == 10 * v + (word.last() as int - '0' as int));
        assert(n / 10 == v);
        assert(word == decimal::decimal(v).push(decimal::digit(n % 10)));
    }
}

/// A line of a command and numbers asks for these.
pub(crate) proof fn lemma_asks(command: Seq<char>, numbers: Seq<nat>)
    requires
        is_word(command),
    ensures
        asks(encode_utf8(spaced(number_words(command, numbers)) + "\r\n"@), command, numbers),
{
    let words = number_words(command, numbers);
    assert forall|i: int| 0 <= i < words.len() implies is_word(#[trigger] words[i]) && (i > 0
        ==> is_number(words[i], numbers[i - 1])) by {
        if i > 0 {
            law_decimal_is_shortest(numbers[i - 1]);
            assert(words[i] == decimal::decimal(numbers[i - 1]));
        }
    }
    let line = encode_utf8(spaced(words) + "\r\n"@);
    lemma_request(words, seq![]);
    assert(line + Seq::<u8>::empty() == line);
}

/// A request asks for one list of numbers.
pub(crate) proof fn lemma_asks_once(
    request: Seq<u8>,
    command: Seq<char>,
    numbers: Seq<nat>,
    others: Seq<nat>,
)
    requires
        asks(request, command, numbers),
        asks(request, command, others),
    ensures
        numbers == others,
{
    let words = request_words(request);
    assert forall|i: int| 0 <= i < numbers.len() implies numbers[i] == others[i] by {
        assert(is_number(words[i + 1], numbers[i]));
        assert(is_number(words[i + 1], others[i]));
    }
    assert(numbers =~= others);
}

/// A line of a command and a name is read as these.
pub(crate) proof fn lemma_names(command: Seq<char>, name: Seq<char>)
    requires
        is_word(command),
    ensures
        ({
            let request = encode_utf8(command + seq![' '] + (name + "\r\n"@));
            &&& names_tube(request, command, name)
            &&& is_word(name) ==> request_words(request) == seq![command, name]
                && after_first_line(request).len() == 0
        }),
{
    let line = command + seq![' '] + (name + "\r\n"@);
    encode_utf8_decode_utf8(line);
    laws::lemma_halves_at(command, ' ', name + "\r\n"@);
    if is_word(name) {
        let words = seq![command, name];
        assert forall|i: int| 0 <= i < words.len() implies is_word(#[trigger] words[i]) by {}
        assert(words.drop_first() == seq![name]);
        assert(spaced(words.drop_first()) == name);
        assert(line == spaced(words) + "\r\n"@);
        lemma_request(words, seq![]);
        assert(encode_utf8(line) + Seq::<u8>::empty() == encode_utf8(line));
    }
}

} // verus!
