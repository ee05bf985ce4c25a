//! The text operations that the reply grammar is written in.
//!
//! The functions find their way by the UTF-8 bytes of a `&str` and are specified over its
//! characters.
use crate::encoding;
use vstd::prelude::*;
use vstd::utf8::*;

verus! {

/// The characters that count as blank at the end of a line.
#[derive(Clone, Copy)]
pub enum Blank {
    /// The characters with the Unicode property `White_Space`.
    Unicode,
    /// Space, tab, line feed, form feed and carriage return.
    Ascii,
}

/// Whether `c` counts as blank.
pub open spec fn is_blank(c: char, blank: Blank) -> bool {
    match blank {
        Blank::Unicode => {
            ||| '\u{9}' <= c <= '\u{d}'
            ||| c == ' '
            ||| c == '\u{85}'
            ||| c == '\u{a0}'
            ||| c == '\u{1680}'
            ||| '\u{2000}' <= c <= '\u{200a}'
            ||| c == '\u{2028}'
            ||| c == '\u{2029}'
            ||| c == '\u{202f}'
            ||| c == '\u{205f}'
            ||| c == '\u{3000}'
        },
        Blank::Ascii => c == ' ' || c == '\t' || c == '\n' || c == '\u{c}' || c == '\r',
    }
}

/// `s` without the blank characters at its end.
pub open spec fn trimmed(s: Seq<char>, blank: Blank) -> Seq<char>
    decreases s.len(),
{
    if s.len() > 0 && is_blank(s.last(), blank) {
        trimmed(s.drop_last(), blank)
    } else {
        s
    }
}

/// What follows the prefix `p` in `s`, if `s` starts with `p`.
pub open spec fn after_prefix(s: Seq<char>, p: Seq<char>) -> Option<Seq<char>> {
    if p.is_prefix_of(s) {
        Some(s.skip(p.len() as int))
    } else {
        None
    }
}

/// Whether `pat` stands in `s` at position `i`.
pub open spec fn occurs_at(s: Seq<char>, pat: Seq<char>, i: int) -> bool {
    0 <= i <= s.len() && pat.is_prefix_of(s.skip(i))
}

/// The first position at which `pat` stands in `s`.
pub open spec fn first_position(s: Seq<char>, pat: Seq<char>) -> Option<int>
    decreases s.len(),
{
    if pat.is_prefix_of(s) {
        Some(0)
    } else if s.len() == 0 {
        None
    } else {
        match first_position(s.skip(1), pat) {
            Some(i) => Some(i + 1),
            None => None,
        }
    }
}

/// The parts of `s` before and after the first `pat` in it.
pub open spec fn halves(s: Seq<char>, pat: Seq<char>) -> Option<(Seq<char>, Seq<char>)> {
    match first_position(s, pat) {
        Some(i) => Some((s.take(i), s.skip(i + pat.len()))),
        None => None,
    }
}

/// A line without the carriage return at its end.
pub open spec fn without_cr(line: Seq<char>) -> Seq<char> {
    if line.len() > 0 && line.last() == '\r' {
        line.drop_last()
    } else {
        line
    }
}

/// The lines of `s`. A line ends with `\n` or `\r\n`; the last one may go without.
pub open spec fn lines_of(s: Seq<char>) -> Seq<Seq<char>>
    decreases s.len(),
{
    if s.len() == 0 {
        seq![]
    } else {
        match halves(s, seq!['\n']) {
            Some((head, tail)) => {
                proof {
                    lemma_first_position(s, seq!['\n']);
                }
                seq![without_cr(head)] + lines_of(tail)
            },
            None => seq![s],
        }
    }
}

/// The first position of a pattern is one at which it stands, and there is no earlier one.
pub proof fn lemma_first_position(s: Seq<char>, pat: Seq<char>)
    ensures
        match first_position(s, pat) {
            Some(i) => occurs_at(s, pat, i) && forall|j: int| 0 <= j < i ==> !occurs_at(s, pat, j),
            None => forall|j: int| !occurs_at(s, pat, j),
        },
    decreases s.len(),
{
    assert(s.skip(0) == s);
    if !pat.is_prefix_of(s) && s.len() > 0 {
        lemma_first_position(s.skip(1), pat);
        assert forall|j: int| 0 < j <= s.len() implies occurs_at(s, pat, j) == occurs_at(
            s.skip(1),
            pat,
            j - 1,
        ) by {
            assert(s.skip(j) == s.skip(1).skip(j - 1));
        }
    }
}

/// Where a pattern stands with no earlier place, that place is its first position.
pub proof fn lemma_first_position_is(s: Seq<char>, pat: Seq<char>, i: int)
    requires
        occurs_at(s, pat, i),
        forall|j: int| 0 <= j < i ==> !occurs_at(s, pat, j),
    ensures
        first_position(s, pat) == Some(i),
{
    lemma_first_position(s, pat);
}

/// The encoding of a text is that of its first `k` characters and that of the rest.
proof fn lemma_encode_cut(s: Seq<char>, k: int)
    requires
        0 <= k <= s.len(),
    ensures
        encode_utf8(s) == encode_utf8(s.take(k)) + encode_utf8(s.skip(k)),
{
    encoding::lemma_encode_concat(s.take(k), s.skip(k));
    assert(s.take(k) + s.skip(k) == s);
}

/// The encoding of a text with a character in it is not empty.
proof fn lemma_encode_nonempty(s: Seq<char>)
    requires
        s.len() > 0,
    ensures
        encode_utf8(s).len() > 0,
{
    assert(encode_utf8(s).len() >= encode_scalar(s[0] as u32).len());
}

/// Cutting an encoding at the end of a character is cutting it on a character boundary.
proof fn lemma_cut_is_boundary(s: Seq<char>, k: int)
    requires
        0 <= k <= s.len(),
    ensures
        is_char_boundary(encode_utf8(s), encode_utf8(s.take(k)).len() as int),
    decreases k,
{
    encode_utf8_valid_utf8(s);
    let bytes = encode_utf8(s);
    if k == 0 {
        assert(encode_utf8(s.take(0)).len() == 0);
    } else {
        encode_utf8_first_scalar(s);
        let t = s.drop_first();
        lemma_cut_is_boundary(t, k - 1);
        encode_utf8_valid_utf8(t);
        assert(pop_first_scalar(bytes) == encode_utf8(t));
        assert(s.take(k).drop_first() == t.take(k - 1));
        assert(s.take(k)[0] == s[0]);
        lemma_encode_cut(s, k);
    }
}

/// What stands on the two sides of a character boundary are encodings: those of the first
/// characters and of the others.
proof fn lemma_boundary_is_cut(s: Seq<char>, i: int) -> (k: int)
    requires
        0 <= i <= encode_utf8(s).len(),
        is_char_boundary(encode_utf8(s), i),
    ensures
        0 <= k <= s.len(),
        encode_utf8(s.take(k)) == encode_utf8(s).subrange(0, i),
        encode_utf8(s.skip(k)) == encode_utf8(s).subrange(i, encode_utf8(s).len() as int),
{
    let bytes = encode_utf8(s);
    encode_utf8_valid_utf8(s);
    encode_utf8_decode_utf8(s);
    let b1 = bytes.subrange(0, i);
    let b2 = bytes.subrange(i, bytes.len() as int);
    valid_utf8_split(bytes, i);
    decode_utf8_split(bytes, i);
    decode_utf8_encode_utf8(b1);
    decode_utf8_encode_utf8(b2);
    let k = decode_utf8(b1).len() as int;
    assert(s == decode_utf8(b1) + decode_utf8(b2));
    assert(s.take(k) == decode_utf8(b1));
    assert(s.skip(k) == decode_utf8(b2));
    k
}

/// Whether the bytes of `pat` stand in `bytes` at position `at`.
spec fn stands_at(bytes: Seq<u8>, pat: Seq<u8>, at: int) -> bool {
    at + pat.len() <= bytes.len() && bytes.subrange(at, at + pat.len()) == pat
}

/// Where a pattern stands in a text, its bytes stand in the bytes of the text.
proof fn lemma_occurs_in_bytes(s: Seq<char>, pat: Seq<char>, j: int)
    requires
        occurs_at(s, pat, j),
        pat.len() > 0,
    ensures
        stands_at(encode_utf8(s), encode_utf8(pat), encode_utf8(s.take(j)).len() as int),
        encode_utf8(s.take(j)).len() < encode_utf8(s).len(),
{
    lemma_encode_cut(s, j);
    lemma_encode_cut(s.skip(j), pat.len() as int);
    assert(s.skip(j).take(pat.len() as int) == pat);
    lemma_encode_nonempty(pat);
    let at = encode_utf8(s.take(j)).len() as int;
    let n = encode_utf8(pat).len();
    assert(encode_utf8(s).subrange(at, at + n) == encode_utf8(pat));
}

/// The first place at which the bytes of a pattern stand is the end of the characters before
/// the first place at which the pattern stands.
proof fn lemma_found(s: Seq<char>, pat: Seq<char>, i: int) -> (k: int)
    requires
        0 <= i < encode_utf8(s).len(),
        pat.len() > 0,
        stands_at(encode_utf8(s), encode_utf8(pat), i),
        forall|j: int| 0 <= j < i ==> !stands_at(encode_utf8(s), encode_utf8(pat), j),
    ensures
        0 <= k <= s.len(),
        first_position(s, pat) == Some(k),
        pat.is_prefix_of(s.skip(k)),
        is_char_boundary(encode_utf8(s), i),
        encode_utf8(s.take(k)) == encode_utf8(s).subrange(0, i),
        encode_utf8(s.skip(k)) == encode_utf8(s).subrange(i, encode_utf8(s).len() as int),
{
    let bytes = encode_utf8(s);
    let pb = encode_utf8(pat);
    lemma_encode_nonempty(pat);
    encode_utf8_valid_utf8(s);
    encode_utf8_valid_utf8(pat);
    encode_utf8_first_scalar(pat);
    assert(bytes[i] == pb[0]) by {
        assert(bytes.subrange(i, i + pb.len())[0] == pb[0]);
    }
    assert(!is_continuation_byte(bytes[i]));
    is_char_boundary_iff_not_is_continuation_byte(bytes, i);
    let k = lemma_boundary_is_cut(s, i);
    let tail = bytes.subrange(i, bytes.len() as int);
    assert(tail == pb + tail.skip(pb.len() as int));
    encoding::lemma_encode_prefix(s.skip(k), pat, tail.skip(pb.len() as int));
    assert forall|j: int| 0 <= j < k implies !occurs_at(s, pat, j) by {
        if occurs_at(s, pat, j) {
            lemma_occurs_in_bytes(s, pat, j);
            lemma_encode_cut(s.take(k), j);
            assert(s.take(k).take(j) == s.take(j));
            lemma_encode_nonempty(s.take(k).skip(j));
            let at = encode_utf8(s.take(j)).len() as int;
            assert(encode_utf8(s.take(k)).len() == i);
            assert(0 <= at < i);
            assert(stands_at(bytes, pb, at));
        }
    }
    lemma_first_position_is(s, pat, k);
    k
}

/// Whether the two texts are the same.
pub fn same(a: &str, b: &str) -> (r: bool)
    ensures
        r == (a@ == b@),
{
    let x = a.as_bytes();
    let y = b.as_bytes();
    if x.len() != y.len() {
        return false;
    }
    let mut i: usize = 0;
    while i < x.len()
        invariant
            i <= x@.len(),
            x@.len() == y@.len(),
            x@ == encode_utf8(a@),
            y@ == encode_utf8(b@),
            x@.take(i as int) == y@.take(i as int),
        decreases x@.len() - i,
    {
        if x[i] != y[i] {
            return false;
        }
        proof {
            assert(x@.take(i + 1) == x@.take(i as int).push(x@[i as int]));
            assert(y@.take(i + 1) == y@.take(i as int).push(y@[i as int]));
        }
        i = i + 1;
    }
    proof {
        assert(x@.take(i as int) == x@);
        assert(y@.take(i as int) == y@);
        encoding::lemma_encode_injective(a@, b@);
    }
    true
}

/// Whether the bytes of `pat` stand in `bytes` at position `at`.
fn bytes_at(bytes: &[u8], pat: &[u8], at: usize) -> (r: bool)
    requires
        at <= bytes@.len(),
    ensures
        r == stands_at(bytes@, pat@, at as int),
{
    if pat.len() > bytes.len() - at {
        return false;
    }
    let mut i: usize = 0;
    while i < pat.len()
        invariant
            i <= pat@.len(),
            at + pat@.len() <= bytes@.len() <= usize::MAX,
            forall|j: int| 0 <= j < i ==> bytes@[at + j] == pat@[j],
        decreases pat@.len() - i,
    {
        if bytes[at + i] != pat[i] {
            proof {
                assert(bytes@.subrange(at as int, at + pat@.len())[i as int] == bytes@[at + i]);
            }
            return false;
        }
        i = i + 1;
    }
    proof {
        assert(bytes@.subrange(at as int, at + pat@.len()) =~= pat@);
    }
    true
}

/// Whether `s` starts with `p`.
pub fn starts_with(s: &str, p: &str) -> (r: bool)
    ensures
        r == p@.is_prefix_of(s@),
{
    let bytes = s.as_bytes();
    let pat = p.as_bytes();
    let r = bytes_at(bytes, pat, 0);
    proof {
        if r {
            let rest = bytes@.skip(pat@.len() as int);
            assert(bytes@ == pat@ + rest);
            encoding::lemma_encode_prefix(s@, p@, rest);
        } else if p@.is_prefix_of(s@) {
            lemma_encode_cut(s@, p@.len() as int);
            assert(s@.take(p@.len() as int) == p@);
            assert(bytes@.subrange(0, pat@.len() as int) == pat@);
        }
    }
    r
}

/// What follows the prefix `p` in `s`, if `s` starts with `p`.
pub fn strip_prefix<'a>(s: &'a str, p: &str) -> (r: Option<&'a str>)
    ensures
        r.deep_view() == after_prefix(s@, p@),
{
    if !starts_with(s, p) {
        return None;
    }
    let pat = p.as_bytes();
    proof {
        lemma_cut_is_boundary(s@, p@.len() as int);
        assert(s@.take(p@.len() as int) == p@);
        lemma_encode_cut(s@, p@.len() as int);
    }
    let (_, rest) = s.split_at(pat.len());
    proof {
        assert(encode_utf8(rest@) == encode_utf8(s@.skip(p@.len() as int)));
        encoding::lemma_encode_injective(rest@, s@.skip(p@.len() as int));
    }
    Some(rest)
}

/// The parts of `s` before and after the first `pat` in it.
pub fn split_once<'a>(s: &'a str, pat: &str) -> (r: Option<(&'a str, &'a str)>)
    requires
        pat@.len() > 0,
    ensures
        r.deep_view() == halves(s@, pat@),
{
    let bytes = s.as_bytes();
    let pb = pat.as_bytes();
    let mut i: usize = 0;
    while i < bytes.len()
        invariant
            i <= bytes@.len(),
            bytes@ == encode_utf8(s@),
            pb@ == encode_utf8(pat@),
            pat@.len() > 0,
            forall|j: int| 0 <= j < i ==> !stands_at(bytes@, pb@, j),
        decreases bytes@.len() - i,
    {
        if bytes_at(bytes, pb, i) {
            let ghost k = lemma_found(s@, pat@, i as int);
            let (head, tail) = s.split_at(i);
            proof {
                encoding::lemma_encode_injective(head@, s@.take(k));
                encoding::lemma_encode_injective(tail@, s@.skip(k));
                lemma_encode_cut(tail@, pat@.len() as int);
                assert(tail@.take(pat@.len() as int) == pat@);
                lemma_cut_is_boundary(tail@, pat@.len() as int);
            }
            let (_, rest) = tail.split_at(pb.len());
            proof {
                assert(encode_utf8(rest@) == encode_utf8(tail@.skip(pat@.len() as int)));
                encoding::lemma_encode_injective(rest@, tail@.skip(pat@.len() as int));
                assert(s@.skip(k).skip(pat@.len() as int) == s@.skip(k + pat@.len()));
            }
            return Some((head, rest));
        }
        i = i + 1;
    }
    proof {
        assert forall|j: int| !occurs_at(s@, pat@, j) by {
            if occurs_at(s@, pat@, j) {
                lemma_occurs_in_bytes(s@, pat@, j);
            }
        }
        lemma_first_position(s@, pat@);
    }
    None
}

/// A text is trimmed to its first `k` characters where all others are blank and the last of
/// the first `k` is not.
pub proof fn lemma_trimmed(s: Seq<char>, blank: Blank, k: int)
    requires
        0 <= k <= s.len(),
        forall|j: int| k <= j < s.len() ==> is_blank(s[j], blank),
        k > 0 ==> !is_blank(s[k - 1], blank),
    ensures
        trimmed(s, blank) == s.take(k),
    decreases s.len(),
{
    if k == s.len() {
        assert(s.take(k) == s);
    } else {
        lemma_trimmed(s.drop_last(), blank, k);
        assert(s.drop_last().take(k) == s.take(k));
    }
}

/// Whether `c` counts as blank.
fn blank_char(c: char, blank: Blank) -> (r: bool)
    ensures
        r == is_blank(c, blank),
{
    match blank {
        Blank::Unicode => {
            ('\u{9}' <= c && c <= '\u{d}') || c == ' ' || c == '\u{85}' || c == '\u{a0}' || c
                == '\u{1680}' || ('\u{2000}' <= c && c <= '\u{200a}') || c == '\u{2028}' || c
                == '\u{2029}' || c == '\u{202f}' || c == '\u{205f}' || c == '\u{3000}'
        },
        Blank::Ascii => c == ' ' || c == '\t' || c == '\n' || c == '\u{c}' || c == '\r',
    }
}

/// The number of bytes that encode `c`.
fn width(c: char) -> (r: usize)
    ensures
        r == encode_scalar(c as u32).len(),
{
    if c <= '\u{7f}' {
        1
    } else if c <= '\u{7ff}' {
        2
    } else if c <= '\u{ffff}' {
        3
    } else {
        4
    }
}

/// `s` without the blank characters at its end.
pub fn trim_end(s: &str, blank: Blank) -> (r: &str)
    ensures
        r@ == trimmed(s@, blank),
{
    let n = s.as_bytes().len();
    let mut pos: usize = 0;
    let mut end: usize = 0;
    let ghost mut k: int = 0;
    proof {
        assert(s@.take(0) == Seq::<char>::empty());
    }
    for c in it: s.chars()
        invariant
            n == encode_utf8(s@).len(),
            it.seq() == s@,
            0 <= k <= it.index() <= s@.len(),
            pos == encode_utf8(s@.take(it.index() as int)).len(),
            end == encode_utf8(s@.take(k)).len(),
            forall|j: int| k <= j < it.index() ==> is_blank(s@[j], blank),
            k > 0 ==> !is_blank(s@[k - 1], blank),
    {
        proof {
            let i = it.index() as int;
            assert(s@[i] == c);
            assert(s@.take(i + 1) == s@.take(i) + seq![c]);
            encoding::lemma_encode_concat(s@.take(i), seq![c]);
            assert(seq![c].drop_first() == Seq::<char>::empty());
            assert(encode_utf8(seq![c]) == encode_scalar(c as u32) + encode_utf8(
                seq![c].drop_first(),
            ));
            lemma_encode_cut(s@, i + 1);
        }
        pos = pos + width(c);
        if !blank_char(c, blank) {
            end = pos;
            proof {
                k = it.index() + 1;
            }
        }
    }
    proof {
        lemma_trimmed(s@, blank, k);
        lemma_cut_is_boundary(s@, k);
        lemma_encode_cut(s@, k);
    }
    let (head, _) = s.split_at(end);
    proof {
        assert(encode_utf8(head@) == encode_utf8(s@.take(k)));
        encoding::lemma_encode_injective(head@, s@.take(k));
    }
    head
}

/// A line without the carriage return at its end.
fn strip_cr(line: &str) -> (r: &str)
    ensures
        r@ == without_cr(line@),
{
    let bytes = line.as_bytes();
    let n = bytes.len();
    proof {
        let cr = seq!['\r'];
        assert(encode_utf8(cr) == encode_scalar('\r' as u32) + encode_utf8(cr.drop_first()));
        assert(cr.drop_first() == Seq::<char>::empty());
        assert(13u32 & 0x7f == 13) by (bit_vector);
        assert(encode_utf8(cr) == seq![13u8]);
        if line@.len() > 0 && line@.last() == '\r' {
            lemma_encode_cut(line@, line@.len() - 1);
            assert(line@.skip(line@.len() - 1) == cr);
            assert(bytes@[n - 1] == 13u8);
        }
    }
    if n == 0 || bytes[n - 1] != 13u8 {
        return line;
    }
    let ghost mut k: int = 0;
    proof {
        encode_utf8_valid_utf8(line@);
        is_char_boundary_iff_not_is_continuation_byte(bytes@, n - 1);
        k = lemma_boundary_is_cut(line@, n - 1);
        assert(bytes@.subrange(n - 1, n as int) == seq![13u8]);
        encoding::lemma_encode_injective(line@.skip(k), seq!['\r']);
        assert(line@.skip(k)[0] == '\r');
        assert(line@.take(k) == line@.drop_last());
    }
    let (head, _) = line.split_at(n - 1);
    proof {
        encoding::lemma_encode_injective(head@, line@.take(k));
    }
    head
}

/// The lines of `s`.
pub fn lines<'a>(s: &'a str) -> (r: Vec<&'a str>)
    ensures
        r.deep_view() == lines_of(s@),
{
    let mut r: Vec<&'a str> = Vec::new();
    let mut rest: &'a str = s;
    proof {
        assert(r.deep_view() == Seq::<Seq<char>>::empty());
    }
    while !rest.is_empty()
        invariant
            r.deep_view() + lines_of(rest@) == lines_of(s@),
        decreases rest@.len(),
    {
        let ghost done = r.deep_view();
        proof {
            reveal_strlit("\n");
            assert("\n"@ == seq!['\n']);
            lemma_first_position(rest@, "\n"@);
        }
        match split_once(rest, "\n") {
            Some((head, tail)) => {
                let line = strip_cr(head);
                r.push(line);
                proof {
                    assert(r.deep_view() == done.push(line@));
                    assert(done + (seq![line@] + lines_of(tail@)) == done.push(line@) + lines_of(
                        tail@,
                    ));
                }
                rest = tail;
            },
            None => {
                r.push(rest);
                proof {
                    assert(r.deep_view() == done.push(rest@));
                    assert(done + seq![rest@] == done.push(rest@));
                }
                return r;
            },
        }
    }
    proof {
        assert(r.deep_view() + lines_of(rest@) == r.deep_view());
    }
    r
}

} // verus!
