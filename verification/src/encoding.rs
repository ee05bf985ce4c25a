//! Facts about the UTF-8 encoding of character sequences.
use vstd::prelude::*;
use vstd::utf8::*;

verus! {

/// The encoding of a concatenation is the concatenation of the encodings.
pub proof fn lemma_encode_concat(a: Seq<char>, b: Seq<char>)
    ensures
        encode_utf8(a + b) == encode_utf8(a) + encode_utf8(b),
    decreases a.len(),
{
    if a.len() == 0 {
        assert(a + b == b);
        assert(encode_utf8(a) + encode_utf8(b) == encode_utf8(b));
    } else {
        assert((a + b).drop_first() == a.drop_first() + b);
        lemma_encode_concat(a.drop_first(), b);
        assert(encode_utf8(a + b) == encode_scalar(a[0] as u32) + encode_utf8(
            a.drop_first() + b,
        ));
    }
}

/// Two character sequences with the same encoding are the same.
pub proof fn lemma_encode_injective(a: Seq<char>, b: Seq<char>)
    requires
        encode_utf8(a) == encode_utf8(b),
    ensures
        a == b,
{
    encode_utf8_decode_utf8(a);
    encode_utf8_decode_utf8(b);
}

/// An encoding that starts with the bytes of `p` is the encoding of a sequence that starts
/// with `p`.
pub proof fn lemma_encode_prefix(s: Seq<char>, p: Seq<char>, rest: Seq<u8>)
    requires
        encode_utf8(s) == encode_utf8(p) + rest,
    ensures
        p.len() <= s.len(),
        s.subrange(0, p.len() as int) == p,
        encode_utf8(s.subrange(p.len() as int, s.len() as int)) == rest,
    decreases p.len(),
{
    if p.len() == 0 {
        assert(s.subrange(0, 0) == p);
        assert(s.subrange(0, s.len() as int) == s);
        assert(encode_utf8(p) + rest == rest);
    } else {
        encode_utf8_first_scalar(p);
        if s.len() == 0 {
            assert(encode_utf8(s).len() == 0);
            assert(false);
        }
        encode_utf8_first_scalar(s);
        let c = p[0];
        let cb = encode_scalar(c as u32);
        assert(encode_utf8(p) == cb + encode_utf8(p.drop_first()));
        assert(decode_first_scalar(encode_utf8(s)) == decode_first_scalar(encode_utf8(p)));
        char_u32_cast(s[0], decode_first_scalar(encode_utf8(s)));
        char_u32_cast(p[0], decode_first_scalar(encode_utf8(p)));
        assert(s[0] == p[0]);
        assert(encode_utf8(s) == cb + encode_utf8(s.drop_first()));
        assert(encode_utf8(s.drop_first()) == encode_utf8(s).subrange(
            cb.len() as int,
            encode_utf8(s).len() as int,
        ));
        assert(encode_utf8(p.drop_first()) + rest == encode_utf8(s).subrange(
            cb.len() as int,
            encode_utf8(s).len() as int,
        ));
        lemma_encode_prefix(s.drop_first(), p.drop_first(), rest);
        assert(s.subrange(0, p.len() as int) == p) by {
            assert forall|i: int| 0 <= i < p.len() implies s[i] == p[i] by {
                if i > 0 {
                    assert(s.drop_first().subrange(0, p.len() - 1)[i - 1] == p.drop_first()[i - 1]);
                }
            }
        }
        assert(s.drop_first().subrange(p.len() - 1, s.len() - 1) == s.subrange(
            p.len() as int,
            s.len() as int,
        ));
    }
}

} // verus!
