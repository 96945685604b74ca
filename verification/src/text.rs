//! Positions in text. A position is a byte offset into the text's UTF-8
//! encoding; the functions here relate such offsets to the characters.

use vstd::prelude::*;
use vstd::utf8::*;

verus! {

/// The number of bytes that encode `c`.
pub open spec fn char_bytes(c: char) -> nat {
    encode_scalar(c as u32).len()
}

/// The number of bytes that encode `s`.
pub open spec fn byte_len(s: Seq<char>) -> nat {
    encode_utf8(s).len()
}

/// Whether the byte offset `off` into `s` lies between two characters, at the
/// start or at the end.
pub open spec fn on_boundary(s: Seq<char>, off: int) -> bool {
    is_char_boundary(encode_utf8(s), off)
}

/// The number of characters of `s` that are encoded within its first `off`
/// bytes.
pub open spec fn chars_before(s: Seq<char>, off: int) -> int
    decreases s.len(),
{
    if s.len() == 0 || off < char_bytes(s[0]) {
        0
    } else {
        1 + chars_before(s.drop_first(), off - char_bytes(s[0]))
    }
}

/// A character takes from one to four bytes.
pub proof fn lemma_char_bytes(c: char)
    ensures
        1 <= char_bytes(c) <= 4,
{
}

/// The encoding of a text is that of its first character, then that of the
/// rest.
pub proof fn lemma_encode_front(s: Seq<char>)
    requires
        s.len() > 0,
    ensures
        encode_utf8(s) == encode_scalar(s[0] as u32) + encode_utf8(s.drop_first()),
        byte_len(s) == char_bytes(s[0]) + byte_len(s.drop_first()),
        length_of_first_scalar(encode_utf8(s)) == char_bytes(s[0]),
        pop_first_scalar(encode_utf8(s)) == encode_utf8(s.drop_first()),
{
    encode_utf8_first_scalar(s);
    assert(pop_first_scalar(encode_utf8(s)) =~= encode_utf8(s.drop_first()));
}

/// The encoding of two texts joined is their encodings joined.
pub proof fn lemma_encode_concat(a: Seq<char>, b: Seq<char>)
    ensures
        encode_utf8(a + b) == encode_utf8(a) + encode_utf8(b),
        byte_len(a + b) == byte_len(a) + byte_len(b),
    decreases a.len(),
{
    if a.len() == 0 {
        assert(a + b =~= b);
        assert(encode_utf8(a) + encode_utf8(b) =~= encode_utf8(b));
    } else {
        assert((a + b)[0] == a[0]);
        assert((a + b).drop_first() =~= a.drop_first() + b);
        lemma_encode_concat(a.drop_first(), b);
        assert(encode_utf8(a + b) =~= encode_utf8(a) + encode_utf8(b));
    }
}

/// A text of one character takes the bytes of that character.
pub proof fn lemma_byte_len_one(c: char)
    ensures
        byte_len(seq![c]) == char_bytes(c),
{
    let s = seq![c];
    assert(s.drop_first() =~= Seq::<char>::empty());
    assert(encode_utf8(s.drop_first()) =~= Seq::<u8>::empty());
    assert(s[0] == c);
    assert(encode_utf8(s) =~= encode_scalar(c as u32));
}

/// The two parts of a text take its bytes between them.
pub proof fn lemma_byte_len_split(s: Seq<char>, k: int)
    requires
        0 <= k <= s.len(),
    ensures
        byte_len(s.take(k)) + byte_len(s.skip(k)) == byte_len(s),
        encode_utf8(s.take(k)) + encode_utf8(s.skip(k)) == encode_utf8(s),
{
    assert(s.take(k) + s.skip(k) =~= s);
    lemma_encode_concat(s.take(k), s.skip(k));
}

/// An offset between two characters is where a whole number of characters
/// ends: those that `chars_before` counts.
pub proof fn lemma_boundary_index(s: Seq<char>, off: int)
    requires
        on_boundary(s, off),
    ensures
        0 <= chars_before(s, off) <= s.len(),
        byte_len(s.take(chars_before(s, off))) == off,
        0 <= off <= byte_len(s),
    decreases s.len(),
{
    broadcast use encode_utf8_valid_utf8;

    if off == 0 {
        assert(s.take(0) =~= Seq::<char>::empty());
        if s.len() > 0 {
            lemma_char_bytes(s[0]);
        }
    } else if s.len() == 0 {
        assert(encode_utf8(s).len() == 0);
    } else {
        lemma_encode_front(s);
        lemma_char_bytes(s[0]);
        let rest = s.drop_first();
        let n = char_bytes(s[0]) as int;
        assert(is_char_boundary(encode_utf8(rest), off - n));
        lemma_boundary_index(rest, off - n);
        let k = chars_before(rest, off - n);
        assert(s.take(k + 1) =~= seq![s[0]] + rest.take(k));
        lemma_encode_concat(seq![s[0]], rest.take(k));
        lemma_byte_len_one(s[0]);
    }
}

/// Where the first `k` characters end is an offset between two characters,
/// with those `k` characters before it.
pub proof fn lemma_index_boundary(s: Seq<char>, k: int)
    requires
        0 <= k <= s.len(),
    ensures
        on_boundary(s, byte_len(s.take(k)) as int),
        chars_before(s, byte_len(s.take(k)) as int) == k,
    decreases s.len(),
{
    broadcast use encode_utf8_valid_utf8;

    if k == 0 {
        assert(s.take(0) =~= Seq::<char>::empty());
        if s.len() > 0 {
            lemma_char_bytes(s[0]);
        }
    } else {
        lemma_encode_front(s);
        lemma_char_bytes(s[0]);
        let rest = s.drop_first();
        lemma_index_boundary(rest, k - 1);
        assert(s.take(k) =~= seq![s[0]] + rest.take(k - 1));
        lemma_encode_concat(seq![s[0]], rest.take(k - 1));
        lemma_byte_len_one(s[0]);
        lemma_byte_len_split(s, k);
    }
}

/// Texts with the same encoding are the same.
pub proof fn lemma_encode_injective(a: Seq<char>, b: Seq<char>)
    requires
        encode_utf8(a) == encode_utf8(b),
    ensures
        a == b,
{
    encode_utf8_decode_utf8(a);
    encode_utf8_decode_utf8(b);
}

/// The bytes before an offset between two characters encode the characters
/// before it, and the bytes after it the others.
pub proof fn lemma_split_bytes(s: Seq<char>, off: int)
    requires
        on_boundary(s, off),
    ensures
        encode_utf8(s).subrange(0, off) == encode_utf8(s.take(chars_before(s, off))),
        encode_utf8(s).subrange(off, byte_len(s) as int) == encode_utf8(
            s.skip(chars_before(s, off)),
        ),
{
    lemma_boundary_index(s, off);
    let k = chars_before(s, off);
    lemma_byte_len_split(s, k);
    let a = encode_utf8(s.take(k));
    let b = encode_utf8(s.skip(k));
    assert((a + b).subrange(0, off) =~= a);
    assert((a + b).subrange(off, (a + b).len() as int) =~= b);
}

/// The length of `s` in bytes.
pub fn str_len(s: &str) -> (n: usize)
    ensures
        n == byte_len(s@),
{
    s.as_bytes().len()
}

/// Whether the byte offset `at` into `s` lies between two characters.
pub fn is_boundary(s: &str, at: usize) -> (r: bool)
    ensures
        r == on_boundary(s@, at as int),
{
    s.is_char_boundary(at)
}

/// Cuts `s` in two at the byte offset `at`.
pub fn split_str<'a>(s: &'a str, at: usize) -> (r: (&'a str, &'a str))
    requires
        on_boundary(s@, at as int),
    ensures
        r.0@ == s@.take(chars_before(s@, at as int)),
        r.1@ == s@.skip(chars_before(s@, at as int)),
{
    let r = s.split_at(at);
    proof {
        lemma_boundary_index(s@, at as int);
        lemma_split_bytes(s@, at as int);
        let k = chars_before(s@, at as int);
        lemma_encode_injective(r.0@, s@.take(k));
        lemma_encode_injective(r.1@, s@.skip(k));
    }
    r
}

/// The number of bytes that encode `c`.
pub fn utf8_len(c: char) -> (n: usize)
    ensures
        n == char_bytes(c),
{
    let v = c as u32;
    if v < 0x80 {
        1
    } else if v < 0x800 {
        2
    } else if v < 0x10000 {
        3
    } else {
        4
    }
}

/// Appends `c` to `s`, with `String::push`. That the string then holds its
/// characters and `c` behind them is what the documentation of `String::push`
/// says; it is not proved here.
#[verifier::external_body]
pub(crate) fn push_char(s: &mut String, c: char)
    ensures
        final(s)@ == old(s)@.push(c),
{
    s.push(c)
}

} // verus!
