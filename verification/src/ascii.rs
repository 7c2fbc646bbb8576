//! ASCII within UTF-8: a byte below 128 is a character of its own, so a text
//! holds an ASCII part exactly where its bytes hold that part's bytes.

use crate::text::{contains, occurs_at};
use vstd::prelude::*;
use vstd::utf8::{
    decode_utf8, decode_utf8_encode_utf8, decode_utf8_split, encode_utf8, is_ascii_chars,
    is_ascii_chars_encode_utf8, is_char_boundary, is_char_boundary_iff_is_leading_byte,
    pop_first_scalar, valid_utf8, valid_utf8_split,
};

verus! {

/// The characters whose codes are the bytes of `bytes`.
pub open spec fn ascii_chars(bytes: Seq<u8>) -> Seq<char> {
    Seq::new(bytes.len(), |i: int| bytes[i] as char)
}

/// The bytes of two texts, one behind the other, are the bytes of the one
/// behind the bytes of the other.
pub proof fn lemma_encode_concat(a: Seq<char>, b: Seq<char>)
    ensures
        encode_utf8(a + b) == encode_utf8(a) + encode_utf8(b),
    decreases a.len(),
{
    if a.len() == 0 {
        assert(a + b =~= b);
        assert(encode_utf8(a) + encode_utf8(b) =~= encode_utf8(b));
    } else {
        lemma_encode_concat(a.drop_first(), b);
        assert((a + b).drop_first() =~= a.drop_first() + b);
        assert((a + b)[0] == a[0]);
        assert(encode_utf8(a + b) =~= encode_utf8(a) + encode_utf8(b));
    }
}

/// UTF-8 that starts with a byte below 128 starts with the character of
/// that code, and what follows the byte is UTF-8 again.
pub proof fn lemma_ascii_first(s: Seq<u8>)
    requires
        valid_utf8(s),
        s.len() > 0,
        s[0] < 0x80,
    ensures
        valid_utf8(s.skip(1)),
        decode_utf8(s) == seq![s[0] as char] + decode_utf8(s.skip(1)),
{
    let first = s[0];
    assert(first & 0x7f == first) by (bit_vector)
        requires
            first < 0x80,
    ;
    assert(pop_first_scalar(s) =~= s.skip(1));
}

/// UTF-8 that starts with `n` bytes below 128 starts with the characters of
/// those codes, and what follows them is UTF-8 again.
pub proof fn lemma_ascii_prefix(s: Seq<u8>, n: int)
    requires
        valid_utf8(s),
        0 <= n <= s.len(),
        forall|i: int| 0 <= i < n ==> s[i] < 0x80,
    ensures
        valid_utf8(s.skip(n)),
        decode_utf8(s) == ascii_chars(s.take(n)) + decode_utf8(s.skip(n)),
    decreases n,
{
    if n == 0 {
        assert(s.skip(0) =~= s);
        assert(ascii_chars(s.take(0)) + decode_utf8(s) =~= decode_utf8(s));
    } else {
        lemma_ascii_first(s);
        let rest = s.skip(1);
        assert forall|i: int| 0 <= i < n - 1 implies rest[i] < 0x80 by {
            assert(rest[i] == s[i + 1]);
        }
        lemma_ascii_prefix(rest, n - 1);
        assert(rest.skip(n - 1) =~= s.skip(n));
        assert(seq![s[0] as char] + ascii_chars(rest.take(n - 1)) =~= ascii_chars(s.take(n)));
        assert(decode_utf8(s) =~= ascii_chars(s.take(n)) + decode_utf8(s.skip(n)));
    }
}

/// UTF-8 starts with the byte of an ASCII character exactly where the text
/// starts with that character.
pub proof fn lemma_first_char(bytes: Seq<u8>, c: char)
    requires
        valid_utf8(bytes),
        c <= '\u{7f}',
    ensures
        (bytes.len() > 0 && bytes[0] == c as u8) <==> (decode_utf8(bytes).len() > 0 && decode_utf8(
            bytes,
        )[0] == c),
{
    let text = decode_utf8(bytes);
    if bytes.len() > 0 && bytes[0] == c as u8 {
        lemma_ascii_first(bytes);
        assert(text[0] == bytes[0] as char);
    }
    if text.len() > 0 && text[0] == c {
        let head = seq![c];
        assert(text =~= head + text.skip(1));
        decode_utf8_encode_utf8(bytes);
        lemma_encode_concat(head, text.skip(1));
        assert(is_ascii_chars(head));
        is_ascii_chars_encode_utf8(head);
        assert(encode_utf8(head)[0] == head[0] as u8);
        assert(bytes[0] == encode_utf8(head)[0]);
    }
}

/// A text holds an ASCII part exactly where its bytes hold the part's bytes:
/// for bytes that are UTF-8 and a part that is ASCII and not empty, the
/// bytes hold the part's encoding if and only if the text decoded holds the part.
pub proof fn lemma_contains_ascii(bytes: Seq<u8>, part: Seq<char>)
    requires
        valid_utf8(bytes),
        is_ascii_chars(part),
        part.len() > 0,
    ensures
        contains(bytes, encode_utf8(part)) <==> contains(decode_utf8(bytes), part),
{
    let text = decode_utf8(bytes);
    let code = encode_utf8(part);
    is_ascii_chars_encode_utf8(part);
    if contains(bytes, code) {
        let at = choose|at: int| occurs_at(bytes, code, at);
        assert(bytes[at] == bytes.subrange(at, at + code.len())[0]);
        assert(bytes[at] == part[0] as u8);
        is_char_boundary_iff_is_leading_byte(bytes, at);
        assert(is_char_boundary(bytes, at));
        valid_utf8_split(bytes, at);
        decode_utf8_split(bytes, at);
        let before = bytes.subrange(0, at);
        let from = bytes.subrange(at, bytes.len() as int);
        assert forall|i: int| 0 <= i < code.len() implies from[i] < 0x80 by {
            assert(from[i] == bytes.subrange(at, at + code.len())[i]);
            assert(code[i] == part[i] as u8);
        }
        lemma_ascii_prefix(from, code.len() as int);
        assert(from.take(code.len() as int) =~= code);
        assert(ascii_chars(code) =~= part) by {
            assert forall|i: int| 0 <= i < part.len() implies ascii_chars(code)[i] == part[i] by {
                assert(code[i] == part[i] as u8);
            }
        }
        let k = decode_utf8(before).len() as int;
        assert(text.subrange(k, k + part.len()) =~= part);
        assert(occurs_at(text, part, k));
    }
    if contains(text, part) {
        let at = choose|at: int| occurs_at(text, part, at);
        let before = text.take(at);
        let behind = text.skip(at + part.len());
        assert(text =~= before + part + behind);
        decode_utf8_encode_utf8(bytes);
        lemma_encode_concat(before + part, behind);
        lemma_encode_concat(before, part);
        let k = encode_utf8(before).len() as int;
        assert(bytes == encode_utf8(before) + code + encode_utf8(behind));
        assert(bytes.subrange(k, k + code.len()) =~= code);
        assert(occurs_at(bytes, code, k));
    }
}

} // verus!
