//! Percent-encoding of text for URLs, and its decoding.

use crate::text::{ascii_bytes, decode_text};
use vstd::prelude::*;
use vstd::utf8::{
    decode_utf8, encode_utf8, encode_utf8_decode_utf8, encode_utf8_valid_utf8, is_ascii_chars,
    is_ascii_chars_encode_utf8, valid_utf8,
};

verus! {

/// Whether a byte stands for itself in encoded text: an ASCII letter or
/// digit, or one of `-`, `_`, `.`, `~`.
pub open spec fn is_unreserved(b: u8) -> bool {
    ||| 0x41 <= b <= 0x5A
    ||| 0x61 <= b <= 0x7A
    ||| 0x30 <= b <= 0x39
    ||| b == 0x2D
    ||| b == 0x5F
    ||| b == 0x2E
    ||| b == 0x7E
}

/// The upper-case hexadecimal digit for a value below 16.
pub open spec fn hex_upper(n: int) -> char {
    if n < 10 {
        ((0x30 + n) as u8) as char
    } else {
        ((0x41 + n - 10) as u8) as char
    }
}

/// How one byte is written: as itself where it is unreserved, else as `%` and
/// its two hexadecimal digits in upper case.
pub open spec fn encode_byte(b: u8) -> Seq<char> {
    if is_unreserved(b) {
        seq![b as char]
    } else {
        seq!['%', hex_upper(b as int / 16), hex_upper(b as int % 16)]
    }
}

/// The encoding of a sequence of bytes.
pub open spec fn encode_bytes(bytes: Seq<u8>) -> Seq<char>
    decreases bytes.len(),
{
    if bytes.len() == 0 {
        Seq::empty()
    } else {
        encode_bytes(bytes.drop_last()) + encode_byte(bytes.last())
    }
}

/// The value of a hexadecimal digit, in either case.
pub open spec fn hex_value(b: u8) -> Option<u8> {
    if 0x30 <= b <= 0x39 {
        Some((b - 0x30) as u8)
    } else if 0x61 <= b <= 0x66 {
        Some((b - 0x61 + 10) as u8)
    } else if 0x41 <= b <= 0x46 {
        Some((b - 0x41 + 10) as u8)
    } else {
        None
    }
}

/// `first`, then the bytes of `rest`, where there are any.
pub open spec fn prepend(first: Seq<u8>, rest: Option<Seq<u8>>) -> Option<Seq<u8>> {
    match rest {
        Some(r) => Some(first + r),
        None => None,
    }
}

/// The bytes that `bytes` decodes to from `from` on. A `%` with at least two
/// bytes after it stands for the byte that those two write as hexadecimal
/// digits, and there is no decoding where they are no such digits. Every other
/// byte, a `%` near the end too, stands for itself.
pub open spec fn decode_from(bytes: Seq<u8>, from: int) -> Option<Seq<u8>>
    decreases bytes.len() - from,
{
    if from < 0 || from >= bytes.len() {
        Some(Seq::empty())
    } else if bytes[from] == 0x25 && from + 2 < bytes.len() {
        match (hex_value(bytes[from + 1]), hex_value(bytes[from + 2])) {
            (Some(h), Some(l)) => prepend(seq![(h * 16 + l) as u8], decode_from(bytes, from + 3)),
            _ => None,
        }
    } else {
        prepend(seq![bytes[from]], decode_from(bytes, from + 1))
    }
}

/// The text that `input` decodes to: its bytes are decoded, and the result must
/// be UTF-8.
pub open spec fn percent_decoded(input: Seq<char>) -> Option<Seq<char>> {
    match decode_from(encode_utf8(input), 0) {
        Some(bytes) => if valid_utf8(bytes) {
            Some(decode_utf8(bytes))
        } else {
            None
        },
        None => None,
    }
}

/// The upper-case hexadecimal digit for `n`.
fn hex_upper_char(n: u8) -> (c: char)
    requires
        n < 16,
    ensures
        c == hex_upper(n as int),
{
    if n < 10 {
        (0x30 + n) as char
    } else {
        (0x41 + n - 10) as char
    }
}

/// Encodes `input` for use in a URL: every byte of its UTF-8 form that is not
/// unreserved becomes `%` and two hexadecimal digits.
pub fn encode(input: &str) -> (encoded: String)
    ensures
        encoded@ == encode_bytes(encode_utf8(input@)),
{
    let bytes = input.as_bytes();
    let mut encoded = String::new();
    let mut i: usize = 0;
    assert(bytes@.take(0) =~= Seq::<u8>::empty());
    while i < bytes.len()
        invariant
            i <= bytes@.len(),
            encoded@ == encode_bytes(bytes@.take(i as int)),
        decreases bytes@.len() - i,
    {
        let b: u8 = bytes[i];
        let ghost before = encoded@;
        if (0x41 <= b && b <= 0x5A) || (0x61 <= b && b <= 0x7A) || (0x30 <= b && b <= 0x39) || b
            == 0x2D || b == 0x5F || b == 0x2E || b == 0x7E {
            encoded.push(b as char);
        } else {
            encoded.push('%');
            encoded.push(hex_upper_char(b / 16));
            encoded.push(hex_upper_char(b % 16));
        }
        proof {
            assert(bytes@.take(i + 1).drop_last() =~= bytes@.take(i as int));
            assert(encoded@ =~= before + encode_byte(b));
        }
        i += 1;
    }
    assert(bytes@.take(i as int) =~= bytes@);
    encoded
}

/// The value of the hexadecimal digit `hex`.
pub fn hex_to_u8(hex: u8) -> (r: Option<u8>)
    ensures
        r == hex_value(hex),
{
    if 0x30 <= hex && hex <= 0x39 {
        Some(hex - 0x30)
    } else if 0x61 <= hex && hex <= 0x66 {
        Some(hex - 0x61 + 10)
    } else if 0x41 <= hex && hex <= 0x46 {
        Some(hex - 0x41 + 10)
    } else {
        None
    }
}

/// Decodes `input`, or gives `None` where it has no decoding: a `%` that two
/// bytes follow which are not both hexadecimal digits, or a result that is
/// not UTF-8.
pub fn try_percent_decode(input: &str) -> (r: Option<String>)
    ensures
        r is Some <==> percent_decoded(input@) is Some,
        r is Some ==> r->0@ == percent_decoded(input@)->0,
{
    let bytes = input.as_bytes();
    let mut out: Vec<u8> = Vec::new();
    let mut i: usize = 0;
    assert(prepend(out@, decode_from(bytes@, 0)) == decode_from(bytes@, 0)) by {
        if let Some(rest) = decode_from(bytes@, 0) {
            assert(out@ + rest =~= rest);
        }
    }
    while i < bytes.len()
        invariant
            i <= bytes@.len(),
            bytes@ == encode_utf8(input@),
            decode_from(bytes@, 0) == prepend(out@, decode_from(bytes@, i as int)),
        decreases bytes@.len() - i,
    {
        let ghost before = out@;
        if bytes[i] == 0x25 && bytes.len() - i > 2 {
            match (hex_to_u8(bytes[i + 1]), hex_to_u8(bytes[i + 2])) {
                (Some(h), Some(l)) => {
                    out.push(h * 16 + l);
                    proof {
                        if let Some(rest) = decode_from(bytes@, i + 3) {
                            assert(before + (seq![(h * 16 + l) as u8] + rest) =~= out@ + rest);
                        }
                    }
                    i += 3;
                },
                _ => {
                    assert(decode_from(bytes@, i as int) is None);
                    return None;
                },
            }
        } else {
            out.push(bytes[i]);
            proof {
                if let Some(rest) = decode_from(bytes@, i + 1) {
                    assert(before + (seq![bytes@[i as int]] + rest) =~= out@ + rest);
                }
            }
            i += 1;
        }
    }
    assert(out@ + Seq::<u8>::empty() =~= out@);
    decode_text(out.as_slice())
}

/// Decodes `input`, which must have a decoding.
pub fn percent_decode(input: &str) -> (r: String)
    requires
        percent_decoded(input@) is Some,
    ensures
        r@ == percent_decoded(input@)->0,
{
    match try_percent_decode(input) {
        Some(text) => text,
        None => String::new(),
    }
}

/// The encoding of two sequences of bytes, one behind the other, is their
/// encodings, one behind the other.
pub proof fn lemma_encode_concat(a: Seq<u8>, b: Seq<u8>)
    ensures
        encode_bytes(a + b) == encode_bytes(a) + encode_bytes(b),
    decreases b.len(),
{
    if b.len() == 0 {
        assert(a + b =~= a);
        assert(encode_bytes(a) + encode_bytes(b) =~= encode_bytes(a));
    } else {
        lemma_encode_concat(a, b.drop_last());
        assert((a + b).drop_last() =~= a + b.drop_last());
        assert((a + b).last() == b.last());
        assert(encode_bytes(a) + encode_bytes(b.drop_last()) + encode_byte(b.last())
            =~= encode_bytes(a) + (encode_bytes(b.drop_last()) + encode_byte(b.last())));
    }
}

/// Encoded text holds ASCII characters only.
pub proof fn lemma_encoded_is_ascii(bytes: Seq<u8>)
    ensures
        is_ascii_chars(encode_bytes(bytes)),
    decreases bytes.len(),
{
    if bytes.len() > 0 {
        lemma_encoded_is_ascii(bytes.drop_last());
        let front = encode_bytes(bytes.drop_last());
        let back = encode_byte(bytes.last());
        let all = encode_bytes(bytes);
        assert forall|i: int| 0 <= i < all.len() implies (all[i] as nat) < 128 by {
            if i < front.len() {
                assert(all[i] == front[i]);
            } else {
                assert(all[i] == back[i - front.len()]);
            }
        }
    }
}

/// The encoding of `done` and `rest`, read from the end of the encoding of
/// `done` on, decodes to `rest`.
proof fn lemma_decode_encoded_from(done: Seq<u8>, rest: Seq<u8>)
    ensures
        decode_from(
            ascii_bytes(encode_bytes(done + rest)),
            encode_bytes(done).len() as int,
        ) == Some(rest),
    decreases rest.len(),
{
    let wire = ascii_bytes(encode_bytes(done + rest));
    let at = encode_bytes(done).len() as int;
    lemma_encode_concat(done, rest);
    if rest.len() == 0 {
        assert(encode_bytes(rest) =~= Seq::<char>::empty());
        assert(rest =~= Seq::<u8>::empty());
    } else {
        let b = rest[0];
        let later = rest.drop_first();
        let one = encode_byte(b);
        assert(done + rest =~= (done + seq![b]) + later);
        lemma_encode_concat(done, seq![b]);
        lemma_encode_concat(done + seq![b], later);
        assert(seq![b].drop_last() =~= Seq::<u8>::empty());
        assert(seq![b].last() == b);
        assert(encode_bytes(seq![b].drop_last()) =~= Seq::<char>::empty());
        assert(encode_bytes(seq![b]) =~= one);
        lemma_decode_encoded_from(done + seq![b], later);
        let whole = encode_bytes(done) + one + encode_bytes(later);
        assert(encode_bytes(done + rest) =~= whole);
        assert forall|i: int| 0 <= i < one.len() implies wire[at + i] == one[i] as u8 by {
            assert(whole[at + i] == one[i]);
        }
        assert(seq![b] + later =~= rest);
        if is_unreserved(b) {
            assert(wire[at] == b);
        } else {
            assert(wire[at] == 0x25);
            assert(hex_value(wire[at + 1]) == Some((b / 16) as u8));
            assert(hex_value(wire[at + 2]) == Some((b % 16) as u8));
            assert((((b / 16) as u8) * 16 + ((b % 16) as u8)) as u8 == b);
        }
    }
}

/// Decoding gives back what was encoded: the encoding of the UTF-8 form of
/// any text decodes to that text.
pub proof fn lemma_decode_encoded(text: Seq<char>)
    ensures
        percent_decoded(encode_bytes(encode_utf8(text))) == Some(text),
{
    let bytes = encode_utf8(text);
    let encoded = encode_bytes(bytes);
    lemma_encoded_is_ascii(bytes);
    is_ascii_chars_encode_utf8(encoded);
    assert(encode_utf8(encoded) =~= ascii_bytes(encoded));
    lemma_decode_encoded_from(Seq::empty(), bytes);
    assert(Seq::<u8>::empty() + bytes =~= bytes);
    encode_utf8_valid_utf8(text);
    encode_utf8_decode_utf8(text);
}

} // verus!
