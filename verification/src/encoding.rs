//! How a text and its UTF-8 bytes correspond: a pattern stands in the text
//! where its encoding stands in the bytes, and in the same order.

use crate::search::occurs_at;
use vstd::prelude::*;
use vstd::string::*;
use vstd::utf8::*;

verus! {

/// `core::str::Utf8Error`, the error of `core::str::from_utf8`. Nothing is
/// read from it.
#[verifier::external_type_specification]
#[verifier::external_body]
pub struct ExUtf8Error(core::str::Utf8Error);

/// `core::str::from_utf8` succeeds exactly on well-formed UTF-8, and the string
/// slice it then returns is the given bytes, read as text.
pub assume_specification[ core::str::from_utf8 ](v: &[u8]) -> (r: Result<
    &str,
    core::str::Utf8Error,
>)
    ensures
        r is Ok <==> valid_utf8(v@),
        r matches Ok(s) ==> s.spec_bytes() == v@,
;

/// The number of bytes that encode the first `k` characters of `text`.
pub open spec fn byte_offset(text: Seq<char>, k: int) -> int {
    encode_utf8(text.subrange(0, k)).len() as int
}

/// A well-formed prefix of well-formed bytes ends on a character boundary.
pub proof fn lemma_prefix_boundary(bytes: Seq<u8>, n: int)
    requires
        valid_utf8(bytes),
        0 <= n <= bytes.len(),
        valid_utf8(bytes.subrange(0, n)),
    ensures
        is_char_boundary(bytes, n),
    decreases n,
{
    if n > 0 {
        let prefix = bytes.subrange(0, n);
        assert(prefix[0] == bytes[0]);
        let width = length_of_first_scalar(bytes);
        assert(length_of_first_scalar(prefix) == width);
        assert(width <= n);
        let rest = pop_first_scalar(bytes);
        assert(pop_first_scalar(prefix) =~= rest.subrange(0, n - width));
        lemma_prefix_boundary(rest, n - width);
    }
}

/// Decoding distributes over the concatenation of well-formed byte sequences.
pub proof fn lemma_decode_concat(a: Seq<u8>, b: Seq<u8>)
    requires
        valid_utf8(a),
        valid_utf8(b),
    ensures
        valid_utf8(a + b),
        decode_utf8(a + b) == decode_utf8(a) + decode_utf8(b),
{
    valid_utf8_concat(a, b);
    let whole = a + b;
    assert(whole.subrange(0, a.len() as int) =~= a);
    assert(whole.subrange(a.len() as int, whole.len() as int) =~= b);
    lemma_prefix_boundary(whole, a.len() as int);
    decode_utf8_split(whole, a.len() as int);
}

/// Encoding distributes over the concatenation of texts.
pub proof fn lemma_encode_concat(x: Seq<char>, y: Seq<char>)
    ensures
        encode_utf8(x + y) == encode_utf8(x) + encode_utf8(y),
{
    let a = encode_utf8(x);
    let b = encode_utf8(y);
    encode_utf8_valid_utf8(x);
    encode_utf8_valid_utf8(y);
    lemma_decode_concat(a, b);
    encode_utf8_decode_utf8(x);
    encode_utf8_decode_utf8(y);
    decode_utf8_encode_utf8(a + b);
}

/// A text that is not empty has an encoding that is not empty.
pub proof fn lemma_encode_nonempty(x: Seq<char>)
    requires
        x.len() > 0,
    ensures
        encode_utf8(x).len() > 0,
{
    encode_utf8_decode_utf8(x);
    if encode_utf8(x).len() == 0 {
        assert(decode_utf8(encode_utf8(x)).len() == 0);
    }
}

/// A longer prefix of a text takes more bytes.
pub proof fn lemma_byte_offset_increases(text: Seq<char>, k1: int, k2: int)
    requires
        0 <= k1 < k2 <= text.len(),
    ensures
        byte_offset(text, k1) < byte_offset(text, k2),
{
    let x = text.subrange(0, k1);
    let y = text.subrange(k1, k2);
    assert(text.subrange(0, k2) =~= x + y);
    lemma_encode_concat(x, y);
    lemma_encode_nonempty(y);
}

/// Where a pattern stands in a text, its encoding stands in the text's
/// encoding, at the byte offset of that place.
pub proof fn lemma_occurrence_in_bytes(text: Seq<char>, pat: Seq<char>, k: int)
    requires
        occurs_at(text, pat, k),
    ensures
        occurs_at(encode_utf8(text), encode_utf8(pat), byte_offset(text, k)),
{
    let x = text.subrange(0, k);
    let z = text.subrange(k + pat.len(), text.len() as int);
    assert(text =~= x + pat + z);
    lemma_encode_concat(x + pat, z);
    lemma_encode_concat(x, pat);
    let bytes = encode_utf8(text);
    let i = encode_utf8(x).len() as int;
    assert(bytes.subrange(i, i + encode_utf8(pat).len()) =~= encode_utf8(pat));
}

/// Where the encoding of a pattern stands in the encoding of a text, at the
/// start or with a pattern that is not empty, the pattern stands in the text:
/// the bytes before it and after it are the encodings of the text before it and
/// after it.
pub proof fn lemma_occurrence_in_text(text: Seq<char>, pat: Seq<char>, i: int) -> (k: int)
    requires
        occurs_at(encode_utf8(text), encode_utf8(pat), i),
        pat.len() > 0 || i == 0,
    ensures
        occurs_at(text, pat, k),
        byte_offset(text, k) == i,
        is_char_boundary(encode_utf8(text), i),
        is_char_boundary(
            encode_utf8(text).subrange(i, encode_utf8(text).len() as int),
            encode_utf8(pat).len() as int,
        ),
        encode_utf8(text.subrange(0, k)) == encode_utf8(text).subrange(0, i),
        encode_utf8(text.subrange(k + pat.len(), text.len() as int)) == encode_utf8(
            text,
        ).subrange(i + encode_utf8(pat).len(), encode_utf8(text).len() as int),
{
    let bytes = encode_utf8(text);
    let code = encode_utf8(pat);
    let m = code.len() as int;
    encode_utf8_valid_utf8(text);
    encode_utf8_valid_utf8(pat);
    encode_utf8_decode_utf8(text);
    encode_utf8_decode_utf8(pat);
    if i == 0 {
        is_char_boundary_start_end_of_seq(bytes);
    } else {
        lemma_encode_nonempty(pat);
        assert(bytes[i] == bytes.subrange(i, i + m)[0]);
        assert(valid_first_scalar(code));
        assert(!is_continuation_byte(code[0]));
        is_char_boundary_iff_not_is_continuation_byte(bytes, i);
    }
    valid_utf8_split(bytes, i);
    let head = bytes.subrange(0, i);
    let rest = bytes.subrange(i, bytes.len() as int);
    assert(rest.subrange(0, m) =~= code);
    lemma_prefix_boundary(rest, m);
    valid_utf8_split(rest, m);
    let tail = rest.subrange(m, rest.len() as int);
    assert(tail =~= bytes.subrange(i + m, bytes.len() as int));
    assert(bytes =~= head + code + tail);
    lemma_decode_concat(head, code);
    lemma_decode_concat(head + code, tail);
    let x = decode_utf8(head);
    let z = decode_utf8(tail);
    assert(text == x + pat + z);
    let k = x.len() as int;
    assert(text.subrange(0, k) =~= x);
    assert(text.subrange(k, k + pat.len()) =~= pat);
    assert(text.subrange(k + pat.len(), text.len() as int) =~= z);
    decode_utf8_encode_utf8(head);
    decode_utf8_encode_utf8(tail);
    k
}

/// A character of the ASCII range is encoded as the one byte of its number.
pub proof fn lemma_encode_ascii(c: char)
    requires
        c <= '\u{7f}',
    ensures
        encode_utf8(seq![c]) == seq![c as u8],
{
    is_ascii_chars_encode_utf8(seq![c]);
    assert(seq![c][0] == c);
    assert(encode_utf8(seq![c]) =~= seq![c as u8]);
}

} // verus!
