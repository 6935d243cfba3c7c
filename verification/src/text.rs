//! UTF-8 facts that the buffer's contracts rest on, and the two decoders of
//! the standard library that it calls.

use std::borrow::Cow;
use vstd::prelude::*;
use vstd::string::StringSliceAdditionalSpecFns;
use vstd::utf8::*;

verus! {

/// The text that a lossy decode makes of `bytes`: every well-formed part
/// decoded, every ill-formed part replaced by U+FFFD.
pub uninterp spec fn utf8_lossy(bytes: Seq<u8>) -> Seq<char>;

/// `String::from_utf8_lossy` decodes the bytes, replacing what is not UTF-8 by
/// U+FFFD. Assumed: the result is a function of the bytes alone; valid UTF-8
/// comes back borrowed and decoded as it stands, anything else comes back as
/// an owned string.
pub assume_specification<'a>[ String::from_utf8_lossy ](v: &'a [u8]) -> (r: Cow<'a, str>)
    ensures
        r@ == utf8_lossy(v@),
        valid_utf8(v@) ==> r@ == decode_utf8(v@),
        r is Borrowed <==> valid_utf8(v@),
;

/// The error of `core::str::from_utf8`; nothing is read from it.
#[verifier::external_type_specification]
#[verifier::external_body]
pub struct ExUtf8Error(core::str::Utf8Error);

/// `core::str::from_utf8` checks the bytes and hands them back as a `str`.
/// Assumed: it succeeds exactly on valid UTF-8, and the `str` it returns has
/// the very bytes it was given.
pub assume_specification<'a>[ core::str::from_utf8 ](v: &'a [u8]) -> (r: Result<
    &'a str,
    core::str::Utf8Error,
>)
    ensures
        r is Ok <==> valid_utf8(v@),
        r matches Ok(t) ==> t.spec_bytes() == v@,
;

/// What a lossy decode gives: the text itself where the bytes are UTF-8, and
/// the repaired text where they are not.
pub open spec fn lossy_text(bytes: Seq<u8>) -> Seq<char> {
    if valid_utf8(bytes) {
        decode_utf8(bytes)
    } else {
        utf8_lossy(bytes)
    }
}

/// An owned string with the text of `text`: a borrowed text is copied, an
/// owned one is handed on.
pub fn into_owned(text: Cow<'_, str>) -> (r: String)
    ensures
        r@ == text@,
{
    match text {
        Cow::Borrowed(t) => t.to_owned(),
        Cow::Owned(t) => t,
    }
}

/// No byte of `bytes` is zero.
pub open spec fn nul_free(bytes: Seq<u8>) -> bool {
    forall|i: int| 0 <= i < bytes.len() ==> bytes[i] != 0
}

/// `bytes` ends with a zero byte and holds no other: a C string with its
/// terminator.
pub open spec fn is_c_string(bytes: Seq<u8>) -> bool {
    &&& bytes.len() > 0
    &&& bytes.last() == 0
    &&& nul_free(bytes.drop_last())
}

/// A concatenation is free of zero bytes exactly when both parts are.
pub proof fn lemma_nul_free_concat(a: Seq<u8>, b: Seq<u8>)
    ensures
        nul_free(a + b) <==> nul_free(a) && nul_free(b),
{
    if nul_free(a + b) {
        assert forall|i: int| 0 <= i < a.len() implies a[i] != 0 by {
            assert((a + b)[i] == a[i]);
        }
        assert forall|i: int| 0 <= i < b.len() implies b[i] != 0 by {
            assert((a + b)[a.len() + i] == b[i]);
        }
    }
}

/// Encoding distributes over concatenation.
pub proof fn lemma_encode_utf8_concat(a: Seq<char>, b: Seq<char>)
    ensures
        encode_utf8(a + b) == encode_utf8(a) + encode_utf8(b),
    decreases a.len(),
{
    if a.len() == 0 {
        assert(a + b == b);
        assert(encode_utf8(a) + encode_utf8(b) == encode_utf8(b));
    } else {
        lemma_encode_utf8_concat(a.drop_first(), b);
        assert((a + b).drop_first() == a.drop_first() + b);
        assert((a + b)[0] == a[0]);
    }
}

/// Two valid UTF-8 sequences, joined, are valid UTF-8 and decode to the two
/// texts, joined.
pub proof fn lemma_decode_utf8_concat(a: Seq<u8>, b: Seq<u8>)
    requires
        valid_utf8(a),
        valid_utf8(b),
    ensures
        valid_utf8(a + b),
        decode_utf8(a + b) == decode_utf8(a) + decode_utf8(b),
{
    valid_utf8_concat(a, b);
    decode_utf8_encode_utf8(a);
    decode_utf8_encode_utf8(b);
    lemma_encode_utf8_concat(decode_utf8(a), decode_utf8(b));
    encode_utf8_decode_utf8(decode_utf8(a) + decode_utf8(b));
}

/// Encoding a text that was put together from pieces gives the encoded
/// pieces, put together.
pub proof fn lemma_encode_utf8_flatten(texts: Seq<Seq<char>>)
    ensures
        encode_utf8(texts.flatten()) == texts.map_values(|t: Seq<char>| encode_utf8(t)).flatten(),
    decreases texts.len(),
{
    let encoded = texts.map_values(|t: Seq<char>| encode_utf8(t));
    if texts.len() > 0 {
        lemma_encode_utf8_flatten(texts.drop_first());
        lemma_encode_utf8_concat(texts.first(), texts.drop_first().flatten());
        assert(encoded.drop_first() == texts.drop_first().map_values(
            |t: Seq<char>| encode_utf8(t),
        ));
    }
}

} // verus!
