//! What holds of the buffer across calls, stated over the same functions as
//! the contracts of its operations.

use crate::buffer::{promoted_at, CFixedString, STRING_SIZE};
use crate::text::{
    is_c_string, lemma_encode_utf8_flatten, lemma_nul_free_concat, lossy_text, nul_free,
};
use vstd::prelude::*;
use vstd::utf8::*;

verus! {

/// The content after each of `fragments` was appended to `content`, first to
/// last.
pub open spec fn append_each(content: Seq<u8>, fragments: Seq<Seq<u8>>) -> Seq<u8>
    decreases fragments.len(),
{
    if fragments.len() == 0 {
        content
    } else {
        append_each(content + fragments.first(), fragments.drop_first())
    }
}

/// Whether a buffer is on the heap after each of `fragments` was appended to
/// it, when it held `len` bytes before and `promoted` says where it was.
pub open spec fn promoted_after(promoted: bool, len: nat, fragments: Seq<Seq<u8>>) -> bool
    decreases fragments.len(),
{
    if fragments.len() == 0 {
        promoted
    } else {
        let grown = len + fragments.first().len();
        promoted_after(promoted || promoted_at(grown), grown, fragments.drop_first())
    }
}

/// A text is kept inline if it is shorter than `STRING_SIZE - 1` bytes and on
/// the heap if it is longer. A text of exactly `STRING_SIZE - 1` bytes is the
/// longest that is kept inline.
pub proof fn lemma_promotion_threshold(text: Seq<char>)
    requires
        encode_utf8(text).len() != STRING_SIZE - 1,
    ensures
        encode_utf8(text).len() < STRING_SIZE - 1 ==> !promoted_at(encode_utf8(text).len()),
        encode_utf8(text).len() >= STRING_SIZE - 1 ==> promoted_at(encode_utf8(text).len()),
{
}

/// A text that was written to an empty buffer is read back unchanged, by the
/// lossy decode and by the plain one, whatever its length.
pub proof fn lemma_round_trip(text: Seq<char>)
    ensures
        valid_utf8(encode_utf8(text)),
        lossy_text(encode_utf8(text)) == text,
        decode_utf8(encode_utf8(text)) == text,
{
    encode_utf8_valid_utf8(text);
    encode_utf8_decode_utf8(text);
}

/// What is read from a buffer depends on its content alone. Two reads of one
/// buffer agree, and so do reads of two buffers with the same content.
pub proof fn lemma_views_agree(a: CFixedString, b: CFixedString)
    requires
        a@ == b@,
    ensures
        a.c_bytes() == b.c_bytes(),
        lossy_text(a@) == lossy_text(b@),
        a.is_utf8() == b.is_utf8(),
        a.text() == b.text(),
{
}

/// Appending fragments one after the other gives the content followed by the
/// fragments' concatenation.
pub proof fn lemma_append_each_concatenates(content: Seq<u8>, fragments: Seq<Seq<u8>>)
    ensures
        append_each(content, fragments) == content + fragments.flatten(),
    decreases fragments.len(),
{
    if fragments.len() > 0 {
        lemma_append_each_concatenates(content + fragments.first(), fragments.drop_first());
        let first = fragments.first();
        let rest = fragments.drop_first().flatten();
        assert((content + first) + rest == content + (first + rest));
    }
}

/// Where the content ends up depends on its final length alone, not on the
/// lengths of the fragments that it grew by: once on the heap it stays there.
pub proof fn lemma_storage_follows_length(promoted: bool, len: nat, fragments: Seq<Seq<u8>>)
    requires
        promoted == promoted_at(len),
    ensures
        promoted_after(promoted, len, fragments) == promoted_at(len + fragments.flatten().len()),
    decreases fragments.len(),
{
    if fragments.len() > 0 {
        let grown = len + fragments.first().len();
        lemma_storage_follows_length(promoted || promoted_at(grown), grown, fragments.drop_first());
    }
}

/// Building a buffer from the formatted pieces of a text, one append each,
/// gives the content that one append of the whole text gives.
pub proof fn lemma_fragments_agree_with_whole(texts: Seq<Seq<char>>)
    ensures
        append_each(Seq::empty(), texts.map_values(|t: Seq<char>| encode_utf8(t))) == encode_utf8(
            texts.flatten(),
        ),
{
    let pieces = texts.map_values(|t: Seq<char>| encode_utf8(t));
    lemma_append_each_concatenates(Seq::empty(), pieces);
    lemma_encode_utf8_flatten(texts);
    assert(Seq::<u8>::empty() + pieces.flatten() == pieces.flatten());
}

/// Of the bytes that encode a scalar, only the single byte of U+0000 is zero.
proof fn lemma_scalar_bytes_nonzero(c: u32)
    by (bit_vector)
    ensures
        has_width_1_encoding(c) ==> (leading_byte_width_1(c) == 0 <==> c == 0),
        leading_byte_width_2(c) != 0,
        leading_byte_width_3(c) != 0,
        leading_byte_width_4(c) != 0,
        last_continuation_byte(c) != 0,
        second_last_continuation_byte(c) != 0,
        third_last_continuation_byte(c) != 0,
{
}

/// A text encodes to bytes without a zero exactly when it holds no U+0000.
proof fn lemma_text_nul_free(text: Seq<char>)
    ensures
        nul_free(encode_utf8(text)) <==> !text.contains('\0'),
    decreases text.len(),
{
    if text.len() > 0 {
        let head = encode_scalar(text[0] as u32);
        let rest = text.drop_first();
        lemma_text_nul_free(rest);
        lemma_nul_free_concat(head, encode_utf8(rest));
        lemma_scalar_bytes_nonzero(text[0] as u32);
        char_is_scalar(text[0]);
        assert(nul_free(head) <==> text[0] != '\0') by {
            if text[0] as u32 == 0 {
                char_u32_cast(text[0], 0u32);
                char_u32_cast('\0', 0u32);
                assert(head[0] == 0);
            }
        }
        if text.contains('\0') {
            let i = choose|i: int| 0 <= i < text.len() && text[i] == '\0';
            if i > 0 {
                assert(rest[i - 1] == '\0');
            }
        }
        if rest.contains('\0') {
            let i = choose|i: int| 0 <= i < rest.len() && rest[i] == '\0';
            assert(text[i + 1] == '\0');
        }
    }
}

/// A text is handed to C whole, as a C string, exactly when it holds no
/// U+0000: its bytes followed by the terminator then hold no other zero.
pub proof fn lemma_text_is_c_string(text: Seq<char>)
    ensures
        is_c_string(encode_utf8(text).push(0u8)) <==> !text.contains('\0'),
{
    lemma_text_nul_free(text);
    assert(encode_utf8(text).push(0u8).drop_last() == encode_utf8(text));
}

} // verus!
