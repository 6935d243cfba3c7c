//! The buffer, its two storage forms and the append protocol between them.

use crate::text::{
    into_owned, is_c_string, lemma_decode_utf8_concat, lemma_nul_free_concat, lossy_text, nul_free,
};
use std::borrow::Cow;
use std::fmt;
use vstd::prelude::*;
use vstd::slice::slice_subrange;
use vstd::string::StringSliceAdditionalSpecFns;
use vstd::utf8::*;

verus! {

/// Size in bytes of the inline storage. One byte of it is always the
/// terminator, so inline content is at most `STRING_SIZE - 1` bytes long.
pub const STRING_SIZE: usize = 512;

/// Where content of `len` bytes is kept: on the heap exactly when it leaves no
/// room for the terminator in the inline storage.
pub open spec fn promoted_at(len: nat) -> bool {
    len >= STRING_SIZE
}

/// A C string that lives inline while it is short and on the heap once it is
/// not. Its view is its content: the bytes written so far, terminator excluded.
#[allow(inconsistent_fields)]
pub enum CFixedString {
    /// Content in `s[..len]`, terminator at `s[len]`.
    Local { s: [u8; STRING_SIZE], len: usize },
    /// Content in `s[..len]`, terminator at `s[len]`, the last byte of `s`.
    Heap { s: Vec<u8>, len: usize },
}

impl View for CFixedString {
    type V = Seq<u8>;

    open spec fn view(&self) -> Seq<u8> {
        match *self {
            CFixedString::Local { s, len } => s@.subrange(0, len as int),
            CFixedString::Heap { s, len } => s@.subrange(0, len as int),
        }
    }
}

/// The error type of `std::fmt::Write`. The buffer never makes one.
#[verifier::external_type_specification]
#[verifier::external_body]
pub struct ExFmtError(fmt::Error);

impl CFixedString {
    /// The storage invariant. The content is followed by a zero byte. Inline
    /// storage keeps room for that byte; heap storage ends with it, and is in
    /// use only for content that the inline storage could not hold.
    pub open spec fn wf(&self) -> bool {
        match *self {
            CFixedString::Local { s, len } => len < STRING_SIZE && s@[len as int] == 0,
            CFixedString::Heap { s, len } => {
                &&& s@.len() == len + 1
                &&& s@[len as int] == 0
                &&& promoted_at(len as nat)
            },
        }
    }

    /// The content is UTF-8. Every buffer that was only ever written to is.
    pub open spec fn is_utf8(&self) -> bool {
        valid_utf8(self@)
    }

    /// The content as text, where it is UTF-8.
    pub open spec fn text(&self) -> Seq<char>
        recommends
            self.is_utf8(),
    {
        decode_utf8(self@)
    }

    /// What is handed to C: the content and its terminator.
    pub open spec fn c_bytes(&self) -> Seq<u8> {
        self@.push(0u8)
    }

    /// An empty buffer, inline. Meant to be written to.
    pub fn new() -> (r: Self)
        ensures
            r.wf(),
            r@ == Seq::<u8>::empty(),
            r is Local,
    {
        CFixedString::Local { s: [0u8; STRING_SIZE], len: 0 }
    }

    /// A buffer that holds `s`: inline if `s` is shorter than `STRING_SIZE`
    /// bytes, on the heap otherwise.
    pub fn from_str(s: &str) -> (r: Self)
        ensures
            r.wf(),
            r@ == s.spec_bytes(),
            r is Heap <==> promoted_at(s.spec_bytes().len()),
            r.is_utf8(),
            r.text() == s@,
    {
        CFixedString::from(s)
    }

    /// Tests the storage invariant. A buffer that was made and written to by
    /// this library passes; one whose fields were filled in by hand may not.
    pub fn is_well_formed(&self) -> (r: bool)
        ensures
            r == self.wf(),
    {
        match self {
            CFixedString::Local { s, len } => *len < STRING_SIZE && s[*len] == 0,
            CFixedString::Heap { s, len } => {
                *len >= STRING_SIZE && s.len() > *len && s.len() - 1 == *len && s[*len] == 0
            },
        }
    }

    /// True once the content has moved to the heap.
    pub fn is_allocated(&self) -> (r: bool)
        ensures
            r == (self is Heap),
    {
        match *self {
            CFixedString::Local { .. } => false,
            _ => true,
        }
    }

    /// The content, without the terminator.
    pub fn to_bytes(&self) -> (r: &[u8])
        requires
            self.wf(),
        ensures
            r@ == self@,
    {
        match self {
            CFixedString::Local { s, len } => slice_subrange(s.as_slice(), 0, *len),
            CFixedString::Heap { s, len } => slice_subrange(s.as_slice(), 0, *len),
        }
    }

    /// The content and its terminator, as one slice: what a pointer handed
    /// to C points at. It is a C string unless a zero byte was written into
    /// the content, in which case C reads it up to that byte.
    pub fn to_bytes_with_nul(&self) -> (r: &[u8])
        requires
            self.wf(),
        ensures
            r@ == self.c_bytes(),
            is_c_string(r@) <==> nul_free(self@),
    {
        let r = match self {
            CFixedString::Local { s, len } => slice_subrange(s.as_slice(), 0, *len + 1),
            CFixedString::Heap { s, .. } => s.as_slice(),
        };
        assert(r@ =~= self@.push(0u8));
        assert(r@.drop_last() =~= self@);
        r
    }

    /// The content as text, with U+FFFD in place of whatever is not UTF-8.
    /// UTF-8 content comes back borrowed, as it is.
    pub fn to_string(&self) -> (r: Cow<'_, str>)
        requires
            self.wf(),
        ensures
            r@ == lossy_text(self@),
            r is Borrowed <==> self.is_utf8(),
    {
        String::from_utf8_lossy(self.to_bytes())
    }

    /// The content as text. The content has to be UTF-8, which it is unless
    /// the fields were filled in by hand.
    pub fn as_str(&self) -> (r: &str)
        requires
            self.wf(),
            self.is_utf8(),
        ensures
            r@ == self.text(),
            r.spec_bytes() == self@,
    {
        match core::str::from_utf8(self.to_bytes()) {
            Ok(t) => {
                proof {
                    encode_utf8_decode_utf8(t@);
                }
                t
            },
            Err(_) => vstd::pervasive::unreached(),
        }
    }

    /// Gives up the buffer for an owned string with the same text, U+FFFD in
    /// place of whatever is not UTF-8.
    pub fn into_string(self) -> (r: String)
        requires
            self.wf(),
        ensures
            r@ == lossy_text(self@),
    {
        into_owned(self.to_string())
    }
}

impl<'a> From<&'a str> for CFixedString {
    /// A buffer that holds `s`, made by one append to an empty buffer.
    fn from(s: &'a str) -> (r: Self)
        ensures
            r.wf(),
            r@ == s.spec_bytes(),
            r is Heap <==> promoted_at(s.spec_bytes().len()),
            r.is_utf8(),
            r.text() == s@,
    {
        let mut string = CFixedString::new();
        proof {
            assert(string@ + s.spec_bytes() == s.spec_bytes());
            assert(decode_utf8(string@) + s@ == s@);
        }
        let _ = fmt::Write::write_str(&mut string, s);
        string
    }
}

impl<'a> vstd::std_specs::convert::FromSpecImpl<&'a str> for CFixedString {
    open spec fn obeys_from_spec() -> bool {
        false
    }

    open spec fn from_spec(v: &'a str) -> Self {
        vstd::pervasive::arbitrary()
    }
}

impl std::borrow::Borrow<str> for CFixedString {
    fn borrow(&self) -> (r: &str)
        requires
            self.wf(),
            self.is_utf8(),
        ensures
            ({
                let t: &str = r;
                t@ == self.text()
            }),
    {
        self.as_str()
    }
}

impl AsRef<str> for CFixedString {
    fn as_ref(&self) -> (r: &str)
        requires
            self.wf(),
            self.is_utf8(),
        ensures
            r@ == self.text(),
    {
        self.as_str()
    }
}

impl fmt::Write for CFixedString {
    /// Appends `s`. The content stays inline while it leaves room for the
    /// terminator there; otherwise all of it moves to a fresh heap buffer.
    /// Never fails.
    fn write_str(&mut self, s: &str) -> (r: Result<(), fmt::Error>)
        requires
            old(self).wf(),
        ensures
            r is Ok,
            final(self).wf(),
            final(self)@ == old(self)@ + s.spec_bytes(),
            (*final(self) is Heap) <==> (*old(self) is Heap) || promoted_at(
                old(self)@.len() + s.spec_bytes().len(),
            ),
            old(self).is_utf8() ==> final(self).is_utf8() && final(self).text() == old(
                self,
            ).text() + s@,
            nul_free(final(self)@) <==> nul_free(old(self)@) && nul_free(s.spec_bytes()),
    {
        let bytes = s.as_bytes();
        let fits = match self {
            CFixedString::Local { len, .. } => bytes.len() < STRING_SIZE - *len,
            CFixedString::Heap { .. } => false,
        };
        if fits {
            match self {
                CFixedString::Local { s: ls, len: lslen } => {
                    let cur_len = *lslen;
                    let mut i: usize = 0;
                    while i < bytes.len()
                        invariant
                            i <= bytes.len(),
                            cur_len + bytes.len() < STRING_SIZE,
                            ls@.subrange(0, cur_len as int) == old(self)@,
                            ls@.subrange(cur_len as int, cur_len + i) == bytes@.subrange(
                                0,
                                i as int,
                            ),
                        decreases bytes.len() - i,
                    {
                        ls[cur_len + i] = bytes[i];
                        i += 1;
                    }
                    let ghost filled = ls@;
                    assert(bytes@.subrange(0, i as int) =~= bytes@);
                    ls[cur_len + bytes.len()] = 0;
                    *lslen = cur_len + bytes.len();
                    assert(ls@.subrange(0, *lslen as int) =~= filled.subrange(0, cur_len as int)
                        + filled.subrange(cur_len as int, *lslen as int));
                },
                CFixedString::Heap { .. } => {},
            }
        } else {
            let mut heap: Vec<u8> = Vec::new();
            heap.extend_from_slice(self.to_bytes());
            heap.extend_from_slice(bytes);
            let len = heap.len();
            heap.push(0);
            assert(heap@.subrange(0, len as int) =~= self@ + bytes@);
            *self = CFixedString::Heap { s: heap, len };
        }
        proof {
            if old(self).is_utf8() {
                encode_utf8_valid_utf8(s@);
                encode_utf8_decode_utf8(s@);
                lemma_decode_utf8_concat(old(self)@, s.spec_bytes());
            }
            lemma_nul_free_concat(old(self)@, s.spec_bytes());
        }
        Ok(())
    }
}

/// The bytes of each fragment, in order.
pub open spec fn fragment_bytes(fragments: Seq<&str>) -> Seq<Seq<u8>> {
    Seq::new(fragments.len(), |i: int| fragments[i].spec_bytes())
}

/// The text of each fragment, in order.
pub open spec fn fragment_texts(fragments: Seq<&str>) -> Seq<Seq<char>> {
    Seq::new(fragments.len(), |i: int| fragments[i]@)
}

/// A buffer built from the pieces that formatting a template gives, appended
/// in order. It holds what formatting into a `String` would hold, and is on
/// the heap only if that is `STRING_SIZE` bytes or more.
pub fn format_c(fragments: &[&str]) -> (r: CFixedString)
    ensures
        r.wf(),
        r@ == fragment_bytes(fragments@).flatten(),
        r is Heap <==> promoted_at(r@.len()),
        r.is_utf8(),
        r.text() == fragment_texts(fragments@).flatten(),
{
    let mut fixed = CFixedString::new();
    let mut i: usize = 0;
    while i < fragments.len()
        invariant
            i <= fragments.len(),
            fixed.wf(),
            fixed@ == fragment_bytes(fragments@).take(i as int).flatten(),
            fixed is Heap <==> promoted_at(fixed@.len()),
            fixed.is_utf8(),
            fixed.text() == fragment_texts(fragments@).take(i as int).flatten(),
        decreases fragments.len() - i,
    {
        let ghost bytes = fragment_bytes(fragments@);
        let ghost texts = fragment_texts(fragments@);
        let _ = fmt::Write::write_str(&mut fixed, fragments[i]);
        proof {
            assert(bytes.take(i + 1) == bytes.take(i as int).push(bytes[i as int]));
            assert(texts.take(i + 1) == texts.take(i as int).push(texts[i as int]));
            bytes.take(i as int).lemma_flatten_push(bytes[i as int]);
            texts.take(i as int).lemma_flatten_push(texts[i as int]);
        }
        i += 1;
    }
    proof {
        assert(fragment_bytes(fragments@).take(i as int) == fragment_bytes(fragments@));
        assert(fragment_texts(fragments@).take(i as int) == fragment_texts(fragments@));
    }
    fixed
}

} // verus!
