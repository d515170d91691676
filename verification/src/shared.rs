//! The shared string view.
//!
//! A view is a window into an immutable UTF-8 buffer that it shares with
//! every view derived from it. Deriving a view copies no bytes: the new view
//! holds the same buffer and another pair of numbers. The buffer lives as
//! long as any view of it does.
use crate::encoding::{lemma_encode_concat, lemma_valid_piece, lemma_window};
use crate::span::{locate, spec_locate};
use crate::whitespace::{
    law_trimmed_end_idempotent, law_trimmed_idempotent, law_trimmed_start_idempotent,
    leading_white_space, lemma_leading_white_space, lemma_trailing_white_space,
    trailing_white_space, trimmed, trimmed_end, trimmed_start,
};
use std::ops::Deref;
use std::rc::Rc;
use vstd::prelude::*;
use vstd::slice::slice_subrange;
use vstd::string::StringSliceAdditionalSpecFns;
use vstd::utf8::*;

verus! {

/// `Rc<str>::from(String)` allocates a shared buffer and copies the text of
/// `s` into it.
pub assume_specification[ <Rc<str> as From<String>>::from ](s: String) -> (r: Rc<str>)
    ensures
        r@ == s@,
;

/// `Rc<str>::from(&str)` allocates a shared buffer and copies the text of
/// `s` into it.
pub assume_specification<'a>[ <Rc<str> as From<&str>>::from ](s: &str) -> (r: Rc<str>)
    ensures
        r@ == s@,
;

/// `String::from(&str)` copies the text of `s` into a new `String`. This is
/// the conversion that [`RcStr::new`] makes of a `&str`.
pub assume_specification<'a>[ <String as From<&str>>::from ](s: &str) -> (r: String)
    ensures
        r@ == s@,
;

/// `core::str::from_utf8`: the bytes as text, if and only if they are
/// UTF-8. The text has those bytes.
#[verifier::external_body]
fn text_of(bytes: &[u8]) -> (r: Option<&str>)
    ensures
        r is Some <==> valid_utf8(bytes@),
        r matches Some(text) ==> text.spec_bytes() == bytes@,
{
    core::str::from_utf8(bytes).ok()
}

/// `str::as_ptr`, as a number: the address of the first byte of `s`.
///
/// Nothing is claimed of the number. It is no function of the text: equal
/// text at another place has another address.
#[verifier::external_body]
fn address(s: &str) -> usize {
    s.as_ptr() as usize
}

/// `start` and `len` describe a piece of `buffer` that a view can show: the
/// piece is empty, or it begins and ends on character boundaries. An empty
/// piece may lie anywhere from the first byte to one past the last, also
/// inside a character.
pub open spec fn is_window(buffer: Seq<u8>, start: int, len: int) -> bool {
    &&& 0 <= start
    &&& 0 <= len
    &&& start + len <= buffer.len()
    &&& len > 0 ==> is_char_boundary(buffer, start) && is_char_boundary(buffer, start + len)
}

/// `buffer` holds `bytes` from `start` on, all of them before its end.
pub open spec fn lies_at(buffer: Seq<u8>, start: int, bytes: Seq<u8>) -> bool {
    &&& 0 <= start
    &&& start + bytes.len() <= buffer.len()
    &&& buffer.subrange(start, start + bytes.len()) == bytes
}

/// Where a UTF-8 buffer holds UTF-8 bytes, they are a piece that a view can
/// show.
pub proof fn lemma_text_is_window(buffer: Seq<u8>, start: int, bytes: Seq<u8>)
    requires
        valid_utf8(buffer),
        valid_utf8(bytes),
        lies_at(buffer, start, bytes),
    ensures
        is_window(buffer, start, bytes.len() as int),
{
    if bytes.len() > 0 {
        lemma_valid_piece(buffer, start, start + bytes.len());
    }
}

/// A read-only window into a shared, immutable UTF-8 buffer.
pub struct RcStr {
    inner: Rc<str>,
    start: usize,
    len: usize,
}

impl View for RcStr {
    type V = Seq<char>;

    /// The text that the view shows.
    open spec fn view(&self) -> Seq<char> {
        decode_utf8(self.bytes())
    }
}

impl RcStr {
    /// The bytes of the whole buffer that the view shares.
    pub closed spec fn buffer(&self) -> Seq<u8> {
        encode_utf8(self.inner@)
    }

    /// Where in the buffer the view begins.
    pub closed spec fn offset(&self) -> nat {
        self.start as nat
    }

    /// How many bytes the view shows.
    pub closed spec fn spec_len(&self) -> nat {
        self.len as nat
    }

    /// The bytes that the view shows.
    pub open spec fn bytes(&self) -> Seq<u8> {
        self.buffer().subrange(self.offset() as int, (self.offset() + self.spec_len()) as int)
    }

    /// The buffer is UTF-8 of a length that the machine can hold, and the
    /// view is a piece of it that is empty or begins and ends on character
    /// boundaries.
    #[verifier::type_invariant]
    pub open spec fn wf(&self) -> bool {
        &&& valid_utf8(self.buffer())
        &&& self.buffer().len() <= usize::MAX
        &&& is_window(self.buffer(), self.offset() as int, self.spec_len() as int)
    }

    /// The view shows all of its buffer, and the buffer holds `text`.
    pub open spec fn is_root_of(&self, text: Seq<char>) -> bool {
        &&& self.buffer() == encode_utf8(text)
        &&& self.offset() == 0
        &&& self.spec_len() == self.buffer().len()
    }

    /// Whether a text with the bytes `bytes`, whose first byte has the
    /// address `addr`, lies in the buffer when that begins at `base`.
    ///
    /// The address must be that of a byte of the buffer, or the one just
    /// past its last byte. From there on the buffer must hold `bytes`, all
    /// of them before its end. So empty text is derivable at every such
    /// address, and text that is not empty lies between two character
    /// boundaries.
    pub open spec fn derivable(&self, base: int, addr: int, bytes: Seq<u8>) -> bool {
        spec_locate(base, self.buffer().len() as int, addr) matches Some(offset) && lies_at(
            self.buffer(),
            offset,
            bytes,
        )
    }

    /// The bytes of a view are the encoding of its text.
    pub proof fn lemma_text(&self)
        requires
            self.wf(),
        ensures
            valid_utf8(self.bytes()),
            self.bytes() == encode_utf8(self@),
            self.spec_len() == self.bytes().len(),
    {
        if self.spec_len() > 0 {
            lemma_window(
                self.buffer(),
                self.offset() as int,
                (self.offset() + self.spec_len()) as int,
            );
        }
        decode_utf8_encode_utf8(self.bytes());
    }

    /// Where the text of a view is made of three parts, the middle part is
    /// a piece of the buffer that a view can show: it begins after the
    /// bytes of the first part and has the bytes of the middle part.
    pub proof fn lemma_piece(&self, before: Seq<char>, piece: Seq<char>, after: Seq<char>)
        requires
            self.wf(),
            self@ == before + piece + after,
        ensures
            encode_utf8(before).len() + encode_utf8(piece).len() + encode_utf8(after).len()
                == self.spec_len(),
            lies_at(
                self.buffer(),
                (self.offset() + encode_utf8(before).len()) as int,
                encode_utf8(piece),
            ),
            is_window(
                self.buffer(),
                (self.offset() + encode_utf8(before).len()) as int,
                encode_utf8(piece).len() as int,
            ),
    {
        let from = self.offset() as int;
        let head = encode_utf8(before).len() as int;
        let body = encode_utf8(piece).len() as int;
        self.lemma_text();
        lemma_encode_concat(before + piece, after);
        lemma_encode_concat(before, piece);
        assert(self.bytes() == encode_utf8(before) + encode_utf8(piece) + encode_utf8(after));
        assert(self.bytes().subrange(head, head + body) =~= encode_utf8(piece));
        assert(self.buffer().subrange(from + head, from + head + body) =~= self.bytes().subrange(
            head,
            head + body,
        ));
        encode_utf8_valid_utf8(piece);
        lemma_text_is_window(self.buffer(), from + head, encode_utf8(piece));
    }

    /// The root view of a new buffer that holds the text that `s` converts
    /// into.
    pub fn new<T: Into<String>>(s: T) -> (r: Self)
        ensures
            r.wf(),
            exists|text: String|
                {
                    &&& call_ensures(<T as Into<String>>::into, (s,), text)
                    &&& r.is_root_of(text@)
                    &&& r@ == text@
                },
    {
        let text: String = s.into();
        RcStr::from(text)
    }

    /// The view of `s` in the buffer of `owner`, if `s` lies in that buffer:
    /// see [`RcStr::sliced`].
    pub fn from_slice(owner: &Self, s: &str) -> (r: Option<Self>)
        ensures
            r matches Some(v) ==> {
                &&& v.wf()
                &&& v.buffer() == owner.buffer()
                &&& lies_at(owner.buffer(), v.offset() as int, s.spec_bytes())
                &&& v.bytes() == s.spec_bytes()
                &&& v@ == s@
            },
    {
        owner.sliced(s)
    }

    /// The number of bytes that the view shows.
    pub fn len(&self) -> (r: usize)
        ensures
            r == self.spec_len(),
            r == self.bytes().len(),
            r == encode_utf8(self@).len(),
    {
        proof {
            use_type_invariant(self);
            self.lemma_text();
        }
        self.len
    }

    /// The bytes that the view shows, as they lie in the buffer.
    pub fn as_bytes(&self) -> (r: &[u8])
        ensures
            r@ == self.bytes(),
            r@ == encode_utf8(self@),
    {
        proof {
            use_type_invariant(self);
            self.lemma_text();
        }
        let whole: &str = &*self.inner;
        slice_subrange(whole.as_bytes(), self.start, self.start + self.len)
    }

    /// The text that the view shows, as it lies in the buffer.
    pub fn as_str(&self) -> (r: &str)
        ensures
            r@ == self@,
            r.spec_bytes() == self.bytes(),
    {
        proof {
            use_type_invariant(self);
        }
        let whole: &str = &*self.inner;
        if self.len == 0 {
            // An empty view may begin inside a character, where no text can
            // be split: the empty text is made of the bytes at that place.
            let text = text_of(self.as_bytes()).unwrap();
            proof {
                encode_utf8_decode_utf8(text@);
            }
            text
        } else {
            proof {
                let buffer = self.buffer();
                is_char_boundary_start_end_of_seq(buffer);
                lemma_window(buffer, self.start as int, buffer.len() as int);
            }
            let (_, tail) = whole.split_at(self.start);
            let (text, _) = tail.split_at(self.len);
            proof {
                assert(text.spec_bytes() =~= self.bytes());
                encode_utf8_decode_utf8(text@);
            }
            text
        }
    }

    /// The view without its leading and trailing whitespace.
    pub fn trim(&self) -> (r: Self)
        ensures
            r.wf(),
            r.buffer() == self.buffer(),
            r@ == trimmed(self@),
            trimmed(r@) == r@,
            r.offset() + r.spec_len() == self.offset() + encode_utf8(trimmed_end(self@)).len(),
    {
        let front = self.trim_end();
        proof {
            front.lemma_text();
            law_trimmed_idempotent(self@);
        }
        front.trim_start()
    }

    /// The view without its leading whitespace. It ends where `self` ends.
    pub fn trim_start(&self) -> (r: Self)
        ensures
            r.wf(),
            r.buffer() == self.buffer(),
            r@ == trimmed_start(self@),
            trimmed_start(r@) == r@,
            r.offset() + r.spec_len() == self.offset() + self.spec_len(),
    {
        let text = self.as_str();
        let kept = text.trim_start();
        let len = kept.as_bytes().len();
        proof {
            use_type_invariant(self);
            let cut = text@.take(leading_white_space(text@) as int);
            lemma_leading_white_space(text@);
            law_trimmed_start_idempotent(text@);
            assert(text@ =~= cut + kept@);
            self.lemma_piece(cut, kept@, Seq::empty());
        }
        let r = self.window(self.start + (self.len - len), len).unwrap();
        proof {
            encode_utf8_decode_utf8(kept@);
        }
        r
    }

    /// The view without its trailing whitespace. It begins where `self`
    /// begins.
    pub fn trim_end(&self) -> (r: Self)
        ensures
            r.wf(),
            r.buffer() == self.buffer(),
            r@ == trimmed_end(self@),
            trimmed_end(r@) == r@,
            r.offset() == self.offset(),
    {
        let text = self.as_str();
        let kept = text.trim_end();
        let len = kept.as_bytes().len();
        proof {
            use_type_invariant(self);
            let cut = text@.skip(text@.len() - trailing_white_space(text@));
            lemma_trailing_white_space(text@);
            law_trimmed_end_idempotent(text@);
            assert(text@ =~= Seq::<char>::empty() + kept@ + cut);
            self.lemma_piece(Seq::empty(), kept@, cut);
        }
        let r = self.window(self.start, len).unwrap();
        proof {
            encode_utf8_decode_utf8(kept@);
        }
        r
    }

    /// The view of `s` in the buffer, if `s` lies in the buffer.
    ///
    /// Where `s` lies is told by its address, which is no function of its
    /// text: equal text at another place has no view. Where there is a
    /// view, it shows the text of `s`, and the bytes of `s` are the bytes of
    /// the buffer at the place where the view begins. [`RcStr::sliced_at`]
    /// says for each pair of addresses what is returned.
    ///
    /// The text may lie anywhere in the buffer, also outside `self`.
    pub fn sliced(&self, s: &str) -> (r: Option<Self>)
        ensures
            r matches Some(v) ==> {
                &&& v.wf()
                &&& v.buffer() == self.buffer()
                &&& lies_at(self.buffer(), v.offset() as int, s.spec_bytes())
                &&& v.bytes() == s.spec_bytes()
                &&& v@ == s@
            },
    {
        let base = address(&*self.inner);
        let addr = address(s);
        self.sliced_at(base, addr, s)
    }

    /// The view of what `f` picks from the text of `self`, if that lies in
    /// the buffer: see [`RcStr::sliced`].
    pub fn slice_with<F>(&self, f: F) -> (r: Option<Self>) where F: FnOnce(&str) -> &str
        requires
            forall|text: &str| text@ == self@ ==> call_requires(f, (text,)),
        ensures
            r matches Some(v) ==> {
                &&& v.wf()
                &&& v.buffer() == self.buffer()
                &&& exists|text: &str, picked: &str|
                    {
                        &&& text@ == self@
                        &&& call_ensures(f, (text,), picked)
                        &&& lies_at(self.buffer(), v.offset() as int, picked.spec_bytes())
                        &&& v@ == picked@
                    }
            },
    {
        self.sliced(f(self.as_str()))
    }

    /// The view of `s` in the buffer, where `base` is the address of the
    /// buffer's first byte and `addr` that of the first byte of `s`.
    ///
    /// There is a view if and only if `addr` is the address of a byte of
    /// the buffer, or the one just past its last byte, and the buffer holds
    /// the bytes of `s` from there on. So empty text has a view at every
    /// such address, also inside a character. The bytes are compared one by
    /// one, so text that only begins in the buffer and runs past its end has
    /// no view, nor has text from elsewhere that is taken for a piece of the
    /// buffer.
    pub fn sliced_at(&self, base: usize, addr: usize, s: &str) -> (r: Option<Self>)
        ensures
            r is Some <==> self.derivable(base as int, addr as int, s.spec_bytes()),
            r matches Some(v) ==> {
                &&& v.wf()
                &&& v.buffer() == self.buffer()
                &&& v.offset() == addr - base
                &&& v.bytes() == s.spec_bytes()
                &&& v@ == s@
            },
    {
        let whole: &str = &*self.inner;
        let total = whole.as_bytes().len();
        let bytes = s.as_bytes();
        proof {
            use_type_invariant(self);
            encode_utf8_valid_utf8(s@);
            if lies_at(self.buffer(), addr - base, bytes@) {
                lemma_text_is_window(self.buffer(), addr - base, bytes@);
            }
        }
        match locate(base, total, addr) {
            None => None,
            Some(offset) => match self.window(offset, bytes.len()) {
                None => None,
                Some(v) => if same_bytes(v.as_bytes(), bytes) {
                    proof {
                        encode_utf8_decode_utf8(s@);
                    }
                    Some(v)
                } else {
                    None
                },
            },
        }
    }

    /// The view of `len` bytes that begin at byte `start` of the buffer, if
    /// that piece lies in the buffer and is empty or begins and ends on
    /// character boundaries. Both numbers count from the start of the
    /// buffer, not of `self`.
    pub fn window(&self, start: usize, len: usize) -> (r: Option<Self>)
        ensures
            r is Some <==> is_window(self.buffer(), start as int, len as int),
            r matches Some(v) ==> {
                &&& v.wf()
                &&& v.buffer() == self.buffer()
                &&& v.offset() == start
                &&& v.spec_len() == len
            },
    {
        let whole: &str = &*self.inner;
        let total = whole.as_bytes().len();
        if start > total || len > total - start {
            return None;
        }
        if len > 0 && !(whole.is_char_boundary(start) && whole.is_char_boundary(start + len)) {
            return None;
        }
        proof {
            encode_utf8_valid_utf8(self.inner@);
        }
        Some(RcStr { inner: self.inner.clone(), start, len })
    }
}

/// Whether two slices hold the same bytes.
fn same_bytes(a: &[u8], b: &[u8]) -> (r: bool)
    ensures
        r == (a@ == b@),
{
    if a.len() != b.len() {
        return false;
    }
    let mut i: usize = 0;
    while i < a.len()
        invariant
            a@.len() == b@.len(),
            i <= a@.len(),
            forall|j: int| 0 <= j < i ==> a@[j] == b@[j],
        decreases a@.len() - i,
    {
        if a[i] != b[i] {
            return false;
        }
        i += 1;
    }
    proof {
        assert(a@ =~= b@);
    }
    true
}

impl Deref for RcStr {
    type Target = str;

    /// The text that the view shows: a view reads as a `str` does.
    fn deref(&self) -> (r: &str)
        ensures
            r@ == self@,
            r.spec_bytes() == self.bytes(),
    {
        self.as_str()
    }
}

impl Clone for RcStr {
    /// Another view of the same piece of the same buffer.
    fn clone(&self) -> (r: Self)
        ensures
            r == *self,
    {
        proof {
            use_type_invariant(self);
        }
        RcStr { inner: self.inner.clone(), start: self.start, len: self.len }
    }
}

impl From<Rc<str>> for RcStr {
    /// The root view of an existing shared buffer.
    fn from(inner: Rc<str>) -> (r: Self)
        ensures
            r.wf(),
            r.is_root_of(inner@),
            r@ == inner@,
    {
        let len = inner.as_bytes().len();
        proof {
            let buffer = encode_utf8(inner@);
            encode_utf8_valid_utf8(inner@);
            is_char_boundary_start_end_of_seq(buffer);
            assert(buffer.subrange(0, buffer.len() as int) =~= buffer);
            encode_utf8_decode_utf8(inner@);
        }
        RcStr { inner, start: 0, len }
    }
}

impl vstd::std_specs::convert::FromSpecImpl<Rc<str>> for RcStr {
    open spec fn obeys_from_spec() -> bool {
        true
    }

    closed spec fn from_spec(inner: Rc<str>) -> Self {
        RcStr { inner, start: 0, len: encode_utf8(inner@).len() as usize }
    }
}

impl<'a> From<&'a str> for RcStr {
    /// The root view of a new buffer that holds a copy of `s`.
    fn from(s: &'a str) -> (r: Self)
        ensures
            r.wf(),
            r.is_root_of(s@),
            r@ == s@,
    {
        RcStr::from(Rc::<str>::from(s))
    }
}

impl<'a> vstd::std_specs::convert::FromSpecImpl<&'a str> for RcStr {
    /// Which buffer holds the text is no function of the text, so no spec
    /// function gives the view: `from` says in its own contract what it
    /// returns.
    open spec fn obeys_from_spec() -> bool {
        false
    }

    open spec fn from_spec(s: &'a str) -> Self {
        arbitrary()
    }
}

impl From<String> for RcStr {
    /// The root view of a new buffer that holds the text of `s`.
    fn from(s: String) -> (r: Self)
        ensures
            r.wf(),
            r.is_root_of(s@),
            r@ == s@,
    {
        RcStr::from(Rc::<str>::from(s))
    }
}

impl vstd::std_specs::convert::FromSpecImpl<String> for RcStr {
    /// Which buffer holds the text is no function of the text, so no spec
    /// function gives the view: `from` says in its own contract what it
    /// returns.
    open spec fn obeys_from_spec() -> bool {
        false
    }

    open spec fn from_spec(s: String) -> Self {
        arbitrary()
    }
}

} // verus!
