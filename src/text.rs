use vstd::prelude::*;
use vstd::std_specs::cmp::PartialEqSpec;
use vstd::string::StringSliceAdditionalSpecFns;
use vstd::utf8::{encode_utf8_decode_utf8, is_char_boundary, valid_utf8};

use crate::buffer::StrBuffer;
use crate::encoding::{lemma_boundary_after_skip, lemma_str_bytes_valid};
use crate::translations::{MessageSuffix, TR};

verus! {

/// What any text-like type offers: a short-lived view as text, construction
/// from a literal, and conversion into a [`TString`].
pub trait StringType: From<&'static str> + Into<TString<'static>> {
    /// The text, for as long as `self` is borrowed.
    fn as_text(&self) -> &str;
}

impl StringType for &'static str {
    fn as_text(&self) -> &str {
        *self
    }
}

impl StringType for StrBuffer {
    fn as_text(&self) -> &str {
        self.as_str()
    }
}

/// Text from one of three origins, read through one interface.
#[derive(Clone, Copy)]
pub enum TString<'a> {
    /// Text owned by the host runtime.
    Allocated(StrBuffer),
    /// The part of a localized message that starts `offset` bytes in.
    Translation(MessageSuffix),
    /// Borrowed text, such as a literal.
    Str(&'a str),
}

impl<'a> View for TString<'a> {
    type V = Seq<u8>;

    /// The represented text, as UTF-8 bytes.
    open spec fn view(&self) -> Seq<u8> {
        match *self {
            TString::Allocated(buf) => buf.bytes(),
            TString::Translation(m) => m.text(),
            TString::Str(s) => s.spec_bytes(),
        }
    }
}

impl<'a> TString<'a> {
    /// What every value satisfies: a localized one points into its message
    /// at a character boundary.
    pub open spec fn well_formed(self) -> bool {
        match self {
            TString::Translation(m) => m.well_formed(),
            _ => true,
        }
    }

    /// The text of every value is well-formed UTF-8.
    pub proof fn lemma_valid(self)
        requires
            self.well_formed(),
        ensures
            valid_utf8(self@),
    {
        match self {
            TString::Allocated(buf) => buf.lemma_bytes_valid(),
            TString::Translation(m) => m.lemma_text_valid(),
            TString::Str(s) => lemma_str_bytes_valid(s),
        }
    }

    /// Byte length of the text.
    pub fn len(&self) -> (r: usize)
        ensures
            r == self@.len(),
    {
        self.map(|s: &str| -> (n: usize) ensures n == s.spec_bytes().len() { s.as_bytes().len() })
    }

    pub fn is_empty(&self) -> (r: bool)
        ensures
            r == (self@.len() == 0),
    {
        self.len() == 0
    }

    /// Scoped access to the text: `fun` is handed a view of it, which is
    /// valid only during the call and must not escape it, and its result is
    /// returned.
    pub fn map<F, T>(&self, fun: F) -> (r: T)
        where
            F: FnOnce(&str) -> T,
        requires
            forall|s: &str| s.spec_bytes() == self@ ==> #[trigger] call_requires(fun, (s,)),
        ensures
            exists|s: &str| s.spec_bytes() == self@ && call_ensures(fun, (s,), r),
    {
        match *self {
            TString::Allocated(buf) => {
                let s: &str = buf.as_str();
                assert(call_requires(fun, (s,)));
                let out = fun(s);
                assert(s.spec_bytes() == self@ && call_ensures(fun, (s,), out));
                out
            },
            TString::Translation(m) => m.map(fun),
            TString::Str(s) => {
                assert(call_requires(fun, (s,)));
                let out = fun(s);
                assert(s.spec_bytes() == self@ && call_ensures(fun, (s,), out));
                out
            },
        }
    }

    /// The same text without its first `skip_bytes` bytes, in the same
    /// variant: a message keeps its identifier and moves its offset.
    pub fn skip_prefix(&self, skip_bytes: usize) -> (r: Self)
        requires
            skip_bytes <= self@.len(),
            is_char_boundary(self@, skip_bytes as int),
        ensures
            r@ == self@.skip(skip_bytes as int),
            r is Allocated <==> self is Allocated,
            r is Str <==> self is Str,
            self matches TString::Translation(m) ==> r matches TString::Translation(n) && n.spec_tr()
                == m.spec_tr() && n.spec_offset() == m.spec_offset() + skip_bytes,
    {
        match *self {
            TString::Allocated(buf) => TString::Allocated(buf.skip_prefix(skip_bytes)),
            TString::Translation(m) => TString::Translation(m.skip_prefix(skip_bytes)),
            TString::Str(s) => {
                let (_, rest) = s.split_at(skip_bytes);
                TString::Str(rest)
            },
        }
    }
}

impl TString<'static> {
    /// The whole localized message `tr`.
    pub fn from_translation(tr: TR) -> (r: Self)
        ensures
            r == TString::Translation(MessageSuffix::spec_whole(tr)),
            r matches TString::Translation(m) && m.spec_tr() == tr && m.spec_offset() == 0,
            r@ == tr.message(),
    {
        TString::Translation(MessageSuffix::whole(tr))
    }

    /// Text held by the host runtime.
    pub fn from_strbuffer(buf: StrBuffer) -> (r: Self)
        ensures
            r == TString::Allocated(buf),
            r@ == buf.bytes(),
    {
        TString::Allocated(buf)
    }

    /// The empty text.
    pub fn empty() -> (r: Self)
        ensures
            r is Str,
            r@.len() == 0,
    {
        let s: &'static str = "";
        proof {
            reveal_strlit("");
        }
        TString::Str(s)
    }
}

impl<'a> TString<'a> {
    /// Borrowed text.
    pub fn from_str(s: &'a str) -> (r: Self)
        ensures
            r == TString::Str(s),
            r@ == s.spec_bytes(),
    {
        TString::Str(s)
    }
}

impl<'a> From<&'a str> for TString<'a> {
    fn from(s: &'a str) -> (r: Self) {
        TString::Str(s)
    }
}

impl<'a> vstd::std_specs::convert::FromSpecImpl<&'a str> for TString<'a> {
    open spec fn obeys_from_spec() -> bool {
        true
    }

    open spec fn from_spec(s: &'a str) -> Self {
        TString::Str(s)
    }
}

impl From<TR> for TString<'static> {
    fn from(tr: TR) -> (r: Self) {
        TString::from_translation(tr)
    }
}

impl vstd::std_specs::convert::FromSpecImpl<TR> for TString<'static> {
    open spec fn obeys_from_spec() -> bool {
        true
    }

    open spec fn from_spec(tr: TR) -> Self {
        TString::Translation(MessageSuffix::spec_whole(tr))
    }
}

impl From<StrBuffer> for TString<'static> {
    fn from(buf: StrBuffer) -> (r: Self) {
        TString::Allocated(buf)
    }
}

impl vstd::std_specs::convert::FromSpecImpl<StrBuffer> for TString<'static> {
    open spec fn obeys_from_spec() -> bool {
        true
    }

    open spec fn from_spec(buf: StrBuffer) -> Self {
        TString::Allocated(buf)
    }
}

/// Whether `a` and `b` hold the same bytes.
pub fn same_bytes(a: &[u8], b: &[u8]) -> (r: bool)
    ensures
        r == (a@ == b@),
{
    if a.len() != b.len() {
        return false;
    }
    let mut i: usize = 0;
    while i < a.len()
        invariant
            a@.len() == b@.len(),
            i <= a@.len(),
            forall|k: int| 0 <= k < i ==> a@[k] == b@[k],
        decreases a@.len() - i,
    {
        if a[i] != b[i] {
            return false;
        }
        i = i + 1;
    }
    assert(a@ =~= b@);
    true
}

/// Equality by content, whatever the origin of either side.
impl<'a, 'b> PartialEq<TString<'a>> for TString<'b> {
    fn eq(&self, other: &TString<'a>) -> (r: bool) {
        let compare = |s: &str| -> (r: bool)
            ensures
                r == (s.spec_bytes() == other@),
            {
                let against = |o: &str| -> (r: bool)
                    ensures
                        r == (s.spec_bytes() == o.spec_bytes()),
                    {
                        same_bytes(s.as_bytes(), o.as_bytes())
                    };
                other.map(against)
            };
        self.map(compare)
    }
}

impl<'a, 'b> vstd::std_specs::cmp::PartialEqSpecImpl<TString<'a>> for TString<'b> {
    open spec fn obeys_eq_spec() -> bool {
        true
    }

    open spec fn eq_spec(&self, other: &TString<'a>) -> bool {
        self@ == other@
    }
}

impl<'a> Eq for TString<'a> {

}

/// Borrowed text reads back as itself: any view that scoped access hands out
/// for `TString::from_str(t)` holds exactly the characters of `t`.
pub proof fn lemma_from_str_round_trip(t: &str, s: &str)
    requires
        s.spec_bytes() == TString::Str(t)@,
    ensures
        s@ == t@,
{
    encode_utf8_decode_utf8(s@);
    encode_utf8_decode_utf8(t@);
}

/// Equality goes by content alone: two values with the same text are equal,
/// whatever their origins.
pub proof fn lemma_eq_by_content<'a, 'b>(a: TString<'a>, b: TString<'b>)
    requires
        a@ == b@,
    ensures
        a.eq_spec(&b),
        b.eq_spec(&a),
{
}

/// Skipping `a` bytes and then `b` more gives the text that skipping `a + b`
/// bytes at once gives, and `a + b` is itself a valid place to skip to.
pub proof fn lemma_skip_prefix_twice<'a>(t: TString<'a>, a: nat, b: nat)
    requires
        t.well_formed(),
        a <= t@.len(),
        is_char_boundary(t@, a as int),
        b <= t@.skip(a as int).len(),
        is_char_boundary(t@.skip(a as int), b as int),
    ensures
        is_char_boundary(t@, (a + b) as int),
        t@.skip(a as int).skip(b as int) == t@.skip((a + b) as int),
{
    t.lemma_valid();
    lemma_boundary_after_skip(t@, a as int, b as int);
}

/// The length of a localized value is the length of its whole message less
/// its offset.
pub proof fn lemma_translation_len(m: MessageSuffix)
    requires
        m.well_formed(),
    ensures
        TString::Translation(m)@.len() == m.spec_tr().message().len() - m.spec_offset(),
{
}

} // verus!
