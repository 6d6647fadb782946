use vstd::prelude::*;
use vstd::string::StringSliceAdditionalSpecFns;
use vstd::utf8::{is_char_boundary, valid_utf8, valid_utf8_split};

use crate::encoding::{lemma_boundary_after_skip, lemma_str_bytes_valid};

verus! {

/// Handle to one entry of the localized message table: the message's
/// identifier together with the text that the table holds for it. The table
/// is fixed once loaded, so the text lives for the whole process.
///
/// A message is at most `u16::MAX` bytes long, so that any byte offset into it
/// fits in a `u16`.
#[derive(Clone, Copy)]
pub struct TR {
    id: u16,
    message: &'static str,
}

impl TR {
    #[verifier::type_invariant]
    spec fn addressable(self) -> bool {
        self.message.spec_bytes().len() <= u16::MAX
    }

    /// The identifier of the message.
    pub closed spec fn spec_id(self) -> u16 {
        self.id
    }

    /// The full text of the message, as UTF-8 bytes.
    pub closed spec fn message(self) -> Seq<u8> {
        self.message.spec_bytes()
    }

    /// A message is well-formed UTF-8.
    pub proof fn lemma_message_valid(self)
        ensures
            valid_utf8(self.message()),
    {
        lemma_str_bytes_valid(self.message);
    }

    /// Makes the handle of the entry `id` whose text is `message`; `None` when
    /// the text is too long for its offsets to fit in a `u16`.
    pub fn new(id: u16, message: &'static str) -> (r: Option<TR>)
        ensures
            r is Some <==> message.spec_bytes().len() <= u16::MAX,
            r matches Some(tr) ==> tr.spec_id() == id && tr.message() == message.spec_bytes(),
    {
        if message.as_bytes().len() <= 0xffff {
            Some(TR { id, message })
        } else {
            None
        }
    }

    pub fn id(&self) -> (r: u16)
        ensures
            r == self.spec_id(),
    {
        self.id
    }

    /// Byte length of the full message.
    pub fn message_len(&self) -> (r: u16)
        ensures
            r == self.message().len(),
    {
        proof {
            use_type_invariant(self);
        }
        self.message.as_bytes().len() as u16
    }

    /// Scoped access to the full message: `fun` is handed the text, which it
    /// must not keep, and its result is returned.
    pub fn map_translated<F, T>(&self, fun: F) -> (r: T)
        where
            F: FnOnce(&str) -> T,
        requires
            forall|s: &str| s.spec_bytes() == self.message() ==> #[trigger] call_requires(fun, (s,)),
        ensures
            exists|s: &str| s.spec_bytes() == self.message() && call_ensures(fun, (s,), r),
    {
        let s: &str = self.message;
        assert(call_requires(fun, (s,)));
        fun(s)
    }
}

/// The part of a localized message that starts `offset` bytes in. The offset
/// never passes the end of the message and always falls between characters.
#[derive(Clone, Copy)]
pub struct MessageSuffix {
    tr: TR,
    offset: u16,
}

impl MessageSuffix {
    #[verifier::type_invariant]
    spec fn inv(self) -> bool {
        &&& self.offset <= self.tr.message().len()
        &&& is_char_boundary(self.tr.message(), self.offset as int)
    }

    pub closed spec fn spec_tr(self) -> TR {
        self.tr
    }

    pub closed spec fn spec_offset(self) -> u16 {
        self.offset
    }

    /// What every suffix satisfies.
    pub open spec fn well_formed(self) -> bool {
        &&& self.spec_offset() <= self.spec_tr().message().len()
        &&& is_char_boundary(self.spec_tr().message(), self.spec_offset() as int)
    }

    /// The text of the suffix, as UTF-8 bytes.
    pub open spec fn text(self) -> Seq<u8> {
        self.spec_tr().message().skip(self.spec_offset() as int)
    }

    /// The text of a suffix is well-formed UTF-8.
    pub proof fn lemma_text_valid(self)
        requires
            self.well_formed(),
        ensures
            valid_utf8(self.text()),
    {
        self.tr.lemma_message_valid();
        valid_utf8_split(self.tr.message(), self.offset as int);
        assert(self.text() == self.tr.message().subrange(self.offset as int, self.tr.message().len() as int));
    }

    /// The whole message `tr`, from offset zero.
    pub closed spec fn spec_whole(tr: TR) -> MessageSuffix {
        MessageSuffix { tr, offset: 0 }
    }

    /// The whole message `tr`.
    pub fn whole(tr: TR) -> (r: MessageSuffix)
        ensures
            r == MessageSuffix::spec_whole(tr),
            r.spec_tr() == tr,
            r.spec_offset() == 0,
            r.text() == tr.message(),
            r.well_formed(),
    {
        proof {
            tr.lemma_message_valid();
        }
        MessageSuffix { tr, offset: 0 }
    }

    pub fn tr(&self) -> (r: TR)
        ensures
            r == self.spec_tr(),
    {
        self.tr
    }

    pub fn offset(&self) -> (r: u16)
        ensures
            r == self.spec_offset(),
            self.well_formed(),
    {
        proof {
            use_type_invariant(self);
        }
        self.offset
    }

    /// Scoped access to the suffix: `fun` is handed the text, which it must
    /// not keep, and its result is returned.
    pub fn map<F, T>(&self, fun: F) -> (r: T)
        where
            F: FnOnce(&str) -> T,
        requires
            forall|s: &str| s.spec_bytes() == self.text() ==> #[trigger] call_requires(fun, (s,)),
        ensures
            exists|s: &str| s.spec_bytes() == self.text() && call_ensures(fun, (s,), r),
    {
        proof {
            use_type_invariant(self);
        }
        let off: usize = self.offset as usize;
        let ghost suffix = self.text();
        let tr = self.tr;
        let tail = move |s: &str| -> (r: T)
            requires
                s.spec_bytes() == tr.message(),
                off <= tr.message().len(),
                is_char_boundary(tr.message(), off as int),
                suffix == tr.message().skip(off as int),
                forall|t: &str| t.spec_bytes() == suffix ==> #[trigger] call_requires(fun, (t,)),
            ensures
                exists|t: &str| t.spec_bytes() == suffix && call_ensures(fun, (t,), r),
            {
                let (_, rest) = s.split_at(off);
                assert(call_requires(fun, (rest,)));
                fun(rest)
            };
        tr.map_translated(tail)
    }

    /// The same message with the offset moved `skip_bytes` further in.
    pub fn skip_prefix(&self, skip_bytes: usize) -> (r: MessageSuffix)
        requires
            skip_bytes <= self.text().len(),
            is_char_boundary(self.text(), skip_bytes as int),
        ensures
            r.spec_tr() == self.spec_tr(),
            r.spec_offset() == self.spec_offset() + skip_bytes,
            r.text() == self.text().skip(skip_bytes as int),
            r.well_formed(),
    {
        proof {
            use_type_invariant(self);
            use_type_invariant(self.tr);
            self.tr.lemma_message_valid();
            lemma_boundary_after_skip(self.tr.message(), self.offset as int, skip_bytes as int);
        }
        MessageSuffix { tr: self.tr, offset: self.offset + skip_bytes as u16 }
    }
}

} // verus!
