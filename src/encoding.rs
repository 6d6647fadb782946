use vstd::prelude::*;
use vstd::string::StringSliceAdditionalSpecFns;
use vstd::utf8::{
    encode_utf8_valid_utf8, is_char_boundary, is_char_boundary_iff_not_is_continuation_byte,
    is_char_boundary_start_end_of_seq, valid_utf8, valid_utf8_split,
};

verus! {

/// The bytes of every `&str` are valid UTF-8.
pub proof fn lemma_str_bytes_valid(s: &str)
    ensures
        valid_utf8(s.spec_bytes()),
{
    encode_utf8_valid_utf8(s@);
}

/// Skipping `a` bytes and then `b` more lands on a character boundary of the
/// whole text whenever each step lands on one of what it was given.
pub proof fn lemma_boundary_after_skip(bytes: Seq<u8>, a: int, b: int)
    requires
        valid_utf8(bytes),
        0 <= a <= bytes.len(),
        is_char_boundary(bytes, a),
        0 <= b <= bytes.len() - a,
        is_char_boundary(bytes.skip(a), b),
    ensures
        is_char_boundary(bytes, a + b),
        bytes.skip(a).skip(b) == bytes.skip(a + b),
{
    valid_utf8_split(bytes, a);
    let rest = bytes.skip(a);
    assert(rest == bytes.subrange(a, bytes.len() as int));
    if b == rest.len() {
        is_char_boundary_start_end_of_seq(bytes);
    } else {
        is_char_boundary_iff_not_is_continuation_byte(rest, b);
        is_char_boundary_iff_not_is_continuation_byte(bytes, a + b);
        assert(rest[b] == bytes[a + b]);
    }
    assert(bytes.skip(a).skip(b) =~= bytes.skip(a + b));
}

} // verus!
