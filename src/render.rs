use vstd::prelude::*;
use vstd::string::StringSliceAdditionalSpecFns;
use vstd::utf8::{
    is_ascii_chars_encode_utf8, is_leading_byte_width_1,
    partial_valid_utf8_extend_ascii_block, valid_utf8,
};

verus! {

/// ASCII `0`.
pub const DIGIT_ZERO: u8 = 0x30;

/// ASCII `9`.
pub const DIGIT_NINE: u8 = 0x39;

/// ASCII `a`.
pub const LETTER_A: u8 = 0x61;

/// ASCII `-`.
pub const MINUS_SIGN: u8 = 0x2d;

/// The lowercase hexadecimal digit for `v`, which is below 16.
pub open spec fn hex_digit(v: u8) -> u8 {
    if v < 10 {
        (DIGIT_ZERO + v) as u8
    } else {
        (LETTER_A + (v - 10)) as u8
    }
}

/// Lowercase hexadecimal text of `data`: two digits per byte, the high
/// nibble first.
pub open spec fn hex_text(data: Seq<u8>) -> Seq<u8> {
    Seq::new(
        2 * data.len(),
        |j: int|
            if j % 2 == 0 {
                hex_digit(data[j / 2] >> 4)
            } else {
                hex_digit(data[j / 2] & 0x0f)
            },
    )
}

/// How many bytes of `data_len` are encoded into a buffer of `buffer_len`
/// bytes: all of them, or as many whole ones as fit.
pub open spec fn hex_count(data_len: nat, buffer_len: nat) -> nat {
    if data_len <= buffer_len / 2 {
        data_len
    } else {
        buffer_len / 2
    }
}

fn hex_digit_of(v: u8) -> (r: u8)
    requires
        v < 16,
    ensures
        r == hex_digit(v),
{
    if v < 10 {
        DIGIT_ZERO + v
    } else {
        LETTER_A + (v - 10)
    }
}

/// Writes the lowercase hexadecimal text of `data` to the front of `buffer`.
/// Where the buffer is too short, only as many whole bytes as fit are
/// written; the rest of the buffer is left as it was.
pub fn hexlify(data: &[u8], buffer: &mut [u8])
    ensures
        final(buffer)@ == hex_text(data@.take(hex_count(data@.len(), old(buffer)@.len()) as int))
            + old(buffer)@.skip(2 * hex_count(data@.len(), old(buffer)@.len()) as int),
{
    let count: usize = if data.len() <= buffer.len() / 2 {
        data.len()
    } else {
        buffer.len() / 2
    };
    let ghost n = count as int;
    let mut k: usize = 0;
    while k < count
        invariant
            n == count,
            count == hex_count(data@.len(), old(buffer)@.len()),
            2 * count <= buffer@.len() <= usize::MAX,
            k <= count,
            buffer@.len() == old(buffer)@.len(),
            forall|j: int| 0 <= j < 2 * k ==> buffer@[j] == #[trigger] hex_text(data@.take(n))[j],
            forall|j: int| 2 * k <= j < buffer@.len() ==> buffer@[j] == old(buffer)@[j],
        decreases count - k,
    {
        let b: u8 = data[k];
        assert(b >> 4 < 16) by (bit_vector);
        assert(b & 0x0f < 16) by (bit_vector);
        let i: usize = 2 * k;
        buffer[i] = hex_digit_of(b >> 4);
        buffer[i + 1] = hex_digit_of(b & 0x0f);
        proof {
            let h = hex_text(data@.take(n));
            assert(h[i as int] == hex_digit(b >> 4));
            assert(h[i + 1] == hex_digit(b & 0x0f));
        }
        k = k + 1;
    }
    assert(buffer@ =~= hex_text(data@.take(n)) + old(buffer)@.skip(2 * n));
}

/// Decimal digits of `n`, most significant first; none for zero.
pub open spec fn decimal_digits(n: nat) -> Seq<u8>
    decreases n,
{
    if n == 0 {
        Seq::empty()
    } else {
        decimal_digits(n / 10).push((DIGIT_ZERO + n % 10) as u8)
    }
}

/// Magnitude of `num`.
pub open spec fn magnitude(num: i64) -> nat {
    if num < 0 {
        (-num) as nat
    } else {
        num as nat
    }
}

/// Decimal text of `num`: `0` for zero, and a `-` before the digits of a
/// negative number.
pub open spec fn decimal_text(num: i64) -> Seq<u8> {
    if num == 0 {
        seq![DIGIT_ZERO]
    } else if num < 0 {
        seq![MINUS_SIGN] + decimal_digits(magnitude(num))
    } else {
        decimal_digits(magnitude(num))
    }
}

/// A byte string of ASCII characters is valid UTF-8.
proof fn lemma_ascii_valid_utf8(bytes: Seq<u8>)
    requires
        forall|i: int| 0 <= i < bytes.len() ==> bytes[i] < 0x80,
    ensures
        valid_utf8(bytes),
{
    assert(bytes.subrange(0, 0) =~= Seq::<u8>::empty());
    assert(forall|i: int| 0 <= i < bytes.len() ==> #[trigger] is_leading_byte_width_1(bytes[i]));
    partial_valid_utf8_extend_ascii_block(bytes, 0, bytes.len() as int);
    assert(bytes.subrange(0, bytes.len() as int) =~= bytes);
}

proof fn lemma_digits_ascii(n: nat)
    ensures
        forall|i: int| 0 <= i < decimal_digits(n).len() ==> DIGIT_ZERO <= #[trigger] decimal_digits(n)[i] <= DIGIT_NINE,
    decreases n,
{
    if n > 0 {
        lemma_digits_ascii(n / 10);
        let d = (DIGIT_ZERO + n % 10) as u8;
        assert(DIGIT_ZERO <= d <= DIGIT_NINE);
        assert(decimal_digits(n) == decimal_digits(n / 10).push(d));
    }
}

/// Relies on core::str::from_utf8: it accepts exactly the valid UTF-8 byte
/// strings, and then returns a view of the same bytes.
#[verifier::external_body]
fn str_from_utf8(v: &[u8]) -> (r: Option<&str>)
    ensures
        r is Some <==> valid_utf8(v@),
        r matches Some(s) ==> s.spec_bytes() == v@,
{
    core::str::from_utf8(v).ok()
}

/// Renders `num` in decimal into `buffer` and returns the text written.
/// Zero gives `"0"` whatever the buffer. Otherwise the result is `None` when
/// the digits, with the sign of a negative number, do not fit in the buffer.
/// The most negative `i64` renders as its full magnitude with a sign.
pub fn format_i64(num: i64, buffer: &mut [u8]) -> (r: Option<&str>)
    ensures
        r is Some <==> (num == 0 || decimal_text(num).len() <= old(buffer)@.len()),
        r matches Some(s) ==> s.spec_bytes() == decimal_text(num),
        final(buffer)@.len() == old(buffer)@.len(),
        num != 0 && r is Some ==> final(buffer)@ == decimal_text(num) + old(buffer)@.skip(
            decimal_text(num).len() as int,
        ),
{
    if num == 0 {
        let zero: &'static str = "0";
        proof {
            reveal_strlit("0");
            is_ascii_chars_encode_utf8(zero@);
            assert(zero.spec_bytes() =~= seq![DIGIT_ZERO]);
        }
        return Some(zero);
    }
    let negative: bool = num < 0;
    let mut mag: u64 = if negative {
        (-(num as i128)) as u64
    } else {
        num as u64
    };
    let ghost m0: nat = mag as nat;
    assert(m0 == magnitude(num));
    let mut i: usize = 0;
    while mag > 0 && i < buffer.len()
        invariant
            m0 == magnitude(num),
            i <= buffer@.len(),
            buffer@.len() == old(buffer)@.len(),
            decimal_digits(m0) == decimal_digits(mag as nat) + buffer@.take(i as int).reverse(),
            forall|j: int| i <= j < buffer@.len() ==> buffer@[j] == old(buffer)@[j],
        decreases mag,
    {
        let d: u8 = (mag % 10) as u8;
        buffer[i] = DIGIT_ZERO + d;
        assert(decimal_digits(mag as nat) == decimal_digits((mag / 10) as nat).push((DIGIT_ZERO + d) as u8));
        assert(buffer@.take(i + 1).reverse() =~= seq![(DIGIT_ZERO + d) as u8] + buffer@.take(i as int).reverse());
        mag = mag / 10;
        i = i + 1;
    }
    if mag > 0 {
        return None;
    }
    if negative && i == buffer.len() {
        return None;
    }
    if negative {
        buffer[i] = MINUS_SIGN;
        assert(buffer@.take(i + 1).reverse() =~= seq![MINUS_SIGN] + buffer@.take(i as int).reverse());
        i = i + 1;
    }
    assert(buffer@.take(i as int).reverse() == decimal_text(num));
    assert(forall|j: int| i <= j < buffer@.len() ==> buffer@[j] == old(buffer)@[j]);
    let ghost written = buffer@;
    let mut lo: usize = 0;
    let mut hi: usize = i;
    while lo + 1 < hi
        invariant
            lo + hi == i,
            lo <= hi,
            i <= buffer@.len(),
            buffer@.len() == written.len(),
            forall|k: int| 0 <= k < lo ==> buffer@[k] == written[i - 1 - k],
            forall|k: int| hi <= k < i ==> buffer@[k] == written[i - 1 - k],
            forall|k: int| lo <= k < hi ==> buffer@[k] == written[k],
            forall|k: int| i <= k < buffer@.len() ==> buffer@[k] == written[k],
        decreases hi - lo,
    {
        let t: u8 = buffer[lo];
        buffer[lo] = buffer[hi - 1];
        buffer[hi - 1] = t;
        lo = lo + 1;
        hi = hi - 1;
    }
    assert(buffer@.take(i as int) =~= written.take(i as int).reverse());
    proof {
        lemma_digits_ascii(m0);
        lemma_ascii_valid_utf8(buffer@.take(i as int));
    }
    assert(buffer@.take(i as int) == decimal_text(num));
    assert(buffer@ =~= decimal_text(num) + old(buffer)@.skip(decimal_text(num).len() as int));
    let filled: &[u8] = buffer;
    str_from_utf8(&filled[0..i])
}

} // verus!
