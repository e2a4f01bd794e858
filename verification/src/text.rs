//! Turning payload bytes into text.

use vstd::prelude::*;
use vstd::string::StringSliceAdditionalSpecFns;
use vstd::utf8::codepoint_width_1;
use vstd::utf8::decode_utf8;
use vstd::utf8::encode_utf8_decode_utf8;
use vstd::utf8::is_leading_byte_width_1;
use vstd::utf8::pop_first_scalar;
use vstd::utf8::valid_first_scalar;
use vstd::utf8::valid_utf8;

verus! {

/// Relies on `std::str::from_utf8`: it succeeds exactly when the bytes are
/// a valid UTF-8 encoding, and the returned `&str` borrows those same bytes.
#[verifier::external_body]
pub(crate) fn str_from_utf8(bytes: &[u8]) -> (r: Option<&str>)
    ensures
        r is Some <==> valid_utf8(bytes@),
        r is Some ==> r->0.spec_bytes() == bytes@,
{
    std::str::from_utf8(bytes).ok()
}

/// Bytes below 128 are valid UTF-8 and decode to themselves, one character
/// per byte.
pub proof fn lemma_ascii_decode_utf8(bytes: Seq<u8>)
    requires
        forall|i: int| 0 <= i < bytes.len() ==> #[trigger] bytes[i] < 128,
    ensures
        valid_utf8(bytes),
        decode_utf8(bytes) == bytes.map(|i: int, b: u8| b as char),
    decreases bytes.len(),
{
    if bytes.len() == 0 {
        assert(decode_utf8(bytes) =~= bytes.map(|i: int, b: u8| b as char));
    } else {
        let b0 = bytes[0];
        assert(is_leading_byte_width_1(b0));
        assert(codepoint_width_1(b0) == b0 as u32) by {
            assert(b0 <= 0x7f ==> (b0 & 0x7f) == b0) by (bit_vector);
        }
        assert(valid_first_scalar(bytes));
        let rest = pop_first_scalar(bytes);
        assert(rest =~= bytes.drop_first());
        lemma_ascii_decode_utf8(rest);
        assert(decode_utf8(bytes) =~= bytes.map(|i: int, b: u8| b as char));
    }
}

/// Builds the string whose characters are the given bytes, one character
/// per byte; the bytes must all lie below 128.
pub fn ascii_to_string(bytes: &[u8]) -> (r: String)
    requires
        forall|i: int| 0 <= i < bytes@.len() ==> #[trigger] bytes@[i] < 128,
    ensures
        r@ == bytes@.map(|i: int, b: u8| b as char),
{
    proof {
        lemma_ascii_decode_utf8(bytes@);
    }
    match str_from_utf8(bytes) {
        Some(s) => {
            proof {
                encode_utf8_decode_utf8(s@);
            }
            s.to_owned()
        },
        None => String::new(),
    }
}

} // verus!
