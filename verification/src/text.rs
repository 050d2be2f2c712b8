use vstd::prelude::*;

verus! {

use vstd::utf8::{valid_utf8, decode_utf8, encode_utf8};

/// The UTF-8 bytes of a string, as exec data.
pub fn text_bytes(s: &String) -> (r: Vec<u8>)
    ensures
        r@ == encode_utf8(s@),
{
    s.as_str().as_bytes_vec()
}

/// Relies on `String::from_utf8` of std: it returns the string whose UTF-8
/// encoding is the given byte sequence, and fails exactly on byte sequences
/// that are not valid UTF-8.
#[verifier::external_body]
pub fn text_from_bytes(v: Vec<u8>) -> (r: Option<String>)
    ensures
        match r {
            Some(s) => valid_utf8(v@) && s@ == decode_utf8(v@),
            None => !valid_utf8(v@),
        },
{
    String::from_utf8(v).ok()
}

/// Turn a vector of ASCII codes into the string of those characters.
pub(crate) fn ascii_to_string(bytes: Vec<u8>, Ghost(chars): Ghost<Seq<char>>) -> (r: String)
    requires
        vstd::utf8::is_ascii_chars(chars),
        bytes@.len() == chars.len(),
        forall|i: int| 0 <= i < chars.len() ==> bytes@[i] == #[trigger] chars[i] as u8,
    ensures
        r@ == chars,
{
    proof {
        vstd::utf8::is_ascii_chars_encode_utf8(chars);
        assert(encode_utf8(chars) =~= bytes@);
        lemma_text_round_trip(chars);
    }
    let r = text_from_bytes(bytes);
    match r {
        Some(s) => s,
        None => vstd::pervasive::unreached(),
    }
}

/// Round trip: the UTF-8 bytes of a string always decode back to it.
pub broadcast proof fn lemma_text_round_trip(s: Seq<char>)
    ensures
        valid_utf8(#[trigger] encode_utf8(s)),
        decode_utf8(encode_utf8(s)) == s,
{
    broadcast use vstd::utf8::encode_utf8_valid_utf8;
    broadcast use vstd::utf8::encode_utf8_decode_utf8;

}

} // verus!
