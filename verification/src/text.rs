//! File names: text in memory, UTF-8 on the wire.

use vstd::prelude::*;
use vstd::utf8::{decode_utf8, encode_utf8, valid_utf8};

verus! {

/// The bytes that a name takes on the wire.
pub open spec fn name_bytes(name: Seq<char>) -> Seq<u8> {
    encode_utf8(name)
}

/// The bytes can stand for a name.
pub open spec fn is_name(bytes: Seq<u8>) -> bool {
    valid_utf8(bytes)
}

/// The name that the bytes stand for.
pub open spec fn name_of(bytes: Seq<u8>) -> Seq<char> {
    decode_utf8(bytes)
}

/// `String::from_utf8` of std, with the error dropped: the text that the
/// bytes spell in UTF-8, and nothing where they are not UTF-8.
#[verifier::external_body]
pub(crate) fn string_from_utf8(bytes: Vec<u8>) -> (r: Option<String>)
    ensures
        r is Some <==> is_name(bytes@),
        r matches Some(s) ==> s@ == name_of(bytes@),
{
    String::from_utf8(bytes).ok()
}

/// A name that went over the wire comes back as it was.
pub proof fn lemma_name_round_trip(name: Seq<char>)
    ensures
        is_name(name_bytes(name)),
        name_of(name_bytes(name)) == name,
{
    vstd::utf8::encode_utf8_valid_utf8(name);
    vstd::utf8::encode_utf8_decode_utf8(name);
}

} // verus!
