//! Bytes as text.
use base64::engine::general_purpose::STANDARD;
use base64::Engine;
use vstd::prelude::*;

verus! {

/// The most bytes whose text is sure to fit into the address space.
pub const MAX_ENCODED_BYTES: usize = usize::MAX / 4;

/// Bytes written as base64 text.
pub uninterp spec fn base64_text(bytes: Seq<u8>) -> Seq<char>;

/// The bytes that base64 text stands for, or what is wrong with it.
pub uninterp spec fn base64_bytes(text: Seq<char>) -> Result<Seq<u8>, Seq<char>>;

/// Writes bytes as base64 text.
///
/// Calls `base64::Engine::encode` of the standard engine, with padding. What
/// is written reads back as the same bytes. The text has to fit into memory.
#[verifier::external_body]
pub(crate) fn encode_base64(bytes: &[u8]) -> (text: String)
    requires
        bytes@.len() <= MAX_ENCODED_BYTES,
    ensures
        text@ == base64_text(bytes@),
        base64_bytes(text@) is Ok && base64_bytes(text@)->Ok_0 == bytes@,
{
    STANDARD.encode(bytes)
}

/// Reads base64 text.
///
/// Calls `base64::Engine::decode` of the standard engine; an error is given in
/// the words of `base64::DecodeError`.
#[verifier::external_body]
pub(crate) fn decode_base64(text: &str) -> (result: Result<Vec<u8>, String>)
    ensures
        match result {
            Ok(bytes) => base64_bytes(text@) is Ok && base64_bytes(text@)->Ok_0 == bytes@,
            Err(problem) => base64_bytes(text@) is Err && base64_bytes(text@)->Err_0 == problem@,
        },
{
    STANDARD.decode(text).map_err(|error| error.to_string())
}

} // verus!
