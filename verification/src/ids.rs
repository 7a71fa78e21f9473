//! Identifiers of sessions and attachments.
use vstd::prelude::*;

verus! {

pub open spec fn lower_hex(c: char) -> bool {
    '0' <= c <= '9' || 'a' <= c <= 'f'
}

/// The shape of a hyphenated identifier: 36 characters, hyphens between
/// groups of 8, 4, 4, 4 and 12 lower-case hexadecimal digits.
pub open spec fn hyphenated(id: Seq<char>) -> bool {
    &&& id.len() == 36
    &&& forall|i: int|
        0 <= i < 36 ==> if i == 8 || i == 13 || i == 18 || i == 23 {
            #[trigger] id[i] == '-'
        } else {
            lower_hex(id[i])
        }
}

/// The shape of a plain identifier: 32 lower-case hexadecimal digits.
pub open spec fn plain(id: Seq<char>) -> bool {
    &&& id.len() == 32
    &&& forall|i: int| 0 <= i < 32 ==> lower_hex(#[trigger] id[i])
}

/// Draws a random identifier.
///
/// Calls `uuid::Uuid::new_v4` and writes it hyphenated. Which identifier comes
/// is left to chance; only its shape is known.
#[verifier::external_body]
pub(crate) fn random_id() -> (id: String)
    ensures
        hyphenated(id@),
{
    uuid::Uuid::new_v4().to_string()
}

/// Draws a random token.
///
/// Calls `uuid::Uuid::new_v4` and writes it without hyphens. Which token comes
/// is left to chance; only its shape is known.
#[verifier::external_body]
pub(crate) fn random_token() -> (token: String)
    ensures
        plain(token@),
{
    uuid::Uuid::new_v4().simple().to_string()
}

/// Whether a text is an identifier in one of the accepted notations.
pub uninterp spec fn identifier(text: Seq<char>) -> bool;

/// Tests whether a text is an identifier.
///
/// Calls `uuid::Uuid::parse_str` and keeps only whether it succeeded.
#[verifier::external_body]
pub(crate) fn is_identifier(text: &str) -> (valid: bool)
    ensures
        valid == identifier(text@),
{
    uuid::Uuid::parse_str(text).is_ok()
}

/// The identifier that stands for some bytes.
pub uninterp spec fn object_identifier(name: Seq<u8>) -> Seq<char>;

/// The identifier that stands for some bytes, always the same for the same
/// bytes.
///
/// Calls `uuid::Uuid::new_v5` in the namespace of object identifiers and
/// writes the result hyphenated.
#[verifier::external_body]
pub(crate) fn name_based_id(name: &[u8]) -> (id: String)
    ensures
        id@ == object_identifier(name@),
        hyphenated(id@),
{
    uuid::Uuid::new_v5(&uuid::Uuid::NAMESPACE_OID, name).to_string()
}

} // verus!
