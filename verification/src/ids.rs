use vstd::prelude::*;
use crate::errors::CoreError;

verus! {

/// The error of `uuid::Uuid::parse_str`, `uuid::Error`, carried through as
/// it comes; nothing is known of what it holds.
#[verifier::external_type_specification]
#[verifier::external_body]
pub struct ExUuidError(uuid::Error);

/// The 128 bits of the identifier that `text` spells in one of the textual
/// forms of a UUID, or `None` where it spells none.
pub uninterp spec fn parsed_uuid(text: Seq<char>) -> Option<u128>;

/// The hyphenated lowercase text of the identifier with the given 128 bits.
pub uninterp spec fn uuid_text(id: u128) -> Seq<char>;

/// Writes an identifier in its hyphenated lowercase form: `Uuid::from_u128`,
/// then the `Display` of the result. The contract names the text, and adds
/// that `Uuid::parse_str` reads the identifier back from it.
#[verifier::external_body]
pub(crate) fn format_uuid(id: u128) -> (r: String)
    ensures
        r@ == uuid_text(id),
        parsed_uuid(r@) == Some(id),
{
    uuid::Uuid::from_u128(id).to_string()
}

/// Draws a random version-4 identifier with `uuid::Uuid::new_v4` and hands
/// back its 128 bits (`Uuid::as_u128`). Nothing is claimed of the value: two
/// draws may even be equal.
#[verifier::external_body]
pub(crate) fn random_id() -> (id: u128) {
    uuid::Uuid::new_v4().as_u128()
}

/// Parses `text` with `uuid::Uuid::parse_str`. The contract names the result:
/// the call succeeds exactly on the texts that spell an identifier, and then
/// yields that identifier's 128 bits.
#[verifier::external_body]
pub(crate) fn parse_uuid_text(text: &str) -> (r: Result<u128, uuid::Error>)
    ensures
        r.is_ok() == parsed_uuid(text@).is_some(),
        r.is_ok() ==> Some(r.unwrap()) == parsed_uuid(text@),
{
    match uuid::Uuid::parse_str(text) {
        Ok(u) => Ok(u.as_u128()),
        Err(e) => Err(e),
    }
}

/// Reads an identifier from its textual form. Fails with `Invalid("uuid")`
/// exactly when the text spells no identifier.
pub fn uuid_from_str(text: &str) -> (r: Result<u128, CoreError>)
    ensures
        match parsed_uuid(text@) {
            Some(id) => r == Ok::<u128, CoreError>(id),
            None => r == Err::<u128, CoreError>(CoreError::Invalid("uuid")),
        },
{
    match parse_uuid_text(text) {
        Ok(id) => Ok(id),
        Err(_) => Err(CoreError::Invalid("uuid")),
    }
}

} // verus!
