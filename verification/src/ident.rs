//! Question identifiers and their canonical string rendering.
//!
//! The registry keys each question by a 128-bit identifier drawn at random
//! when the question is created. Drawing an identifier, rendering one as its
//! canonical hyphenated string, and parsing such a string back are delegated
//! to the `uuid` crate through trusted wrappers; everything built on top of
//! them speaks of the rendering and the parse result by name.

use vstd::prelude::*;
use std::str::FromStr;

verus! {

/// The canonical string rendering of an identifier, as the `uuid` crate
/// produces it.
pub uninterp spec fn identifier_string(id: u128) -> Seq<char>;

/// The identifier, if any, that the `uuid` crate reads out of a string.
pub uninterp spec fn parsed_identifier(s: Seq<char>) -> Option<u128>;

/// Relies on uuid::Uuid::new_v4 (read back through Uuid::as_u128): draws a
/// fresh random identifier. Nothing is promised of the value.
#[verifier::external_body]
pub fn fresh_identifier() -> u128 {
    uuid::Uuid::new_v4().as_u128()
}

/// Relies on uuid::Uuid's Display impl (reached through Uuid::from_u128 and
/// to_string): the rendering is the 36-character hyphenated form, depends on
/// the identifier alone, and uuid::Uuid::from_str reads the same identifier
/// back out of it.
#[verifier::external_body]
pub fn identifier_to_string(id: u128) -> (r: String)
    ensures
        r@ == identifier_string(id),
        r@.len() == 36,
        parsed_identifier(r@) == Some(id),
{
    uuid::Uuid::from_u128(id).to_string()
}

/// Relies on uuid::Uuid::from_str (read back through Uuid::as_u128): whether
/// a string parses, and to which identifier, depends on its characters alone.
#[verifier::external_body]
pub fn parse_identifier(s: &String) -> (r: Option<u128>)
    ensures
        r == parsed_identifier(s@),
{
    match uuid::Uuid::from_str(s) {
        Ok(u) => Some(u.as_u128()),
        Err(_) => None,
    }
}

} // verus!
