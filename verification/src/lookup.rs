//! The token table: a JSON document whose top-level object maps a token's
//! symbol to the address of its contract.

use crate::client::Client;
use crate::errors::SwapError;
use vstd::prelude::*;

verus! {

/// `serde_json::Value`, opaque to the verifier.
#[verifier::external_type_specification]
#[verifier::external_body]
pub struct ExJsonValue(serde_json::Value);

/// `serde_json::Error`, opaque to the verifier.
#[verifier::external_type_specification]
#[verifier::external_body]
pub struct ExJsonError(serde_json::Error);

/// The members of a JSON value that hold a text, by name. A value that is
/// no object has none.
pub uninterp spec fn text_members(value: serde_json::Value) -> Map<Seq<char>, Seq<char>>;

/// The text members of the JSON document that `text` is; nothing where
/// `text` is no JSON document.
pub uninterp spec fn document_members(text: Seq<char>) -> Option<Map<Seq<char>, Seq<char>>>;

/// Calls `serde_json::from_str` for a `Value`: the document, or the reason
/// why `text` is none.
#[verifier::external_body]
fn parse_document(text: &str) -> (parsed: Result<serde_json::Value, serde_json::Error>)
    ensures
        match parsed {
            Ok(value) => document_members(text@) == Some(text_members(value)),
            Err(_) => document_members(text@) is None,
        },
{
    serde_json::from_str(text)
}

/// Indexes a `serde_json::Value` by a name and calls `as_str` on what is
/// there: the text of that member. Indexing gives `Null` where the value is
/// no object or has no such member, and `as_str` gives nothing for what is
/// no text.
#[verifier::external_body]
fn member_text(value: &serde_json::Value, name: &str) -> (found: Option<String>)
    ensures
        match found {
            Some(text) => text_members(*value).contains_key(name@) && text_members(*value)[name@]
                == text@,
            None => !text_members(*value).contains_key(name@),
        },
{
    match value[name].as_str() {
        Some(text) => Some(text.to_string()),
        None => None,
    }
}

/// Calls the `Display` rendering of `serde_json::Error` through
/// `to_string`. Nothing is claimed of the text.
#[verifier::external_body]
fn document_error_text(error: &serde_json::Error) -> (text: String) {
    error.to_string()
}

/// The address listed for `symbol` in a token table with the members
/// `members`.
pub open spec fn listed_address(members: Map<Seq<char>, Seq<char>>, symbol: Seq<char>) -> Option<
    Seq<char>,
> {
    if members.contains_key(symbol) {
        Some(members[symbol])
    } else {
        None
    }
}

/// What a look into the token table gave: the address that was found, if
/// any, or the failure to read the table as a
/// [`SwapError::ParseTokensFileError`].
pub fn lookup_result(parsed: Result<Option<String>, String>) -> (result: Result<
    Option<String>,
    SwapError,
>)
    ensures
        match parsed {
            Ok(found) => result == Ok::<Option<String>, SwapError>(found),
            Err(reason) => result == Err::<Option<String>, SwapError>(
                SwapError::ParseTokensFileError(reason),
            ),
        },
{
    match parsed {
        Ok(found) => Ok(found),
        Err(reason) => Err(SwapError::ParseTokensFileError(reason)),
    }
}

impl Client {
    /// The contract address that the token table `tokens_json` lists for the
    /// agent's token. Fails where the table is no JSON document; gives
    /// nothing where the document does not list the token with a text.
    pub fn get_token_address(&self, tokens_json: &str) -> (result: Result<Option<String>, SwapError>)
        ensures
            match result {
                Ok(Some(address)) => document_members(tokens_json@) matches Some(members)
                    && listed_address(members, self.spec_token()) == Some(address@),
                Ok(None) => document_members(tokens_json@) matches Some(members) && listed_address(
                    members,
                    self.spec_token(),
                ) is None,
                Err(e) => document_members(tokens_json@) is None && e is ParseTokensFileError,
            },
    {
        match parse_document(tokens_json) {
            Ok(document) => lookup_result(Ok(member_text(&document, self.token().as_str()))),
            Err(error) => lookup_result(Err(document_error_text(&error))),
        }
    }
}

} // verus!
