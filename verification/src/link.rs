//! Resolving links against a page address, done by the `url` crate.

use vstd::prelude::*;
use crate::pattern::opt_str_view;

verus! {

/// Whether `Url::parse` accepts an address.
pub uninterp spec fn url_valid_spec(base: Seq<char>) -> bool;

/// The text of the address that `Url::parse` reads from `base`
/// (`Url::to_string`).
pub uninterp spec fn url_text_spec(base: Seq<char>) -> Seq<char>;

/// The text of `href` resolved against the address parsed from `base`
/// (`Url::join`); `None` when it does not resolve.
pub uninterp spec fn url_join_spec(base: Seq<char>, href: Seq<char>) -> Option<Seq<char>>;

/// Parses `base` with `Url::parse` and gives the parsed address as text
/// with `Url::to_string`; `None` when `base` does not parse.
#[verifier::external_body]
pub(crate) fn url_text(base: &str) -> (res: Option<String>)
    ensures
        res is Some <==> url_valid_spec(base@),
        res matches Some(s) ==> s@ == url_text_spec(base@),
{
    url::Url::parse(base).ok().map(|u| u.to_string())
}

/// Parses `base` with `Url::parse` and resolves `href` against it with
/// `Url::join`, giving the result as text with `Url::to_string`; `None`
/// when `base` does not parse or `join` fails. The contract names the
/// resolved text.
#[verifier::external_body]
pub(crate) fn url_join(base: &str, href: &str) -> (res: Option<String>)
    ensures
        url_valid_spec(base@) ==> opt_str_view(res) == url_join_spec(base@, href@),
        !url_valid_spec(base@) ==> res is None,
{
    url::Url::parse(base).ok()?.join(href).ok().map(|u| u.to_string())
}

} // verus!
