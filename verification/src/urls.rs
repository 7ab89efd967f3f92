//! Trusted access to the `url` crate.
//!
//! URL parsing, joining and serialization are deterministic functions of
//! the input strings, so each operation's outcome is given a name
//! (`url_norm`, `url_join`, `url_with_params`) that the wrappers' contracts
//! and the pipeline's specification share.

use vstd::prelude::*;

verus! {

/// Names what `url::Url::parse` makes of a string: the normalized
/// serialization on success, `None` when the string is not a valid URL.
pub uninterp spec fn url_norm(s: Seq<char>) -> Option<Seq<char>>;

/// Names the result of resolving `href` against the URL parsed from
/// `base`: the resolved serialization, or the failure description.
pub uninterp spec fn url_join(base: Seq<char>, href: Seq<char>) -> Result<Seq<char>, Seq<char>>;

/// Names the URL built from `base` plus `params` appended as a query
/// string, or the failure description.
pub uninterp spec fn url_with_params(base: Seq<char>, params: Seq<(Seq<char>, Seq<char>)>) -> Result<
    Seq<char>,
    Seq<char>,
>;

/// Relies on `url::Url::parse` and `Url::as_str`: whether a string parses,
/// and its normalized serialization, depend on the string alone.
#[verifier::external_body]
pub fn parse_base_url(s: &str) -> (r: Option<String>)
    ensures
        match r {
            Some(u) => url_norm(s@) == Some(u@),
            None => url_norm(s@) is None,
        },
{
    url::Url::parse(s).ok().map(|u| u.as_str().to_owned())
}

/// Relies on `url::Url::join` (after `Url::parse` converts the base):
/// standard URL resolution; the resolved URL and the failure description
/// are functions of the two strings alone.
#[verifier::external_body]
pub fn resolve_href(base: &str, href: &str) -> (r: Result<String, String>)
    ensures
        match r {
            Ok(u) => url_join(base@, href@) == Ok::<Seq<char>, Seq<char>>(u@),
            Err(c) => url_join(base@, href@) == Err::<Seq<char>, Seq<char>>(c@),
        },
{
    match url::Url::parse(base) {
        Ok(b) => match b.join(href) {
            Ok(u) => Ok(u.as_str().to_owned()),
            Err(e) => Err(e.to_string()),
        },
        Err(e) => Err(e.to_string()),
    }
}

/// Relies on `url::Url::parse_with_params`: parses `base` and appends each
/// pair to its query string, a function of the inputs alone.
#[verifier::external_body]
pub fn build_url_with_params(base: &str, params: &Vec<(String, String)>) -> (r: Result<
    String,
    String,
>)
    ensures
        match r {
            Ok(u) => url_with_params(base@, params.deep_view()) == Ok::<Seq<char>, Seq<char>>(u@),
            Err(c) => url_with_params(base@, params.deep_view()) == Err::<Seq<char>, Seq<char>>(
                c@,
            ),
        },
{
    match url::Url::parse_with_params(base, params.iter()) {
        Ok(u) => Ok(u.as_str().to_owned()),
        Err(e) => Err(e.to_string()),
    }
}

} // verus!
