//! URL validation: only hierarchical `http`/`https` URLs may be monitored.
//! Parsing and normalisation are the `url` crate's work; the acceptance
//! rule is the library's.

use vstd::prelude::*;

verus! {

/// What `url::Url::parse` makes of a text, a function of the text alone:
/// `None` when it does not parse; otherwise the normalised text
/// (`Url::as_str`), the scheme (`Url::scheme`), and whether the URL cannot
/// be a base (`Url::cannot_be_a_base`, true for non-hierarchical URLs).
pub uninterp spec fn url_parts(s: Seq<char>) -> Option<(Seq<char>, Seq<char>, bool)>;

/// Relies on `url::Url::parse`, `Url::scheme`, `Url::cannot_be_a_base` and
/// `String::from(Url)` (the same text `Url::as_str` shows): parse the text
/// and hand back those three results as plain values.
#[verifier::external_body]
pub(crate) fn parse_url_parts(s: &str) -> (r: Option<(String, String, bool)>)
    ensures
        r is Some <==> url_parts(s@) is Some,
        r matches Some(p) ==> (url_parts(s@) matches Some(q) && p.0@ == q.0 && p.1@ == q.1
            && p.2 == q.2),
{
    match url::Url::parse(s) {
        Ok(u) => {
            let cannot = u.cannot_be_a_base();
            let scheme = u.scheme().to_string();
            Some((String::from(u), scheme, cannot))
        },
        Err(_) => None,
    }
}

/// The normalised form of a URL text, as the store keys it.
pub open spec fn spec_norm_url(s: Seq<char>) -> Seq<char> {
    match url_parts(s) {
        Some(p) => p.0,
        None => Seq::<char>::empty(),
    }
}

/// The acceptance rule: the text parses, the URL is hierarchical, and its
/// scheme is `http` or `https`.
pub open spec fn spec_valid_url(s: Seq<char>) -> bool {
    match url_parts(s) {
        Some(p) => !p.2 && (p.1 == "http"@ || p.1 == "https"@),
        None => false,
    }
}

/// Whether a URL may be monitored.
pub fn is_valid_url(s: &str) -> (r: bool)
    ensures
        r == spec_valid_url(s@),
{
    match parse_url_parts(s) {
        Some((_, scheme, cannot)) => !cannot && (scheme == "http".to_owned() || scheme
            == "https".to_owned()),
        None => false,
    }
}

/// The normalised URL text, when the text is acceptable.
pub fn normalize_url(s: &str) -> (r: Option<String>)
    ensures
        r is Some <==> spec_valid_url(s@),
        r matches Some(n) ==> n@ == spec_norm_url(s@),
{
    match parse_url_parts(s) {
        Some((norm, scheme, cannot)) => {
            if !cannot && (scheme == "http".to_owned() || scheme == "https".to_owned()) {
                Some(norm)
            } else {
                None
            }
        },
        None => None,
    }
}

} // verus!
