//! URLs, as the `url` crate reads them. Nothing in this file is proved. What
//! the crate makes of a text takes its whole parser to say, so each function
//! gives what it returns a name, and states that the same text always gives
//! the same result.

use vstd::prelude::*;

verus! {

/// The text of the URL that `text` is read as, in the form in which the
/// `url` crate writes it; `None` for a text that is no absolute URL.
pub uninterp spec fn url_normal(text: Seq<char>) -> Option<Seq<char>>;

/// The scheme of the URL that `text` is read as.
pub uninterp spec fn url_scheme(text: Seq<char>) -> Option<Seq<char>>;

/// The pairs of key and value in the query of the URL that `text` is read
/// as, decoded, in their order.
pub uninterp spec fn url_query_pairs(text: Seq<char>) -> Option<Seq<(Seq<char>, Seq<char>)>>;

/// The text of the URL that `text` is read as, once its path has been
/// replaced by `/announce`.
pub uninterp spec fn url_announce(text: Seq<char>) -> Option<Seq<char>>;

/// The pairs of texts in `list`.
pub open spec fn pair_views(list: Seq<(String, String)>) -> Seq<(Seq<char>, Seq<char>)> {
    Seq::new(list.len(), |i: int| (list[i].0@, list[i].1@))
}

/// Calls `url::Url::parse` and gives the URL as text.
///
/// Trusted: the result depends on `text` alone. It is named `url_normal`.
#[verifier::external_body]
pub(crate) fn parse_url(text: &str) -> (normal: Option<String>)
    ensures
        match normal {
            Some(url) => url_normal(text@) == Some(url@),
            None => url_normal(text@) is None,
        },
{
    match url::Url::parse(text) {
        Ok(url) => Some(String::from(url)),
        Err(_) => None,
    }
}

/// Calls `url::Url::scheme` on the URL that `text` is read as.
///
/// Trusted: the result depends on `text` alone. It is named `url_scheme`.
#[verifier::external_body]
pub(crate) fn scheme_of(text: &str) -> (scheme: Option<String>)
    ensures
        match scheme {
            Some(name) => url_scheme(text@) == Some(name@),
            None => url_scheme(text@) is None,
        },
{
    match url::Url::parse(text) {
        Ok(url) => Some(url.scheme().to_string()),
        Err(_) => None,
    }
}

/// Calls `url::Url::query_pairs` on the URL that `text` is read as.
///
/// Trusted: the result depends on `text` alone. It is named
/// `url_query_pairs`.
#[verifier::external_body]
pub(crate) fn query_pairs_of(text: &str) -> (pairs: Option<Vec<(String, String)>>)
    ensures
        match pairs {
            Some(list) => url_query_pairs(text@) == Some(pair_views(list@)),
            None => url_query_pairs(text@) is None,
        },
{
    match url::Url::parse(text) {
        Ok(url) => Some(url.query_pairs().into_owned().collect()),
        Err(_) => None,
    }
}

/// Calls `url::Url::set_path` with `/announce` on the URL that `text` is
/// read as, and gives the URL as text.
///
/// Trusted: the result depends on `text` alone. It is named `url_announce`.
/// The text is short enough for the URL to stay within the 4 GiB that the
/// `url` crate can hold.
#[verifier::external_body]
pub(crate) fn announce_of(text: &str) -> (moved: Option<String>)
    requires
        text@.len() <= 65536,
    ensures
        match moved {
            Some(url) => url_announce(text@) == Some(url@),
            None => url_announce(text@) is None,
        },
{
    match url::Url::parse(text) {
        Ok(mut url) => {
            url.set_path("/announce");
            Some(String::from(url))
        },
        Err(_) => None,
    }
}

} // verus!
