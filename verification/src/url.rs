//! URL parsing and resolution, done by the `url` crate. A URL is carried as
//! its serialization; each operation parses the serialization it is given.
//! What the crate computes takes the URL Standard to state, so each result
//! has a name here, a function of the arguments alone.
use vstd::prelude::*;

verus! {

/// What `url::Url::parse` makes of a string: the serialization of the URL,
/// or, where the string is not a valid URL, the text of the parse error.
pub uninterp spec fn parsed_url(input: Seq<char>) -> Result<Seq<char>, Seq<char>>;

/// What `url::Url::join` makes of a string relative to a base URL (given
/// by its serialization): the serialization of the resolved URL, or nothing
/// where the base or the resolution fails.
pub uninterp spec fn joined_url(base: Seq<char>, input: Seq<char>) -> Option<Seq<char>>;

/// The scheme `url::Url::scheme` reads from a URL, or nothing where the
/// string is not a valid URL.
pub uninterp spec fn url_scheme_of(url: Seq<char>) -> Option<Seq<char>>;

/// The path `url::Url::path` reads from a URL, or nothing where the string
/// is not a valid URL.
pub uninterp spec fn url_path_of(url: Seq<char>) -> Option<Seq<char>>;

/// Whether `url::Url::origin` gives equal origins for two URLs.
pub uninterp spec fn same_origin_urls(a: Seq<char>, b: Seq<char>) -> bool;

/// The serialization of a URL once `url::Url::set_fragment(None)` dropped
/// its fragment, or nothing where the string is not a valid URL.
pub uninterp spec fn url_without_fragment_of(url: Seq<char>) -> Option<Seq<char>>;

/// Calls `url::Url::parse` and serializes the result with `as_str`, or
/// the error with its `Display`.
#[verifier::external_body]
pub(crate) fn url_parse(input: &str) -> (r: Result<String, String>)
    ensures
        match r {
            Ok(u) => parsed_url(input@) == Ok::<Seq<char>, Seq<char>>(u@),
            Err(e) => parsed_url(input@) == Err::<Seq<char>, Seq<char>>(e@),
        },
{
    match ::url::Url::parse(input) {
        Ok(u) => Ok(String::from(u.as_str())),
        Err(e) => Err(e.to_string()),
    }
}

/// Calls `url::Url::join` on the base URL parsed from its serialization,
/// and serializes the result with `as_str`.
#[verifier::external_body]
pub(crate) fn url_join(base: &str, input: &str) -> (r: Option<String>)
    ensures
        match r {
            Some(u) => joined_url(base@, input@) == Some(u@),
            None => joined_url(base@, input@) is None,
        },
{
    match ::url::Url::parse(base) {
        Ok(b) => match b.join(input) {
            Ok(u) => Some(String::from(u.as_str())),
            Err(_) => None,
        },
        Err(_) => None,
    }
}

/// Calls `url::Url::scheme` on the URL parsed from its serialization.
#[verifier::external_body]
pub(crate) fn url_scheme(url: &str) -> (r: Option<String>)
    ensures
        match r {
            Some(s) => url_scheme_of(url@) == Some(s@),
            None => url_scheme_of(url@) is None,
        },
{
    match ::url::Url::parse(url) {
        Ok(u) => Some(String::from(u.scheme())),
        Err(_) => None,
    }
}

/// Calls `url::Url::path` on the URL parsed from its serialization.
#[verifier::external_body]
pub(crate) fn url_path(url: &str) -> (r: Option<String>)
    ensures
        match r {
            Some(s) => url_path_of(url@) == Some(s@),
            None => url_path_of(url@) is None,
        },
{
    match ::url::Url::parse(url) {
        Ok(u) => Some(String::from(u.path())),
        Err(_) => None,
    }
}

/// Compares the `url::Url::origin` of two URLs parsed from their
/// serializations; a string that does not parse has no origin to share.
#[verifier::external_body]
pub(crate) fn url_same_origin(a: &str, b: &str) -> (r: bool)
    ensures
        r == same_origin_urls(a@, b@),
{
    match (::url::Url::parse(a), ::url::Url::parse(b)) {
        (Ok(x), Ok(y)) => x.origin() == y.origin(),
        _ => false,
    }
}

/// Calls `url::Url::set_fragment(None)` on the URL parsed from its
/// serialization, and serializes the result with `as_str`.
#[verifier::external_body]
pub(crate) fn url_strip_fragment(url: &str) -> (r: Option<String>)
    ensures
        match r {
            Some(s) => url_without_fragment_of(url@) == Some(s@),
            None => url_without_fragment_of(url@) is None,
        },
{
    match ::url::Url::parse(url) {
        Ok(mut u) => {
            u.set_fragment(None);
            Some(String::from(u.as_str()))
        },
        Err(_) => None,
    }
}

/// The origin `url::Url::origin` gives a URL: whether it is opaque, and
/// its Unicode serialization (`unicode_serialization`); nothing where the
/// string is not a valid URL.
pub uninterp spec fn url_origin_of(url: Seq<char>) -> Option<(bool, Seq<char>)>;

/// Calls `url::Url::origin` on the URL parsed from its serialization, and
/// reads whether it is opaque and its `unicode_serialization`.
#[verifier::external_body]
pub(crate) fn url_origin(url: &str) -> (r: Option<(bool, String)>)
    ensures
        match r {
            Some((opaque, s)) => url_origin_of(url@) == Some((opaque, s@)),
            None => url_origin_of(url@) is None,
        },
{
    match ::url::Url::parse(url) {
        Ok(u) => {
            let origin = u.origin();
            let opaque = match origin {
                ::url::Origin::Opaque(_) => true,
                ::url::Origin::Tuple(..) => false,
            };
            Some((opaque, origin.unicode_serialization()))
        },
        Err(_) => None,
    }
}

} // verus!
