//! The one outside call: parsing a link line as an absolute URL.
//!
//! The `url` crate does the parsing; the rest of the library works on the
//! plain values handed back here. URL parsing is a function of the input
//! characters alone, so its results are given names that the contracts of the
//! verified functions speak of.

use vstd::prelude::*;

verus! {

/// Whether `url::Url::parse` accepts the line as an absolute URL.
pub uninterp spec fn url_parses(line: Seq<char>) -> bool;

/// The serialization of the parsed URL (`url::Url::as_str`); meaningful only
/// when `url_parses(line)` holds.
pub uninterp spec fn url_serialization(line: Seq<char>) -> Seq<char>;

/// The parsed URL's path segments (`url::Url::path_segments`): `None` for a
/// cannot-be-a-base URL, otherwise the path after the leading `/`, split at
/// every `/`. Meaningful only when `url_parses(line)` holds.
pub uninterp spec fn url_path_segments(line: Seq<char>) -> Option<Seq<Seq<char>>>;

/// The ghost value of the optional segment vector a parse hands back.
pub open spec fn opt_segments_view(o: Option<Vec<String>>) -> Option<Seq<Seq<char>>> {
    match o {
        Option::None => Option::None,
        Option::Some(v) => Option::Some(v.deep_view()),
    }
}

/// Relies on the `url` crate: `Url::parse` accepts or rejects the line as an
/// absolute URL, `Url::as_str` returns its serialization, and
/// `Url::path_segments` returns the path split at `/` (without the leading
/// `/`), or `None` for a cannot-be-a-base URL. All three depend on the line's
/// characters alone.
#[verifier::external_body]
pub(crate) fn parse_link_url(line: &str) -> (r: Option<(String, Option<Vec<String>>)>)
    ensures
        r is Some <==> url_parses(line@),
        r matches Some(p) ==> p.0@ == url_serialization(line@) && opt_segments_view(p.1)
            == url_path_segments(line@),
{
    match url::Url::parse(line) {
        Err(_) => None,
        Ok(u) => {
            let segments = u.path_segments().map(|it| it.map(str::to_string).collect());
            Some((u.as_str().to_string(), segments))
        },
    }
}

} // verus!
