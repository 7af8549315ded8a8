//! The target URL of a redirect configuration, modelled as the three pieces
//! of its serialization: everything before the path, the path, and
//! everything after the path (query and fragment).
//!
//! The pieces come from one call into the `url` crate at parse time; after
//! that, the path carry-through of a redirect is plain, verified
//! concatenation over the pieces.

use vstd::prelude::*;

use crate::grammar::chars_of;

verus! {

/// Whether `url::Url::parse` accepts `s` as an absolute URL.
pub uninterp spec fn url_accepts(s: Seq<char>) -> bool;

/// The serialization of the URL parsed from `s`, up to its path: scheme,
/// authority, host and port. Names what slicing the parsed URL with
/// `url::Position::BeforePath` returns.
pub uninterp spec fn url_prefix(s: Seq<char>) -> Seq<char>;

/// The path component of the URL parsed from `s`. Names what `url::Url::path`
/// returns.
pub uninterp spec fn url_path(s: Seq<char>) -> Seq<char>;

/// The serialization of the URL parsed from `s` after its path: query and
/// fragment. Names what slicing the parsed URL with `url::Position::AfterPath`
/// returns.
pub uninterp spec fn url_suffix(s: Seq<char>) -> Seq<char>;

#[verifier::external_type_specification]
#[verifier::external_body]
pub struct ExParseError(url::ParseError);

/// An absolute URL, held as the three adjacent slices of its serialization.
///
/// A value of this type only exists for text that the `url` crate accepted
/// as an absolute URL: the one constructor is [`TargetUrl::parse`].
#[derive(Debug, PartialEq)]
pub struct TargetUrl {
    prefix: String,
    path: String,
    suffix: String,
}

/// Relies on `url::Url::parse`: whether it accepts `s`, and the parsed URL's
/// serialization, depend on `s` alone. The three slices taken at
/// `url::Position::BeforePath` and `url::Position::AfterPath` partition that
/// serialization around the path component.
#[verifier::external_body]
fn parse_url_pieces(v: &Vec<char>) -> (r: Result<TargetUrl, url::ParseError>)
    ensures
        r is Ok <==> url_accepts(v@),
        r matches Ok(t) ==> t.prefix@ == url_prefix(v@) && t.path@ == url_path(v@)
            && t.suffix@ == url_suffix(v@),
{
    let text: String = v.iter().collect();
    match url::Url::parse(&text) {
        Ok(u) => Ok(TargetUrl {
            prefix: u[..url::Position::BeforePath].to_string(),
            path: u[url::Position::BeforePath..url::Position::AfterPath].to_string(),
            suffix: u[url::Position::AfterPath..].to_string(),
        }),
        Err(e) => Err(e),
    }
}

impl TargetUrl {
    /// The serialization up to the path.
    pub closed spec fn prefix_text(self) -> Seq<char> {
        self.prefix@
    }

    /// The path component.
    pub closed spec fn path_text(self) -> Seq<char> {
        self.path@
    }

    /// The serialization after the path.
    pub closed spec fn suffix_text(self) -> Seq<char> {
        self.suffix@
    }

    /// The whole serialization of the URL.
    pub open spec fn text(self) -> Seq<char> {
        self.prefix_text() + self.path_text() + self.suffix_text()
    }

    /// `self` holds the pieces of the URL that parsing `s` yields.
    pub open spec fn is_parse_of(self, s: Seq<char>) -> bool {
        &&& self.prefix_text() == url_prefix(s)
        &&& self.path_text() == url_path(s)
        &&& self.suffix_text() == url_suffix(s)
    }

    /// Some accepted text parses to `self`.
    pub open spec fn valid(self) -> bool {
        exists|s: Seq<char>| url_accepts(s) && self.is_parse_of(s)
    }

    /// Parse `s` as an absolute URL; succeeds exactly on the text the `url`
    /// crate accepts.
    pub fn parse(s: &str) -> (r: Result<TargetUrl, url::ParseError>)
        ensures
            r is Ok <==> url_accepts(s@),
            r matches Ok(t) ==> t.is_parse_of(s@) && t.valid(),
    {
        let v = chars_of(s);
        Self::parse_chars(&v)
    }

    /// Parse the characters of an absolute URL.
    pub fn parse_chars(v: &Vec<char>) -> (r: Result<TargetUrl, url::ParseError>)
        ensures
            r is Ok <==> url_accepts(v@),
            r matches Ok(t) ==> t.is_parse_of(v@) && t.valid(),
    {
        parse_url_pieces(v)
    }

    /// The URL as text, unchanged.
    pub fn as_string(&self) -> (r: String)
        ensures
            r@ == self.text(),
    {
        let mut r = self.prefix.clone();
        r.append(self.path.as_str());
        r.append(self.suffix.as_str());
        r
    }

    /// The URL as text with its path component replaced by `path`, verbatim;
    /// scheme, host, port, query and fragment are kept.
    pub fn with_path(&self, path: &str) -> (r: String)
        ensures
            r@ == self.prefix_text() + path@ + self.suffix_text(),
    {
        let mut r = self.prefix.clone();
        r.append(path);
        r.append(self.suffix.as_str());
        r
    }
}

} // verus!
