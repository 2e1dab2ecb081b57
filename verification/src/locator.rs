//! Addresses of catalog pages.
//!
//! The `url` crate reads an address. What the catalog needs of the outcome
//! is kept as plain values: the address as the crate writes it back, and the
//! segments of its path.

use crate::text::string_views;
use vstd::prelude::*;

verus! {

/// `url::ParseError`: nothing is known of what it holds.
#[verifier::external_type_specification]
#[verifier::external_body]
pub struct ExParseError(url::ParseError);

/// What the `url` crate makes of an address: the address written back, and
/// the segments of its path where it has any.
pub struct ParsedUrl {
    pub text: Seq<char>,
    pub segments: Option<Seq<Seq<char>>>,
}

/// What `url::Url::parse` makes of `input`: `None` where it fails, otherwise
/// what `as_str` and `path_segments` give for the result.
pub uninterp spec fn url_parse(input: Seq<char>) -> Option<ParsedUrl>;

/// The segments of an optional list of strings, as plain values.
pub open spec fn segments_view(segments: Option<Vec<String>>) -> Option<Seq<Seq<char>>> {
    match segments {
        Some(s) => Some(string_views(s@)),
        None => None,
    }
}

/// Calls `url::Url::parse`, then hands out the address as the crate writes
/// it back and what `path_segments` yields. The contract names the outcome.
#[verifier::external_body]
fn parse_parts(input: &str) -> (r: Result<(String, Option<Vec<String>>), url::ParseError>)
    ensures
        match r {
            Ok((text, segments)) => url_parse(input@) == Some(
                ParsedUrl { text: text@, segments: segments_view(segments) },
            ),
            Err(_) => url_parse(input@) is None,
        },
{
    let url = url::Url::parse(input)?;
    let segments = url.path_segments().map(|parts| parts.map(|p| p.to_owned()).collect());
    Ok((url.into(), segments))
}

/// Why a text is not the address of a page.
#[derive(Debug, Clone, Copy, PartialEq, Eq)]
pub enum UrlError {
    /// The text is not an address.
    Malformed,
    /// The address has no path that could be split into segments.
    NoPath,
}

/// The address of a page: its text and the segments of its path.
#[derive(Debug)]
pub struct PageUrl {
    pub text: String,
    pub segments: Vec<String>,
}

/// What a [`PageUrl`] holds, as plain values.
pub struct PageUrlView {
    pub text: Seq<char>,
    pub segments: Seq<Seq<char>>,
}

impl View for PageUrl {
    type V = PageUrlView;

    open spec fn view(&self) -> PageUrlView {
        PageUrlView { text: self.text@, segments: string_views(self.segments@) }
    }
}

/// The page address that `input` writes.
pub open spec fn page_url(input: Seq<char>) -> Result<PageUrlView, UrlError> {
    match url_parse(input) {
        None => Err(UrlError::Malformed),
        Some(parsed) => match parsed.segments {
            None => Err(UrlError::NoPath),
            Some(segments) => Ok(PageUrlView { text: parsed.text, segments }),
        },
    }
}

impl PageUrlView {
    /// The alias of the collection at this address: the second segment of
    /// the path, or nothing where there is none.
    pub open spec fn collection_alias(self) -> Seq<char> {
        if self.segments.len() >= 2 {
            self.segments[1]
        } else {
            Seq::empty()
        }
    }

    /// The alias of the dataset at this address: the last segment of the
    /// path, or nothing where there is none.
    pub open spec fn dataset_alias(self) -> Seq<char> {
        if self.segments.len() >= 1 {
            self.segments.last()
        } else {
            Seq::empty()
        }
    }
}

impl PageUrl {
    /// Reads a page address.
    pub fn parse(input: &str) -> (r: Result<PageUrl, UrlError>)
        ensures
            match r {
                Ok(url) => page_url(input@) == Ok::<PageUrlView, UrlError>(url@),
                Err(e) => page_url(input@) == Err::<PageUrlView, UrlError>(e),
            },
    {
        match parse_parts(input) {
            Ok((text, Some(segments))) => Ok(PageUrl { text, segments }),
            Ok((_, None)) => Err(UrlError::NoPath),
            Err(_) => Err(UrlError::Malformed),
        }
    }

    /// The alias of the collection at this address.
    pub fn collection_alias(&self) -> (r: String)
        ensures
            r@ == self@.collection_alias(),
    {
        if self.segments.len() >= 2 {
            self.segments[1].clone()
        } else {
            String::new()
        }
    }

    /// The alias of the dataset at this address.
    pub fn dataset_alias(&self) -> (r: String)
        ensures
            r@ == self@.dataset_alias(),
    {
        if self.segments.len() >= 1 {
            self.segments[self.segments.len() - 1].clone()
        } else {
            String::new()
        }
    }
}

impl Clone for PageUrl {
    fn clone(&self) -> (r: Self)
        ensures
            r@ == self@,
    {
        let mut segments: Vec<String> = Vec::new();
        let mut i: usize = 0;
        while i < self.segments.len()
            invariant
                i <= self.segments.len(),
                segments@ == self.segments@.take(i as int),
            decreases self.segments.len() - i,
        {
            segments.push(self.segments[i].clone());
            i += 1;
        }
        assert(self.segments@.take(self.segments.len() as int) =~= self.segments@);
        PageUrl { text: self.text.clone(), segments }
    }
}

/// The views of a list of page addresses, element by element.
pub open spec fn page_url_views(v: Seq<PageUrl>) -> Seq<PageUrlView> {
    Seq::new(v.len(), |i: int| v[i]@)
}

} // verus!
