//! What the catalog reads off a page.
//!
//! A page is read with `sxd_html` and queried with `sxd_xpath`. The queries
//! are fixed: they are what the pages of the repository look like. A query
//! that matches nothing is a failure.

use crate::text::string_views;
use vstd::prelude::*;

verus! {

/// `sxd_xpath::Error`: nothing is known of what it holds.
#[verifier::external_type_specification]
#[verifier::external_body]
pub struct ExQueryError(sxd_xpath::Error);

/// The queries that the catalog makes.
#[derive(Debug, Clone, Copy, PartialEq, Eq, Structural)]
pub enum PageQuery {
    /// The targets of all links of a page.
    Anchors,
    /// The title of a page.
    Title,
    /// The label that says when a page was last modified.
    Modified,
    /// The description of a dataset.
    Description,
    /// The content block of a page.
    Content,
}

impl PageQuery {
    /// The query as an XPath expression.
    pub open spec fn expression(self) -> Seq<char> {
        match self {
            PageQuery::Anchors => "//a/@href"@,
            PageQuery::Title => "//h1[@id='parent-fieldname-title']/text()"@,
            PageQuery::Modified => "//span[@class='documentModified']//text()"@,
            PageQuery::Description => "//div[@class='documentDescription']//text()"@,
            PageQuery::Content => "//div[@id='content']"@,
        }
    }

    /// The query as an XPath expression.
    pub fn xpath(&self) -> (r: &'static str)
        ensures
            r@ == self.expression(),
    {
        match self {
            PageQuery::Anchors => "//a/@href",
            PageQuery::Title => "//h1[@id='parent-fieldname-title']/text()",
            PageQuery::Modified => "//span[@class='documentModified']//text()",
            PageQuery::Description => "//div[@class='documentDescription']//text()",
            PageQuery::Content => "//div[@id='content']",
        }
    }
}

/// Whether `xpath` is one of the queries that the catalog makes.
pub open spec fn is_page_query(xpath: Seq<char>) -> bool {
    exists|q: PageQuery| xpath == q.expression()
}

/// The outcome of a query on a page.
pub enum Matches {
    /// The query could not be evaluated.
    Failed,
    /// The query gave a value that is not a set of nodes.
    NotNodes,
    /// The string values of the nodes that match, in document order.
    Nodes(Seq<Seq<char>>),
}

/// What `sxd_xpath::evaluate_xpath` gives for the expression `xpath` on the
/// document that `sxd_html::parse_html` makes of `html`: for a set of nodes,
/// the string values of the nodes in document order.
pub uninterp spec fn markup_query(html: Seq<char>, xpath: Seq<char>) -> Matches;

/// Calls `sxd_html::parse_html` on `html` and `sxd_xpath::evaluate_xpath` on
/// the document, and for a set of nodes hands out the `string_value` of each
/// node of `document_order`. The contract names the outcome. It is stated of
/// the catalog's own queries only.
#[verifier::external_body]
fn evaluate(html: &str, xpath: &str) -> (r: Result<Option<Vec<String>>, sxd_xpath::Error>)
    requires
        is_page_query(xpath@),
    ensures
        match r {
            Ok(Some(nodes)) => markup_query(html@, xpath@) == Matches::Nodes(
                string_views(nodes@),
            ),
            Ok(None) => markup_query(html@, xpath@) == Matches::NotNodes,
            Err(_) => markup_query(html@, xpath@) == Matches::Failed,
        },
{
    let package = sxd_html::parse_html(html);
    let document = package.as_document();
    match sxd_xpath::evaluate_xpath(&document, xpath)? {
        sxd_xpath::Value::Nodeset(nodes) => Ok(
            Some(nodes.document_order().iter().map(|node| node.string_value()).collect()),
        ),
        _ => Ok(None),
    }
}

/// Why nothing could be read off a page.
#[derive(Debug, Clone, Copy, PartialEq, Eq, Structural)]
pub enum ExtractError {
    /// The query could not be evaluated.
    QueryFailed,
    /// The query gave a value that is not a set of nodes.
    NotNodes,
    /// The query matched nothing.
    NoMatch,
}

/// What a query reads off a page: the string values of the nodes that
/// match, of which there is at least one.
pub open spec fn extracted(html: Seq<char>, query: PageQuery) -> Result<
    Seq<Seq<char>>,
    ExtractError,
> {
    match markup_query(html, query.expression()) {
        Matches::Failed => Err(ExtractError::QueryFailed),
        Matches::NotNodes => Err(ExtractError::NotNodes),
        Matches::Nodes(nodes) => if nodes.len() == 0 {
            Err(ExtractError::NoMatch)
        } else {
            Ok(nodes)
        },
    }
}

/// The first of the string values that a query gave, where there is one.
pub open spec fn first_text(nodes: Seq<Seq<char>>) -> Result<Seq<char>, ExtractError> {
    if nodes.len() == 0 {
        Err(ExtractError::NoMatch)
    } else {
        Ok(nodes[0])
    }
}

/// The first of the string values that a query gave.
pub fn first_node(nodes: &Vec<String>) -> (r: Result<String, ExtractError>)
    ensures
        match r {
            Ok(text) => first_text(string_views(nodes@)) == Ok::<Seq<char>, ExtractError>(text@),
            Err(e) => first_text(string_views(nodes@)) == Err::<Seq<char>, ExtractError>(e),
        },
{
    if nodes.len() == 0 {
        Err(ExtractError::NoMatch)
    } else {
        Ok(nodes[0].clone())
    }
}

/// Reads off the page `html` what `query` asks for: the string values of all
/// nodes that match, in document order.
pub fn extract(html: &str, query: PageQuery) -> (r: Result<Vec<String>, ExtractError>)
    ensures
        match r {
            Ok(nodes) => extracted(html@, query) == Ok::<Seq<Seq<char>>, ExtractError>(
                string_views(nodes@),
            ),
            Err(e) => extracted(html@, query) == Err::<Seq<Seq<char>>, ExtractError>(e),
        },
{
    let xpath = query.xpath();
    match evaluate(html, xpath) {
        Ok(Some(nodes)) => if nodes.len() == 0 {
            Err(ExtractError::NoMatch)
        } else {
            Ok(nodes)
        },
        Ok(None) => Err(ExtractError::NotNodes),
        Err(_) => Err(ExtractError::QueryFailed),
    }
}

} // verus!
