//! What the result page of the SQL form shows, read through `scraper`.
use vstd::prelude::*;

verus! {

/// For each element that the CSS selector `selector` matches in the HTML
/// document `html`, in the order in which the parser created the elements, the element's descendant text nodes in
/// order; none when `selector` is not a valid selector.
pub uninterp spec fn html_text_nodes(html: Seq<char>, selector: Seq<char>) -> Option<
    Seq<Seq<Seq<char>>>,
>;

/// For each element that `outer` matches in the HTML document `html`, in the
/// order in which the parser created the elements, the list of its descendants that `inner` matches, each as
/// its descendant text nodes in order; none when a selector is not valid.
pub uninterp spec fn html_nested_text_nodes(
    html: Seq<char>,
    outer: Seq<char>,
    inner: Seq<char>,
) -> Option<Seq<Seq<Seq<Seq<char>>>>>;

/// Parses `html` with `scraper::Html::parse_document` and `selector` with
/// `scraper::Selector::parse`, and lists the `text()` nodes of each element
/// that `Html::select` yields. The contract claims only that the outcome is a
/// function of the two texts, named [`html_text_nodes`]; HTML parsing and
/// selector matching are left to `scraper`.
#[verifier::external_body]
pub(crate) fn select_text_nodes(html: &str, selector: &str) -> (r: Option<Vec<Vec<String>>>)
    ensures
        r.deep_view() == html_text_nodes(html@, selector@),
{
    let selector = scraper::Selector::parse(selector).ok()?;
    let document = scraper::Html::parse_document(html);
    let mut found = Vec::new();
    for element in document.select(&selector) {
        found.push(element.text().map(str::to_string).collect());
    }
    Some(found)
}

/// Parses `html` with `scraper::Html::parse_document` and both selectors with
/// `scraper::Selector::parse`; for each element that `Html::select` yields for
/// `outer`, lists the `text()` nodes of each element that `ElementRef::select`
/// yields for `inner`. The contract claims only that the outcome is a function
/// of the three texts, named [`html_nested_text_nodes`].
#[verifier::external_body]
pub(crate) fn select_nested_text_nodes(html: &str, outer: &str, inner: &str) -> (r: Option<
    Vec<Vec<Vec<String>>>,
>)
    ensures
        r.deep_view() == html_nested_text_nodes(html@, outer@, inner@),
{
    let outer = scraper::Selector::parse(outer).ok()?;
    let inner = scraper::Selector::parse(inner).ok()?;
    let document = scraper::Html::parse_document(html);
    let mut found = Vec::new();
    for element in document.select(&outer) {
        let mut cells = Vec::new();
        for cell in element.select(&inner) {
            cells.push(cell.text().map(str::to_string).collect());
        }
        found.push(cells);
    }
    Some(found)
}

} // verus!
