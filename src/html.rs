//! Queries on HTML fragments, answered by the `scraper` crate.

use vstd::prelude::*;

verus! {

/// An element that a selector matched: its text nodes in document order, and
/// the value of the attribute asked for.
#[derive(Debug)]
pub struct SelectedElement {
    pub texts: Vec<String>,
    pub attr: Option<String>,
}

pub open spec fn opt_view(o: Option<String>) -> Option<Seq<char>> {
    match o {
        Some(s) => Some(s@),
        None => None,
    }
}

pub open spec fn texts_view(v: Seq<String>) -> Seq<Seq<char>> {
    v.map_values(|s: String| s@)
}

pub open spec fn element_view(e: SelectedElement) -> (Seq<Seq<char>>, Option<Seq<char>>) {
    (texts_view(e.texts@), opt_view(e.attr))
}

pub open spec fn elements_view(v: Seq<SelectedElement>) -> Seq<(Seq<Seq<char>>, Option<Seq<char>>)> {
    v.map_values(|e: SelectedElement| element_view(e))
}

/// The elements of the fragment `html` that `selector` matches, in the order
/// in which the parser built them (document order for well-formed markup),
/// each with its text nodes and the value of its attribute `attr`.
pub uninterp spec fn selection(html: Seq<char>, selector: Seq<char>, attr: Seq<char>) -> Seq<(Seq<Seq<char>>, Option<Seq<char>>)>;

/// The text nodes of the fragment `html`, in the order in which the parser
/// built them.
pub uninterp spec fn fragment_texts(html: Seq<char>) -> Seq<Seq<char>>;

/// Relies on scraper's `Html::parse_fragment`, `Selector::parse`, `Html::select`,
/// `ElementRef::text` and `Element::attr`: the elements that match, in the
/// order of the parse tree's nodes, with their descendant text nodes and the
/// attribute. A selector that does not parse matches nothing.
#[verifier::external_body]
pub(crate) fn select(html: &str, selector: &str, attr: &str) -> (r: Vec<SelectedElement>)
    ensures
        elements_view(r@) == selection(html@, selector@, attr@),
{
    let fragment = scraper::Html::parse_fragment(html);
    match scraper::Selector::parse(selector) {
        Ok(sel) => fragment.select(&sel).map(|e| SelectedElement {
            texts: e.text().map(|t| t.to_string()).collect(),
            attr: e.value().attr(attr).map(|a| a.to_string()),
        }).collect(),
        Err(_) => Vec::new(),
    }
}

/// Relies on scraper's `Html::parse_fragment` and the parse tree's `nodes`:
/// every text node of the fragment, in the order of the tree's nodes.
#[verifier::external_body]
pub(crate) fn text_nodes(html: &str) -> (r: Vec<String>)
    ensures
        texts_view(r@) == fragment_texts(html@),
{
    scraper::Html::parse_fragment(html).tree.nodes().filter_map(|n| n.value().as_text().map(|t| t.to_string())).collect()
}

} // verus!
