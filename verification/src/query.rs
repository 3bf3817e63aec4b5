//! The query adapter: thin trusted wrappers around the `scraper` crate, which
//! compiles CSS selector paths and enumerates matching descendants of a node
//! in document order. Everything else in the crate is verified against the
//! contracts stated here.

use vstd::prelude::*;
use scraper::{ElementRef, Html, Selector};

verus! {

#[verifier::external_type_specification]
#[verifier::external_body]
pub struct ExSelector(Selector);

#[verifier::external_type_specification]
#[verifier::external_body]
pub struct ExHtml(Html);

#[verifier::external_type_specification]
#[verifier::external_body]
pub struct ExElementRef<'a>(ElementRef<'a>);

/// Whether a selector path compiles into a matcher. CSS selector parsing is a
/// pure function of the path string, so the outcome carries a name that the
/// contracts below share.
pub uninterp spec fn path_compiles(path: Seq<char>) -> bool;

/// Relies on scraper::Selector::parse, which parses a CSS selector group:
/// success or failure depends on the path string alone.
#[verifier::external_body]
pub(crate) fn compile_path(path: &String) -> (r: Option<Selector>)
    ensures
        r is Some <==> path_compiles(path@),
{
    Selector::parse(path.as_str()).ok()
}

/// Relies on scraper::ElementRef::select, which enumerates the descendant
/// elements of `el` matching `sel`, in document order. The matches depend on
/// the document tree behind `el`, which this crate holds opaque, so nothing
/// is assumed of them.
#[verifier::external_body]
pub(crate) fn select_all<'a>(el: &ElementRef<'a>, sel: &Selector) -> Vec<ElementRef<'a>> {
    el.select(sel).collect()
}

/// Relies on scraper::ElementRef::inner_html, which serializes the children
/// of the node to markup text, tags included.
#[verifier::external_body]
pub(crate) fn inner_html(el: &ElementRef<'_>) -> String {
    el.inner_html()
}

/// Relies on scraper::Html::parse_document, which parses markup into a
/// document tree; html5ever always supplies a root html element, whatever the
/// input.
#[verifier::external_body]
pub(crate) fn parse_document(html: &str) -> Html {
    Html::parse_document(html)
}

/// Relies on scraper::Html::root_element, which returns the root html element
/// of a parsed document. It panics only on a tree whose root has no element
/// child, which parse_document never produces.
#[verifier::external_body]
pub(crate) fn root_element(doc: &Html) -> ElementRef<'_> {
    doc.root_element()
}

} // verus!
