//! HTML pages, parsed and queried by the `scraper` crate. Verus sees a page
//! as its source text; what a query finds is named over that text and comes
//! back as plain values: each element's tag name, text nodes and one
//! attribute.

use vstd::prelude::*;
use scraper::{Html, Selector};
use crate::pattern::opt_str_view;
use crate::text::{lemma_normalize_idempotent, normalize, node_text, text_of_nodes, views, normalize_ws};

verus! {

#[verifier::external_type_specification]
#[verifier::external_body]
pub struct ExHtml(Html);

/// A parsed HTML page. Verus sees it as its source text; the parsed
/// document is only ever the parse of that text.
pub struct Page {
    source: String,
    document: Html,
}

impl View for Page {
    type V = Seq<char>;

    closed spec fn view(&self) -> Seq<char> {
        self.source@
    }
}

/// What the parsers read of an element: its tag name, its descendant text
/// nodes in order, and the value of one attribute asked for.
pub struct ElementData {
    pub name: String,
    pub nodes: Vec<String>,
    pub attr: Option<String>,
}

pub struct ElementView {
    pub name: Seq<char>,
    pub nodes: Seq<Seq<char>>,
    pub attr: Option<Seq<char>>,
}

impl View for ElementData {
    type V = ElementView;

    open spec fn view(&self) -> ElementView {
        ElementView { name: self.name@, nodes: views(self.nodes@), attr: opt_str_view(self.attr) }
    }
}

pub open spec fn element_views(v: Seq<ElementData>) -> Seq<ElementView> {
    v.map_values(|e: ElementData| e@)
}

pub open spec fn opt_elements_view(o: Option<Vec<ElementData>>) -> Option<Seq<ElementView>> {
    match o {
        Some(v) => Some(element_views(v@)),
        None => None,
    }
}

/// Whether a query found an `index`-th element.
pub open spec fn has_match(found: Option<Seq<ElementView>>, index: int) -> bool {
    match found {
        Some(v) => 0 <= index < v.len(),
        None => false,
    }
}

/// Asks for no attribute.
pub const NO_ATTR: &'static str = "";

/// Whether `Selector::parse` accepts a selector.
pub uninterp spec fn selector_valid_spec(css: Seq<char>) -> bool;

/// The elements of the page `html` that match `css`, in document order,
/// each with the attribute `attr` (`Html::parse_document`, then
/// `Html::select`); `None` when the selector does not parse.
pub uninterp spec fn select_spec(html: Seq<char>, css: Seq<char>, attr: Seq<char>) -> Option<Seq<ElementView>>;

/// The elements matching `css` inside the `index`-th element matching
/// `outer` (`ElementRef::select`); `None` when a selector does not parse or
/// there is no such element.
pub uninterp spec fn select_within_spec(
    html: Seq<char>,
    outer: Seq<char>,
    index: int,
    css: Seq<char>,
    attr: Seq<char>,
) -> Option<Seq<ElementView>>;

/// The elements matching `css` inside the `inner_index`-th element matching
/// `inner` inside the `outer_index`-th element matching `outer`.
pub uninterp spec fn select_within2_spec(
    html: Seq<char>,
    outer: Seq<char>,
    outer_index: int,
    inner: Seq<char>,
    inner_index: int,
    css: Seq<char>,
    attr: Seq<char>,
) -> Option<Seq<ElementView>>;

/// Calls `Html::parse_document`, which never fails: malformed markup is
/// repaired as a browser would. The page keeps its source text.
#[verifier::external_body]
fn parse_page(source: &str) -> (res: Page)
    ensures
        res@ == source@,
{
    Page { source: source.to_string(), document: Html::parse_document(source) }
}

/// Parses an HTML page.
pub fn load_page(source: &str) -> (res: Page)
    ensures
        res@ == source@,
{
    parse_page(source)
}

/// Parses `css` with `Selector::parse` and calls `Html::select`; each match
/// is read with `Element::name`, `ElementRef::text` and `ElementRef::attr`.
/// The contract names the result; the `scraper` code gives that it is `None`
/// exactly when the selector does not parse.
#[verifier::external_body]
pub(crate) fn select_page(page: &Page, css: &str, attr: &str) -> (res: Option<Vec<ElementData>>)
    ensures
        opt_elements_view(res) == select_spec(page@, css@, attr@),
        res is Some <==> selector_valid_spec(css@),
{
    let sel = Selector::parse(css).ok()?;
    Some(page.document.select(&sel).map(|e| ElementData { name: e.value().name().to_string(), nodes: e.text().map(|t| t.to_string()).collect(), attr: e.attr(attr).map(|v| v.to_string()) }).collect())
}

/// Parses both selectors, takes the `index`-th match of `outer` with
/// `Iterator::nth` and calls `ElementRef::select` on it; matches are read
/// as by `select_page`. The contract names the result; the `scraper` code gives
/// that it is `None` exactly when a selector does not parse or `outer` has
/// no `index`-th match.
#[verifier::external_body]
pub(crate) fn select_page_within(page: &Page, outer: &str, index: usize, css: &str, attr: &str) -> (res: Option<Vec<ElementData>>)
    ensures
        opt_elements_view(res) == select_within_spec(page@, outer@, index as int, css@, attr@),
        res is Some <==> (selector_valid_spec(outer@) && selector_valid_spec(css@) && has_match(select_spec(page@, outer@, attr@), index as int)),
{
    let o = Selector::parse(outer).ok()?;
    let sel = Selector::parse(css).ok()?;
    let parent = page.document.select(&o).nth(index)?;
    Some(parent.select(&sel).map(|e| ElementData { name: e.value().name().to_string(), nodes: e.text().map(|t| t.to_string()).collect(), attr: e.attr(attr).map(|v| v.to_string()) }).collect())
}

/// As `select_page_within`, one level deeper: the `inner_index`-th match
/// of `inner` inside the `outer_index`-th match of `outer`. The contract
/// names the result; the `scraper` code gives that it is `None` exactly when a
/// selector does not parse or an element is missing.
#[verifier::external_body]
pub(crate) fn select_page_within2(
    page: &Page,
    outer: &str,
    outer_index: usize,
    inner: &str,
    inner_index: usize,
    css: &str,
    attr: &str,
) -> (res: Option<Vec<ElementData>>)
    ensures
        opt_elements_view(res) == select_within2_spec(page@, outer@, outer_index as int, inner@, inner_index as int, css@, attr@),
        res is Some <==> (selector_valid_spec(css@) && has_match(select_within_spec(page@, outer@, outer_index as int, inner@, attr@), inner_index as int)),
{
    let o = Selector::parse(outer).ok()?;
    let i = Selector::parse(inner).ok()?;
    let sel = Selector::parse(css).ok()?;
    let parent = page.document.select(&o).nth(outer_index)?.select(&i).nth(inner_index)?;
    Some(parent.select(&sel).map(|e| ElementData { name: e.value().name().to_string(), nodes: e.text().map(|t| t.to_string()).collect(), attr: e.attr(attr).map(|v| v.to_string()) }).collect())
}

/// The text of an element: its text nodes joined by spaces, then
/// whitespace-normalised.
pub fn element_text(element: &ElementData) -> (res: String)
    ensures
        res@ == node_text(element@.nodes),
{
    text_of_nodes(&element.nodes)
}

/// The text of each of a list of elements.
pub open spec fn texts_of(els: Seq<ElementView>) -> Seq<Seq<char>> {
    els.map_values(|e: ElementView| node_text(e.nodes))
}

/// The texts of a list of elements, in order.
pub fn element_texts(els: &Vec<ElementData>) -> (res: Vec<String>)
    ensures
        views(res@) == texts_of(element_views(els@)),
{
    let ghost ev = element_views(els@);
    let mut texts: Vec<String> = Vec::new();
    let mut j: usize = 0;
    while j < els.len()
        invariant
            j <= els.len(),
            ev == element_views(els@),
            views(texts@) == texts_of(ev.take(j as int)),
        decreases els.len() - j,
    {
        let t = element_text(&els[j]);
        let ghost prev = texts@;
        texts.push(t);
        proof {
            assert(ev[j as int] == els@[j as int]@);
            assert(views(texts@) =~= views(prev).push(t@));
            assert(texts_of(ev.take(j + 1)) =~= texts_of(ev.take(j as int)).push(node_text(ev[j as int].nodes)));
        }
        j = j + 1;
    }
    proof {
        assert(ev.take(j as int) =~= ev);
    }
    texts
}

/// The lines of a page: each text node normalised, the empty ones dropped.
pub open spec fn lines_spec(nodes: Seq<Seq<char>>) -> Seq<Seq<char>> {
    nodes.map_values(|n: Seq<char>| normalize(n)).filter(|l: Seq<char>| l.len() > 0)
}

/// Every line of a page is non-empty and already normalised.
pub proof fn lemma_lines_clean(nodes: Seq<Seq<char>>)
    ensures
        forall|i: int| 0 <= i < lines_spec(nodes).len() ==> #[trigger] lines_spec(nodes)[i].len() > 0
            && normalize(lines_spec(nodes)[i]) == lines_spec(nodes)[i],
{
    let m = nodes.map_values(|n: Seq<char>| normalize(n));
    let pred = |l: Seq<char>| l.len() > 0;
    let f = m.filter(pred);
    assert(f == lines_spec(nodes));
    assert forall|i: int| 0 <= i < f.len() implies #[trigger] f[i].len() > 0 && normalize(f[i]) == f[i] by {
        m.lemma_filter_pred(pred, i);
        assert(f.contains(f[i]));
        m.lemma_filter_contains_rev(pred, f[i]);
        let j = choose|j: int| 0 <= j < m.len() && m[j] == f[i];
        lemma_normalize_idempotent(nodes[j]);
    }
}

/// The non-empty normalised text nodes, in order.
pub fn lines_from_nodes(nodes: &Vec<String>) -> (res: Vec<String>)
    ensures
        views(res@) == lines_spec(views(nodes@)),
        forall|i: int| 0 <= i < res@.len() ==> #[trigger] res@[i]@.len() > 0 && normalize(res@[i]@) == res@[i]@,
{
    proof {
        lemma_lines_clean(views(nodes@));
    }
    let mut out: Vec<String> = Vec::new();
    let mut i: usize = 0;
    proof {
        assert(views(out@) =~= lines_spec(views(nodes@).take(0)));
    }
    while i < nodes.len()
        invariant
            i <= nodes.len(),
            views(out@) == lines_spec(views(nodes@).take(i as int)),
        decreases nodes.len() - i,
    {
        let line = normalize_ws(nodes[i].as_str());
        let ghost prev = out@;
        proof {
            let t = views(nodes@).take(i + 1);
            assert(t.drop_last() =~= views(nodes@).take(i as int));
            let m = t.map_values(|n: Seq<char>| normalize(n));
            assert(m.drop_last() =~= views(nodes@).take(i as int).map_values(|n: Seq<char>| normalize(n)));
            assert(m.last() == line@);
            reveal_with_fuel(Seq::<_>::filter, 1);
            assert(m.filter(|l: Seq<char>| l.len() > 0) == if line@.len() > 0 {
                m.drop_last().filter(|l: Seq<char>| l.len() > 0).push(line@)
            } else {
                m.drop_last().filter(|l: Seq<char>| l.len() > 0)
            });
        }
        if !line.as_str().is_empty() {
            out.push(line);
            proof {
                assert(views(out@) =~= views(prev).push(line@));
            }
        }
        i = i + 1;
    }
    proof {
        assert(views(nodes@).take(i as int) =~= views(nodes@));
        assert forall|k: int| 0 <= k < out@.len() implies #[trigger] out@[k]@.len() > 0 && normalize(out@[k]@) == out@[k]@ by {
            assert(views(out@)[k] == out@[k]@);
        }
    }
    out
}

/// The text lines of a page's `body`: its text nodes normalised, the empty
/// ones dropped; none when the page has no body.
pub open spec fn page_lines(html: Seq<char>) -> Seq<Seq<char>> {
    match select_spec(html, "body"@, NO_ATTR@) {
        Some(bodies) => if bodies.len() > 0 {
            lines_spec(bodies[0].nodes)
        } else {
            Seq::empty()
        },
        None => Seq::empty(),
    }
}

/// The text lines of a page's `body`, in order.
pub fn flatten_text(page: &Page) -> (res: Vec<String>)
    ensures
        views(res@) == page_lines(page@),
        forall|i: int| 0 <= i < res@.len() ==> #[trigger] res@[i]@.len() > 0 && normalize(res@[i]@) == res@[i]@,
{
    let bodies = match select_page(page, "body", NO_ATTR) {
        Some(b) => b,
        None => Vec::new(),
    };
    if bodies.len() == 0 {
        let res: Vec<String> = Vec::new();
        proof {
            assert(views(res@) =~= Seq::<Seq<char>>::empty());
        }
        return res;
    }
    proof {
        assert(element_views(bodies@)[0] == bodies@[0]@);
    }
    lines_from_nodes(&bodies[0].nodes)
}

} // verus!
