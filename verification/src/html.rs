//! A plain-value picture of the `<table>` elements of an HTML document.
//!
//! The HTML parsing itself is done by the `scraper` crate behind a small set
//! of trusted wrappers. Everything a caller can observe about a document is
//! summed up by the uninterpreted functions [`tables_in`], [`first_span_in`]
//! and [`id_selector_ok`]; the verified code in the rest of the crate works
//! on those names alone.

use vstd::prelude::*;

verus! {

/// One `<tr>` of a table: the trimmed inner HTML of its `<th>` cells and of
/// its `<td>` cells, each kept in document order.
pub struct RawRow {
    pub ths: Vec<String>,
    pub tds: Vec<String>,
}

/// One `<table>` element: its `id` attribute, if it has one, and its `<tr>`
/// rows in document order.
pub struct RawTable {
    pub id: Option<String>,
    pub rows: Vec<RawRow>,
}

/// The mathematical value of a [`RawRow`].
pub struct RawRowV {
    pub ths: Seq<Seq<char>>,
    pub tds: Seq<Seq<char>>,
}

/// The mathematical value of a [`RawTable`].
pub struct RawTableV {
    pub id: Option<Seq<char>>,
    pub rows: Seq<RawRowV>,
}

impl DeepView for RawRow {
    type V = RawRowV;

    open spec fn deep_view(&self) -> RawRowV {
        RawRowV { ths: self.ths.deep_view(), tds: self.tds.deep_view() }
    }
}

impl DeepView for RawTable {
    type V = RawTableV;

    open spec fn deep_view(&self) -> RawTableV {
        RawTableV { id: self.id.deep_view(), rows: self.rows.deep_view() }
    }
}

/// The `<table>` elements of `html` in document order, as `scraper` parses
/// them: each with its `id` attribute and, per `<tr>` under it, the trimmed
/// inner HTML of its `<th>` and `<td>` cells.
pub uninterp spec fn tables_in(html: Seq<char>) -> Seq<RawTableV>;

/// The trimmed inner HTML of the first `<span>` element of `fragment`, if
/// there is one, as `scraper` parses it.
pub uninterp spec fn first_span_in(fragment: Seq<char>) -> Option<Seq<char>>;

/// Whether `table#<id>` parses as a valid CSS selector.
pub uninterp spec fn id_selector_ok(id: Seq<char>) -> bool;

/// Relies on scraper's `Html::parse_fragment`, `select` and `inner_html`:
/// the parse never fails, `select` walks matches in document order, and
/// `inner_html` serializes an element's contents with inner markup kept.
/// Parsing is a function of the text alone, named by [`tables_in`].
#[verifier::external_body]
pub(crate) fn parse_tables(html: &str) -> (r: Vec<RawTable>)
    ensures
        r.deep_view() == tables_in(html@),
{
    let doc = scraper::Html::parse_fragment(html);
    let q = |s: &str| scraper::Selector::parse(s).unwrap();
    let cell = |e: scraper::ElementRef| e.inner_html().trim().to_string();
    doc.select(&q("table")).map(|t| RawTable {
        id: t.attr("id").map(|s| s.to_string()),
        rows: t.select(&q("tr")).map(|r| RawRow {
            ths: r.select(&q("th")).map(cell).collect(),
            tds: r.select(&q("td")).map(cell).collect(),
        }).collect(),
    }).collect()
}

/// Relies on scraper's `Html::parse_fragment`, `select` and `inner_html`,
/// as [`parse_tables`] does; the result is a function of the text alone,
/// named by [`first_span_in`].
#[verifier::external_body]
pub(crate) fn first_span_content(fragment: &str) -> (r: Option<String>)
    ensures
        r.deep_view() == first_span_in(fragment@),
{
    let sel = scraper::Selector::parse("span").unwrap();
    scraper::Html::parse_fragment(fragment)
        .select(&sel)
        .next()
        .map(|e| e.inner_html().trim().to_string())
}

/// Relies on scraper's `Selector::parse`: whether it accepts `table#<id>`
/// is a function of `id` alone, named by [`id_selector_ok`].
#[verifier::external_body]
pub(crate) fn id_selector_valid(id: &str) -> (r: bool)
    ensures
        r == id_selector_ok(id@),
{
    scraper::Selector::parse(&format!("table#{}", id)).is_ok()
}

/// True exactly when the first character of `s` is `'<'`, the mark of cell
/// content that is still markup.
pub(crate) fn starts_with_lt(s: &str) -> (r: bool)
    ensures
        r == (s@.len() > 0 && s@[0] == '<'),
{
    broadcast use vstd::string::axiom_spec_iter;
    broadcast use vstd::string::next_postcondition;

    let mut it = s.chars();
    match it.next() {
        Some(c) => c == '<',
        None => false,
    }
}

} // verus!
