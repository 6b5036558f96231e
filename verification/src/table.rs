//! Extraction of data from HTML tables.
//!
//! A [`Table`] is built from one `<table>` element: a map from header names
//! (the `<th>` texts of the first row, if any) to their zero-based positions,
//! and a grid of data rows (the trimmed `<td>` texts of every remaining row).
//! There are three entry points: [`Table::find_first`], [`Table::find_by_id`]
//! and [`Table::find_by_headers`]. Each returns `None` when no table matches;
//! malformed markup never fails, the parser repairs it best-effort.

use vstd::prelude::*;

use crate::html::id_selector_ok;
use crate::html::id_selector_valid;
use crate::html::parse_tables;
use crate::html::tables_in;
use crate::html::RawTable;
use crate::html::RawTableV;

verus! {

/// The header map described by a first row's `<th>` texts: each text maps to
/// its zero-based position among the `<th>` cells, a duplicate text
/// overwriting the earlier position.
pub open spec fn header_map_of(ths: Seq<Seq<char>>) -> Map<Seq<char>, int>
    decreases ths.len(),
{
    if ths.len() == 0 {
        Map::empty()
    } else {
        header_map_of(ths.drop_last()).insert(ths.last(), ths.len() - 1)
    }
}

/// The map held by a list of (header, position) pairs, a later pair
/// overwriting an earlier one with the same header.
pub open spec fn pairs_map(ps: Seq<(Seq<char>, usize)>) -> Map<Seq<char>, int>
    decreases ps.len(),
{
    if ps.len() == 0 {
        Map::empty()
    } else {
        pairs_map(ps.drop_last()).insert(ps.last().0, ps.last().1 as int)
    }
}

/// No two pairs share a header name.
pub open spec fn unique_keys(ps: Seq<(Seq<char>, usize)>) -> bool {
    forall|i: int, j: int| 0 <= i < j < ps.len() ==> ps[i].0 != ps[j].0
}

/// Whether a raw table begins with a header row: its first `<tr>` holds at
/// least one `<th>` cell.
pub open spec fn has_header_row(raw: RawTableV) -> bool {
    raw.rows.len() > 0 && raw.rows[0].ths.len() > 0
}

/// The header map a [`Table`] built from `raw` carries.
pub open spec fn headers_of(raw: RawTableV) -> Map<Seq<char>, int> {
    if has_header_row(raw) {
        header_map_of(raw.rows[0].ths)
    } else {
        Map::empty()
    }
}

/// The `<td>` texts of each row, in order.
pub open spec fn tds_of(rows: Seq<crate::html::RawRowV>) -> Seq<Seq<Seq<char>>> {
    Seq::new(rows.len(), |i: int| rows[i].tds)
}

/// The data grid a [`Table`] built from `raw` carries: every row's `<td>`
/// texts, the header row excluded when there is one.
pub open spec fn data_of(raw: RawTableV) -> Seq<Seq<Seq<char>>> {
    if has_header_row(raw) {
        tds_of(raw.rows.skip(1))
    } else {
        tds_of(raw.rows)
    }
}

/// Whether `t` carries the id attribute `id`.
pub open spec fn has_id(t: RawTableV, id: Seq<char>) -> bool {
    t.id == Some(id)
}

/// Whether the `<th>` texts of `t`'s first row contain every requested
/// header, in any order.
pub open spec fn matches_headers(t: RawTableV, hs: Seq<Seq<char>>) -> bool {
    t.rows.len() > 0 && forall|j: int| 0 <= j < hs.len() ==> t.rows[0].ths.contains(hs[j])
}

/// The position of the first table with id `id`, if any.
pub open spec fn id_table(ts: Seq<RawTableV>, id: Seq<char>) -> Option<int>
    decreases ts.len(),
{
    if ts.len() == 0 {
        None
    } else if has_id(ts[0], id) {
        Some(0)
    } else {
        match id_table(ts.drop_first(), id) {
            Some(j) => Some(j + 1),
            None => None,
        }
    }
}

/// The position of the first table whose first row carries all of `hs`,
/// if any.
pub open spec fn header_table(ts: Seq<RawTableV>, hs: Seq<Seq<char>>) -> Option<int>
    decreases ts.len(),
{
    if ts.len() == 0 {
        None
    } else if matches_headers(ts[0], hs) {
        Some(0)
    } else {
        match header_table(ts.drop_first(), hs) {
            Some(j) => Some(j + 1),
            None => None,
        }
    }
}

/// The table a header search picks: with no requested headers, simply the
/// first table; otherwise the first whose first row carries them all.
pub open spec fn selected_table(ts: Seq<RawTableV>, hs: Seq<Seq<char>>) -> Option<int> {
    if hs.len() == 0 {
        if ts.len() > 0 {
            Some(0)
        } else {
            None
        }
    } else {
        header_table(ts, hs)
    }
}

/// What a lookup function returns: `None` exactly when `sel` picked no
/// table, and otherwise the [`Table`] built from the picked raw table.
pub open spec fn is_table_from(r: Option<Table>, ts: Seq<RawTableV>, sel: Option<int>) -> bool {
    match sel {
        Some(k) => {
            &&& 0 <= k < ts.len()
            &&& r matches Some(t) && t.wf() && t.spec_headers() == headers_of(ts[k])
                && t.spec_data() == data_of(ts[k])
        },
        None => r is None,
    }
}

/// A parsed HTML table: a header map and a grid of cell strings.
#[derive(Clone, Debug, PartialEq, Eq)]
pub struct Table {
    headers: Vec<(String, usize)>,
    data: Vec<Vec<String>>,
}

/// An iterator over the data rows of a [`Table`]; [`Iter::next`] steps it.
pub struct Iter<'a> {
    table: &'a Table,
    pos: usize,
}

/// One data row of a [`Table`]: a view of its cell strings together with the
/// table's header map, for positional or header-keyed access.
#[derive(Clone, Copy, Debug, PartialEq, Eq)]
pub struct Row<'a> {
    headers: &'a Vec<(String, usize)>,
    cells: &'a Vec<String>,
}

impl Table {
    /// The header map of the table.
    pub closed spec fn spec_headers(&self) -> Map<Seq<char>, int> {
        pairs_map(self.headers.deep_view())
    }

    /// The grid of data rows of the table.
    pub closed spec fn spec_data(&self) -> Seq<Seq<Seq<char>>> {
        self.data.deep_view()
    }

    /// The stored header pairs name each header once.
    pub closed spec fn wf(&self) -> bool {
        unique_keys(self.headers.deep_view())
    }
}

/// A table whose first row holds header cells keeps exactly the `<th>`
/// texts as its header map, and its data grid holds exactly the rows after
/// the first, in order.
pub proof fn lemma_header_row(raw: RawTableV)
    requires
        raw.rows.len() > 0,
        raw.rows[0].ths.len() > 0,
    ensures
        headers_of(raw) == header_map_of(raw.rows[0].ths),
        data_of(raw).len() == raw.rows.len() - 1,
        forall|i: int| 0 <= i < raw.rows.len() - 1 ==> data_of(raw)[i] == raw.rows[i + 1].tds,
{
}

/// A table without a `<th>` cell in its first row has an empty header map,
/// and every row, the first included, is a data row.
pub proof fn lemma_no_header_row(raw: RawTableV)
    requires
        raw.rows.len() == 0 || raw.rows[0].ths.len() == 0,
    ensures
        headers_of(raw) == Map::<Seq<char>, int>::empty(),
        data_of(raw).len() == raw.rows.len(),
        forall|i: int| 0 <= i < raw.rows.len() ==> data_of(raw)[i] == raw.rows[i].tds,
{
}

/// The header map names exactly the `<th>` texts, and maps each to the
/// position of its last occurrence among them.
pub proof fn lemma_header_map_positions(ths: Seq<Seq<char>>)
    ensures
        forall|k: Seq<char>| #[trigger] header_map_of(ths).contains_key(k) <==> ths.contains(k),
        forall|k: Seq<char>| #[trigger] header_map_of(ths).contains_key(k) ==> {
            let i = header_map_of(ths)[k];
            &&& 0 <= i < ths.len()
            &&& ths[i] == k
            &&& forall|j: int| i < j < ths.len() ==> ths[j] != k
        },
    decreases ths.len(),
{
    if ths.len() > 0 {
        lemma_header_map_positions(ths.drop_last());
        let m = header_map_of(ths);
        let prefix = ths.drop_last();
        assert forall|k: Seq<char>| #[trigger] m.contains_key(k) implies ths.contains(k) by {
            if k == ths.last() {
                assert(ths[ths.len() - 1] == k);
            } else {
                assert(header_map_of(prefix).contains_key(k));
                assert(prefix.contains(k));
                let w = choose|w: int| 0 <= w < prefix.len() && prefix[w] == k;
                assert(ths[w] == k);
            }
        }
        assert forall|k: Seq<char>| ths.contains(k) implies #[trigger] m.contains_key(k) by {
            let w = choose|w: int| 0 <= w < ths.len() && ths[w] == k;
            if w < ths.len() - 1 {
                assert(prefix[w] == k);
                assert(prefix.contains(k));
                assert(header_map_of(prefix).contains_key(k));
            } else {
                assert(k == ths.last());
            }
        }
        assert forall|k: Seq<char>| #[trigger] m.contains_key(k) implies {
            let i = m[k];
            &&& 0 <= i < ths.len()
            &&& ths[i] == k
            &&& forall|j: int| i < j < ths.len() ==> ths[j] != k
        } by {
            let i = m[k];
            if k == ths.last() {
                assert(i == ths.len() - 1);
                assert(ths[i] == k);
            } else {
                assert(header_map_of(prefix).contains_key(k));
                assert(i == header_map_of(prefix)[k]);
                assert(prefix[i] == k);
                assert(ths[i] == k);
                assert forall|j: int| i < j < ths.len() implies ths[j] != k by {
                    if j < ths.len() - 1 {
                        assert(prefix[j] == ths[j]);
                    }
                }
            }
        }
    }
}

/// A search that requires no headers picks the first table of the document,
/// whatever the document: requesting nothing is the same as taking the
/// first find.
pub proof fn lemma_empty_headers_selects_first(html: Seq<char>)
    ensures
        selected_table(tables_in(html), Seq::<Seq<char>>::empty()) == (if tables_in(html).len()
            > 0 {
            Some(0int)
        } else {
            None::<int>
        }),
{
}

/// Header matching is order-insensitive: two requested header lists with the
/// same elements match exactly the same tables.
pub proof fn lemma_matches_headers_order_insensitive(
    t: RawTableV,
    hs1: Seq<Seq<char>>,
    hs2: Seq<Seq<char>>,
)
    requires
        hs1.to_set() == hs2.to_set(),
    ensures
        matches_headers(t, hs1) == matches_headers(t, hs2),
{
    if t.rows.len() > 0 {
        let ths = t.rows[0].ths;
        if matches_headers(t, hs1) {
            assert forall|j: int| 0 <= j < hs2.len() implies ths.contains(hs2[j]) by {
                assert(hs2.to_set().contains(hs2[j]));
                assert(hs1.contains(hs2[j]));
                let w = choose|w: int| 0 <= w < hs1.len() && hs1[w] == hs2[j];
                assert(ths.contains(hs1[w]));
            }
        }
        if matches_headers(t, hs2) {
            assert forall|j: int| 0 <= j < hs1.len() implies ths.contains(hs1[j]) by {
                assert(hs1.to_set().contains(hs1[j]));
                assert(hs2.contains(hs1[j]));
                let w = choose|w: int| 0 <= w < hs2.len() && hs2[w] == hs1[j];
                assert(ths.contains(hs2[w]));
            }
        }
    }
}

/// A header search is order-insensitive in its requested names: two
/// non-empty requests with the same elements pick the same table of any
/// document.
pub proof fn lemma_header_search_order_insensitive(
    ts: Seq<RawTableV>,
    hs1: Seq<Seq<char>>,
    hs2: Seq<Seq<char>>,
)
    requires
        hs1.to_set() == hs2.to_set(),
        hs1.len() > 0,
        hs2.len() > 0,
    ensures
        selected_table(ts, hs1) == selected_table(ts, hs2),
    decreases ts.len(),
{
    if ts.len() > 0 {
        lemma_matches_headers_order_insensitive(ts[0], hs1, hs2);
        lemma_header_search_order_insensitive(ts.drop_first(), hs1, hs2);
    }
}

proof fn lemma_unique_drop_last(ps: Seq<(Seq<char>, usize)>)
    requires
        unique_keys(ps),
        ps.len() > 0,
    ensures
        unique_keys(ps.drop_last()),
{
}

proof fn lemma_pairs_map_found(ps: Seq<(Seq<char>, usize)>, j: int)
    requires
        unique_keys(ps),
        0 <= j < ps.len(),
    ensures
        pairs_map(ps).contains_key(ps[j].0),
        pairs_map(ps)[ps[j].0] == ps[j].1 as int,
    decreases ps.len(),
{
    if j < ps.len() - 1 {
        lemma_unique_drop_last(ps);
        lemma_pairs_map_found(ps.drop_last(), j);
        assert(ps.last().0 != ps[j].0);
    }
}

proof fn lemma_pairs_map_absent(ps: Seq<(Seq<char>, usize)>, k: Seq<char>)
    requires
        forall|i: int| 0 <= i < ps.len() ==> ps[i].0 != k,
    ensures
        !pairs_map(ps).contains_key(k),
    decreases ps.len(),
{
    if ps.len() > 0 {
        lemma_pairs_map_absent(ps.drop_last(), k);
    }
}

proof fn lemma_pairs_map_update(ps: Seq<(Seq<char>, usize)>, j: int, v: usize)
    requires
        unique_keys(ps),
        0 <= j < ps.len(),
    ensures
        pairs_map(ps.update(j, (ps[j].0, v))) == pairs_map(ps).insert(ps[j].0, v as int),
        unique_keys(ps.update(j, (ps[j].0, v))),
    decreases ps.len(),
{
    let k = ps[j].0;
    let ps2 = ps.update(j, (k, v));
    assert forall|a: int, b: int| 0 <= a < b < ps2.len() implies ps2[a].0 != ps2[b].0 by {
        assert(ps2[a].0 == ps[a].0);
        assert(ps2[b].0 == ps[b].0);
    }
    if j == ps.len() - 1 {
        assert(ps2.drop_last() =~= ps.drop_last());
        assert(ps2.last() == (k, v));
        assert(pairs_map(ps.drop_last()).insert(k, ps.last().1 as int).insert(k, v as int)
            =~= pairs_map(ps.drop_last()).insert(k, v as int));
    } else {
        lemma_unique_drop_last(ps);
        lemma_pairs_map_update(ps.drop_last(), j, v);
        assert(ps2.drop_last() =~= ps.drop_last().update(j, (k, v)));
        let last = ps.last();
        assert(ps2.last() == last);
        assert(last.0 != k);
        assert(pairs_map(ps.drop_last()).insert(k, v as int).insert(last.0, last.1 as int)
            =~= pairs_map(ps.drop_last()).insert(last.0, last.1 as int).insert(k, v as int));
    }
}

/// Whether some cell of `cells` equals `item`, by exact string match.
pub fn contains_str(cells: &Vec<String>, item: &String) -> (r: bool)
    ensures
        r == cells.deep_view().contains(item@),
{
    let n = cells.len();
    let mut i: usize = 0;
    while i < n
        invariant
            n == cells@.len(),
            0 <= i <= n,
            forall|k: int| 0 <= k < i ==> cells.deep_view()[k] != item@,
        decreases n - i,
    {
        if cells[i] == *item {
            assert(cells.deep_view()[i as int] == item@);
            return true;
        }
        i += 1;
    }
    false
}

proof fn lemma_id_table_at(ts: Seq<RawTableV>, id: Seq<char>, i: int)
    requires
        0 <= i <= ts.len(),
        forall|k: int| 0 <= k < i ==> !has_id(ts[k], id),
        i < ts.len() ==> has_id(ts[i], id),
    ensures
        id_table(ts, id) == if i < ts.len() { Some(i) } else { None::<int> },
    decreases ts.len(),
{
    if ts.len() > 0 && i > 0 {
        let rest = ts.drop_first();
        assert forall|k: int| 0 <= k < i - 1 implies !has_id(rest[k], id) by {
            assert(rest[k] == ts[k + 1]);
        }
        assert(i - 1 < rest.len() ==> has_id(rest[i - 1], id));
        lemma_id_table_at(rest, id, i - 1);
    }
}

proof fn lemma_header_table_at(ts: Seq<RawTableV>, hs: Seq<Seq<char>>, i: int)
    requires
        0 <= i <= ts.len(),
        forall|k: int| 0 <= k < i ==> !matches_headers(ts[k], hs),
        i < ts.len() ==> matches_headers(ts[i], hs),
    ensures
        header_table(ts, hs) == if i < ts.len() { Some(i) } else { None::<int> },
    decreases ts.len(),
{
    if ts.len() > 0 && i > 0 {
        let rest = ts.drop_first();
        assert forall|k: int| 0 <= k < i - 1 implies !matches_headers(rest[k], hs) by {
            assert(rest[k] == ts[k + 1]);
        }
        assert(i - 1 < rest.len() ==> matches_headers(rest[i - 1], hs));
        lemma_header_table_at(rest, hs, i - 1);
    }
}

fn row_has_headers(t: &RawTable, query: &Vec<String>) -> (r: bool)
    ensures
        r == matches_headers(t.deep_view(), query.deep_view()),
{
    if t.rows.len() == 0 {
        return false;
    }
    let ths = &t.rows[0].ths;
    let n = query.len();
    let mut qi: usize = 0;
    while qi < n
        invariant
            n == query@.len(),
            0 <= qi <= n,
            t.rows@.len() > 0,
            ths.deep_view() == t.deep_view().rows[0].ths,
            forall|k: int| 0 <= k < qi ==> t.deep_view().rows[0].ths.contains(query.deep_view()[k]),
        decreases n - qi,
    {
        if !contains_str(ths, &query[qi]) {
            proof {
                assert(!t.deep_view().rows[0].ths.contains(query.deep_view()[qi as int]));
            }
            return false;
        }
        qi += 1;
    }
    true
}

impl Table {
    /// Finds the first table in `html`.
    pub fn find_first(html: &str) -> (r: Option<Table>)
        ensures
            is_table_from(r, tables_in(html@), selected_table(tables_in(html@), Seq::empty())),
    {
        let tables = parse_tables(html);
        if tables.len() > 0 {
            Some(Table::new(&tables[0]))
        } else {
            None
        }
    }

    /// Finds the table in `html` whose `id` attribute is exactly `id`.
    /// Returns `None` when there is no such table, or when `id` does not
    /// form a valid selector when written into `table#<id>` as it stands
    /// (callers must supply ids safe for direct interpolation).
    pub fn find_by_id(html: &str, id: &str) -> (r: Option<Table>)
        ensures
            is_table_from(
                r,
                tables_in(html@),
                if id_selector_ok(id@) { id_table(tables_in(html@), id@) } else { None::<int> },
            ),
    {
        if !id_selector_valid(id) {
            return None;
        }
        let tables = parse_tables(html);
        let ghost ts = tables_in(html@);
        let key: String = id.to_owned();
        let n = tables.len();
        let mut i: usize = 0;
        while i < n
            invariant
                n == tables@.len(),
                tables.deep_view() == ts,
                ts == tables_in(html@),
                id_selector_ok(id@),
                0 <= i <= n,
                key@ == id@,
                forall|k: int| 0 <= k < i ==> !has_id(ts[k], id@),
            decreases n - i,
        {
            let hit = match &tables[i].id {
                Some(tid) => *tid == key,
                None => false,
            };
            if hit {
                proof {
                    assert(ts[i as int] == tables@[i as int].deep_view());
                    assert(has_id(ts[i as int], id@));
                    lemma_id_table_at(ts, id@, i as int);
                }
                return Some(Table::new(&tables[i]));
            }
            i += 1;
        }
        proof {
            lemma_id_table_at(ts, id@, n as int);
        }
        None
    }

    /// Finds the first table in `html` whose first row contains all of the
    /// headers in `headers`, in any order, by exact cell-text match. With an
    /// empty `headers` this is the same as [`Table::find_first`].
    pub fn find_by_headers(html: &str, headers: &Vec<String>) -> (r: Option<Table>)
        ensures
            is_table_from(
                r,
                tables_in(html@),
                selected_table(tables_in(html@), headers.deep_view()),
            ),
    {
        if headers.len() == 0 {
            return Table::find_first(html);
        }
        let tables = parse_tables(html);
        let ghost ts = tables_in(html@);
        let ghost hs = headers.deep_view();
        let n = tables.len();
        let mut i: usize = 0;
        while i < n
            invariant
                n == tables@.len(),
                tables.deep_view() == ts,
                ts == tables_in(html@),
                hs == headers.deep_view(),
                hs.len() > 0,
                0 <= i <= n,
                forall|k: int| 0 <= k < i ==> !matches_headers(ts[k], hs),
            decreases n - i,
        {
            if row_has_headers(&tables[i], headers) {
                proof {
                    assert(ts[i as int] == tables@[i as int].deep_view());
                    lemma_header_table_at(ts, hs, i as int);
                }
                return Some(Table::new(&tables[i]));
            }
            i += 1;
        }
        proof {
            lemma_header_table_at(ts, hs, n as int);
        }
        None
    }

    /// The header pairs of the table: each header name with its zero-based
    /// column position. Empty when the first row held no `<th>` cell.
    pub fn headers(&self) -> (r: &Vec<(String, usize)>)
        ensures
            pairs_map(r.deep_view()) == self.spec_headers(),
            self.wf() ==> unique_keys(r.deep_view()),
    {
        &self.headers
    }

    /// An iterator over the data rows, starting at the first; the header
    /// row, when there was one, is not among them.
    pub fn iter<'a>(&'a self) -> (it: Iter<'a>)
        ensures
            it.spec_table() == *self,
            it.spec_pos() == 0,
    {
        Iter { table: self, pos: 0 }
    }

    /// Builds a table from one parsed `<table>` element. If the first row
    /// holds at least one `<th>`, those cells become the header map (a
    /// duplicate text overwriting the earlier position) and the row is left
    /// out of the data grid; otherwise every row is data.
    pub fn new(raw: &RawTable) -> (t: Table)
        ensures
            t.wf(),
            t.spec_headers() == headers_of(raw.deep_view()),
            t.spec_data() == data_of(raw.deep_view()),
    {
        let ghost rawv = raw.deep_view();
        let mut headers: Vec<(String, usize)> = Vec::new();
        if raw.rows.len() > 0 {
            let first = &raw.rows[0];
            let n = first.ths.len();
            let mut i: usize = 0;
            while i < n
                invariant
                    rawv == raw.deep_view(),
                    rawv.rows.len() > 0,
                    first.deep_view() == rawv.rows[0],
                    n == first.ths@.len(),
                    0 <= i <= n,
                    unique_keys(headers.deep_view()),
                    pairs_map(headers.deep_view()) == header_map_of(rawv.rows[0].ths.take(i as int)),
                    headers.deep_view().len() == 0 <==> i == 0,
                decreases n - i,
            {
                let ghost thsv = rawv.rows[0].ths;
                let ghost hv = headers.deep_view();
                proof {
                    assert(thsv.take(i as int + 1).drop_last() =~= thsv.take(i as int));
                    assert(thsv.take(i as int + 1).last() == thsv[i as int]);
                }
                let name = &first.ths[i];
                match find_key(&headers, name) {
                    Some(j) => {
                        proof {
                            lemma_pairs_map_update(hv, j as int, i);
                        }
                        headers.set(j, (name.clone(), i));
                        proof {
                            assert(headers.deep_view() =~= hv.update(j as int, (hv[j as int].0, i)));
                        }
                    },
                    None => {
                        headers.push((name.clone(), i));
                        proof {
                            assert(headers.deep_view() =~= hv.push((name@, i)));
                            assert(headers.deep_view().drop_last() =~= hv);
                            assert forall|a: int, b: int|
                                0 <= a < b < headers.deep_view().len()
                                implies headers.deep_view()[a].0 != headers.deep_view()[b].0 by {
                                if b < hv.len() as int {
                                    assert(headers.deep_view()[a] == hv[a]);
                                    assert(headers.deep_view()[b] == hv[b]);
                                } else {
                                    assert(headers.deep_view()[a] == hv[a]);
                                    assert(headers.deep_view()[b].0 == name@);
                                }
                            }
                        }
                    },
                }
                i += 1;
            }
            proof {
                assert(rawv.rows[0].ths.take(n as int) =~= rawv.rows[0].ths);
            }
        }
        proof {
            if has_header_row(rawv) {
                assert(header_map_of(rawv.rows[0].ths).contains_key(rawv.rows[0].ths.last()));
            }
            assert(headers.deep_view().len() > 0 <==> has_header_row(rawv));
        }
        let start: usize = if headers.len() > 0 {
            1
        } else {
            0
        };
        let mut data: Vec<Vec<String>> = Vec::new();
        let mut r: usize = start;
        while r < raw.rows.len()
            invariant
                rawv == raw.deep_view(),
                start <= r <= rawv.rows.len(),
                start == if has_header_row(rawv) { 1int } else { 0int },
                data.deep_view().len() == r - start,
                forall|k: int| 0 <= k < r - start ==> data.deep_view()[k] == rawv.rows[k + start].tds,
            decreases raw.rows@.len() - r,
        {
            let tds = &raw.rows[r].tds;
            let mut copy: Vec<String> = Vec::new();
            let mut c: usize = 0;
            while c < tds.len()
                invariant
                    copy@.len() == c,
                    0 <= c <= tds@.len(),
                    forall|k: int| 0 <= k < c ==> copy@[k]@ == tds@[k]@,
                decreases tds@.len() - c,
            {
                copy.push(tds[c].clone());
                c += 1;
            }
            proof {
                assert(copy.deep_view() =~= tds.deep_view());
            }
            let ghost dv = data.deep_view();
            data.push(copy);
            proof {
                assert(data.deep_view() =~= dv.push(tds.deep_view()));
            }
            r += 1;
        }
        let t = Table { headers, data };
        proof {
            assert(t.spec_data() =~= data_of(rawv));
        }
        t
    }
}

impl<'a> Iter<'a> {
    /// The table being iterated.
    pub closed spec fn spec_table(&self) -> Table {
        *self.table
    }

    /// The position of the next row to be yielded.
    pub closed spec fn spec_pos(&self) -> int {
        self.pos as int
    }

    /// Yields the next data row, or `None` past the last one.
    pub fn next(&mut self) -> (r: Option<Row<'a>>)
        ensures
            final(self).spec_table() == old(self).spec_table(),
            (r is Some) == (old(self).spec_pos() < old(self).spec_table().spec_data().len()),
            r matches Some(row) ==> ({
                &&& old(self).spec_pos() + 1 <= usize::MAX
                &&& final(self).spec_pos() == old(self).spec_pos() + 1
                &&& row.spec_headers() == old(self).spec_table().spec_headers()
                &&& row.spec_cells() == old(self).spec_table().spec_data()[old(self).spec_pos()]
                &&& (old(self).spec_table().wf() ==> row.wf())
            }),
            r is None ==> final(self).spec_pos() == old(self).spec_pos(),
    {
        let t = self.table;
        if self.pos < t.data.len() {
            let row = Row { headers: &t.headers, cells: &t.data[self.pos] };
            self.pos = self.pos + 1;
            Some(row)
        } else {
            None
        }
    }
}

impl<'a> Row<'a> {
    /// The header map the row is keyed by.
    pub closed spec fn spec_headers(&self) -> Map<Seq<char>, int> {
        pairs_map(self.headers.deep_view())
    }

    /// The cell strings of the row, in document order.
    pub closed spec fn spec_cells(&self) -> Seq<Seq<char>> {
        self.cells.deep_view()
    }

    /// The header pairs behind the row name each header once.
    pub closed spec fn wf(&self) -> bool {
        unique_keys(self.headers.deep_view())
    }

    /// The number of cells in the row.
    pub fn len(&self) -> (n: usize)
        ensures
            n == self.spec_cells().len(),
    {
        self.cells.len()
    }

    /// Whether the row contains no cells.
    pub fn is_empty(&self) -> (b: bool)
        ensures
            b == (self.spec_cells().len() == 0),
    {
        self.cells.len() == 0
    }

    /// The cell underneath `header`: `None` when the table has no such
    /// header, or when the row is too short to reach its position.
    pub fn get(&self, header: &str) -> (r: Option<&'a str>)
        requires
            self.wf(),
        ensures
            match r {
                Some(s) => {
                    &&& self.spec_headers().contains_key(header@)
                    &&& 0 <= self.spec_headers()[header@] < self.spec_cells().len()
                    &&& s@ == self.spec_cells()[self.spec_headers()[header@]]
                },
                None => !self.spec_headers().contains_key(header@)
                    || self.spec_headers()[header@] >= self.spec_cells().len(),
            },
    {
        let key: String = header.to_owned();
        let cells = self.cells;
        match find_key(self.headers, &key) {
            Some(j) => {
                proof {
                    lemma_pairs_map_found(self.headers.deep_view(), j as int);
                }
                let idx = self.headers[j].1;
                if idx < cells.len() {
                    Some(cells[idx].as_str())
                } else {
                    None
                }
            },
            None => {
                proof {
                    lemma_pairs_map_absent(self.headers.deep_view(), header@);
                }
                None
            },
        }
    }

    /// A slice of all the cells, for positional access.
    pub fn as_slice(&self) -> (r: &'a [String])
        ensures
            r.deep_view() == self.spec_cells(),
    {
        self.cells.as_slice()
    }

    /// The cells of the row in order, to be walked by the caller.
    pub fn iter(&self) -> (r: &'a Vec<String>)
        ensures
            r.deep_view() == self.spec_cells(),
    {
        self.cells
    }
}

fn find_key(pairs: &Vec<(String, usize)>, key: &String) -> (r: Option<usize>)
    ensures
        match r {
            Some(j) => j < pairs.deep_view().len() && pairs.deep_view()[j as int].0 == key@,
            None => forall|k: int| 0 <= k < pairs.deep_view().len() ==> pairs.deep_view()[k].0 != key@,
        },
{
    let n = pairs.len();
    let mut i: usize = 0;
    while i < n
        invariant
            n == pairs@.len(),
            0 <= i <= n,
            forall|k: int| 0 <= k < i ==> pairs.deep_view()[k].0 != key@,
        decreases n - i,
    {
        if pairs[i].0 == *key {
            return Some(i);
        }
        i += 1;
    }
    None
}

} // verus!
