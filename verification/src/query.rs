//! Queries: tables of values taken from a record by a list of paths and
//! literals.
use vstd::prelude::*;
use vstd::string::{StrSliceExecFns, StringSliceAdditionalSpecFns};
use vstd::utf8::encode_utf8;

use crate::matcher::subfield::{code_views, has_code};
use crate::bytes::{contains, contains_bytes};
use crate::matcher::MatcherOptions;
use crate::parser::{byte_at, byte_is, parse_string, skip_ws, skip_ws_at, string_at};
use crate::path::{code_lists, lemma_path_codes, parse_path_at, path_ast, path_at, path_selects, Path, PathAst, PathSpec};
use crate::text::{push_str, to_str_lossy, lossy_chars};
use crate::record::{ByteRecord, StringRecord};
use crate::primitives::model::{SpecField, SpecSubfield};
use crate::primitives::subfield::{append_bytes, copy_bytes};
use crate::primitives::{FieldRef, RecordRef};

verus! {

/// An error that can occur when parsing a query expression.
#[derive(Debug)]
pub struct ParseQueryError(pub(crate) String);

impl View for ParseQueryError {
    type V = Seq<char>;

    closed spec fn view(&self) -> Seq<char> {
        self.0@
    }
}

impl ParseQueryError {
    /// The message of the error.
    pub fn to_string(&self) -> (r: String)
        ensures
            r@ == self@,
    {
        self.0.clone()
    }
}

/// A table of values: rows of columns, each cell a byte string.
pub type Table = Seq<Seq<Seq<u8>>>;

/// The values of the subfields whose code is in the list, in order.
pub open spec fn list_values(list: Seq<u8>, subfields: Seq<SpecSubfield>) -> Seq<Seq<u8>>
    decreases subfields.len(),
{
    if subfields.len() == 0 {
        Seq::empty()
    } else {
        let rest = list_values(list, subfields.drop_last());
        if list.contains(subfields.last().code) {
            rest.push(subfields.last().value)
        } else {
            rest
        }
    }
}

/// A one-column table with a row for each value; one empty cell where
/// there is no value.
pub open spec fn column(values: Seq<Seq<u8>>) -> Table {
    if values.len() == 0 {
        seq![seq![Seq::<u8>::empty()]]
    } else {
        values.map_values(|v: Seq<u8>| seq![v])
    }
}

/// The cells of a table, row after row.
pub open spec fn cells(t: Table) -> Seq<Seq<u8>>
    decreases t.len(),
{
    if t.len() == 0 {
        Seq::empty()
    } else {
        cells(t.drop_last()) + t.last()
    }
}

/// The items, with the separator between each two of them.
pub open spec fn join(items: Seq<Seq<u8>>, sep: Seq<u8>) -> Seq<u8>
    decreases items.len(),
{
    if items.len() == 0 {
        Seq::empty()
    } else if items.len() == 1 {
        items[0]
    } else {
        join(items.drop_last(), sep) + sep + items.last()
    }
}

/// A table of one cell: the cells of `t` joined by the separator.
pub open spec fn squashed(t: Table, sep: Seq<u8>) -> Table {
    seq![seq![join(cells(t), sep)]]
}

/// Squashing the values with the separator runs them together in a way
/// that cannot be undone: there is more than one value, the separator is
/// not empty, and some value contains it.
pub open spec fn separator_collides(values: Seq<Seq<u8>>, sep: Seq<u8>) -> bool {
    &&& values.len() > 1
    &&& sep.len() > 0
    &&& exists|k: int| 0 <= k < values.len() && contains_bytes(#[trigger] values[k], sep)
}

/// Tells whether squashing the values with the separator runs them
/// together in a way that cannot be undone, the case a squash warns of.
pub fn squash_separator_collides(values: &[Vec<u8>], sep: &str) -> (r: bool)
    ensures
        r == separator_collides(row_views(values@), sep.spec_bytes()),
{
    let bytes = sep.as_bytes();
    if values.len() <= 1 || bytes.len() == 0 {
        return false;
    }
    let mut k: usize = 0;
    while k < values.len()
        invariant
            0 <= k <= values@.len(),
            values@.len() > 1,
            bytes@ == sep.spec_bytes(),
            bytes@.len() > 0,
            row_views(values@).len() == values@.len(),
            forall|j: int| 0 <= j < k ==> !contains_bytes(#[trigger] row_views(values@)[j], bytes@),
        decreases values@.len() - k,
    {
        assert(row_views(values@)[k as int] == values@[k as int]@);
        if contains(values[k].as_slice(), bytes) {
            return true;
        }
        k = k + 1;
    }
    false
}

/// Each row of `xs` followed by each row of `ys`, in order.
pub open spec fn product(xs: Table, ys: Table) -> Table
    decreases xs.len(),
{
    if xs.len() == 0 {
        Seq::empty()
    } else {
        product(xs.drop_last(), ys) + ys.map_values(|y: Seq<Seq<u8>>| xs.last() + y)
    }
}

/// The product of two tables, where an empty table is the neutral
/// element.
pub open spec fn times(a: Table, b: Table) -> Table {
    if a.len() == 0 {
        b
    } else if b.len() == 0 {
        a
    } else {
        product(a, b)
    }
}

/// Column `i` of each row joined by the separator.
pub open spec fn column_joined(t: Table, i: int, sep: Seq<u8>) -> Seq<u8> {
    join(t.map_values(|row: Seq<Seq<u8>>| row[i]), sep)
}

/// One row: for each column of the first row, the cells of that column
/// joined by the separator.
pub open spec fn merged(t: Table, sep: Seq<u8>) -> Table {
    seq![Seq::new(t[0].len(), |i: int| column_joined(t, i, sep))]
}

/// Every row has `w` cells.
pub open spec fn rectangular(t: Table, w: int) -> bool {
    forall|r: int| 0 <= r < t.len() ==> (#[trigger] t[r]).len() == w
}

/// The byte strings of a row.
pub open spec fn row_views(row: Seq<Vec<u8>>) -> Seq<Seq<u8>> {
    row.map_values(|c: Vec<u8>| c@)
}

/// The byte strings of a table.
pub open spec fn table_views(t: Seq<Vec<Vec<u8>>>) -> Table {
    t.map_values(|row: Vec<Vec<u8>>| row_views(row@))
}

/// Options and flags to configure a query.
pub struct QueryOptions {
    pub case_ignore: bool,
    /// The least similarity, in thousandths, of two strings that the
    /// similarity operator (`=*`) takes as similar.
    pub strsim_threshold: u32,
    pub separator: String,
    pub squash: bool,
    pub merge: bool,
}

impl QueryOptions {
    /// The bytes of the separator.
    pub open spec fn sep(&self) -> Seq<u8> {
        encode_utf8(self.separator@)
    }

    /// The default options: case matters, threshold 800, separator `|`,
    /// neither squash nor merge.
    pub fn new() -> (r: Self)
        ensures
            !r.case_ignore,
            r.strsim_threshold == 800,
            r.separator@ == "|"@,
            !r.squash,
            !r.merge,
    {
        QueryOptions {
            case_ignore: false,
            strsim_threshold: 800,
            separator: "|".to_string(),
            squash: false,
            merge: false,
        }
    }

    /// Whether to ignore case when comparing strings or not.
    pub fn case_ignore(self, yes: bool) -> (r: Self)
        ensures
            r == (QueryOptions { case_ignore: yes, ..self }),
    {
        QueryOptions { case_ignore: yes, ..self }
    }

    /// Sets the similarity threshold, in thousandths, of the similarity
    /// operator (`=*`).
    pub fn strsim_threshold(self, threshold: u32) -> (r: Self)
        ensures
            r == (QueryOptions { strsim_threshold: threshold, ..self }),
    {
        QueryOptions { strsim_threshold: threshold, ..self }
    }

    /// Whether to squash the values of a column or not.
    pub fn squash(self, yes: bool) -> (r: Self)
        ensures
            r == (QueryOptions { squash: yes, ..self }),
    {
        QueryOptions { squash: yes, ..self }
    }

    /// Whether to merge the rows of repeated fields or not.
    pub fn merge(self, yes: bool) -> (r: Self)
        ensures
            r == (QueryOptions { merge: yes, ..self }),
    {
        QueryOptions { merge: yes, ..self }
    }

    /// Sets the squash and merge separator.
    pub fn separator(self, sep: String) -> (r: Self)
        ensures
            r == (QueryOptions { separator: sep, ..self }),
    {
        QueryOptions { separator: sep, ..self }
    }
}

impl Default for QueryOptions {
    fn default() -> (r: Self)
        ensures
            !r.case_ignore,
            r.strsim_threshold == 800,
            r.separator@ == "|"@,
            !r.squash,
            !r.merge,
    {
        QueryOptions::new()
    }
}

/// The outcome of a query: rows of values.
pub struct Outcome<T>(pub(crate) Vec<Vec<T>>);

impl<T: View> View for Outcome<T> {
    type V = Seq<Seq<T::V>>;

    closed spec fn view(&self) -> Seq<Seq<T::V>> {
        self.0@.map_values(|row: Vec<T>| row@.map_values(|c: T| c@))
    }
}

impl<T: View> Outcome<T> {
    /// Consumes the outcome, returning its rows.
    pub fn into_inner(self) -> (r: Vec<Vec<T>>)
        ensures
            r@.map_values(|row: Vec<T>| row@.map_values(|c: T| c@)) == self@,
    {
        self.0
    }
}

/// A copy of a row.
fn copy_row(row: &Vec<Vec<u8>>) -> (r: Vec<Vec<u8>>)
    ensures
        row_views(r@) == row_views(row@),
{
    let mut out: Vec<Vec<u8>> = Vec::new();
    let mut k: usize = 0;
    while k < row.len()
        invariant
            0 <= k <= row@.len(),
            out@.len() == k,
            row_views(out@) == row_views(row@).take(k as int),
        decreases row@.len() - k,
    {
        let c = copy_bytes(row[k].as_slice());
        assert(row_views(row@)[k as int] == c@);
        let ghost before = out@;
        out.push(c);
        assert forall|j: int| 0 <= j < k implies row_views(out@)[j] == row_views(row@)[j] by {
            assert(out@[j] == before[j]);
            assert(row_views(before)[j] == row_views(row@).take(k as int)[j]);
        }
        assert(row_views(out@) =~= row_views(row@).take(k + 1));
        k = k + 1;
    }
    assert(row_views(row@).take(k as int) =~= row_views(row@));
    out
}

/// The rows of `a` followed by those of `b`.
fn concat_rows(a: Vec<Vec<Vec<u8>>>, b: Vec<Vec<Vec<u8>>>) -> (r: Vec<Vec<Vec<u8>>>)
    ensures
        table_views(r@) == table_views(a@) + table_views(b@),
{
    let mut out = a;
    let mut b = b;
    let ghost oa = out@;
    let ghost ob = b@;
    out.append(&mut b);
    assert(out@ == oa + ob);
    assert(table_views(out@) =~= table_views(oa) + table_views(ob));
    out
}

/// The join of a longer list.
proof fn lemma_join_push(items: Seq<Seq<u8>>, x: Seq<u8>, sep: Seq<u8>)
    ensures
        join(items.push(x), sep) == if items.len() == 0 {
            x
        } else {
            join(items, sep) + sep + x
        },
{
    assert(items.push(x).drop_last() =~= items);
    if items.len() == 0 {
        assert(items.push(x)[0] == x);
    }
}

/// The cells of a longer table.
proof fn lemma_cells_take(t: Table, r: int)
    requires
        0 <= r < t.len(),
    ensures
        cells(t.take(r + 1)) == cells(t.take(r)) + t[r],
{
    assert(t.take(r + 1).drop_last() =~= t.take(r));
}

/// The product with a longer first table.
proof fn lemma_product_take(xs: Table, ys: Table, i: int)
    requires
        0 <= i < xs.len(),
    ensures
        product(xs.take(i + 1), ys) == product(xs.take(i), ys) + ys.map_values(
            |y: Seq<Seq<u8>>| xs[i] + y,
        ),
{
    assert(xs.take(i + 1).drop_last() =~= xs.take(i));
    assert(xs.take(i + 1).last() == xs[i]);
}

/// The product of two tables, where an empty table is the neutral element.
fn times_rows(a: Vec<Vec<Vec<u8>>>, b: Vec<Vec<Vec<u8>>>) -> (r: Vec<Vec<Vec<u8>>>)
    ensures
        table_views(r@) == times(table_views(a@), table_views(b@)),
{
    if a.len() == 0 {
        return b;
    }
    if b.len() == 0 {
        return a;
    }
    let ghost ta = table_views(a@);
    let ghost tb = table_views(b@);
    let mut out: Vec<Vec<Vec<u8>>> = Vec::new();
    let mut i: usize = 0;
    assert(ta.take(0) =~= Seq::<Seq<Seq<u8>>>::empty());
    assert(table_views(out@) =~= product(ta.take(0), tb));
    while i < a.len()
        invariant
            0 <= i <= a@.len(),
            ta == table_views(a@),
            tb == table_views(b@),
            table_views(out@) == product(ta.take(i as int), tb),
        decreases a@.len() - i,
    {
        let ghost start = table_views(out@);
        let ghost x = ta[i as int];
        assert(x == row_views(a@[i as int]@));
        let mut j: usize = 0;
        assert(tb.take(0).map_values(|y: Seq<Seq<u8>>| x + y) =~= Seq::<Seq<Seq<u8>>>::empty());
        while j < b.len()
            invariant
                0 <= i < a@.len(),
                0 <= j <= b@.len(),
                ta == table_views(a@),
                tb == table_views(b@),
                x == ta[i as int],
                x == row_views(a@[i as int]@),
                table_views(out@) == start + tb.take(j as int).map_values(|y: Seq<Seq<u8>>| x + y),
            decreases b@.len() - j,
        {
            let mut row = copy_row(&a[i]);
            let mut tail = copy_row(&b[j]);
            let ghost r0 = row@;
            let ghost t0 = tail@;
            row.append(&mut tail);
            assert(row@ == r0 + t0);
            assert(row_views(row@) =~= x + tb[j as int]);
            let ghost before = out@;
            out.push(row);
            assert(table_views(out@) =~= table_views(before).push(x + tb[j as int]));
            assert(tb.take(j + 1).map_values(|y: Seq<Seq<u8>>| x + y) =~= tb.take(j as int).map_values(
                |y: Seq<Seq<u8>>| x + y,
            ).push(x + tb[j as int]));
            j = j + 1;
        }
        assert(tb.take(j as int) =~= tb);
        proof {
            lemma_product_take(ta, tb, i as int);
        }
        i = i + 1;
    }
    assert(ta.take(i as int) =~= ta);
    out
}

/// The cells of the table joined by the separator, as a table of one cell.
fn squash_rows(t: &Vec<Vec<Vec<u8>>>, sep: &[u8]) -> (r: Vec<Vec<Vec<u8>>>)
    ensures
        table_views(r@) == squashed(table_views(t@), sep@),
{
    let ghost tv = table_views(t@);
    let mut value: Vec<u8> = Vec::new();
    let mut n: usize = 0;
    let mut k: usize = 0;
    assert(tv.take(0) =~= Seq::<Seq<Seq<u8>>>::empty());
    while k < t.len()
        invariant
            0 <= k <= t@.len(),
            tv == table_views(t@),
            value@ == join(cells(tv.take(k as int)), sep@),
            n as int == cells(tv.take(k as int)).len() || n > 0 && cells(tv.take(k as int)).len() > 0,
        decreases t@.len() - k,
    {
        let row = &t[k];
        let ghost rv = tv[k as int];
        assert(rv == row_views(row@));
        let mut c: usize = 0;
        assert(rv.take(0) =~= Seq::<Seq<u8>>::empty());
        assert(cells(tv.take(k as int)) + rv.take(0) =~= cells(tv.take(k as int)));
        while c < row.len()
            invariant
                0 <= k < t@.len(),
                0 <= c <= row@.len(),
                tv == table_views(t@),
                rv == tv[k as int],
                rv == row_views(row@),
                value@ == join(cells(tv.take(k as int)) + rv.take(c as int), sep@),
                n as int == (cells(tv.take(k as int)) + rv.take(c as int)).len() || n > 0 && (cells(
                    tv.take(k as int),
                ) + rv.take(c as int)).len() > 0,
            decreases row@.len() - c,
        {
            let ghost items = cells(tv.take(k as int)) + rv.take(c as int);
            assert(rv[c as int] == row@[c as int]@);
            proof {
                lemma_join_push(items, rv[c as int], sep@);
            }
            assert(items.push(rv[c as int]) =~= cells(tv.take(k as int)) + rv.take(c + 1));
            if n > 0 {
                append_bytes(&mut value, sep);
            }
            append_bytes(&mut value, row[c].as_slice());
            if n < usize::MAX {
                n = n + 1;
            }
            c = c + 1;
        }
        assert(rv.take(c as int) =~= rv);
        proof {
            lemma_cells_take(tv, k as int);
        }
        k = k + 1;
    }
    assert(tv.take(k as int) =~= tv);
    let ghost v = value@;
    let mut out: Vec<Vec<Vec<u8>>> = Vec::new();
    let mut row: Vec<Vec<u8>> = Vec::new();
    row.push(value);
    out.push(row);
    assert(table_views(out@) =~= seq![seq![v]]) by {
        assert(row_views(out@[0]@) =~= seq![v]);
    }
    out
}

/// The column joins over one more row.
proof fn lemma_column_joined_take(t: Table, r: int, i: int, sep: Seq<u8>)
    requires
        1 <= r < t.len(),
    ensures
        column_joined(t.take(r + 1), i, sep) == column_joined(t.take(r), i, sep) + sep + t[r][i],
{
    let f = |row: Seq<Seq<u8>>| row[i];
    assert(t.take(r + 1).map_values(f) =~= t.take(r).map_values(f).push(t[r][i]));
    lemma_join_push(t.take(r).map_values(f), t[r][i], sep);
}

/// One row: for each column, its cells joined by the separator; the
/// table must have a row, and no row fewer cells than the first.
fn merge_rows(t: &Vec<Vec<Vec<u8>>>, sep: &[u8]) -> (r: Vec<Vec<Vec<u8>>>)
    requires
        t@.len() > 0,
        forall|k: int| 0 <= k < t@.len() ==> (#[trigger] t@[k])@.len() >= t@[0]@.len(),
    ensures
        table_views(r@) == merged(table_views(t@), sep@),
{
    let ghost tv = table_views(t@);
    let mut acc = copy_row(&t[0]);
    let w = acc.len();
    assert(tv[0] == row_views(t@[0]@));
    assert(row_views(acc@).len() == acc@.len());
    assert(row_views(t@[0]@).len() == t@[0]@.len());
    assert forall|i: int| 0 <= i < w implies row_views(acc@)[i] == column_joined(tv.take(1), i, sep@) by {
        assert(tv.take(1).map_values(|row: Seq<Seq<u8>>| row[i]) =~= seq![tv[0][i]]);
    }
    let mut r: usize = 1;
    while r < t.len()
        invariant
            1 <= r <= t@.len(),
            tv == table_views(t@),
            w == t@[0]@.len(),
            acc@.len() == w,
            forall|k: int| 0 <= k < t@.len() ==> (#[trigger] t@[k])@.len() >= t@[0]@.len(),
            forall|i: int| 0 <= i < w ==> #[trigger] row_views(acc@)[i] == column_joined(tv.take(r as int), i, sep@),
        decreases t@.len() - r,
    {
        let row = &t[r];
        assert(tv[r as int] == row_views(row@));
        let mut i: usize = 0;
        while i < w
            invariant
                1 <= r < t@.len(),
                0 <= i <= w,
                tv == table_views(t@),
                tv[r as int] == row_views(row@),
                w == t@[0]@.len(),
                row@.len() >= w,
                acc@.len() == w,
                forall|j: int| 0 <= j < i ==> #[trigger] row_views(acc@)[j] == column_joined(tv.take(r + 1), j, sep@),
                forall|j: int| i <= j < w ==> #[trigger] row_views(acc@)[j] == column_joined(tv.take(r as int), j, sep@),
            decreases w - i,
        {
            let mut cell = copy_bytes(acc[i].as_slice());
            append_bytes(&mut cell, sep);
            append_bytes(&mut cell, row[i].as_slice());
            proof {
                lemma_column_joined_take(tv, r as int, i as int, sep@);
                assert(row_views(acc@)[i as int] == acc@[i as int]@);
                assert(tv[r as int][i as int] == row@[i as int]@);
            }
            let ghost before = acc@;
            let ghost cv = cell@;
            acc.set(i, cell);
            assert(row_views(acc@)[i as int] == cv);
            assert(cv == column_joined(tv.take(r + 1), i as int, sep@));
            assert forall|j: int| 0 <= j < w && j != i implies #[trigger] row_views(acc@)[j] == row_views(before)[j] by {
                assert(acc@[j] == before[j]);
            }
            i = i + 1;
        }
        r = r + 1;
    }
    assert(tv.take(r as int) =~= tv);
    let ghost row0 = row_views(acc@);
    let mut out: Vec<Vec<Vec<u8>>> = Vec::new();
    out.push(acc);
    assert(table_views(out@) =~= merged(tv, sep@)) by {
        assert(row0 =~= Seq::new(tv[0].len(), |i: int| column_joined(tv, i, sep@)));
    }
    out
}

/// The table of one list of codes in a field: a row for each value of a
/// subfield whose code is in the list, squashed into one cell if asked.
pub open spec fn code_table(list: Seq<u8>, subfields: Seq<SpecSubfield>, o: QueryOptions) -> Table {
    let c = column(list_values(list, subfields));
    if o.squash {
        squashed(c, o.sep())
    } else {
        c
    }
}

/// The table of a field: the product of the tables of the lists, in
/// order.
pub open spec fn field_table(lists: Seq<Seq<u8>>, subfields: Seq<SpecSubfield>, o: QueryOptions) -> Table
    decreases lists.len(),
{
    if lists.len() == 0 {
        Seq::empty()
    } else {
        times(field_table(lists.drop_last(), subfields, o), code_table(lists.last(), subfields, o))
    }
}

/// The rows of the fields the path selects, field after field.
pub open spec fn path_rows(p: PathSpec, fields: Seq<SpecField>, o: QueryOptions) -> Table
    decreases fields.len(),
{
    if fields.len() == 0 {
        Seq::empty()
    } else {
        let rest = path_rows(p, fields.drop_last(), o);
        if path_selects(p, fields.last(), o.case_ignore, o.strsim_threshold) {
            rest + field_table(p.codes, fields.last().subfields, o)
        } else {
            rest
        }
    }
}

/// The table of a path: its rows, or one row of empty cells where there
/// are none.
pub open spec fn path_table(p: PathSpec, fields: Seq<SpecField>, o: QueryOptions) -> Table {
    let rows = path_rows(p, fields, o);
    if rows.len() == 0 {
        seq![Seq::new(p.codes.len(), |k: int| Seq::<u8>::empty())]
    } else {
        rows
    }
}

/// A part of a query.
pub enum FragmentSpec {
    Path(PathSpec),
    Literal(Seq<u8>),
}

/// The table of a fragment: a literal is one cell.
pub open spec fn fragment_table(f: FragmentSpec, fields: Seq<SpecField>, o: QueryOptions) -> Table {
    match f {
        FragmentSpec::Path(p) => path_table(p, fields, o),
        FragmentSpec::Literal(s) => seq![seq![s]],
    }
}

/// The table of a fragment, merged into one row if asked.
pub open spec fn fragment_step(f: FragmentSpec, fields: Seq<SpecField>, o: QueryOptions) -> Table {
    if o.merge {
        merged(fragment_table(f, fields, o), o.sep())
    } else {
        fragment_table(f, fields, o)
    }
}

/// The outcome of a query: the product of the tables of its fragments.
pub open spec fn query_table(frags: Seq<FragmentSpec>, fields: Seq<SpecField>, o: QueryOptions) -> Table
    decreases frags.len(),
{
    if frags.len() == 0 {
        Seq::empty()
    } else {
        times(query_table(frags.drop_last(), fields, o), fragment_step(frags.last(), fields, o))
    }
}

/// The number of cells of each row of a fragment's table.
pub open spec fn fragment_width(f: FragmentSpec) -> int {
    match f {
        FragmentSpec::Path(p) => p.codes.len() as int,
        FragmentSpec::Literal(_) => 1,
    }
}

/// Each row of a product has the cells of a row of each table.
proof fn lemma_product_rectangular(xs: Table, ys: Table, wx: int, wy: int)
    requires
        rectangular(xs, wx),
        rectangular(ys, wy),
    ensures
        rectangular(product(xs, ys), wx + wy),
        product(xs, ys).len() == xs.len() * ys.len(),
    decreases xs.len(),
{
    if xs.len() > 0 {
        let init = xs.drop_last();
        lemma_product_rectangular(init, ys, wx, wy);
        let m = ys.map_values(|y: Seq<Seq<u8>>| xs.last() + y);
        assert(rectangular(m, wx + wy)) by {
            assert forall|r: int| 0 <= r < m.len() implies (#[trigger] m[r]).len() == wx + wy by {
                assert(m[r] == xs.last() + ys[r]);
                assert(xs.last() == xs[xs.len() - 1]);
            }
        }
        let p = product(xs, ys);
        assert forall|r: int| 0 <= r < p.len() implies (#[trigger] p[r]).len() == wx + wy by {
            if r < product(init, ys).len() {
                assert(p[r] == product(init, ys)[r]);
            } else {
                assert(p[r] == m[r - product(init, ys).len()]);
            }
        }
        assert(xs.len() * ys.len() == (xs.len() - 1) * ys.len() + ys.len()) by (nonlinear_arith);
    }
}

/// The product of tables with rows has rows, each with the cells of both.
proof fn lemma_times_rectangular(a: Table, b: Table, wa: int, wb: int)
    requires
        rectangular(a, wa),
        rectangular(b, wb),
        a.len() > 0 || wa == 0,
        b.len() > 0,
    ensures
        rectangular(times(a, b), wa + wb),
        times(a, b).len() > 0,
{
    if a.len() > 0 {
        lemma_product_rectangular(a, b, wa, wb);
        assert(a.len() * b.len() > 0) by (nonlinear_arith)
            requires
                a.len() > 0,
                b.len() > 0,
        ;
    }
}

/// The table of one list of codes has rows of one cell.
proof fn lemma_code_table_shape(list: Seq<u8>, subfields: Seq<SpecSubfield>, o: QueryOptions)
    ensures
        rectangular(code_table(list, subfields, o), 1),
        code_table(list, subfields, o).len() > 0,
{
    let c = column(list_values(list, subfields));
    assert(rectangular(c, 1));
}

/// The table of a field has rows of a cell for each list, and rows where
/// there is a list.
proof fn lemma_field_table_shape(lists: Seq<Seq<u8>>, subfields: Seq<SpecSubfield>, o: QueryOptions)
    ensures
        rectangular(field_table(lists, subfields, o), lists.len() as int),
        lists.len() > 0 ==> field_table(lists, subfields, o).len() > 0,
        lists.len() == 0 ==> field_table(lists, subfields, o).len() == 0,
    decreases lists.len(),
{
    if lists.len() > 0 {
        lemma_field_table_shape(lists.drop_last(), subfields, o);
        lemma_code_table_shape(lists.last(), subfields, o);
        lemma_times_rectangular(
            field_table(lists.drop_last(), subfields, o),
            code_table(lists.last(), subfields, o),
            lists.len() - 1,
            1,
        );
    }
}

/// The rows of a path have a cell for each list of codes.
proof fn lemma_path_rows_shape(p: PathSpec, fields: Seq<SpecField>, o: QueryOptions)
    ensures
        rectangular(path_rows(p, fields, o), p.codes.len() as int),
    decreases fields.len(),
{
    if fields.len() > 0 {
        lemma_path_rows_shape(p, fields.drop_last(), o);
        lemma_field_table_shape(p.codes, fields.last().subfields, o);
        let rest = path_rows(p, fields.drop_last(), o);
        let t = path_rows(p, fields, o);
        if path_selects(p, fields.last(), o.case_ignore, o.strsim_threshold) {
            let f = field_table(p.codes, fields.last().subfields, o);
            assert forall|r: int| 0 <= r < t.len() implies (#[trigger] t[r]).len() == p.codes.len() by {
                if r < rest.len() {
                    assert(t[r] == rest[r]);
                } else {
                    assert(t[r] == f[r - rest.len()]);
                }
            }
        }
    }
}

/// The table of a fragment has rows, each with the fragment's number of
/// cells.
proof fn lemma_fragment_table_shape(f: FragmentSpec, fields: Seq<SpecField>, o: QueryOptions)
    ensures
        rectangular(fragment_table(f, fields, o), fragment_width(f)),
        fragment_table(f, fields, o).len() > 0,
{
    match f {
        FragmentSpec::Path(p) => {
            lemma_path_rows_shape(p, fields, o);
        },
        FragmentSpec::Literal(s) => {
            assert(rectangular(seq![seq![s]], 1));
        },
    }
}

/// The matcher options that the query options stand for.
fn matcher_options(o: &QueryOptions) -> (r: MatcherOptions)
    ensures
        r.spec_case_ignore() == o.case_ignore,
        r.spec_strsim_threshold() == o.strsim_threshold,
{
    MatcherOptions::new().case_ignore(o.case_ignore).strsim_threshold(o.strsim_threshold)
}

/// The values of the subfields of the field whose code is in the list.
fn list_values_of(list: &Vec<crate::primitives::SubfieldCode>, field: &FieldRef<'_>) -> (r: Vec<Vec<u8>>)
    ensures
        row_views(r@) == list_values(code_views(list@), field@.subfields),
{
    let subfields = field.subfields();
    let ghost sfs = field@.subfields;
    let ghost codes = code_views(list@);
    let mut out: Vec<Vec<u8>> = Vec::new();
    let mut i: usize = 0;
    while i < subfields.len()
        invariant
            0 <= i <= subfields@.len(),
            sfs == crate::primitives::subfield::subfield_views(subfields@),
            codes == code_views(list@),
            row_views(out@) == list_values(codes, sfs.take(i as int)),
        decreases subfields@.len() - i,
    {
        assert(sfs.take(i + 1).drop_last() =~= sfs.take(i as int));
        assert(sfs.take(i + 1).last() == subfields@[i as int]@);
        let sf = &subfields[i];
        let c = sf.code().as_byte();
        if has_code(list.as_slice(), c) {
            let v = copy_bytes(sf.value().as_bytes());
            let ghost before = out@;
            out.push(v);
            assert(row_views(out@) =~= row_views(before).push(v@));
        }
        i = i + 1;
    }
    assert(sfs.take(i as int) =~= sfs);
    out
}

/// The table of one list of codes in a field.
fn code_rows(list: &Vec<crate::primitives::SubfieldCode>, field: &FieldRef<'_>, o: &QueryOptions) -> (r: Vec<
    Vec<Vec<u8>>,
>)
    ensures
        table_views(r@) == code_table(code_views(list@), field@.subfields, *o),
{
    let values = list_values_of(list, field);
    let ghost vs = row_views(values@);
    let mut col: Vec<Vec<Vec<u8>>> = Vec::new();
    if values.len() == 0 {
        let mut row: Vec<Vec<u8>> = Vec::new();
        row.push(Vec::new());
        col.push(row);
        assert(table_views(col@) =~= column(vs)) by {
            assert(row_views(col@[0]@) =~= seq![Seq::<u8>::empty()]);
        }
    } else {
        let mut k: usize = 0;
        while k < values.len()
            invariant
                0 <= k <= values@.len(),
                vs == row_views(values@),
                table_views(col@) == vs.take(k as int).map_values(|v: Seq<u8>| seq![v]),
            decreases values@.len() - k,
        {
            let v = copy_bytes(values[k].as_slice());
            assert(v@ == vs[k as int]);
            let mut row: Vec<Vec<u8>> = Vec::new();
            row.push(v);
            assert(row_views(row@) =~= seq![vs[k as int]]);
            let ghost before = col@;
            col.push(row);
            assert(table_views(col@) =~= table_views(before).push(seq![vs[k as int]]));
            assert(vs.take(k + 1).map_values(|v: Seq<u8>| seq![v]) =~= vs.take(k as int).map_values(
                |v: Seq<u8>| seq![v],
            ).push(seq![vs[k as int]]));
            k = k + 1;
        }
        assert(vs.take(k as int) =~= vs);
    }
    if o.squash {
        squash_rows(&col, o.separator.as_str().as_bytes())
    } else {
        col
    }
}

/// The table of a field: the product of the tables of the path's lists.
fn field_rows(path: &Path, field: &FieldRef<'_>, o: &QueryOptions) -> (r: Vec<Vec<Vec<u8>>>)
    ensures
        table_views(r@) == field_table(path@.codes, field@.subfields, *o),
{
    let ghost lists = path@.codes;
    proof {
        lemma_path_codes(path);
    }
    let mut acc: Vec<Vec<Vec<u8>>> = Vec::new();
    let mut k: usize = 0;
    assert(lists.take(0) =~= Seq::<Seq<u8>>::empty());
    while k < path.codes.len()
        invariant
            0 <= k <= path.codes@.len(),
            lists == code_lists(path.codes@),
            table_views(acc@) == field_table(lists.take(k as int), field@.subfields, *o),
        decreases path.codes@.len() - k,
    {
        assert(lists[k as int] == code_views(path.codes@[k as int]@));
        assert(lists.take(k + 1).drop_last() =~= lists.take(k as int));
        let c = code_rows(&path.codes[k], field, o);
        acc = times_rows(acc, c);
        k = k + 1;
    }
    assert(lists.take(k as int) =~= lists);
    acc
}

/// The table of a path in a record.
fn path_rows_of(path: &Path, record: &RecordRef<'_>, o: &QueryOptions) -> (r: Vec<Vec<Vec<u8>>>)
    ensures
        table_views(r@) == path_table(path@, record@, *o),
{
    let options = matcher_options(o);
    let fields = record.fields();
    let ghost fs = record@;
    let mut rows: Vec<Vec<Vec<u8>>> = Vec::new();
    let mut i: usize = 0;
    while i < fields.len()
        invariant
            0 <= i <= fields@.len(),
            fs == crate::primitives::field::field_views(fields@),
            options.spec_case_ignore() == o.case_ignore,
            options.spec_strsim_threshold() == o.strsim_threshold,
            table_views(rows@) == path_rows(path@, fs.take(i as int), *o),
        decreases fields@.len() - i,
    {
        assert(fs.take(i + 1).drop_last() =~= fs.take(i as int));
        assert(fs.take(i + 1).last() == fields@[i as int]@);
        if path.selects(&fields[i], &options) {
            let f = field_rows(path, &fields[i], o);
            rows = concat_rows(rows, f);
        }
        i = i + 1;
    }
    assert(fs.take(i as int) =~= fs);
    if rows.len() == 0 {
        let mut row: Vec<Vec<u8>> = Vec::new();
        let mut k: usize = 0;
        while k < path.codes.len()
            invariant
                0 <= k <= path.codes@.len(),
                row@.len() == k,
                forall|j: int| 0 <= j < k ==> (#[trigger] row@[j])@ == Seq::<u8>::empty(),
            decreases path.codes@.len() - k,
        {
            row.push(Vec::new());
            k = k + 1;
        }
        let mut out: Vec<Vec<Vec<u8>>> = Vec::new();
        let ghost rv = row_views(row@);
        out.push(row);
        proof {
            lemma_path_codes(path);
        }
        assert(table_views(out@) =~= seq![Seq::new(path@.codes.len(), |k: int| Seq::<u8>::empty())]) by {
            assert(rv =~= Seq::new(path@.codes.len(), |k: int| Seq::<u8>::empty()));
        }
        out
    } else {
        rows
    }
}

/// What a fragment of a query is read as.
pub enum FragmentAst {
    Path(PathAst),
    Literal(Seq<u8>),
}

/// A fragment at `i`: a path, or else a quoted string.
pub open spec fn fragment_at(b: Seq<u8>, i: int) -> Option<(FragmentAst, int)> {
    match path_at(b, i) {
        Some((p, e)) => Some((FragmentAst::Path(p), e)),
        None => match string_at(b, i) {
            Some((s, e)) => Some((FragmentAst::Literal(s), e)),
            None => None,
        },
    }
}

/// A comma at `i`, with white space around it; where it ends.
pub open spec fn comma_at(b: Seq<u8>, i: int) -> Option<int> {
    let p = skip_ws(b, i);
    if byte_at(b, p, 0x2c) {
        Some(skip_ws(b, p + 1))
    } else {
        None
    }
}

/// The fragments after the one that ends at `i`, each behind a comma, as
/// many as there are; and where they end.
pub open spec fn fragments_rest(b: Seq<u8>, i: int) -> (Seq<FragmentAst>, int)
    decreases b.len() - i,
{
    if !(0 <= i <= b.len()) {
        (Seq::empty(), i)
    } else {
        match comma_at(b, i) {
            Some(p) => match fragment_at(b, p) {
                Some((f, e)) => if i < e <= b.len() {
                    let (fs, end) = fragments_rest(b, e);
                    (seq![f] + fs, end)
                } else {
                    (Seq::empty(), i)
                },
                None => (Seq::empty(), i),
            },
            None => (Seq::empty(), i),
        }
    }
}

/// A query at the start of `b`: fragments separated by commas; what it is
/// read as and where it ends.
pub open spec fn query_at(b: Seq<u8>) -> Option<(Seq<FragmentAst>, int)> {
    match fragment_at(b, 0) {
        Some((f, e)) => if 0 <= e <= b.len() {
            let (fs, end) = fragments_rest(b, e);
            Some((seq![f] + fs, end))
        } else {
            None
        },
        None => None,
    }
}

/// A part of a query: a path, or a literal.
#[derive(Debug, PartialEq)]
enum Fragment {
    Path(Path),
    Literal(Vec<u8>),
}

impl View for Fragment {
    type V = FragmentSpec;

    closed spec fn view(&self) -> FragmentSpec {
        match self {
            Fragment::Path(p) => FragmentSpec::Path(p@),
            Fragment::Literal(s) => FragmentSpec::Literal(s@),
        }
    }
}

/// What the fragment is read as.
spec fn fragment_ast(f: Fragment) -> FragmentAst {
    match f {
        Fragment::Path(p) => FragmentAst::Path(path_ast(p)),
        Fragment::Literal(s) => FragmentAst::Literal(s@),
    }
}

/// Reads a fragment at `i`.
fn parse_fragment(b: &[u8], i: usize) -> (r: Option<(Fragment, usize)>)
    requires
        i <= b@.len(),
    ensures
        match fragment_at(b@, i as int) {
            Some((a, e)) => r matches Some((f, k)) && fragment_ast(f) == a && k == e,
            None => r is None,
        },
{
    match parse_path_at(b, i) {
        Some((p, e)) => Some((Fragment::Path(p), e)),
        None => match parse_string(b, i) {
            Some((s, e)) => Some((Fragment::Literal(s), e)),
            None => None,
        },
    }
}

/// Reads the fragments after the one that ends at `i`, each behind a
/// comma.
fn parse_fragments_rest(b: &[u8], i: usize) -> (r: (Vec<Fragment>, usize))
    requires
        i <= b@.len(),
    ensures
        r.0@.map_values(|f: Fragment| fragment_ast(f)) == fragments_rest(b@, i as int).0,
        r.1 == fragments_rest(b@, i as int).1,
    decreases b@.len() - i,
{
    let p = skip_ws_at(b, i);
    if !byte_is(b, p, 0x2c) {
        return (Vec::new(), i);
    }
    let q = skip_ws_at(b, p + 1);
    match parse_fragment(b, q) {
        Some((f, e)) => {
            if i < e && e <= b.len() {
                let (mut frags, end) = parse_fragments_rest(b, e);
                let ghost rest = frags@;
                frags.insert(0, f);
                assert(frags@ =~= seq![f] + rest);
                assert(frags@.map_values(|f: Fragment| fragment_ast(f)) =~= seq![fragment_ast(f)]
                    + rest.map_values(|f: Fragment| fragment_ast(f)));
                (frags, end)
            } else {
                (Vec::new(), i)
            }
        },
        None => (Vec::new(), i),
    }
}

impl Fragment {
    /// The table of the fragment in the record.
    fn table(&self, record: &RecordRef<'_>, o: &QueryOptions) -> (r: Vec<Vec<Vec<u8>>>)
        ensures
            table_views(r@) == fragment_table(self@, record@, *o),
    {
        match self {
            Fragment::Path(p) => path_rows_of(p, record, o),
            Fragment::Literal(s) => {
                let v = copy_bytes(s.as_slice());
                let mut row: Vec<Vec<u8>> = Vec::new();
                row.push(v);
                let mut out: Vec<Vec<Vec<u8>>> = Vec::new();
                let ghost rv = row_views(row@);
                out.push(row);
                assert(rv =~= seq![s@]);
                assert(table_views(out@) =~= seq![seq![s@]]);
                out
            },
        }
    }
}

/// A query: a list of paths and literals, separated by commas.
#[derive(Debug, PartialEq)]
pub struct Query {
    fragments: Vec<Fragment>,
    raw_query: String,
}

impl View for Query {
    type V = Seq<FragmentSpec>;

    closed spec fn view(&self) -> Seq<FragmentSpec> {
        self.fragments@.map_values(|f: Fragment| f@)
    }
}

impl Query {
    /// What the fragments are read as.
    pub closed spec fn ast(&self) -> Seq<FragmentAst> {
        self.fragments@.map_values(|f: Fragment| fragment_ast(f))
    }

    /// The text the query was read from.
    pub closed spec fn raw_text(&self) -> Seq<char> {
        self.raw_query@
    }

    /// The query as it was written.
    pub fn to_string(&self) -> (r: String)
        ensures
            r@ == self.raw_text(),
    {
        self.raw_query.clone()
    }

    /// Creates a query from its text, such as `003@.0, 002@.0` or
    /// `'x', 002@.0`; fails unless the whole text is one.
    pub fn new(query: &str) -> (r: Result<Self, ParseQueryError>)
        ensures
            r is Ok <==> (query_at(query.spec_bytes()) matches Some((_, e)) && e == query.spec_bytes().len()),
            r matches Ok(q) ==> query_at(query.spec_bytes()) == Some((q.ast(), query.spec_bytes().len() as int))
                && q.raw_text() == query@,
            r matches Err(e) ==> e@ == "invalid query '"@ + query@ + "'"@,
    {
        let b = query.as_bytes();
        let parsed = match parse_fragment(b, 0) {
            Some((f, e)) => if e <= b.len() {
                let (mut frags, end) = parse_fragments_rest(b, e);
                let ghost rest = frags@;
                frags.insert(0, f);
                assert(frags@ =~= seq![f] + rest);
                assert(frags@.map_values(|f: Fragment| fragment_ast(f)) =~= seq![fragment_ast(f)]
                    + rest.map_values(|f: Fragment| fragment_ast(f)));
                Some((frags, end))
            } else {
                None
            },
            None => None,
        };
        match parsed {
            Some((fragments, end)) => {
                if end == b.len() {
                    return Ok(Query { fragments, raw_query: query.to_string() });
                }
            },
            None => {},
        }
        let mut msg = String::new();
        push_str(&mut msg, "invalid query '");
        push_str(&mut msg, query);
        push_str(&mut msg, "'");
        assert(msg@ =~= "invalid query '"@ + query@ + "'"@);
        Err(ParseQueryError(msg))
    }

    /// The table of the query in the record.
    fn table(&self, record: &RecordRef<'_>, o: &QueryOptions) -> (r: Vec<Vec<Vec<u8>>>)
        ensures
            table_views(r@) == query_table(self@, record@, *o),
    {
        let ghost frags = self@;
        let mut acc: Vec<Vec<Vec<u8>>> = Vec::new();
        let mut k: usize = 0;
        assert(frags.take(0) =~= Seq::<FragmentSpec>::empty());
        while k < self.fragments.len()
            invariant
                0 <= k <= self.fragments@.len(),
                frags == self@,
                frags == self.fragments@.map_values(|f: Fragment| f@),
                table_views(acc@) == query_table(frags.take(k as int), record@, *o),
            decreases self.fragments@.len() - k,
        {
            assert(frags.take(k + 1).drop_last() =~= frags.take(k as int));
            assert(frags.take(k + 1).last() == self.fragments@[k as int]@);
            let step = self.fragments[k].table(record, o);
            let step = if o.merge {
                proof {
                    lemma_fragment_table_shape(self.fragments@[k as int]@, record@, *o);
                    let tv = table_views(step@);
                    assert(tv[0] == row_views(step@[0]@));
                    assert forall|j: int| 0 <= j < step@.len() implies (#[trigger] step@[j])@.len()
                        >= step@[0]@.len() by {
                        assert(tv[j] == row_views(step@[j]@));
                    }
                }
                merge_rows(&step, o.separator.as_str().as_bytes())
            } else {
                step
            };
            acc = times_rows(acc, step);
            k = k + 1;
        }
        assert(frags.take(k as int) =~= frags);
        acc
    }
}

/// Running a query against a record.
pub trait QueryExt {
    type Value;

    /// The outcome of the query on the record.
    fn query(&self, query: &Query, options: &QueryOptions) -> Outcome<Self::Value>;
}

impl<'a> QueryExt for RecordRef<'a> {
    type Value = Vec<u8>;

    /// The rows of the query: the product of the tables of its fragments,
    /// each merged into one row if asked.
    fn query(&self, query: &Query, options: &QueryOptions) -> (r: Outcome<Vec<u8>>)
        ensures
            r@ == query_table(query@, self@, *options),
    {
        let t = query.table(self, options);
        let r = Outcome(t);
        assert(r@ =~= table_views(t@));
        r
    }
}

impl<'a> QueryExt for ByteRecord<'a> {
    type Value = Vec<u8>;

    /// The rows of the query on the record.
    fn query(&self, query: &Query, options: &QueryOptions) -> (r: Outcome<Vec<u8>>)
        ensures
            r@ == query_table(query@, self@, *options),
    {
        self.record().query(query, options)
    }
}

/// The cells of a table read as UTF-8, each invalid sequence replaced by
/// U+FFFD.
pub open spec fn lossy_table(t: Table) -> Seq<Seq<Seq<char>>> {
    t.map_values(|row: Seq<Seq<u8>>| row.map_values(|c: Seq<u8>| lossy_chars(c)))
}

impl<'a> QueryExt for StringRecord<'a> {
    type Value = String;

    /// The rows of the query on the record, as strings.
    fn query(&self, query: &Query, options: &QueryOptions) -> (r: Outcome<String>)
        ensures
            r@ == lossy_table(query_table(query@, self@, *options)),
    {
        let t = query.table(self.byte_record().record(), options);
        let ghost tv = table_views(t@);
        let mut rows: Vec<Vec<String>> = Vec::new();
        let mut i: usize = 0;
        while i < t.len()
            invariant
                0 <= i <= t@.len(),
                tv == table_views(t@),
                rows@.len() == i,
                forall|k: int| 0 <= k < i ==> (#[trigger] rows@[k])@.map_values(|c: String| c@)
                    == tv[k].map_values(|c: Seq<u8>| lossy_chars(c)),
            decreases t@.len() - i,
        {
            let row = &t[i];
            assert(tv[i as int] == row_views(row@));
            let mut out: Vec<String> = Vec::new();
            let mut j: usize = 0;
            while j < row.len()
                invariant
                    0 <= j <= row@.len(),
                    tv[i as int] == row_views(row@),
                    out@.len() == j,
                    forall|k: int| 0 <= k < j ==> (#[trigger] out@[k])@ == lossy_chars(row@[k]@),
                decreases row@.len() - j,
            {
                out.push(to_str_lossy(row[j].as_slice()));
                j = j + 1;
            }
            assert(out@.map_values(|c: String| c@) =~= tv[i as int].map_values(|c: Seq<u8>| lossy_chars(c)));
            rows.push(out);
            i = i + 1;
        }
        let r = Outcome(rows);
        assert(r@ =~= lossy_table(tv));
        r
    }
}

/// The number of cells of each row of a query's outcome: the sum of those
/// of its fragments.
pub open spec fn query_width(frags: Seq<FragmentSpec>) -> int
    decreases frags.len(),
{
    if frags.len() == 0 {
        0
    } else {
        query_width(frags.drop_last()) + fragment_width(frags.last())
    }
}

/// The table of a fragment, merged or not, has rows, each with the
/// fragment's number of cells; merged, it has one row.
proof fn lemma_fragment_step_shape(f: FragmentSpec, fields: Seq<SpecField>, o: QueryOptions)
    ensures
        rectangular(fragment_step(f, fields, o), fragment_width(f)),
        fragment_step(f, fields, o).len() > 0,
        o.merge ==> fragment_step(f, fields, o).len() == 1,
{
    lemma_fragment_table_shape(f, fields, o);
    if o.merge {
        let t = fragment_table(f, fields, o);
        assert(t[0].len() == fragment_width(f));
        let m = merged(t, o.sep());
        assert(m[0].len() == fragment_width(f));
        assert(rectangular(m, fragment_width(f)));
    }
}

/// The outcome of a query on any record is a table whose rows all have
/// the same number of cells, the sum of those of the fragments: a path
/// gives a cell for each of its lists of codes, a literal one cell. A
/// query with fragments gives at least one row, and exactly one where the
/// fragments are merged.
pub proof fn law_query_shape(frags: Seq<FragmentSpec>, fields: Seq<SpecField>, o: QueryOptions)
    ensures
        rectangular(query_table(frags, fields, o), query_width(frags)),
        frags.len() > 0 ==> query_table(frags, fields, o).len() > 0,
        frags.len() > 0 && o.merge ==> query_table(frags, fields, o).len() == 1,
    decreases frags.len(),
{
    if frags.len() > 0 {
        let init = frags.drop_last();
        law_query_shape(init, fields, o);
        lemma_fragment_step_shape(frags.last(), fields, o);
        let a = query_table(init, fields, o);
        let b = fragment_step(frags.last(), fields, o);
        lemma_times_rectangular(a, b, query_width(init), fragment_width(frags.last()));
        if a.len() > 0 {
            lemma_product_rectangular(a, b, query_width(init), fragment_width(frags.last()));
            if o.merge {
                assert(a.len() * b.len() == 1) by (nonlinear_arith)
                    requires
                        a.len() == 1,
                        b.len() == 1,
                ;
            }
        }
    }
}

} // verus!
