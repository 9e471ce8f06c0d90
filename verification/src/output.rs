//! How results are printed: the output formats, and the shape and cells
//! of tables.
use vstd::prelude::*;
use crate::json::{Json, JsonNumber, JsonV, NumV, get_v, at_v, keys_of, entries_v, vview, lemma_entries_v, lemma_array_view};
use crate::text::{spec_to_lowercase, spec_decimal, spec_decimal_i64, to_lowercase, str_eq, owned, join3, u64_to_string, i64_to_string, chars_of, slice, string_of};

verus! {

/// The widest cell of an array table, in characters.
pub const MAX_CELL_WIDTH: usize = 50;

/// The most columns an array table shows.
pub const MAX_TABLE_COLUMNS: usize = 12;

/// How many leading items decide which keys become columns.
pub const HEADER_SAMPLE: usize = 5;

/// How a result is printed.
#[derive(Clone, Copy, Debug, PartialEq, Eq, Structural)]
pub enum OutputFormat {
    Table,
    Json,
    Yaml,
    Compact,
}

/// The format a lower-cased format name selects; anything unknown is a table.
pub open spec fn format_for(t: Seq<char>) -> OutputFormat {
    if t == "json"@ {
        OutputFormat::Json
    } else if t == "yaml"@ || t == "yml"@ {
        OutputFormat::Yaml
    } else if t == "compact"@ {
        OutputFormat::Compact
    } else {
        OutputFormat::Table
    }
}

impl OutputFormat {
    /// Reads a format name, case-insensitively.
    pub fn parse(s: &str) -> (r: Self)
        ensures
            r == format_for(spec_to_lowercase(s@)),
    {
        let low = to_lowercase(s);
        OutputFormat::from_lowercase(low.as_str())
    }

    /// The format a lower-cased format name selects; anything unknown is a
    /// table.
    pub fn from_lowercase(t: &str) -> (r: Self)
        ensures
            r == format_for(t@),
    {
        if str_eq(t, "json") {
            OutputFormat::Json
        } else if str_eq(t, "yaml") || str_eq(t, "yml") {
            OutputFormat::Yaml
        } else if str_eq(t, "compact") {
            OutputFormat::Compact
        } else {
            OutputFormat::Table
        }
    }
}

/// A table cell before it is printed: text, or a short array that is shown
/// as its compact JSON.
#[derive(Debug, PartialEq)]
pub enum Cell {
    Text(String),
    Items(Vec<Json>),
}

/// The model of a cell.
pub enum CellV {
    Text(Seq<char>),
    Items(Seq<JsonV>),
}

impl View for Cell {
    type V = CellV;

    open spec fn view(&self) -> CellV {
        match self {
            Cell::Text(s) => CellV::Text(s@),
            Cell::Items(a) => CellV::Items(Json::Array(*a)@->Array_0),
        }
    }
}

/// Null, text, booleans and numbers fit in a cell as they are.
pub open spec fn is_scalar_v(v: JsonV) -> bool {
    v is Null || v is Str || v is Bool || v is Number
}

/// The cell that shows a value.
pub open spec fn cell_v(v: JsonV) -> CellV {
    match v {
        JsonV::Null => CellV::Text("—"@),
        JsonV::Str(s) => CellV::Text(s),
        JsonV::Bool(b) => CellV::Text(if b { "true"@ } else { "false"@ }),
        JsonV::Number(NumV::PosInt(u)) => CellV::Text(spec_decimal(u as nat)),
        JsonV::Number(NumV::NegInt(i)) => CellV::Text(spec_decimal_i64(i)),
        JsonV::Number(NumV::Float(t)) => CellV::Text(t),
        JsonV::Array(a) => if a.len() <= 3 {
            CellV::Items(a)
        } else {
            CellV::Text("["@ + spec_decimal(a.len()) + " items]"@)
        },
        JsonV::Object(_) => CellV::Text("{...}"@),
    }
}

/// A text cut to the widest cell: its first characters and an ellipsis.
pub open spec fn truncate_v(t: Seq<char>) -> Seq<char> {
    if t.len() <= MAX_CELL_WIDTH {
        t
    } else {
        t.take(MAX_CELL_WIDTH - 1).push('…')
    }
}

/// `true` when the value at `key` of `item` is a scalar.
pub open spec fn scalar_at(item: JsonV, key: Seq<char>) -> bool {
    match get_v(item, key) {
        Some(x) => is_scalar_v(x),
        None => false,
    }
}

/// A key becomes a column when one of the first items holds a scalar under it.
pub open spec fn shows_column(items: Seq<JsonV>, key: Seq<char>) -> bool {
    exists|i: int| 0 <= i < items.len() && i < HEADER_SAMPLE && #[trigger] scalar_at(items[i], key)
}

/// The keys that become columns, in their order.
pub open spec fn shown_keys(keys: Seq<Seq<char>>, items: Seq<JsonV>) -> Seq<Seq<char>>
    decreases keys.len(),
{
    if keys.len() == 0 {
        Seq::empty()
    } else {
        let rest = shown_keys(keys.drop_last(), items);
        if shows_column(items, keys.last()) {
            rest.push(keys.last())
        } else {
            rest
        }
    }
}

/// The columns of an array table: the shown keys of the first item, at most
/// `MAX_TABLE_COLUMNS` of them.
pub open spec fn headers_v(items: Seq<JsonV>) -> Seq<Seq<char>> {
    let all = shown_keys(keys_of(items[0]->Object_0), items);
    if all.len() > MAX_TABLE_COLUMNS {
        all.take(MAX_TABLE_COLUMNS as int)
    } else {
        all
    }
}

/// How a table shows a value: rows under column headers, a list of fields,
/// or neither (then the value is printed as pretty JSON).
#[derive(Debug, PartialEq)]
pub enum TableShape {
    Rows(Vec<String>),
    Fields,
    Plain,
}

/// The shape that the table printer picks for a value: a non-empty array
/// whose first item is an object with shown columns gets rows; an object
/// gets fields.
pub open spec fn shape_ok(v: JsonV, s: TableShape) -> bool {
    match v {
        JsonV::Array(items) => if items.len() > 0 && items[0] is Object && headers_v(items).len() > 0 {
            s matches TableShape::Rows(h) && h@.map_values(|x: String| x@) == headers_v(items)
        } else {
            s is Plain
        },
        JsonV::Object(_) => s is Fields,
        _ => s is Plain,
    }
}

/// The cell that shows a value.
pub fn value_to_cell(v: &Json) -> (r: Cell)
    ensures
        r@ == cell_v(v@),
{
    match v {
        Json::Null => Cell::Text(owned("—")),
        Json::String(s) => Cell::Text(owned(s.as_str())),
        Json::Bool(b) => if *b { Cell::Text(owned("true")) } else { Cell::Text(owned("false")) },
        Json::Number(JsonNumber::PosInt(u)) => Cell::Text(u64_to_string(*u)),
        Json::Number(JsonNumber::NegInt(i)) => Cell::Text(i64_to_string(*i)),
        Json::Number(JsonNumber::Float(t)) => Cell::Text(owned(t.as_str())),
        Json::Array(a) => {
            proof { lemma_array_view(*a); }
            if a.len() <= 3 {
                let c = crate::json::clone_json(v);
                match c {
                    Json::Array(b) => Cell::Items(b),
                    _ => Cell::Text(String::new()),
                }
            } else {
                let n = u64_to_string(a.len() as u64);
                Cell::Text(join3("[", n.as_str(), " items]"))
            }
        },
        Json::Object(_) => Cell::Text(owned("{...}")),
    }
}

/// Cuts a text to the widest cell.
pub fn truncate(s: &str) -> (r: String)
    ensures
        r@ == truncate_v(s@),
{
    let cs = chars_of(s);
    if cs.len() <= MAX_CELL_WIDTH {
        string_of(cs.as_slice())
    } else {
        let mut t = slice(cs.as_slice(), 0, MAX_CELL_WIDTH - 1);
        t.push('…');
        assert(t@ =~= s@.take(MAX_CELL_WIDTH - 1).push('…'));
        string_of(t.as_slice())
    }
}

/// `true` when a value fits in a cell as it is.
pub fn is_scalar(v: &Json) -> (r: bool)
    ensures
        r == is_scalar_v(v@),
{
    match v {
        Json::Null | Json::String(_) | Json::Bool(_) | Json::Number(_) => true,
        _ => false,
    }
}

/// `true` when one of the first items holds a scalar under `key`.
pub fn column_shown(items: &Vec<Json>, key: &str) -> (r: bool)
    ensures
        r == shows_column(vview(items@), key@),
{
    let n: usize = if items.len() < HEADER_SAMPLE { items.len() } else { HEADER_SAMPLE };
    let mut i: usize = 0;
    while i < n
        invariant
            i <= n,
            n <= items@.len(),
            n == (if items@.len() < HEADER_SAMPLE { items@.len() } else { HEADER_SAMPLE as nat }),
            forall|k: int| 0 <= k < i ==> !scalar_at(#[trigger] vview(items@)[k], key@),
        decreases n - i,
    {
        let found = match items[i].get(key) {
            Some(x) => is_scalar(x),
            None => false,
        };
        if found {
            assert(scalar_at(vview(items@)[i as int], key@));
            return true;
        }
        assert(!scalar_at(vview(items@)[i as int], key@));
        i += 1;
    }
    proof {
        assert forall|k: int| 0 <= k < vview(items@).len() && k < HEADER_SAMPLE implies !#[trigger] scalar_at(vview(items@)[k], key@) by {
            assert(k < n);
        }
    }
    false
}

/// The columns of an array table whose first item is an object.
pub fn table_headers(items: &Vec<Json>) -> (r: Vec<String>)
    requires
        items@.len() > 0,
        items@[0]@ is Object,
    ensures
        r@.map_values(|x: String| x@) == headers_v(vview(items@)),
{
    let first = &items[0];
    match first {
        Json::Object(es) => {
            proof { lemma_entries_v(*es); }
            let ghost keys = keys_of(entries_v(es@));
            let ghost all = vview(items@);
            let mut out: Vec<String> = Vec::new();
            let mut i: usize = 0;
            while i < es.len()
                invariant
                    i <= es@.len(),
                    keys == keys_of(entries_v(es@)),
                    all == vview(items@),
                    keys.len() == es@.len(),
                    out@.map_values(|x: String| x@) == shown_keys(keys.take(i as int), all),
                decreases es@.len() - i,
            {
                let shown = column_shown(items, es[i].0.as_str());
                proof {
                    assert(keys.take(i as int + 1).drop_last() =~= keys.take(i as int));
                    assert(keys.take(i as int + 1).last() == es@[i as int].0@);
                }
                if shown {
                    let ghost before = out@;
                    out.push(es[i].0.clone());
                    assert(out@.map_values(|x: String| x@) =~= before.map_values(|x: String| x@).push(es@[i as int].0@));
                }
                i += 1;
            }
            proof {
                assert(keys.take(es@.len() as int) =~= keys);
            }
            if out.len() > MAX_TABLE_COLUMNS {
                let ghost before = out@;
                out.truncate(MAX_TABLE_COLUMNS);
                assert(out@.map_values(|x: String| x@) =~= before.map_values(|x: String| x@).take(MAX_TABLE_COLUMNS as int));
            }
            out
        },
        _ => Vec::new(),
    }
}

/// Picks how a value is shown as a table.
pub fn table_shape(v: &Json) -> (r: TableShape)
    ensures
        shape_ok(v@, r),
{
    match v {
        Json::Array(items) => {
            proof {
                lemma_array_view(*items);
                assert(v@->Array_0 =~= vview(items@));
            }
            if items.len() > 0 && items[0].is_object() {
                let h = table_headers(items);
                if h.len() > 0 {
                    TableShape::Rows(h)
                } else {
                    TableShape::Plain
                }
            } else {
                TableShape::Plain
            }
        },
        Json::Object(_) => TableShape::Fields,
        _ => TableShape::Plain,
    }
}

/// The cells of an array table: for each item, the cell of its value under
/// each column (null where it has none).
pub fn table_rows(items: &Vec<Json>, headers: &Vec<String>) -> (r: Vec<Vec<Cell>>)
    ensures
        r@.len() == items@.len(),
        forall|i: int| 0 <= i < items@.len() ==> (#[trigger] r@[i])@.len() == headers@.len(),
        forall|i: int, j: int| 0 <= i < items@.len() && 0 <= j < headers@.len()
            ==> (#[trigger] r@[i]@[j])@ == cell_v(at_v(items@[i]@, headers@[j]@)),
{
    let mut rows: Vec<Vec<Cell>> = Vec::new();
    let mut i: usize = 0;
    while i < items.len()
        invariant
            i <= items@.len(),
            rows@.len() == i,
            forall|a: int| 0 <= a < i ==> (#[trigger] rows@[a])@.len() == headers@.len(),
            forall|a: int, b: int| 0 <= a < i && 0 <= b < headers@.len()
                ==> (#[trigger] rows@[a]@[b])@ == cell_v(at_v(items@[a]@, headers@[b]@)),
        decreases items@.len() - i,
    {
        let mut row: Vec<Cell> = Vec::new();
        let mut j: usize = 0;
        while j < headers.len()
            invariant
                i < items@.len(),
                j <= headers@.len(),
                row@.len() == j,
                forall|b: int| 0 <= b < j ==> (#[trigger] row@[b])@ == cell_v(at_v(items@[i as int]@, headers@[b]@)),
            decreases headers@.len() - j,
        {
            let x = crate::json::at(&items[i], headers[j].as_str());
            let c = value_to_cell(&x);
            row.push(c);
            j += 1;
        }
        rows.push(row);
        i += 1;
    }
    rows
}

/// The rows of an object table: each field with the cell of its value.
pub fn field_rows(v: &Json) -> (r: Vec<(String, Cell)>)
    requires
        v@ is Object,
    ensures
        r@.len() == v@->Object_0.len(),
        forall|i: int| 0 <= i < r@.len() ==> (#[trigger] r@[i]).0@ == v@->Object_0[i].0
            && r@[i].1@ == cell_v(v@->Object_0[i].1),
{
    match v {
        Json::Object(es) => {
            proof { lemma_entries_v(*es); }
            let mut out: Vec<(String, Cell)> = Vec::new();
            let mut i: usize = 0;
            while i < es.len()
                invariant
                    i <= es@.len(),
                    v@->Object_0 == entries_v(es@),
                    out@.len() == i,
                    forall|k: int| 0 <= k < i ==> (#[trigger] out@[k]).0@ == es@[k].0@
                        && out@[k].1@ == cell_v(es@[k].1@),
                decreases es@.len() - i,
            {
                let c = value_to_cell(&es[i].1);
                out.push((es[i].0.clone(), c));
                i += 1;
            }
            out
        },
        _ => Vec::new(),
    }
}

/// No cell of an array table is wider than `MAX_CELL_WIDTH` characters, a
/// text that fits is shown whole, and cutting a cut text changes nothing.
pub proof fn law_truncate_width(t: Seq<char>)
    ensures
        truncate_v(t).len() <= MAX_CELL_WIDTH,
        t.len() <= MAX_CELL_WIDTH ==> truncate_v(t) == t,
        t.len() > MAX_CELL_WIDTH ==> truncate_v(t).take(MAX_CELL_WIDTH - 1) == t.take(MAX_CELL_WIDTH - 1),
        truncate_v(truncate_v(t)) == truncate_v(t),
{
    if t.len() > MAX_CELL_WIDTH {
        assert(t.take(MAX_CELL_WIDTH - 1).push('…').take(MAX_CELL_WIDTH - 1) =~= t.take(MAX_CELL_WIDTH - 1));
    }
}

proof fn lemma_shown_keys(keys: Seq<Seq<char>>, items: Seq<JsonV>)
    ensures
        shown_keys(keys, items).len() <= keys.len(),
        forall|i: int| 0 <= i < shown_keys(keys, items).len() ==> keys.contains(#[trigger] shown_keys(keys, items)[i])
            && shows_column(items, shown_keys(keys, items)[i]),
    decreases keys.len(),
{
    if keys.len() > 0 {
        lemma_shown_keys(keys.drop_last(), items);
        let rest = shown_keys(keys.drop_last(), items);
        assert forall|i: int| 0 <= i < shown_keys(keys, items).len() implies keys.contains(#[trigger] shown_keys(keys, items)[i])
            && shows_column(items, shown_keys(keys, items)[i]) by {
            if i < rest.len() {
                let j = choose|j: int| 0 <= j < keys.drop_last().len() && keys.drop_last()[j] == rest[i];
                assert(keys[j] == rest[i]);
            } else {
                assert(keys[keys.len() - 1] == keys.last());
            }
        }
    }
}

/// An array table has at most `MAX_TABLE_COLUMNS` columns, and each column
/// is a key of the first item that one of the first `HEADER_SAMPLE` items
/// holds a scalar under.
pub proof fn law_table_columns(items: Seq<JsonV>)
    requires
        items.len() > 0,
        items[0] is Object,
    ensures
        headers_v(items).len() <= MAX_TABLE_COLUMNS,
        forall|i: int| 0 <= i < headers_v(items).len() ==> keys_of(items[0]->Object_0).contains(#[trigger] headers_v(items)[i])
            && shows_column(items, headers_v(items)[i]),
{
    lemma_shown_keys(keys_of(items[0]->Object_0), items);
}

} // verus!
