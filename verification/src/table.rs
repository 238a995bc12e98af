//! The mathematical model of a table document and of each operation on it,
//! with the laws that relate the operations.

use vstd::prelude::*;
use crate::text::{ascii_lower, same_name};

verus! {

/// A column: its name and the attributes of its `<FIELD>` element.
#[verifier::ext_equal]
pub struct FieldV {
    pub name: Seq<char>,
    pub attrs: Seq<(Seq<char>, Seq<char>)>,
}

/// A row: its SQLite row id and one cell per column (`None` is SQL NULL).
#[verifier::ext_equal]
pub struct RowV {
    pub rowid: int,
    pub values: Seq<Option<Seq<char>>>,
}

/// A document: columns, rows in display order, and the preserved
/// `<DATAPACKET ...>` opening tag and `<PARAMS>` section.
#[verifier::ext_equal]
pub struct DocV {
    pub fields: Seq<FieldV>,
    pub rows: Seq<RowV>,
    pub frame: Seq<char>,
    pub params: Seq<char>,
}

pub open spec fn attrname_key() -> Seq<char> {
    seq!['a', 't', 't', 'r', 'n', 'a', 'm', 'e']
}

pub open spec fn fieldtype_key() -> Seq<char> {
    seq!['f', 'i', 'e', 'l', 'd', 't', 'y', 'p', 'e']
}

pub open spec fn string_word() -> Seq<char> {
    seq!['s', 't', 'r', 'i', 'n', 'g']
}

pub open spec fn width_key() -> Seq<char> {
    seq!['W', 'I', 'D', 'T', 'H']
}

pub open spec fn width_default() -> Seq<char> {
    seq!['4', '0']
}

/// The internal ordering column of the SQL table.
pub open spec fn ord_column() -> Seq<char> {
    seq!['_', '_', 'o', 'r', 'd']
}

/// The row-id column that editable views carry.
pub open spec fn rid_column() -> Seq<char> {
    seq!['_', 'r', 'i', 'd']
}

/// The value of the last `attrname` attribute, if any.
pub open spec fn attrname_of(attrs: Seq<(Seq<char>, Seq<char>)>) -> Option<Seq<char>>
    decreases attrs.len(),
{
    if attrs.len() == 0 {
        None
    } else if attrs.last().0 == attrname_key() {
        Some(attrs.last().1)
    } else {
        attrname_of(attrs.drop_last())
    }
}

/// A column name that the SQL table can hold.
pub open spec fn usable_name(name: Seq<char>) -> bool {
    name.len() > 0 && !same_name(name, ord_column())
}

pub open spec fn field_ok(f: FieldV) -> bool {
    &&& usable_name(f.name)
    &&& attrname_of(f.attrs) == Some(f.name)
}

pub open spec fn names_distinct(fields: Seq<FieldV>) -> bool {
    forall|i: int, j: int|
        #![trigger fields[i], fields[j]]
        0 <= i < j < fields.len() ==> !same_name(fields[i].name, fields[j].name)
}

pub open spec fn rowids_distinct(rows: Seq<RowV>) -> bool {
    forall|i: int, j: int|
        #![trigger rows[i], rows[j]]
        0 <= i < j < rows.len() ==> rows[i].rowid != rows[j].rowid
}

pub open spec fn row_ok(r: RowV, ncols: nat) -> bool {
    &&& r.values.len() == ncols
    &&& 1 <= r.rowid <= i64::MAX
}

/// The invariant of a document.
pub open spec fn doc_wf(d: DocV) -> bool {
    &&& d.fields.len() >= 1
    &&& d.fields.len() < i64::MAX
    &&& forall|i: int| 0 <= i < d.fields.len() ==> field_ok(#[trigger] d.fields[i])
    &&& names_distinct(d.fields)
    &&& forall|r: int| 0 <= r < d.rows.len() ==> row_ok(#[trigger] d.rows[r], d.fields.len())
    &&& rowids_distinct(d.rows)
    &&& d.rows.len() < i64::MAX
}

pub open spec fn names_of(fields: Seq<FieldV>) -> Seq<Seq<char>> {
    fields.map_values(|f: FieldV| f.name)
}

/// The column that `name` denotes (SQL names ignore ASCII case).
pub open spec fn resolve(fields: Seq<FieldV>, name: Seq<char>) -> Option<int> {
    if exists|i: int| 0 <= i < fields.len() && same_name(#[trigger] fields[i].name, name) {
        Some(choose|i: int| 0 <= i < fields.len() && same_name(#[trigger] fields[i].name, name))
    } else {
        None
    }
}

/// The display position of the row with id `rowid`.
pub open spec fn row_pos(rows: Seq<RowV>, rowid: int) -> Option<int> {
    if exists|i: int| 0 <= i < rows.len() && #[trigger] rows[i].rowid == rowid {
        Some(choose|i: int| 0 <= i < rows.len() && #[trigger] rows[i].rowid == rowid)
    } else {
        None
    }
}

/// The largest row id (0 for no rows).
pub open spec fn max_rowid(rows: Seq<RowV>) -> int
    decreases rows.len(),
{
    if rows.len() == 0 {
        0
    } else {
        let m = max_rowid(rows.drop_last());
        if rows.last().rowid > m {
            rows.last().rowid
        } else {
            m
        }
    }
}

/// The id SQLite gives a new row: one more than the largest.
pub open spec fn next_rowid(rows: Seq<RowV>) -> int {
    max_rowid(rows) + 1
}

/// Whether a new row can still be numbered.
pub open spec fn room_for_row(rows: Seq<RowV>) -> bool {
    max_rowid(rows) < i64::MAX && rows.len() + 1 < i64::MAX
}

/// The attributes of a column made by the editor.
pub open spec fn default_field(name: Seq<char>) -> FieldV {
    FieldV {
        name: name,
        attrs: seq![
            (attrname_key(), name),
            (fieldtype_key(), string_word()),
            (width_key(), width_default()),
        ],
    }
}

/// A row of empty texts.
pub open spec fn blank_row(rowid: int, ncols: nat) -> RowV {
    RowV { rowid: rowid, values: Seq::new(ncols, |i: int| Some(Seq::<char>::empty())) }
}

/// The text of a cell as views show it (NULL reads as empty).
pub open spec fn cell_text(v: Option<Seq<char>>) -> Seq<char> {
    match v {
        Some(s) => s,
        None => Seq::empty(),
    }
}

pub open spec fn row_texts(r: RowV) -> Seq<Seq<char>> {
    r.values.map_values(|v: Option<Seq<char>>| cell_text(v))
}

pub open spec fn with_rows(d: DocV, rows: Seq<RowV>) -> DocV {
    DocV { fields: d.fields, rows: rows, frame: d.frame, params: d.params }
}

// ---------------------------------------------------------------- columns

pub open spec fn add_column(d: DocV, name: Seq<char>) -> DocV {
    DocV {
        fields: d.fields.push(default_field(name)),
        rows: d.rows.map_values(|r: RowV| RowV { rowid: r.rowid, values: r.values.push(None) }),
        frame: d.frame,
        params: d.params,
    }
}

pub open spec fn rename_attrs(attrs: Seq<(Seq<char>, Seq<char>)>, name: Seq<char>) -> Seq<(Seq<char>, Seq<char>)> {
    attrs.map_values(
        |p: (Seq<char>, Seq<char>)|
            if p.0 == attrname_key() {
                (p.0, name)
            } else {
                p
            },
    )
}

pub open spec fn rename_column(d: DocV, idx: int, name: Seq<char>) -> DocV {
    DocV {
        fields: d.fields.update(
            idx,
            FieldV { name: name, attrs: rename_attrs(d.fields[idx].attrs, name) },
        ),
        rows: d.rows,
        frame: d.frame,
        params: d.params,
    }
}

pub open spec fn drop_column(d: DocV, idx: int) -> DocV {
    DocV {
        fields: d.fields.remove(idx),
        rows: d.rows.map_values(|r: RowV| RowV { rowid: r.rowid, values: r.values.remove(idx) }),
        frame: d.frame,
        params: d.params,
    }
}

// ------------------------------------------------------------------- rows

pub open spec fn insert_row(d: DocV, at: int, row: RowV) -> DocV {
    with_rows(d, d.rows.insert(at, row))
}

pub open spec fn delete_row(d: DocV, rowid: int) -> DocV {
    match row_pos(d.rows, rowid) {
        Some(p) => with_rows(d, d.rows.remove(p)),
        None => d,
    }
}

pub open spec fn swap_rows(rows: Seq<RowV>, a: int, b: int) -> Seq<RowV> {
    rows.update(a, rows[b]).update(b, rows[a])
}

/// The neighbour a row trades places with when moved up or down.
pub open spec fn move_partner(rows: Seq<RowV>, p: int, up: bool) -> Option<int> {
    if up {
        if p > 0 {
            Some(p - 1)
        } else {
            None
        }
    } else {
        if p + 1 < rows.len() {
            Some(p + 1)
        } else {
            None
        }
    }
}

pub open spec fn set_cell(d: DocV, p: int, idx: int, value: Seq<char>) -> DocV {
    with_rows(
        d,
        d.rows.update(
            p,
            RowV { rowid: d.rows[p].rowid, values: d.rows[p].values.update(idx, Some(value)) },
        ),
    )
}

/// A copy of a row under a new id; NULL cells become empty texts.
pub open spec fn cloned_row(r: RowV, rowid: int) -> RowV {
    RowV { rowid: rowid, values: row_texts(r).map_values(|t: Seq<char>| Some(t)) }
}

// ------------------------------------------------------------------- facts

pub proof fn lemma_insert_row_wf(d: DocV, at: int, row: RowV)
    requires
        doc_wf(d),
        0 <= at <= d.rows.len(),
        row_ok(row, d.fields.len()),
        forall|i: int| 0 <= i < d.rows.len() ==> (#[trigger] d.rows[i]).rowid != row.rowid,
        d.rows.len() + 1 < i64::MAX,
    ensures
        doc_wf(insert_row(d, at, row)),
{
    let e = insert_row(d, at, row);
    assert forall|k: int| 0 <= k < e.rows.len() implies row_ok(#[trigger] e.rows[k], e.fields.len()) by {
        if k < at {
            assert(e.rows[k] == d.rows[k]);
        } else if k > at {
            assert(e.rows[k] == d.rows[k - 1]);
        }
    }
    assert forall|a: int, b: int|
        #![trigger e.rows[a], e.rows[b]]
        0 <= a < b < e.rows.len() implies e.rows[a].rowid != e.rows[b].rowid by {
        let a0 = if a < at { a } else { a - 1 };
        let b0 = if b < at { b } else { b - 1 };
        if a != at && b != at {
            assert(e.rows[a] == d.rows[a0]);
            assert(e.rows[b] == d.rows[b0]);
            assert(d.rows[a0] == d.rows[a0] && d.rows[b0] == d.rows[b0]);
        } else if a == at {
            assert(e.rows[b] == d.rows[b0]);
        } else {
            assert(e.rows[a] == d.rows[a0]);
        }
    }
}

pub proof fn lemma_remove_row_wf(d: DocV, p: int)
    requires
        doc_wf(d),
        0 <= p < d.rows.len(),
    ensures
        doc_wf(with_rows(d, d.rows.remove(p))),
{
    let e = with_rows(d, d.rows.remove(p));
    assert forall|k: int| 0 <= k < e.rows.len() implies row_ok(#[trigger] e.rows[k], e.fields.len()) by {
        if k < p {
            assert(e.rows[k] == d.rows[k]);
        } else {
            assert(e.rows[k] == d.rows[k + 1]);
        }
    }
    assert forall|a: int, b: int|
        #![trigger e.rows[a], e.rows[b]]
        0 <= a < b < e.rows.len() implies e.rows[a].rowid != e.rows[b].rowid by {
        let a0 = if a < p { a } else { a + 1 };
        let b0 = if b < p { b } else { b + 1 };
        assert(e.rows[a] == d.rows[a0]);
        assert(e.rows[b] == d.rows[b0]);
        assert(d.rows[a0] == d.rows[a0] && d.rows[b0] == d.rows[b0]);
    }
}

pub proof fn lemma_swap_rows_wf(d: DocV, a: int, b: int)
    requires
        doc_wf(d),
        0 <= a < d.rows.len(),
        0 <= b < d.rows.len(),
    ensures
        doc_wf(with_rows(d, swap_rows(d.rows, a, b))),
{
    let e = with_rows(d, swap_rows(d.rows, a, b));
    let f = |k: int| if k == a { b } else if k == b { a } else { k };
    assert forall|k: int| 0 <= k < e.rows.len() implies e.rows[k] == d.rows[f(k)] by {}
    assert forall|k: int| 0 <= k < e.rows.len() implies row_ok(#[trigger] e.rows[k], e.fields.len()) by {
        assert(e.rows[k] == d.rows[f(k)]);
    }
    assert forall|x: int, y: int|
        #![trigger e.rows[x], e.rows[y]]
        0 <= x < y < e.rows.len() implies e.rows[x].rowid != e.rows[y].rowid by {
        assert(e.rows[x] == d.rows[f(x)]);
        assert(e.rows[y] == d.rows[f(y)]);
        let x0 = f(x);
        let y0 = f(y);
        assert(x0 != y0);
        if x0 < y0 {
            assert(d.rows[x0] == d.rows[x0] && d.rows[y0] == d.rows[y0]);
        } else {
            assert(d.rows[y0] == d.rows[y0] && d.rows[x0] == d.rows[x0]);
        }
    }
}

pub proof fn lemma_set_cell_wf(d: DocV, p: int, idx: int, value: Seq<char>)
    requires
        doc_wf(d),
        0 <= p < d.rows.len(),
        0 <= idx < d.fields.len(),
    ensures
        doc_wf(set_cell(d, p, idx, value)),
{
    let e = set_cell(d, p, idx, value);
    assert forall|k: int| 0 <= k < e.rows.len() implies row_ok(#[trigger] e.rows[k], e.fields.len()) by {
        if k != p {
            assert(e.rows[k] == d.rows[k]);
        } else {
            assert(row_ok(d.rows[p], d.fields.len()));
        }
    }
    assert forall|x: int, y: int|
        #![trigger e.rows[x], e.rows[y]]
        0 <= x < y < e.rows.len() implies e.rows[x].rowid != e.rows[y].rowid by {
        assert(e.rows[x].rowid == d.rows[x].rowid);
        assert(e.rows[y].rowid == d.rows[y].rowid);
    }
}

/// A column made by the editor names itself in `attrname`.
pub proof fn lemma_default_field_ok(name: Seq<char>)
    requires
        usable_name(name),
    ensures
        field_ok(default_field(name)),
{
    let a = default_field(name).attrs;
    assert(a.last().0 != attrname_key());
    assert(a.drop_last().last().0 != attrname_key());
    assert(a.drop_last().drop_last().last().0 == attrname_key());
    assert(attrname_of(a.drop_last().drop_last()) == Some(name));
    assert(attrname_of(a.drop_last()) == Some(name));
    assert(attrname_of(a) == Some(name));
}

pub proof fn lemma_same_name_symmetric(a: Seq<char>, b: Seq<char>)
    ensures
        same_name(a, b) == same_name(b, a),
{
}

pub proof fn lemma_same_name_transitive(a: Seq<char>, b: Seq<char>, c: Seq<char>)
    requires
        same_name(a, b),
        same_name(b, c),
    ensures
        same_name(a, c),
{
    assert forall|i: int| 0 <= i < a.len() implies ascii_lower(#[trigger] a[i]) == ascii_lower(c[i]) by {
        assert(ascii_lower(a[i]) == ascii_lower(b[i]));
        assert(ascii_lower(b[i]) == ascii_lower(c[i]));
    }
}

/// Renaming keeps the column's `attrname` in step with its name.
pub proof fn lemma_rename_attrs(attrs: Seq<(Seq<char>, Seq<char>)>, name: Seq<char>)
    ensures
        attrname_of(rename_attrs(attrs, name)) == (match attrname_of(attrs) {
            Some(_) => Some(name),
            None => None,
        }),
    decreases attrs.len(),
{
    if attrs.len() > 0 {
        assert(rename_attrs(attrs, name).drop_last() =~= rename_attrs(attrs.drop_last(), name));
        lemma_rename_attrs(attrs.drop_last(), name);
    }
}

/// Whether some column is named exactly `name`.
pub open spec fn has_exact_name(fields: Seq<FieldV>, name: Seq<char>) -> bool {
    exists|i: int| 0 <= i < fields.len() && #[trigger] fields[i].name == name
}

/// In a valid document a name denotes at most one column.
pub proof fn lemma_resolve_unique(fields: Seq<FieldV>, name: Seq<char>, i: int)
    requires
        names_distinct(fields),
        0 <= i < fields.len(),
        same_name(fields[i].name, name),
    ensures
        resolve(fields, name) == Some(i),
{
    let c = choose|k: int| 0 <= k < fields.len() && same_name(#[trigger] fields[k].name, name);
    assert(0 <= c < fields.len() && same_name(fields[c].name, name));
    if c != i {
        lemma_same_name_symmetric(fields[i].name, name);
        lemma_same_name_transitive(fields[c].name, name, fields[i].name);
        if c < i {
            assert(!same_name(fields[c].name, fields[i].name));
        } else {
            lemma_same_name_symmetric(fields[c].name, fields[i].name);
            assert(!same_name(fields[i].name, fields[c].name));
        }
    }
}

/// In a valid document a row id denotes at most one row.
pub proof fn lemma_row_pos_unique(rows: Seq<RowV>, rowid: int, i: int)
    requires
        rowids_distinct(rows),
        0 <= i < rows.len(),
        rows[i].rowid == rowid,
    ensures
        row_pos(rows, rowid) == Some(i),
{
    let c = choose|k: int| 0 <= k < rows.len() && #[trigger] rows[k].rowid == rowid;
    assert(0 <= c < rows.len() && rows[c].rowid == rowid);
    if c < i {
        assert(rows[c].rowid != rows[i].rowid);
    } else if c > i {
        assert(rows[i].rowid != rows[c].rowid);
    }
}

pub proof fn lemma_max_rowid(rows: Seq<RowV>)
    ensures
        max_rowid(rows) >= 0,
        forall|i: int| 0 <= i < rows.len() ==> (#[trigger] rows[i]).rowid <= max_rowid(rows),
    decreases rows.len(),
{
    if rows.len() > 0 {
        lemma_max_rowid(rows.drop_last());
        assert forall|i: int| 0 <= i < rows.len() implies (#[trigger] rows[i]).rowid <= max_rowid(rows) by {
            if i < rows.len() - 1 {
                assert(rows[i] == rows.drop_last()[i]);
            }
        }
    }
}

} // verus!

verus! {

// -------------------------------------------------------------------- laws

/// Moving a row up and then down again restores the row order (and the
/// second move reports the same neighbour back).
pub proof fn law_move_up_then_down(d: DocV, rowid: int)
    requires
        doc_wf(d),
        row_pos(d.rows, rowid) is Some,
        move_partner(d.rows, row_pos(d.rows, rowid)->0, true) is Some,
    ensures
        ({
            let p = row_pos(d.rows, rowid)->0;
            let q = move_partner(d.rows, p, true)->0;
            let moved = swap_rows(d.rows, p, q);
            &&& row_pos(moved, rowid) == Some(q)
            &&& move_partner(moved, q, false) == Some(p)
            &&& swap_rows(moved, q, p) == d.rows
        }),
{
    let p = row_pos(d.rows, rowid)->0;
    let c = choose|i: int| 0 <= i < d.rows.len() && #[trigger] d.rows[i].rowid == rowid;
    assert(p == c);
    let q = p - 1;
    let moved = swap_rows(d.rows, p, q);
    lemma_swap_rows_wf(d, p, q);
    assert(with_rows(d, moved).rows == moved);
    assert(moved[q].rowid == rowid);
    lemma_row_pos_unique(moved, rowid, q);
    assert(swap_rows(moved, q, p) =~= d.rows);
}

/// Adding a column and then dropping it gives the document back.
pub proof fn law_add_then_drop_column(d: DocV, name: Seq<char>)
    requires
        doc_wf(d),
    ensures
        drop_column(add_column(d, name), d.fields.len() as int) == d,
{
    let e = drop_column(add_column(d, name), d.fields.len() as int);
    assert(e.fields =~= d.fields);
    assert forall|k: int| 0 <= k < d.rows.len() implies #[trigger] e.rows[k] == d.rows[k] by {
        assert(row_ok(d.rows[k], d.fields.len()));
        assert(e.rows[k].values =~= d.rows[k].values);
    }
    assert(e.rows =~= d.rows);
    assert(e =~~= d);
}

/// Renaming a column and renaming it back gives the document back, when all
/// of its `attrname` attributes carried its name.
pub proof fn law_rename_back(d: DocV, idx: int, name: Seq<char>)
    requires
        doc_wf(d),
        0 <= idx < d.fields.len(),
        forall|k: int|
            0 <= k < d.fields[idx].attrs.len() && (#[trigger] d.fields[idx].attrs[k]).0
                == attrname_key() ==> d.fields[idx].attrs[k].1 == d.fields[idx].name,
    ensures
        rename_column(rename_column(d, idx, name), idx, d.fields[idx].name) == d,
{
    let f = d.fields[idx];
    let e = rename_column(rename_column(d, idx, name), idx, f.name);
    assert(rename_attrs(rename_attrs(f.attrs, name), f.name) =~= f.attrs);
    assert(e.fields[idx] =~~= f);
    assert(e.fields =~= d.fields);
    assert(e =~~= d);
}

/// A row that was inserted and then deleted leaves no trace.
pub proof fn law_insert_then_delete(d: DocV, at: int, row: RowV)
    requires
        doc_wf(d),
        0 <= at <= d.rows.len(),
        forall|i: int| 0 <= i < d.rows.len() ==> (#[trigger] d.rows[i]).rowid != row.rowid,
    ensures
        delete_row(insert_row(d, at, row), row.rowid) == d,
{
    let e = insert_row(d, at, row);
    assert(e.rows[at] == row);
    assert forall|a: int, b: int|
        #![trigger e.rows[a], e.rows[b]]
        0 <= a < b < e.rows.len() implies e.rows[a].rowid != e.rows[b].rowid by {
        let a0 = if a < at { a } else { a - 1 };
        let b0 = if b < at { b } else { b - 1 };
        if a != at && b != at {
            assert(e.rows[a] == d.rows[a0]);
            assert(e.rows[b] == d.rows[b0]);
            assert(d.rows[a0] == d.rows[a0] && d.rows[b0] == d.rows[b0]);
        } else if a == at {
            assert(e.rows[b] == d.rows[b0]);
        } else {
            assert(e.rows[a] == d.rows[a0]);
        }
    }
    lemma_row_pos_unique(e.rows, row.rowid, at);
    assert(e.rows.remove(at) =~= d.rows);
    assert(delete_row(e, row.rowid) =~~= d);
}

/// A cell reads back what was written into it, and no other cell changes.
pub proof fn law_read_after_write(d: DocV, p: int, idx: int, value: Seq<char>)
    requires
        doc_wf(d),
        0 <= p < d.rows.len(),
        0 <= idx < d.fields.len(),
    ensures
        set_cell(d, p, idx, value).rows[p].values[idx] == Some(value),
        forall|q: int, j: int|
            0 <= q < d.rows.len() && 0 <= j < d.fields.len() && (q != p || j != idx)
                ==> #[trigger] set_cell(d, p, idx, value).rows[q].values[j] == d.rows[q].values[j],
        set_cell(d, p, idx, value).fields == d.fields,
{
}

/// A new row's id is larger than the id of every row of the document, so
/// no id is given twice while its row exists.
pub proof fn law_new_ids_are_fresh(d: DocV)
    ensures
        forall|i: int| 0 <= i < d.rows.len() ==> (#[trigger] d.rows[i]).rowid < next_rowid(d.rows),
{
    lemma_max_rowid(d.rows);
}

/// Dropping a column takes away that column and its cells only: every other
/// column keeps its place in order, and every row keeps its id and its
/// cells in those columns.
pub proof fn law_drop_keeps_other_columns(d: DocV, idx: int)
    requires
        doc_wf(d),
        0 <= idx < d.fields.len(),
    ensures
        ({
            let e = drop_column(d, idx);
            &&& e.fields.len() == d.fields.len() - 1
            &&& e.rows.len() == d.rows.len()
            &&& forall|j: int|
                0 <= j < d.fields.len() && j != idx ==> e.fields[if j < idx { j } else { j - 1 }]
                    == #[trigger] d.fields[j]
            &&& forall|k: int| 0 <= k < d.rows.len() ==> (#[trigger] e.rows[k]).rowid == d.rows[k].rowid
                && e.rows[k].values.len() == d.fields.len() - 1
            &&& forall|k: int, j: int|
                0 <= k < d.rows.len() && 0 <= j < d.fields.len() && j != idx
                    ==> e.rows[k].values[if j < idx { j } else { j - 1 }] == #[trigger] d.rows[k].values[j]
        }),
{
    let e = drop_column(d, idx);
    assert forall|k: int| 0 <= k < d.rows.len() implies (#[trigger] e.rows[k]).rowid == d.rows[k].rowid
        && e.rows[k].values.len() == d.fields.len() - 1 by {
        assert(row_ok(d.rows[k], d.fields.len()));
    }
    assert forall|k: int, j: int|
        0 <= k < d.rows.len() && 0 <= j < d.fields.len() && j != idx
            implies e.rows[k].values[if j < idx { j } else { j - 1 }] == #[trigger] d.rows[k].values[j] by {
        assert(row_ok(d.rows[k], d.fields.len()));
    }
}

/// A cloned row is a new row whose every cell holds the text of the same
/// cell of the source row (an empty cell reads as an empty text); the
/// rows around it keep their order.
pub proof fn law_clone_copies_every_cell(d: DocV, p: int, at: int, rowid: int)
    requires
        doc_wf(d),
        0 <= p < d.rows.len(),
        0 <= at <= d.rows.len(),
    ensures
        ({
            let e = insert_row(d, at, cloned_row(d.rows[p], rowid));
            &&& e.rows.len() == d.rows.len() + 1
            &&& e.rows[at].rowid == rowid
            &&& e.rows[at].values.len() == d.fields.len()
            &&& forall|j: int|
                0 <= j < d.fields.len() ==> e.rows[at].values[j] == Some(cell_text(#[trigger] d.rows[p].values[j]))
            &&& row_texts(e.rows[at]) == row_texts(d.rows[p])
            &&& forall|k: int| 0 <= k < at ==> #[trigger] e.rows[k] == d.rows[k]
            &&& forall|k: int| at <= k < d.rows.len() ==> #[trigger] e.rows[k + 1] == d.rows[k]
        }),
{
    let e = insert_row(d, at, cloned_row(d.rows[p], rowid));
    assert(row_ok(d.rows[p], d.fields.len()));
    assert(row_texts(e.rows[at]) =~= row_texts(d.rows[p]));
}

} // verus!
