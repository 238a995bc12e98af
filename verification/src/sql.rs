//! Queries over a document: the document is loaded into an in-memory SQLite
//! table named `dados` and the statement runs there.

use vstd::prelude::*;
use crate::chars::{chars_of, push_chars, push_str, string_of};
use crate::table::{DocV, RowV, names_of, row_texts, cell_text, rid_column, ord_column, row_ok};
use crate::text::{dec, dec_int, double_quotes, join_with, fmt_u64, fmt_i64, quoted, trim, trim_chars};
use crate::xmldoc::{XmlDoc, QueryResult, DocError, Row, Field};
use rusqlite::types::Value;

verus! {

#[verifier::external_type_specification]
#[verifier::external_body]
pub struct ExConnection(rusqlite::Connection);

#[verifier::external_type_specification]
#[verifier::external_body]
pub struct ExSqlError(rusqlite::Error);

/// A value bound to a statement parameter.
pub enum SqlArg {
    Int(i64),
    Text(String),
    Null,
}

pub enum SqlArgV {
    Int(int),
    Text(Seq<char>),
    Null,
}

impl View for SqlArg {
    type V = SqlArgV;

    open spec fn view(&self) -> SqlArgV {
        match self {
            SqlArg::Int(i) => SqlArgV::Int(*i as int),
            SqlArg::Text(t) => SqlArgV::Text(t@),
            SqlArg::Null => SqlArgV::Null,
        }
    }
}

/// A value read from a result row.
pub enum SqlCell {
    Null,
    Integer(i64),
    /// A floating-point value, as Rust prints it.
    Real(String),
    Text(String),
    Blob,
}

/// The statements (text and arguments) that have been run successfully on a
/// connection since it was opened: the contents of its database are what
/// they made.
pub uninterp spec fn sql_applied(c: rusqlite::Connection) -> Seq<(Seq<char>, Seq<SqlArgV>)>;

/// Opens an empty in-memory database.
///
/// Trusted: `rusqlite::Connection::open_in_memory`; a new connection has
/// run no statement.
#[verifier::external_body]
fn sql_open() -> (r: Result<rusqlite::Connection, rusqlite::Error>)
    ensures
        r matches Ok(c) ==> sql_applied(c) == Seq::<(Seq<char>, Seq<SqlArgV>)>::empty(),
{
    rusqlite::Connection::open_in_memory()
}

/// Runs one statement with its arguments.
///
/// Trusted: `rusqlite::Connection::execute`, the arguments bound in order
/// to `?1`, `?2`, ...; when it succeeds the statement has been applied to
/// the database.
#[verifier::external_body]
fn sql_execute(c: &mut rusqlite::Connection, sql: &str, args: &Vec<SqlArg>) -> (r: Result<usize, rusqlite::Error>)
    ensures
        r is Ok ==> sql_applied(*final(c)) == sql_applied(*old(c)).push(
            (sql@, args@.map_values(|a: SqlArg| a@)),
        ),
{
    let vals: Vec<rusqlite::types::Value> = args.iter().map(|a| match a {
        SqlArg::Int(i) => rusqlite::types::Value::Integer(*i),
        SqlArg::Text(t) => rusqlite::types::Value::Text(t.clone()),
        SqlArg::Null => rusqlite::types::Value::Null,
    }).collect();
    c.execute(sql, rusqlite::params_from_iter(vals))
}

/// The names of the result columns that SQLite gives the statement `sql`
/// over the database that the statements `applied` made: a function of the
/// statement's text and of the database's schema, which those statements
/// fix.
pub uninterp spec fn result_columns(applied: Seq<(Seq<char>, Seq<SqlArgV>)>, sql: Seq<char>) -> Seq<Seq<char>>;

/// Runs a statement and reads its result: the names of its columns, then
/// every row, one value per column.
///
/// Trusted: `rusqlite::Connection::prepare`, then `Statement::column_names`
/// read before any row, then `Statement::query_map` with `Row::get` for each
/// column. The names are those SQLite gives the statement over the
/// database as it stood; when it succeeds the statement has been run on the
/// database. Which rows come back is SQLite's answer and is not stated.
#[verifier::external_body]
fn sql_query(c: &mut rusqlite::Connection, sql: &str) -> (r: Result<(Vec<String>, Vec<Vec<SqlCell>>), rusqlite::Error>)
    ensures
        r matches Ok((cols, rows)) ==> {
            &&& cols.deep_view() == result_columns(sql_applied(*old(c)), sql@)
            &&& forall|k: int| 0 <= k < rows@.len() ==> (#[trigger] rows@[k])@.len() == cols@.len()
            &&& sql_applied(*final(c)) == sql_applied(*old(c)).push((sql@, Seq::<SqlArgV>::empty()))
        },
{
    let mut s = c.prepare(sql)?;
    let cols: Vec<String> = s.column_names().map(|n| n.to_string()).collect();
    let rows = s.query_map([], |r| (0..cols.len()).map(|i| r.get(i).map(|v| match v {
        Value::Null => SqlCell::Null,
        Value::Integer(i) => SqlCell::Integer(i),
        Value::Real(x) => SqlCell::Real(x.to_string()),
        Value::Text(t) => SqlCell::Text(t),
        Value::Blob(_) => SqlCell::Blob,
    })).collect())?.collect::<Result<Vec<_>, _>>()?;
    Ok((cols, rows))
}

/// The message of an SQLite error.
///
/// Trusted: `Display` of `rusqlite::Error`; nothing is stated of the text.
#[verifier::external_body]
fn sql_error_text(e: &rusqlite::Error) -> (r: String)
{
    e.to_string()
}

fn sql_fault(e: &rusqlite::Error) -> (r: DocError)
    ensures
        r is Sql,
{
    DocError::Sql(sql_error_text(e))
}

// ------------------------------------------------------------ statements

/// A column name quoted for SQL.
pub open spec fn sql_quote(name: Seq<char>) -> Seq<char> {
    seq!['"'] + double_quotes(name) + seq!['"']
}

pub open spec fn create_sql(names: Seq<Seq<char>>) -> Seq<char> {
    "CREATE TABLE dados ("@ + join_with(
        names.map_values(|n: Seq<char>| sql_quote(n) + " TEXT"@).push("\"__ord\" REAL"@),
        ", "@,
    ) + ")"@
}

pub open spec fn placeholders(k: nat) -> Seq<Seq<char>> {
    Seq::new(k, |i: int| seq!['?'] + dec((i + 1) as nat))
}

pub open spec fn insert_sql(names: Seq<Seq<char>>) -> Seq<char> {
    "INSERT INTO dados ("@ + join_with(
        seq!["rowid"@] + names.map_values(|n: Seq<char>| sql_quote(n)) + seq!["\"__ord\""@],
        ", "@,
    ) + ") VALUES ("@ + join_with(placeholders(names.len() + 2), ", "@) + ")"@
}

pub open spec fn arg_of(v: Option<Seq<char>>) -> SqlArgV {
    match v {
        Some(t) => SqlArgV::Text(t),
        None => SqlArgV::Null,
    }
}

/// The arguments that load a row: its id, its cells, its position.
pub open spec fn row_args(r: RowV, pos: int) -> Seq<SqlArgV> {
    seq![SqlArgV::Int(r.rowid)] + r.values.map_values(|v: Option<Seq<char>>| arg_of(v)) + seq![
        SqlArgV::Int(pos + 1),
    ]
}

/// The statements that load a document into an empty database.
pub open spec fn load_statements(d: DocV) -> Seq<(Seq<char>, Seq<SqlArgV>)> {
    let names = names_of(d.fields);
    seq![("BEGIN"@, Seq::empty()), (create_sql(names), Seq::empty())] + Seq::new(
        d.rows.len(),
        |k: int| (insert_sql(names), row_args(d.rows[k], k)),
    ) + seq![("COMMIT"@, Seq::empty())]
}

/// The editable view of rows selected by a condition.
pub open spec fn filter_sql(cond: Seq<char>) -> Seq<char> {
    "SELECT rowid AS _rid, * FROM dados WHERE "@ + cond + " ORDER BY __ord"@
}

/// The values of one column in rows selected by a condition.
pub open spec fn column_sql(name: Seq<char>, cond: Seq<char>) -> Seq<char> {
    "SELECT "@ + sql_quote(name) + " FROM dados WHERE "@ + cond
}

/// Appends `parts` joined by `sep`.
fn join_into(out: &mut Vec<char>, parts: &Vec<Vec<char>>, sep: &str)
    ensures
        final(out)@ == old(out)@ + join_with(parts@.map_values(|p: Vec<char>| p@), sep@),
{
    let ghost ps = parts@.map_values(|p: Vec<char>| p@);
    let mut k: usize = 0;
    while k < parts.len()
        invariant
            k <= parts@.len(),
            ps == parts@.map_values(|p: Vec<char>| p@),
            out@ == old(out)@ + join_with(ps.take(k as int), sep@),
        decreases parts@.len() - k,
    {
        if k > 0 {
            push_str(out, sep);
        }
        push_chars(out, &parts[k]);
        proof {
            let t = ps.take(k + 1);
            assert(t.drop_last() =~= ps.take(k as int));
            assert(t.last() == parts@[k as int]@);
            if k == 0 {
                assert(out@ =~= old(out)@ + join_with(t, sep@));
            } else {
                assert(out@ =~= old(out)@ + join_with(t, sep@));
            }
        }
        k = k + 1;
    }
    assert(ps.take(k as int) =~= ps);
}

fn field_name_chars(fields: &Vec<Field>) -> (r: Vec<Vec<char>>)
    ensures
        r@.map_values(|p: Vec<char>| p@) == names_of(fields@.map_values(|f: Field| f@)),
{
    let ghost fs = fields@.map_values(|f: Field| f@);
    let mut r: Vec<Vec<char>> = Vec::new();
    let mut i: usize = 0;
    while i < fields.len()
        invariant
            i <= fields@.len(),
            fs == fields@.map_values(|f: Field| f@),
            r@.map_values(|p: Vec<char>| p@) =~= names_of(fs).take(i as int),
        decreases fields@.len() - i,
    {
        let ghost prev = r@;
        let c = chars_of(fields[i].name.as_str());
        let ghost cv = c@;
        r.push(c);
        assert(r@.map_values(|p: Vec<char>| p@) =~= prev.map_values(|p: Vec<char>| p@).push(cv));
        i = i + 1;
    }
    assert(names_of(fs).take(i as int) =~= names_of(fs));
    r
}

fn create_statement(names: &Vec<Vec<char>>) -> (r: String)
    ensures
        r@ == create_sql(names@.map_values(|p: Vec<char>| p@)),
{
    let ghost ns = names@.map_values(|p: Vec<char>| p@);
    let mut parts: Vec<Vec<char>> = Vec::new();
    let mut i: usize = 0;
    while i < names.len()
        invariant
            i <= names@.len(),
            ns == names@.map_values(|p: Vec<char>| p@),
            parts@.map_values(|p: Vec<char>| p@) =~= ns.map_values(
                |n: Seq<char>| sql_quote(n) + " TEXT"@,
            ).take(i as int),
        decreases names@.len() - i,
    {
        let mut q = quoted(&names[i]);
        push_str(&mut q, " TEXT");
        let ghost prev = parts@;
        let ghost qv = q@;
        parts.push(q);
        assert(parts@.map_values(|p: Vec<char>| p@) =~= prev.map_values(|p: Vec<char>| p@).push(qv));
        i = i + 1;
    }
    assert(ns.map_values(|n: Seq<char>| sql_quote(n) + " TEXT"@).take(i as int) =~= ns.map_values(
        |n: Seq<char>| sql_quote(n) + " TEXT"@,
    ));
    let ord = chars_of("\"__ord\" REAL");
    let ghost prev = parts@;
    let ghost ov = ord@;
    parts.push(ord);
    assert(parts@.map_values(|p: Vec<char>| p@) =~= ns.map_values(
        |n: Seq<char>| sql_quote(n) + " TEXT"@,
    ).push("\"__ord\" REAL"@));
    let mut out: Vec<char> = Vec::new();
    push_str(&mut out, "CREATE TABLE dados (");
    join_into(&mut out, &parts, ", ");
    push_str(&mut out, ")");
    string_of(&out)
}

fn insert_statement(names: &Vec<Vec<char>>) -> (r: String)
    requires
        names@.len() + 2 <= u64::MAX,
    ensures
        r@ == insert_sql(names@.map_values(|p: Vec<char>| p@)),
{
    let ghost ns = names@.map_values(|p: Vec<char>| p@);
    let ghost cols = seq!["rowid"@] + ns.map_values(|n: Seq<char>| sql_quote(n)) + seq!["\"__ord\""@];
    let mut parts: Vec<Vec<char>> = Vec::new();
    parts.push(chars_of("rowid"));
    let mut i: usize = 0;
    while i < names.len()
        invariant
            i <= names@.len(),
            ns == names@.map_values(|p: Vec<char>| p@),
            cols == seq!["rowid"@] + ns.map_values(|n: Seq<char>| sql_quote(n)) + seq!["\"__ord\""@],
            parts@.map_values(|p: Vec<char>| p@) =~= cols.take(i + 1),
        decreases names@.len() - i,
    {
        let q = quoted(&names[i]);
        let ghost prev = parts@;
        let ghost qv = q@;
        parts.push(q);
        assert(cols[i + 1] == qv);
        assert(parts@.map_values(|p: Vec<char>| p@) =~= prev.map_values(|p: Vec<char>| p@).push(qv));
        i = i + 1;
    }
    let ghost prev = parts@;
    let oc = chars_of("\"__ord\"");
    let ghost ov = oc@;
    parts.push(oc);
    assert(parts@.map_values(|p: Vec<char>| p@) =~= prev.map_values(|p: Vec<char>| p@).push(ov));
    assert(parts@.map_values(|p: Vec<char>| p@) =~= cols);
    let n = names.len() as u64 + 2;
    let mut ph: Vec<Vec<char>> = Vec::new();
    let mut k: u64 = 0;
    while k < n
        invariant
            k <= n,
            n == ns.len() + 2,
            ph@.map_values(|p: Vec<char>| p@) =~= placeholders(n as nat).take(k as int),
        decreases n - k,
    {
        let mut p: Vec<char> = Vec::new();
        p.push('?');
        let d = fmt_u64(k + 1);
        push_chars(&mut p, &d);
        let ghost prev = ph@;
        let ghost pv = p@;
        ph.push(p);
        assert(ph@.map_values(|p: Vec<char>| p@) =~= prev.map_values(|p: Vec<char>| p@).push(pv));
        k = k + 1;
    }
    assert(placeholders(n as nat).take(k as int) =~= placeholders(n as nat));
    let mut out: Vec<char> = Vec::new();
    push_str(&mut out, "INSERT INTO dados (");
    join_into(&mut out, &parts, ", ");
    push_str(&mut out, ") VALUES (");
    join_into(&mut out, &ph, ", ");
    push_str(&mut out, ")");
    string_of(&out)
}

fn row_arguments(r: &Row, pos: usize) -> (a: Vec<SqlArg>)
    requires
        pos < i64::MAX,
    ensures
        a@.map_values(|x: SqlArg| x@) == row_args(r@, pos as int),
{
    let ghost want = row_args(r@, pos as int);
    let mut a: Vec<SqlArg> = Vec::new();
    a.push(SqlArg::Int(r.rowid));
    let mut i: usize = 0;
    while i < r.values.len()
        invariant
            i <= r.values@.len(),
            want == row_args(r@, pos as int),
            a@.map_values(|x: SqlArg| x@) =~= want.take(i + 1),
        decreases r.values@.len() - i,
    {
        let v = match &r.values[i] {
            Some(t) => SqlArg::Text(t.clone()),
            None => SqlArg::Null,
        };
        let ghost prev = a@;
        let ghost vv = v@;
        a.push(v);
        assert(vv == want[i + 1]);
        assert(a@.map_values(|x: SqlArg| x@) =~= prev.map_values(|x: SqlArg| x@).push(vv));
        i = i + 1;
    }
    let ghost prev = a@;
    a.push(SqlArg::Int(pos as i64 + 1));
    assert(a@.map_values(|x: SqlArg| x@) =~= prev.map_values(|x: SqlArg| x@).push(SqlArgV::Int(pos + 1)));
    a
}

/// Loads `doc` into the database behind `c` as table `dados`: its columns
/// as `TEXT`, one row per document row with its id, and `__ord` holding
/// the display position.
pub fn load_table(c: &mut rusqlite::Connection, doc: &XmlDoc) -> (r: Result<(), DocError>)
    requires
        doc.wf(),
    ensures
        r is Ok ==> sql_applied(*final(c)) == sql_applied(*old(c)) + load_statements(doc@),
        r matches Err(e) ==> e is Sql,
{
    let ghost d = doc@;
    let names = field_name_chars(doc.field_list());
    let rows = doc.row_list();
    let create = create_statement(&names);
    let insert = insert_statement(&names);
    let none: Vec<SqlArg> = Vec::new();
    let ghost start = sql_applied(*c);
    let ghost stmts = load_statements(d);
    match sql_execute(c, "BEGIN", &none) {
        Ok(_) => {},
        Err(e) => {
            return Err(sql_fault(&e));
        },
    }
    match sql_execute(c, create.as_str(), &none) {
        Ok(_) => {},
        Err(e) => {
            return Err(sql_fault(&e));
        },
    }
    assert(none@.map_values(|x: SqlArg| x@) =~= Seq::<SqlArgV>::empty());
    assert(sql_applied(*c) =~= start + stmts.take(2));
    let mut k: usize = 0;
    while k < rows.len()
        invariant
            k <= rows@.len(),
            rows@.map_values(|x: Row| x@) == d.rows,
            d.rows.len() < i64::MAX,
            stmts == load_statements(d),
            names@.map_values(|p: Vec<char>| p@) == names_of(d.fields),
            insert@ == insert_sql(names_of(d.fields)),
            sql_applied(*c) == start + stmts.take(k + 2),
        decreases rows@.len() - k,
    {
        let args = row_arguments(&rows[k], k);
        let ghost before = sql_applied(*c);
        match sql_execute(c, insert.as_str(), &args) {
            Ok(_) => {},
            Err(e) => {
                return Err(sql_fault(&e));
            },
        }
        proof {
            assert(rows@[k as int]@ == d.rows[k as int]);
            assert(stmts[k + 2] == (insert_sql(names_of(d.fields)), row_args(d.rows[k as int], k as int)));
            assert(stmts.take(k + 3) =~= stmts.take(k + 2).push(stmts[k + 2]));
            assert(sql_applied(*c) =~= start + stmts.take(k + 3));
        }
        k = k + 1;
    }
    match sql_execute(c, "COMMIT", &none) {
        Ok(_) => {},
        Err(e) => {
            return Err(sql_fault(&e));
        },
    }
    proof {
        assert(stmts.take(k + 2).push(stmts[k + 2]) =~= stmts);
        assert(sql_applied(*c) =~= start + stmts);
    }
    Ok(())
}

// --------------------------------------------------------------- results

/// The text of a result value (NULL and blobs read as empty).
pub open spec fn cell_value_text(c: SqlCell) -> Seq<char> {
    match c {
        SqlCell::Null => Seq::empty(),
        SqlCell::Integer(i) => dec_int(i as int),
        SqlCell::Real(s) => s@,
        SqlCell::Text(t) => t@,
        SqlCell::Blob => Seq::empty(),
    }
}

pub fn cell_string(c: &SqlCell) -> (r: String)
    ensures
        r@ == cell_value_text(*c),
{
    match c {
        SqlCell::Null => String::new(),
        SqlCell::Integer(i) => string_of(&fmt_i64(*i)),
        SqlCell::Real(s) => s.clone(),
        SqlCell::Text(t) => t.clone(),
        SqlCell::Blob => String::new(),
    }
}

/// A query result from the column names and values SQLite returned.
pub fn query_result_from(columns: Vec<String>, rows: Vec<Vec<SqlCell>>) -> (r: QueryResult)
    ensures
        r.columns@ == columns@,
        r.rows@.len() == rows@.len(),
        forall|k: int| 0 <= k < rows@.len() ==> (#[trigger] r.rows@[k])@.len() == rows@[k]@.len(),
        forall|k: int|
            0 <= k < rows@.len() ==> (#[trigger] r.rows@[k]).deep_view() == rows@[k]@.map_values(
                |c: SqlCell| cell_value_text(c),
            ),
{
    let mut out: Vec<Vec<String>> = Vec::new();
    let mut k: usize = 0;
    while k < rows.len()
        invariant
            k <= rows@.len(),
            out@.len() == k,
            forall|j: int|
                0 <= j < k ==> (#[trigger] out@[j]).deep_view() == rows@[j]@.map_values(
                    |c: SqlCell| cell_value_text(c),
                ),
        decreases rows@.len() - k,
    {
        let mut line: Vec<String> = Vec::new();
        let mut i: usize = 0;
        while i < rows[k].len()
            invariant
                k < rows@.len(),
                i <= rows@[k as int]@.len(),
                line.deep_view() =~= rows@[k as int]@.map_values(|c: SqlCell| cell_value_text(c)).take(
                    i as int,
                ),
            decreases rows@[k as int]@.len() - i,
        {
            let s = cell_string(&rows[k][i]);
            let ghost prev = line.deep_view();
            line.push(s);
            assert(line.deep_view() =~= prev.push(cell_value_text(rows@[k as int]@[i as int])));
            i = i + 1;
        }
        assert(rows@[k as int]@.map_values(|c: SqlCell| cell_value_text(c)).take(i as int)
            =~= rows@[k as int]@.map_values(|c: SqlCell| cell_value_text(c)));
        out.push(line);
        k = k + 1;
    }
    QueryResult { columns, rows: out }
}

/// Whether every row of a result has one text per column.
pub open spec fn result_ok(r: QueryResult) -> bool {
    forall|k: int| 0 <= k < r.rows@.len() ==> (#[trigger] r.rows@[k])@.len() == r.columns@.len()
}

/// Whether `q` is what SQLite answers `sql` with over the table of `d`: its
/// columns are the ones SQLite names, and every row has one text per column.
pub open spec fn answers(q: QueryResult, d: DocV, sql: Seq<char>) -> bool {
    &&& result_ok(q)
    &&& q.columns.deep_view() == result_columns(load_statements(d), sql)
}

/// The first text of every row.
pub open spec fn first_texts(rows: Seq<Seq<Seq<char>>>) -> Seq<Seq<char>> {
    rows.map_values(|r: Seq<Seq<char>>| r[0])
}

/// The value in the first column of every row of a result, in the order of
/// the rows.
pub fn first_cells(q: &QueryResult) -> (r: Vec<String>)
    requires
        forall|k: int| 0 <= k < q.rows@.len() ==> (#[trigger] q.rows@[k])@.len() > 0,
    ensures
        r.deep_view() == first_texts(q.rows.deep_view()),
{
    let mut v: Vec<String> = Vec::new();
    let mut k: usize = 0;
    while k < q.rows.len()
        invariant
            k <= q.rows@.len(),
            forall|j: int| 0 <= j < q.rows@.len() ==> (#[trigger] q.rows@[j])@.len() > 0,
            v.deep_view() =~= first_texts(q.rows.deep_view()).take(k as int),
        decreases q.rows@.len() - k,
    {
        let ghost prev = v.deep_view();
        v.push(q.rows[k][0].clone());
        assert(q.rows.deep_view()[k as int] == q.rows@[k as int].deep_view());
        assert(v.deep_view() =~= prev.push(first_texts(q.rows.deep_view())[k as int]));
        k = k + 1;
    }
    assert(first_texts(q.rows.deep_view()).take(k as int) =~= first_texts(q.rows.deep_view()));
    v
}

/// Loads `doc` into a fresh database and runs `sql` there: the result has
/// the columns SQLite names for `sql` over the table of `doc`.
fn run_on_copy(doc: &XmlDoc, sql: &str) -> (r: Result<QueryResult, DocError>)
    requires
        doc.wf(),
    ensures
        r matches Ok(q) ==> answers(q, doc@, sql@),
        r matches Err(e) ==> e is Sql,
{
    let mut c = match sql_open() {
        Ok(c) => c,
        Err(e) => {
            return Err(sql_fault(&e));
        },
    };
    load_table(&mut c, doc)?;
    assert(sql_applied(c) =~= load_statements(doc@));
    let (columns, rows) = match sql_query(&mut c, sql) {
        Ok(r) => r,
        Err(e) => {
            return Err(sql_fault(&e));
        },
    };
    let q = query_result_from(columns, rows);
    Ok(q)
}

// ------------------------------------------------------------- documents

/// The columns of the editable view: `_rid`, the document's, `__ord`.
pub open spec fn view_columns(d: DocV) -> Seq<Seq<char>> {
    seq![rid_column()] + names_of(d.fields) + seq![ord_column()]
}

/// A row of the editable view: its id, its texts, its 1-based position.
pub open spec fn view_row(r: RowV, k: int) -> Seq<Seq<char>> {
    seq![dec_int(r.rowid)] + row_texts(r) + seq![dec((k + 1) as nat)]
}

/// Whether `q` is the whole document as an editable view, in display order.
pub open spec fn shows_whole(q: QueryResult, d: DocV) -> bool {
    &&& q.columns.deep_view() == view_columns(d)
    &&& q.rows@.len() == d.rows.len()
    &&& forall|k: int| 0 <= k < d.rows.len() ==> (#[trigger] q.rows@[k]).deep_view() == view_row(d.rows[k], k)
}

/// The texts of one column, in display order.
pub open spec fn column_texts(d: DocV, idx: int) -> Seq<Seq<char>> {
    d.rows.map_values(|r: RowV| cell_text(r.values[idx]))
}

impl XmlDoc {
    /// The whole document as an editable view.
    fn whole_view(&self) -> (q: QueryResult)
        requires
            self.wf(),
        ensures
            shows_whole(q, self@),
            result_ok(q),
    {
        let ghost d = self@;
        let names = self.field_names();
        let mut columns: Vec<String> = Vec::new();
        columns.push(String::from_str("_rid"));
        proof {
            reveal_strlit("_rid");
            assert("_rid"@ =~= rid_column());
            assert(columns.deep_view() =~= seq![rid_column()] + names_of(d.fields).take(0));
        }
        let mut i: usize = 0;
        while i < names.len()
            invariant
                i <= names@.len(),
                names.deep_view() == names_of(d.fields),
                columns.deep_view() =~= seq![rid_column()] + names_of(d.fields).take(i as int),
            decreases names@.len() - i,
        {
            let ghost prev = columns.deep_view();
            columns.push(names[i].clone());
            assert(columns.deep_view() =~= prev.push(names_of(d.fields)[i as int]));
            i = i + 1;
        }
        let ghost prev = columns.deep_view();
        columns.push(String::from_str("__ord"));
        proof {
            reveal_strlit("__ord");
            assert("__ord"@ =~= ord_column());
            assert(columns.deep_view() =~= prev.push("__ord"@));
            assert(names_of(d.fields).take(i as int) =~= names_of(d.fields));
            assert(columns.deep_view() =~= view_columns(d));
        }
        let rows = self.row_list();
        let mut out: Vec<Vec<String>> = Vec::new();
        let mut k: usize = 0;
        while k < rows.len()
            invariant
                k <= rows@.len(),
                rows@.map_values(|x: Row| x@) == d.rows,
                doc_wf_rows(d),
                columns.deep_view() == view_columns(d),
                out@.len() == k,
                forall|j: int| 0 <= j < k ==> (#[trigger] out@[j]).deep_view() == view_row(d.rows[j], j),
            decreases rows@.len() - k,
        {
            let ghost rv = rows@[k as int]@;
            assert(rv == d.rows[k as int]);
            let mut line: Vec<String> = Vec::new();
            line.push(string_of(&fmt_i64(rows[k].rowid)));
            let mut c: usize = 0;
            while c < rows[k].values.len()
                invariant
                    k < rows@.len(),
                    rv == rows@[k as int]@,
                    c <= rv.values.len(),
                    line.deep_view() =~= seq![dec_int(rv.rowid)] + row_texts(rv).take(c as int),
                decreases rv.values.len() - c,
            {
                let t = match &rows[k].values[c] {
                    Some(s) => s.clone(),
                    None => String::new(),
                };
                let ghost prev = line.deep_view();
                line.push(t);
                assert(line.deep_view() =~= prev.push(row_texts(rv)[c as int]));
                c = c + 1;
            }
            assert(row_texts(rv).take(c as int) =~= row_texts(rv));
            let ghost prev = line.deep_view();
            line.push(string_of(&fmt_u64(k as u64 + 1)));
            assert(line.deep_view() =~= view_row(rv, k as int));
            out.push(line);
            k = k + 1;
        }
        let q = QueryResult { columns, rows: out };
        proof {
            assert forall|j: int| 0 <= j < q.rows@.len() implies (#[trigger] q.rows@[j])@.len() == q.columns@.len() by {
                assert(q.rows@[j].deep_view() == view_row(d.rows[j], j));
                assert(row_ok(d.rows[j], d.fields.len()));
            }
        }
        q
    }

    /// Runs a statement over a copy of the document (table `dados`); the
    /// result has the columns SQLite names for it and one text per column in
    /// each row.
    pub fn query(&self, sql: &str) -> (r: Result<QueryResult, DocError>)
        requires
            self.wf(),
        ensures
            r matches Ok(q) ==> answers(q, self@, sql@),
            r matches Err(e) ==> e is Sql,
    {
        run_on_copy(self, sql)
    }

    /// The editable view of the rows that satisfy the SQL condition
    /// `where_clause` (all rows when it is absent or blank), in display
    /// order, with the row id in a first column `_rid`.
    pub fn filter(&self, where_clause: Option<&str>) -> (r: Result<QueryResult, DocError>)
        requires
            self.wf(),
        ensures
            match where_clause {
                Some(w) if trim(w@).len() > 0 => (r matches Ok(q) ==> answers(q, self@, filter_sql(w@)))
                    && (r matches Err(e) ==> e is Sql),
                _ => r matches Ok(q) && shows_whole(q, self@) && result_ok(q),
            },
    {
        match where_clause {
            Some(w) => {
                let t = trim_chars(&chars_of(w));
                if t.len() > 0 {
                    let sql = filter_statement(w);
                    return run_on_copy(self, sql.as_str());
                }
            },
            None => {},
        }
        Ok(self.whole_view())
    }

    /// The texts of column `column` in the rows that satisfy the SQL
    /// condition `where_clause` (all rows, in display order, when it is
    /// absent or blank).
    pub fn column_values(&self, column: &str, where_clause: Option<&str>) -> (r: Result<Vec<String>, DocError>)
        requires
            self.wf(),
        ensures
            match crate::table::resolve(self@.fields, column@) {
                None => r matches Err(DocError::NoSuchColumn),
                Some(idx) => match where_clause {
                    Some(w) if trim(w@).len() > 0 => (r matches Ok(v) ==> exists|q: QueryResult|
                        #[trigger] answers(q, self@, column_sql(column@, w@))
                            && (q.rows@.len() > 0 ==> q.columns@.len() > 0)
                            && v.deep_view() == first_texts(q.rows.deep_view()))
                        && (r matches Err(e) ==> e is Sql),
                    _ => r matches Ok(v) && v.deep_view() == column_texts(self@, idx),
                },
            },
    {
        let idx = match self.column_index(column) {
            None => {
                return Err(DocError::NoSuchColumn);
            },
            Some(i) => i,
        };
        match where_clause {
            Some(w) => {
                let t = trim_chars(&chars_of(w));
                if t.len() > 0 {
                    let sql = column_statement(column, w);
                    let q = run_on_copy(self, sql.as_str())?;
                    if q.columns.len() == 0 && q.rows.len() > 0 {
                        return Err(DocError::Sql(String::from_str("Invalid column index: 0")));
                    }
                    let v = first_cells(&q);
                    return Ok(v);
                }
            },
            None => {},
        }
        let ghost d = self@;
        let rows = self.row_list();
        let mut v: Vec<String> = Vec::new();
        let mut k: usize = 0;
        while k < rows.len()
            invariant
                k <= rows@.len(),
                rows@.map_values(|x: Row| x@) == d.rows,
                0 <= idx < d.fields.len(),
                doc_wf_rows(d),
                v.deep_view() =~= column_texts(d, idx as int).take(k as int),
            decreases rows@.len() - k,
        {
            proof {
                assert(rows@[k as int]@ == d.rows[k as int]);
                assert(row_ok(d.rows[k as int], d.fields.len()));
            }
            let t = match &rows[k].values[idx] {
                Some(s) => s.clone(),
                None => String::new(),
            };
            let ghost prev = v.deep_view();
            v.push(t);
            assert(v.deep_view() =~= prev.push(column_texts(d, idx as int)[k as int]));
            k = k + 1;
        }
        assert(column_texts(d, idx as int).take(k as int) =~= column_texts(d, idx as int));
        Ok(v)
    }
}

/// Every row of a valid document has one value per column.
pub open spec fn doc_wf_rows(d: DocV) -> bool {
    forall|r: int| 0 <= r < d.rows.len() ==> row_ok(#[trigger] d.rows[r], d.fields.len())
}

/// The statement of an editable view filtered by `cond`.
pub fn filter_statement(cond: &str) -> (r: String)
    ensures
        r@ == filter_sql(cond@),
{
    let mut out: Vec<char> = Vec::new();
    push_str(&mut out, "SELECT rowid AS _rid, * FROM dados WHERE ");
    push_str(&mut out, cond);
    push_str(&mut out, " ORDER BY __ord");
    string_of(&out)
}

/// The statement that reads column `name` where `cond` holds.
pub fn column_statement(name: &str, cond: &str) -> (r: String)
    ensures
        r@ == column_sql(name@, cond@),
{
    let mut out: Vec<char> = Vec::new();
    push_str(&mut out, "SELECT ");
    let q = quoted(&chars_of(name));
    push_chars(&mut out, &q);
    push_str(&mut out, " FROM dados WHERE ");
    push_str(&mut out, cond);
    string_of(&out)
}

/// The filtered view orders its rows by the ordering column, and loading
/// the document gives each row its own id and, in that column, its
/// position in the display order (1 for the first row, then rising by
/// one): the rows a condition selects come in display order, each with its
/// row id.
pub proof fn law_filter_keeps_display_order(d: DocV, cond: Seq<char>)
    ensures
        filter_sql(cond) == "SELECT rowid AS _rid, * FROM dados WHERE "@ + cond + " ORDER BY "@ + ord_column(),
        insert_sql(names_of(d.fields)) == "INSERT INTO dados ("@ + join_with(
            seq!["rowid"@] + names_of(d.fields).map_values(|n: Seq<char>| sql_quote(n)) + seq![
                seq!['"'] + ord_column() + seq!['"'],
            ],
            ", "@,
        ) + ") VALUES ("@ + join_with(placeholders(d.fields.len() + 2), ", "@) + ")"@,
        forall|k: int|
            0 <= k < d.rows.len() ==> {
                let (text, args) = #[trigger] load_statements(d)[k + 2];
                &&& text == insert_sql(names_of(d.fields))
                &&& args.len() == d.rows[k].values.len() + 2
                &&& args[0] == SqlArgV::Int(d.rows[k].rowid)
                &&& args.last() == SqlArgV::Int(k + 1)
            },
{
    reveal_strlit(" ORDER BY __ord");
    reveal_strlit(" ORDER BY ");
    reveal_strlit("\"__ord\"");
    assert("\"__ord\""@ =~= seq!['"'] + ord_column() + seq!['"']);
    assert(" ORDER BY __ord"@ =~= " ORDER BY "@ + ord_column());
    assert("SELECT rowid AS _rid, * FROM dados WHERE "@ + cond + " ORDER BY __ord"@
        =~= "SELECT rowid AS _rid, * FROM dados WHERE "@ + cond + " ORDER BY "@ + ord_column());
    let names = names_of(d.fields);
    let head = seq![("BEGIN"@, Seq::<SqlArgV>::empty()), (create_sql(names), Seq::<SqlArgV>::empty())];
    let mid = Seq::new(d.rows.len(), |k: int| (insert_sql(names), row_args(d.rows[k], k)));
    assert forall|k: int| 0 <= k < d.rows.len() implies #[trigger] load_statements(d)[k + 2] == (
        insert_sql(names),
        row_args(d.rows[k], k),
    ) by {
        assert(load_statements(d)[k + 2] == (head + mid)[k + 2]);
        assert((head + mid)[k + 2] == mid[k]);
    }
}

/// The column read for a sum selects, over the same table and the same
/// condition as the filtered view, the one quoted column and nothing
/// else: one text per selected row, repeats kept, with no other clause.
pub proof fn law_column_reads_the_filtered_rows(name: Seq<char>, cond: Seq<char>)
    ensures
        ({
            let from_where = " FROM dados WHERE "@ + cond;
            &&& filter_sql(cond) == "SELECT rowid AS _rid, *"@ + from_where + " ORDER BY __ord"@
            &&& column_sql(name, cond) == "SELECT "@ + sql_quote(name) + from_where
        }),
{
    let from_where = " FROM dados WHERE "@ + cond;
    reveal_strlit("SELECT rowid AS _rid, * FROM dados WHERE ");
    reveal_strlit("SELECT rowid AS _rid, *");
    reveal_strlit(" FROM dados WHERE ");
    reveal_strlit("SELECT ");
    assert(filter_sql(cond) =~= "SELECT rowid AS _rid, *"@ + from_where + " ORDER BY __ord"@);
    assert(column_sql(name, cond) =~= "SELECT "@ + sql_quote(name) + from_where);
}

} // verus!
