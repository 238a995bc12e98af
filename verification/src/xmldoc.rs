//! The table document: columns, rows in display order, and the editing
//! operations of the table editor.

use vstd::prelude::*;
use crate::chars::{chars_of, chars_eq, string_of};
use crate::table::{
    insert_row, delete_row, swap_rows, move_partner, set_cell, cloned_row, with_rows,
    lemma_insert_row_wf, lemma_remove_row_wf, lemma_swap_rows_wf, lemma_set_cell_wf, FieldV,
    RowV, DocV, doc_wf, field_ok, row_ok, attrname_key, ord_column, default_field, blank_row,
    resolve, row_pos, max_rowid, next_rowid, room_for_row, row_texts, names_of, rename_attrs,
    has_exact_name, add_column, rename_column, drop_column, lemma_rename_attrs,
    lemma_resolve_unique, lemma_row_pos_unique, lemma_max_rowid, lemma_same_name_symmetric,
    lemma_default_field_ok,
};
use crate::text::{same_name, same_name_chars, trim, trim_chars};

verus! {

/// A `<FIELD>` of the metadata, with all of its attributes kept for writing back.
pub struct Field {
    pub name: String,
    pub attrs: Vec<(String, String)>,
}

impl View for Field {
    type V = FieldV;

    open spec fn view(&self) -> FieldV {
        FieldV { name: self.name@, attrs: self.attrs.deep_view() }
    }
}

/// A row of the table.
pub struct Row {
    pub rowid: i64,
    pub values: Vec<Option<String>>,
}

impl View for Row {
    type V = RowV;

    open spec fn view(&self) -> RowV {
        RowV { rowid: self.rowid as int, values: self.values.deep_view() }
    }
}

/// What went wrong in a document operation.
#[derive(Debug)]
pub enum DocError {
    /// The XML reader refused the input (its message).
    Xml(String),
    /// The document has no `METADATA/FIELDS` section with a named `FIELD`.
    NotTable,
    /// The columns cannot form a table (repeated or reserved names, or
    /// rows before any column, or columns declared after the rows).
    BadColumns,
    /// A column name that is empty after trimming.
    EmptyName,
    /// A column name already in use.
    DuplicateColumn,
    /// No column has that name.
    NoSuchColumn,
    /// The last column cannot be removed.
    LastColumn,
    /// No row has that id.
    NoSuchRow,
    /// No row id is left for a new row.
    Full,
    /// SQLite refused a statement (its message).
    Sql(String),
}

/// The text shown to the user for an error.
pub open spec fn message_of(e: DocError) -> Seq<char> {
    match e {
        DocError::Xml(m) => "erro de parsing XML: "@ + m@,
        DocError::NotTable => "XML não reconhecido: faltam as seções METADATA/FIELDS"@,
        DocError::BadColumns => "XML não reconhecido: colunas repetidas, reservadas ou declaradas depois das linhas"@,
        DocError::EmptyName => "nome de coluna vazio"@,
        DocError::DuplicateColumn => "já existe uma coluna com esse nome"@,
        DocError::NoSuchColumn => "coluna inexistente"@,
        DocError::LastColumn => "o documento precisa de ao menos uma coluna"@,
        DocError::NoSuchRow => "linha inexistente"@,
        DocError::Full => "não há mais identificadores de linha disponíveis"@,
        DocError::Sql(m) => m@,
    }
}

impl DocError {
    /// The text shown to the user for this error.
    pub fn message(&self) -> (r: String)
        ensures
            r@ == message_of(*self),
    {
        match self {
            DocError::Xml(m) => {
                let mut s = String::from_str("erro de parsing XML: ");
                s.append(m.as_str());
                s
            },
            DocError::NotTable => String::from_str("XML não reconhecido: faltam as seções METADATA/FIELDS"),
            DocError::BadColumns => String::from_str(
                "XML não reconhecido: colunas repetidas, reservadas ou declaradas depois das linhas",
            ),
            DocError::EmptyName => String::from_str("nome de coluna vazio"),
            DocError::DuplicateColumn => String::from_str("já existe uma coluna com esse nome"),
            DocError::NoSuchColumn => String::from_str("coluna inexistente"),
            DocError::LastColumn => String::from_str("o documento precisa de ao menos uma coluna"),
            DocError::NoSuchRow => String::from_str("linha inexistente"),
            DocError::Full => String::from_str("não há mais identificadores de linha disponíveis"),
            DocError::Sql(m) => m.clone(),
        }
    }
}

/// The result of a query: column names and rows of texts ("" for NULL).
pub struct QueryResult {
    pub columns: Vec<String>,
    pub rows: Vec<Vec<String>>,
}

/// A table document.
pub struct XmlDoc {
    fields: Vec<Field>,
    rows: Vec<Row>,
    /// The `<DATAPACKET ...>` opening tag of the file, written back as is.
    datapacket_open: String,
    /// The `<PARAMS>` section of the file, written back as is.
    params_xml: String,
}

impl View for XmlDoc {
    type V = DocV;

    closed spec fn view(&self) -> DocV {
        DocV {
            fields: self.fields@.map_values(|f: Field| f@),
            rows: self.rows@.map_values(|r: Row| r@),
            frame: self.datapacket_open@,
            params: self.params_xml@,
        }
    }
}

/// A field made by the editor: type `string`, width 40.
pub fn default_field_exec(name: &str) -> (f: Field)
    ensures
        f@ == default_field(name@),
{
    let n1 = String::from_str(name);
    let n2 = String::from_str(name);
    let k1 = String::from_str("attrname");
    let k2 = String::from_str("fieldtype");
    let v2 = String::from_str("string");
    let k3 = String::from_str("WIDTH");
    let v3 = String::from_str("40");
    proof {
        reveal_strlit("attrname");
        reveal_strlit("fieldtype");
        reveal_strlit("string");
        reveal_strlit("WIDTH");
        reveal_strlit("40");
    }
    let mut attrs: Vec<(String, String)> = Vec::new();
    attrs.push((k1, n2));
    attrs.push((k2, v2));
    attrs.push((k3, v3));
    let f = Field { name: n1, attrs };
    assert(f@.attrs =~~= default_field(name@).attrs);
    f
}

impl XmlDoc {
    pub open spec fn wf(&self) -> bool {
        doc_wf(self@)
    }

    /// A blank document: one column `coluna1` and no rows.
    pub fn new_empty() -> (r: Result<XmlDoc, DocError>)
        ensures
            r matches Ok(d) && d.wf() && d@.rows.len() == 0 && d@.fields.len() == 1
                && d@.fields[0] == default_field("coluna1"@)
                && d@.frame == "<DATAPACKET Version=\"2.0\">"@ && d@.params == "<PARAMS/>"@,
    {
        let f = default_field_exec("coluna1");
        let mut fields: Vec<Field> = Vec::new();
        fields.push(f);
        let d = XmlDoc {
            fields,
            rows: Vec::new(),
            datapacket_open: String::from_str("<DATAPACKET Version=\"2.0\">"),
            params_xml: String::from_str("<PARAMS/>"),
        };
        proof {
            reveal_strlit("coluna1");
            let fv = d@.fields[0];
            assert(fv == default_field("coluna1"@));
            assert(!same_name("coluna1"@, ord_column()));
            lemma_default_field_ok("coluna1"@);
        }
        Ok(d)
    }

    /// A document made of the given parts.
    pub(crate) fn from_parts(fields: Vec<Field>, rows: Vec<Row>, frame: String, params: String) -> (d: XmlDoc)
        ensures
            d@ == (DocV {
                fields: fields@.map_values(|f: Field| f@),
                rows: rows@.map_values(|r: Row| r@),
                frame: frame@,
                params: params@,
            }),
    {
        XmlDoc { fields, rows, datapacket_open: frame, params_xml: params }
    }

    /// The column names, in order.
    pub fn field_names(&self) -> (r: Vec<String>)
        ensures
            r.deep_view() == names_of(self@.fields),
    {
        let mut r: Vec<String> = Vec::new();
        let mut i: usize = 0;
        while i < self.fields.len()
            invariant
                i <= self.fields@.len(),
                r.deep_view() =~= names_of(self@.fields).take(i as int),
            decreases self.fields@.len() - i,
        {
            let ghost prev = r.deep_view();
            r.push(self.fields[i].name.clone());
            assert(r.deep_view() =~= prev.push(self@.fields[i as int].name));
            i = i + 1;
        }
        assert(names_of(self@.fields).take(i as int) =~= names_of(self@.fields));
        r
    }

    /// The index of the column that `name` denotes.
    fn find_column(&self, name: &[char]) -> (r: Option<usize>)
        requires
            self.wf(),
        ensures
            match r {
                Some(i) => resolve(self@.fields, name@) == Some(i as int),
                None => resolve(self@.fields, name@) is None,
            },
    {
        let mut i: usize = 0;
        while i < self.fields.len()
            invariant
                self.wf(),
                i <= self.fields@.len(),
                forall|j: int| 0 <= j < i ==> !same_name(#[trigger] self@.fields[j].name, name@),
            decreases self.fields@.len() - i,
        {
            let fc = chars_of(self.fields[i].name.as_str());
            if same_name_chars(&fc, name) {
                proof {
                    lemma_resolve_unique(self@.fields, name@, i as int);
                }
                return Some(i);
            }
            i = i + 1;
        }
        None
    }

    /// Whether a column is named exactly `name`.
    fn has_exact(&self, name: &[char]) -> (r: bool)
        ensures
            r == has_exact_name(self@.fields, name@),
    {
        let mut i: usize = 0;
        while i < self.fields.len()
            invariant
                i <= self.fields@.len(),
                forall|j: int| 0 <= j < i ==> #[trigger] self@.fields[j].name != name@,
            decreases self.fields@.len() - i,
        {
            let fc = chars_of(self.fields[i].name.as_str());
            if chars_eq(&fc, name) {
                assert(self@.fields[i as int].name == name@);
                return true;
            }
            i = i + 1;
        }
        false
    }

    /// Appends a value to every row.
    fn push_cell_everywhere(rows: &mut Vec<Row>)
        ensures
            final(rows)@.map_values(|r: Row| r@) == old(rows)@.map_values(|r: Row| r@).map_values(
                |r: RowV| RowV { rowid: r.rowid, values: r.values.push(None) },
            ),
    {
        let mut i: usize = 0;
        while i < rows.len()
            invariant
                i <= rows@.len(),
                rows@.len() == old(rows)@.len(),
                forall|j: int|
                    0 <= j < i ==> #[trigger] rows@[j]@ == (RowV {
                        rowid: old(rows)@[j]@.rowid,
                        values: old(rows)@[j]@.values.push(None),
                    }),
                forall|j: int| i <= j < rows@.len() ==> #[trigger] rows@[j] == old(rows)@[j],
            decreases rows@.len() - i,
        {
            let ghost prev = rows@;
            rows[i].values.push(None);
            assert(rows@[i as int].values.deep_view() =~= prev[i as int].values.deep_view().push(None));
            assert forall|j: int| 0 <= j < i + 1 implies #[trigger] rows@[j]@ == (RowV {
                rowid: old(rows)@[j]@.rowid,
                values: old(rows)@[j]@.values.push(None),
            }) by {
                if j < i {
                    assert(rows@[j] == prev[j]);
                } else {
                    assert(prev[j] == old(rows)@[j]);
                }
            }
            i = i + 1;
        }
        assert(final(rows)@.map_values(|r: Row| r@) =~= old(rows)@.map_values(|r: Row| r@).map_values(
            |r: RowV| RowV { rowid: r.rowid, values: r.values.push(None) },
        ));
    }

    /// Adds an empty text column at the end.
    pub fn add_column(&mut self, name: &str) -> (r: Result<(), DocError>)
        requires
            old(self).wf(),
        ensures
            final(self).wf(),
            ({
                let t = trim(name@);
                if t.len() == 0 {
                    r matches Err(DocError::EmptyName) && final(self)@ == old(self)@
                } else if resolve(old(self)@.fields, t) is Some || same_name(t, ord_column()) {
                    r matches Err(DocError::DuplicateColumn) && final(self)@ == old(self)@
                } else if old(self)@.fields.len() + 1 >= i64::MAX {
                    r matches Err(DocError::Full) && final(self)@ == old(self)@
                } else {
                    r is Ok && final(self)@ == add_column(old(self)@, t)
                }
            }),
    {
        let t = trim_chars(&chars_of(name));
        if t.len() == 0 {
            return Err(DocError::EmptyName);
        }
        let ord = chars_of("__ord");
        proof {
            reveal_strlit("__ord");
            assert(ord@ =~= ord_column());
        }
        if self.find_column(&t).is_some() || same_name_chars(&t, &ord) {
            return Err(DocError::DuplicateColumn);
        }
        if self.fields.len() as u64 + 1 >= 9223372036854775807u64 {
            return Err(DocError::Full);
        }
        let ts = string_of(&t);
        let f = default_field_exec(ts.as_str());
        let ghost d0 = self@;
        self.fields.push(f);
        Self::push_cell_everywhere(&mut self.rows);
        proof {
            let d1 = self@;
            assert(d1.fields =~= d0.fields.push(default_field(t@)));
            assert(d1 =~~= add_column(d0, t@));
            lemma_default_field_ok(t@);
            assert forall|i: int, j: int|
                #![trigger d1.fields[i], d1.fields[j]]
                0 <= i < j < d1.fields.len() implies !same_name(d1.fields[i].name, d1.fields[j].name) by {
                if j == d0.fields.len() {
                    assert(d1.fields[i] == d0.fields[i]);
                    if same_name(d0.fields[i].name, t@) {
                        assert(0 <= i < d0.fields.len() && same_name(d0.fields[i].name, t@));
                        assert(resolve(d0.fields, t@) is Some);
                    }
                } else {
                    assert(d1.fields[i] == d0.fields[i]);
                    assert(d1.fields[j] == d0.fields[j]);
                }
            }
            assert forall|k: int| 0 <= k < d1.fields.len() implies field_ok(#[trigger] d1.fields[k]) by {
                if k < d0.fields.len() {
                    assert(d1.fields[k] == d0.fields[k]);
                }
            }
            assert forall|k: int| 0 <= k < d1.rows.len() implies row_ok(#[trigger] d1.rows[k], d1.fields.len()) by {
                assert(d1.rows[k].values == d0.rows[k].values.push(None));
                assert(d1.rows[k].rowid == d0.rows[k].rowid);
            }
            assert forall|a: int, b: int|
                #![trigger d1.rows[a], d1.rows[b]]
                0 <= a < b < d1.rows.len() implies d1.rows[a].rowid != d1.rows[b].rowid by {
                assert(d1.rows[a].rowid == d0.rows[a].rowid);
                assert(d1.rows[b].rowid == d0.rows[b].rowid);
            }
        }
        Ok(())
    }

    /// The attributes of a field with every `attrname` set to `name`.
    fn renamed_attrs(attrs: &Vec<(String, String)>, name: &String) -> (r: Vec<(String, String)>)
        ensures
            r.deep_view() == rename_attrs(attrs.deep_view(), name@),
    {
        let key = chars_of("attrname");
        proof {
            reveal_strlit("attrname");
            assert(key@ =~= attrname_key());
        }
        let mut r: Vec<(String, String)> = Vec::new();
        let mut k: usize = 0;
        while k < attrs.len()
            invariant
                k <= attrs@.len(),
                key@ == attrname_key(),
                r.deep_view() =~= rename_attrs(attrs.deep_view(), name@).take(k as int),
            decreases attrs@.len() - k,
        {
            let ghost prev = r.deep_view();
            let kc = chars_of(attrs[k].0.as_str());
            if chars_eq(&kc, &key) {
                r.push((attrs[k].0.clone(), name.clone()));
            } else {
                r.push((attrs[k].0.clone(), attrs[k].1.clone()));
            }
            assert(r.deep_view() =~= prev.push(rename_attrs(attrs.deep_view(), name@)[k as int]));
            k = k + 1;
        }
        assert(rename_attrs(attrs.deep_view(), name@).take(k as int) =~= rename_attrs(attrs.deep_view(), name@));
        r
    }

    /// Renames a column; its `attrname` follows the new name.
    #[verifier::loop_isolation(false)]
    pub fn rename_column(&mut self, old_name: &str, new_name: &str) -> (r: Result<(), DocError>)
        requires
            old(self).wf(),
        ensures
            final(self).wf(),
            ({
                let t = trim(new_name@);
                let d = old(self)@;
                if old_name@ == t {
                    r is Ok && final(self)@ == d
                } else if t.len() == 0 {
                    r matches Err(DocError::EmptyName) && final(self)@ == d
                } else if has_exact_name(d.fields, t) {
                    r matches Err(DocError::DuplicateColumn) && final(self)@ == d
                } else {
                    match resolve(d.fields, old_name@) {
                        None => r matches Err(DocError::NoSuchColumn) && final(self)@ == d,
                        Some(idx) => if same_name(t, ord_column()) || exists|j: int|
                            0 <= j < d.fields.len() && j != idx && same_name(
                                #[trigger] d.fields[j].name,
                                t,
                            ) {
                            r matches Err(DocError::DuplicateColumn) && final(self)@ == d
                        } else {
                            r is Ok && final(self)@ == rename_column(d, idx, t)
                        },
                    }
                }
            }),
    {
        let t = trim_chars(&chars_of(new_name));
        let oc = chars_of(old_name);
        if chars_eq(&oc, &t) {
            return Ok(());
        }
        if t.len() == 0 {
            return Err(DocError::EmptyName);
        }
        if self.has_exact(&t) {
            return Err(DocError::DuplicateColumn);
        }
        let idx = match self.find_column(&oc) {
            None => {
                return Err(DocError::NoSuchColumn);
            },
            Some(i) => i,
        };
        let ord = chars_of("__ord");
        proof {
            reveal_strlit("__ord");
            assert(ord@ =~= ord_column());
        }
        if same_name_chars(&t, &ord) {
            return Err(DocError::DuplicateColumn);
        }
        let mut j: usize = 0;
        while j < self.fields.len()
            invariant
                self.wf(),
                self@ == old(self)@,
                j <= self.fields@.len(),
                idx < self.fields@.len(),
                forall|k: int| 0 <= k < j && k != idx ==> !same_name(#[trigger] self@.fields[k].name, t@),
            decreases self.fields@.len() - j,
        {
            if j != idx {
                let fc = chars_of(self.fields[j].name.as_str());
                if same_name_chars(&fc, &t) {
                    assert(same_name(old(self)@.fields[j as int].name, t@));
                    assert(0 <= j < old(self)@.fields.len() && j as int != idx as int);
                    return Err(DocError::DuplicateColumn);
                }
            }
            j = j + 1;
        }
        let ts = string_of(&t);
        let attrs = Self::renamed_attrs(&self.fields[idx].attrs, &ts);
        let ghost d0 = self@;
        self.fields.set(idx, Field { name: ts, attrs });
        proof {
            let d1 = self@;
            assert(d1.fields =~= d0.fields.update(
                idx as int,
                FieldV { name: t@, attrs: rename_attrs(d0.fields[idx as int].attrs, t@) },
            ));
            assert(d1 =~~= rename_column(d0, idx as int, t@));
            lemma_rename_attrs(d0.fields[idx as int].attrs, t@);
            assert forall|k: int| 0 <= k < d1.fields.len() implies field_ok(#[trigger] d1.fields[k]) by {
                if k != idx {
                    assert(d1.fields[k] == d0.fields[k]);
                }
            }
            assert forall|a: int, b: int|
                #![trigger d1.fields[a], d1.fields[b]]
                0 <= a < b < d1.fields.len() implies !same_name(d1.fields[a].name, d1.fields[b].name) by {
                if a == idx {
                    assert(d1.fields[b] == d0.fields[b]);
                    lemma_same_name_symmetric(t@, d0.fields[b].name);
                } else if b == idx {
                    assert(d1.fields[a] == d0.fields[a]);
                } else {
                    assert(d1.fields[a] == d0.fields[a]);
                    assert(d1.fields[b] == d0.fields[b]);
                }
            }
        }
        Ok(())
    }

    /// Removes the value at `idx` from every row.
    fn remove_cell_everywhere(rows: &mut Vec<Row>, idx: usize)
        requires
            forall|j: int| 0 <= j < old(rows)@.len() ==> idx < (#[trigger] old(rows)@[j]).values@.len(),
        ensures
            final(rows)@.map_values(|r: Row| r@) == old(rows)@.map_values(|r: Row| r@).map_values(
                |r: RowV| RowV { rowid: r.rowid, values: r.values.remove(idx as int) },
            ),
    {
        let mut i: usize = 0;
        while i < rows.len()
            invariant
                i <= rows@.len(),
                rows@.len() == old(rows)@.len(),
                forall|j: int| 0 <= j < old(rows)@.len() ==> idx < (#[trigger] old(rows)@[j]).values@.len(),
                forall|j: int|
                    0 <= j < i ==> #[trigger] rows@[j]@ == (RowV {
                        rowid: old(rows)@[j]@.rowid,
                        values: old(rows)@[j]@.values.remove(idx as int),
                    }),
                forall|j: int| i <= j < rows@.len() ==> #[trigger] rows@[j] == old(rows)@[j],
            decreases rows@.len() - i,
        {
            let ghost prev = rows@;
            assert(prev[i as int] == old(rows)@[i as int]);
            rows[i].values.remove(idx);
            assert(rows@[i as int].values.deep_view() =~= prev[i as int].values.deep_view().remove(idx as int));
            assert forall|j: int| 0 <= j < i + 1 implies #[trigger] rows@[j]@ == (RowV {
                rowid: old(rows)@[j]@.rowid,
                values: old(rows)@[j]@.values.remove(idx as int),
            }) by {
                if j < i {
                    assert(rows@[j] == prev[j]);
                }
            }
            i = i + 1;
        }
        assert(final(rows)@.map_values(|r: Row| r@) =~= old(rows)@.map_values(|r: Row| r@).map_values(
            |r: RowV| RowV { rowid: r.rowid, values: r.values.remove(idx as int) },
        ));
    }

    /// Removes a column and its values; the last column stays.
    pub fn drop_column(&mut self, name: &str) -> (r: Result<(), DocError>)
        requires
            old(self).wf(),
        ensures
            final(self).wf(),
            ({
                let d = old(self)@;
                if d.fields.len() <= 1 {
                    r matches Err(DocError::LastColumn) && final(self)@ == d
                } else {
                    match resolve(d.fields, name@) {
                        None => r matches Err(DocError::NoSuchColumn) && final(self)@ == d,
                        Some(idx) => r is Ok && final(self)@ == drop_column(d, idx),
                    }
                }
            }),
    {
        if self.fields.len() <= 1 {
            return Err(DocError::LastColumn);
        }
        let idx = match self.find_column(&chars_of(name)) {
            None => {
                return Err(DocError::NoSuchColumn);
            },
            Some(i) => i,
        };
        let ghost d0 = self@;
        proof {
            assert forall|j: int| 0 <= j < self.rows@.len() implies idx < (#[trigger] self.rows@[j]).values@.len() by {
                assert(row_ok(d0.rows[j], d0.fields.len()));
            }
        }
        self.fields.remove(idx);
        Self::remove_cell_everywhere(&mut self.rows, idx);
        proof {
            let d1 = self@;
            assert(d1.fields =~= d0.fields.remove(idx as int));
            assert(d1 =~~= drop_column(d0, idx as int));
            assert forall|k: int| 0 <= k < d1.fields.len() implies field_ok(#[trigger] d1.fields[k]) by {
                if k < idx {
                    assert(d1.fields[k] == d0.fields[k]);
                } else {
                    assert(d1.fields[k] == d0.fields[k + 1]);
                }
            }
            assert forall|a: int, b: int|
                #![trigger d1.fields[a], d1.fields[b]]
                0 <= a < b < d1.fields.len() implies !same_name(d1.fields[a].name, d1.fields[b].name) by {
                let a0 = if a < idx { a } else { a + 1 };
                let b0 = if b < idx { b } else { b + 1 };
                assert(d1.fields[a] == d0.fields[a0]);
                assert(d1.fields[b] == d0.fields[b0]);
                assert(d0.fields[a0] == d0.fields[a0] && d0.fields[b0] == d0.fields[b0]);
            }
            assert forall|k: int| 0 <= k < d1.rows.len() implies row_ok(#[trigger] d1.rows[k], d1.fields.len()) by {
                assert(row_ok(d0.rows[k], d0.fields.len()));
                assert(d1.rows[k].values == d0.rows[k].values.remove(idx as int));
            }
            assert forall|a: int, b: int|
                #![trigger d1.rows[a], d1.rows[b]]
                0 <= a < b < d1.rows.len() implies d1.rows[a].rowid != d1.rows[b].rowid by {
                assert(d1.rows[a].rowid == d0.rows[a].rowid);
                assert(d1.rows[b].rowid == d0.rows[b].rowid);
            }
        }
        Ok(())
    }

    /// The display position of the row with id `rowid`.
    fn find_row(&self, rowid: i64) -> (r: Option<usize>)
        requires
            self.wf(),
        ensures
            match r {
                Some(p) => row_pos(self@.rows, rowid as int) == Some(p as int) && p < self.rows@.len()
                    && self@.rows[p as int].rowid == rowid,
                None => row_pos(self@.rows, rowid as int) is None,
            },
    {
        let mut i: usize = 0;
        while i < self.rows.len()
            invariant
                self.wf(),
                i <= self.rows@.len(),
                forall|j: int| 0 <= j < i ==> (#[trigger] self@.rows[j]).rowid != rowid,
            decreases self.rows@.len() - i,
        {
            if self.rows[i].rowid == rowid {
                proof {
                    lemma_row_pos_unique(self@.rows, rowid as int, i as int);
                }
                return Some(i);
            }
            i = i + 1;
        }
        None
    }

    /// The id for a new row, if one is left.
    fn new_rowid(&self) -> (r: Option<i64>)
        requires
            self.wf(),
        ensures
            match r {
                Some(id) => room_for_row(self@.rows) && id == next_rowid(self@.rows),
                None => !room_for_row(self@.rows),
            },
    {
        let mut m: i64 = 0;
        let mut i: usize = 0;
        while i < self.rows.len()
            invariant
                self.wf(),
                i <= self.rows@.len(),
                m == max_rowid(self@.rows.take(i as int)),
            decreases self.rows@.len() - i,
        {
            proof {
                assert(self@.rows.take(i + 1).drop_last() =~= self@.rows.take(i as int));
                assert(row_ok(self@.rows[i as int], self@.fields.len()));
            }
            if self.rows[i].rowid > m {
                m = self.rows[i].rowid;
            }
            i = i + 1;
        }
        assert(self@.rows.take(i as int) =~= self@.rows);
        if m == i64::MAX || self.rows.len() as u64 >= 9223372036854775806u64 {
            None
        } else {
            Some(m + 1)
        }
    }

    /// A row of empty texts.
    fn blank(&self, rowid: i64) -> (r: Row)
        ensures
            r@ == blank_row(rowid as int, self@.fields.len()),
    {
        let mut values: Vec<Option<String>> = Vec::new();
        let mut i: usize = 0;
        while i < self.fields.len()
            invariant
                i <= self.fields@.len(),
                values.deep_view() =~= Seq::new(i as nat, |k: int| Some(Seq::<char>::empty())),
            decreases self.fields@.len() - i,
        {
            let ghost prev = values.deep_view();
            values.push(Some(String::new()));
            assert(values.deep_view() =~= prev.push(Some(Seq::<char>::empty())));
            i = i + 1;
        }
        Row { rowid, values }
    }

    /// Inserts a row at display position `at`, keeping the invariant.
    fn insert_at(&mut self, at: usize, row: Row)
        requires
            old(self).wf(),
            at <= old(self)@.rows.len(),
            row_ok(row@, old(self)@.fields.len()),
            row@.rowid == next_rowid(old(self)@.rows),
            room_for_row(old(self)@.rows),
        ensures
            final(self).wf(),
            final(self)@ == insert_row(old(self)@, at as int, row@),
    {
        let ghost d0 = self@;
        let ghost rv = row@;
        self.rows.insert(at, row);
        proof {
            assert(self@ =~~= insert_row(d0, at as int, rv));
            lemma_max_rowid(d0.rows);
            lemma_insert_row_wf(d0, at as int, rv);
        }
    }

    /// Adds an empty row at the end; returns its id.
    pub fn add_row(&mut self) -> (r: Result<i64, DocError>)
        requires
            old(self).wf(),
        ensures
            final(self).wf(),
            room_for_row(old(self)@.rows) ==> r == Ok::<i64, DocError>(
                next_rowid(old(self)@.rows) as i64,
            ) && final(self)@ == insert_row(
                old(self)@,
                old(self)@.rows.len() as int,
                blank_row(next_rowid(old(self)@.rows), old(self)@.fields.len()),
            ),
            !room_for_row(old(self)@.rows) ==> (r matches Err(DocError::Full) && final(self)@
                == old(self)@),
    {
        let id = match self.new_rowid() {
            None => {
                return Err(DocError::Full);
            },
            Some(id) => id,
        };
        let row = self.blank(id);
        let at = self.rows.len();
        self.insert_at(at, row);
        Ok(id)
    }

    /// Inserts an empty row just above (or below) the row `ref_rowid`;
    /// returns the new row's id.
    pub fn insert_row_relative(&mut self, ref_rowid: i64, above: bool) -> (r: Result<i64, DocError>)
        requires
            old(self).wf(),
        ensures
            final(self).wf(),
            ({
                let d = old(self)@;
                match row_pos(d.rows, ref_rowid as int) {
                    None => r matches Err(DocError::NoSuchRow) && final(self)@ == d,
                    Some(p) => if !room_for_row(d.rows) {
                        r matches Err(DocError::Full) && final(self)@ == d
                    } else {
                        r == Ok::<i64, DocError>(next_rowid(d.rows) as i64) && final(self)@
                            == insert_row(
                            d,
                            if above {
                                p
                            } else {
                                p + 1
                            },
                            blank_row(next_rowid(d.rows), d.fields.len()),
                        )
                    },
                }
            }),
    {
        let p = match self.find_row(ref_rowid) {
            None => {
                return Err(DocError::NoSuchRow);
            },
            Some(p) => p,
        };
        let id = match self.new_rowid() {
            None => {
                return Err(DocError::Full);
            },
            Some(id) => id,
        };
        let row = self.blank(id);
        let n = self.rows.len();
        let at = if above {
            p
        } else {
            p + 1
        };
        self.insert_at(at, row);
        Ok(id)
    }

    /// Copies the row `ref_rowid` just above (or below) itself; returns the
    /// new row's id and the copied texts, in column order.
    pub fn clone_row(&mut self, ref_rowid: i64, above: bool) -> (r: Result<(i64, Vec<String>), DocError>)
        requires
            old(self).wf(),
        ensures
            final(self).wf(),
            ({
                let d = old(self)@;
                match row_pos(d.rows, ref_rowid as int) {
                    None => r matches Err(DocError::NoSuchRow) && final(self)@ == d,
                    Some(p) => if !room_for_row(d.rows) {
                        r matches Err(DocError::Full) && final(self)@ == d
                    } else {
                        r matches Ok((id, vals)) && id == next_rowid(d.rows) && vals.deep_view()
                            == row_texts(d.rows[p]) && final(self)@ == insert_row(
                            d,
                            if above {
                                p
                            } else {
                                p + 1
                            },
                            cloned_row(d.rows[p], next_rowid(d.rows)),
                        )
                    },
                }
            }),
    {
        let p = match self.find_row(ref_rowid) {
            None => {
                return Err(DocError::NoSuchRow);
            },
            Some(p) => p,
        };
        let id = match self.new_rowid() {
            None => {
                return Err(DocError::Full);
            },
            Some(id) => id,
        };
        let ghost src = self@.rows[p as int];
        let mut texts: Vec<String> = Vec::new();
        let mut values: Vec<Option<String>> = Vec::new();
        let mut i: usize = 0;
        while i < self.rows[p].values.len()
            invariant
                p < self.rows@.len(),
                src == self@.rows[p as int],
                i <= src.values.len(),
                texts.deep_view() =~= row_texts(src).take(i as int),
                values.deep_view() =~= cloned_row(src, id as int).values.take(i as int),
            decreases src.values.len() - i,
        {
            let t = match &self.rows[p].values[i] {
                Some(s) => s.clone(),
                None => String::new(),
            };
            let t2 = t.clone();
            let ghost pt = texts.deep_view();
            let ghost pv = values.deep_view();
            texts.push(t);
            values.push(Some(t2));
            assert(texts.deep_view() =~= pt.push(row_texts(src)[i as int]));
            assert(values.deep_view() =~= pv.push(cloned_row(src, id as int).values[i as int]));
            i = i + 1;
        }
        assert(row_texts(src).take(i as int) =~= row_texts(src));
        assert(cloned_row(src, id as int).values.take(i as int) =~= cloned_row(src, id as int).values);
        let row = Row { rowid: id, values };
        assert(row@ =~~= cloned_row(src, id as int));
        proof {
            assert(row_ok(src, self@.fields.len()));
        }
        let n = self.rows.len();
        let at = if above {
            p
        } else {
            p + 1
        };
        self.insert_at(at, row);
        Ok((id, texts))
    }

    /// Removes the row `rowid` (nothing happens if there is none).
    pub fn delete_row(&mut self, rowid: i64) -> (r: Result<(), DocError>)
        requires
            old(self).wf(),
        ensures
            final(self).wf(),
            r is Ok,
            final(self)@ == delete_row(old(self)@, rowid as int),
    {
        match self.find_row(rowid) {
            None => {},
            Some(p) => {
                let ghost d0 = self@;
                self.rows.remove(p);
                proof {
                    assert(self@ =~~= with_rows(d0, d0.rows.remove(p as int)));
                    lemma_remove_row_wf(d0, p as int);
                }
            },
        }
        Ok(())
    }

    /// Moves the row `rowid` one place up (or down), trading places with its
    /// neighbour; returns the neighbour's id, or `None` at the top (bottom).
    pub fn move_row(&mut self, rowid: i64, up: bool) -> (r: Result<Option<i64>, DocError>)
        requires
            old(self).wf(),
        ensures
            final(self).wf(),
            ({
                let d = old(self)@;
                match row_pos(d.rows, rowid as int) {
                    None => r matches Err(DocError::NoSuchRow) && final(self)@ == d,
                    Some(p) => match move_partner(d.rows, p, up) {
                        None => r == Ok::<Option<i64>, DocError>(None) && final(self)@ == d,
                        Some(q) => r == Ok::<Option<i64>, DocError>(Some(d.rows[q].rowid as i64))
                            && final(self)@ == with_rows(d, swap_rows(d.rows, p, q)),
                    },
                }
            }),
    {
        let p = match self.find_row(rowid) {
            None => {
                return Err(DocError::NoSuchRow);
            },
            Some(p) => p,
        };
        let n = self.rows.len();
        let q = if up {
            if p == 0 {
                return Ok(None);
            }
            p - 1
        } else {
            if p + 1 >= n {
                return Ok(None);
            }
            p + 1
        };
        let nb = self.rows[q].rowid;
        let ghost d0 = self@;
        let lo = if p < q {
            p
        } else {
            q
        };
        let hi = if p < q {
            q
        } else {
            p
        };
        let moved = self.rows.remove(hi);
        self.rows.insert(lo, moved);
        proof {
            assert(self@ =~~= with_rows(d0, swap_rows(d0.rows, p as int, q as int)));
            lemma_swap_rows_wf(d0, p as int, q as int);
        }
        Ok(Some(nb))
    }

    /// Writes `value` into the cell of row `rowid` and column `column`.
    pub fn update_cell(&mut self, rowid: i64, column: &str, value: &str) -> (r: Result<(), DocError>)
        requires
            old(self).wf(),
        ensures
            final(self).wf(),
            ({
                let d = old(self)@;
                match resolve(d.fields, column@) {
                    None => r matches Err(DocError::NoSuchColumn) && final(self)@ == d,
                    Some(idx) => r is Ok && match row_pos(d.rows, rowid as int) {
                        None => final(self)@ == d,
                        Some(p) => final(self)@ == set_cell(d, p, idx, value@),
                    },
                }
            }),
    {
        let idx = match self.find_column(&chars_of(column)) {
            None => {
                return Err(DocError::NoSuchColumn);
            },
            Some(i) => i,
        };
        match self.find_row(rowid) {
            None => {},
            Some(p) => {
                let ghost d0 = self@;
                proof {
                    assert(row_ok(d0.rows[p as int], d0.fields.len()));
                }
                self.rows[p].values.set(idx, Some(String::from_str(value)));
                proof {
                    assert(self@.rows[p as int].values =~= d0.rows[p as int].values.update(idx as int, Some(value@)));
                    assert(self@ =~~= set_cell(d0, p as int, idx as int, value@));
                    lemma_set_cell_wf(d0, p as int, idx as int, value@);
                }
            },
        }
        Ok(())
    }

    /// The index of the column that `name` denotes.
    pub fn column_index(&self, name: &str) -> (r: Option<usize>)
        requires
            self.wf(),
        ensures
            match r {
                Some(i) => resolve(self@.fields, name@) == Some(i as int) && i < self@.fields.len(),
                None => resolve(self@.fields, name@) is None,
            },
    {
        let r = self.find_column(&chars_of(name));
        proof {
            if let Some(i) = r {
                let c = choose|k: int| 0 <= k < self@.fields.len() && same_name(#[trigger] self@.fields[k].name, name@);
                assert(c == i);
            }
        }
        r
    }

    /// The preserved `<DATAPACKET ...>` opening tag.
    pub fn frame_text(&self) -> (r: &str)
        ensures
            r@ == self@.frame,
    {
        self.datapacket_open.as_str()
    }

    /// The preserved `<PARAMS>` section.
    pub fn params_text(&self) -> (r: &str)
        ensures
            r@ == self@.params,
    {
        self.params_xml.as_str()
    }

    /// The columns.
    pub fn field_list(&self) -> (r: &Vec<Field>)
        ensures
            r@.map_values(|f: Field| f@) == self@.fields,
    {
        &self.fields
    }

    /// The rows, in display order.
    pub fn row_list(&self) -> (r: &Vec<Row>)
        ensures
            r@.map_values(|x: Row| x@) == self@.rows,
    {
        &self.rows
    }

    /// The number of rows.
    pub fn row_count(&self) -> (r: i64)
        requires
            self.wf(),
        ensures
            r == self@.rows.len(),
    {
        self.rows.len() as i64
    }
}

} // verus!
