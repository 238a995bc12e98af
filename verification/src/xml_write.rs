//! Writing a document back as `DATAPACKET` XML.

use vstd::prelude::*;
use crate::chars::{chars_of, push_chars, push_str, string_of};
use crate::table::{DocV, FieldV, RowV, cell_text, names_of};
use crate::xmldoc::{XmlDoc, Field, Row};

verus! {

/// How one character of an attribute value is written.
pub open spec fn escape_char(c: char) -> Seq<char> {
    if c == '&' {
        "&amp;"@
    } else if c == '<' {
        "&lt;"@
    } else if c == '>' {
        "&gt;"@
    } else if c == '"' {
        "&quot;"@
    } else if c == '\n' {
        "&#10;"@
    } else if c == '\r' {
        "&#13;"@
    } else if c == '\t' {
        "&#9;"@
    } else {
        seq![c]
    }
}

/// An attribute value as written: each character escaped in turn.
pub open spec fn escape_attr(s: Seq<char>) -> Seq<char>
    decreases s.len(),
{
    if s.len() == 0 {
        Seq::empty()
    } else {
        escape_attr(s.drop_last()) + escape_char(s.last())
    }
}

/// ` key="value"` with the value escaped.
pub open spec fn attr_xml(key: Seq<char>, value: Seq<char>) -> Seq<char> {
    seq![' '] + key + seq!['=', '"'] + escape_attr(value) + seq!['"']
}

pub open spec fn attrs_xml(attrs: Seq<(Seq<char>, Seq<char>)>) -> Seq<char>
    decreases attrs.len(),
{
    if attrs.len() == 0 {
        Seq::empty()
    } else {
        attrs_xml(attrs.drop_last()) + attr_xml(attrs.last().0, attrs.last().1)
    }
}

pub open spec fn field_xml(f: FieldV) -> Seq<char> {
    "<FIELD"@ + attrs_xml(f.attrs) + "/>"@
}

pub open spec fn fields_xml(fields: Seq<FieldV>) -> Seq<char>
    decreases fields.len(),
{
    if fields.len() == 0 {
        Seq::empty()
    } else {
        fields_xml(fields.drop_last()) + field_xml(fields.last())
    }
}

/// The attributes of a row: one per non-empty cell, named after its column.
pub open spec fn cells_xml(names: Seq<Seq<char>>, values: Seq<Option<Seq<char>>>) -> Seq<char>
    decreases values.len(),
{
    if values.len() == 0 {
        Seq::empty()
    } else {
        let k = values.len() - 1;
        let text = cell_text(values[k]);
        cells_xml(names, values.drop_last()) + if text.len() == 0 {
            Seq::empty()
        } else {
            attr_xml(names[k], text)
        }
    }
}

pub open spec fn row_xml(names: Seq<Seq<char>>, r: RowV) -> Seq<char> {
    "<ROW"@ + cells_xml(names, r.values) + "/>"@
}

pub open spec fn rows_xml(names: Seq<Seq<char>>, rows: Seq<RowV>) -> Seq<char>
    decreases rows.len(),
{
    if rows.len() == 0 {
        Seq::empty()
    } else {
        rows_xml(names, rows.drop_last()) + row_xml(names, rows.last())
    }
}

pub open spec fn xml_header() -> Seq<char> {
    "<?xml version=\"1.0\" encoding=\"UTF-8\" standalone=\"yes\"?>  "@
}

/// The XML text of a document.
pub open spec fn doc_xml(d: DocV) -> Seq<char> {
    xml_header() + d.frame + "<METADATA><FIELDS>"@ + fields_xml(d.fields) + "</FIELDS>"@ + d.params
        + "</METADATA><ROWDATA>"@ + rows_xml(names_of(d.fields), d.rows)
        + "</ROWDATA></DATAPACKET>"@
}

/// Appends `s` escaped for an attribute value.
pub fn escape_into(out: &mut Vec<char>, s: &[char])
    ensures
        final(out)@ == old(out)@ + escape_attr(s@),
{
    let mut i: usize = 0;
    while i < s.len()
        invariant
            i <= s@.len(),
            out@ == old(out)@ + escape_attr(s@.take(i as int)),
        decreases s@.len() - i,
    {
        let c = s[i];
        let ghost before = out@;
        if c == '&' {
            push_str(out, "&amp;");
        } else if c == '<' {
            push_str(out, "&lt;");
        } else if c == '>' {
            push_str(out, "&gt;");
        } else if c == '"' {
            push_str(out, "&quot;");
        } else if c == '\n' {
            push_str(out, "&#10;");
        } else if c == '\r' {
            push_str(out, "&#13;");
        } else if c == '\t' {
            push_str(out, "&#9;");
        } else {
            out.push(c);
        }
        proof {
            assert(s@.take(i + 1).drop_last() =~= s@.take(i as int));
            assert(out@ =~= before + escape_char(c));
            assert(out@ =~= old(out)@ + escape_attr(s@.take(i + 1)));
        }
        i = i + 1;
    }
    assert(s@.take(i as int) =~= s@);
}

fn attr_into(out: &mut Vec<char>, key: &[char], value: &[char])
    ensures
        final(out)@ == old(out)@ + attr_xml(key@, value@),
{
    out.push(' ');
    push_chars(out, key);
    out.push('=');
    out.push('"');
    escape_into(out, value);
    out.push('"');
    assert(out@ =~= old(out)@ + attr_xml(key@, value@));
}

fn field_into(out: &mut Vec<char>, f: &Field)
    ensures
        final(out)@ == old(out)@ + field_xml(f@),
{
    push_str(out, "<FIELD");
    let ghost start = out@;
    let mut k: usize = 0;
    while k < f.attrs.len()
        invariant
            k <= f.attrs@.len(),
            out@ == start + attrs_xml(f@.attrs.take(k as int)),
        decreases f.attrs@.len() - k,
    {
        let kc = chars_of(f.attrs[k].0.as_str());
        let vc = chars_of(f.attrs[k].1.as_str());
        attr_into(out, &kc, &vc);
        proof {
            assert(f@.attrs.take(k + 1).drop_last() =~= f@.attrs.take(k as int));
            assert(out@ =~= start + attrs_xml(f@.attrs.take(k + 1)));
        }
        k = k + 1;
    }
    assert(f@.attrs.take(k as int) =~= f@.attrs);
    push_str(out, "/>");
    assert(out@ =~= old(out)@ + field_xml(f@));
}

fn row_into(out: &mut Vec<char>, names: &Vec<Vec<char>>, r: &Row)
    requires
        names@.len() == r.values@.len(),
    ensures
        final(out)@ == old(out)@ + row_xml(names@.map_values(|n: Vec<char>| n@), r@),
{
    let ghost ns = names@.map_values(|n: Vec<char>| n@);
    push_str(out, "<ROW");
    let ghost start = out@;
    let mut k: usize = 0;
    while k < r.values.len()
        invariant
            k <= r.values@.len(),
            names@.len() == r.values@.len(),
            ns == names@.map_values(|n: Vec<char>| n@),
            out@ == start + cells_xml(ns, r@.values.take(k as int)),
        decreases r.values@.len() - k,
    {
        let ghost before = out@;
        let ghost vals = r@.values.take(k + 1);
        assert(vals.drop_last() =~= r@.values.take(k as int));
        match &r.values[k] {
            Some(v) => {
                let vc = chars_of(v.as_str());
                if vc.len() > 0 {
                    attr_into(out, &names[k], &vc);
                }
                assert(out@ =~= start + cells_xml(ns, vals));
            },
            None => {
                assert(out@ =~= start + cells_xml(ns, vals));
            },
        }
        k = k + 1;
    }
    assert(r@.values.take(k as int) =~= r@.values);
    push_str(out, "/>");
    assert(out@ =~= old(out)@ + row_xml(ns, r@));
}

impl XmlDoc {
    /// The document as XML text: the `DATAPACKET` tag read from the file, every
    /// `FIELD` with its attributes, the `PARAMS` section, and one `ROW` per
    /// row in display order with an attribute per non-empty cell.
    /// Column names are written as they are, as attribute names; a name with
    /// a space, a quote or markup gives an attribute that XML readers refuse.
    pub fn to_xml(&self) -> (r: String)
        requires
            self.wf(),
        ensures
            r@ == doc_xml(self@),
    {
        let ghost d = self@;
        let mut out: Vec<char> = Vec::new();
        push_str(&mut out, "<?xml version=\"1.0\" encoding=\"UTF-8\" standalone=\"yes\"?>  ");
        push_str(&mut out, self.frame_text());
        push_str(&mut out, "<METADATA><FIELDS>");
        let ghost s1 = out@;
        let fields = self.field_list();
        let mut i: usize = 0;
        while i < fields.len()
            invariant
                i <= fields@.len(),
                fields@.map_values(|f: Field| f@) == d.fields,
                out@ == s1 + fields_xml(d.fields.take(i as int)),
            decreases fields@.len() - i,
        {
            field_into(&mut out, &fields[i]);
            proof {
                assert(d.fields.take(i + 1).drop_last() =~= d.fields.take(i as int));
                assert(d.fields[i as int] == fields@[i as int]@);
                assert(out@ =~= s1 + fields_xml(d.fields.take(i + 1)));
            }
            i = i + 1;
        }
        assert(d.fields.take(i as int) =~= d.fields);
        push_str(&mut out, "</FIELDS>");
        push_str(&mut out, self.params_text());
        push_str(&mut out, "</METADATA><ROWDATA>");
        let mut names: Vec<Vec<char>> = Vec::new();
        let mut j: usize = 0;
        while j < fields.len()
            invariant
                j <= fields@.len(),
                fields@.map_values(|f: Field| f@) == d.fields,
                names@.map_values(|n: Vec<char>| n@) =~= names_of(d.fields).take(j as int),
            decreases fields@.len() - j,
        {
            let ghost prev = names@;
            let nc = chars_of(fields[j].name.as_str());
            let ghost ncv = nc@;
            names.push(nc);
            proof {
                assert(d.fields[j as int] == fields@[j as int]@);
                assert(names@.map_values(|n: Vec<char>| n@) =~= prev.map_values(|n: Vec<char>| n@).push(ncv));
            }
            j = j + 1;
        }
        assert(names_of(d.fields).take(j as int) =~= names_of(d.fields));
        let ghost ns = names_of(d.fields);
        let ghost s2 = out@;
        let rows = self.row_list();
        let mut k: usize = 0;
        while k < rows.len()
            invariant
                k <= rows@.len(),
                rows@.map_values(|r: Row| r@) == d.rows,
                names@.map_values(|n: Vec<char>| n@) == ns,
                ns.len() == d.fields.len(),
                forall|q: int| 0 <= q < d.rows.len() ==> (#[trigger] d.rows[q]).values.len() == d.fields.len(),
                out@ == s2 + rows_xml(ns, d.rows.take(k as int)),
            decreases rows@.len() - k,
        {
            proof {
                assert(d.rows[k as int] == rows@[k as int]@);
            }
            row_into(&mut out, &names, &rows[k]);
            proof {
                assert(d.rows.take(k + 1).drop_last() =~= d.rows.take(k as int));
                assert(out@ =~= s2 + rows_xml(ns, d.rows.take(k + 1)));
            }
            k = k + 1;
        }
        assert(d.rows.take(k as int) =~= d.rows);
        push_str(&mut out, "</ROWDATA></DATAPACKET>");
        assert(out@ =~= doc_xml(d));
        string_of(&out)
    }
}

} // verus!
