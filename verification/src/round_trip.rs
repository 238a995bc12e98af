//! What writing a document and reading it back keeps: attribute values
//! that a reader cannot alter, and the `<DATAPACKET ...>` tag and the
//! `<PARAMS>` section found again where they were written.

use vstd::prelude::*;
use crate::frame::{find_from, occurs_at, open_tag_of, params_of, ends_tag_name, find_tag, tag_at};
use crate::table::{
    DocV, FieldV, RowV, doc_wf, names_of, cell_text, attrname_of, usable_name, row_ok,
};
use crate::text::same_name;
use crate::xml_read::{
    doc_of, raw_text, BuildV, XmlAttrV, XmlEventV, attr_unescape, build, build_start, step,
    tag_step, unescape_all, field_from, row_values, first_named, read_events, parsed, table_ok,
    table_rows,
};
use vstd::utf8::encode_utf8;
use crate::xml_write::{
    xml_header, escape_char, escape_attr, attr_xml, attrs_xml, field_xml, fields_xml, doc_xml,
};

verus! {

/// No character of `s` is `c`.
pub open spec fn free_of(s: Seq<char>, c: char) -> bool {
    forall|j: int| 0 <= j < s.len() ==> #[trigger] s[j] != c
}

/// A text that stands inside a quoted attribute value unchanged by a
/// reader: no quote, no angle bracket, no line break or tab.
pub open spec fn plain_attr_text(s: Seq<char>) -> bool {
    &&& free_of(s, '"')
    &&& free_of(s, '<')
    &&& free_of(s, '>')
    &&& free_of(s, '\n')
    &&& free_of(s, '\r')
    &&& free_of(s, '\t')
}

/// Every `<` in `s` is followed, within `s`, by a character other than `c`.
pub open spec fn lt_not_before(s: Seq<char>, c: char) -> bool {
    forall|j: int| 0 <= j < s.len() && #[trigger] s[j] == '<' ==> j + 1 < s.len() && s[j + 1] != c
}

proof fn lemma_plain_concat(a: Seq<char>, b: Seq<char>)
    requires
        plain_attr_text(a),
        plain_attr_text(b),
    ensures
        plain_attr_text(a + b),
{
    assert forall|j: int| 0 <= j < (a + b).len() implies #[trigger] (a + b)[j] == (if j < a.len() {
        a[j]
    } else {
        b[j - a.len()]
    }) by {}
}

proof fn lemma_escape_char_plain(c: char)
    ensures
        plain_attr_text(escape_char(c)),
{
    reveal_strlit("&amp;");
    reveal_strlit("&lt;");
    reveal_strlit("&gt;");
    reveal_strlit("&quot;");
    reveal_strlit("&#10;");
    reveal_strlit("&#13;");
    reveal_strlit("&#9;");
}

/// An attribute value as written holds no quote, angle bracket, line break
/// or tab: reading it back cannot end it early or turn its line breaks into
/// spaces.
pub proof fn law_escaped_value_is_plain(s: Seq<char>)
    ensures
        plain_attr_text(escape_attr(s)),
    decreases s.len(),
{
    if s.len() > 0 {
        law_escaped_value_is_plain(s.drop_last());
        lemma_escape_char_plain(s.last());
        lemma_plain_concat(escape_attr(s.drop_last()), escape_char(s.last()));
    }
}

proof fn lemma_free_concat(a: Seq<char>, b: Seq<char>, c: char)
    requires
        free_of(a, c),
        free_of(b, c),
    ensures
        free_of(a + b, c),
{
    assert forall|j: int| 0 <= j < (a + b).len() implies #[trigger] (a + b)[j] != c by {
        if j < a.len() {
            assert((a + b)[j] == a[j]);
        } else {
            assert((a + b)[j] == b[j - a.len()]);
        }
    }
}

proof fn lemma_lt_concat(a: Seq<char>, b: Seq<char>, c: char)
    requires
        lt_not_before(a, c),
        lt_not_before(b, c),
    ensures
        lt_not_before(a + b, c),
{
    let s = a + b;
    assert forall|j: int| 0 <= j < s.len() && #[trigger] s[j] == '<' implies j + 1 < s.len() && s[j
        + 1] != c by {
        if j < a.len() {
            assert(s[j] == a[j]);
            assert(s[j + 1] == a[j + 1]);
        } else {
            assert(s[j] == b[j - a.len()]);
            assert(s[j + 1] == b[j + 1 - a.len()]);
        }
    }
}

proof fn lemma_free_lt(s: Seq<char>, c: char)
    requires
        free_of(s, '<'),
    ensures
        lt_not_before(s, c),
{
}

/// The attribute names of the columns hold no `<`.
pub open spec fn keys_without_lt(fields: Seq<FieldV>) -> bool {
    forall|i: int, k: int|
        0 <= i < fields.len() && 0 <= k < fields[i].attrs.len() ==> free_of(
            #[trigger] fields[i].attrs[k].0,
            '<',
        )
}

proof fn lemma_attrs_free(attrs: Seq<(Seq<char>, Seq<char>)>)
    requires
        forall|k: int| 0 <= k < attrs.len() ==> free_of(#[trigger] attrs[k].0, '<'),
    ensures
        free_of(attrs_xml(attrs), '<'),
    decreases attrs.len(),
{
    if attrs.len() > 0 {
        let p = attrs.drop_last();
        assert forall|k: int| 0 <= k < p.len() implies free_of(#[trigger] p[k].0, '<') by {
            assert(p[k] == attrs[k]);
        }
        lemma_attrs_free(p);
        let (key, v) = attrs.last();
        assert(free_of(key, '<'));
        law_escaped_value_is_plain(v);
        let a = seq![' '] + key + seq!['=', '"'] + escape_attr(v) + seq!['"'];
        lemma_free_concat(seq![' '], key, '<');
        lemma_free_concat(seq![' '] + key, seq!['=', '"'], '<');
        lemma_free_concat(seq![' '] + key + seq!['=', '"'], escape_attr(v), '<');
        lemma_free_concat(seq![' '] + key + seq!['=', '"'] + escape_attr(v), seq!['"'], '<');
        assert(attr_xml(key, v) == a);
        lemma_free_concat(attrs_xml(p), a, '<');
    }
}

proof fn lemma_fields_lt(fields: Seq<FieldV>)
    requires
        keys_without_lt(fields),
    ensures
        lt_not_before(fields_xml(fields), 'P'),
    decreases fields.len(),
{
    if fields.len() > 0 {
        let p = fields.drop_last();
        assert forall|i: int, k: int|
            0 <= i < p.len() && 0 <= k < p[i].attrs.len() implies free_of(
            #[trigger] p[i].attrs[k].0,
            '<',
        ) by {
            assert(p[i] == fields[i]);
        }
        lemma_fields_lt(p);
        let f = fields.last();
        assert forall|k: int| 0 <= k < f.attrs.len() implies free_of(#[trigger] f.attrs[k].0, '<') by {
            assert(fields[fields.len() - 1] == f);
        }
        lemma_attrs_free(f.attrs);
        reveal_strlit("<FIELD");
        reveal_strlit("/>");
        let head = "<FIELD"@;
        assert(lt_not_before(head, 'P'));
        lemma_free_lt(attrs_xml(f.attrs), 'P');
        lemma_free_lt("/>"@, 'P');
        lemma_lt_concat(head, attrs_xml(f.attrs), 'P');
        lemma_lt_concat(head + attrs_xml(f.attrs), "/>"@, 'P');
        lemma_lt_concat(fields_xml(p), field_xml(f), 'P');
    }
}

proof fn lemma_header_lt()
    ensures
        lt_not_before(xml_header(), 'D'),
        lt_not_before(xml_header(), 'P'),
{
    reveal_strlit("<?xml version=\"1.0\" encoding=\"UTF-8\" standalone=\"yes\"?>  ");
    let h = xml_header();
    assert(h.len() == 57);
    assert(h[1] == '?');
    assert(forall|j: int| 1 <= j < h.len() ==> #[trigger] h[j] != '<');
}

/// The search in `pre + t + post` from inside `t` finds what the search in
/// `t` finds.
proof fn lemma_find_inside(pre: Seq<char>, t: Seq<char>, post: Seq<char>, pat: Seq<char>, from: int)
    requires
        0 <= from,
        find_from(t, pat, from) is Some,
    ensures
        find_from(pre + t + post, pat, pre.len() as int + from) == Some(
            pre.len() as int + find_from(t, pat, from)->0,
        ),
    decreases t.len() + 1 - from,
{
    let s = pre + t + post;
    let e = find_from(t, pat, from)->0;
    assert(occurs_at(t, pat, from) ==> s.subrange(pre.len() + from, pre.len() + from + pat.len())
        =~= t.subrange(from, from + pat.len()));
    if occurs_at(t, pat, from) {
        assert(occurs_at(s, pat, pre.len() + from));
    } else {
        lemma_find_inside(pre, t, post, pat, from + 1);
        lemma_find_bound(t, pat, from + 1);
        if occurs_at(s, pat, pre.len() + from) {
            assert(s.subrange(pre.len() + from, pre.len() + from + pat.len()) =~= t.subrange(
                from,
                from + pat.len(),
            ));
        }
    }
}

proof fn lemma_find_bound(t: Seq<char>, pat: Seq<char>, from: int)
    ensures
        find_from(t, pat, from) matches Some(e) ==> from <= e && occurs_at(t, pat, e),
    decreases t.len() + 1 - from,
{
    if 0 <= from <= t.len() && !occurs_at(t, pat, from) {
        lemma_find_bound(t, pat, from + 1);
    }
}

/// No occurrence of a pattern that starts with `<` and then `c` begins in
/// the part `a` of `a + b` when every `<` of `a` is followed by another
/// character.
proof fn lemma_no_match_in(a: Seq<char>, b: Seq<char>, pat: Seq<char>, c: char)
    requires
        lt_not_before(a, c),
        pat.len() >= 2,
        pat[0] == '<',
        pat[1] == c,
    ensures
        forall|j: int| 0 <= j < a.len() ==> !occurs_at(#[trigger] (a + b), pat, j),
{
    assert forall|j: int| 0 <= j < a.len() implies !occurs_at(#[trigger] (a + b), pat, j) by {
        if occurs_at(a + b, pat, j) {
            let s = a + b;
            assert(s.subrange(j, j + pat.len())[0] == s[j]);
            assert(s.subrange(j, j + pat.len())[1] == s[j + 1]);
            assert(s[j] == a[j]);
            assert(j + 1 < a.len());
            assert(s[j + 1] == a[j + 1]);
        }
    }
}

/// The tag search from `from` finds `p` when no tag stands before it.
proof fn lemma_find_tag_at(s: Seq<char>, open: Seq<char>, from: int, p: int)
    requires
        0 <= from <= p,
        tag_at(s, open, p),
        forall|j: int| from <= j < p ==> !occurs_at(s, open, j),
    ensures
        find_tag(s, open, from) == Some(p),
    decreases p - from,
{
    if from < p {
        lemma_find_tag_at(s, open, from + 1, p);
    }
}

proof fn lemma_find_tag_bound(s: Seq<char>, open: Seq<char>, from: int)
    ensures
        find_tag(s, open, from) matches Some(e) ==> from <= e && tag_at(s, open, e),
    decreases s.len() + 1 - from,
{
    if 0 <= from <= s.len() && !tag_at(s, open, from) {
        lemma_find_tag_bound(s, open, from + 1);
    }
}

/// Where `open_tag_of` finds a tag that reads back as itself.
proof fn lemma_open_tag_self(t: Seq<char>)
    requires
        open_tag_of(t, "DATAPACKET"@) == Some(t),
    ensures
        t.len() >= 12,
        t.take(11) == "<DATAPACKET"@,
        ends_tag_name(t[11]),
        find_from(t, seq!['>'], 0) == Some(t.len() - 1),
{
    reveal_strlit("DATAPACKET");
    reveal_strlit("<DATAPACKET");
    let open = seq!['<'] + "DATAPACKET"@;
    assert(open =~= "<DATAPACKET"@);
    let start = find_tag(t, open, 0)->0;
    let end = find_from(t, seq!['>'], start)->0;
    lemma_find_tag_bound(t, open, 0);
    lemma_find_bound(t, seq!['>'], start);
    assert(t.subrange(start, end + 1).len() == t.len());
    assert(start == 0);
    assert(t.subrange(0, 11) =~= t.take(11));
}

/// The `<DATAPACKET ...>` tag of a document is read back from its text, when
/// it is a tag that reads back as itself.
pub proof fn law_frame_read_back(d: DocV)
    requires
        open_tag_of(d.frame, "DATAPACKET"@) == Some(d.frame),
    ensures
        open_tag_of(doc_xml(d), "DATAPACKET"@) == Some(d.frame),
{
    reveal_strlit("DATAPACKET");
    reveal_strlit("<DATAPACKET");
    let h = xml_header();
    let f = d.frame;
    let hl = h.len() as int;
    let fl = f.len() as int;
    let s = doc_xml(d);
    let rest = s.skip(hl + fl);
    assert(s =~= h + f + rest);
    lemma_open_tag_self(f);
    lemma_header_lt();
    let open = seq!['<'] + "DATAPACKET"@;
    assert(open =~= "<DATAPACKET"@);
    lemma_no_match_in(h, f + rest, open, 'D');
    assert(s =~= h + (f + rest));
    assert(occurs_at(s, open, hl)) by {
        assert(s.subrange(hl, hl + 11) =~= f.take(11));
    }
    assert(s[hl + 11] == f[11]);
    lemma_find_tag_at(s, open, 0, hl);
    lemma_find_inside(h, f, rest, seq!['>'], 0);
    assert(s.subrange(hl, hl + fl) =~= f);
}

/// Where `params_of` finds a section that reads back as itself.
proof fn lemma_params_self(p: Seq<char>)
    requires
        params_of(p) == Some(p),
    ensures
        p.len() > 7,
        p.take(7) == "<PARAMS"@,
        ends_tag_name(p[7]),
        find_from(p, seq!['>'], 0) matches Some(e) && 0 < e < p.len() && if p[e - 1] == '/' {
            e == p.len() - 1
        } else {
            find_from(p, "</PARAMS>"@, e) == Some(p.len() - 9)
        },
{
    reveal_strlit("<PARAMS");
    reveal_strlit("</PARAMS>");
    let open = "<PARAMS"@;
    let start = find_tag(p, open, 0)->0;
    let end = find_from(p, seq!['>'], start)->0;
    lemma_find_tag_bound(p, open, 0);
    lemma_find_bound(p, seq!['>'], start);
    if p[end - 1] == '/' {
        assert(p.subrange(start, end + 1).len() == p.len());
    } else {
        let close = find_from(p, "</PARAMS>"@, end)->0;
        lemma_find_bound(p, "</PARAMS>"@, end);
        assert(p.subrange(start, close + 9).len() == p.len());
    }
    assert(start == 0);
    assert(p.subrange(0, 7) =~= p.take(7));
    assert(p[0] == p.subrange(0, 7)[0]);
    assert(end != 0);
}

/// The `<PARAMS>` section of a document is read back from its text, when it
/// is a section that reads back as itself, its `DATAPACKET` tag holds no
/// `<P`, and no attribute name of its columns holds a `<`.
pub proof fn law_params_read_back(d: DocV)
    requires
        params_of(d.params) == Some(d.params),
        lt_not_before(d.frame, 'P'),
        keys_without_lt(d.fields),
    ensures
        params_of(doc_xml(d)) == Some(d.params),
{
    reveal_strlit("<PARAMS");
    reveal_strlit("</PARAMS>");
    reveal_strlit("<METADATA><FIELDS>");
    reveal_strlit("</FIELDS>");
    let h = xml_header();
    let m = "<METADATA><FIELDS>"@;
    let e = "</FIELDS>"@;
    let a = h + d.frame + m + fields_xml(d.fields) + e;
    let p = d.params;
    let al = a.len() as int;
    let pl = p.len() as int;
    let s = doc_xml(d);
    let b = s.skip(al + pl);
    assert(s =~= a + p + b);
    assert(s =~= a + (p + b));
    lemma_header_lt();
    assert(lt_not_before(m, 'P'));
    assert(lt_not_before(e, 'P'));
    lemma_fields_lt(d.fields);
    lemma_lt_concat(h, d.frame, 'P');
    lemma_lt_concat(h + d.frame, m, 'P');
    lemma_lt_concat(h + d.frame + m, fields_xml(d.fields), 'P');
    lemma_lt_concat(h + d.frame + m + fields_xml(d.fields), e, 'P');
    lemma_params_self(p);
    let open = "<PARAMS"@;
    lemma_no_match_in(a, p + b, open, 'P');
    assert(occurs_at(s, open, al)) by {
        assert(s.subrange(al, al + 7) =~= p.take(7));
    }
    assert(s[al + 7] == p[7]);
    lemma_find_tag_at(s, open, 0, al);
    lemma_find_inside(a, p, b, seq!['>'], 0);
    let end = find_from(p, seq!['>'], 0)->0;
    assert(s[al + end - 1] == p[end - 1]);
    if p[end - 1] == '/' {
        assert(s.subrange(al, al + end + 1) =~= p);
    } else {
        lemma_find_inside(a, p, b, "</PARAMS>"@, end);
        assert(s.subrange(al, al + pl - 9 + 9) =~= p);
    }
}

/// The search in `s[a..b]` finds what the search in `s` finds, when that
/// lies wholly inside.
proof fn lemma_find_within(s: Seq<char>, a: int, b: int, pat: Seq<char>, from: int)
    requires
        0 <= a <= b <= s.len(),
        0 <= from,
        find_from(s, pat, a + from) matches Some(x) && x + pat.len() <= b,
    ensures
        find_from(s.subrange(a, b), pat, from) == Some(find_from(s, pat, a + from)->0 - a),
    decreases b - a - from,
{
    let t = s.subrange(a, b);
    let x = find_from(s, pat, a + from)->0;
    lemma_find_bound(s, pat, a + from);
    if a + from == x {
        assert(t.subrange(from, from + pat.len()) =~= s.subrange(x, x + pat.len()));
    } else {
        assert(!occurs_at(s, pat, a + from));
        lemma_find_within(s, a, b, pat, from + 1);
        if occurs_at(t, pat, from) {
            assert(t.subrange(from, from + pat.len()) =~= s.subrange(a + from, a + from + pat.len()));
        }
    }
}

/// A `DATAPACKET` tag found in a text reads back as itself.
pub proof fn law_found_tag_reads_back(s: Seq<char>)
    requires
        open_tag_of(s, "DATAPACKET"@) is Some,
    ensures
        open_tag_of(open_tag_of(s, "DATAPACKET"@)->0, "DATAPACKET"@) == open_tag_of(s, "DATAPACKET"@),
{
    reveal_strlit("DATAPACKET");
    let open = seq!['<'] + "DATAPACKET"@;
    let start = find_tag(s, open, 0)->0;
    let end = find_from(s, seq!['>'], start)->0;
    lemma_find_tag_bound(s, open, 0);
    lemma_find_bound(s, seq!['>'], start);
    let t = s.subrange(start, end + 1);
    assert forall|j: int| start <= j < start + 11 implies s[j] != '>' by {
        assert(s.subrange(start, start + 11)[j - start] == s[j]);
    }
    if end < start + 11 {
        assert(s.subrange(end, end + 1)[0] == s[end]);
    }
    lemma_find_within(s, start, end + 1, seq!['>'], 0);
    assert(t[11] == s[start + 11]);
    assert(tag_at(t, open, 0)) by {
        assert(t.subrange(0, 11) =~= s.subrange(start, start + 11));
    }
    assert(t.subrange(0, end + 1 - start) =~= t);
}

/// A `PARAMS` section found in a text reads back as itself.
pub proof fn law_found_params_read_back(s: Seq<char>)
    requires
        params_of(s) is Some,
    ensures
        params_of(params_of(s)->0) == params_of(s),
{
    reveal_strlit("<PARAMS");
    reveal_strlit("</PARAMS>");
    let open = "<PARAMS"@;
    let start = find_tag(s, open, 0)->0;
    let end = find_from(s, seq!['>'], start)->0;
    lemma_find_tag_bound(s, open, 0);
    lemma_find_bound(s, seq!['>'], start);
    assert forall|j: int| start <= j < start + 7 implies s[j] != '>' by {
        assert(s.subrange(start, start + 7)[j - start] == s[j]);
    }
    if end < start + 7 {
        assert(s.subrange(end, end + 1)[0] == s[end]);
    }
    let stop = if s[end - 1] == '/' {
        end + 1
    } else {
        find_from(s, "</PARAMS>"@, end)->0 + 9
    };
    if s[end - 1] != '/' {
        lemma_find_bound(s, "</PARAMS>"@, end);
        lemma_find_within(s, start, stop, "</PARAMS>"@, end - start);
    }
    let t = s.subrange(start, stop);
    assert(t == params_of(s)->0);
    lemma_find_within(s, start, stop, seq!['>'], 0);
    assert(t[7] == s[start + 7]);
    assert(tag_at(t, open, 0)) by {
        assert(t.subrange(0, 7) =~= s.subrange(start, start + 7));
    }
    assert(t[end - start - 1] == s[end - 1]);
    assert(t.subrange(0, stop - start) =~= t);
}

/// Writing a document and reading the bytes back keeps its `DATAPACKET` tag
/// and its `PARAMS` section, whatever else the reader gathers, when the tag
/// and the section read back as themselves, the tag holds no `<P`, and no
/// attribute name of its columns holds a `<`.
pub proof fn law_reopen_keeps_frame(d: DocV, st: BuildV)
    requires
        open_tag_of(d.frame, "DATAPACKET"@) == Some(d.frame),
        params_of(d.params) == Some(d.params),
        lt_not_before(d.frame, 'P'),
        keys_without_lt(d.fields),
    ensures
        doc_of(encode_utf8(doc_xml(d)), st).frame == d.frame,
        doc_of(encode_utf8(doc_xml(d)), st).params == d.params,
{
    broadcast use vstd::utf8::encode_utf8_valid_utf8, vstd::utf8::encode_utf8_decode_utf8;

    assert(raw_text(encode_utf8(doc_xml(d))) == doc_xml(d));
    law_frame_read_back(d);
    law_params_read_back(d);
}

// ------------------------------------------- the events of a written text

/// The attributes of a `FIELD` as a reader meets them in the written text:
/// each name with its value escaped, as UTF-8 bytes.
pub open spec fn written_attrs(attrs: Seq<(Seq<char>, Seq<char>)>) -> Seq<XmlAttrV> {
    attrs.map_values(
        |p: (Seq<char>, Seq<char>)| XmlAttrV { key: p.0, raw: encode_utf8(escape_attr(p.1)) },
    )
}

/// The attributes of a `ROW` as a reader meets them in the written text: one
/// per non-empty cell, named after its column.
pub open spec fn written_cells(names: Seq<Seq<char>>, values: Seq<Option<Seq<char>>>) -> Seq<XmlAttrV>
    decreases values.len(),
{
    if values.len() == 0 {
        Seq::empty()
    } else {
        let k = values.len() - 1;
        let t = cell_text(values[k]);
        written_cells(names, values.drop_last()) + if t.len() == 0 {
            Seq::<XmlAttrV>::empty()
        } else {
            seq![XmlAttrV { key: names[k], raw: encode_utf8(escape_attr(t)) }]
        }
    }
}

pub open spec fn field_events(fields: Seq<FieldV>) -> Seq<XmlEventV> {
    fields.map_values(|f: FieldV| XmlEventV::Empty("FIELD"@, written_attrs(f.attrs)))
}

pub open spec fn row_events(names: Seq<Seq<char>>, rows: Seq<RowV>) -> Seq<XmlEventV> {
    rows.map_values(|r: RowV| XmlEventV::Empty("ROW"@, written_cells(names, r.values)))
}

/// An event that gathers nothing: no `FIELDS`, `FIELD` or `ROW` tag.
pub open spec fn inert(ev: XmlEventV) -> bool {
    match ev {
        XmlEventV::Start(n, _) => n != "FIELDS"@ && n != "FIELD"@ && n != "ROW"@,
        XmlEventV::Empty(n, _) => n != "FIELDS"@ && n != "FIELD"@ && n != "ROW"@,
        XmlEventV::End(n) => n != "FIELDS"@,
        _ => true,
    }
}

pub open spec fn all_inert(evs: Seq<XmlEventV>) -> bool {
    forall|i: int| 0 <= i < evs.len() ==> inert(#[trigger] evs[i])
}

/// The events a reader yields for the text of `d`: the columns' `FIELD`s
/// inside `FIELDS`, then one `ROW` per row, with events that gather nothing
/// around them.
pub open spec fn events_of_text(
    d: DocV,
    before: Seq<XmlEventV>,
    between: Seq<XmlEventV>,
    after: Seq<XmlEventV>,
) -> Seq<XmlEventV> {
    before + seq![XmlEventV::Start("FIELDS"@, Seq::empty())] + field_events(d.fields) + seq![
        XmlEventV::End("FIELDS"@),
    ] + between + row_events(names_of(d.fields), d.rows) + after
}

/// A cell as read back: empty texts are not written, so they come back
/// absent.
pub open spec fn reread_value(v: Option<Seq<char>>) -> Option<Seq<char>> {
    if cell_text(v).len() == 0 {
        None
    } else {
        Some(cell_text(v))
    }
}

/// The document read back from the text of `d`: the same columns, tag and
/// section, its rows in order numbered from 1, empty cells absent.
pub open spec fn reread(d: DocV) -> DocV {
    DocV {
        fields: d.fields,
        rows: Seq::new(
            d.rows.len(),
            |k: int| RowV { rowid: k + 1, values: d.rows[k].values.map_values(|v: Option<Seq<char>>| reread_value(v)) },
        ),
        frame: d.frame,
        params: d.params,
    }
}

/// Building from a given state.
pub open spec fn run(st: BuildV, evs: Seq<XmlEventV>) -> Option<BuildV>
    decreases evs.len(),
{
    if evs.len() == 0 {
        Some(st)
    } else {
        match run(st, evs.drop_last()) {
            None => None,
            Some(s) => step(s, evs.last()),
        }
    }
}

proof fn lemma_build_is_run(evs: Seq<XmlEventV>)
    ensures
        build(evs) == run(build_start(), evs),
    decreases evs.len(),
{
    if evs.len() > 0 {
        lemma_build_is_run(evs.drop_last());
    }
}

proof fn lemma_run_concat(st: BuildV, a: Seq<XmlEventV>, b: Seq<XmlEventV>)
    ensures
        run(st, a + b) == (match run(st, a) {
            None => None,
            Some(s) => run(s, b),
        }),
    decreases b.len(),
{
    if b.len() == 0 {
        assert(a + b =~= a);
    } else {
        assert((a + b).drop_last() =~= a + b.drop_last());
        assert((a + b).last() == b.last());
        lemma_run_concat(st, a, b.drop_last());
    }
}

proof fn lemma_run_inert(st: BuildV, a: Seq<XmlEventV>)
    requires
        all_inert(a),
    ensures
        run(st, a) == Some(st),
    decreases a.len(),
{
    if a.len() > 0 {
        assert(all_inert(a.drop_last())) by {
            assert forall|i: int| 0 <= i < a.drop_last().len() implies inert(
                #[trigger] a.drop_last()[i],
            ) by {
                assert(a.drop_last()[i] == a[i]);
            }
        }
        lemma_run_inert(st, a.drop_last());
        assert(inert(a[a.len() - 1]));
        let ev = a.last();
        match ev {
            XmlEventV::Start(n, at) => {
                assert(n != "FIELDS"@);
                assert(tag_step(st, n, at) == Some(st));
            },
            XmlEventV::Empty(n, at) => {
                assert(tag_step(st, n, at) == Some(st));
            },
            _ => {},
        }
    }
}

/// Every attribute value written unescapes back.
pub open spec fn unescape_inverts_escape() -> bool {
    forall|v: Seq<char>| #[trigger] attr_unescape(encode_utf8(escape_attr(v))) == Some(v)
}

proof fn lemma_unescape_written(attrs: Seq<(Seq<char>, Seq<char>)>)
    requires
        unescape_inverts_escape(),
    ensures
        unescape_all(written_attrs(attrs)) == Some(attrs),
    decreases attrs.len(),
{
    if attrs.len() > 0 {
        lemma_unescape_written(attrs.drop_last());
        assert(written_attrs(attrs).drop_last() =~= written_attrs(attrs.drop_last()));
        let v = attrs.last().1;
        assert(attr_unescape(encode_utf8(escape_attr(v))) == Some(v));
        assert(attrs.drop_last().push((attrs.last().0, v)) =~= attrs);
    }
}

/// The columns of a valid document, each a `FIELD` that names itself.
proof fn lemma_run_fields(st: BuildV, fields: Seq<FieldV>)
    requires
        st.in_fields,
        unescape_inverts_escape(),
        forall|i: int|
            0 <= i < fields.len() ==> (#[trigger] fields[i]).name.len() > 0 && attrname_of(
                fields[i].attrs,
            ) == Some(fields[i].name),
    ensures
        run(st, field_events(fields)) == Some(BuildV { fields: st.fields + fields, ..st }),
    decreases fields.len(),
{
    if fields.len() == 0 {
        assert(st.fields + fields =~= st.fields);
        assert(BuildV { fields: st.fields + fields, ..st } == st);
    } else {
        let p = fields.drop_last();
        assert(field_events(fields).drop_last() =~= field_events(p));
        assert forall|i: int| 0 <= i < p.len() implies (#[trigger] p[i]).name.len() > 0 && attrname_of(
            p[i].attrs,
        ) == Some(p[i].name) by {
            assert(p[i] == fields[i]);
        }
        lemma_run_fields(st, p);
        let f = fields.last();
        assert(fields[fields.len() - 1] == f);
        lemma_unescape_written(f.attrs);
        let mid = BuildV { fields: st.fields + p, ..st };
        reveal_strlit("FIELD");
        reveal_strlit("FIELDS");
        assert(field_events(fields).last() == XmlEventV::Empty("FIELD"@, written_attrs(f.attrs)));
        assert(field_from(f.attrs) == Some(FieldV { name: f.name, attrs: f.attrs }));
        assert((st.fields + p).push(f) =~= st.fields + fields);
    }
}

/// Column `k` is the first one named exactly as it is, in a valid document.
proof fn lemma_first_named_at(fields: Seq<FieldV>, k: int, j: int)
    requires
        0 <= j <= k < fields.len(),
        forall|a: int, b: int|
            #![trigger fields[a], fields[b]]
            0 <= a < b < fields.len() ==> !same_name(fields[a].name, fields[b].name),
    ensures
        first_named(fields, fields[k].name, j) == Some(k),
    decreases k - j,
{
    if j < k {
        if fields[j].name == fields[k].name {
            assert(same_name(fields[j].name, fields[k].name));
        }
        lemma_first_named_at(fields, k, j + 1);
    }
}

/// What the reader gathers from the first `m` cells of a written row.
proof fn lemma_row_values_written(fields: Seq<FieldV>, values: Seq<Option<Seq<char>>>, m: int)
    requires
        unescape_inverts_escape(),
        values.len() == fields.len(),
        0 <= m <= values.len(),
        forall|a: int, b: int|
            #![trigger fields[a], fields[b]]
            0 <= a < b < fields.len() ==> !same_name(fields[a].name, fields[b].name),
    ensures
        row_values(fields, written_cells(names_of(fields), values.take(m))) == Some(
            Seq::new(
                fields.len(),
                |i: int|
                    if i < m {
                        reread_value(values[i])
                    } else {
                        None
                    },
            ),
        ),
    decreases m,
{
    let names = names_of(fields);
    let target = Seq::new(fields.len(), |i: int| if i < m { reread_value(values[i]) } else { None });
    if m == 0 {
        assert(written_cells(names, values.take(0)) =~= Seq::<XmlAttrV>::empty());
        assert(Seq::new(fields.len(), |i: int| None::<Seq<char>>) =~= target);
    } else {
        lemma_row_values_written(fields, values, m - 1);
        let prev = Seq::new(fields.len(), |i: int| if i < m - 1 { reread_value(values[i]) } else { None });
        let vm = values.take(m);
        assert(vm.drop_last() =~= values.take(m - 1));
        assert(vm[m - 1] == values[m - 1]);
        let t = cell_text(values[m - 1]);
        let w = written_cells(names, vm);
        assert(w == written_cells(names, values.take(m - 1)) + if t.len() == 0 {
            Seq::<XmlAttrV>::empty()
        } else {
            seq![XmlAttrV { key: names[m - 1], raw: encode_utf8(escape_attr(t)) }]
        });
        if t.len() == 0 {
            assert(w =~= written_cells(names, values.take(m - 1)));
            assert(prev =~= target);
        } else {
            let x = XmlAttrV { key: names[m - 1], raw: encode_utf8(escape_attr(t)) };
            assert(w.drop_last() =~= written_cells(names, values.take(m - 1)));
            assert(w.last() == x);
            assert(names[m - 1] == fields[m - 1].name);
            lemma_first_named_at(fields, m - 1, 0);
            assert(attr_unescape(encode_utf8(escape_attr(t))) == Some(t));
            assert(prev.update(m - 1, Some(t)) =~= target);
        }
    }
}

/// The rows of a valid document, each a `ROW` with its non-empty cells.
proof fn lemma_run_rows(st: BuildV, rows: Seq<RowV>)
    requires
        unescape_inverts_escape(),
        !st.in_fields,
        !st.late,
        st.fields.len() > 0,
        st.width is None || st.width == Some(st.fields.len()),
        forall|a: int, b: int|
            #![trigger st.fields[a], st.fields[b]]
            0 <= a < b < st.fields.len() ==> !same_name(st.fields[a].name, st.fields[b].name),
        forall|k: int| 0 <= k < rows.len() ==> (#[trigger] rows[k]).values.len() == st.fields.len(),
    ensures
        run(st, row_events(names_of(st.fields), rows)) == Some(
            BuildV {
                width: if rows.len() > 0 {
                    Some(st.fields.len())
                } else {
                    st.width
                },
                rows: st.rows + rows.map_values(
                    |r: RowV| r.values.map_values(|v: Option<Seq<char>>| reread_value(v)),
                ),
                ..st
            },
        ),
    decreases rows.len(),
{
    let names = names_of(st.fields);
    let conv = |r: RowV| r.values.map_values(|v: Option<Seq<char>>| reread_value(v));
    if rows.len() == 0 {
        assert(st.rows + rows.map_values(conv) =~= st.rows);
        assert(BuildV { width: st.width, rows: st.rows + rows.map_values(conv), ..st } == st);
    } else {
        let p = rows.drop_last();
        assert(row_events(names, rows).drop_last() =~= row_events(names, p));
        assert forall|k: int| 0 <= k < p.len() implies (#[trigger] p[k]).values.len() == st.fields.len() by {
            assert(p[k] == rows[k]);
        }
        lemma_run_rows(st, p);
        let r = rows.last();
        assert(rows[rows.len() - 1] == r);
        reveal_strlit("ROW");
        reveal_strlit("FIELD");
        reveal_strlit("FIELDS");
        assert(row_events(names, rows).last() == XmlEventV::Empty("ROW"@, written_cells(names, r.values)));
        lemma_row_values_written(st.fields, r.values, r.values.len() as int);
        assert(r.values.take(r.values.len() as int) =~= r.values);
        assert(Seq::new(
            st.fields.len(),
            |i: int| if i < r.values.len() { reread_value(r.values[i]) } else { None },
        ) =~= conv(r));
        assert((st.rows + p.map_values(conv)).push(conv(r)) =~= st.rows + rows.map_values(conv));
    }
}

/// Writing a valid document and reading the bytes back gives the document
/// again (its rows numbered from 1 in order, its empty cells absent), when
/// the reader yields the `FIELD`s and `ROW`s that the text spells out with
/// events around them that gather nothing, and every written value
/// unescapes to itself; and its tag and `PARAMS` section come back when they
/// read back as themselves, the tag holds no `<P`, and no attribute name of
/// a column holds a `<`.
pub proof fn law_reopen_gives_back(
    d: DocV,
    before: Seq<XmlEventV>,
    between: Seq<XmlEventV>,
    after: Seq<XmlEventV>,
)
    requires
        doc_wf(d),
        all_inert(before),
        all_inert(between),
        all_inert(after),
        read_events(encode_utf8(doc_xml(d))) == Some(events_of_text(d, before, between, after)),
        unescape_inverts_escape(),
        open_tag_of(d.frame, "DATAPACKET"@) == Some(d.frame),
        params_of(d.params) == Some(d.params),
        lt_not_before(d.frame, 'P'),
        keys_without_lt(d.fields),
    ensures
        parsed(encode_utf8(doc_xml(d))) matches Some(st) && st.fields.len() > 0 && table_ok(st)
            && st.rows.len() < i64::MAX && doc_of(encode_utf8(doc_xml(d)), st) == reread(d),
{
    reveal_strlit("FIELDS");
    let input = encode_utf8(doc_xml(d));
    let evs = events_of_text(d, before, between, after);
    let s0 = build_start();
    let open = seq![XmlEventV::Start("FIELDS"@, Seq::empty())];
    let close = seq![XmlEventV::End("FIELDS"@)];
    let fe = field_events(d.fields);
    let re = row_events(names_of(d.fields), d.rows);
    lemma_build_is_run(evs);
    // before
    lemma_run_inert(s0, before);
    // FIELDS
    lemma_run_concat(s0, before, open);
    let s1 = BuildV { in_fields: true, ..s0 };
    assert(open.drop_last() =~= Seq::<XmlEventV>::empty());
    assert(run(s0, open.drop_last()) == Some(s0));
    assert(run(s0, open) == Some(s1));
    // the FIELDs
    assert forall|i: int| 0 <= i < d.fields.len() implies (#[trigger] d.fields[i]).name.len() > 0
        && attrname_of(d.fields[i].attrs) == Some(d.fields[i].name) by {
        assert(crate::table::field_ok(d.fields[i]));
    }
    lemma_run_fields(s1, d.fields);
    assert(s1.fields + d.fields =~= d.fields);
    let s2 = BuildV { fields: d.fields, ..s1 };
    lemma_run_concat(s0, before + open, fe);
    // /FIELDS
    let s3 = BuildV { in_fields: false, ..s2 };
    assert(close.drop_last() =~= Seq::<XmlEventV>::empty());
    assert(run(s2, close.drop_last()) == Some(s2));
    assert(run(s2, close) == Some(s3));
    lemma_run_concat(s0, before + open + fe, close);
    // between
    lemma_run_inert(s3, between);
    lemma_run_concat(s0, before + open + fe + close, between);
    // the ROWs
    assert forall|k: int| 0 <= k < d.rows.len() implies (#[trigger] d.rows[k]).values.len()
        == s3.fields.len() by {
        assert(row_ok(d.rows[k], d.fields.len()));
    }
    lemma_run_rows(s3, d.rows);
    let conv = |r: RowV| r.values.map_values(|v: Option<Seq<char>>| reread_value(v));
    let s4 = BuildV {
        width: if d.rows.len() > 0 {
            Some(s3.fields.len())
        } else {
            s3.width
        },
        rows: s3.rows + d.rows.map_values(conv),
        ..s3
    };
    lemma_run_concat(s0, before + open + fe + close + between, re);
    // after
    lemma_run_inert(s4, after);
    lemma_run_concat(s0, before + open + fe + close + between + re, after);
    assert(build(evs) == Some(s4));
    assert(parsed(input) == Some(s4));
    // the table
    assert(s3.rows =~= Seq::<Seq<Option<Seq<char>>>>::empty());
    assert(s4.rows =~= d.rows.map_values(conv));
    assert forall|i: int| 0 <= i < s4.fields.len() implies usable_name(#[trigger] s4.fields[i].name) by {
        assert(crate::table::field_ok(d.fields[i]));
    }
    assert(table_ok(s4));
    law_reopen_keeps_frame(d, s4);
    assert(table_rows(s4) =~= reread(d).rows);
    assert(doc_of(input, s4) =~~= reread(d));
}

} // verus!
