//! Reading a `DATAPACKET` document: the XML reader yields events, and the
//! events are turned into columns and rows.

use vstd::prelude::*;
use vstd::utf8::{valid_utf8, decode_utf8};
use crate::chars::{chars_of, chars_eq, string_of};
use crate::frame::{open_tag_of, params_of, open_tag_exec, params_exec};
use crate::table::{FieldV, RowV, DocV, field_ok, usable_name, attrname_of, ord_column};
use crate::text::{same_name, same_name_chars};
use crate::xmldoc::{XmlDoc, Field, Row, DocError};
use quick_xml::events::{BytesStart, Event};

verus! {

#[verifier::external_type_specification]
#[verifier::external_body]
#[verifier::reject_recursive_types(R)]
pub struct ExReader<R>(quick_xml::reader::Reader<R>);

/// An attribute as read: its name and its raw (still escaped) value.
pub struct XmlAttr {
    pub key: String,
    pub raw: Vec<u8>,
}

pub struct XmlAttrV {
    pub key: Seq<char>,
    pub raw: Seq<u8>,
}

impl View for XmlAttr {
    type V = XmlAttrV;

    open spec fn view(&self) -> XmlAttrV {
        XmlAttrV { key: self.key@, raw: self.raw@ }
    }
}

/// An event of the XML reader, as far as documents need it.
pub enum XmlEvent {
    Start(String, Vec<XmlAttr>),
    Empty(String, Vec<XmlAttr>),
    End(String),
    Eof,
    Other,
}

pub enum XmlEventV {
    Start(Seq<char>, Seq<XmlAttrV>),
    Empty(Seq<char>, Seq<XmlAttrV>),
    End(Seq<char>),
    Eof,
    Other,
}

impl View for XmlEvent {
    type V = XmlEventV;

    open spec fn view(&self) -> XmlEventV {
        match self {
            XmlEvent::Start(n, a) => XmlEventV::Start(n@, a@.map_values(|x: XmlAttr| x@)),
            XmlEvent::Empty(n, a) => XmlEventV::Empty(n@, a@.map_values(|x: XmlAttr| x@)),
            XmlEvent::End(n) => XmlEventV::End(n@),
            XmlEvent::Eof => XmlEventV::Eof,
            XmlEvent::Other => XmlEventV::Other,
        }
    }
}

/// The event the XML reader yields at position `index` of the stream it
/// reads from `input` (`None` when it reports an error there).
pub uninterp spec fn xml_event_at(input: Seq<u8>, index: nat) -> Option<XmlEventV>;

/// The text of a raw attribute value once decoded as UTF-8 and its
/// references replaced (`None` when that fails).
pub uninterp spec fn attr_unescape(raw: Seq<u8>) -> Option<Seq<char>>;

/// A reader over `input` that has yielded `count` events.
pub struct XmlCursor<'a> {
    reader: quick_xml::reader::Reader<&'a [u8]>,
    pub input: Ghost<Seq<u8>>,
    pub count: Ghost<nat>,
}

/// A reader over `input`, text kept untrimmed.
///
/// Trusted: `quick_xml::reader::Reader::from_reader` and
/// `Config::trim_text(false)`; the reader starts at the first event of
/// `input`.
#[verifier::external_body]
fn xml_cursor<'a>(input: &'a [u8]) -> (c: XmlCursor<'a>)
    ensures
        c.input@ == input@,
        c.count@ == 0,
{
    let mut reader = quick_xml::reader::Reader::from_reader(input);
    reader.config_mut().trim_text(false);
    XmlCursor { reader, input: Ghost(input@), count: Ghost(0) }
}

/// The next event, its names read as UTF-8 (lossily) and its well-formed
/// attributes listed with their raw values. The cursor's `count` (ghost)
/// counts the events read.
///
/// Trusted: `quick_xml::reader::Reader::read_event`, `BytesStart::name`,
/// `BytesStart::attributes` (malformed attributes skipped, as `flatten`
/// does), `BytesEnd::name`; the event is the one at the cursor's position
/// in the stream of events of its input.
#[verifier::external_body]
fn next_event<'a>(c: &mut XmlCursor<'a>) -> (r: Result<XmlEvent, String>)
    ensures
        final(c).input == old(c).input,
        final(c).count@ == old(c).count@ + 1,
        match r {
            Ok(e) => xml_event_at(old(c).input@, old(c).count@) == Some(e@),
            Err(_) => xml_event_at(old(c).input@, old(c).count@) is None,
        },
{
    let lossy = |b: &[u8]| String::from_utf8_lossy(b).into_owned();
    let attrs = |e: &BytesStart| e.attributes().flatten().map(|a| XmlAttr { key: lossy(a.key.0), raw: a.value.into_owned() }).collect();
    Ok(match c.reader.read_event().map_err(|e| e.to_string())? {
        Event::Start(e) => XmlEvent::Start(lossy(e.name().0), attrs(&e)),
        Event::Empty(e) => XmlEvent::Empty(lossy(e.name().0), attrs(&e)),
        Event::End(e) => XmlEvent::End(lossy(e.name().0)),
        Event::Eof => XmlEvent::Eof,
        _ => XmlEvent::Other,
    })
}

/// Decodes and unescapes a raw attribute value.
///
/// Trusted: `quick_xml::events::attributes::Attribute::unescape_value`.
#[verifier::external_body]
fn unescape_value(raw: &[u8]) -> (r: Result<String, String>)
    ensures
        match r {
            Ok(s) => attr_unescape(raw@) == Some(s@),
            Err(_) => attr_unescape(raw@) is None,
        },
{
    let a = quick_xml::events::attributes::Attribute::from((&b""[..], raw));
    a.unescape_value().map(|v| v.into_owned()).map_err(|e| e.to_string())
}

/// The text of `bytes` if they are valid UTF-8.
///
/// Trusted: `std::str::from_utf8`, which accepts exactly valid UTF-8.
#[verifier::external_body]
fn utf8_text(bytes: &[u8]) -> (r: Option<&str>)
    ensures
        match r {
            Some(s) => valid_utf8(bytes@) && s@ == decode_utf8(bytes@),
            None => !valid_utf8(bytes@),
        },
{
    std::str::from_utf8(bytes).ok()
}

// ------------------------------------------------------------- the stream

/// The number of events before the end of the stream, if the reader yields
/// the end without an error within one event per input byte.
pub open spec fn stream_len(input: Seq<u8>, k: nat) -> Option<nat>
    decreases input.len() + 1 - k,
{
    if k > input.len() {
        None
    } else {
        match xml_event_at(input, k) {
            None => None,
            Some(XmlEventV::Eof) => Some(k),
            Some(_) => stream_len(input, k + 1),
        }
    }
}

/// The events of `input` before the end, if it is read without error.
pub open spec fn read_events(input: Seq<u8>) -> Option<Seq<XmlEventV>> {
    match stream_len(input, 0) {
        None => None,
        Some(n) => Some(Seq::new(n, |i: int| xml_event_at(input, i as nat)->0)),
    }
}

// ---------------------------------------------------------- the building

/// What has been gathered from the events read so far.
#[verifier::ext_equal]
pub struct BuildV {
    pub in_fields: bool,
    pub fields: Seq<FieldV>,
    /// The number of columns when the first row was met.
    pub width: Option<nat>,
    /// Whether a row was met while the columns differed from that number.
    pub late: bool,
    pub rows: Seq<Seq<Option<Seq<char>>>>,
}

pub open spec fn build_start() -> BuildV {
    BuildV { in_fields: false, fields: Seq::empty(), width: None, late: false, rows: Seq::empty() }
}

/// The attributes with their values unescaped, if every one unescapes.
pub open spec fn unescape_all(attrs: Seq<XmlAttrV>) -> Option<Seq<(Seq<char>, Seq<char>)>>
    decreases attrs.len(),
{
    if attrs.len() == 0 {
        Some(Seq::empty())
    } else {
        match unescape_all(attrs.drop_last()) {
            None => None,
            Some(p) => match attr_unescape(attrs.last().raw) {
                None => None,
                Some(v) => Some(p.push((attrs.last().key, v))),
            },
        }
    }
}

/// The column a `FIELD` declares: named by its last `attrname`, if not empty.
pub open spec fn field_from(attrs: Seq<(Seq<char>, Seq<char>)>) -> Option<FieldV> {
    match attrname_of(attrs) {
        Some(n) => if n.len() > 0 {
            Some(FieldV { name: n, attrs: attrs })
        } else {
            None
        },
        None => None,
    }
}

/// The first column at or after `i` named exactly `key`.
pub open spec fn first_named(fields: Seq<FieldV>, key: Seq<char>, i: int) -> Option<int>
    decreases fields.len() - i,
{
    if i < 0 || i >= fields.len() {
        None
    } else if fields[i].name == key {
        Some(i)
    } else {
        first_named(fields, key, i + 1)
    }
}

/// The cells of a `ROW`: its attributes named like a column, unescaped.
pub open spec fn row_values(fields: Seq<FieldV>, attrs: Seq<XmlAttrV>) -> Option<Seq<Option<Seq<char>>>>
    decreases attrs.len(),
{
    if attrs.len() == 0 {
        Some(Seq::new(fields.len(), |i: int| None))
    } else {
        match row_values(fields, attrs.drop_last()) {
            None => None,
            Some(v) => match first_named(fields, attrs.last().key, 0) {
                None => Some(v),
                Some(idx) => match attr_unescape(attrs.last().raw) {
                    None => None,
                    Some(t) => Some(v.update(idx, Some(t))),
                },
            },
        }
    }
}

pub open spec fn tag_step(st: BuildV, name: Seq<char>, attrs: Seq<XmlAttrV>) -> Option<BuildV> {
    if st.in_fields && name == "FIELD"@ {
        match unescape_all(attrs) {
            None => None,
            Some(p) => match field_from(p) {
                Some(f) => Some(BuildV { fields: st.fields.push(f), ..st }),
                None => Some(st),
            },
        }
    } else if name == "ROW"@ {
        let width = match st.width {
            Some(w) => w,
            None => st.fields.len(),
        };
        match row_values(st.fields, attrs) {
            None => None,
            Some(v) => Some(
                BuildV {
                    width: Some(width),
                    late: st.late || st.fields.len() != width,
                    rows: st.rows.push(v),
                    ..st
                },
            ),
        }
    } else {
        Some(st)
    }
}

pub open spec fn step(st: BuildV, ev: XmlEventV) -> Option<BuildV> {
    match ev {
        XmlEventV::Start(n, a) => if n == "FIELDS"@ {
            Some(BuildV { in_fields: true, ..st })
        } else {
            tag_step(st, n, a)
        },
        XmlEventV::Empty(n, a) => tag_step(st, n, a),
        XmlEventV::End(n) => if n == "FIELDS"@ {
            Some(BuildV { in_fields: false, ..st })
        } else {
            Some(st)
        },
        _ => Some(st),
    }
}

/// What the events gather, or `None` if a value fails to unescape.
pub open spec fn build(events: Seq<XmlEventV>) -> Option<BuildV>
    decreases events.len(),
{
    if events.len() == 0 {
        Some(build_start())
    } else {
        match build(events.drop_last()) {
            None => None,
            Some(st) => step(st, events.last()),
        }
    }
}

/// Whether the gathered columns make a table: at least one column, names
/// that SQL can hold and tell apart, and every row met under the final set
/// of columns.
pub open spec fn table_ok(st: BuildV) -> bool {
    &&& st.fields.len() > 0
    &&& !st.late
    &&& (st.width matches Some(w) ==> w == st.fields.len())
    &&& forall|i: int| 0 <= i < st.fields.len() ==> usable_name(#[trigger] st.fields[i].name)
    &&& forall|i: int, j: int|
        #![trigger st.fields[i], st.fields[j]]
        0 <= i < j < st.fields.len() ==> !same_name(st.fields[i].name, st.fields[j].name)
    &&& st.fields.len() < i64::MAX
}

/// The rows of the table, numbered from 1 in reading order.
pub open spec fn table_rows(st: BuildV) -> Seq<RowV> {
    Seq::new(st.rows.len(), |k: int| RowV { rowid: k + 1, values: st.rows[k] })
}

/// What the reader gathers from `input`, or `None` when the reader or an
/// unescape fails.
pub open spec fn parsed(input: Seq<u8>) -> Option<BuildV> {
    match read_events(input) {
        None => None,
        Some(evs) => build(evs),
    }
}

pub open spec fn default_frame() -> Seq<char> {
    "<DATAPACKET Version=\"2.0\">"@
}

pub open spec fn default_params() -> Seq<char> {
    "<PARAMS/>"@
}

/// The text of the input (empty when it is not valid UTF-8).
pub open spec fn raw_text(input: Seq<u8>) -> Seq<char> {
    if valid_utf8(input) {
        decode_utf8(input)
    } else {
        Seq::empty()
    }
}

/// The document that `input` holds, when it holds a table.
pub open spec fn doc_of(input: Seq<u8>, st: BuildV) -> DocV {
    let raw = raw_text(input);
    DocV {
        fields: st.fields,
        rows: table_rows(st),
        frame: match open_tag_of(raw, "DATAPACKET"@) {
            Some(t) => t,
            None => default_frame(),
        },
        params: match params_of(raw) {
            Some(p) => p,
            None => default_params(),
        },
    }
}

// ------------------------------------------------------- building (exec)

fn unescape_attrs(attrs: &Vec<XmlAttr>) -> (r: Option<Vec<(String, String)>>)
    ensures
        match r {
            Some(p) => unescape_all(attrs@.map_values(|x: XmlAttr| x@)) == Some(p.deep_view()),
            None => unescape_all(attrs@.map_values(|x: XmlAttr| x@)) is None,
        },
{
    let ghost av = attrs@.map_values(|x: XmlAttr| x@);
    let mut out: Vec<(String, String)> = Vec::new();
    let mut k: usize = 0;
    while k < attrs.len()
        invariant
            k <= attrs@.len(),
            av == attrs@.map_values(|x: XmlAttr| x@),
            unescape_all(av.take(k as int)) == Some(out.deep_view()),
        decreases attrs@.len() - k,
    {
        proof {
            assert(av.take(k + 1).drop_last() =~= av.take(k as int));
            assert(av.take(k + 1).last() == attrs@[k as int]@);
        }
        match unescape_value(attrs[k].raw.as_slice()) {
            Ok(v) => {
                let ghost prev = out.deep_view();
                let ghost vv = v@;
                out.push((attrs[k].key.clone(), v));
                assert(out.deep_view() =~= prev.push((attrs@[k as int].key@, vv)));
            },
            Err(_) => {
                assert(unescape_all(av.take(k + 1)) is None);
                assert(av.take(attrs@.len() as int) =~= av);
                proof {
                    lemma_unescape_all_fails(av, k + 1);
                }
                return None;
            },
        }
        k = k + 1;
    }
    assert(av.take(k as int) =~= av);
    Some(out)
}

proof fn lemma_unescape_all_fails(av: Seq<XmlAttrV>, k: int)
    requires
        0 <= k <= av.len(),
        unescape_all(av.take(k)) is None,
    ensures
        unescape_all(av) is None,
    decreases av.len() - k,
{
    if k < av.len() {
        assert(av.take(k + 1).drop_last() =~= av.take(k));
        lemma_unescape_all_fails(av, k + 1);
    } else {
        assert(av.take(k) =~= av);
    }
}

proof fn lemma_row_values_fails(fields: Seq<FieldV>, av: Seq<XmlAttrV>, k: int)
    requires
        0 <= k <= av.len(),
        row_values(fields, av.take(k)) is None,
    ensures
        row_values(fields, av) is None,
    decreases av.len() - k,
{
    if k < av.len() {
        assert(av.take(k + 1).drop_last() =~= av.take(k));
        lemma_row_values_fails(fields, av, k + 1);
    } else {
        assert(av.take(k) =~= av);
    }
}

fn field_of(attrs: Vec<(String, String)>) -> (r: Option<Field>)
    ensures
        match r {
            Some(f) => field_from(attrs.deep_view()) == Some(f@),
            None => field_from(attrs.deep_view()) is None,
        },
{
    let ghost av = attrs.deep_view();
    let key = chars_of("attrname");
    proof {
        reveal_strlit("attrname");
        assert(key@ =~= crate::table::attrname_key());
    }
    let mut name: Option<String> = None;
    let mut k: usize = 0;
    while k < attrs.len()
        invariant
            k <= attrs@.len(),
            av == attrs.deep_view(),
            key@ == crate::table::attrname_key(),
            match name {
                Some(n) => attrname_of(av.take(k as int)) == Some(n@),
                None => attrname_of(av.take(k as int)) is None,
            },
        decreases attrs@.len() - k,
    {
        proof {
            assert(av.take(k + 1).drop_last() =~= av.take(k as int));
            assert(av.take(k + 1).last() == av[k as int]);
        }
        let kc = chars_of(attrs[k].0.as_str());
        if chars_eq(&kc, &key) {
            name = Some(attrs[k].1.clone());
        }
        k = k + 1;
    }
    assert(av.take(k as int) =~= av);
    match name {
        Some(n) => {
            if !n.as_str().is_empty() {
                Some(Field { name: n, attrs })
            } else {
                None
            }
        },
        None => None,
    }
}

fn first_named_exec(fields: &Vec<Field>, key: &[char]) -> (r: Option<usize>)
    ensures
        match r {
            Some(i) => first_named(fields@.map_values(|f: Field| f@), key@, 0) == Some(i as int)
                && i < fields@.len(),
            None => first_named(fields@.map_values(|f: Field| f@), key@, 0) is None,
        },
{
    let ghost fv = fields@.map_values(|f: Field| f@);
    let mut i: usize = 0;
    while i < fields.len()
        invariant
            i <= fields@.len(),
            fv == fields@.map_values(|f: Field| f@),
            first_named(fv, key@, 0) == first_named(fv, key@, i as int),
        decreases fields@.len() - i,
    {
        let fc = chars_of(fields[i].name.as_str());
        if chars_eq(&fc, key) {
            return Some(i);
        }
        i = i + 1;
    }
    None
}

fn row_values_exec(fields: &Vec<Field>, attrs: &Vec<XmlAttr>) -> (r: Option<Vec<Option<String>>>)
    ensures
        match r {
            Some(v) => row_values(fields@.map_values(|f: Field| f@), attrs@.map_values(|x: XmlAttr| x@))
                == Some(v.deep_view()),
            None => row_values(fields@.map_values(|f: Field| f@), attrs@.map_values(|x: XmlAttr| x@)) is None,
        },
{
    let ghost fv = fields@.map_values(|f: Field| f@);
    let ghost av = attrs@.map_values(|x: XmlAttr| x@);
    let mut v: Vec<Option<String>> = Vec::new();
    let mut i: usize = 0;
    while i < fields.len()
        invariant
            i <= fields@.len(),
            v.deep_view() =~= Seq::new(i as nat, |j: int| None::<Seq<char>>),
        decreases fields@.len() - i,
    {
        let ghost prev = v.deep_view();
        v.push(None);
        assert(v.deep_view() =~= prev.push(None));
        i = i + 1;
    }
    assert(row_values(fv, av.take(0)) == Some(v.deep_view())) by {
        assert(av.take(0).len() == 0);
    }
    let mut k: usize = 0;
    while k < attrs.len()
        invariant
            k <= attrs@.len(),
            fv == fields@.map_values(|f: Field| f@),
            av == attrs@.map_values(|x: XmlAttr| x@),
            row_values(fv, av.take(k as int)) == Some(v.deep_view()),
            v.deep_view().len() == fv.len(),
        decreases attrs@.len() - k,
    {
        proof {
            assert(av.take(k + 1).drop_last() =~= av.take(k as int));
            assert(av.take(k + 1).last() == attrs@[k as int]@);
        }
        let kc = chars_of(attrs[k].key.as_str());
        match first_named_exec(fields, &kc) {
            None => {},
            Some(idx) => {
                match unescape_value(attrs[k].raw.as_slice()) {
                    Ok(t) => {
                        let ghost prev = v.deep_view();
                        let ghost tv = t@;
                        v.set(idx, Some(t));
                        assert(v.deep_view() =~= prev.update(idx as int, Some(tv)));
                    },
                    Err(_) => {
                        proof {
                            lemma_row_values_fails(fv, av, k + 1);
                        }
                        return None;
                    },
                }
            },
        }
        k = k + 1;
    }
    assert(av.take(k as int) =~= av);
    Some(v)
}

pub open spec fn state_of(
    in_fields: bool,
    fields: Seq<Field>,
    width: Option<usize>,
    late: bool,
    rows: Seq<Vec<Option<String>>>,
) -> BuildV {
    BuildV {
        in_fields: in_fields,
        fields: fields.map_values(|f: Field| f@),
        width: match width {
            Some(w) => Some(w as nat),
            None => None,
        },
        late: late,
        rows: rows.map_values(|r: Vec<Option<String>>| r.deep_view()),
    }
}

/// What the events gather, or `None` if a value fails to unescape.
pub fn build_exec(events: &Vec<XmlEvent>) -> (r: Option<(Vec<Field>, Option<usize>, bool, Vec<Vec<Option<String>>>)>)
    ensures
        match r {
            Some((fields, width, late, rows)) => build(events@.map_values(|e: XmlEvent| e@)) == Some(
                state_of(false, fields@, width, late, rows@),
            ) || build(events@.map_values(|e: XmlEvent| e@)) == Some(
                state_of(true, fields@, width, late, rows@),
            ),
            None => build(events@.map_values(|e: XmlEvent| e@)) is None,
        },
{
    let ghost ev = events@.map_values(|e: XmlEvent| e@);
    let c_fields = chars_of("FIELDS");
    let c_field = chars_of("FIELD");
    let c_row = chars_of("ROW");
    let mut in_fields = false;
    let mut fields: Vec<Field> = Vec::new();
    let mut width: Option<usize> = None;
    let mut late = false;
    let mut rows: Vec<Vec<Option<String>>> = Vec::new();
    let mut k: usize = 0;
    assert(ev.take(0).len() == 0);
    assert(state_of(in_fields, fields@, width, late, rows@) =~~= build_start());
    while k < events.len()
        invariant
            k <= events@.len(),
            ev == events@.map_values(|e: XmlEvent| e@),
            c_fields@ == "FIELDS"@,
            c_field@ == "FIELD"@,
            c_row@ == "ROW"@,
            build(ev.take(k as int)) == Some(state_of(in_fields, fields@, width, late, rows@)),
        decreases events@.len() - k,
    {
        let ghost st = build(ev.take(k as int))->0;
        proof {
            assert(ev.take(k + 1).drop_last() =~= ev.take(k as int));
            assert(ev.take(k + 1).last() == events@[k as int]@);
            assert(build(ev.take(k + 1)) == step(st, ev[k as int]));
        }
        let ghost pf = fields@;
        let ghost pr = rows@;
        match &events[k] {
            XmlEvent::End(n) => {
                let nc = chars_of(n.as_str());
                if chars_eq(&nc, &c_fields) {
                    in_fields = false;
                }
                assert(state_of(in_fields, fields@, width, late, rows@) =~~= step(st, ev[k as int])->0);
            },
            XmlEvent::Eof => {},
            XmlEvent::Other => {},
            XmlEvent::Start(n, a) | XmlEvent::Empty(n, a) => {
                let is_start = match &events[k] {
                    XmlEvent::Start(_, _) => true,
                    _ => false,
                };
                let nc = chars_of(n.as_str());
                proof {
                    assert(ev[k as int] == (if is_start { XmlEventV::Start(n@, a@.map_values(|x: XmlAttr| x@)) } else { XmlEventV::Empty(n@, a@.map_values(|x: XmlAttr| x@)) }));
                }
                if is_start && chars_eq(&nc, &c_fields) {
                    in_fields = true;
                    assert(state_of(in_fields, fields@, width, late, rows@) =~~= step(st, ev[k as int])->0);
                } else if in_fields && chars_eq(&nc, &c_field) {
                    proof {
                        if !is_start {
                            assert(n@ != "FIELDS"@ || true);
                        }
                    }
                    match unescape_attrs(a) {
                        None => {
                            proof {
                                lemma_build_fails(ev, k as int + 1);
                            }
                            return None;
                        },
                        Some(p) => {
                            match field_of(p) {
                                Some(f) => {
                                    let ghost fv = f@;
                                    fields.push(f);
                                    assert(fields@.map_values(|f: Field| f@) =~= pf.map_values(|f: Field| f@).push(fv));
                                },
                                None => {},
                            }
                            assert(state_of(in_fields, fields@, width, late, rows@) =~~= step(st, ev[k as int])->0);
                        },
                    }
                } else if chars_eq(&nc, &c_row) {
                    let w = match width {
                        Some(w) => w,
                        None => fields.len(),
                    };
                    match row_values_exec(&fields, a) {
                        None => {
                            proof {
                                lemma_build_fails(ev, k as int + 1);
                            }
                            return None;
                        },
                        Some(v) => {
                            width = Some(w);
                            late = late || fields.len() != w;
                            let ghost vv = v.deep_view();
                            rows.push(v);
                            assert(rows@.map_values(|r: Vec<Option<String>>| r.deep_view()) =~= pr.map_values(
                                |r: Vec<Option<String>>| r.deep_view(),
                            ).push(vv));
                            assert(state_of(in_fields, fields@, width, late, rows@) =~~= step(st, ev[k as int])->0);
                        },
                    }
                } else {
                    assert(state_of(in_fields, fields@, width, late, rows@) =~~= step(st, ev[k as int])->0);
                }
            },
        }
        k = k + 1;
    }
    assert(ev.take(k as int) =~= ev);
    Some((fields, width, late, rows))
}

proof fn lemma_build_fails(ev: Seq<XmlEventV>, k: int)
    requires
        0 <= k <= ev.len(),
        build(ev.take(k)) is None,
    ensures
        build(ev) is None,
    decreases ev.len() - k,
{
    if k < ev.len() {
        assert(ev.take(k + 1).drop_last() =~= ev.take(k));
        lemma_build_fails(ev, k + 1);
    } else {
        assert(ev.take(k) =~= ev);
    }
}

// ------------------------------------------------------ what builds keep

/// What holds of every state the events build.
pub open spec fn build_inv(st: BuildV) -> bool {
    &&& forall|i: int|
        0 <= i < st.fields.len() ==> (#[trigger] st.fields[i]).name.len() > 0 && attrname_of(
            st.fields[i].attrs,
        ) == Some(st.fields[i].name)
    &&& (st.width is None ==> st.rows.len() == 0)
    &&& (st.width matches Some(w) ==> w <= st.fields.len())
    &&& (!st.late && st.width is Some) ==> forall|k: int|
        0 <= k < st.rows.len() ==> (#[trigger] st.rows[k]).len() == st.width->0
}

proof fn lemma_first_named_range(fields: Seq<FieldV>, key: Seq<char>, i: int)
    ensures
        first_named(fields, key, i) matches Some(j) ==> i <= j < fields.len(),
    decreases fields.len() - i,
{
    if 0 <= i < fields.len() && fields[i].name != key {
        lemma_first_named_range(fields, key, i + 1);
    }
}

proof fn lemma_row_values_len(fields: Seq<FieldV>, attrs: Seq<XmlAttrV>)
    ensures
        row_values(fields, attrs) matches Some(v) ==> v.len() == fields.len(),
    decreases attrs.len(),
{
    if attrs.len() > 0 {
        lemma_row_values_len(fields, attrs.drop_last());
        lemma_first_named_range(fields, attrs.last().key, 0);
    }
}

proof fn lemma_tag_step_inv(st: BuildV, name: Seq<char>, attrs: Seq<XmlAttrV>)
    requires
        build_inv(st),
        tag_step(st, name, attrs) is Some,
    ensures
        build_inv(tag_step(st, name, attrs)->0),
{
    lemma_row_values_len(st.fields, attrs);
    let nx = tag_step(st, name, attrs)->0;
    if st.in_fields && name == "FIELD"@ {
        assert forall|i: int| 0 <= i < nx.fields.len() implies (#[trigger] nx.fields[i]).name.len()
            > 0 && attrname_of(nx.fields[i].attrs) == Some(nx.fields[i].name) by {
            if i < st.fields.len() {
                assert(nx.fields[i] == st.fields[i]);
            }
        }
    } else if name == "ROW"@ {
        if !nx.late {
            assert forall|k: int| 0 <= k < nx.rows.len() implies (#[trigger] nx.rows[k]).len()
                == nx.width->0 by {
                if k < st.rows.len() {
                    assert(nx.rows[k] == st.rows[k]);
                }
            }
        }
    }
}

proof fn lemma_build_inv(evs: Seq<XmlEventV>)
    requires
        build(evs) is Some,
    ensures
        build_inv(build(evs)->0),
    decreases evs.len(),
{
    if evs.len() > 0 {
        lemma_build_inv(evs.drop_last());
        let st = build(evs.drop_last())->0;
        match evs.last() {
            XmlEventV::Start(n, a) => {
                if n != "FIELDS"@ {
                    lemma_tag_step_inv(st, n, a);
                }
            },
            XmlEventV::Empty(n, a) => {
                lemma_tag_step_inv(st, n, a);
            },
            _ => {},
        }
    }
}

// ----------------------------------------------------------- reading (exec)

/// Every event of `input` before the end.
fn read_all(input: &[u8]) -> (r: Result<Vec<XmlEvent>, String>)
    ensures
        match r {
            Ok(evs) => read_events(input@) == Some(evs@.map_values(|e: XmlEvent| e@)),
            Err(_) => read_events(input@) is None,
        },
{
    let mut c = xml_cursor(input);
    let mut evs: Vec<XmlEvent> = Vec::new();
    loop
        invariant
            c.input@ == input@,
            c.count@ == evs@.len(),
            stream_len(input@, 0) == stream_len(input@, c.count@),
            forall|i: int|
                0 <= i < evs@.len() ==> xml_event_at(input@, i as nat) == Some(#[trigger] evs@[i]@),
        decreases input@.len() + 1 - evs@.len(),
    {
        if evs.len() > input.len() {
            return Err(String::from_str("o leitor XML não chegou ao fim do texto"));
        }
        let ghost k = c.count@;
        match next_event(&mut c) {
            Err(e) => {
                return Err(e);
            },
            Ok(XmlEvent::Eof) => {
                proof {
                    assert(stream_len(input@, k) == Some(k));
                    assert(Seq::new(k, |i: int| xml_event_at(input@, i as nat)->0) =~= evs@.map_values(
                        |e: XmlEvent| e@,
                    ));
                }
                return Ok(evs);
            },
            Ok(ev) => {
                proof {
                    assert(stream_len(input@, k) == stream_len(input@, k + 1));
                }
                evs.push(ev);
            },
        }
    }
}

/// The parts of a valid table, numbered from 1 in order.
fn numbered_rows(rows: Vec<Vec<Option<String>>>) -> (r: Vec<Row>)
    requires
        rows@.len() < i64::MAX,
    ensures
        r@.map_values(|x: Row| x@) == Seq::new(
            rows@.len(),
            |k: int| RowV { rowid: k + 1, values: rows@[k].deep_view() },
        ),
{
    let ghost orig = rows@;
    let n = rows.len();
    let mut rows = rows;
    let mut rev: Vec<Row> = Vec::new();
    while rows.len() > 0
        invariant
            rows@ == orig.take(rows@.len() as int),
            n == orig.len(),
            n < i64::MAX,
            rev@.len() + rows@.len() == n,
            forall|j: int|
                0 <= j < rev@.len() ==> (#[trigger] rev@[j])@ == (RowV {
                    rowid: n - j,
                    values: orig[n - 1 - j].deep_view(),
                }),
        decreases rows@.len(),
    {
        let v = rows.pop().unwrap();
        let id = rows.len() as i64 + 1;
        proof {
            assert(rows@ =~= orig.take(rows@.len() as int));
        }
        rev.push(Row { rowid: id, values: v });
    }
    let mut out: Vec<Row> = Vec::new();
    while rev.len() > 0
        invariant
            n == orig.len(),
            n < i64::MAX,
            rev@.len() + out@.len() == n,
            forall|j: int|
                0 <= j < rev@.len() ==> (#[trigger] rev@[j])@ == (RowV {
                    rowid: n - j,
                    values: orig[n - 1 - j].deep_view(),
                }),
            forall|k: int|
                0 <= k < out@.len() ==> (#[trigger] out@[k])@ == (RowV {
                    rowid: k + 1,
                    values: orig[k].deep_view(),
                }),
        decreases rev@.len(),
    {
        let x = rev.pop().unwrap();
        out.push(x);
    }
    assert(out@.map_values(|x: Row| x@) =~= Seq::new(
        orig.len(),
        |k: int| RowV { rowid: k + 1, values: orig[k].deep_view() },
    ));
    out
}

/// Whether the columns have names that SQL can hold and tell apart.
fn columns_ok(fields: &Vec<Field>) -> (r: bool)
    ensures
        r == ({
            let fv = fields@.map_values(|f: Field| f@);
            &&& forall|i: int| 0 <= i < fv.len() ==> usable_name(#[trigger] fv[i].name)
            &&& forall|i: int, j: int|
                #![trigger fv[i], fv[j]]
                0 <= i < j < fv.len() ==> !same_name(fv[i].name, fv[j].name)
        }),
{
    let ghost fv = fields@.map_values(|f: Field| f@);
    let ord = chars_of("__ord");
    proof {
        reveal_strlit("__ord");
        assert(ord@ =~= ord_column());
    }
    let mut i: usize = 0;
    while i < fields.len()
        invariant
            i <= fields@.len(),
            fv == fields@.map_values(|f: Field| f@),
            ord@ == ord_column(),
            forall|a: int| 0 <= a < i ==> usable_name(#[trigger] fv[a].name),
            forall|a: int, b: int|
                #![trigger fv[a], fv[b]]
                0 <= a < b < fv.len() && a < i ==> !same_name(fv[a].name, fv[b].name),
        decreases fields@.len() - i,
    {
        let a = chars_of(fields[i].name.as_str());
        if a.len() == 0 || same_name_chars(&a, &ord) {
            assert(!usable_name(fv[i as int].name));
            return false;
        }
        let mut j: usize = i + 1;
        while j < fields.len()
            invariant
                i < j <= fields@.len(),
                fv == fields@.map_values(|f: Field| f@),
                a@ == fv[i as int].name,
                forall|b: int| i < b < j ==> !same_name(fv[i as int].name, #[trigger] fv[b].name),
            decreases fields@.len() - j,
        {
            let b = chars_of(fields[j].name.as_str());
            if same_name_chars(&a, &b) {
                assert(same_name(fv[i as int].name, fv[j as int].name));
                return false;
            }
            j = j + 1;
        }
        i = i + 1;
    }
    true
}

impl XmlDoc {
    /// Reads a document from the bytes of an XML file.
    ///
    /// The columns are the `FIELD`s inside `FIELDS` that name themselves in
    /// `attrname`; each `ROW` gives a row, numbered from 1 in reading order,
    /// whose cells are its attributes named like a column. The
    /// `<DATAPACKET ...>` tag and the `<PARAMS>` section are kept as they
    /// stand in the text, or take their defaults.
    pub fn parse(input: &[u8]) -> (r: Result<XmlDoc, DocError>)
        ensures
            match parsed(input@) {
                None => r matches Err(DocError::Xml(_)),
                Some(st) => if st.fields.len() == 0 {
                    r matches Err(DocError::NotTable)
                } else if !table_ok(st) {
                    r matches Err(DocError::BadColumns)
                } else if st.rows.len() >= i64::MAX {
                    r matches Err(DocError::Full)
                } else {
                    r matches Ok(d) && d.wf() && d@ == doc_of(input@, st)
                },
            },
    {
        let events = match read_all(input) {
            Ok(e) => e,
            Err(m) => {
                return Err(DocError::Xml(m));
            },
        };
        let ghost evs = events@.map_values(|e: XmlEvent| e@);
        let (fields, width, late, rows) = match build_exec(&events) {
            Some(b) => b,
            None => {
                return Err(DocError::Xml(String::from_str("valor de atributo com referência inválida")));
            },
        };
        let ghost st = build(evs)->0;
        proof {
            lemma_build_inv(evs);
        }
        if fields.len() == 0 {
            return Err(DocError::NotTable);
        }
        let width_ok = match width {
            Some(w) => w == fields.len(),
            None => true,
        };
        if late || !width_ok || !columns_ok(&fields) || fields.len() as u64 >= 9223372036854775807u64 {
            return Err(DocError::BadColumns);
        }
        if rows.len() as u64 >= 9223372036854775807u64 {
            return Err(DocError::Full);
        }
        let ghost rows_view = rows@.map_values(|r: Vec<Option<String>>| r.deep_view());
        let numbered = numbered_rows(rows);
        let raw: Vec<char> = match utf8_text(input) {
            Some(s) => chars_of(s),
            None => Vec::new(),
        };
        assert(raw@ == raw_text(input@));
        let tag = chars_of("DATAPACKET");
        proof {
            reveal_strlit("DATAPACKET");
        }
        let frame = match open_tag_exec(&raw, &tag) {
            Some(t) => string_of(&t),
            None => String::from_str("<DATAPACKET Version=\"2.0\">"),
        };
        let params = match params_exec(&raw) {
            Some(p) => string_of(&p),
            None => String::from_str("<PARAMS/>"),
        };
        let d = XmlDoc::from_parts(fields, numbered, frame, params);
        proof {
            assert(d@.rows =~= table_rows(st));
            assert forall|k: int| 0 <= k < d@.rows.len() implies crate::table::row_ok(
                #[trigger] d@.rows[k],
                d@.fields.len(),
            ) by {
                assert(d@.rows[k].values == st.rows[k]);
            }
            assert forall|a: int, b: int|
                #![trigger d@.rows[a], d@.rows[b]]
                0 <= a < b < d@.rows.len() implies d@.rows[a].rowid != d@.rows[b].rowid by {}
            assert forall|i: int| 0 <= i < d@.fields.len() implies field_ok(#[trigger] d@.fields[i]) by {
                assert(d@.fields[i] == st.fields[i]);
            }
        }
        Ok(d)
    }
}

} // verus!
