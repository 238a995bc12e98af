use lexml::frame::{open_tag_exec, params_exec};
use lexml::sql::first_cells;
use lexml::xmldoc::{QueryResult, XmlDoc};

fn strings(v: &[&str]) -> Vec<String> {
    v.iter().map(|s| s.to_string()).collect()
}

#[test]
fn csv_skips_internal_columns_and_quotes() {
    let res = QueryResult {
        columns: strings(&["_rid", "nome", "obs", "__ord"]),
        rows: vec![
            strings(&["1", "Alpha", "a;b", "1"]),
            strings(&["2", "Be\"ta", "linha\nnova", "2"]),
        ],
    };
    assert_eq!(
        res.csv(),
        "nome;obs\nAlpha;\"a;b\"\n\"Be\"\"ta\";\"linha\nnova\"\n"
    );
}

#[test]
fn csv_of_empty_result() {
    let res = QueryResult { columns: strings(&["a"]), rows: Vec::new() };
    assert_eq!(res.csv(), "a\n");
}

#[test]
fn xml_output_escapes_and_skips_empty_cells() {
    let mut dp = XmlDoc::new_empty().unwrap();
    let id = dp.add_row().unwrap();
    dp.update_cell(id, "coluna1", "a<b & \"c\"\n\t").unwrap();
    dp.add_row().unwrap();
    assert_eq!(
        dp.to_xml(),
        [
            "<?xml version=\"1.0\" encoding=\"UTF-8\" standalone=\"yes\"?>  ",
            "<DATAPACKET Version=\"2.0\"><METADATA><FIELDS>",
            "<FIELD attrname=\"coluna1\" fieldtype=\"string\" WIDTH=\"40\"/>",
            "</FIELDS><PARAMS/></METADATA><ROWDATA>",
            "<ROW coluna1=\"a&lt;b &amp; &quot;c&quot;&#10;&#9;\"/>",
            "<ROW/>",
            "</ROWDATA></DATAPACKET>",
        ].concat()
    );
}

#[test]
fn reopened_text_keeps_values_and_frame() {
    let xml = [
        "<DATAPACKET Version=\"3.1\" x='y'><METADATA><FIELDS>",
        "<FIELD attrname=\"a\" fieldtype=\"string\" WIDTH=\"10\" extra=\"&lt;&gt;\"/>",
        "</FIELDS><PARAMS CHANGE_LOG=\"1 0 4\"/></METADATA><ROWDATA>",
        "<ROW a=\"x&amp;y\"/><ROW a=\"\"/>",
        "</ROWDATA></DATAPACKET>",
    ].concat();
    let dp = XmlDoc::parse(xml.as_bytes()).unwrap();
    assert_eq!(dp.frame_text(), "<DATAPACKET Version=\"3.1\" x='y'>");
    assert_eq!(dp.params_text(), "<PARAMS CHANGE_LOG=\"1 0 4\"/>");
    let again = XmlDoc::parse(dp.to_xml().as_bytes()).unwrap();
    assert_eq!(again.frame_text(), dp.frame_text());
    assert_eq!(again.params_text(), dp.params_text());
    assert_eq!(again.field_list()[0].attrs, dp.field_list()[0].attrs);
    let v = again.column_values("a", None).unwrap();
    assert_eq!(v, vec!["x&y", ""]);
}

#[test]
fn reopen_renumbers_rows_and_drops_empty_cells() {
    let mut dp = XmlDoc::new_empty().unwrap();
    let a = dp.add_row().unwrap();
    let b = dp.add_row().unwrap();
    let c = dp.add_row().unwrap();
    dp.update_cell(a, "coluna1", "a").unwrap();
    dp.update_cell(c, "coluna1", "c").unwrap();
    dp.delete_row(b).unwrap();
    dp.move_row(c, true).unwrap();
    let again = XmlDoc::parse(dp.to_xml().as_bytes()).unwrap();
    let res = again.filter(None).unwrap();
    assert_eq!(res.rows, vec![strings(&["1", "c", "1"]), strings(&["2", "a", "2"])]);
    let d = dp.add_row().unwrap();
    assert_eq!(d, 4);
    let again = XmlDoc::parse(dp.to_xml().as_bytes()).unwrap();
    assert_eq!(again.row_count(), 3);
    assert_eq!(again.column_values("coluna1", None).unwrap(), vec!["c", "a", ""]);
}

#[test]
fn column_names_are_written_as_they_are() {
    let mut dp = XmlDoc::new_empty().unwrap();
    dp.rename_column("coluna1", "valor total").unwrap();
    let r = dp.add_row().unwrap();
    dp.update_cell(r, "valor total", "5").unwrap();
    let out = dp.to_xml();
    assert!(out.contains("<FIELD attrname=\"valor total\""), "{out}");
    assert!(out.contains("<ROW valor total=\"5\"/>"), "{out}");
}

#[test]
fn first_cells_takes_the_first_column() {
    let q = QueryResult {
        columns: strings(&["a", "b"]),
        rows: vec![strings(&["1", "x"]), strings(&["2", "y"])],
    };
    assert_eq!(first_cells(&q), strings(&["1", "2"]));
}

#[test]
fn open_tag_skips_longer_tag_names() {
    let s: Vec<char> = "<R><DATAPACKETS/><DATAPACKET Version=\"3.1\"><METADATA>".chars().collect();
    let tag: Vec<char> = "DATAPACKET".chars().collect();
    let got: String = open_tag_exec(&s, &tag).unwrap().into_iter().collect();
    assert_eq!(got, "<DATAPACKET Version=\"3.1\">");
}

#[test]
fn params_skip_longer_tag_names() {
    let s: Vec<char> = "<PARAMSX/><PARAMS LCID=\"1046\"/><ROWDATA>".chars().collect();
    let got: String = params_exec(&s).unwrap().into_iter().collect();
    assert_eq!(got, "<PARAMS LCID=\"1046\"/>");
}

#[test]
fn csv_needs_only_the_shown_cells() {
    let res = QueryResult {
        columns: strings(&["a", "_rid"]),
        rows: vec![strings(&["x"])],
    };
    assert_eq!(res.csv(), "a\nx\n");
}
