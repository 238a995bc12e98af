use lexml::numbers::number_candidates;
use lexml::xmldoc::{DocError, QueryResult, XmlDoc};

/// A minimal document in the expected shape (METADATA/FIELDS + ROWDATA/ROW).
fn sample_xml() -> String {
    [
        "<?xml version=\"1.0\" encoding=\"UTF-8\" standalone=\"yes\"?>",
        "<DATAPACKET Version=\"2.0\"><METADATA><FIELDS>",
        "<FIELD attrname=\"id\" fieldtype=\"string\" WIDTH=\"10\"/>",
        "<FIELD attrname=\"nome\" fieldtype=\"string\" WIDTH=\"40\"/>",
        "<FIELD attrname=\"valor\" fieldtype=\"string\" WIDTH=\"20\"/>",
        "</FIELDS><PARAMS/></METADATA><ROWDATA>",
        "<ROW id=\"1\" nome=\"Alpha\" valor=\"10.50\"/>",
        "<ROW id=\"2\" nome=\"Beta\" valor=\"4.25\"/>",
        "<ROW id=\"3\" nome=\"Gama\"/>",
        "</ROWDATA></DATAPACKET>",
    ].concat()
}

fn open(xml: &str) -> XmlDoc {
    XmlDoc::parse(xml.as_bytes()).unwrap()
}

/// Sums the numeric texts of a column, as the editor's sum does.
fn sum_column(dp: &XmlDoc, column: &str, filter: Option<&str>) -> (f64, usize) {
    let mut total = 0.0;
    let mut count = 0;
    for text in dp.column_values(column, filter).unwrap() {
        for candidate in number_candidates(&text) {
            if let Ok(n) = candidate.parse::<f64>() {
                total += n;
                count += 1;
                break;
            }
        }
    }
    (total, count)
}

/// The column `col` in display order.
fn column_in_order(dp: &XmlDoc, col: &str) -> Vec<String> {
    let res = dp.filter(None).unwrap();
    let idx = res.columns.iter().position(|c| c == col).unwrap();
    res.rows.iter().map(|r| r[idx].clone()).collect()
}

/// The `_rid` of the row at display position `pos`.
fn rid_at(dp: &XmlDoc, pos: usize) -> i64 {
    let res = dp.filter(None).unwrap();
    let idx = res.columns.iter().position(|c| c == "_rid").unwrap();
    res.rows[pos][idx].parse().unwrap()
}

#[test]
fn parse_filter_sum_roundtrip() {
    let dp = open(&sample_xml());
    assert_eq!(dp.row_count(), 3);
    assert_eq!(dp.field_names(), vec!["id", "nome", "valor"]);

    // a WHERE filter carries the _rid column (editable view)
    let f = dp.filter(Some("valor <> ''")).unwrap();
    assert_eq!(f.rows.len(), 2);
    assert_eq!(f.columns[0], "_rid");

    // sum of the numeric column
    let (total, count) = sum_column(&dp, "valor", None);
    assert_eq!(count, 2);
    assert!((total - 14.75).abs() < 0.001, "total={total}");

    // round trip: writing and reading back keeps the count and the fields
    let xml = dp.to_xml();
    let dp2 = XmlDoc::parse(xml.as_bytes()).unwrap();
    assert_eq!(dp2.row_count(), 3);
    assert_eq!(dp2.field_names(), dp.field_names());
}

#[test]
fn roundtrip_preserva_quebras_de_linha() {
    let xml = [
        "<?xml version=\"1.0\" encoding=\"UTF-8\" standalone=\"yes\"?>",
        "<DATAPACKET Version=\"2.0\"><METADATA><FIELDS>",
        "<FIELD attrname=\"id\" fieldtype=\"string\" WIDTH=\"10\"/>",
        "<FIELD attrname=\"hist\" fieldtype=\"string\" WIDTH=\"40\"/>",
        "</FIELDS><PARAMS/></METADATA><ROWDATA>",
        "<ROW id=\"1\" hist=\"linha1&#010;&#013;linha2\"/>",
        "</ROWDATA></DATAPACKET>",
    ].concat();
    let hist_of = |res: &QueryResult| -> String {
        let idx = res.columns.iter().position(|c| c == "hist").unwrap();
        res.rows[0][idx].clone()
    };

    let dp = open(&xml);
    let antes = dp.filter(None).unwrap();
    let hist_antes = hist_of(&antes);
    assert!(hist_antes.contains('\n'), "parser deveria ter LF: {hist_antes:?}");

    let out = dp.to_xml();
    let dp2 = XmlDoc::parse(out.as_bytes()).unwrap();
    let depois = dp2.filter(None).unwrap();
    let hist_depois = hist_of(&depois);
    assert_eq!(hist_antes, hist_depois, "quebras de linha perdidas no round-trip");
}

#[test]
fn roundtrip_preserva_datapacket_e_params() {
    let xml = [
        "<?xml version=\"1.0\" encoding=\"UTF-8\" standalone=\"yes\"?>",
        "<DATAPACKET Version=\"3.1\"><METADATA><FIELDS>",
        "<FIELD attrname=\"id\" fieldtype=\"string\" WIDTH=\"10\"/>",
        "</FIELDS>",
        "<PARAMS><PARAM Name=\"LCID\" fieldtype=\"i4\" VALUE=\"1046\"/></PARAMS>",
        "</METADATA><ROWDATA>",
        "<ROW id=\"1\"/>",
        "</ROWDATA></DATAPACKET>",
    ].concat();
    let dp = open(&xml);
    let out = dp.to_xml();

    assert!(out.contains("<DATAPACKET Version=\"3.1\">"), "Version perdida: {out}");
    assert!(
        out.contains("<PARAMS><PARAM Name=\"LCID\" fieldtype=\"i4\" VALUE=\"1046\"/></PARAMS>"),
        "PARAMS perdido: {out}"
    );
}

#[test]
fn nome_de_coluna_com_aspas() {
    let xml = [
        "<?xml version=\"1.0\" encoding=\"UTF-8\" standalone=\"yes\"?>",
        "<DATAPACKET Version=\"2.0\"><METADATA><FIELDS>",
        "<FIELD attrname=\"a&quot;b\" fieldtype=\"string\" WIDTH=\"10\"/>",
        "</FIELDS><PARAMS/></METADATA><ROWDATA>",
        "<ROW/>",
        "</ROWDATA></DATAPACKET>",
    ].concat();
    let mut dp = open(&xml);
    assert_eq!(dp.field_names(), vec!["a\"b".to_string()]);
    // operations that build SQL with the name do not fail
    dp.add_row().unwrap();
    assert_eq!(dp.row_count(), 2);
}

#[test]
fn clonar_linha_copia_valores_e_posiciona() {
    let mut dp = open(&sample_xml());
    // clone the 2nd row (Beta) below
    let beta_rid = rid_at(&dp, 1);
    let (_new, vals) = dp.clone_row(beta_rid, false).unwrap();
    assert_eq!(vals, vec!["2", "Beta", "4.25"]);
    assert_eq!(dp.row_count(), 4);
    // the copy comes right after Beta
    assert_eq!(column_in_order(&dp, "nome"), vec!["Alpha", "Beta", "Beta", "Gama"]);

    // clone the 1st row (Alpha) above
    let alpha_rid = rid_at(&dp, 0);
    dp.clone_row(alpha_rid, true).unwrap();
    assert_eq!(
        column_in_order(&dp, "nome"),
        vec!["Alpha", "Alpha", "Beta", "Beta", "Gama"]
    );
}

#[test]
fn mover_linha_troca_ordem() {
    let mut dp = open(&sample_xml());
    // moving the 2nd row (Beta) up trades places with Alpha
    let beta_rid = rid_at(&dp, 1);
    let nb = dp.move_row(beta_rid, true).unwrap();
    assert!(nb.is_some());
    assert_eq!(column_in_order(&dp, "nome"), vec!["Beta", "Alpha", "Gama"]);

    // the top row does not move up
    assert_eq!(dp.move_row(beta_rid, true).unwrap(), None);

    // moving Beta (now on top) down trades back with Alpha
    dp.move_row(beta_rid, false).unwrap();
    assert_eq!(column_in_order(&dp, "nome"), vec!["Alpha", "Beta", "Gama"]);

    // the bottom row does not move down
    let gama_rid = rid_at(&dp, 2);
    assert_eq!(dp.move_row(gama_rid, false).unwrap(), None);
}

// ------------------------------------------------------------------ reading

#[test]
fn rows_are_numbered_from_one_in_reading_order() {
    let dp = open(&sample_xml());
    let res = dp.filter(None).unwrap();
    assert_eq!(res.columns, vec!["_rid", "id", "nome", "valor", "__ord"]);
    assert_eq!(res.rows[0], vec!["1", "1", "Alpha", "10.50", "1"]);
    assert_eq!(res.rows[2], vec!["3", "3", "Gama", "", "3"]);
}

#[test]
fn blank_filter_shows_everything() {
    let dp = open(&sample_xml());
    let all = dp.filter(Some("   ")).unwrap();
    assert_eq!(all.rows.len(), 3);
    let none = dp.filter(None).unwrap();
    assert_eq!(all.rows, none.rows);
}

#[test]
fn filter_with_condition_runs_in_sql() {
    let dp = open(&sample_xml());
    let res = dp.filter(Some("nome LIKE 'B%' OR nome = 'Gama'")).unwrap();
    let idx = res.columns.iter().position(|c| c == "nome").unwrap();
    let names: Vec<&str> = res.rows.iter().map(|r| r[idx].as_str()).collect();
    assert_eq!(names, vec!["Beta", "Gama"]);
}

#[test]
fn bad_filter_is_an_sql_error() {
    let dp = open(&sample_xml());
    assert!(matches!(dp.filter(Some("no_such_col = 1")), Err(DocError::Sql(_))));
    assert!(matches!(dp.query("SELEC nada"), Err(DocError::Sql(_))));
}

#[test]
fn free_query_reads_the_table() {
    let dp = open(&sample_xml());
    let res = dp.query("SELECT nome FROM dados WHERE id = '2'").unwrap();
    assert_eq!(res.columns, vec!["nome"]);
    assert_eq!(res.rows, vec![vec!["Beta".to_string()]]);
}

#[test]
fn document_without_fields_is_not_a_table() {
    let xml = "<?xml version=\"1.0\"?><root><item a=\"1\"/></root>";
    assert!(matches!(XmlDoc::parse(xml.as_bytes()), Err(DocError::NotTable)));
}

#[test]
fn malformed_xml_is_an_xml_error() {
    let xml = "<DATAPACKET><METADATA><FIELDS><FIELD attrname=\"a\"/></FIELDS></METADATA></ROWDATA>";
    let r = XmlDoc::parse(xml.as_bytes());
    assert!(matches!(r, Err(DocError::Xml(_))));
}

#[test]
fn repeated_column_names_are_refused() {
    let xml = [
        "<DATAPACKET Version=\"2.0\"><METADATA><FIELDS>",
        "<FIELD attrname=\"a\"/><FIELD attrname=\"A\"/>",
        "</FIELDS><PARAMS/></METADATA><ROWDATA></ROWDATA></DATAPACKET>",
    ].concat();
    assert!(matches!(XmlDoc::parse(xml.as_bytes()), Err(DocError::BadColumns)));
}

#[test]
fn columns_after_rows_are_refused() {
    let xml = [
        "<DATAPACKET><METADATA><FIELDS><FIELD attrname=\"a\"/></FIELDS></METADATA>",
        "<ROWDATA><ROW a=\"1\"/></ROWDATA>",
        "<METADATA><FIELDS><FIELD attrname=\"b\"/></FIELDS></METADATA></DATAPACKET>",
    ].concat();
    assert!(matches!(XmlDoc::parse(xml.as_bytes()), Err(DocError::BadColumns)));
}

#[test]
fn fields_without_attrname_are_skipped() {
    let xml = [
        "<DATAPACKET><METADATA><FIELDS><FIELD fieldtype=\"string\"/>",
        "<FIELD attrname=\"x\"/></FIELDS></METADATA><ROWDATA><ROW x=\"9\" y=\"8\"/></ROWDATA></DATAPACKET>",
    ].concat();
    let dp = open(&xml);
    assert_eq!(dp.field_names(), vec!["x"]);
    assert_eq!(column_in_order(&dp, "x"), vec!["9"]);
}

#[test]
fn missing_frame_and_params_take_defaults() {
    let xml = "<D><METADATA><FIELDS><FIELD attrname=\"x\"/></FIELDS></METADATA></D>";
    let dp = open(&xml);
    assert_eq!(dp.frame_text(), "<DATAPACKET Version=\"2.0\">");
    assert_eq!(dp.params_text(), "<PARAMS/>");
}

// ------------------------------------------------------------------ editing

#[test]
fn new_empty_has_one_column() {
    let dp = XmlDoc::new_empty().unwrap();
    assert_eq!(dp.field_names(), vec!["coluna1"]);
    assert_eq!(dp.row_count(), 0);
    assert_eq!(dp.field_list()[0].attrs.len(), 3);
    assert_eq!(dp.field_list()[0].attrs[2], ("WIDTH".to_string(), "40".to_string()));
}

#[test]
fn add_column_trims_and_checks() {
    let mut dp = open(&sample_xml());
    assert!(matches!(dp.add_column("   "), Err(DocError::EmptyName)));
    assert!(matches!(dp.add_column("NOME"), Err(DocError::DuplicateColumn)));
    assert!(matches!(dp.add_column("__ord"), Err(DocError::DuplicateColumn)));
    dp.add_column("  total ").unwrap();
    assert_eq!(dp.field_names(), vec!["id", "nome", "valor", "total"]);
    assert_eq!(column_in_order(&dp, "total"), vec!["", "", ""]);
}

#[test]
fn rename_column_updates_attrname() {
    let mut dp = open(&sample_xml());
    dp.rename_column("nome", " titulo ").unwrap();
    assert_eq!(dp.field_names(), vec!["id", "titulo", "valor"]);
    assert_eq!(dp.field_list()[1].attrs[0], ("attrname".to_string(), "titulo".to_string()));
    assert!(matches!(dp.rename_column("titulo", "id"), Err(DocError::DuplicateColumn)));
    assert!(matches!(dp.rename_column("titulo", ""), Err(DocError::EmptyName)));
    assert!(matches!(dp.rename_column("nada", "x"), Err(DocError::NoSuchColumn)));
    // renaming to the same name changes nothing
    dp.rename_column("id", "id").unwrap();
    assert_eq!(dp.field_names(), vec!["id", "titulo", "valor"]);
}

#[test]
fn drop_column_keeps_one() {
    let mut dp = open(&sample_xml());
    dp.drop_column("nome").unwrap();
    assert_eq!(dp.field_names(), vec!["id", "valor"]);
    assert!(matches!(dp.drop_column("nada"), Err(DocError::NoSuchColumn)));
    dp.drop_column("VALOR").unwrap();
    assert!(matches!(dp.drop_column("id"), Err(DocError::LastColumn)));
    assert_eq!(dp.field_names(), vec!["id"]);
}

#[test]
fn add_row_gets_next_id_at_the_end() {
    let mut dp = open(&sample_xml());
    let id = dp.add_row().unwrap();
    assert_eq!(id, 4);
    assert_eq!(rid_at(&dp, 3), 4);
    assert_eq!(column_in_order(&dp, "nome"), vec!["Alpha", "Beta", "Gama", ""]);
}

#[test]
fn insert_row_relative_places_blank_row() {
    let mut dp = open(&sample_xml());
    let beta = rid_at(&dp, 1);
    let above = dp.insert_row_relative(beta, true).unwrap();
    assert_eq!(rid_at(&dp, 1), above);
    let below = dp.insert_row_relative(beta, false).unwrap();
    assert_eq!(rid_at(&dp, 3), below);
    assert_eq!(column_in_order(&dp, "nome"), vec!["Alpha", "", "Beta", "", "Gama"]);
    assert!(matches!(dp.insert_row_relative(99, true), Err(DocError::NoSuchRow)));
}

#[test]
fn delete_then_ids_are_not_reused_for_the_last() {
    let mut dp = open(&sample_xml());
    dp.delete_row(2).unwrap();
    assert_eq!(column_in_order(&dp, "nome"), vec!["Alpha", "Gama"]);
    // deleting a row that is not there changes nothing
    dp.delete_row(42).unwrap();
    assert_eq!(dp.row_count(), 2);
    assert_eq!(dp.add_row().unwrap(), 4);
}

#[test]
fn move_unknown_row_is_an_error() {
    let mut dp = open(&sample_xml());
    assert!(matches!(dp.move_row(7, true), Err(DocError::NoSuchRow)));
}

#[test]
fn update_cell_writes_one_cell() {
    let mut dp = open(&sample_xml());
    dp.update_cell(3, "Valor", "1,5").unwrap();
    assert_eq!(column_in_order(&dp, "valor"), vec!["10.50", "4.25", "1,5"]);
    assert!(matches!(dp.update_cell(3, "nada", "x"), Err(DocError::NoSuchColumn)));
    // a row that is not there: nothing changes
    dp.update_cell(99, "valor", "x").unwrap();
    assert_eq!(column_in_order(&dp, "valor"), vec!["10.50", "4.25", "1,5"]);
}

#[test]
fn column_values_in_display_order() {
    let mut dp = open(&sample_xml());
    let gama = rid_at(&dp, 2);
    dp.move_row(gama, true).unwrap();
    assert_eq!(dp.column_values("nome", None).unwrap(), vec!["Alpha", "Gama", "Beta"]);
    assert_eq!(dp.column_values("nome", Some("id = '2'")).unwrap(), vec!["Beta"]);
    assert!(matches!(dp.column_values("nada", None), Err(DocError::NoSuchColumn)));
    let (total, count) = sum_column(&dp, "valor", Some("id <> '1'"));
    assert_eq!(count, 1);
    assert!((total - 4.25).abs() < 0.001);
}

#[test]
fn column_index_ignores_ascii_case() {
    let dp = open(&sample_xml());
    assert_eq!(dp.column_index("NoMe"), Some(1));
    assert_eq!(dp.column_index("nome "), None);
}

#[test]
fn error_messages() {
    assert_eq!(DocError::EmptyName.message(), "nome de coluna vazio");
    assert_eq!(
        DocError::Xml("x".to_string()).message(),
        "erro de parsing XML: x"
    );
    assert_eq!(DocError::Sql("no such table".to_string()).message(), "no such table");
    assert_eq!(
        DocError::LastColumn.message(),
        "o documento precisa de ao menos uma coluna"
    );
}
