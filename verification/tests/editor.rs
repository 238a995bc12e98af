use lexml::editor::{
    clamp_selection, complete_word, current_word, filter_status, find_next, grid_of, is_ident_char,
    next_column_name, quote_ident, row_position, sql_status, suggestions,
};
use lexml::xmldoc::QueryResult;

fn strings(v: &[&str]) -> Vec<String> {
    v.iter().map(|s| s.to_string()).collect()
}

#[test]
fn ident_chars() {
    assert!(is_ident_char('a'));
    assert!(is_ident_char('Ç'));
    assert!(is_ident_char('7'));
    assert!(is_ident_char('_'));
    assert!(!is_ident_char(' '));
    assert!(!is_ident_char('\''));
}

#[test]
fn current_word_around_cursor() {
    assert_eq!(current_word("valor <> 10", 3), (0, 5, "valor".to_string()));
    assert_eq!(current_word("valor <> 10", 5), (0, 5, "valor".to_string()));
    assert_eq!(current_word("valor <> 10", 6), (6, 6, String::new()));
    // a cursor past the end stands at the end
    assert_eq!(current_word("a and código", 100), (6, 12, "código".to_string()));
}

#[test]
fn quote_ident_only_when_needed() {
    assert_eq!(quote_ident("valor"), "valor");
    assert_eq!(quote_ident("_x1"), "_x1");
    assert_eq!(quote_ident("1x"), "\"1x\"");
    assert_eq!(quote_ident("meu campo"), "\"meu campo\"");
    assert_eq!(quote_ident("a\"b"), "\"a\"\"b\"");
    assert_eq!(quote_ident("ação"), "\"ação\"");
    assert_eq!(quote_ident(""), "\"\"");
}

#[test]
fn complete_word_replaces_the_word() {
    let (start, end, ins) = complete_word("nom = 1", 2, "nome completo");
    assert_eq!((start, end), (0, 3));
    assert_eq!(ins, "\"nome completo\" ");
    let (_, _, ins) = complete_word("x", 1, "valor");
    assert_eq!(ins, "valor ");
}

#[test]
fn suggestions_by_typed_prefix() {
    let cols = strings(&["_rid", "Nome", "nota", "valor", "__ord", "no"]);
    // the typed part is what stands before the cursor in the current word
    assert_eq!(suggestions(&cols, "no", 2), strings(&["Nome", "nota"]));
    assert_eq!(suggestions(&cols, "nome", 2), strings(&["Nome", "nota"]));
    assert_eq!(suggestions(&cols, "x = ", 4), Vec::<String>::new());
    assert_eq!(suggestions(&cols, "_", 1), Vec::<String>::new());
    assert_eq!(suggestions(&cols, "V", 1), strings(&["valor"]));
}

#[test]
fn suggestions_are_at_most_eight() {
    let cols: Vec<String> = (0..12).map(|i| format!("c{i}")).collect();
    let s = suggestions(&cols, "c", 1);
    assert_eq!(s.len(), 8);
    assert_eq!(s[7], "c7");
}

#[test]
fn find_next_goes_round() {
    let rows = vec![
        strings(&["Alpha", "1"]),
        strings(&["Beta", "2"]),
        strings(&["alphabet", "3"]),
    ];
    assert_eq!(find_next(&rows, "ALPH", None), Some(0));
    assert_eq!(find_next(&rows, "alph", Some(0)), Some(2));
    assert_eq!(find_next(&rows, "alph", Some(2)), Some(0));
    assert_eq!(find_next(&rows, "3", Some(2)), Some(2));
    assert_eq!(find_next(&rows, "zeta", None), None);
    assert_eq!(find_next(&rows, "", None), None);
    assert_eq!(find_next(&Vec::new(), "a", None), None);
}

#[test]
fn grid_hides_internal_columns() {
    let res = QueryResult {
        columns: strings(&["_rid", "a", "__ord", "b"]),
        rows: vec![strings(&["7", "x", "1", "y"]), strings(&["oops", "z", "2", "w"])],
    };
    let g = grid_of(&res);
    assert_eq!(g.columns, strings(&["a", "b"]));
    assert_eq!(g.rows[0], (7, strings(&["x", "y"])));
    assert_eq!(g.rows[1], (-1, strings(&["z", "w"])));
}

#[test]
fn grid_without_rid_has_no_ids() {
    let res = QueryResult { columns: strings(&["n"]), rows: vec![strings(&["5"])] };
    let g = grid_of(&res);
    assert_eq!(g.rows[0].0, -1);
}

#[test]
fn row_position_finds_first() {
    assert_eq!(row_position(&vec![4, 9, 9], 9), Some(1));
    assert_eq!(row_position(&vec![4, 9], 3), None);
}

#[test]
fn selection_moves_within_bounds() {
    assert_eq!(clamp_selection(0, -1, 5), 0);
    assert_eq!(clamp_selection(2, 1, 5), 3);
    assert_eq!(clamp_selection(5, 1, 5), 5);
}

#[test]
fn new_column_names_skip_taken_ones() {
    assert_eq!(next_column_name(&strings(&["a", "b"])), "coluna3");
    assert_eq!(next_column_name(&strings(&["coluna2", "coluna3"])), "coluna4");
    assert_eq!(next_column_name(&strings(&["coluna4", "coluna3", "x"])), "coluna5");
    assert_eq!(next_column_name(&Vec::new()), "coluna1");
}

#[test]
fn status_lines() {
    assert_eq!(filter_status(3, ""), "Total: 3");
    assert_eq!(filter_status(3, "  "), "Total: 3");
    assert_eq!(filter_status(12, "a = 1"), "Total: 12  ·  filtro: a = 1");
    assert_eq!(
        sql_status(0, "SELECT 1"),
        "Total: 0  ·  SQL (somente leitura): SELECT 1"
    );
}
