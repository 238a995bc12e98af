//! The interface texts in Portuguese and English.

use vstd::prelude::*;
use crate::chars::{chars_of, chars_eq};

verus! {

/// An interface language.
#[derive(Clone, Copy, PartialEq, Eq, Structural, Debug)]
pub enum Lang {
    Pt,
    En,
}

/// Whether a language code names English (it starts with `en`).
pub open spec fn names_english(s: Seq<char>) -> bool {
    s.len() >= 2 && s[0] == 'e' && s[1] == 'n'
}

/// The language a code selects: English for codes starting with `en`,
/// Portuguese for any other.
pub open spec fn lang_of_code(s: Seq<char>) -> Lang {
    if names_english(s) {
        Lang::En
    } else {
        Lang::Pt
    }
}

/// The code of a language.
pub open spec fn code_of(l: Lang) -> Seq<char> {
    match l {
        Lang::Pt => "pt"@,
        Lang::En => "en"@,
    }
}

/// The language a code selects.
pub fn from_code(s: &str) -> (l: Lang)
    ensures
        l == lang_of_code(s@),
{
    let c = chars_of(s);
    if c.len() >= 2 && c[0] == 'e' && c[1] == 'n' {
        Lang::En
    } else {
        Lang::Pt
    }
}

/// The code of a language, as `from_code` reads it.
pub fn code(l: Lang) -> (r: &'static str)
    ensures
        r@ == code_of(l),
{
    match l {
        Lang::Pt => "pt",
        Lang::En => "en",
    }
}

/// The number of entries in the catalog of texts.
pub open spec fn catalog_len() -> int {
    74
}

/// Entry `i` of the catalog: a key, its Portuguese text, its English text.
pub open spec fn entry(i: usize) -> (Seq<char>, Seq<char>, Seq<char>) {
    match i {
        0 => ("open_new_window_tooltip"@, "Abrir XML em nova janela"@, "Open XML in a new window"@),
        1 => ("new_file_tooltip"@, "Novo arquivo em branco"@, "New blank file"@),
        2 => ("app_subtitle"@, "Leitor de XML em tabela"@, "XML table reader"@),
        3 => ("open_file"@, "Abrir arquivo"@, "Open file"@),
        4 => ("no_file_open"@, "Nenhum arquivo aberto"@, "No file open"@),
        5 => ("no_file_desc"@, "Abra um arquivo .xml para visualizar em tabela."@, "Open an .xml file to view it as a table."@),
        6 => ("open_xml_title"@, "Abrir XML"@, "Open XML"@),
        7 => ("xml_files"@, "Arquivos XML"@, "XML files"@),
        8 => ("settings"@, "Configurações"@, "Settings"@),
        9 => ("general"@, "Geral"@, "General"@),
        10 => ("language"@, "Idioma"@, "Language"@),
        11 => ("theme"@, "Tema"@, "Theme"@),
        12 => ("color_scheme"@, "Esquema de cores"@, "Color scheme"@),
        13 => ("theme_system"@, "Seguir o sistema"@, "Follow system"@),
        14 => ("theme_light"@, "Claro"@, "Light"@),
        15 => ("theme_dark"@, "Escuro"@, "Dark"@),
        16 => ("appearance"@, "Aparência"@, "Appearance"@),
        17 => ("appearance_auto"@, "Automático"@, "Automatic"@),
        18 => ("about"@, "Sobre"@, "About"@),
        19 => ("about_desc"@, "Leitor e editor de arquivos XML em formato de tabela, nativo para Linux (GTK4 + libadwaita)."@, "Reader and editor for XML table files, native to Linux (GTK4 + libadwaita)."@),
        20 => ("author"@, "Autor"@, "Author"@),
        21 => ("repository"@, "Repositório"@, "Repository"@),
        22 => ("lang_restart_note"@, "O idioma será aplicado ao reiniciar o app."@, "The language will apply after restarting the app."@),
        23 => ("unsaved_title"@, "Alterações não salvas"@, "Unsaved changes"@),
        24 => ("unsaved_body"@, "Você fez edições que ainda não foram salvas. O que deseja fazer?"@, "You made edits that have not been saved yet. What would you like to do?"@),
        25 => ("cancel"@, "Cancelar"@, "Cancel"@),
        26 => ("close_without_saving"@, "Fechar sem salvar"@, "Close without saving"@),
        27 => ("save_ellipsis"@, "Salvar…"@, "Save…"@),
        28 => ("ok"@, "OK"@, "OK"@),
        29 => ("find_placeholder"@, "Localizar…"@, "Find…"@),
        30 => ("filter_placeholder"@, "Filtrar (SQL WHERE) — ex: valor <> '0.00'"@, "Filter (SQL WHERE) — e.g. valor <> '0.00'"@),
        31 => ("filter_tooltip"@, "Aplicar filtro (WHERE)"@, "Apply filter (WHERE)"@),
        32 => ("sql_tooltip"@, "Consulta SQL completa (somente leitura)"@, "Full SQL query (read-only)"@),
        33 => ("sum_label"@, "Σ Somar"@, "Σ Sum"@),
        34 => ("sum_tooltip"@, "Somar uma coluna"@, "Sum a column"@),
        35 => ("columns_label"@, "Colunas…"@, "Columns…"@),
        36 => ("columns_tooltip"@, "Adicionar, renomear ou excluir colunas"@, "Add, rename or delete columns"@),
        37 => ("add_row_label"@, "+ Linha"@, "+ Row"@),
        38 => ("add_row_tooltip"@, "Adicionar uma linha em branco"@, "Add a blank row"@),
        39 => ("save_tooltip"@, "Salvar como .xml"@, "Save as .xml"@),
        40 => ("csv_tooltip"@, "Exportar CSV"@, "Export CSV"@),
        41 => ("sum_column_title"@, "Somar coluna"@, "Sum column"@),
        42 => ("sum_column_body"@, "Escolha a coluna a somar:"@, "Choose the column to sum:"@),
        43 => ("sum"@, "Somar"@, "Sum"@),
        44 => ("total"@, "Total"@, "Total"@),
        45 => ("numeric_values"@, "valor(es) numérico(s)"@, "numeric value(s)"@),
        46 => ("sum_failed"@, "Não foi possível somar:"@, "Could not sum:"@),
        47 => ("sql_title"@, "Consulta SQL"@, "SQL query"@),
        48 => ("sql_body"@, "Tabela: dados — resultado somente leitura."@, "Table: dados — read-only result."@),
        49 => ("run"@, "Executar"@, "Run"@),
        50 => ("error"@, "Erro"@, "Error"@),
        51 => ("save_as_xml"@, "Salvar como .xml"@, "Save as .xml"@),
        52 => ("export_csv_title"@, "Exportar CSV"@, "Export CSV"@),
        53 => ("csv_export_error"@, "Erro ao exportar CSV:"@, "Error exporting CSV:"@),
        54 => ("save_error"@, "Erro ao salvar:"@, "Error saving:"@),
        55 => ("cell_write_error"@, "Erro ao gravar célula:"@, "Error writing cell:"@),
        56 => ("filter_error"@, "Erro no filtro SQL:"@, "SQL filter error:"@),
        57 => ("sql_error"@, "Erro SQL:"@, "SQL error:"@),
        58 => ("manage_columns"@, "Gerenciar colunas"@, "Manage columns"@),
        59 => ("manage_columns_body"@, "Adicione, renomeie ou exclua colunas do documento."@, "Add, rename or delete the document's columns."@),
        60 => ("new_column_placeholder"@, "Nome da nova coluna"@, "New column name"@),
        61 => ("add"@, "Adicionar"@, "Add"@),
        62 => ("delete"@, "Excluir"@, "Delete"@),
        63 => ("close"@, "Fechar"@, "Close"@),
        64 => ("column_op_error"@, "Erro na operação de coluna:"@, "Column operation error:"@),
        65 => ("ctx_row_above"@, "Nova linha acima"@, "New row above"@),
        66 => ("ctx_row_below"@, "Nova linha abaixo"@, "New row below"@),
        67 => ("ctx_row_delete"@, "Excluir linha"@, "Delete row"@),
        68 => ("ctx_col_add"@, "Adicionar coluna"@, "Add column"@),
        69 => ("ctx_col_delete"@, "Excluir coluna"@, "Delete column"@),
        70 => ("ctx_col_sum"@, "Σ Somar coluna"@, "Σ Sum column"@),
        71 => ("rename_column"@, "Renomear coluna"@, "Rename column"@),
        72 => ("text_mode_status"@, "Modo texto — XML sem estrutura de tabela"@, "Text mode — XML without table structure"@),
        73 => ("save_as"@, "Salvar como…"@, "Save as…"@),
        _ => (Seq::empty(), Seq::empty(), Seq::empty()),
    }
}

/// The first entry at or after `i` with the given key.
pub open spec fn find_key(key: Seq<char>, i: int) -> Option<int>
    decreases catalog_len() - i,
{
    if i < 0 || i >= catalog_len() {
        None
    } else if entry(i as usize).0 == key {
        Some(i)
    } else {
        find_key(key, i + 1)
    }
}

/// The text of a key in a language: that of the key's entry, or empty for
/// a key that the catalog lacks.
pub open spec fn text_of(l: Lang, key: Seq<char>) -> Seq<char> {
    match find_key(key, 0) {
        Some(i) => match l {
            Lang::Pt => entry(i as usize).1,
            Lang::En => entry(i as usize).2,
        },
        None => Seq::empty(),
    }
}

fn entry_at(i: usize) -> (r: (&'static str, &'static str, &'static str))
    requires
        i < catalog_len(),
    ensures
        (r.0@, r.1@, r.2@) == entry(i),
{
    match i {
        0 => ("open_new_window_tooltip", "Abrir XML em nova janela", "Open XML in a new window"),
        1 => ("new_file_tooltip", "Novo arquivo em branco", "New blank file"),
        2 => ("app_subtitle", "Leitor de XML em tabela", "XML table reader"),
        3 => ("open_file", "Abrir arquivo", "Open file"),
        4 => ("no_file_open", "Nenhum arquivo aberto", "No file open"),
        5 => ("no_file_desc", "Abra um arquivo .xml para visualizar em tabela.", "Open an .xml file to view it as a table."),
        6 => ("open_xml_title", "Abrir XML", "Open XML"),
        7 => ("xml_files", "Arquivos XML", "XML files"),
        8 => ("settings", "Configurações", "Settings"),
        9 => ("general", "Geral", "General"),
        10 => ("language", "Idioma", "Language"),
        11 => ("theme", "Tema", "Theme"),
        12 => ("color_scheme", "Esquema de cores", "Color scheme"),
        13 => ("theme_system", "Seguir o sistema", "Follow system"),
        14 => ("theme_light", "Claro", "Light"),
        15 => ("theme_dark", "Escuro", "Dark"),
        16 => ("appearance", "Aparência", "Appearance"),
        17 => ("appearance_auto", "Automático", "Automatic"),
        18 => ("about", "Sobre", "About"),
        19 => ("about_desc", "Leitor e editor de arquivos XML em formato de tabela, nativo para Linux (GTK4 + libadwaita).", "Reader and editor for XML table files, native to Linux (GTK4 + libadwaita)."),
        20 => ("author", "Autor", "Author"),
        21 => ("repository", "Repositório", "Repository"),
        22 => ("lang_restart_note", "O idioma será aplicado ao reiniciar o app.", "The language will apply after restarting the app."),
        23 => ("unsaved_title", "Alterações não salvas", "Unsaved changes"),
        24 => ("unsaved_body", "Você fez edições que ainda não foram salvas. O que deseja fazer?", "You made edits that have not been saved yet. What would you like to do?"),
        25 => ("cancel", "Cancelar", "Cancel"),
        26 => ("close_without_saving", "Fechar sem salvar", "Close without saving"),
        27 => ("save_ellipsis", "Salvar…", "Save…"),
        28 => ("ok", "OK", "OK"),
        29 => ("find_placeholder", "Localizar…", "Find…"),
        30 => ("filter_placeholder", "Filtrar (SQL WHERE) — ex: valor <> '0.00'", "Filter (SQL WHERE) — e.g. valor <> '0.00'"),
        31 => ("filter_tooltip", "Aplicar filtro (WHERE)", "Apply filter (WHERE)"),
        32 => ("sql_tooltip", "Consulta SQL completa (somente leitura)", "Full SQL query (read-only)"),
        33 => ("sum_label", "Σ Somar", "Σ Sum"),
        34 => ("sum_tooltip", "Somar uma coluna", "Sum a column"),
        35 => ("columns_label", "Colunas…", "Columns…"),
        36 => ("columns_tooltip", "Adicionar, renomear ou excluir colunas", "Add, rename or delete columns"),
        37 => ("add_row_label", "+ Linha", "+ Row"),
        38 => ("add_row_tooltip", "Adicionar uma linha em branco", "Add a blank row"),
        39 => ("save_tooltip", "Salvar como .xml", "Save as .xml"),
        40 => ("csv_tooltip", "Exportar CSV", "Export CSV"),
        41 => ("sum_column_title", "Somar coluna", "Sum column"),
        42 => ("sum_column_body", "Escolha a coluna a somar:", "Choose the column to sum:"),
        43 => ("sum", "Somar", "Sum"),
        44 => ("total", "Total", "Total"),
        45 => ("numeric_values", "valor(es) numérico(s)", "numeric value(s)"),
        46 => ("sum_failed", "Não foi possível somar:", "Could not sum:"),
        47 => ("sql_title", "Consulta SQL", "SQL query"),
        48 => ("sql_body", "Tabela: dados — resultado somente leitura.", "Table: dados — read-only result."),
        49 => ("run", "Executar", "Run"),
        50 => ("error", "Erro", "Error"),
        51 => ("save_as_xml", "Salvar como .xml", "Save as .xml"),
        52 => ("export_csv_title", "Exportar CSV", "Export CSV"),
        53 => ("csv_export_error", "Erro ao exportar CSV:", "Error exporting CSV:"),
        54 => ("save_error", "Erro ao salvar:", "Error saving:"),
        55 => ("cell_write_error", "Erro ao gravar célula:", "Error writing cell:"),
        56 => ("filter_error", "Erro no filtro SQL:", "SQL filter error:"),
        57 => ("sql_error", "Erro SQL:", "SQL error:"),
        58 => ("manage_columns", "Gerenciar colunas", "Manage columns"),
        59 => ("manage_columns_body", "Adicione, renomeie ou exclua colunas do documento.", "Add, rename or delete the document's columns."),
        60 => ("new_column_placeholder", "Nome da nova coluna", "New column name"),
        61 => ("add", "Adicionar", "Add"),
        62 => ("delete", "Excluir", "Delete"),
        63 => ("close", "Fechar", "Close"),
        64 => ("column_op_error", "Erro na operação de coluna:", "Column operation error:"),
        65 => ("ctx_row_above", "Nova linha acima", "New row above"),
        66 => ("ctx_row_below", "Nova linha abaixo", "New row below"),
        67 => ("ctx_row_delete", "Excluir linha", "Delete row"),
        68 => ("ctx_col_add", "Adicionar coluna", "Add column"),
        69 => ("ctx_col_delete", "Excluir coluna", "Delete column"),
        70 => ("ctx_col_sum", "Σ Somar coluna", "Σ Sum column"),
        71 => ("rename_column", "Renomear coluna", "Rename column"),
        72 => ("text_mode_status", "Modo texto — XML sem estrutura de tabela", "Text mode — XML without table structure"),
        73 => ("save_as", "Salvar como…", "Save as…"),
        _ => ("", "", ""),
    }
}

/// The text of `key` in language `l`.
pub fn tr(l: Lang, key: &str) -> (r: &'static str)
    ensures
        r@ == text_of(l, key@),
{
    let k = chars_of(key);
    let mut i: usize = 0;
    while i < 74
        invariant
            0 <= i <= catalog_len(),
            k@ == key@,
            find_key(key@, 0) == find_key(key@, i as int),
        decreases catalog_len() - i,
    {
        let e = entry_at(i);
        let ek = chars_of(e.0);
        if chars_eq(&ek, &k) {
            return match l {
                Lang::Pt => e.1,
                Lang::En => e.2,
            };
        }
        i = i + 1;
    }
    proof {
        reveal_strlit("");
    }
    ""
}

/// The Portuguese text of `key`.
pub fn pt(key: &str) -> (r: &'static str)
    ensures
        r@ == text_of(Lang::Pt, key@),
{
    tr(Lang::Pt, key)
}

/// The English text of `key`.
pub fn en(key: &str) -> (r: &'static str)
    ensures
        r@ == text_of(Lang::En, key@),
{
    tr(Lang::En, key)
}

/// Reading back the code of a language gives the language.
pub proof fn law_code_round_trip(l: Lang)
    ensures
        lang_of_code(code_of(l)) == l,
{
    reveal_strlit("pt");
    reveal_strlit("en");
}

/// Every entry of the catalog has a text in both languages.
proof fn lemma_entry_texts(i: usize)
    requires
        i < catalog_len(),
    ensures
        entry(i).1.len() > 0,
        entry(i).2.len() > 0,
{
    match i {
        0 => {
            reveal_strlit("Abrir XML em nova janela");
            reveal_strlit("Open XML in a new window");
        },
        1 => {
            reveal_strlit("Novo arquivo em branco");
            reveal_strlit("New blank file");
        },
        2 => {
            reveal_strlit("Leitor de XML em tabela");
            reveal_strlit("XML table reader");
        },
        3 => {
            reveal_strlit("Abrir arquivo");
            reveal_strlit("Open file");
        },
        4 => {
            reveal_strlit("Nenhum arquivo aberto");
            reveal_strlit("No file open");
        },
        5 => {
            reveal_strlit("Abra um arquivo .xml para visualizar em tabela.");
            reveal_strlit("Open an .xml file to view it as a table.");
        },
        6 => {
            reveal_strlit("Abrir XML");
            reveal_strlit("Open XML");
        },
        7 => {
            reveal_strlit("Arquivos XML");
            reveal_strlit("XML files");
        },
        8 => {
            reveal_strlit("Configurações");
            reveal_strlit("Settings");
        },
        9 => {
            reveal_strlit("Geral");
            reveal_strlit("General");
        },
        10 => {
            reveal_strlit("Idioma");
            reveal_strlit("Language");
        },
        11 => {
            reveal_strlit("Tema");
            reveal_strlit("Theme");
        },
        12 => {
            reveal_strlit("Esquema de cores");
            reveal_strlit("Color scheme");
        },
        13 => {
            reveal_strlit("Seguir o sistema");
            reveal_strlit("Follow system");
        },
        14 => {
            reveal_strlit("Claro");
            reveal_strlit("Light");
        },
        15 => {
            reveal_strlit("Escuro");
            reveal_strlit("Dark");
        },
        16 => {
            reveal_strlit("Aparência");
            reveal_strlit("Appearance");
        },
        17 => {
            reveal_strlit("Automático");
            reveal_strlit("Automatic");
        },
        18 => {
            reveal_strlit("Sobre");
            reveal_strlit("About");
        },
        19 => {
            reveal_strlit("Leitor e editor de arquivos XML em formato de tabela, nativo para Linux (GTK4 + libadwaita).");
            reveal_strlit("Reader and editor for XML table files, native to Linux (GTK4 + libadwaita).");
        },
        20 => {
            reveal_strlit("Autor");
            reveal_strlit("Author");
        },
        21 => {
            reveal_strlit("Repositório");
            reveal_strlit("Repository");
        },
        22 => {
            reveal_strlit("O idioma será aplicado ao reiniciar o app.");
            reveal_strlit("The language will apply after restarting the app.");
        },
        23 => {
            reveal_strlit("Alterações não salvas");
            reveal_strlit("Unsaved changes");
        },
        24 => {
            reveal_strlit("Você fez edições que ainda não foram salvas. O que deseja fazer?");
            reveal_strlit("You made edits that have not been saved yet. What would you like to do?");
        },
        25 => {
            reveal_strlit("Cancelar");
            reveal_strlit("Cancel");
        },
        26 => {
            reveal_strlit("Fechar sem salvar");
            reveal_strlit("Close without saving");
        },
        27 => {
            reveal_strlit("Salvar…");
            reveal_strlit("Save…");
        },
        28 => {
            reveal_strlit("OK");
            reveal_strlit("OK");
        },
        29 => {
            reveal_strlit("Localizar…");
            reveal_strlit("Find…");
        },
        30 => {
            reveal_strlit("Filtrar (SQL WHERE) — ex: valor <> '0.00'");
            reveal_strlit("Filter (SQL WHERE) — e.g. valor <> '0.00'");
        },
        31 => {
            reveal_strlit("Aplicar filtro (WHERE)");
            reveal_strlit("Apply filter (WHERE)");
        },
        32 => {
            reveal_strlit("Consulta SQL completa (somente leitura)");
            reveal_strlit("Full SQL query (read-only)");
        },
        33 => {
            reveal_strlit("Σ Somar");
            reveal_strlit("Σ Sum");
        },
        34 => {
            reveal_strlit("Somar uma coluna");
            reveal_strlit("Sum a column");
        },
        35 => {
            reveal_strlit("Colunas…");
            reveal_strlit("Columns…");
        },
        36 => {
            reveal_strlit("Adicionar, renomear ou excluir colunas");
            reveal_strlit("Add, rename or delete columns");
        },
        37 => {
            reveal_strlit("+ Linha");
            reveal_strlit("+ Row");
        },
        38 => {
            reveal_strlit("Adicionar uma linha em branco");
            reveal_strlit("Add a blank row");
        },
        39 => {
            reveal_strlit("Salvar como .xml");
            reveal_strlit("Save as .xml");
        },
        40 => {
            reveal_strlit("Exportar CSV");
            reveal_strlit("Export CSV");
        },
        41 => {
            reveal_strlit("Somar coluna");
            reveal_strlit("Sum column");
        },
        42 => {
            reveal_strlit("Escolha a coluna a somar:");
            reveal_strlit("Choose the column to sum:");
        },
        43 => {
            reveal_strlit("Somar");
            reveal_strlit("Sum");
        },
        44 => {
            reveal_strlit("Total");
            reveal_strlit("Total");
        },
        45 => {
            reveal_strlit("valor(es) numérico(s)");
            reveal_strlit("numeric value(s)");
        },
        46 => {
            reveal_strlit("Não foi possível somar:");
            reveal_strlit("Could not sum:");
        },
        47 => {
            reveal_strlit("Consulta SQL");
            reveal_strlit("SQL query");
        },
        48 => {
            reveal_strlit("Tabela: dados — resultado somente leitura.");
            reveal_strlit("Table: dados — read-only result.");
        },
        49 => {
            reveal_strlit("Executar");
            reveal_strlit("Run");
        },
        50 => {
            reveal_strlit("Erro");
            reveal_strlit("Error");
        },
        51 => {
            reveal_strlit("Salvar como .xml");
            reveal_strlit("Save as .xml");
        },
        52 => {
            reveal_strlit("Exportar CSV");
            reveal_strlit("Export CSV");
        },
        53 => {
            reveal_strlit("Erro ao exportar CSV:");
            reveal_strlit("Error exporting CSV:");
        },
        54 => {
            reveal_strlit("Erro ao salvar:");
            reveal_strlit("Error saving:");
        },
        55 => {
            reveal_strlit("Erro ao gravar célula:");
            reveal_strlit("Error writing cell:");
        },
        56 => {
            reveal_strlit("Erro no filtro SQL:");
            reveal_strlit("SQL filter error:");
        },
        57 => {
            reveal_strlit("Erro SQL:");
            reveal_strlit("SQL error:");
        },
        58 => {
            reveal_strlit("Gerenciar colunas");
            reveal_strlit("Manage columns");
        },
        59 => {
            reveal_strlit("Adicione, renomeie ou exclua colunas do documento.");
            reveal_strlit("Add, rename or delete the document's columns.");
        },
        60 => {
            reveal_strlit("Nome da nova coluna");
            reveal_strlit("New column name");
        },
        61 => {
            reveal_strlit("Adicionar");
            reveal_strlit("Add");
        },
        62 => {
            reveal_strlit("Excluir");
            reveal_strlit("Delete");
        },
        63 => {
            reveal_strlit("Fechar");
            reveal_strlit("Close");
        },
        64 => {
            reveal_strlit("Erro na operação de coluna:");
            reveal_strlit("Column operation error:");
        },
        65 => {
            reveal_strlit("Nova linha acima");
            reveal_strlit("New row above");
        },
        66 => {
            reveal_strlit("Nova linha abaixo");
            reveal_strlit("New row below");
        },
        67 => {
            reveal_strlit("Excluir linha");
            reveal_strlit("Delete row");
        },
        68 => {
            reveal_strlit("Adicionar coluna");
            reveal_strlit("Add column");
        },
        69 => {
            reveal_strlit("Excluir coluna");
            reveal_strlit("Delete column");
        },
        70 => {
            reveal_strlit("Σ Somar coluna");
            reveal_strlit("Σ Sum column");
        },
        71 => {
            reveal_strlit("Renomear coluna");
            reveal_strlit("Rename column");
        },
        72 => {
            reveal_strlit("Modo texto — XML sem estrutura de tabela");
            reveal_strlit("Text mode — XML without table structure");
        },
        73 => {
            reveal_strlit("Salvar como…");
            reveal_strlit("Save as…");
        },
        _ => {},
    }
}

/// A key found from `i` on is found at an entry of the catalog.
proof fn lemma_find_key_range(key: Seq<char>, i: int)
    ensures
        find_key(key, i) matches Some(j) ==> 0 <= i <= j < catalog_len(),
    decreases catalog_len() - i,
{
    if 0 <= i < catalog_len() && entry(i as usize).0 != key {
        lemma_find_key_range(key, i + 1);
    }
}

/// Both catalogs define the same keys: a key has an English text exactly
/// when it has a Portuguese one, and a key that neither defines reads the
/// same, empty, in both.
pub proof fn law_catalogs_share_keys(key: Seq<char>)
    ensures
        (text_of(Lang::En, key).len() == 0) == (text_of(Lang::Pt, key).len() == 0),
        text_of(Lang::En, key).len() == 0 ==> text_of(Lang::En, key) == text_of(Lang::Pt, key),
{
    lemma_find_key_range(key, 0);
    if let Some(j) = find_key(key, 0) {
        lemma_entry_texts(j as usize);
    }
}

} // verus!
