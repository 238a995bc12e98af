# Lê-XML

A reader and editor for table-shaped XML files (`DATAPACKET` documents: a
`METADATA/FIELDS` section that declares the columns and a `ROWDATA` section
with one `ROW` per line). The library is written in Verus: each operation
carries a contract over a mathematical model of the document, and Verus
proves the code against it.

## Layout

- `src/` — the verified library.
  - `table.rs` — the model of a document (`DocV`), its invariant, each
    editing operation as a function on the model, and the laws that relate
    them (moving a row up and back down, adding and dropping a column,
    renaming back, inserting and deleting a row, reading a written cell,
    fresh row ids).
  - `xmldoc.rs` — `XmlDoc` and its editing operations.
  - `xml_read.rs` — reading a document with `quick-xml`: events become
    columns and rows.
  - `xml_write.rs` — writing a document back as XML, and the test of
    whether a column name can stand as an attribute name.
  - `frame.rs` — finding the `<DATAPACKET ...>` tag and the `<PARAMS>`
    section in the raw text.
  - `round_trip.rs` — what writing and reading back keeps.
  - `sql.rs` — loading a document into an in-memory SQLite table `dados`
    and running filters and queries there (`rusqlite`).
  - `csv.rs` — CSV export of a query result.
  - `editor.rs` — the editor's helpers: the word under the cursor, the
    column names offered while typing a filter, search, the grid of a
    result, status lines, names for new columns.
  - `numbers.rs` — numbers in the Brazilian notation.
  - `config.rs`, `i18n.rs` — preferences and interface texts.
  - `text.rs`, `chars.rs` — text primitives.
- `tests/` — tests of the library.
- `app/` — the GTK4/libadwaita application around the library: windows,
  dialogs, file access, the language chosen at startup and the
  floating-point sum of a column.
