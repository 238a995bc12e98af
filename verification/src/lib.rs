//! Table-shaped XML documents (`DATAPACKET` files): reading, editing,
//! writing back, queries and CSV export, and the helpers of the table
//! editor (preferences, interface texts, search, number formats).

pub mod chars;
pub mod text;
pub mod table;
pub mod xmldoc;
pub mod xml_write;
pub mod csv;
pub mod sql;
pub mod frame;
pub mod xml_read;
pub mod i18n;
pub mod config;
pub mod editor;
pub mod numbers;
pub mod round_trip;
