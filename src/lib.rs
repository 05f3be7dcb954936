//! Configuration ingestion and entry-table layout for a terminal file browser.
//!
//! A configuration script leaves a tree of dynamic values behind. `parser` checks that
//! tree against a fixed schema and reports advisory diagnostics; `options` binds it to
//! typed view options; `entry` and `table` turn a directory listing and those options
//! into the rows and column widths that the terminal front end draws.
pub mod text;
pub mod value;
pub mod column;
pub mod options;
pub mod schema;
pub mod similar;
pub mod parser;
pub mod entry;
pub mod size;
pub mod table;
pub mod session;

pub use column::{Alignment, Column, ColumnType};
pub use options::ViewOptions;
