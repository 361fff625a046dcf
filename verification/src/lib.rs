//! A spreadsheet engine's logic: formulas, dependency order, and the file formats around them.
pub mod text;
pub mod token;
pub mod parse;
mod toposort;
pub mod decimal;
pub mod address;
pub mod depgraph;
mod keyset;
mod sorting;
pub mod value;
pub mod evaluator;
pub mod engine;
pub mod write_back;
pub mod recalc;
pub mod custom_fn;
pub mod numeral;
pub mod xml;
pub mod style;
pub mod snapshot;
pub mod csv;
pub mod xlsx_style;
pub mod outline;
pub mod xlsx_drawing;
pub mod archive;
pub mod xlsx;
pub mod xlsx_book;
pub mod scan;
pub mod xlsx_styles_read;
pub mod xlsx_read;
pub mod xlsx_page;
pub mod worksheet;
pub mod export_html;
pub mod export_pdf;
pub mod kernel;
pub mod reading;
pub mod logic_fn;
pub mod pattern;
pub mod criteria;
pub mod text_fn;
pub mod lookup_fn;
pub mod radix_fn;
pub mod calendar;
pub mod date_fn;
pub mod number_fn;
pub mod stat_fn;
pub mod series_fn;
pub mod database_fn;
pub mod engineering_fn;
pub mod complex_fn;
pub mod builtin;
pub mod builtin_names;
pub mod calling;
pub mod find_law;
pub mod cell_law;
pub mod row_law;
pub mod column_law;
pub mod sheet_law;
pub mod sheet_round;
pub mod page_law;
pub mod round_trip;
pub mod strings_law;
pub mod book_law;
pub mod book_round;
pub mod outline_law;
pub mod font_law;
pub mod border_law;
pub mod align_law;
pub mod format_law;
pub mod styles_law;
pub mod style_round;
pub mod recalc_law;
pub mod value_law;
pub mod edit_law;
pub mod range_law;
pub mod csv_law;
pub mod lookup_law;
pub mod reading_law;
pub mod logic_law;
pub mod text_law;
pub mod criteria_law;
pub mod stat_law;
pub mod date_law;
pub mod radix_law;
pub mod record_law;
pub mod eval_law;
pub mod put_law;
pub mod show_law;
pub mod foreign_law;
pub mod part_law;
pub mod parse_law;
pub mod formula_law;
pub mod snapshot_law;
