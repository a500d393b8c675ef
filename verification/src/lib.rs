use vstd::prelude::*;

mod builder;
mod cell;
mod colref;
mod error;
mod package;
mod reader;
mod registry;
mod rowparse;
mod sheet;
mod style;
mod textutil;
mod xmlevent;

pub use error::MrXlsxError;
pub use textutil::csv_escape;
pub use colref::{col_to_letters, col_ref_to_index, make_cell_ref, lemma_col_round_trip};
pub use cell::{CellValue, CellV};
pub use style::{Border, BorderStyle, Color, Fill, Font, NumberFormat, Style};
pub use registry::StyleRegistry;
pub use sheet::SheetWriter;
pub use package::Workbook;
pub use builder::WorkbookBuilder;
pub use reader::{Row, RowIter, XlsxReader};

verus! {

} // verus!
