use vstd::prelude::*;

use crate::error::MrXlsxError;
use crate::package::{names_view, wb_names, wb_wf, Workbook};
use crate::registry::new_registry;

verus! {

/// Collects construction options for a workbook: an optional pre-declared
/// sheet list.
pub struct WorkbookBuilder {
    /// The sheets to create up front, in order.
    pub sheets: Vec<String>,
}

impl WorkbookBuilder {
    /// A builder with no pre-declared sheets.
    pub fn new() -> (r: Self)
        ensures
            r.sheets@.len() == 0,
    {
        WorkbookBuilder { sheets: Vec::new() }
    }

    /// Replaces the pre-declared sheet list.
    pub fn set_sheets(self, sheets: Vec<String>) -> (r: Self)
        ensures
            r.sheets == sheets,
    {
        let mut b = self;
        b.sheets = sheets;
        b
    }

    /// Builds the workbook, creating every pre-declared sheet in order. A
    /// repeated name fails with `AlreadyExists`.
    pub fn build(self) -> (r: Result<Workbook, MrXlsxError>)
        ensures
            r matches Ok(wb) ==> {
                &&& wb_names(wb.sheets@) == names_view(self.sheets@)
                &&& wb.styles@ == new_registry()
                &&& wb_wf(wb)
            },
    {
        Workbook::new_with_sheets(&self.sheets)
    }
}

} // verus!
