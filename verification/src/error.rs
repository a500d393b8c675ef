use vstd::prelude::*;

verus! {

/// The error kinds that the library's fallible operations report.
#[derive(Debug, Clone)]
pub enum MrXlsxError {
    /// A sheet with the given name is already present in the workbook.
    AlreadyExists(String),
    /// The named sheet or archive entry does not exist.
    NotFound(String),
    /// The underlying stream or file operation failed; the message comes
    /// from the failed operation.
    Io(String),
    /// The archive or an XML part inside it is malformed.
    FormatError(String),
}

impl MrXlsxError {
    /// The identifier or message carried by the error.
    pub fn detail(&self) -> (r: &String)
        ensures
            r@ == self.detail_text(),
    {
        match self {
            MrXlsxError::AlreadyExists(s) => s,
            MrXlsxError::NotFound(s) => s,
            MrXlsxError::Io(s) => s,
            MrXlsxError::FormatError(s) => s,
        }
    }

    /// The identifier or message carried by the error, as a sequence.
    pub open spec fn detail_text(&self) -> Seq<char> {
        match self {
            MrXlsxError::AlreadyExists(s) => s@,
            MrXlsxError::NotFound(s) => s@,
            MrXlsxError::Io(s) => s@,
            MrXlsxError::FormatError(s) => s@,
        }
    }
}

} // verus!
