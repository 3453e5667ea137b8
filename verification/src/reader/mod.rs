//! Reading tables out of worksheet grids.
use crate::text::{owned, str_eq};
use vstd::prelude::*;

pub mod excel;
pub mod grid;

pub use excel::ExcelReader;

verus! {

/// Why a table could not be read.
#[derive(Debug)]
pub enum ExcelError {
    /// Data was loaded twice.
    DuplicateLoad,
    /// The workbook or sheet could not be loaded; the loader's message.
    Load(String),
    /// No data has been loaded.
    NotLoad,
    /// The table could not be found in the sheet.
    Find(String),
    /// The cells could not be turned into a table.
    Transform(String),
}

pub enum ExcelErrorV {
    DuplicateLoad,
    Load(Seq<char>),
    NotLoad,
    Find(Seq<char>),
    Transform(Seq<char>),
}

impl View for ExcelError {
    type V = ExcelErrorV;

    open spec fn view(&self) -> ExcelErrorV {
        match self {
            ExcelError::DuplicateLoad => ExcelErrorV::DuplicateLoad,
            ExcelError::Load(s) => ExcelErrorV::Load(s@),
            ExcelError::NotLoad => ExcelErrorV::NotLoad,
            ExcelError::Find(s) => ExcelErrorV::Find(s@),
            ExcelError::Transform(s) => ExcelErrorV::Transform(s@),
        }
    }
}

/// The formats of workbooks.
#[derive(Debug, Clone, Copy, PartialEq, Eq, Structural)]
pub enum WorkbookFormat {
    Xls,
    Xlsx,
    Xlsb,
    Ods,
}

/// The format a file extension names: `xls` and `xla` are Xls; `xlsx`,
/// `xlsm` and `xlam` are Xlsx; `xlsb` is Xlsb; `ods` is Ods.
pub open spec fn format_spec(ext: Seq<char>) -> Option<WorkbookFormat> {
    if ext == "xls"@ || ext == "xla"@ {
        Some(WorkbookFormat::Xls)
    } else if ext == "xlsx"@ || ext == "xlsm"@ || ext == "xlam"@ {
        Some(WorkbookFormat::Xlsx)
    } else if ext == "xlsb"@ {
        Some(WorkbookFormat::Xlsb)
    } else if ext == "ods"@ {
        Some(WorkbookFormat::Ods)
    } else {
        None
    }
}

pub open spec fn unknown_format() -> Seq<char> {
    "Cannot detect file format"@
}

/// The format of a workbook by its extension (see [`format_spec`]); a load
/// error when the extension names none.
pub fn workbook_format(extension: &str) -> (r: Result<WorkbookFormat, ExcelError>)
    ensures
        match format_spec(extension@) {
            Some(f) => r == Ok::<WorkbookFormat, ExcelError>(f),
            None => r matches Err(e) && e@ == ExcelErrorV::Load(unknown_format()),
        },
{
    if str_eq(extension, "xls") || str_eq(extension, "xla") {
        Ok(WorkbookFormat::Xls)
    } else if str_eq(extension, "xlsx") || str_eq(extension, "xlsm") || str_eq(extension, "xlam") {
        Ok(WorkbookFormat::Xlsx)
    } else if str_eq(extension, "xlsb") {
        Ok(WorkbookFormat::Xlsb)
    } else if str_eq(extension, "ods") {
        Ok(WorkbookFormat::Ods)
    } else {
        Err(ExcelError::Load(owned("Cannot detect file format")))
    }
}

} // verus!
