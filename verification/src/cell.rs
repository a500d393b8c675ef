use vstd::prelude::*;

verus! {

/// The kinds of value a written cell can hold. A numeric cell carries its
/// locale-independent decimal text rendering (no thousands separators, and
/// integral values without a trailing fractional part), which is what the
/// sheet XML stores.
pub enum CellValue {
    /// A number, as its decimal text rendering.
    Number(String),
    /// A text cell, written as an inline string.
    Text(String),
    /// A boolean cell.
    Bool(bool),
    /// A formula, without a leading equals sign.
    Formula(String),
    /// An empty cell.
    Blank,
}

/// The mathematical shape of a cell value.
pub enum CellV {
    Number(Seq<char>),
    Text(Seq<char>),
    Bool(bool),
    Formula(Seq<char>),
    Blank,
}

impl View for CellValue {
    type V = CellV;

    open spec fn view(&self) -> CellV {
        match self {
            CellValue::Number(s) => CellV::Number(s@),
            CellValue::Text(s) => CellV::Text(s@),
            CellValue::Bool(b) => CellV::Bool(*b),
            CellValue::Formula(s) => CellV::Formula(s@),
            CellValue::Blank => CellV::Blank,
        }
    }
}

impl CellValue {
    /// A numeric cell from its decimal text rendering.
    pub fn num(v: &str) -> (r: Self)
        ensures
            r@ == CellV::Number(v@),
    {
        CellValue::Number(v.to_owned())
    }

    /// A text cell.
    pub fn text(v: &str) -> (r: Self)
        ensures
            r@ == CellV::Text(v@),
    {
        CellValue::Text(v.to_owned())
    }

    /// A boolean cell.
    pub fn bool(v: bool) -> (r: Self)
        ensures
            r@ == CellV::Bool(v),
    {
        CellValue::Bool(v)
    }

    /// A formula cell, such as `SUM(A1:A10)`, without a leading equals sign.
    pub fn formula(v: &str) -> (r: Self)
        ensures
            r@ == CellV::Formula(v@),
    {
        CellValue::Formula(v.to_owned())
    }
}

} // verus!
