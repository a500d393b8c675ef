use vstd::prelude::*;

use crate::cell::{CellV, CellValue};
use crate::colref::{cell_ref_text, make_cell_ref};
use crate::error::MrXlsxError;
use crate::registry::{has_custom_room, reg_wf, register_spec, RegV, StyleRegistry};
use crate::style::{Style, StyleV};
use crate::textutil::{dec_str, u32_to_string, xml_escape, xml_escaped};

verus! {

// ---------------------------------------------------------------------------
// The spill sink: a temporary file that the in-progress sheet XML streams
// into, so that a sheet never has to sit in memory whole.
// ---------------------------------------------------------------------------

/// One sheet's spill storage: a buffered temporary file owning the XML
/// fragment written so far. Held opaque; `sink_text` names its contents.
#[verifier::external_body]
pub struct SheetSink {
    inner: std::io::BufWriter<tempfile::NamedTempFile>,
}

/// The text written into a sink so far.
pub uninterp spec fn sink_text(s: SheetSink) -> Seq<char>;

/// Relies on tempfile::NamedTempFile::new: a fresh temporary file is empty;
/// creation can fail with the underlying error.
#[verifier::external_body]
fn sink_new() -> (r: Result<SheetSink, MrXlsxError>)
    ensures
        r matches Ok(s) ==> sink_text(s) == Seq::<char>::empty(),
        r matches Err(e) ==> e matches MrXlsxError::Io(_),
{
    match tempfile::NamedTempFile::new() {
        Ok(f) => Ok(SheetSink { inner: std::io::BufWriter::new(f) }),
        Err(e) => Err(MrXlsxError::Io(e.to_string())),
    }
}

/// Relies on std::io::Write::write_all on the buffered temporary file: on
/// success every byte is appended in order; on failure the sink's contents
/// are unspecified.
#[verifier::external_body]
fn sink_append(s: &mut SheetSink, text: &str) -> (r: Result<(), MrXlsxError>)
    ensures
        r is Ok ==> sink_text(*final(s)) == sink_text(*old(s)) + text@,
        r matches Err(e) ==> e matches MrXlsxError::Io(_),
{
    match std::io::Write::write_all(&mut s.inner, text.as_bytes()) {
        Ok(()) => Ok(()),
        Err(e) => Err(MrXlsxError::Io(e.to_string())),
    }
}

/// Relies on std::io::Write::flush, std::io::Seek::rewind and
/// std::io::Read::read_to_string on the temporary file: returns everything
/// written so far, decoded as UTF-8, leaving the contents in place.
#[verifier::external_body]
fn sink_read_all(s: &mut SheetSink) -> (r: Result<String, MrXlsxError>)
    ensures
        sink_text(*final(s)) == sink_text(*old(s)),
        r matches Ok(t) ==> t@ == sink_text(*old(s)),
        r matches Err(e) ==> e matches MrXlsxError::Io(_),
{
    if let Err(e) = std::io::Write::flush(&mut s.inner) {
        return Err(MrXlsxError::Io(e.to_string()));
    }
    let file = s.inner.get_mut();
    if let Err(e) = std::io::Seek::rewind(file) {
        return Err(MrXlsxError::Io(e.to_string()));
    }
    let mut buf = String::new();
    match std::io::Read::read_to_string(file, &mut buf) {
        Ok(_) => Ok(buf),
        Err(e) => Err(MrXlsxError::Io(e.to_string())),
    }
}

// ---------------------------------------------------------------------------
// The sheet XML encoding.
// ---------------------------------------------------------------------------

/// The fixed opening of every sheet part, up to and including the open row
/// container.
pub open spec fn sheet_header_text() -> Seq<char> {
    "<?xml version=\"1.0\" encoding=\"UTF-8\" standalone=\"yes\"?>"@
        + "<worksheet xmlns=\"http://schemas.openxmlformats.org/spreadsheetml/2006/main\">"@
        + "<sheetViews><sheetView workbookViewId=\"0\"/></sheetViews>"@
        + "<sheetFormatPr defaultRowHeight=\"15\"/>"@ + "<sheetData>"@
}

/// The fixed closing of every sheet part: the row container ends, a fixed
/// page-margin element follows, and the sheet element closes.
pub open spec fn sheet_footer_text() -> Seq<char> {
    "</sheetData>"@
        + "<pageMargins left=\"0.75\" right=\"0.75\" top=\"1\" bottom=\"1\" header=\"0.5\" footer=\"0.5\"/>"@
        + "</worksheet>"@
}

/// The style attribute a cell carries: nothing for the default index zero or
/// for an unstyled write.
pub open spec fn style_attr_text(style_idx: Option<int>) -> Seq<char> {
    match style_idx {
        Option::None => Seq::<char>::empty(),
        Option::Some(n) => if n == 0 {
            Seq::<char>::empty()
        } else {
            " s=\""@ + dec_str(n) + "\""@
        },
    }
}

/// The XML element of one cell at a given address: a self-closed element for
/// a blank, a value element for a number, an escaped inline string for text,
/// a boolean-typed element holding 1 or 0, or a formula element with an
/// empty cached-value placeholder.
pub open spec fn cell_xml_text(cref: Seq<char>, v: CellV, style_idx: Option<int>) -> Seq<char> {
    let s = style_attr_text(style_idx);
    match v {
        CellV::Blank => "<c r=\""@ + cref + "\""@ + s + "/>"@,
        CellV::Number(n) => "<c r=\""@ + cref + "\""@ + s + "><v>"@ + xml_escaped(n) + "</v></c>"@,
        CellV::Text(t) => "<c r=\""@ + cref + "\""@ + s + " t=\"inlineStr\"><is><t>"@ + xml_escaped(
            t,
        ) + "</t></is></c>"@,
        CellV::Bool(b) => "<c r=\""@ + cref + "\""@ + s + " t=\"b\"><v>"@ + (if b {
            "1"@
        } else {
            "0"@
        }) + "</v></c>"@,
        CellV::Formula(f) => "<c r=\""@ + cref + "\""@ + s + "><f>"@ + xml_escaped(f)
            + "</f><v/></c>"@,
    }
}

/// The view of a written cell sequence.
pub open spec fn cells_view(s: Seq<CellValue>) -> Seq<CellV> {
    s.map_values(|c: CellValue| c@)
}

/// The unstyled cell elements of one row, columns numbered by position.
pub open spec fn cell_items_text(row: int, cells: Seq<CellV>) -> Seq<char>
    decreases cells.len(),
{
    if cells.len() == 0 {
        Seq::<char>::empty()
    } else {
        cell_items_text(row, cells.drop_last()) + cell_xml_text(
            cell_ref_text(row, cells.len() - 1),
            cells.last(),
            Option::None,
        )
    }
}

/// What one `write_row` call appends: nothing for an empty sequence, else a
/// row element carrying the 1-based row number and one cell element per
/// value.
pub open spec fn row_xml_text(row: int, cells: Seq<CellV>) -> Seq<char> {
    if cells.len() == 0 {
        Seq::<char>::empty()
    } else {
        "<row r=\""@ + dec_str(row) + "\">"@ + cell_items_text(row, cells) + "</row>"@
    }
}

/// Renders one cell element.
fn write_cell_text(cref: &str, value: &CellValue, style_idx: Option<usize>) -> (r: String)
    ensures
        r@ == cell_xml_text(
            cref@,
            value@,
            match style_idx {
                Option::Some(n) => Option::Some(n as int),
                Option::None => Option::<int>::None,
            },
        ),
{
    let mut attr = String::new();
    match style_idx {
        Option::Some(n) => {
            if n != 0 {
                attr.append(" s=\"");
                let d = crate::textutil::usize_to_string(n);
                attr.append(d.as_str());
                attr.append("\"");
            }
        },
        Option::None => {},
    }
    let mut out = String::new();
    out.append("<c r=\"");
    out.append(cref);
    out.append("\"");
    out.append(attr.as_str());
    match value {
        CellValue::Blank => {
            out.append("/>");
        },
        CellValue::Number(n) => {
            out.append("><v>");
            let e = xml_escape(n.as_str());
            out.append(e.as_str());
            out.append("</v></c>");
        },
        CellValue::Text(t) => {
            out.append(" t=\"inlineStr\"><is><t>");
            let e = xml_escape(t.as_str());
            out.append(e.as_str());
            out.append("</t></is></c>");
        },
        CellValue::Bool(b) => {
            out.append(" t=\"b\"><v>");
            if *b {
                out.append("1");
            } else {
                out.append("0");
            }
            out.append("</v></c>");
        },
        CellValue::Formula(f) => {
            out.append("><f>");
            let e = xml_escape(f.as_str());
            out.append(e.as_str());
            out.append("</f><v/></c>");
        },
    }
    out
}

// ---------------------------------------------------------------------------
// The sheet writer.
// ---------------------------------------------------------------------------

/// Streams one sheet's XML into its spill sink, numbering rows from 1.
pub struct SheetWriter {
    /// The sheet's name, unique within its workbook.
    pub name: String,
    /// The spill sink holding the XML fragment written so far.
    pub sink: SheetSink,
    /// The number of `write_row` calls made so far; the next row is numbered
    /// one higher.
    pub current_row: u32,
    /// The widest row seen so far, in cells.
    pub max_col: u32,
}

impl SheetWriter {
    /// Opens a fresh sheet: an empty spill sink primed with the fixed sheet
    /// header.
    pub(crate) fn new(name: &str) -> (r: Result<SheetWriter, MrXlsxError>)
        ensures
            r matches Ok(w) ==> w.name@ == name@ && w.current_row == 0 && w.max_col == 0
                && sink_text(w.sink) == sheet_header_text(),
            r matches Err(e) ==> e matches MrXlsxError::Io(_),
    {
        let mut sink = match sink_new() {
            Ok(s) => s,
            Err(e) => {
                return Err(e);
            },
        };
        let mut header = String::new();
        header.append("<?xml version=\"1.0\" encoding=\"UTF-8\" standalone=\"yes\"?>");
        header.append(
            "<worksheet xmlns=\"http://schemas.openxmlformats.org/spreadsheetml/2006/main\">",
        );
        header.append("<sheetViews><sheetView workbookViewId=\"0\"/></sheetViews>");
        header.append("<sheetFormatPr defaultRowHeight=\"15\"/>");
        header.append("<sheetData>");
        match sink_append(&mut sink, header.as_str()) {
            Ok(()) => {},
            Err(e) => {
                return Err(e);
            },
        }
        Ok(SheetWriter { name: name.to_owned(), sink, current_row: 0, max_col: 0 })
    }

    /// The sheet's name.
    pub fn get_name(&self) -> (r: String)
        ensures
            r@ == self.name@,
    {
        self.name.clone()
    }

    /// Writes one row of unstyled cells. Every call consumes the next row
    /// number, whether or not the row holds any cells; an empty row emits no
    /// row element. On success the sink grows by exactly the row's XML.
    pub fn write_row(&mut self, cells: &Vec<CellValue>) -> (r: Result<(), MrXlsxError>)
        requires
            old(self).current_row < u32::MAX,
            cells@.len() <= u32::MAX as int,
        ensures
            final(self).name == old(self).name,
            final(self).current_row == old(self).current_row + 1,
            final(self).max_col == (if cells@.len() > 0 && cells@.len() > old(self).max_col as int {
                cells@.len() as u32
            } else {
                old(self).max_col
            }),
            r is Ok ==> sink_text(final(self).sink) == sink_text(old(self).sink) + row_xml_text(
                old(self).current_row + 1,
                cells_view(cells@),
            ),
            cells@.len() == 0 ==> r is Ok,
            r matches Err(e) ==> e matches MrXlsxError::Io(_),
    {
        self.current_row = self.current_row + 1;
        let row = self.current_row;
        if cells.len() == 0 {
            proof {
                assert(cells_view(cells@).len() == 0);
            }
            return Ok(());
        }
        if cells.len() as u32 > self.max_col {
            self.max_col = cells.len() as u32;
        }
        let ghost cv = cells_view(cells@);
        let mut text = String::new();
        text.append("<row r=\"");
        let d = u32_to_string(row);
        text.append(d.as_str());
        text.append("\">");
        let n = cells.len();
        let mut i: usize = 0;
        while i < n
            invariant
                n == cells@.len(),
                n <= u32::MAX as int,
                i <= n,
                row <= u32::MAX,
                cv == cells_view(cells@),
                text@ == "<row r=\""@ + dec_str(row as int) + "\">"@ + cell_items_text(
                    row as int,
                    cv.take(i as int),
                ),
            decreases n - i,
        {
            let cref = make_cell_ref(row, i as u32);
            let cx = write_cell_text(cref.as_str(), &cells[i], Option::None);
            text.append(cx.as_str());
            proof {
                assert(cv[i as int] == cells@[i as int]@);
                assert(cv.take(i + 1).drop_last() =~= cv.take(i as int));
                assert(cv.take(i + 1).last() == cv[i as int]);
            }
            i = i + 1;
        }
        text.append("</row>");
        proof {
            assert(cv.take(n as int) =~= cv);
        }
        sink_append(&mut self.sink, text.as_str())
    }

    /// Appends the fixed closing structure and flushes the sink. The row
    /// counter is unaffected; further writes are not prevented, matching the
    /// streaming design.
    pub(crate) fn finalize(&mut self) -> (r: Result<(), MrXlsxError>)
        ensures
            final(self).name == old(self).name,
            final(self).current_row == old(self).current_row,
            final(self).max_col == old(self).max_col,
            r is Ok ==> sink_text(final(self).sink) == sink_text(old(self).sink)
                + sheet_footer_text(),
            r matches Err(e) ==> e matches MrXlsxError::Io(_),
    {
        let mut text = String::new();
        text.append("</sheetData>");
        text.append(
            "<pageMargins left=\"0.75\" right=\"0.75\" top=\"1\" bottom=\"1\" header=\"0.5\" footer=\"0.5\"/>",
        );
        text.append("</worksheet>");
        sink_append(&mut self.sink, text.as_str())
    }

    /// Reads the whole fragment written so far back out of the spill sink.
    pub(crate) fn read_back(&mut self) -> (r: Result<String, MrXlsxError>)
        ensures
            final(self).name == old(self).name,
            final(self).current_row == old(self).current_row,
            final(self).max_col == old(self).max_col,
            sink_text(final(self).sink) == sink_text(old(self).sink),
            r matches Ok(t) ==> t@ == sink_text(old(self).sink),
            r matches Err(e) ==> e matches MrXlsxError::Io(_),
    {
        sink_read_all(&mut self.sink)
    }
}

// ---------------------------------------------------------------------------
// Styled rows.
// ---------------------------------------------------------------------------

/// The view of a styled cell sequence.
pub open spec fn styled_cells_view(s: Seq<(CellValue, Style)>) -> Seq<(CellV, StyleV)> {
    s.map_values(|p: (CellValue, Style)| (p.0@, p.1@))
}

/// The styles of a styled cell sequence, in order.
pub open spec fn styles_of(cells: Seq<(CellV, StyleV)>) -> Seq<StyleV> {
    cells.map_values(|p: (CellV, StyleV)| p.1)
}

/// The registry after registering a run of styles in order.
pub open spec fn reg_after(m: RegV, ss: Seq<StyleV>) -> RegV
    decreases ss.len(),
{
    if ss.len() == 0 {
        m
    } else {
        register_spec(reg_after(m, ss.drop_last()), ss.last()).1
    }
}

/// The styled cell elements of one row: each cell's style is registered in
/// turn, and the returned index is attached when it is not zero.
pub open spec fn styled_items_text(m: RegV, row: int, cells: Seq<(CellV, StyleV)>) -> Seq<char>
    decreases cells.len(),
{
    if cells.len() == 0 {
        Seq::<char>::empty()
    } else {
        let pre = cells.drop_last();
        styled_items_text(m, row, pre) + cell_xml_text(
            cell_ref_text(row, cells.len() - 1),
            cells.last().0,
            Option::Some(register_spec(reg_after(m, styles_of(pre)), cells.last().1).0),
        )
    }
}

/// What one `write_row_with_style` call appends.
pub open spec fn styled_row_xml_text(m: RegV, row: int, cells: Seq<(CellV, StyleV)>) -> Seq<char> {
    if cells.len() == 0 {
        Seq::<char>::empty()
    } else {
        "<row r=\""@ + dec_str(row) + "\">"@ + styled_items_text(m, row, cells) + "</row>"@
    }
}

impl SheetWriter {
    /// Writes one row of styled cells: each cell's style is interned in the
    /// shared registry and the cell carries the returned index when it is
    /// not the default. Row numbering behaves as in `write_row`.
    pub fn write_row_with_style(
        &mut self,
        cells: &Vec<(CellValue, Style)>,
        styles: &mut StyleRegistry,
    ) -> (r: Result<(), MrXlsxError>)
        requires
            old(self).current_row < u32::MAX,
            cells@.len() <= u32::MAX as int,
            old(styles)@.num_fmts.len() + cells@.len() + 164 < u32::MAX as int,
        ensures
            final(self).name == old(self).name,
            final(self).current_row == old(self).current_row + 1,
            final(self).max_col == (if cells@.len() > 0 && cells@.len() > old(self).max_col as int {
                cells@.len() as u32
            } else {
                old(self).max_col
            }),
            final(styles)@ == reg_after(old(styles)@, styles_of(styled_cells_view(cells@))),
            reg_wf(old(styles)@) ==> reg_wf(final(styles)@),
            r is Ok ==> sink_text(final(self).sink) == sink_text(old(self).sink)
                + styled_row_xml_text(
                old(styles)@,
                old(self).current_row + 1,
                styled_cells_view(cells@),
            ),
            cells@.len() == 0 ==> r is Ok,
            r matches Err(e) ==> e matches MrXlsxError::Io(_),
    {
        self.current_row = self.current_row + 1;
        let row = self.current_row;
        let ghost m0 = styles@;
        if cells.len() == 0 {
            proof {
                assert(styled_cells_view(cells@).len() == 0);
                assert(styles_of(styled_cells_view(cells@)).len() == 0);
            }
            return Ok(());
        }
        if cells.len() as u32 > self.max_col {
            self.max_col = cells.len() as u32;
        }
        let ghost cv = styled_cells_view(cells@);
        let mut text = String::new();
        text.append("<row r=\"");
        let d = u32_to_string(row);
        text.append(d.as_str());
        text.append("\">");
        let n = cells.len();
        let mut i: usize = 0;
        while i < n
            invariant
                n == cells@.len(),
                n <= u32::MAX as int,
                i <= n,
                row <= u32::MAX,
                cv == styled_cells_view(cells@),
                m0.num_fmts.len() + n + 164 < u32::MAX as int,
                styles@ == reg_after(m0, styles_of(cv.take(i as int))),
                styles@.num_fmts.len() <= m0.num_fmts.len() + i,
                reg_wf(m0) ==> reg_wf(styles@),
                text@ == "<row r=\""@ + dec_str(row as int) + "\">"@ + styled_items_text(
                    m0,
                    row as int,
                    cv.take(i as int),
                ),
            decreases n - i,
        {
            let idx = styles.register(&cells[i].1);
            let cref = make_cell_ref(row, i as u32);
            let cx = write_cell_text(cref.as_str(), &cells[i].0, Option::Some(idx));
            text.append(cx.as_str());
            proof {
                assert(cv[i as int] == (cells@[i as int].0@, cells@[i as int].1@));
                assert(cv.take(i + 1).drop_last() =~= cv.take(i as int));
                assert(cv.take(i + 1).last() == cv[i as int]);
                assert(styles_of(cv.take(i + 1)).drop_last() =~= styles_of(cv.take(i as int)));
                assert(styles_of(cv.take(i + 1)).last() == cv[i as int].1);
            }
            i = i + 1;
        }
        text.append("</row>");
        proof {
            assert(cv.take(n as int) =~= cv);
        }
        sink_append(&mut self.sink, text.as_str())
    }
}

// ---------------------------------------------------------------------------
// Row numbering law.
// ---------------------------------------------------------------------------

/// Law: three rows written from a fresh sheet take the numbers 1, 2 and 3 in
/// order, independent of content; an empty row consumes its number but
/// appends no row element, and a non-empty row's element opens with its
/// number.
pub proof fn lemma_row_numbering(c1: Seq<CellV>, c2: Seq<CellV>, c3: Seq<CellV>)
    requires
        c2.len() == 0,
    ensures
        row_xml_text(0int + 1, c1) + row_xml_text(1int + 1, c2) + row_xml_text(2int + 1, c3)
            == row_xml_text(1, c1) + row_xml_text(3, c3),
        row_xml_text(2, c2) == Seq::<char>::empty(),
        c1.len() > 0 ==> row_xml_text(1, c1).take(9) == "<row r=\"1"@,
        c3.len() > 0 ==> row_xml_text(3, c3).take(9) == "<row r=\"3"@,
{
    assert(row_xml_text(2, c2) + row_xml_text(3, c3) =~= row_xml_text(3, c3));
    assert(row_xml_text(1, c1) + row_xml_text(3, c3) =~= row_xml_text(1, c1) + (row_xml_text(2, c2)
        + row_xml_text(3, c3)));
    if c1.len() > 0 {
        reveal_strlit("<row r=\"");
        reveal_strlit("<row r=\"1");
        reveal_strlit("\">");
        assert(dec_str(1) =~= seq![(49u8) as char]);
        assert(row_xml_text(1, c1).take(9) =~= "<row r=\"1"@);
    }
    if c3.len() > 0 {
        reveal_strlit("<row r=\"");
        reveal_strlit("<row r=\"3");
        reveal_strlit("\">");
        assert(dec_str(3) =~= seq![(51u8) as char]);
        assert(row_xml_text(3, c3).take(9) =~= "<row r=\"3"@);
    }
}

} // verus!
