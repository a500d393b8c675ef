use vstd::prelude::*;

use crate::cell::CellValue;
use crate::error::MrXlsxError;
use crate::registry::{
    new_registry, reg_wf, register_spec, styles_xml_text, seq_find, RegV, StyleRegistry,
};
use crate::sheet::{
    cells_view, reg_after, row_xml_text, sheet_footer_text, sheet_header_text, sink_text,
    styled_cells_view, styled_row_xml_text, styles_of, SheetWriter,
};
use crate::style::Style;
use crate::textutil::{dec_str, usize_to_string, xml_escape, xml_escaped};

verus! {

// ---------------------------------------------------------------------------
// The archive builder: an in-memory zip archive under construction. The
// caller adds named parts in order; finishing yields the archive bytes.
// ---------------------------------------------------------------------------

/// A zip archive being written in memory. Held opaque; `zip_parts` names the
/// parts added so far.
#[verifier::external_body]
pub struct ZipBuilder {
    inner: zip::ZipWriter<std::io::Cursor<Vec<u8>>>,
}

/// The named parts added to an archive builder so far, in order.
pub uninterp spec fn zip_parts(z: ZipBuilder) -> Seq<(Seq<char>, Seq<char>)>;

/// The bytes of the finished archive holding the given parts, under this
/// library's fixed writing options (deflate compression, the format's
/// default timestamp, and the Unix originator code), which make the bytes a
/// function of the parts alone.
pub uninterp spec fn zip_bytes(parts: Seq<(Seq<char>, Seq<char>)>) -> Seq<u8>;

/// Relies on zip::ZipWriter::new over an in-memory cursor: a fresh builder
/// holds no parts.
#[verifier::external_body]
fn zip_new() -> (z: ZipBuilder)
    ensures
        zip_parts(z) == Seq::<(Seq<char>, Seq<char>)>::empty(),
{
    ZipBuilder { inner: zip::ZipWriter::new(std::io::Cursor::new(Vec::new())) }
}

/// Relies on zip::ZipWriter::start_file and std::io::Write::write_all: on
/// success one more named part holds exactly the given text; the options are
/// fixed as `zip_bytes` describes. On failure the builder is unspecified.
#[verifier::external_body]
fn zip_add_part(z: &mut ZipBuilder, path: &str, content: &str) -> (r: Result<(), MrXlsxError>)
    ensures
        r is Ok ==> zip_parts(*final(z)) == zip_parts(*old(z)).push((path@, content@)),
        r matches Err(e) ==> e matches MrXlsxError::Io(_),
{
    let options = zip::write::SimpleFileOptions::default().compression_method(
        zip::CompressionMethod::Deflated,
    ).system(zip::System::Unix);
    if let Err(e) = z.inner.start_file(path, options) {
        return Err(MrXlsxError::Io(e.to_string()));
    }
    match std::io::Write::write_all(&mut z.inner, content.as_bytes()) {
        Ok(()) => Ok(()),
        Err(e) => Err(MrXlsxError::Io(e.to_string())),
    }
}

/// Relies on zip::ZipWriter::finish: the central directory is written and
/// the archive bytes for the added parts come back.
#[verifier::external_body]
fn zip_finish(z: ZipBuilder) -> (r: Result<Vec<u8>, MrXlsxError>)
    ensures
        r matches Ok(b) ==> b@ == zip_bytes(zip_parts(z)),
        r matches Err(e) ==> e matches MrXlsxError::Io(_),
{
    match z.inner.finish() {
        Ok(cursor) => Ok(cursor.into_inner()),
        Err(e) => Err(MrXlsxError::Io(e.to_string())),
    }
}

// ---------------------------------------------------------------------------
// The fixed manifest parts.
// ---------------------------------------------------------------------------

/// The top-level package relationship part: one relationship pointing at the
/// workbook part.
pub open spec fn rels_dot_rels_text() -> Seq<char> {
    "<?xml version=\"1.0\" encoding=\"UTF-8\" standalone=\"yes\"?>"@
        + "<Relationships xmlns=\"http://schemas.openxmlformats.org/package/2006/relationships\">"@
        + "<Relationship Id=\"rId1\" Type=\"http://schemas.openxmlformats.org/officeDocument/2006/relationships/officeDocument\" Target=\"xl/workbook.xml\"/>"@
        + "</Relationships>"@
}

/// Renders the top-level package relationship part.
pub fn rels_dot_rels() -> (r: String)
    ensures
        r@ == rels_dot_rels_text(),
{
    let mut out = String::new();
    out.append("<?xml version=\"1.0\" encoding=\"UTF-8\" standalone=\"yes\"?>");
    out.append(
        "<Relationships xmlns=\"http://schemas.openxmlformats.org/package/2006/relationships\">",
    );
    out.append(
        "<Relationship Id=\"rId1\" Type=\"http://schemas.openxmlformats.org/officeDocument/2006/relationships/officeDocument\" Target=\"xl/workbook.xml\"/>",
    );
    out.append("</Relationships>");
    out
}

/// One sheet declaration in the workbook part: the escaped name, the 1-based
/// sheet id, and the matching relationship id.
pub open spec fn sheet_decl_text(pos: int, name: Seq<char>) -> Seq<char> {
    "<sheet name=\""@ + xml_escaped(name) + "\" sheetId=\""@ + dec_str(pos + 1) + "\" r:id=\"rId"@
        + dec_str(pos + 1) + "\"/>"@
}

/// The sheet declarations, in output order.
pub open spec fn sheet_decls_text(names: Seq<Seq<char>>) -> Seq<char>
    decreases names.len(),
{
    if names.len() == 0 {
        Seq::<char>::empty()
    } else {
        sheet_decls_text(names.drop_last()) + sheet_decl_text(names.len() - 1, names.last())
    }
}

/// The workbook part: the sheets in output order, each with a sequential id
/// and the relationship id `rIdK` for the K-th sheet.
pub open spec fn workbook_xml_text(names: Seq<Seq<char>>) -> Seq<char> {
    "<?xml version=\"1.0\" encoding=\"UTF-8\" standalone=\"yes\"?>"@
        + "<workbook xmlns=\"http://schemas.openxmlformats.org/spreadsheetml/2006/main\" "@
        + "xmlns:r=\"http://schemas.openxmlformats.org/officeDocument/2006/relationships\">"@
        + "<bookViews><workbookView activeTab=\"0\"/></bookViews>"@ + "<sheets>"@
        + sheet_decls_text(names) + "</sheets>"@ + "<calcPr fullCalcOnLoad=\"1\"/>"@
        + "</workbook>"@
}

/// Renders the workbook part for the given output order.
pub fn workbook_xml(order: &Vec<String>) -> (r: String)
    ensures
        r@ == workbook_xml_text(names_view(order@)),
{
    let ghost names = names_view(order@);
    let mut decls = String::new();
    let n = order.len();
    let mut i: usize = 0;
    while i < n
        invariant
            n == order@.len(),
            i <= n,
            names == names_view(order@),
            decls@ == sheet_decls_text(names.take(i as int)),
        decreases n - i,
    {
        decls.append("<sheet name=\"");
        let esc = xml_escape(order[i].as_str());
        decls.append(esc.as_str());
        decls.append("\" sheetId=\"");
        let id = usize_to_string(i + 1);
        decls.append(id.as_str());
        decls.append("\" r:id=\"rId");
        decls.append(id.as_str());
        decls.append("\"/>");
        proof {
            assert(names[i as int] == order@[i as int]@);
            assert(names.take(i + 1).drop_last() =~= names.take(i as int));
            assert(names.take(i + 1).last() == names[i as int]);
        }
        i = i + 1;
    }
    proof {
        assert(names.take(n as int) =~= names);
    }
    let mut out = String::new();
    out.append("<?xml version=\"1.0\" encoding=\"UTF-8\" standalone=\"yes\"?>");
    out.append("<workbook xmlns=\"http://schemas.openxmlformats.org/spreadsheetml/2006/main\" ");
    out.append("xmlns:r=\"http://schemas.openxmlformats.org/officeDocument/2006/relationships\">");
    out.append("<bookViews><workbookView activeTab=\"0\"/></bookViews>");
    out.append("<sheets>");
    out.append(decls.as_str());
    out.append("</sheets>");
    out.append("<calcPr fullCalcOnLoad=\"1\"/>");
    out.append("</workbook>");
    out
}

/// One worksheet relationship in the workbook relationship part.
pub open spec fn ws_rel_text(k: int) -> Seq<char> {
    "<Relationship Id=\"rId"@ + dec_str(k)
        + "\" Type=\"http://schemas.openxmlformats.org/officeDocument/2006/relationships/worksheet\" Target=\"worksheets/sheet"@
        + dec_str(k) + ".xml\"/>"@
}

/// The worksheet relationships `rId1..rIdN`, in order.
pub open spec fn ws_rels_text(n: int) -> Seq<char>
    decreases n,
{
    if n <= 0 {
        Seq::<char>::empty()
    } else {
        ws_rels_text(n - 1) + ws_rel_text(n)
    }
}

/// The workbook relationship part: one relationship per worksheet part, then
/// one more for the style part.
pub open spec fn workbook_rels_text(n: int) -> Seq<char> {
    "<?xml version=\"1.0\" encoding=\"UTF-8\" standalone=\"yes\"?>"@
        + "<Relationships xmlns=\"http://schemas.openxmlformats.org/package/2006/relationships\">"@
        + ws_rels_text(n) + "<Relationship Id=\"rId"@ + dec_str(n + 1)
        + "\" Type=\"http://schemas.openxmlformats.org/officeDocument/2006/relationships/styles\" Target=\"styles.xml\"/>"@
        + "</Relationships>"@
}

/// Renders the workbook relationship part for `sheet_count` sheets.
pub fn workbook_rels_xml(sheet_count: usize) -> (r: String)
    requires
        sheet_count < usize::MAX,
    ensures
        r@ == workbook_rels_text(sheet_count as int),
{
    let mut rels = String::new();
    let mut i: usize = 0;
    while i < sheet_count
        invariant
            i <= sheet_count,
            rels@ == ws_rels_text(i as int),
        decreases sheet_count - i,
    {
        rels.append("<Relationship Id=\"rId");
        let id = usize_to_string(i + 1);
        rels.append(id.as_str());
        rels.append(
            "\" Type=\"http://schemas.openxmlformats.org/officeDocument/2006/relationships/worksheet\" Target=\"worksheets/sheet",
        );
        rels.append(id.as_str());
        rels.append(".xml\"/>");
        i = i + 1;
    }
    let mut out = String::new();
    out.append("<?xml version=\"1.0\" encoding=\"UTF-8\" standalone=\"yes\"?>");
    out.append(
        "<Relationships xmlns=\"http://schemas.openxmlformats.org/package/2006/relationships\">",
    );
    out.append(rels.as_str());
    out.append("<Relationship Id=\"rId");
    let sid = usize_to_string(sheet_count + 1);
    out.append(sid.as_str());
    out.append(
        "\" Type=\"http://schemas.openxmlformats.org/officeDocument/2006/relationships/styles\" Target=\"styles.xml\"/>",
    );
    out.append("</Relationships>");
    out
}

/// One worksheet content-type override.
pub open spec fn ws_override_text(k: int) -> Seq<char> {
    "<Override PartName=\"/xl/worksheets/sheet"@ + dec_str(k)
        + ".xml\" ContentType=\"application/vnd.openxmlformats-officedocument.spreadsheetml.worksheet+xml\"/>"@
}

/// The worksheet content-type overrides, in order.
pub open spec fn ws_overrides_text(n: int) -> Seq<char>
    decreases n,
{
    if n <= 0 {
        Seq::<char>::empty()
    } else {
        ws_overrides_text(n - 1) + ws_override_text(n)
    }
}

/// The content-types part: defaults, the workbook and style overrides, and
/// one override per worksheet part.
pub open spec fn content_types_text(n: int) -> Seq<char> {
    "<?xml version=\"1.0\" encoding=\"UTF-8\" standalone=\"yes\"?>"@
        + "<Types xmlns=\"http://schemas.openxmlformats.org/package/2006/content-types\">"@
        + "<Default Extension=\"rels\" ContentType=\"application/vnd.openxmlformats-package.relationships+xml\"/>"@
        + "<Default Extension=\"xml\" ContentType=\"application/xml\"/>"@
        + "<Override PartName=\"/xl/workbook.xml\" ContentType=\"application/vnd.openxmlformats-officedocument.spreadsheetml.sheet.main+xml\"/>"@
        + "<Override PartName=\"/xl/styles.xml\" ContentType=\"application/vnd.openxmlformats-officedocument.spreadsheetml.styles+xml\"/>"@
        + ws_overrides_text(n) + "</Types>"@
}

/// Renders the content-types part for `sheet_count` sheets.
pub fn content_types_xml(sheet_count: usize) -> (r: String)
    ensures
        r@ == content_types_text(sheet_count as int),
{
    let mut overrides = String::new();
    let mut i: usize = 0;
    while i < sheet_count
        invariant
            i <= sheet_count,
            overrides@ == ws_overrides_text(i as int),
        decreases sheet_count - i,
    {
        overrides.append("<Override PartName=\"/xl/worksheets/sheet");
        let id = usize_to_string(i + 1);
        overrides.append(id.as_str());
        overrides.append(
            ".xml\" ContentType=\"application/vnd.openxmlformats-officedocument.spreadsheetml.worksheet+xml\"/>",
        );
        i = i + 1;
    }
    let mut out = String::new();
    out.append("<?xml version=\"1.0\" encoding=\"UTF-8\" standalone=\"yes\"?>");
    out.append("<Types xmlns=\"http://schemas.openxmlformats.org/package/2006/content-types\">");
    out.append(
        "<Default Extension=\"rels\" ContentType=\"application/vnd.openxmlformats-package.relationships+xml\"/>",
    );
    out.append("<Default Extension=\"xml\" ContentType=\"application/xml\"/>");
    out.append(
        "<Override PartName=\"/xl/workbook.xml\" ContentType=\"application/vnd.openxmlformats-officedocument.spreadsheetml.sheet.main+xml\"/>",
    );
    out.append(
        "<Override PartName=\"/xl/styles.xml\" ContentType=\"application/vnd.openxmlformats-officedocument.spreadsheetml.styles+xml\"/>",
    );
    out.append(overrides.as_str());
    out.append("</Types>");
    out
}

// ---------------------------------------------------------------------------
// The package layout.
// ---------------------------------------------------------------------------

/// The views of a name list.
pub open spec fn names_view(s: Seq<String>) -> Seq<Seq<char>> {
    s.map_values(|x: String| x@)
}

/// Appending one name appends its view.
proof fn lemma_names_view_push(s: Seq<String>, x: String)
    ensures
        names_view(s.push(x)) =~= names_view(s).push(x@),
{
    assert(forall|j: int|
        0 <= j < s.len() ==> #[trigger] names_view(s.push(x))[j] == names_view(s)[j]);
    assert(names_view(s.push(x))[s.len() as int] == x@);
}

/// The worksheet part entries, the K-th text under `sheetK.xml` (1-based).
pub open spec fn sheet_part_entries(texts: Seq<Seq<char>>) -> Seq<(Seq<char>, Seq<char>)>
    decreases texts.len(),
{
    if texts.len() == 0 {
        Seq::<(Seq<char>, Seq<char>)>::empty()
    } else {
        sheet_part_entries(texts.drop_last()).push(
            (
                "xl/worksheets/sheet"@ + dec_str(texts.len() as int) + ".xml"@,
                texts.last(),
            ),
        )
    }
}

/// The whole package: the content-types part, the package relationship, the
/// workbook part listing the sheets in output order, the workbook
/// relationships, the style part, then each sheet's finalized fragment,
/// positionally indexed by output order.
pub open spec fn package_parts(names: Seq<Seq<char>>, reg: RegV, texts: Seq<Seq<char>>) -> Seq<
    (Seq<char>, Seq<char>),
> {
    seq![
        ("[Content_Types].xml"@, content_types_text(names.len() as int)),
        ("_rels/.rels"@, rels_dot_rels_text()),
        ("xl/workbook.xml"@, workbook_xml_text(names)),
        ("xl/_rels/workbook.xml.rels"@, workbook_rels_text(names.len() as int)),
        ("xl/styles.xml"@, styles_xml_text(reg)),
    ] + sheet_part_entries(texts)
}

// ---------------------------------------------------------------------------
// The workbook assembler.
// ---------------------------------------------------------------------------

/// The sheet names of a workbook, in insertion order.
pub open spec fn wb_names(sheets: Seq<SheetWriter>) -> Seq<Seq<char>> {
    sheets.map_values(|w: SheetWriter| w.name@)
}

/// Whether a name list holds no repeats.
pub open spec fn names_distinct(names: Seq<Seq<char>>) -> bool {
    forall|i: int, j: int| 0 <= i < j < names.len() ==> names[i] != names[j]
}

/// The finalized text of the sheet carrying each name of `order`, drawn from
/// `sheets` as they stood before finalization.
pub open spec fn texts_for(sheets: Seq<SheetWriter>, order: Seq<Seq<char>>) -> Seq<Seq<char>> {
    order.map_values(
        |nm: Seq<char>| sink_text(sheets[seq_find(wb_names(sheets), nm)].sink)
            + sheet_footer_text(),
    )
}

/// Owns a set of sheet writers in insertion order and the one style registry
/// they share; finishing packages everything into an archive.
pub struct Workbook {
    /// The sheets, in insertion order; names are unique.
    pub sheets: Vec<SheetWriter>,
    /// The style registry shared by all sheets of this workbook.
    pub styles: StyleRegistry,
}

/// A well-formed workbook: unique sheet names and a well-formed registry.
pub open spec fn wb_wf(wb: Workbook) -> bool {
    &&& names_distinct(wb_names(wb.sheets@))
    &&& reg_wf(wb.styles@)
}

impl Workbook {
    /// An empty workbook with a freshly seeded style registry.
    pub fn new() -> (r: Workbook)
        ensures
            r.sheets@.len() == 0,
            r.styles@ == new_registry(),
            wb_wf(r),
    {
        Workbook { sheets: Vec::new(), styles: StyleRegistry::new() }
    }

    /// A workbook with the given sheets already added, in order.
    pub fn new_with_sheets(names: &Vec<String>) -> (r: Result<Workbook, MrXlsxError>)
        ensures
            r matches Ok(wb) ==> {
                &&& wb_names(wb.sheets@) == names_view(names@)
                &&& wb.styles@ == new_registry()
                &&& wb_wf(wb)
                &&& forall|i: int|
                    0 <= i < wb.sheets@.len() ==> (#[trigger] wb.sheets@[i]).current_row == 0
                        && sink_text(wb.sheets@[i].sink) == sheet_header_text()
            },
            r matches Err(MrXlsxError::AlreadyExists(n)) ==> !names_distinct(names_view(names@)),
    {
        let mut wb = Workbook::new();
        let n = names.len();
        let mut i: usize = 0;
        while i < n
            invariant
                n == names@.len(),
                i <= n,
                wb_names(wb.sheets@) == names_view(names@).take(i as int),
                wb.styles@ == new_registry(),
                wb_wf(wb),
                forall|k: int|
                    0 <= k < wb.sheets@.len() ==> (#[trigger] wb.sheets@[k]).current_row == 0
                        && sink_text(wb.sheets@[k].sink) == sheet_header_text(),
            decreases n - i,
        {
            match wb.add_sheet(names[i].as_str()) {
                Ok(()) => {},
                Err(e) => {
                    proof {
                        if e matches MrXlsxError::AlreadyExists(_) {
                            let names_v = names_view(names@);
                            let pre = names_v.take(i as int);
                            assert(pre.contains(names_v[i as int]));
                            let w = choose|w: int|
                                0 <= w < pre.len() && pre[w] == names_v[i as int];
                            assert(names_v[w] == names_v[i as int]);
                        }
                    }
                    return Err(e);
                },
            }
            proof {
                assert(names_view(names@)[i as int] == names@[i as int]@);
                assert(forall|k: int|
                    0 <= k < wb.sheets@.len() - 1 ==> #[trigger] wb.sheets@[k]
                        == wb.sheets@.drop_last()[k]);
                assert(wb_names(wb.sheets@) =~= names_view(names@).take(i + 1));
            }
            i = i + 1;
        }
        proof {
            assert(names_view(names@).take(n as int) =~= names_view(names@));
        }
        Ok(wb)
    }

    /// The position of the named sheet, scanning insertion order.
    fn find_sheet(&self, name: &str) -> (r: Option<usize>)
        ensures
            match r {
                Option::Some(i) => wb_names(self.sheets@).contains(name@) && i as int == seq_find(
                    wb_names(self.sheets@),
                    name@,
                ),
                Option::None => !wb_names(self.sheets@).contains(name@),
            },
    {
        let ghost names = wb_names(self.sheets@);
        let owned = name.to_owned();
        let n = self.sheets.len();
        let mut i: usize = 0;
        while i < n
            invariant
                n == self.sheets@.len(),
                names == wb_names(self.sheets@),
                owned@ == name@,
                i <= n,
                forall|j: int| 0 <= j < i ==> names[j] != name@,
            decreases n - i,
        {
            if self.sheets[i].name == owned {
                proof {
                    assert(names[i as int] == self.sheets@[i as int].name@);
                    crate::registry::lemma_seq_find_at(names, name@, i as int);
                }
                return Option::Some(i);
            }
            proof {
                assert(names[i as int] == self.sheets@[i as int].name@);
            }
            i = i + 1;
        }
        proof {
            if names.contains(name@) {
                let w = choose|w: int| 0 <= w < names.len() && names[w] == name@;
                assert(false);
            }
        }
        Option::None
    }

    /// A read-only view of the named sheet, if present; absence is not an
    /// error.
    pub fn get_sheet(&self, name: &str) -> (r: Option<&SheetWriter>)
        ensures
            match r {
                Option::Some(w) => wb_names(self.sheets@).contains(name@) && *w == self.sheets@[
                    seq_find(wb_names(self.sheets@), name@)
                ],
                Option::None => !wb_names(self.sheets@).contains(name@),
            },
    {
        match self.find_sheet(name) {
            Option::Some(i) => {
                proof {
                    crate::registry::lemma_seq_find_first(wb_names(self.sheets@), name@);
                }
                Option::Some(&self.sheets[i])
            },
            Option::None => Option::None,
        }
    }

    /// Adds a fresh sheet under the given name. A taken name fails with
    /// `AlreadyExists` carrying that name and changes nothing.
    pub fn add_sheet(&mut self, name: &str) -> (r: Result<(), MrXlsxError>)
        ensures
            wb_names(old(self).sheets@).contains(name@) ==> (r matches Err(
                MrXlsxError::AlreadyExists(n),
            ) && n@ == name@ && *final(self) == *old(self)),
            !wb_names(old(self).sheets@).contains(name@) ==> match r {
                Ok(()) => {
                    &&& final(self).sheets@.len() == old(self).sheets@.len() + 1
                    &&& final(self).sheets@.drop_last() == old(self).sheets@
                    &&& final(self).sheets@.last().name@ == name@
                    &&& final(self).sheets@.last().current_row == 0
                    &&& final(self).sheets@.last().max_col == 0
                    &&& sink_text(final(self).sheets@.last().sink) == sheet_header_text()
                    &&& final(self).styles == old(self).styles
                    &&& wb_wf(*old(self)) ==> wb_wf(*final(self))
                },
                Err(e) => e matches MrXlsxError::Io(_) && *final(self) == *old(self),
            },
    {
        match self.find_sheet(name) {
            Option::Some(_) => Err(MrXlsxError::AlreadyExists(name.to_owned())),
            Option::None => {
                let w = match SheetWriter::new(name) {
                    Ok(w) => w,
                    Err(e) => {
                        return Err(e);
                    },
                };
                let ghost pre = self.sheets@;
                self.sheets.push(w);
                proof {
                    assert(self.sheets@.drop_last() =~= pre);
                    if wb_wf(*old(self)) {
                        let names = wb_names(self.sheets@);
                        assert(forall|j: int|
                            0 <= j < pre.len() ==> names[j] == wb_names(pre)[j]);
                        assert(names.last() == name@);
                        assert(names_distinct(names)) by {
                            assert(forall|i: int, j: int|
                                0 <= i < j < names.len() - 1 ==> names[i] != names[j]);
                            assert(forall|i: int|
                                0 <= i < names.len() - 1 ==> names[i] != name@) by {
                                if exists|i: int| 0 <= i < names.len() - 1 && names[i] == name@ {
                                    let w2 = choose|i: int|
                                        0 <= i < names.len() - 1 && names[i] == name@;
                                    assert(wb_names(pre)[w2] == name@);
                                    assert(wb_names(pre).contains(name@));
                                }
                            }
                        }
                    }
                }
                Ok(())
            },
        }
    }
}

// ---------------------------------------------------------------------------
// Writing rows through the workbook.
// ---------------------------------------------------------------------------

impl Workbook {
    /// Writes one row of unstyled cells to the named sheet. A missing name
    /// fails with `NotFound` carrying that name and changes nothing.
    pub fn write_row(&mut self, name: &str, cells: &Vec<CellValue>) -> (r: Result<
        (),
        MrXlsxError,
    >)
        requires
            cells@.len() <= u32::MAX as int,
            wb_names(old(self).sheets@).contains(name@) ==> old(self).sheets@[seq_find(
                wb_names(old(self).sheets@),
                name@,
            )].current_row < u32::MAX,
        ensures
            final(self).styles == old(self).styles,
            !wb_names(old(self).sheets@).contains(name@) ==> (r matches Err(MrXlsxError::NotFound(
                n,
            )) && n@ == name@ && *final(self) == *old(self)),
            wb_names(old(self).sheets@).contains(name@) ==> ({
                let k = seq_find(wb_names(old(self).sheets@), name@);
                &&& final(self).sheets@.len() == old(self).sheets@.len()
                &&& (forall|j: int|
                    0 <= j < old(self).sheets@.len() && j != k ==> final(self).sheets@[j] == old(
                        self,
                    ).sheets@[j])
                &&& final(self).sheets@[k].name == old(self).sheets@[k].name
                &&& final(self).sheets@[k].current_row == old(self).sheets@[k].current_row + 1
                &&& (r is Ok ==> sink_text(final(self).sheets@[k].sink) == sink_text(
                    old(self).sheets@[k].sink,
                ) + row_xml_text(
                    old(self).sheets@[k].current_row + 1,
                    cells_view(cells@),
                ))
                &&& (cells@.len() == 0 ==> r is Ok)
                &&& (r matches Err(e) ==> e matches MrXlsxError::Io(_))
            }),
    {
        let k = match self.find_sheet(name) {
            Option::Some(k) => k,
            Option::None => {
                return Err(MrXlsxError::NotFound(name.to_owned()));
            },
        };
        proof {
            crate::registry::lemma_seq_find_first(wb_names(self.sheets@), name@);
        }
        let ghost pre = self.sheets@;
        let mut w = self.sheets.remove(k);
        let res = w.write_row(cells);
        self.sheets.insert(k, w);
        proof {
            assert(self.sheets@ =~= pre.update(k as int, w));
        }
        res
    }

    /// Writes one row of styled cells to the named sheet, interning each
    /// cell's style in the workbook's shared registry. A missing name fails
    /// with `NotFound` carrying that name and changes nothing.
    pub fn write_row_with_style(&mut self, name: &str, cells: &Vec<(CellValue, Style)>) -> (r:
        Result<(), MrXlsxError>)
        requires
            cells@.len() <= u32::MAX as int,
            old(self).styles@.num_fmts.len() + cells@.len() + 164 < u32::MAX as int,
            wb_names(old(self).sheets@).contains(name@) ==> old(self).sheets@[seq_find(
                wb_names(old(self).sheets@),
                name@,
            )].current_row < u32::MAX,
        ensures
            !wb_names(old(self).sheets@).contains(name@) ==> (r matches Err(MrXlsxError::NotFound(
                n,
            )) && n@ == name@ && *final(self) == *old(self)),
            wb_names(old(self).sheets@).contains(name@) ==> ({
                let k = seq_find(wb_names(old(self).sheets@), name@);
                &&& final(self).styles@ == reg_after(
                    old(self).styles@,
                    styles_of(styled_cells_view(cells@)),
                )
                &&& (reg_wf(old(self).styles@) ==> reg_wf(final(self).styles@))
                &&& final(self).sheets@.len() == old(self).sheets@.len()
                &&& (forall|j: int|
                    0 <= j < old(self).sheets@.len() && j != k ==> final(self).sheets@[j] == old(
                        self,
                    ).sheets@[j])
                &&& final(self).sheets@[k].name == old(self).sheets@[k].name
                &&& final(self).sheets@[k].current_row == old(self).sheets@[k].current_row + 1
                &&& (r is Ok ==> sink_text(final(self).sheets@[k].sink) == sink_text(
                    old(self).sheets@[k].sink,
                ) + styled_row_xml_text(
                    old(self).styles@,
                    old(self).sheets@[k].current_row + 1,
                    styled_cells_view(cells@),
                ))
                &&& (cells@.len() == 0 ==> r is Ok)
                &&& (r matches Err(e) ==> e matches MrXlsxError::Io(_))
            }),
    {
        let k = match self.find_sheet(name) {
            Option::Some(k) => k,
            Option::None => {
                return Err(MrXlsxError::NotFound(name.to_owned()));
            },
        };
        proof {
            crate::registry::lemma_seq_find_first(wb_names(self.sheets@), name@);
        }
        let ghost pre = self.sheets@;
        let mut w = self.sheets.remove(k);
        let res = w.write_row_with_style(cells, &mut self.styles);
        self.sheets.insert(k, w);
        proof {
            assert(self.sheets@ =~= pre.update(k as int, w));
        }
        res
    }
}

// ---------------------------------------------------------------------------
// Finishing: packaging the sheets and manifest parts into the archive.
// ---------------------------------------------------------------------------


/// Whether every name of `order` names a sheet.
pub open spec fn all_present(order: Seq<Seq<char>>, names: Seq<Seq<char>>) -> bool {
    forall|j: int| 0 <= j < order.len() ==> names.contains(#[trigger] order[j])
}

/// The position of the first order entry naming no sheet, or `order.len()`
/// when every entry does.
pub open spec fn first_absent(order: Seq<Seq<char>>, names: Seq<Seq<char>>) -> int
    decreases order.len(),
{
    if order.len() == 0 {
        0
    } else if !names.contains(order[0]) {
        0
    } else {
        1 + first_absent(order.skip(1), names)
    }
}

/// When some entry is absent, `first_absent` points at the first one.
proof fn lemma_first_absent_props(order: Seq<Seq<char>>, names: Seq<Seq<char>>)
    requires
        !all_present(order, names),
    ensures
        0 <= first_absent(order, names) < order.len(),
        !names.contains(order[first_absent(order, names)]),
        forall|j: int| 0 <= j < first_absent(order, names) ==> names.contains(#[trigger] order[j]),
    decreases order.len(),
{
    if names.contains(order[0]) {
        let t = order.skip(1);
        assert(!all_present(t, names)) by {
            let w = choose|w: int| 0 <= w < order.len() && !names.contains(#[trigger] order[w]);
            assert(t[w - 1] == order[w]);
        }
        lemma_first_absent_props(t, names);
        assert(forall|j: int| 1 <= j < order.len() ==> order[j] == t[j - 1]);
    }
}

/// A first absence pins `first_absent` down.
proof fn lemma_first_absent_at(order: Seq<Seq<char>>, names: Seq<Seq<char>>, i: int)
    requires
        0 <= i < order.len(),
        !names.contains(order[i]),
        forall|j: int| 0 <= j < i ==> names.contains(#[trigger] order[j]),
    ensures
        first_absent(order, names) == i,
    decreases order.len(),
{
    if i > 0 {
        let t = order.skip(1);
        assert(t[i - 1] == order[i]);
        assert(forall|j: int| 0 <= j < i - 1 ==> t[j] == order[j + 1]);
        lemma_first_absent_at(t, names, i - 1);
    }
}

/// The output order of an explicit prefix over an insertion order: the
/// explicit names first, then every insertion-order name not already listed.
pub open spec fn merged_order(explicit: Seq<Seq<char>>, insertion: Seq<Seq<char>>) -> Seq<
    Seq<char>,
>
    decreases insertion.len(),
{
    if insertion.len() == 0 {
        explicit
    } else {
        let pre = merged_order(explicit, insertion.drop_last());
        if pre.contains(insertion.last()) {
            pre
        } else {
            pre.push(insertion.last())
        }
    }
}

/// A merged order is no longer than its two sources together.
proof fn lemma_merged_len(explicit: Seq<Seq<char>>, insertion: Seq<Seq<char>>)
    ensures
        merged_order(explicit, insertion).len() <= explicit.len() + insertion.len(),
    decreases insertion.len(),
{
    if insertion.len() > 0 {
        lemma_merged_len(explicit, insertion.drop_last());
    }
}

/// Every name of a merged order comes from one of its two sources.
proof fn lemma_merged_sources(explicit: Seq<Seq<char>>, insertion: Seq<Seq<char>>, x: Seq<char>)
    requires
        merged_order(explicit, insertion).contains(x),
    ensures
        explicit.contains(x) || insertion.contains(x),
    decreases insertion.len(),
{
    if insertion.len() == 0 {
    } else {
        let pre = merged_order(explicit, insertion.drop_last());
        if pre.contains(x) {
            lemma_merged_sources(explicit, insertion.drop_last(), x);
            if insertion.drop_last().contains(x) {
                let w = choose|w: int|
                    0 <= w < insertion.drop_last().len() && insertion.drop_last()[w] == x;
                assert(insertion[w] == x);
            }
        } else {
            assert(merged_order(explicit, insertion) == pre.push(insertion.last()));
            let w = choose|w: int|
                0 <= w < merged_order(explicit, insertion).len() && merged_order(
                    explicit,
                    insertion,
                )[w] == x;
            if w < pre.len() {
                assert(pre[w] == x);
                assert(pre.contains(x));
            } else {
                assert(x == insertion.last());
                assert(insertion.contains(x)) by {
                    assert(insertion[insertion.len() - 1] == x);
                }
            }
        }
    }
}

/// A merged order over a repeat-free explicit prefix holds no repeats.
proof fn lemma_merged_distinct(explicit: Seq<Seq<char>>, insertion: Seq<Seq<char>>)
    requires
        names_distinct(explicit),
    ensures
        names_distinct(merged_order(explicit, insertion)),
    decreases insertion.len(),
{
    if insertion.len() == 0 {
    } else {
        lemma_merged_distinct(explicit, insertion.drop_last());
        let pre = merged_order(explicit, insertion.drop_last());
        if !pre.contains(insertion.last()) {
            let m = pre.push(insertion.last());
            assert(names_distinct(m)) by {
                assert(forall|i: int, j: int|
                    0 <= i < j < m.len() - 1 ==> m[i] == pre[i] && m[j] == pre[j]);
                assert(forall|i: int| 0 <= i < m.len() - 1 ==> #[trigger] m[i] != m[m.len() - 1])
                    by {
                    if exists|i: int| 0 <= i < m.len() - 1 && #[trigger] m[i] == m[m.len() - 1] {
                        let w = choose|i: int|
                            0 <= i < m.len() - 1 && #[trigger] m[i] == m[m.len() - 1];
                        assert(pre[w] == insertion.last());
                        assert(pre.contains(insertion.last()));
                    }
                }
            }
        }
    }
}

/// A merged order starts with the explicit names, and everything after
/// them comes from the insertion order.
proof fn lemma_merged_prefix(explicit: Seq<Seq<char>>, insertion: Seq<Seq<char>>)
    ensures
        merged_order(explicit, insertion).len() >= explicit.len(),
        forall|j: int|
            0 <= j < explicit.len() ==> #[trigger] merged_order(explicit, insertion)[j]
                == explicit[j],
        forall|j: int|
            explicit.len() <= j < merged_order(explicit, insertion).len() ==> insertion.contains(
                #[trigger] merged_order(explicit, insertion)[j],
            ),
    decreases insertion.len(),
{
    if insertion.len() > 0 {
        lemma_merged_prefix(explicit, insertion.drop_last());
        let pre = merged_order(explicit, insertion.drop_last());
        let m = merged_order(explicit, insertion);
        assert(forall|j: int|
            explicit.len() <= j < pre.len() ==> insertion.contains(#[trigger] pre[j])) by {
            assert(forall|j: int|
                explicit.len() <= j < pre.len() ==> insertion.drop_last().contains(
                    #[trigger] pre[j],
                ));
            assert(forall|w: int|
                0 <= w < insertion.drop_last().len() ==> #[trigger] insertion.drop_last()[w]
                    == insertion[w]);
            assert forall|j: int|
                explicit.len() <= j < pre.len() implies insertion.contains(#[trigger] pre[j]) by {
                let w = choose|w: int|
                    0 <= w < insertion.drop_last().len() && insertion.drop_last()[w] == pre[j];
                assert(insertion[w] == pre[j]);
            }
        }
        if !pre.contains(insertion.last()) {
            assert(m == pre.push(insertion.last()));
            assert(insertion.contains(insertion.last())) by {
                assert(insertion[insertion.len() - 1] == insertion.last());
            }
            assert(forall|j: int| 0 <= j < pre.len() ==> #[trigger] m[j] == pre[j]);
        }
    }
}

/// Whether a name list holds the given name.
fn contains_name(v: &Vec<String>, s: &String) -> (r: bool)
    ensures
        r == names_view(v@).contains(s@),
{
    let ghost names = names_view(v@);
    let n = v.len();
    let mut i: usize = 0;
    while i < n
        invariant
            n == v@.len(),
            names == names_view(v@),
            i <= n,
            forall|j: int| 0 <= j < i ==> names[j] != s@,
        decreases n - i,
    {
        if v[i] == *s {
            proof {
                assert(names[i as int] == v@[i as int]@);
            }
            return true;
        }
        proof {
            assert(names[i as int] == v@[i as int]@);
        }
        i = i + 1;
    }
    proof {
        if names.contains(s@) {
            let w = choose|w: int| 0 <= w < names.len() && names[w] == s@;
            assert(false);
        }
    }
    false
}

impl Workbook {
    /// Packages the workbook with the sheets in the given output order:
    /// every listed sheet is finalized in that order, then the manifest
    /// parts and each sheet's fragment are written into the archive.
    fn finish_ordered(&mut self, order: &Vec<String>) -> (r: Result<Vec<u8>, MrXlsxError>)
        requires
            wb_wf(*old(self)),
            names_distinct(names_view(order@)),
            order@.len() < usize::MAX,
        ensures
            r matches Err(MrXlsxError::NotFound(n)) ==> names_view(order@).contains(n@)
                && !wb_names(old(self).sheets@).contains(n@) && !all_present(
                names_view(order@),
                wb_names(old(self).sheets@),
            ) && n@ == names_view(order@)[first_absent(
                names_view(order@),
                wb_names(old(self).sheets@),
            )],
            r is Ok ==> all_present(names_view(order@), wb_names(old(self).sheets@)),
            r matches Ok(b) ==> b@ == zip_bytes(
                package_parts(
                    names_view(order@),
                    old(self).styles@,
                    texts_for(old(self).sheets@, names_view(order@)),
                ),
            ),
    {
        let ghost orig = old(self).sheets@;
        let ghost onames = names_view(order@);
        let n = order.len();
        // Finalize every listed sheet, in output order; a listed name with
        // no sheet fails here, after earlier sheets' side effects.
        let mut k: usize = 0;
        while k < n
            invariant
                n == order@.len(),
                k <= n,
                orig == old(self).sheets@,
                onames == names_view(order@),
                names_distinct(onames),
                names_distinct(wb_names(orig)),
                self.styles == old(self).styles,
                self.sheets@.len() == orig.len(),
                forall|i: int|
                    0 <= i < orig.len() ==> (#[trigger] self.sheets@[i]).name == orig[i].name,
                forall|j: int| 0 <= j < k ==> wb_names(orig).contains(#[trigger] onames[j]),
                forall|i: int|
                    0 <= i < orig.len() ==> (onames.take(k as int).contains(orig[i].name@)
                        ==> sink_text((#[trigger] self.sheets@[i]).sink) == sink_text(
                        orig[i].sink,
                    ) + sheet_footer_text()),
                forall|i: int|
                    0 <= i < orig.len() ==> (!onames.take(k as int).contains(orig[i].name@)
                        ==> #[trigger] self.sheets@[i] == orig[i]),
            decreases n - k,
        {
            let ghost names_now = wb_names(self.sheets@);
            proof {
                assert(names_now =~= wb_names(orig));
            }
            let idx = match self.find_sheet(order[k].as_str()) {
                Option::Some(i) => i,
                Option::None => {
                    proof {
                        assert(onames[k as int] == order@[k as int]@);
                        assert(onames.contains(onames[k as int]));
                        assert(!wb_names(orig).contains(order@[k as int]@));
                        lemma_first_absent_at(onames, wb_names(orig), k as int);
                    }
                    return Err(MrXlsxError::NotFound(order[k].clone()));
                },
            };
            proof {
                crate::registry::lemma_seq_find_first(names_now, order@[k as int]@);
                assert(names_now[idx as int] == orig[idx as int].name@);
                assert(!onames.take(k as int).contains(orig[idx as int].name@)) by {
                    assert(onames[k as int] == order@[k as int]@);
                    if exists|j: int|
                        0 <= j < k && onames.take(k as int)[j] == orig[idx as int].name@ {
                        let w = choose|j: int|
                            0 <= j < k && onames.take(k as int)[j] == orig[idx as int].name@;
                        assert(onames[w] == onames[k as int]);
                    }
                }
            }
            let ghost pre = self.sheets@;
            let mut w = self.sheets.remove(idx);
            let res = w.finalize();
            self.sheets.insert(idx, w);
            proof {
                assert(self.sheets@ =~= pre.update(idx as int, w));
            }
            match res {
                Ok(()) => {},
                Err(e) => {
                    return Err(e);
                },
            }
            proof {
                assert(onames[k as int] == order@[k as int]@);
                assert(onames.take(k + 1).drop_last() =~= onames.take(k as int));
                assert(onames.take(k + 1).last() == onames[k as int]);
                assert forall|i: int|
                    0 <= i < orig.len() && i != idx implies (#[trigger] orig[i]).name@ != orig[
                    idx as int
                ].name@ by {
                    assert(wb_names(orig)[i] == orig[i].name@);
                    assert(wb_names(orig)[idx as int] == orig[idx as int].name@);
                    if i < idx {
                        assert(wb_names(orig)[i] != wb_names(orig)[idx as int]);
                    } else {
                        assert(wb_names(orig)[idx as int] != wb_names(orig)[i]);
                    }
                }
                assert(forall|x: Seq<char>|
                    onames.take(k + 1).contains(x) <==> (onames.take(k as int).contains(x) || x
                        == onames[k as int])) by {
                    assert(forall|j: int|
                        0 <= j < k ==> onames.take(k + 1)[j] == onames.take(k as int)[j]);
                }
            }
            k = k + 1;
        }
        proof {
            assert(onames.take(n as int) =~= onames);
        }
        // Assemble the archive: the fixed manifest parts first, then each
        // sheet's finalized fragment under its positional path.
        let ct = content_types_xml(n);
        let rels = rels_dot_rels();
        let wbx = workbook_xml(order);
        let wrels = workbook_rels_xml(n);
        let stx = self.styles.to_xml();
        let ghost texts = texts_for(orig, onames);
        let ghost fixed = seq![
            ("[Content_Types].xml"@, content_types_text(onames.len() as int)),
            ("_rels/.rels"@, rels_dot_rels_text()),
            ("xl/workbook.xml"@, workbook_xml_text(onames)),
            ("xl/_rels/workbook.xml.rels"@, workbook_rels_text(onames.len() as int)),
            ("xl/styles.xml"@, styles_xml_text(old(self).styles@)),
        ];
        let mut z = zip_new();
        if let Err(e) = zip_add_part(&mut z, "[Content_Types].xml", ct.as_str()) {
            return Err(e);
        }
        if let Err(e) = zip_add_part(&mut z, "_rels/.rels", rels.as_str()) {
            return Err(e);
        }
        if let Err(e) = zip_add_part(&mut z, "xl/workbook.xml", wbx.as_str()) {
            return Err(e);
        }
        if let Err(e) = zip_add_part(&mut z, "xl/_rels/workbook.xml.rels", wrels.as_str()) {
            return Err(e);
        }
        if let Err(e) = zip_add_part(&mut z, "xl/styles.xml", stx.as_str()) {
            return Err(e);
        }
        proof {
            assert(zip_parts(z) =~= fixed);
            assert(texts.take(0) =~= Seq::<Seq<char>>::empty());
        }
        let mut k: usize = 0;
        while k < n
            invariant
                n == order@.len(),
                n < usize::MAX,
                k <= n,
                orig == old(self).sheets@,
                onames == names_view(order@),
                names_distinct(onames),
                names_distinct(wb_names(orig)),
                texts == texts_for(orig, onames),
                fixed == seq![
                    ("[Content_Types].xml"@, content_types_text(onames.len() as int)),
                    ("_rels/.rels"@, rels_dot_rels_text()),
                    ("xl/workbook.xml"@, workbook_xml_text(onames)),
                    ("xl/_rels/workbook.xml.rels"@, workbook_rels_text(onames.len() as int)),
                    ("xl/styles.xml"@, styles_xml_text(old(self).styles@)),
                ],
                self.sheets@.len() == orig.len(),
                forall|i: int|
                    0 <= i < orig.len() ==> (#[trigger] self.sheets@[i]).name == orig[i].name,
                forall|j: int| 0 <= j < n ==> wb_names(orig).contains(#[trigger] onames[j]),
                forall|i: int|
                    0 <= i < orig.len() ==> (onames.contains(orig[i].name@) ==> sink_text(
                        (#[trigger] self.sheets@[i]).sink,
                    ) == sink_text(orig[i].sink) + sheet_footer_text()),
                zip_parts(z) == fixed + sheet_part_entries(texts.take(k as int)),
            decreases n - k,
        {
            let ghost names_now = wb_names(self.sheets@);
            proof {
                assert(names_now =~= wb_names(orig));
                assert(onames[k as int] == order@[k as int]@);
            }
            let idx = match self.find_sheet(order[k].as_str()) {
                Option::Some(i) => i,
                Option::None => {
                    proof {
                        assert(names_now.contains(onames[k as int]));
                        assert(false);
                    }
                    return Err(MrXlsxError::NotFound(order[k].clone()));
                },
            };
            proof {
                crate::registry::lemma_seq_find_first(names_now, order@[k as int]@);
                assert(names_now[idx as int] == orig[idx as int].name@);
                assert(onames.contains(orig[idx as int].name@)) by {
                    assert(orig[idx as int].name@ == onames[k as int]);
                }
            }
            let ghost pre = self.sheets@;
            let mut w = self.sheets.remove(idx);
            let text = match w.read_back() {
                Ok(t) => t,
                Err(e) => {
                    return Err(e);
                },
            };
            self.sheets.insert(idx, w);
            proof {
                assert(self.sheets@ =~= pre.update(idx as int, w));
            }
            let mut path = String::new();
            path.append("xl/worksheets/sheet");
            let num = usize_to_string(k + 1);
            path.append(num.as_str());
            path.append(".xml");
            proof {
                assert(texts[k as int] == sink_text(
                    orig[seq_find(wb_names(orig), onames[k as int])].sink,
                ) + sheet_footer_text());
                assert(seq_find(wb_names(orig), onames[k as int]) == idx as int) by {
                    assert(names_now =~= wb_names(orig));
                }
                assert(text@ == texts[k as int]);
                assert(texts.take(k + 1).drop_last() =~= texts.take(k as int));
                assert(texts.take(k + 1).last() == texts[k as int]);
                assert(texts.take(k + 1).len() == k + 1);
            }
            if let Err(e) = zip_add_part(&mut z, path.as_str(), text.as_str()) {
                return Err(e);
            }
            k = k + 1;
        }
        proof {
            assert(texts.take(n as int) =~= texts);
        }
        match zip_finish(z) {
            Ok(bytes) => {
                proof {
                    assert(package_parts(onames, old(self).styles@, texts) == fixed
                        + sheet_part_entries(texts));
                }
                Ok(bytes)
            },
            Err(e) => Err(e),
        }
    }

    /// Finalizes every sheet in insertion order and packages the workbook
    /// into an archive, returning its bytes.
    pub fn finish(self) -> (r: Result<Vec<u8>, MrXlsxError>)
        requires
            wb_wf(self),
            self.sheets@.len() < usize::MAX,
        ensures
            r matches Ok(b) ==> b@ == zip_bytes(
                package_parts(
                    wb_names(self.sheets@),
                    self.styles@,
                    texts_for(self.sheets@, wb_names(self.sheets@)),
                ),
            ),
    {
        let mut order: Vec<String> = Vec::new();
        let n = self.sheets.len();
        let mut i: usize = 0;
        while i < n
            invariant
                n == self.sheets@.len(),
                i <= n,
                names_view(order@) == wb_names(self.sheets@).take(i as int),
            decreases n - i,
        {
            let ghost pre_order = order@;
            let nm = self.sheets[i].name.clone();
            order.push(nm);
            proof {
                lemma_names_view_push(pre_order, self.sheets@[i as int].name);
                assert(wb_names(self.sheets@)[i as int] == self.sheets@[i as int].name@);
                assert(names_view(order@) =~= wb_names(self.sheets@).take(i + 1));
            }
            i = i + 1;
        }
        proof {
            assert(wb_names(self.sheets@).take(n as int) =~= wb_names(self.sheets@));
        }
        let mut wb = self;
        wb.finish_ordered(&order)
    }

    /// Packages the workbook with the caller's explicit name sequence first,
    /// then any remaining sheets in insertion order; the explicit sequence
    /// may not repeat a name. A listed name with no sheet fails with
    /// `NotFound` carrying the first such name, at finalize time, after
    /// earlier sheets' side effects; finalization is not transactional.
    pub fn finish_by_order(self, sheet_order: &Vec<String>) -> (r: Result<Vec<u8>, MrXlsxError>)
        requires
            wb_wf(self),
            names_distinct(names_view(sheet_order@)),
            sheet_order@.len() + self.sheets@.len() < usize::MAX,
        ensures
            r matches Err(MrXlsxError::NotFound(n)) ==> names_view(sheet_order@).contains(n@)
                && !wb_names(self.sheets@).contains(n@) && !all_present(
                names_view(sheet_order@),
                wb_names(self.sheets@),
            ) && n@ == names_view(sheet_order@)[first_absent(
                names_view(sheet_order@),
                wb_names(self.sheets@),
            )],
            r is Ok ==> all_present(names_view(sheet_order@), wb_names(self.sheets@)),
            r matches Ok(b) ==> b@ == zip_bytes(
                package_parts(
                    merged_order(names_view(sheet_order@), wb_names(self.sheets@)),
                    self.styles@,
                    texts_for(
                        self.sheets@,
                        merged_order(names_view(sheet_order@), wb_names(self.sheets@)),
                    ),
                ),
            ),
    {
        let ghost explicit = names_view(sheet_order@);
        let ghost insertion = wb_names(self.sheets@);
        let mut merged: Vec<String> = Vec::new();
        let ne = sheet_order.len();
        let mut i: usize = 0;
        while i < ne
            invariant
                ne == sheet_order@.len(),
                i <= ne,
                explicit == names_view(sheet_order@),
                names_view(merged@) == explicit.take(i as int),
            decreases ne - i,
        {
            let ghost pre_merged = merged@;
            merged.push(sheet_order[i].clone());
            proof {
                lemma_names_view_push(pre_merged, sheet_order@[i as int]);
                assert(explicit[i as int] == sheet_order@[i as int]@);
                assert(names_view(merged@) =~= explicit.take(i + 1));
            }
            i = i + 1;
        }
        proof {
            assert(explicit.take(ne as int) =~= explicit);
        }
        let ns = self.sheets.len();
        let mut i: usize = 0;
        while i < ns
            invariant
                ns == self.sheets@.len(),
                i <= ns,
                explicit == names_view(sheet_order@),
                insertion == wb_names(self.sheets@),
                names_view(merged@) == merged_order(explicit, insertion.take(i as int)),
            decreases ns - i,
        {
            let nm = self.sheets[i].name.clone();
            proof {
                assert(insertion[i as int] == self.sheets@[i as int].name@);
                assert(insertion.take(i + 1).drop_last() =~= insertion.take(i as int));
                assert(insertion.take(i + 1).last() == insertion[i as int]);
            }
            if !contains_name(&merged, &nm) {
                let ghost pre_merged = merged@;
                merged.push(nm);
                proof {
                    lemma_names_view_push(pre_merged, self.sheets@[i as int].name);
                    assert(names_view(merged@) =~= merged_order(explicit, insertion.take(i + 1)));
                }
            } else {
                proof {
                    assert(names_view(merged@) =~= merged_order(explicit, insertion.take(i + 1)));
                }
            }
            i = i + 1;
        }
        proof {
            assert(insertion.take(ns as int) =~= insertion);
            lemma_merged_distinct(explicit, insertion);
            lemma_merged_len(explicit, insertion);
        }
        let mut wb = self;
        let ghost mnames = names_view(merged@);
        let res = wb.finish_ordered(&merged);
        proof {
            lemma_merged_prefix(explicit, insertion);
            match &res {
                Result::Ok(_) => {
                    assert forall|j: int|
                        0 <= j < explicit.len() implies insertion.contains(
                        #[trigger] explicit[j],
                    ) by {
                        assert(mnames[j] == explicit[j]);
                        assert(insertion.contains(mnames[j]));
                    }
                },
                Result::Err(MrXlsxError::NotFound(n)) => {
                    lemma_merged_sources(explicit, insertion, n@);
                    lemma_first_absent_props(mnames, insertion);
                    let fam = first_absent(mnames, insertion);
                    if fam >= explicit.len() {
                        assert(insertion.contains(mnames[fam]));
                        assert(false);
                    }
                    assert(explicit[fam] == mnames[fam]);
                    assert(forall|j: int|
                        0 <= j < fam ==> insertion.contains(#[trigger] explicit[j])) by {
                        assert(forall|j: int|
                            0 <= j < fam ==> #[trigger] explicit[j] == mnames[j]);
                        assert(forall|j: int|
                            0 <= j < fam ==> insertion.contains(#[trigger] mnames[j]));
                    }
                    lemma_first_absent_at(explicit, insertion, fam);
                    assert(!all_present(explicit, insertion));
                },
                _ => {},
            }
        }
        res
    }
}

} // verus!
