use vstd::prelude::*;

use crate::colref::{col_index_of, col_ref_to_index};
use crate::error::MrXlsxError;
use crate::rowparse::{cell_type_from, cell_type_of, fresh_pstate, padded, resolved_value, strings_view, trimmed, ParseState, PStateV};
use crate::textutil::{csv_escaped, push_char, str_eq};
use crate::xmlevent::{
    attr_pick, attr_pick_text, attrs_view, decode_xml_text, read_xml_attrs, read_xml_event,
    ref_char_of, resolve_entity, unescaped_text, xml_attrs_at, xml_step, XmlEvent, XmlEventV,
};

verus! {

// ---------------------------------------------------------------------------
// The archive store: an opened package, read side.
// ---------------------------------------------------------------------------

/// An opened package archive. Held opaque; `store_entries` names its entries
/// by path.
#[verifier::external_body]
pub struct ZipStore {
    inner: zip::ZipArchive<std::io::Cursor<Vec<u8>>>,
}

/// The entries of an opened archive: part path to part text.
pub uninterp spec fn store_entries(z: ZipStore) -> Map<Seq<char>, Seq<char>>;

/// The entries the given archive bytes hold, each part decoded as text: a
/// function of the bytes alone.
pub uninterp spec fn zip_entries_of(data: Seq<u8>) -> Map<Seq<char>, Seq<char>>;

/// Whether the bytes open as an archive at all: a function of the bytes
/// alone.
pub uninterp spec fn zip_opens(data: Seq<u8>) -> bool;

/// Relies on zip::ZipArchive::new over a copy of the archive bytes: opening
/// succeeds exactly when the bytes parse as an archive, and then the store
/// holds exactly the entries those bytes declare; a malformed archive
/// fails.
#[verifier::external_body]
fn zip_open(data: &Vec<u8>) -> (r: Result<ZipStore, MrXlsxError>)
    ensures
        (r is Ok) <==> zip_opens(data@),
        r matches Ok(z) ==> store_entries(z) == zip_entries_of(data@),
        r matches Err(e) ==> e matches MrXlsxError::FormatError(_),
{
    match zip::ZipArchive::new(std::io::Cursor::new(data.clone())) {
        Ok(a) => Ok(ZipStore { inner: a }),
        Err(e) => Err(MrXlsxError::FormatError(e.to_string())),
    }
}

/// Relies on zip::ZipArchive::by_name and std::io::Read::read_to_end: a
/// present entry's whole text comes back, lossily decoded as UTF-8; an
/// absent name is `NotFound` (zip reports `FileNotFound` exactly then), and
/// other failures are format or stream errors.
#[verifier::external_body]
fn zip_entry_text(z: &mut ZipStore, name: &str) -> (r: Result<String, MrXlsxError>)
    ensures
        store_entries(*final(z)) == store_entries(*old(z)),
        r matches Ok(t) ==> store_entries(*old(z)).contains_key(name@) && t@ == store_entries(
            *old(z),
        )[name@],
        r matches Err(MrXlsxError::NotFound(n)) ==> !store_entries(*old(z)).contains_key(name@)
            && n@ == name@,
        !store_entries(*old(z)).contains_key(name@) ==> r matches Err(MrXlsxError::NotFound(_)),
        r matches Err(e) ==> (e matches MrXlsxError::NotFound(_) || e
            matches MrXlsxError::FormatError(_) || e matches MrXlsxError::Io(_)),
{
    let mut f = match z.inner.by_name(name) {
        Ok(f) => f,
        Err(zip::result::ZipError::FileNotFound) => {
            return Err(MrXlsxError::NotFound(name.to_string()));
        },
        Err(e) => {
            return Err(MrXlsxError::FormatError(e.to_string()));
        },
    };
    let mut buf: Vec<u8> = Vec::new();
    match std::io::Read::read_to_end(&mut f, &mut buf) {
        Ok(_) => Ok(String::from_utf8_lossy(&buf).into_owned()),
        Err(e) => Err(MrXlsxError::Io(e.to_string())),
    }
}

// ---------------------------------------------------------------------------
// Small verified helpers.
// ---------------------------------------------------------------------------

/// Whether `p` occurs in `s` as a contiguous run.
pub open spec fn has_substring(s: Seq<char>, p: Seq<char>) -> bool {
    exists|i: int| 0 <= i <= s.len() - p.len() && #[trigger] s.subrange(i, i + p.len()) == p
}

/// Searches for `p` inside `s`.
pub fn contains_sub(s: &str, p: &str) -> (r: bool)
    ensures
        r == has_substring(s@, p@),
{
    let ns = s.unicode_len();
    let np = p.unicode_len();
    if np > ns {
        proof {
            assert(!has_substring(s@, p@));
        }
        return false;
    }
    if np == 0 {
        proof {
            assert(s@.subrange(0int, 0int + p@.len() as int) =~= p@);
        }
        return true;
    }
    let mut i: usize = 0;
    while i <= ns - np
        invariant
            ns == s@.len(),
            np == p@.len(),
            np <= ns,
            i <= ns - np + 1,
            np >= 1,
            forall|k: int| 0 <= k < i ==> #[trigger] s@.subrange(k, k + p@.len()) != p@,
        decreases ns - i,
    {
        let piece = s.substring_char(i, i + np);
        if str_eq(piece, p) {
            proof {
                assert(s@.subrange(i as int, i + p@.len()) == p@);
            }
            return true;
        }
        i = i + 1;
    }
    proof {
        if has_substring(s@, p@) {
            let w = choose|w: int|
                0 <= w <= s@.len() - p@.len() && #[trigger] s@.subrange(w, w + p@.len()) == p@;
            assert(w < i);
            assert(false);
        }
    }
    false
}

/// `t` with every leading slash removed.
pub open spec fn strip_slashes(s: Seq<char>) -> Seq<char>
    decreases s.len(),
{
    if s.len() > 0 && s[0] == '/' {
        strip_slashes(s.skip(1))
    } else {
        s
    }
}

/// A relationship target normalized to a package part path: leading slashes
/// dropped, and the `xl/` prefix supplied when missing.
pub open spec fn normalized_path(t: Seq<char>) -> Seq<char> {
    if strip_slashes(t).len() >= 3 && strip_slashes(t).subrange(0, 3) == "xl/"@ {
        strip_slashes(t)
    } else {
        "xl/"@ + strip_slashes(t)
    }
}

/// Normalizes a relationship target to a package part path.
pub fn normalize_path(target: &str) -> (r: String)
    ensures
        r@ == normalized_path(target@),
{
    let n = target.unicode_len();
    let mut start: usize = 0;
    proof {
        assert(target@.skip(0) =~= target@);
    }
    loop
        invariant
            n == target@.len(),
            start <= n,
            strip_slashes(target@) == strip_slashes(target@.skip(start as int)),
        ensures
            start <= n == target@.len(),
            strip_slashes(target@) == target@.skip(start as int),
        decreases n - start,
    {
        if start >= n {
            proof {
                assert(target@.skip(start as int) =~= Seq::<char>::empty());
            }
            break;
        }
        let c = target.get_char(start);
        if c != '/' {
            proof {
                assert(target@.skip(start as int)[0] == target@[start as int]);
            }
            break;
        }
        proof {
            assert(target@.skip(start as int)[0] == target@[start as int]);
            assert(target@.skip(start as int).skip(1) =~= target@.skip(start + 1));
        }
        start = start + 1;
    }
    let stripped = target.substring_char(start, n);
    let has_prefix = if n - start >= 3 {
        let head = target.substring_char(start, start + 3);
        proof {
            reveal_strlit("xl/");
        }
        str_eq(head, "xl/")
    } else {
        false
    };
    proof {
        if n - start >= 3 {
            assert(target@.subrange(start as int, start + 3) =~= target@.skip(
                start as int,
            ).subrange(0, 3));
        }
    }
    if has_prefix {
        stripped.to_owned()
    } else {
        let mut out = String::new();
        out.append("xl/");
        out.append(stripped);
        out
    }
}

/// The value of the first pair carrying the key, scanning in order.
pub open spec fn assoc_text(pairs: Seq<(Seq<char>, Seq<char>)>, key: Seq<char>) -> Option<
    Seq<char>,
>
    decreases pairs.len(),
{
    if pairs.len() == 0 {
        Option::None
    } else if pairs[0].0 == key {
        Option::Some(pairs[0].1)
    } else {
        assoc_text(pairs.skip(1), key)
    }
}

/// Looks up the first pair carrying the key.
fn assoc_get(pairs: &Vec<(String, String)>, key: &str) -> (r: Option<String>)
    ensures
        match r {
            Option::Some(v) => assoc_text(attrs_view(pairs@), key@) == Option::Some(v@),
            Option::None => assoc_text(attrs_view(pairs@), key@) is None,
        },
{
    let ghost pv = attrs_view(pairs@);
    let n = pairs.len();
    let mut i: usize = 0;
    proof {
        assert(pv.skip(0) =~= pv);
    }
    while i < n
        invariant
            n == pairs@.len(),
            i <= n,
            pv == attrs_view(pairs@),
            assoc_text(pv, key@) == assoc_text(pv.skip(i as int), key@),
        decreases n - i,
    {
        proof {
            assert(pv[i as int] == (pairs@[i as int].0@, pairs@[i as int].1@));
            assert(pv.skip(i as int)[0] == pv[i as int]);
        }
        if str_eq(pairs[i].0.as_str(), key) {
            return Option::Some(pairs[i].1.clone());
        }
        proof {
            assert(pv.skip(i as int).skip(1) =~= pv.skip(i + 1));
        }
        i = i + 1;
    }
    proof {
        assert(pv.skip(n as int) =~= Seq::<(Seq<char>, Seq<char>)>::empty());
    }
    Option::None
}

/// Copies a string list, keeping every element's text.
fn dup_strings(v: &Vec<String>) -> (r: Vec<String>)
    ensures
        r@ == v@,
{
    let mut out: Vec<String> = Vec::new();
    let n = v.len();
    let mut i: usize = 0;
    while i < n
        invariant
            n == v@.len(),
            i <= n,
            out@ == v@.take(i as int),
        decreases n - i,
    {
        out.push(v[i].clone());
        proof {
            assert(out@ =~= v@.take(i + 1));
        }
        i = i + 1;
    }
    proof {
        assert(v@.take(n as int) =~= v@);
    }
    out
}

// ---------------------------------------------------------------------------
// Manifest parsing, specified as folds over the scanner's token stream.
// ---------------------------------------------------------------------------

/// Fuel that outlasts any scan: the scanner advances at least one byte per
/// consumed token, so no scan of an in-memory text takes more steps.
pub open spec fn scan_fuel() -> nat {
    usize::MAX as nat + 1
}

/// Appending one string appends its view.
proof fn lemma_strings_view_push(s: Seq<String>, x: String)
    ensures
        strings_view(s.push(x)) =~= strings_view(s).push(x@),
{
    assert(forall|j: int|
        0 <= j < s.len() ==> #[trigger] strings_view(s.push(x))[j] == strings_view(s)[j]);
    assert(strings_view(s.push(x))[s.len() as int] == x@);
}

/// Appending one pair appends its view.
proof fn lemma_attrs_view_push(s: Seq<(String, String)>, x: (String, String))
    ensures
        attrs_view(s.push(x)) =~= attrs_view(s).push((x.0@, x.1@)),
{
    assert(forall|j: int|
        0 <= j < s.len() ==> #[trigger] attrs_view(s.push(x))[j] == attrs_view(s)[j]);
    assert(attrs_view(s.push(x))[s.len() as int] == (x.0@, x.1@));
}

/// What one sheet declaration adds to the workbook scan's accumulators: the
/// declaration order and the relationship id to name pairing, taken only
/// when both the name and the id are non-empty.
pub open spec fn wb_sheet_add(
    s: Seq<char>,
    offset: int,
    nm: Seq<char>,
    order: Seq<Seq<char>>,
    rids: Seq<(Seq<char>, Seq<char>)>,
) -> (Seq<Seq<char>>, Seq<(Seq<char>, Seq<char>)>) {
    if nm == "sheet"@ {
        let name = attr_pick_text(xml_attrs_at(s, offset), "name"@, "name"@);
        let rid = attr_pick_text(xml_attrs_at(s, offset), "r:id"@, "id"@);
        if name.len() > 0 && rid.len() > 0 {
            (order.push(name), rids.push((rid, name)))
        } else {
            (order, rids)
        }
    } else {
        (order, rids)
    }
}

/// The workbook part scan from an offset, with the names and pairs gathered
/// so far: the end of input yields them; a scanner failure yields its
/// message; `None` only when the fuel runs out, which a real scan never
/// reaches.
pub open spec fn workbook_scan(
    s: Seq<char>,
    offset: int,
    order: Seq<Seq<char>>,
    rids: Seq<(Seq<char>, Seq<char>)>,
    fuel: nat,
) -> Option<Result<(Seq<Seq<char>>, Seq<(Seq<char>, Seq<char>)>), Seq<char>>>
    decreases fuel,
{
    if fuel == 0 {
        Option::None
    } else {
        let step = xml_step(s, offset);
        match step.0 {
            XmlEventV::Eof => Option::Some(Result::Ok((order, rids))),
            XmlEventV::Fail(m) => Option::Some(Result::Err(m)),
            XmlEventV::Open(nm) => workbook_scan(
                s,
                step.1,
                wb_sheet_add(s, offset, nm, order, rids).0,
                wb_sheet_add(s, offset, nm, order, rids).1,
                (fuel - 1) as nat,
            ),
            XmlEventV::SelfClosed(nm) => workbook_scan(
                s,
                step.1,
                wb_sheet_add(s, offset, nm, order, rids).0,
                wb_sheet_add(s, offset, nm, order, rids).1,
                (fuel - 1) as nat,
            ),
            _ => workbook_scan(s, step.1, order, rids, (fuel - 1) as nat),
        }
    }
}

/// Parses the workbook part: the sheet names in declaration order, and the
/// pairing of each relationship id with its sheet name, exactly as the
/// token-stream scan gives them.
fn parse_workbook(xml: &str) -> (r: Result<(Vec<String>, Vec<(String, String)>), MrXlsxError>)
    ensures
        ({
            let outcome = workbook_scan(
                xml@,
                0,
                Seq::<Seq<char>>::empty(),
                Seq::<(Seq<char>, Seq<char>)>::empty(),
                scan_fuel(),
            );
            match r {
                Ok(p) => outcome == Option::Some(
                    Result::<(Seq<Seq<char>>, Seq<(Seq<char>, Seq<char>)>), Seq<char>>::Ok(
                        (strings_view(p.0@), attrs_view(p.1@)),
                    ),
                ),
                Err(MrXlsxError::FormatError(m)) => outcome == Option::Some(
                    Result::<(Seq<Seq<char>>, Seq<(Seq<char>, Seq<char>)>), Seq<char>>::Err(m@),
                ),
                Err(_) => false,
            }
        }),
{
    let mut order: Vec<String> = Vec::new();
    let mut rid_names: Vec<(String, String)> = Vec::new();
    let mut offset: usize = 0;
    let ghost mut steps: int = 0;
    proof {
        assert(strings_view(order@) =~= Seq::<Seq<char>>::empty());
        assert(attrs_view(rid_names@) =~= Seq::<(Seq<char>, Seq<char>)>::empty());
    }
    loop
        invariant
            0 <= steps <= offset,
            workbook_scan(
                xml@,
                0,
                Seq::<Seq<char>>::empty(),
                Seq::<(Seq<char>, Seq<char>)>::empty(),
                scan_fuel(),
            ) == workbook_scan(
                xml@,
                offset as int,
                strings_view(order@),
                attrs_view(rid_names@),
                (scan_fuel() - steps) as nat,
            ),
        decreases usize::MAX - offset,
    {
        let before = offset;
        let (ev, next) = read_xml_event(xml, before);
        offset = next;
        proof {
            assert((scan_fuel() - steps) as nat != 0);
            assert(((scan_fuel() - steps) as nat - 1) as nat == (scan_fuel() - (steps + 1)) as nat);
        }
        match ev {
            XmlEvent::Open(name) | XmlEvent::SelfClosed(name) => {
                let ghost pre_order = order@;
                let ghost pre_rids = rid_names@;
                if str_eq(name.as_str(), "sheet") {
                    let attrs = read_xml_attrs(xml, before);
                    let sheet_name = attr_pick(&attrs, "name", "name");
                    let rid = attr_pick(&attrs, "r:id", "id");
                    if !sheet_name.as_str().is_empty() && !rid.as_str().is_empty() {
                        order.push(sheet_name.clone());
                        rid_names.push((rid, sheet_name));
                        proof {
                            lemma_strings_view_push(pre_order, order@.last());
                            lemma_attrs_view_push(pre_rids, rid_names@.last());
                        }
                    }
                }
                proof {
                    steps = steps + 1;
                }
            },
            XmlEvent::Eof => {
                return Ok((order, rid_names));
            },
            XmlEvent::Fail(msg) => {
                return Err(MrXlsxError::FormatError(msg));
            },
            _ => {
                proof {
                    steps = steps + 1;
                }
            },
        }
    }
}

/// What one relationship declaration adds to the rels scan: the id to
/// normalized-path pair, taken only for worksheet-typed relationships with
/// a non-empty id.
pub open spec fn rel_add(
    s: Seq<char>,
    offset: int,
    nm: Seq<char>,
    map: Seq<(Seq<char>, Seq<char>)>,
) -> Seq<(Seq<char>, Seq<char>)> {
    if nm == "Relationship"@ {
        let id = attr_pick_text(xml_attrs_at(s, offset), "Id"@, "Id"@);
        let target = attr_pick_text(xml_attrs_at(s, offset), "Target"@, "Target"@);
        let ty = attr_pick_text(xml_attrs_at(s, offset), "Type"@, "Type"@);
        if has_substring(ty, "worksheet"@) && id.len() > 0 {
            map.push((id, normalized_path(target)))
        } else {
            map
        }
    } else {
        map
    }
}

/// The workbook relationship part scan from an offset, with the pairs
/// gathered so far.
pub open spec fn rels_scan(
    s: Seq<char>,
    offset: int,
    map: Seq<(Seq<char>, Seq<char>)>,
    fuel: nat,
) -> Option<Result<Seq<(Seq<char>, Seq<char>)>, Seq<char>>>
    decreases fuel,
{
    if fuel == 0 {
        Option::None
    } else {
        let step = xml_step(s, offset);
        match step.0 {
            XmlEventV::Eof => Option::Some(Result::Ok(map)),
            XmlEventV::Fail(m) => Option::Some(Result::Err(m)),
            XmlEventV::Open(nm) => rels_scan(
                s,
                step.1,
                rel_add(s, offset, nm, map),
                (fuel - 1) as nat,
            ),
            XmlEventV::SelfClosed(nm) => rels_scan(
                s,
                step.1,
                rel_add(s, offset, nm, map),
                (fuel - 1) as nat,
            ),
            _ => rels_scan(s, step.1, map, (fuel - 1) as nat),
        }
    }
}

/// Parses the workbook relationship part into relationship id and part
/// path pairs, keeping worksheet-typed relationships only, exactly as the
/// token-stream scan gives them.
fn parse_workbook_rels(xml: &str) -> (r: Result<Vec<(String, String)>, MrXlsxError>)
    ensures
        ({
            let outcome = rels_scan(
                xml@,
                0,
                Seq::<(Seq<char>, Seq<char>)>::empty(),
                scan_fuel(),
            );
            match r {
                Ok(p) => outcome == Option::Some(
                    Result::<Seq<(Seq<char>, Seq<char>)>, Seq<char>>::Ok(attrs_view(p@)),
                ),
                Err(MrXlsxError::FormatError(m)) => outcome == Option::Some(
                    Result::<Seq<(Seq<char>, Seq<char>)>, Seq<char>>::Err(m@),
                ),
                Err(_) => false,
            }
        }),
{
    let mut map: Vec<(String, String)> = Vec::new();
    let mut offset: usize = 0;
    let ghost mut steps: int = 0;
    proof {
        assert(attrs_view(map@) =~= Seq::<(Seq<char>, Seq<char>)>::empty());
    }
    loop
        invariant
            0 <= steps <= offset,
            rels_scan(xml@, 0, Seq::<(Seq<char>, Seq<char>)>::empty(), scan_fuel())
                == rels_scan(
                xml@,
                offset as int,
                attrs_view(map@),
                (scan_fuel() - steps) as nat,
            ),
        decreases usize::MAX - offset,
    {
        let before = offset;
        let (ev, next) = read_xml_event(xml, before);
        offset = next;
        proof {
            assert((scan_fuel() - steps) as nat != 0);
            assert(((scan_fuel() - steps) as nat - 1) as nat == (scan_fuel() - (steps + 1)) as nat);
        }
        match ev {
            XmlEvent::Open(name) | XmlEvent::SelfClosed(name) => {
                let ghost pre_map = map@;
                if str_eq(name.as_str(), "Relationship") {
                    let attrs = read_xml_attrs(xml, before);
                    let id = attr_pick(&attrs, "Id", "Id");
                    let target = attr_pick(&attrs, "Target", "Target");
                    let rel_type = attr_pick(&attrs, "Type", "Type");
                    let is_sheet = contains_sub(rel_type.as_str(), "worksheet");
                    if is_sheet && !id.as_str().is_empty() {
                        let path = normalize_path(target.as_str());
                        map.push((id, path));
                        proof {
                            lemma_attrs_view_push(pre_map, map@.last());
                        }
                    }
                }
                proof {
                    steps = steps + 1;
                }
            },
            XmlEvent::Eof => {
                return Ok(map);
            },
            XmlEvent::Fail(msg) => {
                return Err(MrXlsxError::FormatError(msg));
            },
            _ => {
                proof {
                    steps = steps + 1;
                }
            },
        }
    }
}

/// The shared-string table scan from an offset, with the finished strings,
/// the text of the in-progress item, and whether a text element is open.
pub open spec fn sst_scan(
    s: Seq<char>,
    offset: int,
    strings: Seq<Seq<char>>,
    current: Seq<char>,
    in_t: bool,
    fuel: nat,
) -> Option<Result<Seq<Seq<char>>, Seq<char>>>
    decreases fuel,
{
    if fuel == 0 {
        Option::None
    } else {
        let step = xml_step(s, offset);
        let next = step.1;
        match step.0 {
            XmlEventV::Eof => Option::Some(Result::Ok(strings)),
            XmlEventV::Fail(m) => Option::Some(Result::Err(m)),
            XmlEventV::Open(nm) => if nm == "si"@ {
                sst_scan(s, next, strings, Seq::<char>::empty(), in_t, (fuel - 1) as nat)
            } else if nm == "t"@ {
                sst_scan(s, next, strings, current, true, (fuel - 1) as nat)
            } else {
                sst_scan(s, next, strings, current, in_t, (fuel - 1) as nat)
            },
            XmlEventV::Close(nm) => if nm == "si"@ {
                sst_scan(s, next, strings.push(current), current, in_t, (fuel - 1) as nat)
            } else if nm == "t"@ {
                sst_scan(s, next, strings, current, false, (fuel - 1) as nat)
            } else {
                sst_scan(s, next, strings, current, in_t, (fuel - 1) as nat)
            },
            XmlEventV::Chars(t) => if in_t {
                sst_scan(s, next, strings, current + unescaped_text(t), in_t, (fuel - 1) as nat)
            } else {
                sst_scan(s, next, strings, current, in_t, (fuel - 1) as nat)
            },
            XmlEventV::EntityRef(b) => if in_t {
                match ref_char_of(b) {
                    Option::Some(ch) => sst_scan(
                        s,
                        next,
                        strings,
                        current.push(ch),
                        in_t,
                        (fuel - 1) as nat,
                    ),
                    Option::None => sst_scan(s, next, strings, current, in_t, (fuel - 1) as nat),
                }
            } else {
                sst_scan(s, next, strings, current, in_t, (fuel - 1) as nat)
            },
            _ => sst_scan(s, next, strings, current, in_t, (fuel - 1) as nat),
        }
    }
}

/// Parses the shared-string table into its ordered string list, one string
/// per item in document order, each the concatenation of its decoded text,
/// exactly as the token-stream scan gives them; whitespace is preserved.
fn parse_shared_strings(xml: &str) -> (r: Result<Vec<String>, MrXlsxError>)
    ensures
        ({
            let outcome = sst_scan(
                xml@,
                0,
                Seq::<Seq<char>>::empty(),
                Seq::<char>::empty(),
                false,
                scan_fuel(),
            );
            match r {
                Ok(p) => outcome == Option::Some(
                    Result::<Seq<Seq<char>>, Seq<char>>::Ok(strings_view(p@)),
                ),
                Err(MrXlsxError::FormatError(m)) => outcome == Option::Some(
                    Result::<Seq<Seq<char>>, Seq<char>>::Err(m@),
                ),
                Err(_) => false,
            }
        }),
{
    let mut strings: Vec<String> = Vec::new();
    let mut current = String::new();
    let mut in_t = false;
    let mut offset: usize = 0;
    let ghost mut steps: int = 0;
    proof {
        assert(strings_view(strings@) =~= Seq::<Seq<char>>::empty());
    }
    loop
        invariant
            0 <= steps <= offset,
            sst_scan(xml@, 0, Seq::<Seq<char>>::empty(), Seq::<char>::empty(), false, scan_fuel())
                == sst_scan(
                xml@,
                offset as int,
                strings_view(strings@),
                current@,
                in_t,
                (scan_fuel() - steps) as nat,
            ),
        decreases usize::MAX - offset,
    {
        let before = offset;
        let (ev, next) = read_xml_event(xml, before);
        offset = next;
        proof {
            assert((scan_fuel() - steps) as nat != 0);
            assert(((scan_fuel() - steps) as nat - 1) as nat == (scan_fuel() - (steps + 1)) as nat);
        }
        match ev {
            XmlEvent::Open(name) => {
                if str_eq(name.as_str(), "si") {
                    current = String::new();
                } else if str_eq(name.as_str(), "t") {
                    in_t = true;
                }
                proof {
                    steps = steps + 1;
                }
            },
            XmlEvent::Close(name) => {
                if str_eq(name.as_str(), "si") {
                    let ghost pre = strings@;
                    strings.push(current.clone());
                    proof {
                        lemma_strings_view_push(pre, strings@.last());
                    }
                } else if str_eq(name.as_str(), "t") {
                    in_t = false;
                }
                proof {
                    steps = steps + 1;
                }
            },
            XmlEvent::Chars(text) => {
                if in_t {
                    let decoded = decode_xml_text(text.as_str());
                    current.append(decoded.as_str());
                }
                proof {
                    steps = steps + 1;
                }
            },
            XmlEvent::EntityRef(body) => {
                if in_t {
                    match resolve_entity(body.as_str()) {
                        Option::Some(ch) => push_char(&mut current, ch),
                        Option::None => {},
                    }
                }
                proof {
                    steps = steps + 1;
                }
            },
            XmlEvent::Eof => {
                return Ok(strings);
            },
            XmlEvent::Fail(msg) => {
                return Err(MrXlsxError::FormatError(msg));
            },
            _ => {
                proof {
                    steps = steps + 1;
                }
            },
        }
    }
}

// ---------------------------------------------------------------------------
// The package reader.
// ---------------------------------------------------------------------------

/// The sheet name to part path index: each workbook relationship id
/// resolved through the relationship map, in declaration order, first
/// match winning; ids with no worksheet relationship are dropped.
pub open spec fn join_sheet_paths(
    rids: Seq<(Seq<char>, Seq<char>)>,
    rels: Seq<(Seq<char>, Seq<char>)>,
) -> Seq<(Seq<char>, Seq<char>)>
    decreases rids.len(),
{
    if rids.len() == 0 {
        Seq::<(Seq<char>, Seq<char>)>::empty()
    } else {
        let pre = join_sheet_paths(rids.drop_last(), rels);
        match assoc_text(rels, rids.last().0) {
            Option::Some(p) => pre.push((rids.last().1, p)),
            Option::None => pre,
        }
    }
}

/// One reconstructed row: its cell texts, 0-indexed by column with gaps
/// filled as empty strings.
#[derive(Debug)]
pub struct Row {
    /// The decoded cell texts.
    pub cells: Vec<String>,
}

/// An opened package: the archive bytes, the sheet name to part path index,
/// the sheet declaration order, and the shared-string table.
pub struct XlsxReader {
    /// The archive bytes the package was opened from.
    pub data: Vec<u8>,
    /// Sheet name to worksheet part path.
    pub sheet_paths: Vec<(String, String)>,
    /// The sheet names, in declaration order.
    pub sheet_order: Vec<String>,
    /// The shared strings, in table order.
    pub shared_strings: Vec<String>,
}

impl XlsxReader {
    /// Opens a package from its archive bytes: the workbook manifest, the
    /// worksheet relationships and the shared-string table are parsed once,
    /// eagerly; an absent shared-string table means an empty list, not an
    /// error.
    pub fn from_bytes(data: Vec<u8>) -> (r: Result<XlsxReader, MrXlsxError>)
        ensures
            r matches Ok(x) ==> ({
                let entries = zip_entries_of(data@);
                &&& x.data@ == data@
                &&& zip_opens(data@)
                &&& entries.contains_key("xl/workbook.xml"@)
                &&& entries.contains_key("xl/_rels/workbook.xml.rels"@)
                &&& (workbook_scan(
                    entries["xl/workbook.xml"@],
                    0,
                    Seq::<Seq<char>>::empty(),
                    Seq::<(Seq<char>, Seq<char>)>::empty(),
                    scan_fuel(),
                ) matches Some(Ok(wb)) && strings_view(x.sheet_order@) == wb.0 && (rels_scan(
                    entries["xl/_rels/workbook.xml.rels"@],
                    0,
                    Seq::<(Seq<char>, Seq<char>)>::empty(),
                    scan_fuel(),
                ) matches Some(Ok(relmap)) && attrs_view(x.sheet_paths@) == join_sheet_paths(
                    wb.1,
                    relmap,
                )))
                &&& (if entries.contains_key("xl/sharedStrings.xml"@) {
                    sst_scan(
                        entries["xl/sharedStrings.xml"@],
                        0,
                        Seq::<Seq<char>>::empty(),
                        Seq::<char>::empty(),
                        false,
                        scan_fuel(),
                    ) == Option::Some(Result::<Seq<Seq<char>>, Seq<char>>::Ok(
                        strings_view(x.shared_strings@),
                    ))
                } else {
                    x.shared_strings@.len() == 0
                })
            }),
            !zip_opens(data@) ==> r matches Err(MrXlsxError::FormatError(_)),
    {
        let mut store = match zip_open(&data) {
            Ok(s) => s,
            Err(e) => {
                return Err(e);
            },
        };
        let wb_xml = match zip_entry_text(&mut store, "xl/workbook.xml") {
            Ok(t) => t,
            Err(e) => {
                return Err(e);
            },
        };
        let (sheet_order, rid_names) = match parse_workbook(wb_xml.as_str()) {
            Ok(p) => p,
            Err(e) => {
                return Err(e);
            },
        };
        let rels_xml = match zip_entry_text(&mut store, "xl/_rels/workbook.xml.rels") {
            Ok(t) => t,
            Err(e) => {
                return Err(e);
            },
        };
        let rels = match parse_workbook_rels(rels_xml.as_str()) {
            Ok(m) => m,
            Err(e) => {
                return Err(e);
            },
        };
        let mut sheet_paths: Vec<(String, String)> = Vec::new();
        let ghost rids_v = attrs_view(rid_names@);
        let ghost rels_v = attrs_view(rels@);
        let n = rid_names.len();
        let mut i: usize = 0;
        proof {
            assert(attrs_view(sheet_paths@) =~= Seq::<(Seq<char>, Seq<char>)>::empty());
        }
        while i < n
            invariant
                n == rid_names@.len(),
                i <= n,
                rids_v == attrs_view(rid_names@),
                rels_v == attrs_view(rels@),
                attrs_view(sheet_paths@) == join_sheet_paths(rids_v.take(i as int), rels_v),
            decreases n - i,
        {
            proof {
                assert(rids_v[i as int] == (rid_names@[i as int].0@, rid_names@[i as int].1@));
                assert(rids_v.take(i + 1).drop_last() =~= rids_v.take(i as int));
                assert(rids_v.take(i + 1).last() == rids_v[i as int]);
            }
            let ghost pre = sheet_paths@;
            match assoc_get(&rels, rid_names[i].0.as_str()) {
                Option::Some(path) => {
                    sheet_paths.push((rid_names[i].1.clone(), path));
                    proof {
                        lemma_attrs_view_push(pre, sheet_paths@.last());
                    }
                },
                Option::None => {},
            }
            i = i + 1;
        }
        proof {
            assert(rids_v.take(n as int) =~= rids_v);
        }
        let shared_strings = match zip_entry_text(&mut store, "xl/sharedStrings.xml") {
            Ok(t) => match parse_shared_strings(t.as_str()) {
                Ok(v) => v,
                Err(e) => {
                    return Err(e);
                },
            },
            Err(MrXlsxError::NotFound(_)) => Vec::new(),
            Err(e) => {
                return Err(e);
            },
        };
        Ok(XlsxReader { data, sheet_paths, sheet_order, shared_strings })
    }

    /// The sheet names, in the order the manifest declares them.
    pub fn sheet_names(&self) -> (r: &Vec<String>)
        ensures
            r@ == self.sheet_order@,
    {
        &self.sheet_order
    }

    /// Opens a lazy row stream over the named sheet: the archive is opened
    /// afresh and the sheet part read whole, so streams are independent. An
    /// unknown name fails with `NotFound` carrying it.
    pub fn stream_rows(&self, sheet_name: &str) -> (r: Result<RowIter, MrXlsxError>)
        ensures
            assoc_text(attrs_view(self.sheet_paths@), sheet_name@) is None ==> (r matches Err(
                MrXlsxError::NotFound(n),
            ) && n@ == sheet_name@),
            r matches Err(MrXlsxError::NotFound(n)) ==> ((assoc_text(
                attrs_view(self.sheet_paths@),
                sheet_name@,
            ) is None && n@ == sheet_name@) || (assoc_text(
                attrs_view(self.sheet_paths@),
                sheet_name@,
            ) matches Option::Some(p) && !zip_entries_of(self.data@).contains_key(p) && n@ == p)),
            (assoc_text(attrs_view(self.sheet_paths@), sheet_name@) is Some && !zip_opens(
                self.data@,
            )) ==> r matches Err(MrXlsxError::FormatError(_)),
            r matches Ok(it) ==> {
                &&& assoc_text(attrs_view(self.sheet_paths@), sheet_name@) matches Option::Some(p)
                    && zip_entries_of(self.data@).contains_key(p) && it.xml@ == zip_entries_of(
                    self.data@,
                )[p]
                &&& it.offset == 0
                &&& !it.done
                &&& it.shared_strings@ == self.shared_strings@
                &&& it.state@ == fresh_pstate()
            },
    {
        let path = match assoc_get(&self.sheet_paths, sheet_name) {
            Option::Some(p) => p,
            Option::None => {
                return Err(MrXlsxError::NotFound(sheet_name.to_owned()));
            },
        };
        let mut store = match zip_open(&self.data) {
            Ok(s) => s,
            Err(e) => {
                return Err(e);
            },
        };
        let xml = match zip_entry_text(&mut store, path.as_str()) {
            Ok(t) => t,
            Err(e) => {
                return Err(e);
            },
        };
        Ok(
            RowIter {
                xml,
                offset: 0,
                shared_strings: dup_strings(&self.shared_strings),
                state: ParseState::new(),
                done: false,
            },
        )
    }
}

// ---------------------------------------------------------------------------
// The row iterator.
// ---------------------------------------------------------------------------

/// What entering a row element does to the row state: the buffer and the
/// expected column reset.
pub open spec fn row_open_state(st: PStateV) -> PStateV {
    PStateV { row: Seq::<Seq<char>>::empty(), next_col: 0, in_row: true, ..st }
}

/// What entering a cell element does: the declared reference and type come
/// from the tag's attributes, skipped columns pad as empty cells, and the
/// accumulation state resets.
pub open spec fn cell_open_state(s: Seq<char>, offset: int, st: PStateV) -> PStateV {
    let col = col_index_of(attr_pick_text(xml_attrs_at(s, offset), "r"@, "r"@));
    PStateV {
        row: padded(st.row, st.next_col, col),
        col: col,
        next_col: if col > st.next_col {
            col
        } else {
            st.next_col
        },
        cell_type: cell_type_of(attr_pick_text(xml_attrs_at(s, offset), "t"@, "t"@)),
        in_v: false,
        in_t: false,
        value_buf: Seq::<char>::empty(),
        in_row: st.in_row,
    }
}

/// What leaving a cell element does: the accumulated text resolves by the
/// cell's type and joins the row, and the expected column advances past
/// this cell.
pub open spec fn cell_close_state(st: PStateV, shared: Seq<Seq<char>>) -> PStateV {
    PStateV {
        row: st.row.push(resolved_value(st.cell_type, trimmed(st.value_buf), shared)),
        next_col: if st.col < u32::MAX {
            st.col + 1
        } else {
            u32::MAX as int
        },
        ..st
    }
}

/// One pull of the row reader from an offset and state: the scan walks the
/// token stream, driving the row state machine, until it yields a row,
/// surfaces a scanner failure, or reaches the end of the row container or
/// of the input. Gives what the pull returns, the offset it stops at, the
/// state it leaves behind, and whether the stream ended; `None` only when
/// the fuel runs out, which a real pull never reaches.
pub open spec fn rows_scan(
    s: Seq<char>,
    offset: int,
    st: PStateV,
    shared: Seq<Seq<char>>,
    fuel: nat,
) -> Option<(Option<Result<Seq<Seq<char>>, Seq<char>>>, int, PStateV, bool)>
    decreases fuel,
{
    if fuel == 0 {
        Option::None
    } else {
        let step = xml_step(s, offset);
        let next = step.1;
        match step.0 {
            XmlEventV::Eof => Option::Some((Option::None, next, st, true)),
            XmlEventV::Fail(m) => Option::Some(
                (Option::Some(Result::Err(m)), next, st, true),
            ),
            XmlEventV::Open(nm) => if nm == "row"@ {
                rows_scan(s, next, row_open_state(st), shared, (fuel - 1) as nat)
            } else if nm == "c"@ {
                rows_scan(s, next, cell_open_state(s, offset, st), shared, (fuel - 1) as nat)
            } else if nm == "v"@ {
                rows_scan(s, next, PStateV { in_v: true, ..st }, shared, (fuel - 1) as nat)
            } else if nm == "t"@ {
                rows_scan(s, next, PStateV { in_t: true, ..st }, shared, (fuel - 1) as nat)
            } else {
                rows_scan(s, next, st, shared, (fuel - 1) as nat)
            },
            XmlEventV::SelfClosed(nm) => if nm == "row"@ {
                rows_scan(s, next, row_open_state(st), shared, (fuel - 1) as nat)
            } else {
                rows_scan(s, next, st, shared, (fuel - 1) as nat)
            },
            XmlEventV::Chars(t) => if st.in_v || st.in_t {
                rows_scan(
                    s,
                    next,
                    PStateV { value_buf: st.value_buf + unescaped_text(t), ..st },
                    shared,
                    (fuel - 1) as nat,
                )
            } else {
                rows_scan(s, next, st, shared, (fuel - 1) as nat)
            },
            XmlEventV::EntityRef(b) => if st.in_v || st.in_t {
                match ref_char_of(b) {
                    Option::Some(ch) => rows_scan(
                        s,
                        next,
                        PStateV { value_buf: st.value_buf.push(ch), ..st },
                        shared,
                        (fuel - 1) as nat,
                    ),
                    Option::None => rows_scan(s, next, st, shared, (fuel - 1) as nat),
                }
            } else {
                rows_scan(s, next, st, shared, (fuel - 1) as nat)
            },
            XmlEventV::Close(nm) => if nm == "v"@ {
                rows_scan(s, next, PStateV { in_v: false, ..st }, shared, (fuel - 1) as nat)
            } else if nm == "t"@ {
                rows_scan(s, next, PStateV { in_t: false, ..st }, shared, (fuel - 1) as nat)
            } else if nm == "c"@ {
                rows_scan(s, next, cell_close_state(st, shared), shared, (fuel - 1) as nat)
            } else if nm == "row"@ {
                if st.in_row && st.row.len() > 0 {
                    Option::Some(
                        (
                            Option::Some(Result::Ok(st.row)),
                            next,
                            PStateV { row: Seq::<Seq<char>>::empty(), in_row: false, ..st },
                            false,
                        ),
                    )
                } else {
                    rows_scan(s, next, st, shared, (fuel - 1) as nat)
                }
            } else if nm == "sheetData"@ {
                Option::Some((Option::None, next, st, true))
            } else {
                rows_scan(s, next, st, shared, (fuel - 1) as nat)
            },
            XmlEventV::Skip => rows_scan(s, next, st, shared, (fuel - 1) as nat),
        }
    }
}

/// A lazy, finite, forward-only row stream over one sheet part: each pull
/// resumes the token scan from the previous stop offset.
pub struct RowIter {
    /// The sheet part's text.
    pub xml: String,
    /// The byte offset the next pull resumes at.
    pub offset: usize,
    /// The shared-string table, for resolving shared-string cells.
    pub shared_strings: Vec<String>,
    /// The in-progress row state.
    pub state: ParseState,
    /// Whether the stream has ended.
    pub done: bool,
}

impl RowIter {
    /// Pulls the next reconstructed row, exactly as the token-stream scan
    /// drives the row state machine: rows that declared no cells yield
    /// nothing; a malformed fragment surfaces once as an error and ends the
    /// stream; the end of the row container or of the input ends the
    /// stream.
    #[verifier::rlimit(60)]
    pub fn next_row(&mut self) -> (r: Option<Result<Row, MrXlsxError>>)
        ensures
            old(self).done ==> (r is None && *final(self) == *old(self)),
            !old(self).done ==> (rows_scan(
                old(self).xml@,
                old(self).offset as int,
                old(self).state@,
                strings_view(old(self).shared_strings@),
                scan_fuel(),
            ) matches Some(out) && {
                &&& final(self).offset as int == out.1
                &&& final(self).state@ == out.2
                &&& final(self).done == out.3
                &&& final(self).xml == old(self).xml
                &&& final(self).shared_strings == old(self).shared_strings
                &&& match r {
                    Option::None => out.0 is None,
                    Option::Some(Result::Ok(row)) => out.0 matches Some(Ok(cells))
                        && strings_view(row.cells@) == cells,
                    Option::Some(Result::Err(e)) => (e matches MrXlsxError::FormatError(m)
                        && out.0 matches Some(Err(mm)) && m@ == mm),
                }
            }),
            r is None ==> final(self).done,
            r matches Some(rr) ==> (rr matches Ok(row) ==> row.cells@.len() > 0
                && final(self).offset > old(self).offset && !final(self).done),
            r matches Some(rr) ==> (rr matches Err(e) ==> (e matches MrXlsxError::FormatError(_)
                && final(self).done)),
    {
        if self.done {
            return Option::None;
        }
        let ghost sh = strings_view(self.shared_strings@);
        let ghost mut steps: int = 0;
        loop
            invariant
                !old(self).done,
                !self.done,
                self.offset >= old(self).offset,
                self.xml == old(self).xml,
                self.shared_strings == old(self).shared_strings,
                sh == strings_view(old(self).shared_strings@),
                0 <= steps <= self.offset - old(self).offset,
                rows_scan(
                    old(self).xml@,
                    old(self).offset as int,
                    old(self).state@,
                    sh,
                    scan_fuel(),
                ) == rows_scan(
                    self.xml@,
                    self.offset as int,
                    self.state@,
                    sh,
                    (scan_fuel() - steps) as nat,
                ),
            decreases usize::MAX - self.offset,
        {
            let before = self.offset;
            let ghost prev = self.state@;
            let (ev, next) = read_xml_event(self.xml.as_str(), before);
            self.offset = next;
            proof {
                assert((scan_fuel() - steps) as nat != 0);
                assert(((scan_fuel() - steps) as nat - 1) as nat == (scan_fuel() - (steps + 1))
                    as nat);
            }
            match ev {
                XmlEvent::Open(name) => {
                    if str_eq(name.as_str(), "row") {
                        self.state.on_row_start();
                        proof {
                            assert(strings_view(self.state.row@) =~= Seq::<Seq<char>>::empty());
                            assert(self.state@ == row_open_state(prev));
                        }
                    } else if str_eq(name.as_str(), "c") {
                        let attrs = read_xml_attrs(self.xml.as_str(), before);
                        let col_ref = attr_pick(&attrs, "r", "r");
                        let t_attr = attr_pick(&attrs, "t", "t");
                        let col = col_ref_to_index(col_ref.as_str());
                        let ct = cell_type_from(t_attr.as_str());
                        self.state.on_cell_start(col, ct);
                        proof {
                            let at = xml_attrs_at(self.xml@, before as int);
                            assert(attrs_view(attrs@) == at);
                            assert(col_ref@ == attr_pick_text(at, "r"@, "r"@));
                            assert(col as int == col_index_of(attr_pick_text(at, "r"@, "r"@)));
                            assert(ct == cell_type_of(attr_pick_text(at, "t"@, "t"@)));
                            assert(self.state@.row == padded(prev.row, prev.next_col, col as int));
                            assert(self.state@.col == col as int);
                            assert(self.state@.next_col == (if col as int > prev.next_col {
                                col as int
                            } else {
                                prev.next_col
                            }));
                            assert(self.state@.cell_type == ct);
                            assert(self.state@.in_row == prev.in_row);
                            assert(self.state@.value_buf =~= Seq::<char>::empty());
                            assert(self.state@ == cell_open_state(
                                self.xml@,
                                before as int,
                                prev,
                            ));
                        }
                    } else if str_eq(name.as_str(), "v") {
                        self.state.in_v = true;
                        proof {
                            assert(self.state@ == (PStateV { in_v: true, ..prev }));
                        }
                    } else if str_eq(name.as_str(), "t") {
                        self.state.in_t = true;
                        proof {
                            assert(self.state@ == (PStateV { in_t: true, ..prev }));
                        }
                    }
                    proof {
                        steps = steps + 1;
                    }
                },
                XmlEvent::SelfClosed(name) => {
                    if str_eq(name.as_str(), "row") {
                        self.state.on_row_start();
                        proof {
                            assert(strings_view(self.state.row@) =~= Seq::<Seq<char>>::empty());
                            assert(self.state@ == row_open_state(prev));
                        }
                    }
                    proof {
                        steps = steps + 1;
                    }
                },
                XmlEvent::Chars(text) => {
                    if self.state.in_v || self.state.in_t {
                        let decoded = decode_xml_text(text.as_str());
                        self.state.value_buf.append(decoded.as_str());
                        proof {
                            assert(self.state@ == (PStateV {
                                value_buf: prev.value_buf + unescaped_text(text@),
                                ..prev
                            }));
                        }
                    }
                    proof {
                        steps = steps + 1;
                    }
                },
                XmlEvent::EntityRef(body) => {
                    if self.state.in_v || self.state.in_t {
                        match resolve_entity(body.as_str()) {
                            Option::Some(ch) => {
                                push_char(&mut self.state.value_buf, ch);
                                proof {
                                    assert(self.state@ == (PStateV {
                                        value_buf: prev.value_buf.push(ch),
                                        ..prev
                                    }));
                                }
                            },
                            Option::None => {},
                        }
                    }
                    proof {
                        steps = steps + 1;
                    }
                },
                XmlEvent::Close(name) => {
                    if str_eq(name.as_str(), "v") {
                        self.state.in_v = false;
                        proof {
                            assert(self.state@ == (PStateV { in_v: false, ..prev }));
                            steps = steps + 1;
                        }
                    } else if str_eq(name.as_str(), "t") {
                        self.state.in_t = false;
                        proof {
                            assert(self.state@ == (PStateV { in_t: false, ..prev }));
                            steps = steps + 1;
                        }
                    } else if str_eq(name.as_str(), "c") {
                        self.state.on_cell_end(&self.shared_strings);
                        proof {
                            assert(self.state@ == cell_close_state(prev, sh));
                            steps = steps + 1;
                        }
                    } else if str_eq(name.as_str(), "row") {
                        match self.state.on_row_end() {
                            Option::Some(cells) => {
                                proof {
                                    assert(strings_view(self.state.row@)
                                        =~= Seq::<Seq<char>>::empty());
                                    assert(self.state@ == (PStateV {
                                        row: Seq::<Seq<char>>::empty(),
                                        in_row: false,
                                        ..prev
                                    }));
                                    assert(strings_view(cells@) == prev.row);
                                }
                                return Option::Some(Ok(Row { cells }));
                            },
                            Option::None => {
                                proof {
                                    steps = steps + 1;
                                }
                            },
                        }
                    } else if str_eq(name.as_str(), "sheetData") {
                        self.done = true;
                        return Option::None;
                    } else {
                        proof {
                            steps = steps + 1;
                        }
                    }
                },
                XmlEvent::Skip => {
                    proof {
                        steps = steps + 1;
                    }
                },
                XmlEvent::Eof => {
                    self.done = true;
                    return Option::None;
                },
                XmlEvent::Fail(msg) => {
                    self.done = true;
                    return Option::Some(Result::Err(MrXlsxError::FormatError(msg)));
                },
            }
        }
    }
}

// ---------------------------------------------------------------------------
// Delimited-text formatting.
// ---------------------------------------------------------------------------

/// One CSV line: the escaped cells joined with commas.
pub open spec fn csv_line_text(cells: Seq<Seq<char>>) -> Seq<char>
    decreases cells.len(),
{
    if cells.len() == 0 {
        Seq::<char>::empty()
    } else if cells.len() == 1 {
        csv_escaped(cells[0])
    } else {
        csv_line_text(cells.drop_last()) + seq![','] + csv_escaped(cells.last())
    }
}

/// Renders one row as a CSV line.
pub fn csv_line(cells: &Vec<String>) -> (r: String)
    ensures
        r@ == csv_line_text(strings_view(cells@)),
{
    let ghost cv = strings_view(cells@);
    let mut out = String::new();
    let n = cells.len();
    let mut i: usize = 0;
    while i < n
        invariant
            n == cells@.len(),
            i <= n,
            cv == strings_view(cells@),
            out@ == csv_line_text(cv.take(i as int)),
        decreases n - i,
    {
        if i > 0 {
            push_char(&mut out, ',');
        }
        let esc = crate::textutil::csv_escape(cells[i].as_str());
        out.append(esc.as_str());
        proof {
            assert(cv[i as int] == cells@[i as int]@);
            assert(cv.take(i + 1).drop_last() =~= cv.take(i as int));
            assert(cv.take(i + 1).last() == cv[i as int]);
            if i == 0 {
                assert(cv.take(1).len() == 1);
                assert(cv.take(1)[0] == cv[0]);
            }
        }
        i = i + 1;
    }
    proof {
        assert(cv.take(n as int) =~= cv);
    }
    out
}

/// The delimited-text export of a row stream: each pulled row becomes one
/// newline-terminated CSV line and is counted; the end of the stream yields
/// the text and count gathered so far, and a scanner failure yields its
/// message.
pub open spec fn csv_scan(
    s: Seq<char>,
    offset: int,
    st: PStateV,
    shared: Seq<Seq<char>>,
    acc: Seq<char>,
    count: int,
    fuel: nat,
) -> Option<Result<(Seq<char>, int), Seq<char>>>
    decreases fuel,
{
    if fuel == 0 {
        Option::None
    } else {
        match rows_scan(s, offset, st, shared, scan_fuel()) {
            Option::None => Option::None,
            Option::Some(out) => match out.0 {
                Option::None => Option::Some(Result::Ok((acc, count))),
                Option::Some(Result::Err(m)) => Option::Some(Result::Err(m)),
                Option::Some(Result::Ok(cells)) => csv_scan(
                    s,
                    out.1,
                    out.2,
                    shared,
                    acc + csv_line_text(cells) + seq!['\n'],
                    count + 1,
                    (fuel - 1) as nat,
                ),
            },
        }
    }
}

impl XlsxReader {
    /// Streams the named sheet and formats every row as one CSV line,
    /// newline-terminated, exactly as the scan of the sheet part drives the
    /// export; gives the text and the row count. The first malformed
    /// fragment aborts with its error.
    pub fn sheet_to_csv(&self, sheet_name: &str) -> (r: Result<(String, usize), MrXlsxError>)
        ensures
            assoc_text(attrs_view(self.sheet_paths@), sheet_name@) is None ==> (r matches Err(
                MrXlsxError::NotFound(n),
            ) && n@ == sheet_name@),
            r matches Ok(p) ==> (assoc_text(attrs_view(self.sheet_paths@), sheet_name@)
                matches Option::Some(path) && zip_entries_of(self.data@).contains_key(path)
                && csv_scan(
                zip_entries_of(self.data@)[path],
                0,
                fresh_pstate(),
                strings_view(self.shared_strings@),
                Seq::<char>::empty(),
                0,
                scan_fuel(),
            ) == Option::Some(Result::<(Seq<char>, int), Seq<char>>::Ok((p.0@, p.1 as int)))),
    {
        let mut it = match self.stream_rows(sheet_name) {
            Ok(i) => i,
            Err(e) => {
                return Err(e);
            },
        };
        let ghost x0 = it.xml@;
        let ghost sh = strings_view(self.shared_strings@);
        let mut out = String::new();
        let mut count: usize = 0;
        proof {
            assert(strings_view(it.shared_strings@) == sh);
        }
        loop
            invariant
                (assoc_text(attrs_view(self.sheet_paths@), sheet_name@) matches Option::Some(path)
                    && zip_entries_of(self.data@).contains_key(path) && x0 == zip_entries_of(
                    self.data@,
                )[path]),
                it.xml@ == x0,
                !it.done,
                strings_view(it.shared_strings@) == sh,
                sh == strings_view(self.shared_strings@),
                0 <= count <= it.offset,
                csv_scan(x0, 0, fresh_pstate(), sh, Seq::<char>::empty(), 0, scan_fuel())
                    == csv_scan(
                    x0,
                    it.offset as int,
                    it.state@,
                    sh,
                    out@,
                    count as int,
                    (scan_fuel() - count) as nat,
                ),
            decreases usize::MAX - it.offset,
        {
            let ghost pre_offset = it.offset;
            let ghost pre_state = it.state@;
            let ghost pre_out = out@;
            proof {
                assert((scan_fuel() - count) as nat != 0);
                assert(((scan_fuel() - count) as nat - 1) as nat == (scan_fuel() - (count + 1))
                    as nat);
            }
            match it.next_row() {
                Option::None => {
                    return Ok((out, count));
                },
                Option::Some(res) => {
                    let row = match res {
                        Ok(row) => row,
                        Err(e) => {
                            return Err(e);
                        },
                    };
                    let line = csv_line(&row.cells);
                    out.append(line.as_str());
                    push_char(&mut out, '\n');
                    count = count + 1;
                    proof {
                        assert(out@ =~= pre_out + csv_line_text(strings_view(row.cells@))
                            + seq!['\n']);
                    }
                },
            }
        }
    }
}

} // verus!
