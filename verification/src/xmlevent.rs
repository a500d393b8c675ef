use vstd::prelude::*;

use quick_xml::events::Event;
use quick_xml::Reader;

use crate::textutil::{all_digits, digits_value, lemma_digits_value_grows, str_eq};

verus! {

// ---------------------------------------------------------------------------
// The low-level XML token scanner, behind trusted wrappers.
// ---------------------------------------------------------------------------

/// One low-level XML token, as the pull scanner hands it out. Attribute
/// values and character data are still in their escaped source form.
pub enum XmlEvent {
    /// A start tag, with its name.
    Open(String),
    /// A self-closing tag, with its name.
    SelfClosed(String),
    /// Character data between tags.
    Chars(String),
    /// A character or general entity reference: the text between `&` and
    /// `;`.
    EntityRef(String),
    /// An end tag, with its name.
    Close(String),
    /// Any other markup: comments, processing instructions, declarations.
    Skip,
    /// The end of the input.
    Eof,
    /// A malformed construct, with the scanner's message.
    Fail(String),
}

/// The mathematical shape of one scanner token.
pub enum XmlEventV {
    Open(Seq<char>),
    SelfClosed(Seq<char>),
    Chars(Seq<char>),
    EntityRef(Seq<char>),
    Close(Seq<char>),
    Skip,
    Eof,
    Fail(Seq<char>),
}

impl View for XmlEvent {
    type V = XmlEventV;

    open spec fn view(&self) -> XmlEventV {
        match self {
            XmlEvent::Open(n) => XmlEventV::Open(n@),
            XmlEvent::SelfClosed(n) => XmlEventV::SelfClosed(n@),
            XmlEvent::Chars(t) => XmlEventV::Chars(t@),
            XmlEvent::EntityRef(b) => XmlEventV::EntityRef(b@),
            XmlEvent::Close(n) => XmlEventV::Close(n@),
            XmlEvent::Skip => XmlEventV::Skip,
            XmlEvent::Eof => XmlEventV::Eof,
            XmlEvent::Fail(m) => XmlEventV::Fail(m@),
        }
    }
}

/// What one pull of the scanner yields at a byte offset of a text: the
/// token and the offset just past it. A function of the text and offset
/// alone.
pub uninterp spec fn xml_step(s: Seq<char>, offset: int) -> (XmlEventV, int);

/// The attributes of the tag token at a byte offset of a text, as raw key
/// and value pairs in source order; no attributes anywhere else. A function
/// of the text and offset alone.
pub uninterp spec fn xml_attrs_at(s: Seq<char>, offset: int) -> Seq<(Seq<char>, Seq<char>)>;

/// Relies on quick_xml's pull parser (Reader::from_str and read_event): one
/// event scanned from the text at the given byte offset, with the offset
/// just past it. The offset never moves backwards, and any event other than
/// end-of-input or a failure consumes at least one byte. Character data is
/// handed out untrimmed; consumers trim where their format asks for it.
#[verifier::external_body]
pub(crate) fn read_xml_event(s: &str, offset: usize) -> (r: (XmlEvent, usize))
    ensures
        (r.0@, r.1 as int) == xml_step(s@, offset as int),
        offset <= r.1,
        !(r.0 is Eof || r.0 is Fail) ==> offset < r.1,
{
    let mut rd = Reader::from_str(s.get(offset..).unwrap_or(""));
    rd.config_mut().allow_unmatched_ends = true;
    (match rd.read_event() {
        Err(e) => XmlEvent::Fail(e.to_string()),
        Ok(e) => match e {
            Event::Start(t) => XmlEvent::Open(t.name().0.to_string()),
            Event::Empty(t) => XmlEvent::SelfClosed(t.name().0.to_string()),
            Event::Text(t) => XmlEvent::Chars(t.to_string()),
            Event::GeneralRef(t) => XmlEvent::EntityRef(t.to_string()),
            Event::End(t) => XmlEvent::Close(t.name().0.to_string()),
            Event::Eof => XmlEvent::Eof,
            _ => XmlEvent::Skip,
        },
    }, offset + rd.buffer_position() as usize)
}

/// Relies on quick_xml's attribute iterator: the attributes of the tag
/// event at the given byte offset, as raw key and value text, in source
/// order; anything else gives no attributes.
#[verifier::external_body]
pub(crate) fn read_xml_attrs(s: &str, offset: usize) -> (r: Vec<(String, String)>)
    ensures
        attrs_view(r@) == xml_attrs_at(s@, offset as int),
{
    let mut rd = Reader::from_str(s.get(offset..).unwrap_or(""));
    match rd.read_event() {
        Ok(Event::Start(e)) | Ok(Event::Empty(e)) => e.attributes().flatten().map(
            |a| (a.key.as_ref().to_string(), a.value.into_owned()),
        ).collect(),
        _ => Vec::new(),
    }
}

/// The text an escaped fragment stands for, as the scanner's unescaping
/// decodes it: a function of the fragment alone.
pub uninterp spec fn unescaped_text(raw: Seq<char>) -> Seq<char>;

/// Relies on quick_xml::escape::unescape: character and entity references
/// decoded; an invalid reference yields the empty string.
#[verifier::external_body]
pub(crate) fn decode_xml_text(raw: &str) -> (r: String)
    ensures
        r@ == unescaped_text(raw@),
        raw@.len() == 0 ==> r@.len() == 0,
{
    match quick_xml::escape::unescape(raw) {
        Ok(c) => c.into_owned(),
        Err(_) => String::new(),
    }
}

/// Relies on char::from_u32: the character with the given code exactly for
/// a valid Unicode scalar value, nothing otherwise.
#[verifier::external_body]
fn char_from_code(c: u32) -> (r: Option<char>)
    ensures
        r == (if c < 0xD800 || (0xE000 <= c && c <= 0x10FFFF) {
            Option::Some(c as char)
        } else {
            Option::<char>::None
        }),
{
    char::from_u32(c)
}

// ---------------------------------------------------------------------------
// Entity reference resolution (verified).
// ---------------------------------------------------------------------------

/// Whether a code is a valid Unicode scalar value.
pub open spec fn valid_scalar(c: int) -> bool {
    (0 <= c < 0xD800) || (0xE000 <= c && c <= 0x10FFFF)
}

/// Whether every character of `s` is a hexadecimal digit.
pub open spec fn all_hex(s: Seq<char>) -> bool {
    forall|i: int| 0 <= i < s.len() ==> hex_digit_value(#[trigger] s[i]) >= 0
}

/// The value of one hexadecimal digit, or -1 for any other character.
pub open spec fn hex_digit_value(c: char) -> int {
    if '0' <= c && c <= '9' {
        c as int - 48
    } else if 'a' <= c && c <= 'f' {
        c as int - 87
    } else if 'A' <= c && c <= 'F' {
        c as int - 55
    } else {
        -1
    }
}

/// The value of a hexadecimal digit string, most significant digit first.
pub open spec fn hex_value(s: Seq<char>) -> int
    decreases s.len(),
{
    if s.len() == 0 {
        0
    } else {
        hex_value(s.drop_last()) * 16 + hex_digit_value(s.last())
    }
}

/// The character code an entity reference body stands for: one of the five
/// predefined entities, or a decimal or hexadecimal character reference.
pub open spec fn ref_code_of(body: Seq<char>) -> Option<int> {
    if body == "amp"@ {
        Option::Some(38int)
    } else if body == "lt"@ {
        Option::Some(60int)
    } else if body == "gt"@ {
        Option::Some(62int)
    } else if body == "apos"@ {
        Option::Some(39int)
    } else if body == "quot"@ {
        Option::Some(34int)
    } else if body.len() >= 3 && body[0] == '#' && (body[1] == 'x' || body[1] == 'X') && all_hex(
        body.skip(2),
    ) {
        Option::Some(hex_value(body.skip(2)))
    } else if body.len() >= 2 && body[0] == '#' && all_digits(body.skip(1)) {
        Option::Some(digits_value(body.skip(1)))
    } else {
        Option::None
    }
}

/// Once a hex prefix exceeds a bound, every extension of it does.
proof fn lemma_hex_value_grows(prefix: Seq<char>, whole: Seq<char>, k: int, bound: int)
    requires
        0 < k <= whole.len(),
        prefix =~= whole.subrange(0, k),
        all_hex(whole),
        bound >= 0,
        hex_value(prefix) > bound,
    ensures
        hex_value(whole) > bound,
    decreases whole.len() - k,
{
    if k == whole.len() {
        assert(prefix =~= whole);
    } else {
        let next = whole.subrange(0, k + 1);
        assert(next.drop_last() =~= prefix);
        assert(next.last() == whole[k]);
        assert(hex_digit_value(whole[k]) >= 0);
        assert(hex_value(next) == hex_value(prefix) * 16 + hex_digit_value(whole[k]));
        assert(hex_value(prefix) * 16 >= hex_value(prefix)) by (nonlinear_arith)
            requires
                hex_value(prefix) > 0,
        ;
        lemma_hex_value_grows(next, whole, k + 1, bound);
    }
}

/// Scans a run of hex digits; gives the value when it is a valid scalar.
fn scan_hex(s: &str, from: usize) -> (r: Option<u32>)
    requires
        from < s@.len(),
    ensures
        r matches Some(v) ==> all_hex(s@.skip(from as int)) && v as int == hex_value(
            s@.skip(from as int),
        ) && v <= 0x10FFFF,
        r is None ==> !all_hex(s@.skip(from as int)) || hex_value(s@.skip(from as int)) > 0x10FFFF,
    decreases 0int,
{
    let n = s.unicode_len();
    let ghost body = s@.skip(from as int);
    let mut acc: u32 = 0;
    let mut i: usize = from;
    while i < n
        invariant
            n == s@.len(),
            from <= i <= n,
            from < n,
            body == s@.skip(from as int),
            all_hex(s@.subrange(from as int, i as int)),
            acc as int == hex_value(s@.subrange(from as int, i as int)),
            acc <= 0x10FFFF,
        decreases n - i,
    {
        let c = s.get_char(i);
        let cv: u32 = c as u32;
        let d: u32 = if cv >= 48 && cv <= 57 {
            cv - 48
        } else if cv >= 97 && cv <= 102 {
            cv - 87
        } else if cv >= 65 && cv <= 70 {
            cv - 55
        } else {
            proof {
                let w = i - from;
                assert(body[w] == s@[i as int]);
                assert(hex_digit_value(body[w]) < 0);
            }
            return Option::None;
        };
        let ghost next = s@.subrange(from as int, i + 1);
        proof {
            assert(next.drop_last() =~= s@.subrange(from as int, i as int));
            assert(next.last() == s@[i as int]);
            assert(d as int == hex_digit_value(s@[i as int]));
            assert(hex_value(next) == acc as int * 16 + d);
        }
        let grown: u32 = acc * 16 + d;
        if grown > 0x10FFFF {
            proof {
                if all_hex(body) {
                    assert(next =~= body.subrange(0, i + 1 - from));
                    lemma_hex_value_grows(next, body, i + 1 - from, 0x10FFFF);
                }
            }
            return Option::None;
        }
        acc = grown;
        i = i + 1;
    }
    proof {
        assert(s@.subrange(from as int, n as int) =~= body);
    }
    Option::Some(acc)
}

/// Scans a run of decimal digits; gives the value when it is at most the
/// largest scalar code.
fn scan_dec(s: &str, from: usize) -> (r: Option<u32>)
    requires
        from < s@.len(),
    ensures
        r matches Some(v) ==> all_digits(s@.skip(from as int)) && v as int == digits_value(
            s@.skip(from as int),
        ) && v <= 0x10FFFF,
        r is None ==> !all_digits(s@.skip(from as int)) || digits_value(s@.skip(from as int))
            > 0x10FFFF,
    decreases 0int,
{
    let n = s.unicode_len();
    let ghost body = s@.skip(from as int);
    let mut acc: u32 = 0;
    let mut i: usize = from;
    while i < n
        invariant
            n == s@.len(),
            from <= i <= n,
            from < n,
            body == s@.skip(from as int),
            all_digits(s@.subrange(from as int, i as int)),
            acc as int == digits_value(s@.subrange(from as int, i as int)),
            acc <= 0x10FFFF,
        decreases n - i,
    {
        let c = s.get_char(i);
        let cv: u32 = c as u32;
        if cv < 48 || cv > 57 {
            proof {
                let w = i - from;
                assert(body[w] == s@[i as int]);
                assert(!('0' <= body[w] && body[w] <= '9'));
            }
            return Option::None;
        }
        let d: u32 = cv - 48;
        let ghost next = s@.subrange(from as int, i + 1);
        proof {
            assert(next.drop_last() =~= s@.subrange(from as int, i as int));
            assert(next.last() == s@[i as int]);
            assert(digits_value(next) == acc as int * 10 + d);
        }
        let grown: u32 = acc * 10 + d;
        if grown > 0x10FFFF {
            proof {
                if all_digits(body) {
                    assert(next =~= body.subrange(0, i + 1 - from));
                    lemma_digits_value_grows(next, body, i + 1 - from, 0x10FFFF);
                }
            }
            return Option::None;
        }
        acc = grown;
        i = i + 1;
    }
    proof {
        assert(s@.subrange(from as int, n as int) =~= body);
    }
    Option::Some(acc)
}

/// The character an entity reference body stands for: its code when that
/// is a valid Unicode scalar value, nothing otherwise.
pub open spec fn ref_char_of(body: Seq<char>) -> Option<char> {
    match ref_code_of(body) {
        Option::Some(c) => if valid_scalar(c) {
            Option::Some((c as u32) as char)
        } else {
            Option::<char>::None
        },
        Option::None => Option::<char>::None,
    }
}

/// Resolves an entity reference body to its character: the five predefined
/// entities, and decimal or hexadecimal character references with a valid
/// scalar code.
pub fn resolve_entity(body: &str) -> (r: Option<char>)
    ensures
        r == ref_char_of(body@),
{
    if str_eq(body, "amp") {
        proof {
            reveal_strlit("amp");
        }
        return Option::Some('&');
    }
    if str_eq(body, "lt") {
        proof {
            reveal_strlit("lt");
        }
        return Option::Some('<');
    }
    if str_eq(body, "gt") {
        proof {
            reveal_strlit("gt");
        }
        return Option::Some('>');
    }
    if str_eq(body, "apos") {
        proof {
            reveal_strlit("apos");
        }
        return Option::Some('\'');
    }
    if str_eq(body, "quot") {
        proof {
            reveal_strlit("quot");
        }
        return Option::Some('"');
    }
    proof {
        reveal_strlit("amp");
        reveal_strlit("lt");
        reveal_strlit("gt");
        reveal_strlit("apos");
        reveal_strlit("quot");
    }
    let n = body.unicode_len();
    if n < 2 || body.get_char(0) != '#' {
        return Option::None;
    }
    let second = body.get_char(1);
    proof {
        assert(body@.skip(1)[0] == body@[1]);
    }
    if second == 'x' || second == 'X' {
        if n < 3 {
            return Option::None;
        }
        match scan_hex(body, 2) {
            Option::Some(v) => {
                proof {
                    assert(body@.skip(2) == body@.skip(2int));
                }
                char_from_code(v)
            },
            Option::None => Option::None,
        }
    } else {
        match scan_dec(body, 1) {
            Option::Some(v) => char_from_code(v),
            Option::None => Option::None,
        }
    }
}

// ---------------------------------------------------------------------------
// Attribute picking (verified).
// ---------------------------------------------------------------------------

/// The views of an attribute list.
pub open spec fn attrs_view(s: Seq<(String, String)>) -> Seq<(Seq<char>, Seq<char>)> {
    s.map_values(|p: (String, String)| (p.0@, p.1@))
}

/// The decoded value of the last attribute carrying one of the two keys, or
/// the empty text when none does.
pub open spec fn attr_pick_text(
    attrs: Seq<(Seq<char>, Seq<char>)>,
    k1: Seq<char>,
    k2: Seq<char>,
) -> Seq<char>
    decreases attrs.len(),
{
    if attrs.len() == 0 {
        Seq::<char>::empty()
    } else if attrs.last().0 == k1 || attrs.last().0 == k2 {
        unescaped_text(attrs.last().1)
    } else {
        attr_pick_text(attrs.drop_last(), k1, k2)
    }
}

/// Picks the decoded value of the last attribute carrying one of the two
/// keys; an absent attribute gives the empty string.
pub fn attr_pick(attrs: &Vec<(String, String)>, k1: &str, k2: &str) -> (r: String)
    ensures
        r@ == attr_pick_text(attrs_view(attrs@), k1@, k2@),
{
    let ghost av = attrs_view(attrs@);
    let mut i: usize = attrs.len();
    proof {
        assert(av.take(i as int) =~= av);
    }
    while i > 0
        invariant
            i <= attrs@.len(),
            av == attrs_view(attrs@),
            attr_pick_text(av, k1@, k2@) == attr_pick_text(av.take(i as int), k1@, k2@),
        decreases i,
    {
        proof {
            assert(av[i - 1] == (attrs@[i - 1].0@, attrs@[i - 1].1@));
            assert(av.take(i as int).drop_last() =~= av.take(i - 1));
            assert(av.take(i as int).last() == av[i - 1]);
        }
        let hit = str_eq(attrs[i - 1].0.as_str(), k1) || str_eq(attrs[i - 1].0.as_str(), k2);
        if hit {
            return decode_xml_text(attrs[i - 1].1.as_str());
        }
        i = i - 1;
    }
    proof {
        assert(av.take(0) =~= Seq::<(Seq<char>, Seq<char>)>::empty());
    }
    String::new()
}

} // verus!
