use vstd::prelude::*;

use crate::textutil::{dec_str, push_char, u32_to_string};

verus! {

// ---------------------------------------------------------------------------
// Colors.
// ---------------------------------------------------------------------------

/// An 8-hex-digit ARGB color code.
#[derive(Debug, Clone)]
pub struct Color(pub String);

impl View for Color {
    type V = Seq<char>;

    open spec fn view(&self) -> Seq<char> {
        self.0@
    }
}

/// An ASCII lower-case letter raised to upper case; all other characters
/// kept.
pub open spec fn upper_char(c: char) -> char {
    if 'a' <= c && c <= 'z' {
        ((c as int - 32) as u8) as char
    } else {
        c
    }
}

/// A text with its ASCII letters raised to upper case.
pub open spec fn upper_seq(s: Seq<char>) -> Seq<char>
    decreases s.len(),
{
    if s.len() == 0 {
        Seq::<char>::empty()
    } else {
        upper_seq(s.drop_last()).push(upper_char(s.last()))
    }
}

/// A text with every leading `#` removed.
pub open spec fn strip_hashes(s: Seq<char>) -> Seq<char>
    decreases s.len(),
{
    if s.len() > 0 && s[0] == '#' {
        strip_hashes(s.skip(1))
    } else {
        s
    }
}

/// The normalized ARGB code of a color input: leading hash signs dropped,
/// letters raised to upper case, and a 6-digit RGB code prefixed with full
/// opacity.
pub open spec fn color_norm(h: Seq<char>) -> Seq<char> {
    if strip_hashes(h).len() == 6 {
        "FF"@ + upper_seq(strip_hashes(h))
    } else {
        upper_seq(strip_hashes(h))
    }
}

impl Color {
    /// Normalizes a hex color input to its 8-digit ARGB code.
    pub fn new(hex: &str) -> (r: Self)
        ensures
            r@ == color_norm(hex@),
    {
        let n = hex.unicode_len();
        let mut start: usize = 0;
        proof {
            assert(hex@.skip(0) =~= hex@);
        }
        loop
            invariant
                n == hex@.len(),
                start <= n,
                strip_hashes(hex@) == strip_hashes(hex@.skip(start as int)),
            ensures
                start <= n == hex@.len(),
                strip_hashes(hex@) == hex@.skip(start as int),
            decreases n - start,
        {
            if start >= n {
                proof {
                    assert(hex@.skip(start as int) =~= Seq::<char>::empty());
                }
                break;
            }
            let c = hex.get_char(start);
            if c != '#' {
                proof {
                    assert(hex@.skip(start as int)[0] == hex@[start as int]);
                }
                break;
            }
            proof {
                assert(hex@.skip(start as int)[0] == hex@[start as int]);
                assert(hex@.skip(start as int).skip(1) =~= hex@.skip(start + 1));
            }
            start = start + 1;
        }
        let ghost body = hex@.skip(start as int);
        let mut upper = String::new();
        let mut i: usize = start;
        while i < n
            invariant
                n == hex@.len(),
                start <= i <= n,
                body == strip_hashes(hex@),
                body == hex@.skip(start as int),
                upper@ == upper_seq(hex@.skip(start as int).take(i - start)),
            decreases n - i,
        {
            let c = hex.get_char(i);
            let cv: u32 = c as u32;
            let u: char = if cv >= 97 && cv <= 122 {
                ((cv - 32) as u8) as char
            } else {
                c
            };
            push_char(&mut upper, u);
            proof {
                let sub = hex@.skip(start as int);
                assert(sub.take(i + 1 - start).drop_last() =~= sub.take(i - start));
                assert(sub.take(i + 1 - start).last() == hex@[i as int]);
                assert(u == upper_char(hex@[i as int]));
            }
            i = i + 1;
        }
        proof {
            assert(hex@.skip(start as int).take(n - start) =~= hex@.skip(start as int));
        }
        if n - start == 6 {
            let mut out = String::new();
            out.append("FF");
            out.append(upper.as_str());
            Color(out)
        } else {
            Color(upper)
        }
    }

    /// The stored 8-digit ARGB code.
    pub fn as_argb(&self) -> (r: &str)
        ensures
            r@ == self@,
    {
        self.0.as_str()
    }

    /// A copy with the same content.
    pub fn duplicate(&self) -> (r: Self)
        ensures
            r@ == self@,
    {
        Color(self.0.clone())
    }
}

/// The XML element a color renders as inside a font or border, when present.
pub open spec fn color_elem_text(c: Option<Seq<char>>) -> Seq<char> {
    match c {
        Option::Some(argb) => "<color rgb=\""@ + argb + "\"/>"@,
        Option::None => Seq::<char>::empty(),
    }
}

// ---------------------------------------------------------------------------
// Fonts.
// ---------------------------------------------------------------------------

/// Font attributes. The size is stored in twentieths of a point.
#[derive(Debug, Clone)]
pub struct Font {
    pub bold: bool,
    pub italic: bool,
    pub underline: bool,
    pub size: u32,
    pub color: Option<Color>,
    pub name: String,
}

/// The mathematical shape of a font.
pub struct FontV {
    pub bold: bool,
    pub italic: bool,
    pub underline: bool,
    pub size: u32,
    pub color: Option<Seq<char>>,
    pub name: Seq<char>,
}

impl View for Font {
    type V = FontV;

    open spec fn view(&self) -> FontV {
        FontV {
            bold: self.bold,
            italic: self.italic,
            underline: self.underline,
            size: self.size,
            color: match &self.color {
                Option::Some(c) => Option::Some(c@),
                Option::None => Option::None,
            },
            name: self.name@,
        }
    }
}

/// The default font: regular 11-point Calibri.
pub open spec fn default_font() -> FontV {
    FontV {
        bold: false,
        italic: false,
        underline: false,
        size: 220,
        color: Option::None,
        name: "Calibri"@,
    }
}

impl Default for Font {
    /// The default font: regular 11-point Calibri.
    fn default() -> (r: Self)
        ensures
            r@ == default_font(),
    {
        Font {
            bold: false,
            italic: false,
            underline: false,
            size: 220,
            color: Option::None,
            name: "Calibri".to_owned(),
        }
    }
}

/// The XML a font renders as in the style part.
pub open spec fn font_xml_text(f: FontV) -> Seq<char> {
    "<font>"@ + (if f.bold {
        "<b/>"@
    } else {
        Seq::<char>::empty()
    }) + (if f.italic {
        "<i/>"@
    } else {
        Seq::<char>::empty()
    }) + (if f.underline {
        "<u/>"@
    } else {
        Seq::<char>::empty()
    }) + "<sz val=\""@ + dec_str(f.size as int / 20) + "\"/>"@ + "<name val=\""@ + f.name
        + "\"/>"@ + color_elem_text(f.color) + "</font>"@
}

impl Font {
    /// Renders this font for the style part.
    pub fn to_xml(&self) -> (r: String)
        ensures
            r@ == font_xml_text(self@),
    {
        let mut out = String::new();
        out.append("<font>");
        if self.bold {
            out.append("<b/>");
        }
        if self.italic {
            out.append("<i/>");
        }
        if self.underline {
            out.append("<u/>");
        }
        out.append("<sz val=\"");
        let pt = u32_to_string(self.size / 20);
        out.append(pt.as_str());
        out.append("\"/>");
        out.append("<name val=\"");
        out.append(self.name.as_str());
        out.append("\"/>");
        match &self.color {
            Option::Some(c) => {
                out.append("<color rgb=\"");
                out.append(c.as_argb());
                out.append("\"/>");
            },
            Option::None => {},
        }
        out.append("</font>");
        out
    }
}

impl Font {
    /// A copy with the same content.
    pub fn duplicate(&self) -> (r: Self)
        ensures
            r@ == self@,
    {
        Font {
            bold: self.bold,
            italic: self.italic,
            underline: self.underline,
            size: self.size,
            color: match &self.color {
                Option::Some(c) => Option::Some(c.duplicate()),
                Option::None => Option::None,
            },
            name: self.name.clone(),
        }
    }
}

/// Whether two fonts have the same content.
pub fn font_eq(a: &Font, b: &Font) -> (r: bool)
    ensures
        r == (a@ == b@),
{
    let colors_match = match (&a.color, &b.color) {
        (Option::Some(x), Option::Some(y)) => *(&x.0) == *(&y.0),
        (Option::None, Option::None) => true,
        _ => false,
    };
    colors_match && a.bold == b.bold && a.italic == b.italic && a.underline == b.underline
        && a.size == b.size && a.name == b.name
}

// ---------------------------------------------------------------------------
// Fills.
// ---------------------------------------------------------------------------

/// A cell background fill.
#[derive(Debug, Clone)]
pub enum Fill {
    /// No fill.
    NoFill,
    /// A solid fill of one color.
    Solid(Color),
}

/// The mathematical shape of a fill.
pub enum FillV {
    NoFill,
    Solid(Seq<char>),
}

impl View for Fill {
    type V = FillV;

    open spec fn view(&self) -> FillV {
        match self {
            Fill::NoFill => FillV::NoFill,
            Fill::Solid(c) => FillV::Solid(c@),
        }
    }
}

/// The XML a fill renders as in the style part.
pub open spec fn fill_xml_text(f: FillV) -> Seq<char> {
    match f {
        FillV::NoFill => "<fill><patternFill/></fill>"@,
        FillV::Solid(argb) => "<fill><patternFill patternType=\"solid\"><fgColor rgb=\""@ + argb
            + "\"/></patternFill></fill>"@,
    }
}

impl Fill {
    /// Renders this fill for the style part.
    pub fn to_xml(&self) -> (r: String)
        ensures
            r@ == fill_xml_text(self@),
    {
        match self {
            Fill::NoFill => "<fill><patternFill/></fill>".to_owned(),
            Fill::Solid(c) => {
                let mut out = String::new();
                out.append("<fill><patternFill patternType=\"solid\"><fgColor rgb=\"");
                out.append(c.as_argb());
                out.append("\"/></patternFill></fill>");
                out
            },
        }
    }
}

impl Fill {
    /// A copy with the same content.
    pub fn duplicate(&self) -> (r: Self)
        ensures
            r@ == self@,
    {
        match self {
            Fill::NoFill => Fill::NoFill,
            Fill::Solid(c) => Fill::Solid(c.duplicate()),
        }
    }
}

/// Whether two fills have the same content.
pub fn fill_eq(a: &Fill, b: &Fill) -> (r: bool)
    ensures
        r == (a@ == b@),
{
    match (a, b) {
        (Fill::NoFill, Fill::NoFill) => true,
        (Fill::Solid(x), Fill::Solid(y)) => *(&x.0) == *(&y.0),
        _ => false,
    }
}

// ---------------------------------------------------------------------------
// Borders.
// ---------------------------------------------------------------------------

/// The line style of one border side.
#[derive(Debug, Clone, Copy, PartialEq, Eq, Structural)]
pub enum BorderStyle {
    NoLine,
    Thin,
    Medium,
    Thick,
    Dashed,
    Dotted,
    Double,
}

/// The style attribute value of a border side, when it draws a line.
pub open spec fn border_attr_of(bs: BorderStyle) -> Option<Seq<char>> {
    match bs {
        BorderStyle::NoLine => Option::None,
        BorderStyle::Thin => Option::Some("thin"@),
        BorderStyle::Medium => Option::Some("medium"@),
        BorderStyle::Thick => Option::Some("thick"@),
        BorderStyle::Dashed => Option::Some("dashed"@),
        BorderStyle::Dotted => Option::Some("dotted"@),
        BorderStyle::Double => Option::Some("double"@),
    }
}

impl BorderStyle {
    /// The style attribute value of this side, when it draws a line.
    pub fn as_xml_attr(&self) -> (r: Option<&str>)
        ensures
            match r {
                Option::Some(s) => border_attr_of(*self) == Option::Some(s@),
                Option::None => border_attr_of(*self) == Option::<Seq<char>>::None,
            },
    {
        match self {
            BorderStyle::NoLine => Option::None,
            BorderStyle::Thin => Option::Some("thin"),
            BorderStyle::Medium => Option::Some("medium"),
            BorderStyle::Thick => Option::Some("thick"),
            BorderStyle::Dashed => Option::Some("dashed"),
            BorderStyle::Dotted => Option::Some("dotted"),
            BorderStyle::Double => Option::Some("double"),
        }
    }
}

/// The four sides of a cell border, with one optional shared color.
#[derive(Debug, Clone)]
pub struct Border {
    pub left: BorderStyle,
    pub right: BorderStyle,
    pub top: BorderStyle,
    pub bottom: BorderStyle,
    pub color: Option<Color>,
}

/// The mathematical shape of a border.
pub struct BorderV {
    pub left: BorderStyle,
    pub right: BorderStyle,
    pub top: BorderStyle,
    pub bottom: BorderStyle,
    pub color: Option<Seq<char>>,
}

impl View for Border {
    type V = BorderV;

    open spec fn view(&self) -> BorderV {
        BorderV {
            left: self.left,
            right: self.right,
            top: self.top,
            bottom: self.bottom,
            color: match &self.color {
                Option::Some(c) => Option::Some(c@),
                Option::None => Option::None,
            },
        }
    }
}

/// The default border: no line on any side and no color.
pub open spec fn default_border() -> BorderV {
    BorderV {
        left: BorderStyle::NoLine,
        right: BorderStyle::NoLine,
        top: BorderStyle::NoLine,
        bottom: BorderStyle::NoLine,
        color: Option::None,
    }
}

impl Default for Border {
    /// The default border: no line on any side and no color.
    fn default() -> (r: Self)
        ensures
            r@ == default_border(),
    {
        Border {
            left: BorderStyle::NoLine,
            right: BorderStyle::NoLine,
            top: BorderStyle::NoLine,
            bottom: BorderStyle::NoLine,
            color: Option::None,
        }
    }
}

/// The XML element of one border side: self-closed without a line, otherwise
/// carrying the style attribute and the border's color.
pub open spec fn side_xml_text(tag: Seq<char>, bs: BorderStyle, color: Option<Seq<char>>) -> Seq<
    char,
> {
    match border_attr_of(bs) {
        Option::None => seq!['<'] + tag + "/>"@,
        Option::Some(s) => seq!['<'] + tag + " style=\""@ + s + "\">"@ + color_elem_text(color)
            + "</"@ + tag + seq!['>'],
    }
}

/// The XML a border renders as in the style part.
pub open spec fn border_xml_text(b: BorderV) -> Seq<char> {
    "<border>"@ + side_xml_text("left"@, b.left, b.color) + side_xml_text("right"@, b.right, b.color)
        + side_xml_text("top"@, b.top, b.color) + side_xml_text("bottom"@, b.bottom, b.color)
        + "<diagonal/></border>"@
}

impl Border {
    /// Renders one side of this border.
    fn side_xml(&self, tag: &str, style: &BorderStyle) -> (r: String)
        ensures
            r@ == side_xml_text(tag@, *style, self@.color),
    {
        let mut out = String::new();
        match style.as_xml_attr() {
            Option::None => {
                push_char(&mut out, '<');
                out.append(tag);
                out.append("/>");
            },
            Option::Some(s) => {
                push_char(&mut out, '<');
                out.append(tag);
                out.append(" style=\"");
                out.append(s);
                out.append("\">");
                match &self.color {
                    Option::Some(c) => {
                        out.append("<color rgb=\"");
                        out.append(c.as_argb());
                        out.append("\"/>");
                    },
                    Option::None => {},
                }
                out.append("</");
                out.append(tag);
                push_char(&mut out, '>');
            },
        }
        out
    }

    /// Renders this border for the style part.
    pub fn to_xml(&self) -> (r: String)
        ensures
            r@ == border_xml_text(self@),
    {
        let mut out = String::new();
        out.append("<border>");
        let left = self.side_xml("left", &self.left);
        out.append(left.as_str());
        let right = self.side_xml("right", &self.right);
        out.append(right.as_str());
        let top = self.side_xml("top", &self.top);
        out.append(top.as_str());
        let bottom = self.side_xml("bottom", &self.bottom);
        out.append(bottom.as_str());
        out.append("<diagonal/></border>");
        out
    }
}

impl Border {
    /// A copy with the same content.
    pub fn duplicate(&self) -> (r: Self)
        ensures
            r@ == self@,
    {
        Border {
            left: self.left,
            right: self.right,
            top: self.top,
            bottom: self.bottom,
            color: match &self.color {
                Option::Some(c) => Option::Some(c.duplicate()),
                Option::None => Option::None,
            },
        }
    }
}

/// Whether two borders have the same content.
pub fn border_eq(a: &Border, b: &Border) -> (r: bool)
    ensures
        r == (a@ == b@),
{
    let colors_match = match (&a.color, &b.color) {
        (Option::Some(x), Option::Some(y)) => *(&x.0) == *(&y.0),
        (Option::None, Option::None) => true,
        _ => false,
    };
    colors_match && a.left == b.left && a.right == b.right && a.top == b.top && a.bottom
        == b.bottom
}

// ---------------------------------------------------------------------------
// Number formats.
// ---------------------------------------------------------------------------

/// A cell number format: one of the fixed builtin formats, or a custom
/// format code.
#[derive(Debug, Clone)]
pub enum NumberFormat {
    General,
    Integer,
    Decimal2,
    Percent,
    Currency,
    Date,
    DateTime,
    Custom(String),
}

/// The mathematical shape of a number format.
pub enum NumFmtV {
    General,
    Integer,
    Decimal2,
    Percent,
    Currency,
    Date,
    DateTime,
    Custom(Seq<char>),
}

impl View for NumberFormat {
    type V = NumFmtV;

    open spec fn view(&self) -> NumFmtV {
        match self {
            NumberFormat::General => NumFmtV::General,
            NumberFormat::Integer => NumFmtV::Integer,
            NumberFormat::Decimal2 => NumFmtV::Decimal2,
            NumberFormat::Percent => NumFmtV::Percent,
            NumberFormat::Currency => NumFmtV::Currency,
            NumberFormat::Date => NumFmtV::Date,
            NumberFormat::DateTime => NumFmtV::DateTime,
            NumberFormat::Custom(s) => NumFmtV::Custom(s@),
        }
    }
}

/// The fixed id of a builtin number format; a custom format has none.
pub open spec fn builtin_id_of(n: NumFmtV) -> Option<u32> {
    match n {
        NumFmtV::General => Option::Some(0u32),
        NumFmtV::Integer => Option::Some(1u32),
        NumFmtV::Decimal2 => Option::Some(4u32),
        NumFmtV::Percent => Option::Some(10u32),
        NumFmtV::Currency => Option::Some(7u32),
        NumFmtV::Date => Option::Some(14u32),
        NumFmtV::DateTime => Option::Some(22u32),
        NumFmtV::Custom(_) => Option::None,
    }
}

impl NumberFormat {
    /// The fixed id of a builtin format; a custom format has none.
    pub fn builtin_id(&self) -> (r: Option<u32>)
        ensures
            r == builtin_id_of(self@),
    {
        match self {
            NumberFormat::General => Option::Some(0),
            NumberFormat::Integer => Option::Some(1),
            NumberFormat::Decimal2 => Option::Some(4),
            NumberFormat::Percent => Option::Some(10),
            NumberFormat::Currency => Option::Some(7),
            NumberFormat::Date => Option::Some(14),
            NumberFormat::DateTime => Option::Some(22),
            NumberFormat::Custom(_) => Option::None,
        }
    }
}

impl NumberFormat {
    /// A copy with the same content.
    pub fn duplicate(&self) -> (r: Self)
        ensures
            r@ == self@,
    {
        match self {
            NumberFormat::General => NumberFormat::General,
            NumberFormat::Integer => NumberFormat::Integer,
            NumberFormat::Decimal2 => NumberFormat::Decimal2,
            NumberFormat::Percent => NumberFormat::Percent,
            NumberFormat::Currency => NumberFormat::Currency,
            NumberFormat::Date => NumberFormat::Date,
            NumberFormat::DateTime => NumberFormat::DateTime,
            NumberFormat::Custom(s) => NumberFormat::Custom(s.clone()),
        }
    }
}

// ---------------------------------------------------------------------------
// Styles.
// ---------------------------------------------------------------------------

/// A cell style: font, fill, border and number format.
#[derive(Debug, Clone)]
pub struct Style {
    pub font: Font,
    pub fill: Fill,
    pub border: Border,
    pub number_format: NumberFormat,
}

/// The mathematical shape of a style.
pub struct StyleV {
    pub font: FontV,
    pub fill: FillV,
    pub border: BorderV,
    pub number_format: NumFmtV,
}

impl View for Style {
    type V = StyleV;

    open spec fn view(&self) -> StyleV {
        StyleV {
            font: self.font@,
            fill: self.fill@,
            border: self.border@,
            number_format: self.number_format@,
        }
    }
}

/// The all-default style: default font, no fill, no border, general format.
pub open spec fn default_style() -> StyleV {
    StyleV {
        font: default_font(),
        fill: FillV::NoFill,
        border: default_border(),
        number_format: NumFmtV::General,
    }
}

impl Default for Style {
    /// The all-default style.
    fn default() -> (r: Self)
        ensures
            r@ == default_style(),
    {
        Style {
            font: Font::default(),
            fill: Fill::NoFill,
            border: Border::default(),
            number_format: NumberFormat::General,
        }
    }
}

impl Style {
    /// A copy with the same content.
    pub fn duplicate(&self) -> (r: Self)
        ensures
            r@ == self@,
    {
        Style {
            font: self.font.duplicate(),
            fill: self.fill.duplicate(),
            border: self.border.duplicate(),
            number_format: self.number_format.duplicate(),
        }
    }

    /// The all-default style, ready for fluent configuration.
    pub fn new() -> (r: Self)
        ensures
            r@ == default_style(),
    {
        Style::default()
    }

    /// This style with a bold font.
    pub fn bold(self) -> (r: Self)
        ensures
            r@ == (StyleV { font: FontV { bold: true, ..self@.font }, ..self@ }),
    {
        let mut s = self;
        s.font.bold = true;
        s
    }

    /// This style with an italic font.
    pub fn italic(self) -> (r: Self)
        ensures
            r@ == (StyleV { font: FontV { italic: true, ..self@.font }, ..self@ }),
    {
        let mut s = self;
        s.font.italic = true;
        s
    }

    /// This style with an underlined font.
    pub fn underline(self) -> (r: Self)
        ensures
            r@ == (StyleV { font: FontV { underline: true, ..self@.font }, ..self@ }),
    {
        let mut s = self;
        s.font.underline = true;
        s
    }

    /// This style with the font size set, in points.
    pub fn font_size(self, pt: u32) -> (r: Self)
        requires
            pt <= u32::MAX / 20,
        ensures
            r@ == (StyleV { font: FontV { size: (pt * 20) as u32, ..self@.font }, ..self@ }),
    {
        let mut s = self;
        s.font.size = pt * 20;
        s
    }

    /// This style with the font color set from a hex code.
    pub fn font_color(self, hex: &str) -> (r: Self)
        ensures
            r@ == (StyleV {
                font: FontV { color: Option::Some(color_norm(hex@)), ..self@.font },
                ..self@
            }),
    {
        let mut s = self;
        s.font.color = Option::Some(Color::new(hex));
        s
    }

    /// This style with the font name set.
    pub fn font_name(self, name: &str) -> (r: Self)
        ensures
            r@ == (StyleV { font: FontV { name: name@, ..self@.font }, ..self@ }),
    {
        let mut s = self;
        s.font.name = name.to_owned();
        s
    }

    /// This style with a solid background fill from a hex code.
    pub fn bg(self, hex: &str) -> (r: Self)
        ensures
            r@ == (StyleV { fill: FillV::Solid(color_norm(hex@)), ..self@ }),
    {
        let mut s = self;
        s.fill = Fill::Solid(Color::new(hex));
        s
    }

    /// This style with the same line on all four border sides.
    pub fn border_all(self, style: BorderStyle) -> (r: Self)
        ensures
            r@ == (StyleV {
                border: BorderV {
                    left: style,
                    right: style,
                    top: style,
                    bottom: style,
                    ..self@.border
                },
                ..self@
            }),
    {
        let mut s = self;
        s.border.left = style;
        s.border.right = style;
        s.border.top = style;
        s.border.bottom = style;
        s
    }

    /// This style with the left border line set.
    pub fn border_left(self, style: BorderStyle) -> (r: Self)
        ensures
            r@ == (StyleV { border: BorderV { left: style, ..self@.border }, ..self@ }),
    {
        let mut s = self;
        s.border.left = style;
        s
    }

    /// This style with the right border line set.
    pub fn border_right(self, style: BorderStyle) -> (r: Self)
        ensures
            r@ == (StyleV { border: BorderV { right: style, ..self@.border }, ..self@ }),
    {
        let mut s = self;
        s.border.right = style;
        s
    }

    /// This style with the top border line set.
    pub fn border_top(self, style: BorderStyle) -> (r: Self)
        ensures
            r@ == (StyleV { border: BorderV { top: style, ..self@.border }, ..self@ }),
    {
        let mut s = self;
        s.border.top = style;
        s
    }

    /// This style with the bottom border line set.
    pub fn border_bottom(self, style: BorderStyle) -> (r: Self)
        ensures
            r@ == (StyleV { border: BorderV { bottom: style, ..self@.border }, ..self@ }),
    {
        let mut s = self;
        s.border.bottom = style;
        s
    }

    /// This style with the border color set from a hex code.
    pub fn border_color(self, hex: &str) -> (r: Self)
        ensures
            r@ == (StyleV {
                border: BorderV { color: Option::Some(color_norm(hex@)), ..self@.border },
                ..self@
            }),
    {
        let mut s = self;
        s.border.color = Option::Some(Color::new(hex));
        s
    }

    /// This style with the number format set.
    pub fn format(self, fmt: NumberFormat) -> (r: Self)
        ensures
            r@ == (StyleV { number_format: fmt@, ..self@ }),
    {
        let mut s = self;
        s.number_format = fmt;
        s
    }

    /// This style with a custom number format code.
    pub fn custom_format(self, fmt: &str) -> (r: Self)
        ensures
            r@ == (StyleV { number_format: NumFmtV::Custom(fmt@), ..self@ }),
    {
        let mut s = self;
        s.number_format = NumberFormat::Custom(fmt.to_owned());
        s
    }
}

} // verus!
