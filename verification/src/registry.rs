use vstd::prelude::*;

use crate::style::{
    border_eq, border_xml_text, builtin_id_of, default_border, default_font, default_style,
    fill_eq, fill_xml_text, font_eq, font_xml_text, Border, BorderV, Fill, FillV, Font,
    FontV, NumFmtV, NumberFormat, Style, StyleV,
};
use crate::textutil::{dec_str, u32_to_string, usize_to_string};

verus! {

// ---------------------------------------------------------------------------
// Interning over sequences: first occurrence wins, new values are appended.
// ---------------------------------------------------------------------------

/// The first position of `v` in `s`, or `s.len()` when absent.
pub open spec fn seq_find<A>(s: Seq<A>, v: A) -> int
    decreases s.len(),
{
    if s.len() == 0 {
        0
    } else if s[0] == v {
        0
    } else {
        1 + seq_find(s.skip(1), v)
    }
}

/// The id interning `v` into `s` yields: the first occurrence, or the slot
/// the value is appended at.
pub open spec fn intern_index<A>(s: Seq<A>, v: A) -> int {
    if s.contains(v) {
        seq_find(s, v)
    } else {
        s.len() as int
    }
}

/// The table after interning `v`: unchanged when present, else extended.
pub open spec fn intern_seq<A>(s: Seq<A>, v: A) -> Seq<A> {
    if s.contains(v) {
        s
    } else {
        s.push(v)
    }
}

/// When `v` occurs in `s`, `seq_find` gives its first occurrence.
pub proof fn lemma_seq_find_first<A>(s: Seq<A>, v: A)
    requires
        s.contains(v),
    ensures
        0 <= seq_find(s, v) < s.len(),
        s[seq_find(s, v)] == v,
        forall|j: int| 0 <= j < seq_find(s, v) ==> s[j] != v,
    decreases s.len(),
{
    if s[0] == v {
    } else {
        let t = s.skip(1);
        assert(t.contains(v)) by {
            let w = choose|w: int| 0 <= w < s.len() && s[w] == v;
            assert(t[w - 1] == s[w]);
        }
        lemma_seq_find_first(t, v);
        assert(forall|j: int| 0 <= j < seq_find(t, v) ==> t[j] != v);
        assert(forall|j: int| 1 <= j < seq_find(s, v) ==> s[j] == t[j - 1]);
    }
}

/// A first occurrence pins `seq_find` down.
pub proof fn lemma_seq_find_at<A>(s: Seq<A>, v: A, i: int)
    requires
        0 <= i < s.len(),
        s[i] == v,
        forall|j: int| 0 <= j < i ==> s[j] != v,
    ensures
        s.contains(v),
        seq_find(s, v) == i,
    decreases s.len(),
{
    assert(s.contains(v));
    if i == 0 {
    } else {
        let t = s.skip(1);
        assert(t[i - 1] == s[i]);
        assert(forall|j: int| 0 <= j < i - 1 ==> t[j] == s[j + 1]);
        lemma_seq_find_at(t, v, i - 1);
    }
}

/// Interning a fresh value appends it at the old length.
pub proof fn lemma_intern_fresh<A>(s: Seq<A>, v: A)
    requires
        !s.contains(v),
    ensures
        intern_seq(s, v).contains(v),
        intern_index(intern_seq(s, v), v) == s.len(),
        intern_index(s, v) == s.len(),
{
    let t = s.push(v);
    assert(t[s.len() as int] == v);
    assert(forall|j: int| 0 <= j < s.len() ==> t[j] == s[j] && s[j] != v);
    lemma_seq_find_at(t, v, s.len() as int);
}

/// The interned slot always holds the value, inside the new table.
pub proof fn lemma_intern_slot<A>(s: Seq<A>, v: A)
    ensures
        0 <= intern_index(s, v) < intern_seq(s, v).len(),
        intern_seq(s, v)[intern_index(s, v)] == v,
        intern_index(intern_seq(s, v), v) == intern_index(s, v),
        s.len() <= intern_seq(s, v).len() <= s.len() + 1,
        forall|j: int| 0 <= j < s.len() ==> intern_seq(s, v)[j] == s[j],
    decreases s.len(),
{
    if s.contains(v) {
        lemma_seq_find_first(s, v);
    } else {
        lemma_intern_fresh(s, v);
    }
}

// ---------------------------------------------------------------------------
// Number format interning: builtin formats keep fixed ids, custom codes get
// dense ids from 164 up.
// ---------------------------------------------------------------------------

/// Whether a custom code is already in the table.
pub open spec fn custom_contains(s: Seq<(u32, Seq<char>)>, code: Seq<char>) -> bool {
    exists|j: int| 0 <= j < s.len() && #[trigger] s[j].1 == code
}

/// The first position of a custom code in the table, or `s.len()` if absent.
pub open spec fn custom_find(s: Seq<(u32, Seq<char>)>, code: Seq<char>) -> int
    decreases s.len(),
{
    if s.len() == 0 {
        0
    } else if s[0].1 == code {
        0
    } else {
        1 + custom_find(s.skip(1), code)
    }
}

/// When the code occurs, `custom_find` gives its first occurrence.
pub proof fn lemma_custom_find_first(s: Seq<(u32, Seq<char>)>, code: Seq<char>)
    requires
        custom_contains(s, code),
    ensures
        0 <= custom_find(s, code) < s.len(),
        s[custom_find(s, code)].1 == code,
        forall|j: int| 0 <= j < custom_find(s, code) ==> (#[trigger] s[j]).1 != code,
    decreases s.len(),
{
    if s[0].1 == code {
    } else {
        let t = s.skip(1);
        assert(custom_contains(t, code)) by {
            let w = choose|w: int| 0 <= w < s.len() && #[trigger] s[w].1 == code;
            assert(t[w - 1].1 == code);
        }
        lemma_custom_find_first(t, code);
        assert(forall|j: int| 0 <= j < custom_find(t, code) ==> (#[trigger] t[j]).1 != code);
        assert(forall|j: int| 1 <= j < custom_find(s, code) ==> s[j] == t[j - 1]);
    }
}

/// A first occurrence pins `custom_find` down.
pub proof fn lemma_custom_find_at(s: Seq<(u32, Seq<char>)>, code: Seq<char>, i: int)
    requires
        0 <= i < s.len(),
        s[i].1 == code,
        forall|j: int| 0 <= j < i ==> s[j].1 != code,
    ensures
        custom_contains(s, code),
        custom_find(s, code) == i,
    decreases s.len(),
{
    assert(custom_contains(s, code));
    if i == 0 {
    } else {
        let t = s.skip(1);
        assert(t[i - 1].1 == s[i].1);
        assert(forall|j: int| 0 <= j < i - 1 ==> t[j] == s[j + 1]);
        lemma_custom_find_at(t, code, i - 1);
    }
}

/// The id interning a number format yields.
pub open spec fn fmt_intern_id(s: Seq<(u32, Seq<char>)>, n: NumFmtV) -> u32 {
    match builtin_id_of(n) {
        Option::Some(id) => id,
        Option::None => match n {
            NumFmtV::Custom(code) => if custom_contains(s, code) {
                s[custom_find(s, code)].0
            } else {
                (164 + s.len()) as u32
            },
            _ => 0u32,
        },
    }
}

/// The table after interning a number format: only a fresh custom code
/// extends it.
pub open spec fn fmt_intern_seq(s: Seq<(u32, Seq<char>)>, n: NumFmtV) -> Seq<(u32, Seq<char>)> {
    match builtin_id_of(n) {
        Option::Some(_) => s,
        Option::None => match n {
            NumFmtV::Custom(code) => if custom_contains(s, code) {
                s
            } else {
                s.push(((164 + s.len()) as u32, code))
            },
            _ => s,
        },
    }
}

// ---------------------------------------------------------------------------
// The registry.
// ---------------------------------------------------------------------------

/// The mathematical shape of a style registry: four intern tables and the
/// composite cell-format table.
pub struct RegV {
    pub fonts: Seq<FontV>,
    pub fills: Seq<FillV>,
    pub borders: Seq<BorderV>,
    pub num_fmts: Seq<(u32, Seq<char>)>,
    pub xfs: Seq<(int, int, int, u32)>,
}

/// The interning engine: fonts, fills, borders and custom number formats,
/// each deduplicated by content, plus the composite cell-format table.
pub struct StyleRegistry {
    pub fonts: Vec<Font>,
    pub fills: Vec<Fill>,
    pub borders: Vec<Border>,
    pub num_fmts: Vec<(u32, String)>,
    pub xfs: Vec<(usize, usize, usize, u32)>,
}

impl View for StyleRegistry {
    type V = RegV;

    open spec fn view(&self) -> RegV {
        RegV {
            fonts: self.fonts@.map_values(|f: Font| f@),
            fills: self.fills@.map_values(|f: Fill| f@),
            borders: self.borders@.map_values(|b: Border| b@),
            num_fmts: self.num_fmts@.map_values(|p: (u32, String)| (p.0, p.1@)),
            xfs: self.xfs@.map_values(
                |t: (usize, usize, usize, u32)| (t.0 as int, t.1 as int, t.2 as int, t.3),
            ),
        }
    }
}

/// The registry a fresh construction yields: the default font, two fill
/// slots (the second reserved for the container's fixed system pattern), the
/// default border, and the all-default composite record at index zero.
pub open spec fn new_registry() -> RegV {
    RegV {
        fonts: seq![default_font()],
        fills: seq![FillV::NoFill, FillV::NoFill],
        borders: seq![default_border()],
        num_fmts: Seq::<(u32, Seq<char>)>::empty(),
        xfs: seq![(0int, 0int, 0int, 0u32)],
    }
}

/// A well-formed registry: the seeded defaults sit at their reserved slots,
/// and custom number-format ids are dense from 164 up.
pub open spec fn reg_wf(m: RegV) -> bool {
    &&& m.fonts.len() >= 1 && m.fonts[0] == default_font()
    &&& m.fills.len() >= 2 && m.fills[0] == FillV::NoFill
    &&& m.borders.len() >= 1 && m.borders[0] == default_border()
    &&& m.xfs.len() >= 1 && m.xfs[0] == (0int, 0int, 0int, 0u32)
    &&& forall|k: int| 0 <= k < m.num_fmts.len() ==> (#[trigger] m.num_fmts[k].0) as int == 164 + k
}

/// Whether one more custom format id surely fits the id space.
pub open spec fn has_custom_room(m: RegV) -> bool {
    m.num_fmts.len() + 164 < u32::MAX as int
}

/// What registering a style does: each attribute group interned by content,
/// then the composite four-id record interned; the returned index is the
/// composite record's id.
pub open spec fn register_spec(m: RegV, s: StyleV) -> (int, RegV) {
    let key = (
        intern_index(m.fonts, s.font),
        intern_index(m.fills, s.fill),
        intern_index(m.borders, s.border),
        fmt_intern_id(m.num_fmts, s.number_format),
    );
    (
        intern_index(m.xfs, key),
        RegV {
            fonts: intern_seq(m.fonts, s.font),
            fills: intern_seq(m.fills, s.fill),
            borders: intern_seq(m.borders, s.border),
            num_fmts: fmt_intern_seq(m.num_fmts, s.number_format),
            xfs: intern_seq(m.xfs, key),
        },
    )
}

impl StyleRegistry {
    /// A fresh registry, seeded so that an untouched registry already
    /// satisfies the container format's structural minimums.
    pub fn new() -> (r: Self)
        ensures
            r@ == new_registry(),
            reg_wf(r@),
    {
        let mut fonts: Vec<Font> = Vec::new();
        fonts.push(Font::default());
        let mut fills: Vec<Fill> = Vec::new();
        fills.push(Fill::NoFill);
        fills.push(Fill::NoFill);
        let mut borders: Vec<Border> = Vec::new();
        borders.push(Border::default());
        let mut xfs: Vec<(usize, usize, usize, u32)> = Vec::new();
        xfs.push((0, 0, 0, 0));
        let r = StyleRegistry { fonts, fills, borders, num_fmts: Vec::new(), xfs };
        proof {
            assert(r@.fonts =~= new_registry().fonts);
            assert(r@.fills =~= new_registry().fills);
            assert(r@.borders =~= new_registry().borders);
            assert(r@.num_fmts =~= new_registry().num_fmts);
            assert(r@.xfs =~= new_registry().xfs);
        }
        r
    }

    fn intern_font(&mut self, font: &Font) -> (r: usize)
        ensures
            r as int == intern_index(old(self)@.fonts, font@),
            final(self)@ == (RegV { fonts: intern_seq(old(self)@.fonts, font@), ..old(self)@ }),
    {
        let ghost fv = font@;
        let ghost fs = self@.fonts;
        let n = self.fonts.len();
        let mut i: usize = 0;
        while i < n
            invariant
                n == self.fonts@.len(),
                i <= n,
                fs == self@.fonts,
                fv == font@,
                forall|j: int| 0 <= j < i ==> fs[j] != fv,
            decreases n - i,
        {
            if font_eq(&self.fonts[i], font) {
                proof {
                    assert(fs[i as int] == self.fonts@[i as int]@);
                    lemma_seq_find_at(fs, fv, i as int);
                }
                return i;
            }
            proof {
                assert(fs[i as int] == self.fonts@[i as int]@);
            }
            i = i + 1;
        }
        proof {
            if fs.contains(fv) {
                let w = choose|w: int| 0 <= w < fs.len() && fs[w] == fv;
                assert(false);
            }
        }
        self.fonts.push(font.duplicate());
        proof {
            assert(self@.fonts =~= intern_seq(fs, fv));
            lemma_intern_fresh(fs, fv);
        }
        n
    }

    fn intern_fill(&mut self, fill: &Fill) -> (r: usize)
        ensures
            r as int == intern_index(old(self)@.fills, fill@),
            final(self)@ == (RegV { fills: intern_seq(old(self)@.fills, fill@), ..old(self)@ }),
    {
        let ghost fv = fill@;
        let ghost fs = self@.fills;
        let n = self.fills.len();
        let mut i: usize = 0;
        while i < n
            invariant
                n == self.fills@.len(),
                i <= n,
                fs == self@.fills,
                fv == fill@,
                forall|j: int| 0 <= j < i ==> fs[j] != fv,
            decreases n - i,
        {
            if fill_eq(&self.fills[i], fill) {
                proof {
                    assert(fs[i as int] == self.fills@[i as int]@);
                    lemma_seq_find_at(fs, fv, i as int);
                }
                return i;
            }
            proof {
                assert(fs[i as int] == self.fills@[i as int]@);
            }
            i = i + 1;
        }
        proof {
            if fs.contains(fv) {
                let w = choose|w: int| 0 <= w < fs.len() && fs[w] == fv;
                assert(false);
            }
        }
        self.fills.push(fill.duplicate());
        proof {
            assert(self@.fills =~= intern_seq(fs, fv));
            lemma_intern_fresh(fs, fv);
        }
        n
    }

    fn intern_border(&mut self, border: &Border) -> (r: usize)
        ensures
            r as int == intern_index(old(self)@.borders, border@),
            final(self)@ == (RegV {
                borders: intern_seq(old(self)@.borders, border@),
                ..old(self)@
            }),
    {
        let ghost bv = border@;
        let ghost bs = self@.borders;
        let n = self.borders.len();
        let mut i: usize = 0;
        while i < n
            invariant
                n == self.borders@.len(),
                i <= n,
                bs == self@.borders,
                bv == border@,
                forall|j: int| 0 <= j < i ==> bs[j] != bv,
            decreases n - i,
        {
            if border_eq(&self.borders[i], border) {
                proof {
                    assert(bs[i as int] == self.borders@[i as int]@);
                    lemma_seq_find_at(bs, bv, i as int);
                }
                return i;
            }
            proof {
                assert(bs[i as int] == self.borders@[i as int]@);
            }
            i = i + 1;
        }
        proof {
            if bs.contains(bv) {
                let w = choose|w: int| 0 <= w < bs.len() && bs[w] == bv;
                assert(false);
            }
        }
        self.borders.push(border.duplicate());
        proof {
            assert(self@.borders =~= intern_seq(bs, bv));
            lemma_intern_fresh(bs, bv);
        }
        n
    }

    fn intern_num_fmt(&mut self, fmt: &NumberFormat) -> (r: u32)
        requires
            has_custom_room(old(self)@),
        ensures
            r == fmt_intern_id(old(self)@.num_fmts, fmt@),
            final(self)@ == (RegV {
                num_fmts: fmt_intern_seq(old(self)@.num_fmts, fmt@),
                ..old(self)@
            }),
    {
        let ghost table = self@.num_fmts;
        match fmt.builtin_id() {
            Option::Some(id) => {
                return id;
            },
            Option::None => {},
        }
        let code: &String = match fmt {
            NumberFormat::Custom(c) => c,
            _ => {
                return 0;
            },
        };
        let n = self.num_fmts.len();
        let mut i: usize = 0;
        while i < n
            invariant
                n == self.num_fmts@.len(),
                i <= n,
                table == self@.num_fmts,
                fmt@ == NumFmtV::Custom(code@),
                builtin_id_of(fmt@) is None,
                forall|j: int| 0 <= j < i ==> table[j].1 != code@,
            decreases n - i,
        {
            let hit = {
                let entry = &self.num_fmts[i];
                entry.1 == *code
            };
            proof {
                assert(table[i as int] == (
                    self.num_fmts@[i as int].0,
                    self.num_fmts@[i as int].1@,
                ));
            }
            if hit {
                let id = self.num_fmts[i].0;
                proof {
                    lemma_custom_find_at(table, code@, i as int);
                }
                return id;
            }
            i = i + 1;
        }
        proof {
            if custom_contains(table, code@) {
                let w = choose|w: int| 0 <= w < table.len() && #[trigger] table[w].1 == code@;
                assert(false);
            }
        }
        let id: u32 = 164 + (n as u32);
        self.num_fmts.push((id, code.clone()));
        proof {
            assert(self@.num_fmts =~= table.push((id, code@)));
        }
        id
    }

    fn intern_xf(&mut self, font_id: usize, fill_id: usize, border_id: usize, num_fmt_id: u32) -> (r:
        usize)
        ensures
            r as int == intern_index(
                old(self)@.xfs,
                (font_id as int, fill_id as int, border_id as int, num_fmt_id),
            ),
            final(self)@ == (RegV {
                xfs: intern_seq(
                    old(self)@.xfs,
                    (font_id as int, fill_id as int, border_id as int, num_fmt_id),
                ),
                ..old(self)@
            }),
    {
        let ghost key = (font_id as int, fill_id as int, border_id as int, num_fmt_id);
        let ghost table = self@.xfs;
        let n = self.xfs.len();
        let mut i: usize = 0;
        while i < n
            invariant
                n == self.xfs@.len(),
                i <= n,
                table == self@.xfs,
                key == (font_id as int, fill_id as int, border_id as int, num_fmt_id),
                forall|j: int| 0 <= j < i ==> table[j] != key,
            decreases n - i,
        {
            let entry = self.xfs[i];
            proof {
                assert(entry == self.xfs@[i as int]);
                assert(table[i as int] == (
                    entry.0 as int,
                    entry.1 as int,
                    entry.2 as int,
                    entry.3,
                ));
            }
            if entry.0 == font_id && entry.1 == fill_id && entry.2 == border_id && entry.3
                == num_fmt_id {
                proof {
                    assert(table[i as int] == key);
                    lemma_seq_find_at(table, key, i as int);
                }
                return i;
            }
            i = i + 1;
        }
        proof {
            if table.contains(key) {
                let w = choose|w: int| 0 <= w < table.len() && table[w] == key;
                assert(false);
            }
        }
        self.xfs.push((font_id, fill_id, border_id, num_fmt_id));
        proof {
            assert(self@.xfs =~= intern_seq(table, key));
            lemma_intern_fresh(table, key);
        }
        n
    }

    /// Registers a style and returns its composite format index: a pure
    /// function of the style's content, with index zero reserved for the
    /// all-default style.
    pub fn register(&mut self, style: &Style) -> (r: usize)
        requires
            has_custom_room(old(self)@),
        ensures
            r as int == register_spec(old(self)@, style@).0,
            final(self)@ == register_spec(old(self)@, style@).1,
            reg_wf(old(self)@) ==> reg_wf(final(self)@),
    {
        let ghost m0 = self@;
        let fid = self.intern_font(&style.font);
        let lid = self.intern_fill(&style.fill);
        let bid = self.intern_border(&style.border);
        let nid = self.intern_num_fmt(&style.number_format);
        let r = self.intern_xf(fid, lid, bid, nid);
        proof {
            lemma_intern_slot(m0.fonts, style@.font);
            lemma_intern_slot(m0.fills, style@.fill);
            lemma_intern_slot(m0.borders, style@.border);
            lemma_intern_slot(
                m0.xfs,
                (fid as int, lid as int, bid as int, fmt_intern_id(m0.num_fmts, style@.number_format)),
            );
            assert(self@.fonts == register_spec(m0, style@).1.fonts);
            assert(self@.fills == register_spec(m0, style@).1.fills);
            assert(self@.borders == register_spec(m0, style@).1.borders);
            assert(self@.num_fmts == register_spec(m0, style@).1.num_fmts);
            assert(self@.xfs == register_spec(m0, style@).1.xfs);
            if reg_wf(m0) {
                assert(reg_wf(self@));
            }
        }
        r
    }
}

// ---------------------------------------------------------------------------
// Laws of the interning engine.
// ---------------------------------------------------------------------------

/// The slot a number format's id points into the interned table: its first
/// occurrence, or the slot a fresh custom code is appended at.
pub open spec fn fmt_pos(s: Seq<(u32, Seq<char>)>, code: Seq<char>) -> int {
    if custom_contains(s, code) {
        custom_find(s, code)
    } else {
        s.len() as int
    }
}

/// Interning a custom format yields an id that is 164 plus its slot, and the
/// slot holds its code; the table keeps its shape.
proof fn lemma_fmt_custom(s: Seq<(u32, Seq<char>)>, code: Seq<char>)
    requires
        forall|k: int| 0 <= k < s.len() ==> (#[trigger] s[k].0) as int == 164 + k,
        s.len() + 164 <= u32::MAX as int,
    ensures
        ({
            let t = fmt_intern_seq(s, NumFmtV::Custom(code));
            let id = fmt_intern_id(s, NumFmtV::Custom(code));
            &&& 0 <= fmt_pos(s, code) < t.len()
            &&& t[fmt_pos(s, code)].1 == code
            &&& id as int == 164 + fmt_pos(s, code)
            &&& s.len() <= t.len() <= s.len() + 1
            &&& (forall|j: int| 0 <= j < s.len() ==> t[j] == s[j])
            &&& (forall|k: int| 0 <= k < t.len() ==> (#[trigger] t[k].0) as int == 164 + k)
        }),
{
    if custom_contains(s, code) {
        lemma_custom_find_first(s, code);
    } else {
        let t = s.push(((164 + s.len()) as u32, code));
        assert(t[s.len() as int].1 == code);
    }
}

/// Two distinct number formats intern to distinct ids, also across the
/// mutation the first interning makes.
proof fn lemma_fmt_ids_distinct(s: Seq<(u32, Seq<char>)>, n1: NumFmtV, n2: NumFmtV)
    requires
        forall|k: int| 0 <= k < s.len() ==> (#[trigger] s[k].0) as int == 164 + k,
        s.len() + 164 < u32::MAX as int,
        n1 != n2,
    ensures
        fmt_intern_id(s, n1) != fmt_intern_id(fmt_intern_seq(s, n1), n2),
{
    let t = fmt_intern_seq(s, n1);
    let id1 = fmt_intern_id(s, n1);
    let id2 = fmt_intern_id(t, n2);
    match (builtin_id_of(n1), builtin_id_of(n2)) {
        (Option::Some(_), Option::Some(_)) => {
            assert(id1 != id2);
        },
        (Option::Some(b1), Option::None) => {
            let code2 = n2->Custom_0;
            lemma_fmt_custom(t, code2);
            assert(b1 < 164);
            assert(id2 as int >= 164);
        },
        (Option::None, Option::Some(b2)) => {
            let code1 = n1->Custom_0;
            lemma_fmt_custom(s, code1);
            assert(id1 as int >= 164);
            assert(b2 < 164);
        },
        (Option::None, Option::None) => {
            let code1 = n1->Custom_0;
            let code2 = n2->Custom_0;
            assert(code1 != code2);
            lemma_fmt_custom(s, code1);
            let p1 = fmt_pos(s, code1);
            let p2 = fmt_pos(t, code2);
            lemma_fmt_custom(t, code2);
            let t2 = fmt_intern_seq(t, NumFmtV::Custom(code2));
            assert(t[p1].1 == code1);
            assert(t2[p2].1 == code2);
            if id1 == id2 {
                assert(p1 == p2);
                assert(t2[p1] == t[p1]);
                assert(false);
            }
        },
    }
}

/// Law: registering the same style content twice returns the same index and
/// leaves the registry as the first registration left it.
pub proof fn lemma_register_idempotent(m: RegV, s: StyleV)
    requires
        reg_wf(m),
        has_custom_room(m),
    ensures
        register_spec(register_spec(m, s).1, s).0 == register_spec(m, s).0,
        register_spec(register_spec(m, s).1, s).1 == register_spec(m, s).1,
{
    let m1 = register_spec(m, s).1;
    lemma_intern_slot(m.fonts, s.font);
    lemma_intern_slot(m.fills, s.fill);
    lemma_intern_slot(m.borders, s.border);
    assert(m1.fonts.contains(s.font)) by {
        assert(m1.fonts[intern_index(m.fonts, s.font)] == s.font);
    }
    assert(m1.fills.contains(s.fill)) by {
        assert(m1.fills[intern_index(m.fills, s.fill)] == s.fill);
    }
    assert(m1.borders.contains(s.border)) by {
        assert(m1.borders[intern_index(m.borders, s.border)] == s.border);
    }
    match builtin_id_of(s.number_format) {
        Option::Some(_) => {},
        Option::None => {
            let code = s.number_format->Custom_0;
            lemma_fmt_custom(m.num_fmts, code);
            let p = fmt_pos(m.num_fmts, code);
            assert(m1.num_fmts[p].1 == code);
            assert(custom_contains(m1.num_fmts, code));
            if custom_contains(m.num_fmts, code) {
            } else {
                assert(forall|j: int| 0 <= j < m.num_fmts.len() ==> m1.num_fmts[j].1 != code);
                lemma_custom_find_at(m1.num_fmts, code, m.num_fmts.len() as int);
            }
            lemma_custom_find_first(m1.num_fmts, code);
            assert(custom_find(m1.num_fmts, code) == p) by {
                if custom_contains(m.num_fmts, code) {
                    lemma_custom_find_first(m.num_fmts, code);
                    lemma_custom_find_at(m1.num_fmts, code, custom_find(m.num_fmts, code));
                }
            }
        },
    }
    let key = (
        intern_index(m.fonts, s.font),
        intern_index(m.fills, s.fill),
        intern_index(m.borders, s.border),
        fmt_intern_id(m.num_fmts, s.number_format),
    );
    lemma_intern_slot(m.xfs, key);
    assert(m1.xfs.contains(key)) by {
        assert(m1.xfs[intern_index(m.xfs, key)] == key);
    }
}

/// Law: two structurally distinct styles register to distinct indices, also
/// across the mutation the first registration makes.
pub proof fn lemma_register_distinct(m: RegV, s1: StyleV, s2: StyleV)
    requires
        reg_wf(m),
        has_custom_room(m),
        s1 != s2,
    ensures
        register_spec(register_spec(m, s1).1, s2).0 != register_spec(m, s1).0,
{
    let m1 = register_spec(m, s1).1;
    let i1 = register_spec(m, s1).0;
    let i2 = register_spec(m1, s2).0;
    let fid1 = intern_index(m.fonts, s1.font);
    let fid2 = intern_index(m1.fonts, s2.font);
    let lid1 = intern_index(m.fills, s1.fill);
    let lid2 = intern_index(m1.fills, s2.fill);
    let bid1 = intern_index(m.borders, s1.border);
    let bid2 = intern_index(m1.borders, s2.border);
    let nid1 = fmt_intern_id(m.num_fmts, s1.number_format);
    let nid2 = fmt_intern_id(m1.num_fmts, s2.number_format);
    let key1 = (fid1, lid1, bid1, nid1);
    let key2 = (fid2, lid2, bid2, nid2);
    lemma_intern_slot(m.fonts, s1.font);
    lemma_intern_slot(m1.fonts, s2.font);
    lemma_intern_slot(m.fills, s1.fill);
    lemma_intern_slot(m1.fills, s2.fill);
    lemma_intern_slot(m.borders, s1.border);
    lemma_intern_slot(m1.borders, s2.border);
    if s1.font != s2.font {
        if fid1 == fid2 {
            assert(intern_seq(m1.fonts, s2.font)[fid1] == m1.fonts[fid1]);
            assert(false);
        }
    } else if s1.fill != s2.fill {
        if lid1 == lid2 {
            assert(intern_seq(m1.fills, s2.fill)[lid1] == m1.fills[lid1]);
            assert(false);
        }
    } else if s1.border != s2.border {
        if bid1 == bid2 {
            assert(intern_seq(m1.borders, s2.border)[bid1] == m1.borders[bid1]);
            assert(false);
        }
    } else {
        assert(s1.number_format != s2.number_format);
        lemma_fmt_ids_distinct(m.num_fmts, s1.number_format, s2.number_format);
        assert(nid1 != nid2);
    }
    assert(key1 != key2);
    lemma_intern_slot(m.xfs, key1);
    lemma_intern_slot(m1.xfs, key2);
    if i1 == i2 {
        assert(m1.xfs[i1] == key1);
        assert(intern_seq(m1.xfs, key2)[i2] == key2);
        assert(intern_seq(m1.xfs, key2)[i1] == m1.xfs[i1]);
        assert(false);
    }
}

/// Law: on any well-formed registry, the all-default style registers as
/// index zero and changes nothing.
pub proof fn lemma_register_default(m: RegV)
    requires
        reg_wf(m),
    ensures
        register_spec(m, default_style()).0 == 0,
        register_spec(m, default_style()).1 == m,
{
    let s = default_style();
    assert(m.fonts.contains(s.font)) by {
        assert(m.fonts[0] == s.font);
    }
    assert(m.fills.contains(s.fill)) by {
        assert(m.fills[0] == s.fill);
    }
    assert(m.borders.contains(s.border)) by {
        assert(m.borders[0] == s.border);
    }
    assert(seq_find(m.fonts, s.font) == 0);
    assert(seq_find(m.fills, s.fill) == 0);
    assert(seq_find(m.borders, s.border) == 0);
    assert(fmt_intern_id(m.num_fmts, s.number_format) == 0);
    let key = (0int, 0int, 0int, 0u32);
    assert(m.xfs.contains(key)) by {
        assert(m.xfs[0] == key);
    }
    assert(seq_find(m.xfs, key) == 0);
    assert(intern_seq(m.fonts, s.font) == m.fonts);
    assert(intern_seq(m.fills, s.fill) == m.fills);
    assert(intern_seq(m.borders, s.border) == m.borders);
    assert(intern_seq(m.xfs, key) == m.xfs);
}

// ---------------------------------------------------------------------------
// Serialization of the registry to the style part.
// ---------------------------------------------------------------------------

/// One custom number-format declaration.
pub open spec fn num_fmt_item_text(e: (u32, Seq<char>)) -> Seq<char> {
    "<numFmt numFmtId=\""@ + dec_str(e.0 as int) + "\" formatCode=\""@ + e.1 + "\"/>\n"@
}

/// The custom number-format declarations, in id order.
pub open spec fn num_fmt_items_text(s: Seq<(u32, Seq<char>)>) -> Seq<char>
    decreases s.len(),
{
    if s.len() == 0 {
        Seq::<char>::empty()
    } else {
        num_fmt_items_text(s.drop_last()) + num_fmt_item_text(s.last())
    }
}

/// The number-formats section: self-closed when empty.
pub open spec fn num_fmts_xml_text(s: Seq<(u32, Seq<char>)>) -> Seq<char> {
    if s.len() == 0 {
        "<numFmts count=\"0\"/>\n"@
    } else {
        "<numFmts count=\""@ + dec_str(s.len() as int) + "\">\n"@ + num_fmt_items_text(s)
            + "</numFmts>\n"@
    }
}

/// The font table entries, in id order.
pub open spec fn font_items_text(s: Seq<FontV>) -> Seq<char>
    decreases s.len(),
{
    if s.len() == 0 {
        Seq::<char>::empty()
    } else {
        font_items_text(s.drop_last()) + font_xml_text(s.last()) + "\n"@
    }
}

/// The fill table entries, in id order, with slot 1 rendered as the
/// container's fixed system pattern.
pub open spec fn fill_items_text(s: Seq<FillV>) -> Seq<char>
    decreases s.len(),
{
    if s.len() == 0 {
        Seq::<char>::empty()
    } else {
        fill_items_text(s.drop_last()) + (if s.len() - 1 == 1 {
            "<fill><patternFill patternType=\"gray125\"/></fill>\n"@
        } else {
            fill_xml_text(s.last()) + "\n"@
        })
    }
}

/// The border table entries, in id order.
pub open spec fn border_items_text(s: Seq<BorderV>) -> Seq<char>
    decreases s.len(),
{
    if s.len() == 0 {
        Seq::<char>::empty()
    } else {
        border_items_text(s.drop_last()) + border_xml_text(s.last()) + "\n"@
    }
}

/// One composite cell-format record, referencing its four component ids.
pub open spec fn xf_item_text(t: (int, int, int, u32)) -> Seq<char> {
    "<xf numFmtId=\""@ + dec_str(t.3 as int) + "\" fontId=\""@ + dec_str(t.0) + "\" fillId=\""@
        + dec_str(t.1) + "\" borderId=\""@ + dec_str(t.2) + "\" xfId=\"0\"/>\n"@
}

/// The composite cell-format records, in id order.
pub open spec fn xf_items_text(s: Seq<(int, int, int, u32)>) -> Seq<char>
    decreases s.len(),
{
    if s.len() == 0 {
        Seq::<char>::empty()
    } else {
        xf_items_text(s.drop_last()) + xf_item_text(s.last())
    }
}

/// The whole style part: number formats, fonts, fills, borders, the single
/// default cell-style format, the composite table, and the default cell
/// style, in that order, every table in id order.
pub open spec fn styles_xml_text(m: RegV) -> Seq<char> {
    "<?xml version=\"1.0\" encoding=\"UTF-8\" standalone=\"yes\"?>\n"@
        + "<styleSheet xmlns=\"http://schemas.openxmlformats.org/spreadsheetml/2006/main\">\n"@
        + num_fmts_xml_text(m.num_fmts) + "<fonts count=\""@ + dec_str(m.fonts.len() as int)
        + "\">\n"@ + font_items_text(m.fonts) + "</fonts>\n"@ + "<fills count=\""@ + dec_str(
        m.fills.len() as int,
    ) + "\">\n"@ + fill_items_text(m.fills) + "</fills>\n"@ + "<borders count=\""@ + dec_str(
        m.borders.len() as int,
    ) + "\">\n"@ + border_items_text(m.borders) + "</borders>\n"@
        + "<cellStyleXfs count=\"1\">\n"@
        + "<xf numFmtId=\"0\" fontId=\"0\" fillId=\"0\" borderId=\"0\"/>\n"@
        + "</cellStyleXfs>\n"@ + "<cellXfs count=\""@ + dec_str(m.xfs.len() as int) + "\">\n"@
        + xf_items_text(m.xfs) + "</cellXfs>\n"@ + "<cellStyles count=\"1\">\n"@
        + "<cellStyle name=\"Normal\" xfId=\"0\" builtinId=\"0\"/>\n"@ + "</cellStyles>\n"@
        + "</styleSheet>"@
}

impl StyleRegistry {
    /// Serializes the registry as the package's style part.
    #[verifier::rlimit(50)]
    pub fn to_xml(&self) -> (r: String)
        ensures
            r@ == styles_xml_text(self@),
    {
        let mut out = String::new();
        out.append("<?xml version=\"1.0\" encoding=\"UTF-8\" standalone=\"yes\"?>\n");
        out.append(
            "<styleSheet xmlns=\"http://schemas.openxmlformats.org/spreadsheetml/2006/main\">\n",
        );
        let nf = self.num_fmts.len();
        if nf == 0 {
            out.append("<numFmts count=\"0\"/>\n");
        } else {
            out.append("<numFmts count=\"");
            let c = usize_to_string(nf);
            out.append(c.as_str());
            out.append("\">\n");
            let ghost table = self@.num_fmts;
            let mut i: usize = 0;
            while i < nf
                invariant
                    nf == self.num_fmts@.len(),
                    i <= nf,
                    table == self@.num_fmts,
                    out@ == "<?xml version=\"1.0\" encoding=\"UTF-8\" standalone=\"yes\"?>\n"@
                        + "<styleSheet xmlns=\"http://schemas.openxmlformats.org/spreadsheetml/2006/main\">\n"@
                        + "<numFmts count=\""@ + dec_str(nf as int) + "\">\n"@
                        + num_fmt_items_text(table.take(i as int)),
                decreases nf - i,
            {
                out.append("<numFmt numFmtId=\"");
                let id = u32_to_string(self.num_fmts[i].0);
                out.append(id.as_str());
                out.append("\" formatCode=\"");
                out.append(self.num_fmts[i].1.as_str());
                out.append("\"/>\n");
                proof {
                    assert(table[i as int] == (
                        self.num_fmts@[i as int].0,
                        self.num_fmts@[i as int].1@,
                    ));
                    assert(table.take(i + 1).drop_last() =~= table.take(i as int));
                    assert(table.take(i + 1).last() == table[i as int]);
                }
                i = i + 1;
            }
            proof {
                assert(table.take(nf as int) =~= table);
            }
            out.append("</numFmts>\n");
        }
        let ghost pre_fonts = out@;
        proof {
            assert(pre_fonts == "<?xml version=\"1.0\" encoding=\"UTF-8\" standalone=\"yes\"?>\n"@
                + "<styleSheet xmlns=\"http://schemas.openxmlformats.org/spreadsheetml/2006/main\">\n"@
                + num_fmts_xml_text(self@.num_fmts));
        }
        out.append("<fonts count=\"");
        let cf = usize_to_string(self.fonts.len());
        out.append(cf.as_str());
        out.append("\">\n");
        let ghost fonts = self@.fonts;
        let n1 = self.fonts.len();
        let mut i: usize = 0;
        while i < n1
            invariant
                n1 == self.fonts@.len(),
                i <= n1,
                fonts == self@.fonts,
                out@ == pre_fonts + "<fonts count=\""@ + dec_str(n1 as int) + "\">\n"@
                    + font_items_text(fonts.take(i as int)),
            decreases n1 - i,
        {
            let fx = self.fonts[i].to_xml();
            out.append(fx.as_str());
            out.append("\n");
            proof {
                assert(fonts[i as int] == self.fonts@[i as int]@);
                assert(fonts.take(i + 1).drop_last() =~= fonts.take(i as int));
                assert(fonts.take(i + 1).last() == fonts[i as int]);
            }
            i = i + 1;
        }
        proof {
            assert(fonts.take(n1 as int) =~= fonts);
        }
        out.append("</fonts>\n");
        let ghost pre_fills = out@;
        out.append("<fills count=\"");
        let cl = usize_to_string(self.fills.len());
        out.append(cl.as_str());
        out.append("\">\n");
        let ghost fills = self@.fills;
        let n2 = self.fills.len();
        let mut i: usize = 0;
        while i < n2
            invariant
                n2 == self.fills@.len(),
                i <= n2,
                fills == self@.fills,
                out@ == pre_fills + "<fills count=\""@ + dec_str(n2 as int) + "\">\n"@
                    + fill_items_text(fills.take(i as int)),
            decreases n2 - i,
        {
            if i == 1 {
                out.append("<fill><patternFill patternType=\"gray125\"/></fill>\n");
            } else {
                let fx = self.fills[i].to_xml();
                out.append(fx.as_str());
                out.append("\n");
            }
            proof {
                assert(fills[i as int] == self.fills@[i as int]@);
                assert(fills.take(i + 1).drop_last() =~= fills.take(i as int));
                assert(fills.take(i + 1).last() == fills[i as int]);
                assert(fills.take(i + 1).len() - 1 == i as int);
            }
            i = i + 1;
        }
        proof {
            assert(fills.take(n2 as int) =~= fills);
        }
        out.append("</fills>\n");
        let ghost pre_borders = out@;
        out.append("<borders count=\"");
        let cb = usize_to_string(self.borders.len());
        out.append(cb.as_str());
        out.append("\">\n");
        let ghost borders = self@.borders;
        let n3 = self.borders.len();
        let mut i: usize = 0;
        while i < n3
            invariant
                n3 == self.borders@.len(),
                i <= n3,
                borders == self@.borders,
                out@ == pre_borders + "<borders count=\""@ + dec_str(n3 as int) + "\">\n"@
                    + border_items_text(borders.take(i as int)),
            decreases n3 - i,
        {
            let bx = self.borders[i].to_xml();
            out.append(bx.as_str());
            out.append("\n");
            proof {
                assert(borders[i as int] == self.borders@[i as int]@);
                assert(borders.take(i + 1).drop_last() =~= borders.take(i as int));
                assert(borders.take(i + 1).last() == borders[i as int]);
            }
            i = i + 1;
        }
        proof {
            assert(borders.take(n3 as int) =~= borders);
        }
        out.append("</borders>\n");
        out.append("<cellStyleXfs count=\"1\">\n");
        out.append("<xf numFmtId=\"0\" fontId=\"0\" fillId=\"0\" borderId=\"0\"/>\n");
        out.append("</cellStyleXfs>\n");
        let ghost pre_xfs = out@;
        out.append("<cellXfs count=\"");
        let cx = usize_to_string(self.xfs.len());
        out.append(cx.as_str());
        out.append("\">\n");
        let ghost xfs = self@.xfs;
        let n4 = self.xfs.len();
        let mut i: usize = 0;
        while i < n4
            invariant
                n4 == self.xfs@.len(),
                i <= n4,
                xfs == self@.xfs,
                out@ == pre_xfs + "<cellXfs count=\""@ + dec_str(n4 as int) + "\">\n"@
                    + xf_items_text(xfs.take(i as int)),
            decreases n4 - i,
        {
            let entry = self.xfs[i];
            out.append("<xf numFmtId=\"");
            let a = u32_to_string(entry.3);
            out.append(a.as_str());
            out.append("\" fontId=\"");
            let b = usize_to_string(entry.0);
            out.append(b.as_str());
            out.append("\" fillId=\"");
            let c2 = usize_to_string(entry.1);
            out.append(c2.as_str());
            out.append("\" borderId=\"");
            let d = usize_to_string(entry.2);
            out.append(d.as_str());
            out.append("\" xfId=\"0\"/>\n");
            proof {
                assert(entry == self.xfs@[i as int]);
                assert(xfs[i as int] == (
                    entry.0 as int,
                    entry.1 as int,
                    entry.2 as int,
                    entry.3,
                ));
                assert(xfs.take(i + 1).drop_last() =~= xfs.take(i as int));
                assert(xfs.take(i + 1).last() == xfs[i as int]);
            }
            i = i + 1;
        }
        proof {
            assert(xfs.take(n4 as int) =~= xfs);
        }
        out.append("</cellXfs>\n");
        out.append("<cellStyles count=\"1\">\n");
        out.append("<cellStyle name=\"Normal\" xfId=\"0\" builtinId=\"0\"/>\n");
        out.append("</cellStyles>\n");
        out.append("</styleSheet>");
        out
    }
}

} // verus!
