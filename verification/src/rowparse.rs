use vstd::prelude::*;

use crate::textutil::{parse_index, parsed_index, str_eq};

verus! {

// ---------------------------------------------------------------------------
// Cell types, as declared by a cell's type attribute.
// ---------------------------------------------------------------------------

/// The declared type of a cell in sheet XML; an absent or unknown attribute
/// counts as numeric.
#[derive(Debug, Clone, Copy, PartialEq, Eq, Structural)]
pub enum CellType {
    Number,
    SharedStr,
    Inline,
    Bool,
    Str,
    Error,
}

/// The cell type a type attribute value declares.
pub open spec fn cell_type_of(t: Seq<char>) -> CellType {
    if t == "s"@ {
        CellType::SharedStr
    } else if t == "inlineStr"@ {
        CellType::Inline
    } else if t == "b"@ {
        CellType::Bool
    } else if t == "str"@ {
        CellType::Str
    } else if t == "e"@ {
        CellType::Error
    } else {
        CellType::Number
    }
}

/// Maps a type attribute value to its cell type.
pub fn cell_type_from(t: &str) -> (r: CellType)
    ensures
        r == cell_type_of(t@),
{
    if str_eq(t, "s") {
        CellType::SharedStr
    } else if str_eq(t, "inlineStr") {
        CellType::Inline
    } else if str_eq(t, "b") {
        CellType::Bool
    } else if str_eq(t, "str") {
        CellType::Str
    } else if str_eq(t, "e") {
        CellType::Error
    } else {
        CellType::Number
    }
}

// ---------------------------------------------------------------------------
// Whitespace trimming of accumulated cell text.
// ---------------------------------------------------------------------------

/// The whitespace the row reader trims from a cell's accumulated text.
pub open spec fn is_space(c: char) -> bool {
    c == ' ' || c == '\t' || c == '\n' || c == '\r'
}

/// `s` without leading whitespace.
pub open spec fn trim_front(s: Seq<char>) -> Seq<char>
    decreases s.len(),
{
    if s.len() > 0 && is_space(s[0]) {
        trim_front(s.skip(1))
    } else {
        s
    }
}

/// `s` without trailing whitespace.
pub open spec fn trim_back(s: Seq<char>) -> Seq<char>
    decreases s.len(),
{
    if s.len() > 0 && is_space(s.last()) {
        trim_back(s.drop_last())
    } else {
        s
    }
}

/// `s` without leading and trailing whitespace.
pub open spec fn trimmed(s: Seq<char>) -> Seq<char> {
    trim_back(trim_front(s))
}

/// Trims leading and trailing whitespace.
pub fn trim_text(s: &str) -> (r: String)
    ensures
        r@ == trimmed(s@),
{
    let n = s.unicode_len();
    let mut start: usize = 0;
    proof {
        assert(s@.skip(0) =~= s@);
    }
    loop
        invariant
            n == s@.len(),
            start <= n,
            trim_front(s@) == trim_front(s@.skip(start as int)),
        ensures
            start <= n == s@.len(),
            trim_front(s@) == s@.skip(start as int),
        decreases n - start,
    {
        if start >= n {
            proof {
                assert(s@.skip(start as int) =~= Seq::<char>::empty());
            }
            break;
        }
        let c = s.get_char(start);
        if !(c == ' ' || c == '\t' || c == '\n' || c == '\r') {
            proof {
                assert(s@.skip(start as int)[0] == s@[start as int]);
            }
            break;
        }
        proof {
            assert(s@.skip(start as int)[0] == s@[start as int]);
            assert(s@.skip(start as int).skip(1) =~= s@.skip(start + 1));
        }
        start = start + 1;
    }
    let ghost front = s@.skip(start as int);
    let mut end: usize = n;
    proof {
        assert(front.take(n - start) =~= front);
    }
    loop
        invariant
            n == s@.len(),
            start <= end <= n,
            front == s@.skip(start as int),
            trim_front(s@) == front,
            trim_back(front) == trim_back(front.take(end - start)),
        ensures
            start <= end <= n == s@.len(),
            trim_back(front) == front.take(end - start),
            trimmed(s@) == s@.subrange(start as int, end as int),
        decreases end,
    {
        if end <= start {
            proof {
                assert(front.take(0) =~= Seq::<char>::empty());
                assert(front.take(end - start) =~= s@.subrange(start as int, end as int));
            }
            break;
        }
        let c = s.get_char(end - 1);
        if !(c == ' ' || c == '\t' || c == '\n' || c == '\r') {
            proof {
                let cur = front.take(end - start);
                assert(cur.last() == front[end - start - 1]);
                assert(front[end - start - 1] == s@[end - 1]);
                assert(trim_back(cur) == cur);
                assert(cur =~= s@.subrange(start as int, end as int));
            }
            break;
        }
        proof {
            let cur = front.take(end - start);
            assert(cur.last() == front[end - start - 1]);
            assert(front[end - start - 1] == s@[end - 1]);
            assert(cur.drop_last() =~= front.take(end - 1 - start));
        }
        end = end - 1;
    }
    if start >= end {
        proof {
            assert(trimmed(s@) =~= Seq::<char>::empty());
        }
        return String::new();
    }
    let piece = s.substring_char(start, end);
    piece.to_owned()
}

// ---------------------------------------------------------------------------
// Cell value resolution.
// ---------------------------------------------------------------------------

/// The views of a string list.
pub open spec fn strings_view(s: Seq<String>) -> Seq<Seq<char>> {
    s.map_values(|x: String| x@)
}

/// The text a finished cell contributes to its row: a shared-string cell
/// resolves its index into the table, with an out-of-range or unparseable
/// index giving the empty string, not a failure; a boolean cell maps 1 to
/// TRUE and anything else to FALSE; every other type keeps its trimmed
/// text.
pub open spec fn resolved_value(t: CellType, raw: Seq<char>, shared: Seq<Seq<char>>) -> Seq<char> {
    match t {
        CellType::SharedStr => match parsed_index(raw) {
            Option::Some(i) => if i < shared.len() {
                shared[i]
            } else {
                Seq::<char>::empty()
            },
            Option::None => Seq::<char>::empty(),
        },
        CellType::Bool => if raw == "1"@ {
            "TRUE"@
        } else {
            "FALSE"@
        },
        _ => raw,
    }
}

/// Resolves a finished cell's trimmed text by its declared type.
pub fn resolve_value(t: CellType, raw: &str, shared: &Vec<String>) -> (r: String)
    ensures
        r@ == resolved_value(t, raw@, strings_view(shared@)),
{
    match t {
        CellType::SharedStr => match parse_index(raw) {
            Option::Some(idx) => {
                if idx < shared.len() {
                    proof {
                        assert(strings_view(shared@)[idx as int] == shared@[idx as int]@);
                    }
                    shared[idx].clone()
                } else {
                    String::new()
                }
            },
            Option::None => String::new(),
        },
        CellType::Bool => {
            if str_eq(raw, "1") {
                let mut out = String::new();
                out.append("TRUE");
                out
            } else {
                let mut out = String::new();
                out.append("FALSE");
                out
            }
        },
        _ => raw.to_owned(),
    }
}

/// Law: a declared shared-string index at or beyond the table's length, or
/// one that does not parse at all, resolves to the empty string, never a
/// failure.
pub proof fn lemma_shared_string_bounds(raw: Seq<char>, shared: Seq<Seq<char>>)
    requires
        parsed_index(raw) is None || parsed_index(raw)->Some_0 >= shared.len(),
    ensures
        resolved_value(CellType::SharedStr, raw, shared) == Seq::<char>::empty(),
{
}

// ---------------------------------------------------------------------------
// The per-row reconstruction state machine.
// ---------------------------------------------------------------------------

/// The reader's in-progress row: the cells resolved so far, the current
/// cell's column and type, the expected next column, and the accumulation
/// state for value and inline text.
pub struct ParseState {
    /// The resolved cell texts of the row in progress.
    pub row: Vec<String>,
    /// The current cell's 0-based column.
    pub col: u32,
    /// The column the next cell is expected at; gaps are padded.
    pub next_col: u32,
    /// The current cell's declared type.
    pub cell_type: CellType,
    /// Whether the scanner is inside a value element.
    pub in_v: bool,
    /// Whether the scanner is inside a text element.
    pub in_t: bool,
    /// The raw text accumulated for the current cell.
    pub value_buf: String,
    /// Whether a row element is open.
    pub in_row: bool,
}

/// The mathematical shape of the reader's in-progress row state.
pub struct PStateV {
    pub row: Seq<Seq<char>>,
    pub col: int,
    pub next_col: int,
    pub cell_type: CellType,
    pub in_v: bool,
    pub in_t: bool,
    pub value_buf: Seq<char>,
    pub in_row: bool,
}

impl View for ParseState {
    type V = PStateV;

    open spec fn view(&self) -> PStateV {
        PStateV {
            row: strings_view(self.row@),
            col: self.col as int,
            next_col: self.next_col as int,
            cell_type: self.cell_type,
            in_v: self.in_v,
            in_t: self.in_t,
            value_buf: self.value_buf@,
            in_row: self.in_row,
        }
    }
}

/// The state of a freshly opened row stream, before any row is entered.
pub open spec fn fresh_pstate() -> PStateV {
    PStateV {
        row: Seq::<Seq<char>>::empty(),
        col: 0,
        next_col: 0,
        cell_type: CellType::Number,
        in_v: false,
        in_t: false,
        value_buf: Seq::<char>::empty(),
        in_row: false,
    }
}

/// The row buffer after padding up to a declared column: empty cells fill
/// every skipped position.
pub open spec fn padded(row: Seq<Seq<char>>, next: int, col: int) -> Seq<Seq<char>> {
    if col > next {
        row + Seq::new((col - next) as nat, |i: int| Seq::<char>::empty())
    } else {
        row
    }
}

impl ParseState {
    /// A fresh state, before any row has been entered.
    pub fn new() -> (r: Self)
        ensures
            r@ == fresh_pstate(),
    {
        let r = ParseState {
            row: Vec::new(),
            col: 0,
            next_col: 0,
            cell_type: CellType::Number,
            in_v: false,
            in_t: false,
            value_buf: String::new(),
            in_row: false,
        };
        proof {
            assert(strings_view(r.row@) =~= Seq::<Seq<char>>::empty());
            assert(r.value_buf@ =~= Seq::<char>::empty());
        }
        r
    }

    /// Entering a row element: the buffer and the expected column reset.
    pub fn on_row_start(&mut self)
        ensures
            final(self).row@.len() == 0,
            final(self).next_col == 0,
            final(self).in_row,
            final(self).col == old(self).col,
            final(self).cell_type == old(self).cell_type,
            final(self).in_v == old(self).in_v,
            final(self).in_t == old(self).in_t,
            final(self).value_buf == old(self).value_buf,
    {
        self.row.clear();
        self.next_col = 0;
        self.in_row = true;
    }

    /// Entering a cell element at a declared column: skipped columns become
    /// empty cells, and the accumulation state resets for the new cell.
    pub fn on_cell_start(&mut self, col: u32, t: CellType)
        ensures
            strings_view(final(self).row@) == padded(
                strings_view(old(self).row@),
                old(self).next_col as int,
                col as int,
            ),
            final(self).next_col == (if col > old(self).next_col {
                col
            } else {
                old(self).next_col
            }),
            final(self).col == col,
            final(self).cell_type == t,
            final(self).value_buf@.len() == 0,
            !final(self).in_v,
            !final(self).in_t,
            final(self).in_row == old(self).in_row,
    {
        let ghost pre = strings_view(self.row@);
        let ghost next0 = self.next_col;
        while self.next_col < col
            invariant
                next0 <= self.next_col,
                self.next_col <= col || self.next_col == next0,
                strings_view(self.row@) == padded(pre, next0 as int, self.next_col as int),
                self.col == old(self).col,
                self.cell_type == old(self).cell_type,
                self.in_v == old(self).in_v,
                self.in_t == old(self).in_t,
                self.value_buf == old(self).value_buf,
                self.in_row == old(self).in_row,
            decreases col - self.next_col,
        {
            let ghost before = strings_view(self.row@);
            self.row.push(String::new());
            self.next_col = self.next_col + 1;
            proof {
                assert(strings_view(self.row@) =~= before.push(Seq::<char>::empty()));
                assert(strings_view(self.row@) =~= padded(pre, next0 as int, self.next_col as int));
            }
        }
        proof {
            assert(strings_view(self.row@) == padded(pre, next0 as int, (if col > next0 {
                col
            } else {
                next0
            }) as int));
            if col <= next0 {
                assert(padded(pre, next0 as int, col as int) == pre);
            }
        }
        self.col = col;
        self.cell_type = t;
        self.value_buf = String::new();
        self.in_v = false;
        self.in_t = false;
    }

    /// Leaving a cell element: the accumulated text resolves by the cell's
    /// type and joins the row, and the expected column advances past this
    /// cell.
    pub fn on_cell_end(&mut self, shared: &Vec<String>)
        ensures
            strings_view(final(self).row@) == strings_view(old(self).row@).push(
                resolved_value(
                    old(self).cell_type,
                    trimmed(old(self).value_buf@),
                    strings_view(shared@),
                ),
            ),
            final(self).next_col == (if old(self).col < u32::MAX {
                (old(self).col + 1) as u32
            } else {
                u32::MAX
            }),
            final(self).col == old(self).col,
            final(self).cell_type == old(self).cell_type,
            final(self).in_v == old(self).in_v,
            final(self).in_t == old(self).in_t,
            final(self).value_buf == old(self).value_buf,
            final(self).in_row == old(self).in_row,
    {
        let ghost pre = strings_view(self.row@);
        let raw = trim_text(self.value_buf.as_str());
        let value = resolve_value(self.cell_type, raw.as_str(), shared);
        self.row.push(value);
        if self.col < u32::MAX {
            self.next_col = self.col + 1;
        } else {
            self.next_col = u32::MAX;
        }
        proof {
            assert(strings_view(self.row@) =~= pre.push(
                resolved_value(
                    old(self).cell_type,
                    trimmed(old(self).value_buf@),
                    strings_view(shared@),
                ),
            ));
        }
    }

    /// Leaving a row element: a non-empty buffer comes out as one finished
    /// row; a row that declared no cells yields nothing.
    pub fn on_row_end(&mut self) -> (r: Option<Vec<String>>)
        ensures
            match r {
                Option::Some(cells) => old(self).in_row && old(self).row@.len() > 0 && cells
                    == old(self).row && final(self).row@.len() == 0 && !final(self).in_row
                    && final(self).col == old(self).col
                    && final(self).next_col == old(self).next_col
                    && final(self).cell_type == old(self).cell_type
                    && final(self).in_v == old(self).in_v
                    && final(self).in_t == old(self).in_t
                    && final(self).value_buf == old(self).value_buf,
                Option::None => (!old(self).in_row || old(self).row@.len() == 0) && *final(self)
                    == *old(self),
            },
    {
        if self.in_row && self.row.len() > 0 {
            self.in_row = false;
            let mut cells: Vec<String> = Vec::new();
            std::mem::swap(&mut cells, &mut self.row);
            Option::Some(cells)
        } else {
            Option::None
        }
    }
}

/// Law: a row whose first declared cell sits at column `c` comes back with
/// `c` leading empty cells before that cell's value: its length is at least
/// `c + 1` and every earlier position is the empty string.
pub proof fn lemma_row_sparsity(c: int, v: Seq<char>)
    requires
        c >= 0,
    ensures
        ({
            let row = padded(Seq::<Seq<char>>::empty(), 0, c).push(v);
            &&& row.len() == c + 1
            &&& (forall|j: int| 0 <= j < c ==> row[j] == Seq::<char>::empty())
            &&& row[c] == v
        }),
{
    let row = padded(Seq::<Seq<char>>::empty(), 0, c).push(v);
    if c > 0 {
        assert(forall|j: int|
            0 <= j < c ==> #[trigger] row[j] == (Seq::<Seq<char>>::empty() + Seq::new(
                c as nat,
                |i: int| Seq::<char>::empty(),
            ))[j]);
    }
}

} // verus!
