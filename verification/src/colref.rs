use vstd::prelude::*;

use crate::textutil::{dec_str, push_char, u32_to_string};

verus! {

// ---------------------------------------------------------------------------
// Column letter encoding: bijective base 26 over A..Z with no zero digit.
// ---------------------------------------------------------------------------

/// The letter for one base-26 digit value (0 is 'A', 25 is 'Z').
pub open spec fn col_letter(k: int) -> char {
    ((65 + k) as u8) as char
}

/// The letter encoding of a 0-based column index: repeatedly pick the letter
/// for `n % 26`, then continue with `n / 26 - 1`, most significant letter
/// first.
pub open spec fn col_letters(n: int) -> Seq<char>
    decreases n,
{
    if n < 26 {
        seq![col_letter(if n < 0 { 0 } else { n % 26 })]
    } else {
        col_letters(n / 26 - 1).push(col_letter(n % 26))
    }
}

/// The numeric value of a letter run: each letter contributes its alphabet
/// position (1 for 'A'), in base 26. The encoded index is this value minus
/// one.
pub open spec fn letters_value(s: Seq<char>) -> int
    decreases s.len(),
{
    if s.len() == 0 {
        0
    } else {
        letters_value(s.drop_last()) * 26 + (s.last() as int - 64)
    }
}

/// Whether every character of `s` is an upper-case ASCII letter.
pub open spec fn all_upper(s: Seq<char>) -> bool {
    forall|i: int| 0 <= i < s.len() ==> 'A' <= #[trigger] s[i] && s[i] <= 'Z'
}

/// `s` with any trailing decimal digits removed.
pub open spec fn strip_digits(s: Seq<char>) -> Seq<char>
    decreases s.len(),
{
    if s.len() > 0 && '0' <= s.last() && s.last() <= '9' {
        strip_digits(s.drop_last())
    } else {
        s
    }
}

/// The 0-based column index a cell reference stands for: trailing row digits
/// stripped, the remaining letters folded as base 26 with an implicit plus
/// one per letter, minus one at the end. An empty, malformed or oversized
/// letter run counts as column zero.
pub open spec fn col_index_of(r: Seq<char>) -> int {
    if strip_digits(r).len() == 0 {
        0
    } else if all_upper(strip_digits(r)) && letters_value(strip_digits(r)) - 1 <= u32::MAX as int {
        letters_value(strip_digits(r)) - 1
    } else {
        0
    }
}

/// Encodes a 0-based column index as its letter run.
pub fn col_to_letters(col: u32) -> (r: String)
    ensures
        r@ == col_letters(col as int),
{
    let mut rev: Vec<char> = Vec::new();
    let mut c: u32 = col;
    loop
        invariant_except_break
            col_letters(col as int) == col_letters(c as int) + rev@.reverse(),
        ensures
            col_letters(col as int) == rev@.reverse(),
        decreases c,
    {
        let d: u8 = 65 + (c % 26) as u8;
        let ghost pre = rev@;
        rev.push(d as char);
        proof {
            assert(rev@.reverse() =~= seq![col_letter(c as int % 26)] + pre.reverse());
        }
        if c < 26 {
            proof {
                assert(col_letters(c as int) =~= seq![col_letter(c as int % 26)]);
                assert(col_letters(col as int) =~= rev@.reverse());
            }
            break;
        }
        proof {
            assert(col_letters(c as int) == col_letters(c as int / 26 - 1).push(
                col_letter(c as int % 26),
            ));
            assert(col_letters(c as int / 26 - 1) + rev@.reverse() =~= col_letters(c as int)
                + pre.reverse());
        }
        c = c / 26 - 1;
    }
    let mut out = String::new();
    let mut k: usize = rev.len();
    proof {
        assert(out@ =~= rev@.reverse().take(rev@.len() - k));
    }
    while k > 0
        invariant
            k <= rev.len(),
            col_letters(col as int) == rev@.reverse(),
            out@ == rev@.reverse().take(rev@.len() - k),
        decreases k,
    {
        let ch = rev[k - 1];
        push_char(&mut out, ch);
        proof {
            let r = rev@.reverse();
            assert(r[rev@.len() - k] == rev@[k - 1]);
            assert(out@ =~= r.take(rev@.len() - (k - 1)));
        }
        k = k - 1;
    }
    proof {
        assert(rev@.reverse().take(rev@.len() as int) =~= rev@.reverse());
    }
    out
}

/// The address of a cell: the column's letter run followed by the 1-based row
/// number in decimal.
pub open spec fn cell_ref_text(row: int, col: int) -> Seq<char> {
    col_letters(col) + dec_str(row)
}

/// Renders a cell address such as `A1` from a 1-based row number and a
/// 0-based column index.
pub fn make_cell_ref(row: u32, col: u32) -> (r: String)
    ensures
        r@ == cell_ref_text(row as int, col as int),
{
    let mut out = col_to_letters(col);
    let num = u32_to_string(row);
    out.append(num.as_str());
    out
}

/// Decodes a cell reference back to its 0-based column index, as the row
/// reader does: trailing digits stripped, letters folded as base 26.
pub fn col_ref_to_index(cell_ref: &str) -> (r: u32)
    ensures
        r as int == col_index_of(cell_ref@),
{
    let n = cell_ref.unicode_len();
    // Find the end of the letter run by stripping trailing digits.
    let mut m: usize = n;
    proof {
        assert(cell_ref@.take(n as int) =~= cell_ref@);
    }
    loop
        invariant
            n == cell_ref@.len(),
            m <= n,
            strip_digits(cell_ref@) == strip_digits(cell_ref@.take(m as int)),
        ensures
            cell_ref@.take(m as int) == strip_digits(cell_ref@),
            m <= n == cell_ref@.len(),
        decreases m,
    {
        if m == 0 {
            proof {
                assert(cell_ref@.take(0) =~= Seq::<char>::empty());
                assert(strip_digits(Seq::<char>::empty()) =~= Seq::<char>::empty());
            }
            break;
        }
        let c = cell_ref.get_char(m - 1);
        let cv: u32 = c as u32;
        if cv < 48 || cv > 57 {
            proof {
                let cur = cell_ref@.take(m as int);
                assert(cur.last() == cell_ref@[m - 1]);
                assert(strip_digits(cur) == cur);
            }
            break;
        }
        proof {
            assert(cell_ref@.take(m as int).drop_last() =~= cell_ref@.take(m - 1));
            assert(cell_ref@.take(m as int).last() == cell_ref@[m - 1]);
        }
        m = m - 1;
    }
    let ghost letters = strip_digits(cell_ref@);
    if m == 0 {
        return 0;
    }
    let mut acc: u64 = 0;
    let mut i: usize = 0;
    while i < m
        invariant
            n == cell_ref@.len(),
            0 < m <= n,
            i <= m,
            letters == strip_digits(cell_ref@),
            letters == cell_ref@.take(m as int),
            all_upper(cell_ref@.take(i as int)),
            acc as int == letters_value(cell_ref@.take(i as int)),
            i > 0 ==> acc >= 1,
            acc as int - 1 <= u32::MAX as int,
        decreases m - i,
    {
        let c = cell_ref.get_char(i);
        let cv: u32 = c as u32;
        if cv < 65 || cv > 90 {
            proof {
                assert(letters[i as int] == cell_ref@[i as int]);
                assert(!('A' <= letters[i as int] && letters[i as int] <= 'Z'));
            }
            return 0;
        }
        let d: u64 = (cv - 64) as u64;
        let ghost next = cell_ref@.take(i + 1);
        proof {
            assert(next.drop_last() =~= cell_ref@.take(i as int));
            assert(next.last() == cell_ref@[i as int]);
            assert(letters_value(next) == acc as int * 26 + d);
        }
        let bound: u64 = 4294967296u64;
        if acc > (bound - d) / 26 {
            // The run encodes a column beyond the 32-bit space; the decoder
            // treats such a reference as column zero.
            proof {
                assert(acc as int * 26 + d > bound as int) by (nonlinear_arith)
                    requires
                        acc as int > (bound as int - d) / 26,
                        1 <= d <= 26,
                        acc >= 0,
                ;
                if all_upper(letters) {
                    assert(next =~= letters.subrange(0, i + 1));
                    lemma_letters_value_grows(next, letters, i + 1);
                    assert(letters_value(letters) - 1 > u32::MAX as int);
                }
            }
            return 0;
        }
        proof {
            assert(acc as int * 26 + d <= bound as int) by (nonlinear_arith)
                requires
                    acc as int <= (bound as int - d) / 26,
                    1 <= d <= 26,
                    acc >= 0,
            ;
        }
        acc = acc * 26 + d;
        i = i + 1;
    }
    proof {
        assert(cell_ref@.take(m as int) =~= letters);
        assert(letters.len() > 0);
    }
    (acc - 1) as u32
}

/// Once a letter prefix encodes past the 32-bit space, every extension of it
/// does.
proof fn lemma_letters_value_grows(prefix: Seq<char>, whole: Seq<char>, k: int)
    requires
        0 < k <= whole.len(),
        prefix =~= whole.subrange(0, k),
        all_upper(whole),
        letters_value(prefix) > 4294967296,
    ensures
        letters_value(whole) > 4294967296,
    decreases whole.len() - k,
{
    if k == whole.len() {
        assert(prefix =~= whole);
    } else {
        let next = whole.subrange(0, k + 1);
        assert(next.drop_last() =~= prefix);
        assert(next.last() == whole[k]);
        assert('A' <= whole[k] && whole[k] <= 'Z');
        assert(letters_value(next) == letters_value(prefix) * 26 + (whole[k] as int - 64));
        assert(letters_value(prefix) * 26 >= letters_value(prefix)) by (nonlinear_arith)
            requires
                letters_value(prefix) > 0,
        ;
        lemma_letters_value_grows(next, whole, k + 1);
    }
}

// ---------------------------------------------------------------------------
// The encode/decode round trip.
// ---------------------------------------------------------------------------

/// Appending one letter multiplies the run's value by 26 and adds the
/// letter's alphabet position.
proof fn lemma_letters_value_push(s: Seq<char>, c: char)
    ensures
        letters_value(s.push(c)) == letters_value(s) * 26 + (c as int - 64),
{
    assert(s.push(c).drop_last() =~= s);
    assert(s.push(c).last() == c);
}

/// The value of an encoded column index is the index plus one.
pub proof fn lemma_col_letters_value(n: int)
    requires
        n >= 0,
    ensures
        letters_value(col_letters(n)) == n + 1,
    decreases n,
{
    if n < 26 {
        assert(col_letters(n) =~= Seq::<char>::empty().push(col_letter(n)));
        lemma_letters_value_push(Seq::<char>::empty(), col_letter(n));
        assert(letters_value(Seq::<char>::empty()) == 0);
        assert(col_letter(n) as int == 65 + n);
    } else {
        lemma_col_letters_value(n / 26 - 1);
        lemma_letters_value_push(col_letters(n / 26 - 1), col_letter(n % 26));
        assert(col_letter(n % 26) as int == 65 + n % 26);
        vstd::arithmetic::div_mod::lemma_fundamental_div_mod(n, 26);
    }
}

/// An encoded column index is a non-empty run of upper-case letters.
pub proof fn lemma_col_letters_upper(n: int)
    requires
        n >= 0,
    ensures
        all_upper(col_letters(n)),
        col_letters(n).len() >= 1,
    decreases n,
{
    if n < 26 {
        assert(col_letters(n) =~= seq![col_letter(n)]);
        assert(col_letter(n) as int == 65 + n);
        assert('A' <= col_letters(n)[0] && col_letters(n)[0] <= 'Z');
    } else {
        lemma_col_letters_upper(n / 26 - 1);
        let head = col_letters(n / 26 - 1);
        let c = col_letter(n % 26);
        assert(c as int == 65 + n % 26);
        assert('A' <= c && c <= 'Z');
        assert(forall|i: int|
            0 <= i < head.push(c).len() ==> 'A' <= #[trigger] head.push(c)[i] && head.push(c)[i]
                <= 'Z');
    }
}

/// Law: decoding an encoded column index gives the index back, for every
/// index the encoder accepts.
pub proof fn lemma_col_round_trip(n: u32)
    ensures
        col_index_of(col_letters(n as int)) == n as int,
{
    lemma_col_letters_value(n as int);
    lemma_col_letters_upper(n as int);
    let s = col_letters(n as int);
    assert('A' <= s.last() && s.last() <= 'Z');
    assert(strip_digits(s) == s);
}

} // verus!
