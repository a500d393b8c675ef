use vstd::prelude::*;

verus! {

// ---------------------------------------------------------------------------
// Small trusted helpers over std's string primitives.
// ---------------------------------------------------------------------------

/// Relies on String::push: appends exactly one character at the end.
#[verifier::external_body]
pub(crate) fn push_char(s: &mut String, c: char)
    ensures
        final(s)@ == old(s)@.push(c),
{
    s.push(c);
}

// ---------------------------------------------------------------------------
// XML escaping.
// ---------------------------------------------------------------------------

/// What one character contributes to an XML-escaped text.
pub open spec fn xml_escape_char(c: char) -> Seq<char> {
    if c == '&' {
        "&amp;"@
    } else if c == '<' {
        "&lt;"@
    } else if c == '>' {
        "&gt;"@
    } else if c == '"' {
        "&quot;"@
    } else if c == '\'' {
        "&apos;"@
    } else {
        seq![c]
    }
}

/// The XML-escaped form of a text: every markup character replaced by its
/// entity, all other characters kept.
pub open spec fn xml_escaped(s: Seq<char>) -> Seq<char>
    decreases s.len(),
{
    if s.len() == 0 {
        Seq::<char>::empty()
    } else {
        xml_escaped(s.drop_last()) + xml_escape_char(s.last())
    }
}

/// Escapes the five XML markup characters of `s` as entities.
pub fn xml_escape(s: &str) -> (r: String)
    ensures
        r@ == xml_escaped(s@),
{
    let n = s.unicode_len();
    let mut out = String::new();
    let mut i: usize = 0;
    while i < n
        invariant
            n == s@.len(),
            i <= n,
            out@ == xml_escaped(s@.take(i as int)),
        decreases n - i,
    {
        let c = s.get_char(i);
        if c == '&' {
            out.append("&amp;");
        } else if c == '<' {
            out.append("&lt;");
        } else if c == '>' {
            out.append("&gt;");
        } else if c == '"' {
            out.append("&quot;");
        } else if c == '\'' {
            out.append("&apos;");
        } else {
            push_char(&mut out, c);
        }
        proof {
            assert(s@.take(i + 1).drop_last() =~= s@.take(i as int));
            assert(s@.take(i + 1).last() == s@[i as int]);
            assert(seq![c].len() == 1);
        }
        i = i + 1;
    }
    proof {
        assert(s@.take(n as int) =~= s@);
    }
    out
}

// ---------------------------------------------------------------------------
// CSV escaping.
// ---------------------------------------------------------------------------

/// Whether a CSV field must be quoted: it holds a comma, a double quote or a
/// line break.
pub open spec fn csv_needs_quoting(s: Seq<char>) -> bool {
    exists|i: int| 0 <= i < s.len() && #[trigger] csv_special(s[i])
}

/// The characters that force a CSV field into quotes.
pub open spec fn csv_special(c: char) -> bool {
    c == ',' || c == '"' || c == '\n' || c == '\r'
}

/// The body of a quoted CSV field: every double quote doubled.
pub open spec fn csv_doubled(s: Seq<char>) -> Seq<char>
    decreases s.len(),
{
    if s.len() == 0 {
        Seq::<char>::empty()
    } else {
        csv_doubled(s.drop_last()) + (if s.last() == '"' {
            seq!['"', '"']
        } else {
            seq![s.last()]
        })
    }
}

/// The CSV rendering of one field: unchanged when no special character
/// occurs, otherwise wrapped in quotes with inner quotes doubled.
pub open spec fn csv_escaped(s: Seq<char>) -> Seq<char> {
    if !csv_needs_quoting(s) {
        s
    } else {
        seq!['"'] + csv_doubled(s) + seq!['"']
    }
}

/// Renders one CSV field: quotes it when it holds a comma, a quote or a line
/// break, doubling every inner quote.
pub fn csv_escape(s: &str) -> (r: String)
    ensures
        r@ == csv_escaped(s@),
{
    let n = s.unicode_len();
    let mut needs: bool = false;
    let mut i: usize = 0;
    while i < n
        invariant
            n == s@.len(),
            i <= n,
            needs == csv_needs_quoting(s@.take(i as int)),
        decreases n - i,
    {
        let c = s.get_char(i);
        if c == ',' || c == '"' || c == '\n' || c == '\r' {
            needs = true;
        }
        proof {
            let pre = s@.take(i as int);
            let cur = s@.take(i + 1);
            assert(forall|j: int| 0 <= j < pre.len() ==> cur[j] == pre[j]);
            assert(cur[i as int] == s@[i as int]);
            if needs {
                if csv_special(s@[i as int]) {
                    assert(csv_special(cur[i as int]));
                } else {
                    let w = choose|w: int| 0 <= w < pre.len() && #[trigger] csv_special(pre[w]);
                    assert(csv_special(cur[w]));
                }
            } else {
                assert(forall|j: int| 0 <= j < cur.len() ==> !#[trigger] csv_special(cur[j]))
                    by {
                    assert(forall|j: int| 0 <= j < pre.len() ==> !#[trigger] csv_special(pre[j]));
                }
            }
        }
        i = i + 1;
    }
    proof {
        assert(s@.take(n as int) =~= s@);
    }
    if !needs {
        return s.to_owned();
    }
    let mut out = String::new();
    push_char(&mut out, '"');
    let mut j: usize = 0;
    while j < n
        invariant
            n == s@.len(),
            j <= n,
            out@ == seq!['"'] + csv_doubled(s@.take(j as int)),
        decreases n - j,
    {
        let c = s.get_char(j);
        if c == '"' {
            out.append("\"\"");
            proof {
                reveal_strlit("\"\"");
                assert("\"\""@ =~= seq!['"', '"']);
            }
        } else {
            push_char(&mut out, c);
        }
        proof {
            assert(s@.take(j + 1).drop_last() =~= s@.take(j as int));
            assert(s@.take(j + 1).last() == s@[j as int]);
        }
        j = j + 1;
    }
    push_char(&mut out, '"');
    proof {
        assert(s@.take(n as int) =~= s@);
        assert(out@ =~= seq!['"'] + csv_doubled(s@) + seq!['"']);
    }
    out
}

// ---------------------------------------------------------------------------
// Decimal rendering.
// ---------------------------------------------------------------------------

/// The character for one decimal digit value.
pub open spec fn dec_digit(d: int) -> char {
    ((48 + d) as u8) as char
}

/// The decimal rendering of a non-negative integer, most significant digit
/// first, with no sign and no leading zero (except for zero itself).
pub open spec fn dec_str(n: int) -> Seq<char>
    decreases n,
{
    if n < 10 {
        seq![dec_digit(if n < 0 { 0 } else { n % 10 })]
    } else {
        dec_str(n / 10).push(dec_digit(n % 10))
    }
}

/// Renders `n` in decimal.
pub fn u64_to_string(n: u64) -> (r: String)
    ensures
        r@ == dec_str(n as int),
{
    let mut digits: Vec<char> = Vec::new();
    let mut cur: u64 = n;
    loop
        invariant_except_break
            dec_str(n as int) == dec_str(cur as int) + digits@.reverse(),
        ensures
            dec_str(n as int) == digits@.reverse(),
        decreases cur,
    {
        let d: u8 = 48 + (cur % 10) as u8;
        let ghost pre = digits@;
        digits.push(d as char);
        proof {
            assert(digits@.reverse() =~= seq![dec_digit(cur as int % 10)] + pre.reverse());
        }
        if cur < 10 {
            proof {
                assert(dec_str(cur as int) =~= seq![dec_digit(cur as int % 10)]);
                assert(dec_str(n as int) =~= digits@.reverse());
            }
            break;
        }
        proof {
            assert(dec_str(cur as int) == dec_str(cur as int / 10).push(
                dec_digit(cur as int % 10),
            ));
            assert(dec_str(cur as int / 10) + digits@.reverse() =~= dec_str(cur as int)
                + pre.reverse());
        }
        cur = cur / 10;
    }
    let mut out = String::new();
    let mut k: usize = digits.len();
    proof {
        assert(out@ =~= digits@.reverse().take(digits@.len() - k));
    }
    while k > 0
        invariant
            k <= digits.len(),
            dec_str(n as int) == digits@.reverse(),
            out@ == digits@.reverse().take(digits@.len() - k),
        decreases k,
    {
        let c = digits[k - 1];
        push_char(&mut out, c);
        proof {
            let r = digits@.reverse();
            assert(r[digits@.len() - k] == digits@[k - 1]);
            assert(out@ =~= r.take(digits@.len() - (k - 1)));
        }
        k = k - 1;
    }
    proof {
        assert(digits@.reverse().take(digits@.len() as int) =~= digits@.reverse());
    }
    out
}

/// Renders `n` in decimal.
pub fn u32_to_string(n: u32) -> (r: String)
    ensures
        r@ == dec_str(n as int),
{
    u64_to_string(n as u64)
}

/// Renders `n` in decimal.
pub fn usize_to_string(n: usize) -> (r: String)
    ensures
        r@ == dec_str(n as int),
{
    u64_to_string(n as u64)
}

// ---------------------------------------------------------------------------
// Decimal parsing (for shared-string indices).
// ---------------------------------------------------------------------------

/// Whether every character of `s` is a decimal digit.
pub open spec fn all_digits(s: Seq<char>) -> bool {
    forall|i: int| 0 <= i < s.len() ==> '0' <= #[trigger] s[i] && s[i] <= '9'
}

/// The value of a digit string, most significant digit first.
pub open spec fn digits_value(s: Seq<char>) -> int
    decreases s.len(),
{
    if s.len() == 0 {
        0
    } else {
        digits_value(s.drop_last()) * 10 + (s.last() as int - 48)
    }
}

/// The digits of an index text, after any single leading plus sign.
pub open spec fn index_body(s: Seq<char>) -> Seq<char> {
    if s.len() > 0 && s[0] == '+' {
        s.skip(1)
    } else {
        s
    }
}

/// The index value a cell's raw text stands for: an optional leading plus
/// sign, then decimal digits within the machine word; anything else does
/// not parse.
pub open spec fn parsed_index(s: Seq<char>) -> Option<int> {
    if index_body(s).len() > 0 && all_digits(index_body(s)) && digits_value(index_body(s))
        <= usize::MAX as int {
        Option::Some(digits_value(index_body(s)))
    } else {
        Option::None
    }
}

/// Parses a decimal index as the row reader resolves shared-string
/// references: malformed or oversized text does not parse.
pub fn parse_index(s: &str) -> (r: Option<usize>)
    ensures
        match r {
            Option::Some(v) => parsed_index(s@) == Option::Some(v as int),
            Option::None => parsed_index(s@) is None,
        },
{
    let n = s.unicode_len();
    let start: usize = if n > 0 && s.get_char(0) == '+' {
        1
    } else {
        0
    };
    let ghost body = index_body(s@);
    proof {
        assert(body =~= s@.subrange(start as int, n as int));
    }
    if start >= n {
        proof {
            assert(body.len() == 0);
        }
        return Option::None;
    }
    let mut acc: usize = 0;
    let mut i: usize = start;
    while i < n
        invariant
            n == s@.len(),
            start <= i <= n,
            start < n,
            body == index_body(s@),
            body == s@.subrange(start as int, n as int),
            all_digits(s@.subrange(start as int, i as int)),
            acc as int == digits_value(s@.subrange(start as int, i as int)),
        decreases n - i,
    {
        let c = s.get_char(i);
        let cv: u32 = c as u32;
        if cv < 48 || cv > 57 {
            proof {
                let w: int = i - start;
                assert(body[w] == s@[i as int]);
                assert(!('0' <= body[w] && body[w] <= '9'));
            }
            return Option::None;
        }
        let d: usize = (cv - 48) as usize;
        let ghost next = s@.subrange(start as int, i + 1);
        proof {
            assert(next.drop_last() =~= s@.subrange(start as int, i as int));
            assert(next.last() == s@[i as int]);
            assert(digits_value(next) == acc as int * 10 + d);
        }
        if acc > (usize::MAX - d) / 10 {
            // The value no longer fits; later digits only enlarge it, and a
            // later non-digit makes the whole text malformed: zero either way.
            proof {
                assert(acc as int * 10 + d > usize::MAX as int) by (nonlinear_arith)
                    requires
                        acc as int > (usize::MAX as int - d) / 10,
                        0 <= d <= 9,
                        acc >= 0,
                ;
                if all_digits(body) {
                    assert(next =~= body.subrange(0, i + 1 - start));
                    lemma_digits_value_grows(next, body, i + 1 - start, usize::MAX as int);
                }
            }
            return Option::None;
        }
        proof {
            assert(acc as int * 10 + d <= usize::MAX as int) by (nonlinear_arith)
                requires
                    acc as int <= (usize::MAX as int - d) / 10,
                    0 <= d <= 9,
                    acc >= 0,
            ;
        }
        acc = acc * 10 + d;
        i = i + 1;
    }
    proof {
        assert(s@.subrange(start as int, n as int) =~= body);
        assert(body.len() > 0);
    }
    Option::Some(acc)
}

/// Once a digit prefix exceeds a bound, every extension of it does.
pub proof fn lemma_digits_value_grows(prefix: Seq<char>, whole: Seq<char>, k: int, bound: int)
    requires
        0 < k <= whole.len(),
        prefix =~= whole.subrange(0, k),
        all_digits(whole),
        bound >= 0,
        digits_value(prefix) > bound,
    ensures
        digits_value(whole) > bound,
    decreases whole.len() - k,
{
    if k == whole.len() {
        assert(prefix =~= whole);
    } else {
        let next = whole.subrange(0, k + 1);
        assert(next.drop_last() =~= prefix);
        assert(next.last() == whole[k]);
        assert('0' <= whole[k] && whole[k] <= '9');
        assert(digits_value(next) == digits_value(prefix) * 10 + (whole[k] as int - 48));
        assert(digits_value(prefix) * 10 >= digits_value(prefix)) by (nonlinear_arith)
            requires
                digits_value(prefix) > 0,
        ;
        lemma_digits_value_grows(next, whole, k + 1, bound);
    }
}

/// Whether two texts are the same sequence of characters.
pub fn str_eq(a: &str, b: &str) -> (r: bool)
    ensures
        r == (a@ == b@),
{
    let na = a.unicode_len();
    let nb = b.unicode_len();
    if na != nb {
        proof {
            assert(a@ != b@);
        }
        return false;
    }
    let mut i: usize = 0;
    while i < na
        invariant
            na == a@.len(),
            na == b@.len(),
            i <= na,
            forall|j: int| 0 <= j < i ==> a@[j] == b@[j],
        decreases na - i,
    {
        if a.get_char(i) != b.get_char(i) {
            return false;
        }
        i = i + 1;
    }
    proof {
        assert(a@ =~= b@);
    }
    true
}

} // verus!
