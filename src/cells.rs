use vstd::prelude::*;

verus! {

/// An ASCII decimal digit.
pub open spec fn is_digit(c: char) -> bool {
    '0' <= c && c <= '9'
}

/// Every character is an ASCII decimal digit.
pub open spec fn all_digits(d: Seq<char>) -> bool {
    forall|i: int| 0 <= i < d.len() ==> is_digit(#[trigger] d[i])
}

/// The number that a run of decimal digits denotes.
pub open spec fn digits_value(d: Seq<char>) -> nat
    decreases d.len(),
{
    if d.len() == 0 {
        0
    } else {
        digits_value(d.drop_last()) * 10 + ((d.last() as u32) - 48) as nat
    }
}

/// How text reads as an unsigned 16-bit number: an optional `+`, then one or more decimal
/// digits whose value fits in 16 bits; anything else reads as nothing.
pub open spec fn parse_u16_text(s: Seq<char>) -> Option<u16> {
    let d = if s.len() > 0 && s[0] == '+' {
        s.drop_first()
    } else {
        s
    };
    if d.len() > 0 && all_digits(d) && digits_value(d) <= 65535 {
        Some(digits_value(d) as u16)
    } else {
        None
    }
}

/// Where the run of digits that ends at position `j` begins.
pub open spec fn digit_run_start(s: Seq<char>, j: int) -> int
    decreases j,
{
    if j > 0 && j <= s.len() && is_digit(s[j - 1]) {
        digit_run_start(s, j - 1)
    } else {
        j
    }
}

/// The longest run of decimal digits at the end of the text.
pub open spec fn trailing_digits(s: Seq<char>) -> Seq<char> {
    s.subrange(digit_run_start(s, s.len() as int), s.len() as int)
}

/// The cell that an XDTS token gives: blank for the null-cell symbol, no keyframe for the
/// tick and hyphen symbols, else the number its trailing digits spell, if they spell one.
pub open spec fn xdts_cell(s: Seq<char>) -> Option<u16> {
    if s == "SYMBOL_NULL_CELL"@ {
        Some(0)
    } else if s == "SYMBOL_TICK_1"@ || s == "SYMBOL_TICK_2"@ || s == "SYMBOL_HYPHEN"@ {
        None
    } else if trailing_digits(s).len() == 0 {
        None
    } else {
        parse_u16_text(trailing_digits(s))
    }
}

/// The cell that a TDTS token gives: blank for the null-cell symbol, else the number the
/// token spells, blank when it spells none.
pub open spec fn tdts_cell(s: Seq<char>) -> u16 {
    if s == "SYMBOL_NULL_CELL"@ {
        0
    } else {
        match parse_u16_text(s) {
            Some(v) => v,
            None => 0,
        }
    }
}

/// Whether two texts hold the same characters.
fn same_text(a: &str, b: &str) -> (r: bool)
    ensures
        r == (a@ == b@),
{
    let n = a.unicode_len();
    if n != b.unicode_len() {
        return false;
    }
    let mut i: usize = 0;
    while i < n
        invariant
            n == a@.len() == b@.len(),
            i <= n,
            forall|k: int| 0 <= k < i ==> a@[k] == b@[k],
        decreases n - i,
    {
        if a.get_char(i) != b.get_char(i) {
            return false;
        }
        i = i + 1;
    }
    assert(a@ =~= b@);
    true
}

/// Reads text as an unsigned 16-bit number: an optional `+` and decimal digits, with no
/// other character and a value that fits.
pub fn parse_u16(s: &str) -> (r: Option<u16>)
    ensures
        r == parse_u16_text(s@),
{
    let len = s.unicode_len();
    let mut start: usize = 0;
    if len > 0 && s.get_char(0) == '+' {
        start = 1;
    }
    let ghost d = s@.subrange(start as int, len as int);
    assert(d =~= if s@.len() > 0 && s@[0] == '+' {
        s@.drop_first()
    } else {
        s@
    });
    if start >= len {
        assert(d.len() == 0);
        return None;
    }
    let mut acc: u32 = 0;
    let mut overflow = false;
    let mut i: usize = start;
    while i < len
        invariant
            start <= i <= len == s@.len(),
            d == s@.subrange(start as int, len as int),
            d == (if s@.len() > 0 && s@[0] == '+' {
                s@.drop_first()
            } else {
                s@
            }),
            all_digits(s@.subrange(start as int, i as int)),
            !overflow ==> acc as nat == digits_value(s@.subrange(start as int, i as int)) && acc
                <= 65535,
            overflow ==> digits_value(s@.subrange(start as int, i as int)) > 65535,
        decreases len - i,
    {
        let c = s.get_char(i);
        if !('0' <= c && c <= '9') {
            assert(d[i - start] == c);
            return None;
        }
        let ghost p = s@.subrange(start as int, i as int);
        let ghost q = s@.subrange(start as int, i + 1);
        assert(q.drop_last() =~= p);
        assert(q.last() == c);
        let dv = (c as u32) - 48;
        if !overflow {
            let v = acc * 10 + dv;
            if v > 65535 {
                overflow = true;
            } else {
                acc = v;
            }
        } else {
            assert(digits_value(q) >= digits_value(p)) by (nonlinear_arith)
                requires
                    digits_value(q) == digits_value(p) * 10 + ((c as u32) - 48) as nat,
            ;
        }
        i = i + 1;
        assert(all_digits(q)) by {
            assert forall|k: int| 0 <= k < q.len() implies is_digit(#[trigger] q[k]) by {
                if k < p.len() {
                    assert(q[k] == p[k]);
                }
            }
        }
    }
    assert(s@.subrange(start as int, i as int) =~= d);
    if overflow {
        None
    } else {
        Some(acc as u16)
    }
}

/// The cell of an XDTS token, or `None` where the token sets no keyframe.
pub fn parse_xdts_cell_value(value: &str) -> (r: Option<u16>)
    ensures
        r == xdts_cell(value@),
{
    if same_text(value, "SYMBOL_NULL_CELL") {
        return Some(0);
    }
    if same_text(value, "SYMBOL_TICK_1") || same_text(value, "SYMBOL_TICK_2") || same_text(
        value,
        "SYMBOL_HYPHEN",
    ) {
        return None;
    }
    let len = value.unicode_len();
    let mut j: usize = len;
    let mut scanning = true;
    while scanning && j > 0
        invariant
            j <= len == value@.len(),
            digit_run_start(value@, j as int) == digit_run_start(value@, len as int),
            !scanning ==> !is_digit(value@[j - 1]) && j > 0,
        decreases j + if scanning {
            1int
        } else {
            0int
        },
    {
        let c = value.get_char(j - 1);
        if '0' <= c && c <= '9' {
            j = j - 1;
        } else {
            scanning = false;
        }
    }
    assert(digit_run_start(value@, j as int) == j as int);
    if j == len {
        return None;
    }
    let digits = value.substring_char(j, len);
    assert(digits@ == trailing_digits(value@));
    parse_u16(digits)
}

/// The cell of a TDTS token; a token that is no number gives the blank cell.
pub fn parse_tdts_cell_value(value: &str) -> (r: u16)
    ensures
        r == tdts_cell(value@),
{
    if same_text(value, "SYMBOL_NULL_CELL") {
        return 0;
    }
    match parse_u16(value) {
        Some(v) => v,
        None => 0,
    }
}

} // verus!
