use vstd::prelude::*;

verus! {

/// The character of a decimal digit.
pub open spec fn digit_char(d: nat) -> char {
    if d == 0 {
        '0'
    } else if d == 1 {
        '1'
    } else if d == 2 {
        '2'
    } else if d == 3 {
        '3'
    } else if d == 4 {
        '4'
    } else if d == 5 {
        '5'
    } else if d == 6 {
        '6'
    } else if d == 7 {
        '7'
    } else if d == 8 {
        '8'
    } else {
        '9'
    }
}

/// The decimal text of a number, without leading zeros.
pub open spec fn decimal(n: nat) -> Seq<char>
    decreases n,
{
    if n < 10 {
        seq![digit_char(n)]
    } else {
        decimal(n / 10).push(digit_char(n % 10))
    }
}

/// The first `i` characters of a digit string laid out with thousands separators: a comma
/// goes before each digit, other than the first, that has a multiple of three digits
/// after it.
pub open spec fn grouped(d: Seq<char>, i: nat) -> Seq<char>
    decreases i,
{
    if i == 0 {
        Seq::empty()
    } else {
        let j = i - 1;
        let sep: Seq<char> = if j > 0 && (d.len() - j) % 3 == 0 {
            seq![',']
        } else {
            Seq::empty()
        };
        grouped(d, j as nat) + sep + seq![d[j]]
    }
}

/// A number with thousands separators.
pub open spec fn with_separators(n: nat) -> Seq<char> {
    grouped(decimal(n), decimal(n).len())
}

spec fn digit_chars(v: Seq<u8>) -> Seq<char> {
    Seq::new(v.len(), |i: int| digit_char(v[i] as nat))
}

fn digit_text(d: u8) -> (r: &'static str)
    requires
        d < 10,
    ensures
        r@ == seq![digit_char(d as nat)],
{
    proof {
        reveal_strlit("0");
        reveal_strlit("1");
        reveal_strlit("2");
        reveal_strlit("3");
        reveal_strlit("4");
        reveal_strlit("5");
        reveal_strlit("6");
        reveal_strlit("7");
        reveal_strlit("8");
        reveal_strlit("9");
    }
    let r = match d {
        0 => "0",
        1 => "1",
        2 => "2",
        3 => "3",
        4 => "4",
        5 => "5",
        6 => "6",
        7 => "7",
        8 => "8",
        _ => "9",
    };
    assert(r@ =~= seq![digit_char(d as nat)]);
    r
}

/// The decimal digits of a number, most significant first.
fn decimal_digits(n: u64) -> (r: Vec<u8>)
    ensures
        forall|i: int| 0 <= i < r@.len() ==> r@[i] < 10,
        digit_chars(r@) == decimal(n as nat),
{
    let mut v: Vec<u8> = Vec::new();
    let mut m: u64 = n;
    while m >= 10
        invariant
            forall|i: int| 0 <= i < v@.len() ==> v@[i] < 10,
            decimal(n as nat) == decimal(m as nat) + digit_chars(v@),
        decreases m,
    {
        let ghost old_v = v@;
        v.insert(0, (m % 10) as u8);
        assert(digit_chars(v@) =~= seq![digit_char((m % 10) as nat)] + digit_chars(old_v));
        assert(decimal(m as nat) == decimal((m / 10) as nat).push(digit_char((m % 10) as nat)));
        assert(decimal(m as nat) + digit_chars(old_v) =~= decimal((m / 10) as nat) + digit_chars(
            v@,
        ));
        m = m / 10;
    }
    let ghost old_v = v@;
    v.insert(0, m as u8);
    assert(digit_chars(v@) =~= seq![digit_char(m as nat)] + digit_chars(old_v));
    assert(decimal(m as nat) =~= seq![digit_char(m as nat)]);
    v
}

/// Appends the decimal text of a number.
pub fn push_decimal(s: &mut String, n: u64)
    ensures
        final(s)@ == old(s)@ + decimal(n as nat),
{
    let digits = decimal_digits(n);
    let ghost start = s@;
    let mut i: usize = 0;
    while i < digits.len()
        invariant
            i <= digits@.len(),
            forall|k: int| 0 <= k < digits@.len() ==> digits@[k] < 10,
            s@ == start + digit_chars(digits@).take(i as int),
        decreases digits.len() - i,
    {
        s.append(digit_text(digits[i]));
        i = i + 1;
        assert(s@ =~= start + digit_chars(digits@).take(i as int));
    }
    assert(digit_chars(digits@).take(i as int) =~= digit_chars(digits@));
}

/// Writes a number in decimal with a comma between each group of three digits.
pub fn format_number(n: u64) -> (r: String)
    ensures
        r@ == with_separators(n as nat),
{
    let digits = decimal_digits(n);
    let ghost d = decimal(n as nat);
    let len = digits.len();
    let mut s = String::new();
    let mut i: usize = 0;
    while i < len
        invariant
            i <= len == digits@.len() == d.len(),
            forall|k: int| 0 <= k < digits@.len() ==> digits@[k] < 10,
            digit_chars(digits@) == d,
            s@ == grouped(d, i as nat),
        decreases len - i,
    {
        let ghost prev = s@;
        let ghost sep: Seq<char> = if i > 0 && (d.len() - i) % 3 == 0 {
            seq![',']
        } else {
            Seq::empty()
        };
        if i > 0 && (len - i) % 3 == 0 {
            proof {
                reveal_strlit(",");
            }
            s.append(",");
        }
        assert(s@ =~= prev + sep);
        s.append(digit_text(digits[i]));
        assert(d[i as int] == digit_char(digits@[i as int] as nat));
        assert(grouped(d, (i + 1) as nat) == grouped(d, i as nat) + sep + seq![d[i as int]]);
        i = i + 1;
        assert(s@ =~= grouped(d, i as nat));
    }
    s
}

} // verus!
