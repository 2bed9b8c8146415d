use vstd::prelude::*;
use vstd::string::*;

verus! {

/// The character for one digit value, decimal or upper-case hexadecimal.
pub open spec fn digit_char(d: int) -> char {
    if d == 0 {
        '0'
    } else if d == 1 {
        '1'
    } else if d == 2 {
        '2'
    } else if d == 3 {
        '3'
    } else if d == 4 {
        '4'
    } else if d == 5 {
        '5'
    } else if d == 6 {
        '6'
    } else if d == 7 {
        '7'
    } else if d == 8 {
        '8'
    } else if d == 9 {
        '9'
    } else if d == 10 {
        'A'
    } else if d == 11 {
        'B'
    } else if d == 12 {
        'C'
    } else if d == 13 {
        'D'
    } else if d == 14 {
        'E'
    } else {
        'F'
    }
}

/// Decimal digits of `n`, most significant first, no leading zeros
/// (a single zero for 0).
pub open spec fn spec_dec(n: nat) -> Seq<char>
    decreases n,
{
    if n < 10 {
        seq![digit_char(n as int)]
    } else {
        spec_dec(n / 10) + seq![digit_char((n % 10) as int)]
    }
}

/// Upper-case hexadecimal digits of `n`, most significant first,
/// no leading zeros (a single zero for 0).
pub open spec fn spec_hex(n: nat) -> Seq<char>
    decreases n,
{
    if n < 16 {
        seq![digit_char(n as int)]
    } else {
        spec_hex(n / 16) + seq![digit_char((n % 16) as int)]
    }
}

/// `digits` left-padded with zeros to at least `width` characters.
pub open spec fn spec_zero_pad(digits: Seq<char>, width: int) -> Seq<char> {
    if digits.len() >= width {
        digits
    } else {
        Seq::new((width - digits.len()) as nat, |i: int| '0') + digits
    }
}

/// Decimal rendering of `n` left-padded with zeros to at least `width`.
pub open spec fn spec_dec_padded(n: nat, width: int) -> Seq<char> {
    spec_zero_pad(spec_dec(n), width)
}

/// Upper-case hexadecimal rendering of `n` left-padded with zeros to at
/// least `width`.
pub open spec fn spec_hex_padded(n: nat, width: int) -> Seq<char> {
    spec_zero_pad(spec_hex(n), width)
}

fn digit_str(d: u8) -> (r: &'static str)
    requires
        d < 16,
    ensures
        r@ =~= seq![digit_char(d as int)],
{
    proof {
        reveal_strlit("0");
        reveal_strlit("1");
        reveal_strlit("2");
        reveal_strlit("3");
        reveal_strlit("4");
        reveal_strlit("5");
        reveal_strlit("6");
        reveal_strlit("7");
        reveal_strlit("8");
        reveal_strlit("9");
        reveal_strlit("A");
        reveal_strlit("B");
        reveal_strlit("C");
        reveal_strlit("D");
        reveal_strlit("E");
        reveal_strlit("F");
    }
    match d {
        0 => "0",
        1 => "1",
        2 => "2",
        3 => "3",
        4 => "4",
        5 => "5",
        6 => "6",
        7 => "7",
        8 => "8",
        9 => "9",
        10 => "A",
        11 => "B",
        12 => "C",
        13 => "D",
        14 => "E",
        _ => "F",
    }
}

/// Renders `n` in decimal without leading zeros.
pub fn u64_dec_string(n: u64) -> (s: String)
    ensures
        s@ == spec_dec(n as nat),
    decreases n,
{
    if n < 10 {
        String::from_str(digit_str(n as u8))
    } else {
        let mut s = u64_dec_string(n / 10);
        s.append(digit_str((n % 10) as u8));
        assert(s@ =~= spec_dec(n as nat));
        s
    }
}

/// Renders `n` in upper-case hexadecimal without leading zeros.
pub fn u64_hex_string(n: u64) -> (s: String)
    ensures
        s@ == spec_hex(n as nat),
    decreases n,
{
    if n < 16 {
        String::from_str(digit_str(n as u8))
    } else {
        let mut s = u64_hex_string(n / 16);
        s.append(digit_str((n % 16) as u8));
        assert(s@ =~= spec_hex(n as nat));
        s
    }
}

fn zero_pad_to(digits: String, width: usize) -> (s: String)
    ensures
        s@ == spec_zero_pad(digits@, width as int),
{
    let dlen = digits.as_str().unicode_len();
    if dlen >= width {
        return digits;
    }
    proof {
        reveal_strlit("0");
    }
    let mut s = String::new();
    let mut k: usize = dlen;
    while k < width
        invariant
            dlen <= k <= width,
            dlen == digits@.len(),
            s@ =~= Seq::new((k - dlen) as nat, |i: int| '0'),
        decreases width - k,
    {
        proof {
            reveal_strlit("0");
        }
        s.append("0");
        assert(s@ =~= Seq::new((k + 1 - dlen) as nat, |i: int| '0'));
        k = k + 1;
    }
    s.append(digits.as_str());
    assert(s@ =~= spec_zero_pad(digits@, width as int));
    s
}

/// Renders `n` in decimal, zero-padded to at least `width` characters.
pub fn u64_dec_padded(n: u64, width: usize) -> (s: String)
    ensures
        s@ == spec_dec_padded(n as nat, width as int),
{
    zero_pad_to(u64_dec_string(n), width)
}

/// Renders `n` in upper-case hexadecimal, zero-padded to at least `width`
/// characters.
pub fn u64_hex_padded(n: u64, width: usize) -> (s: String)
    ensures
        s@ == spec_hex_padded(n as nat, width as int),
{
    zero_pad_to(u64_hex_string(n), width)
}

} // verus!
