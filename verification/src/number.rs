//! Numbers as text: decimal and hexadecimal, written and read.
use vstd::prelude::*;
use crate::text;

verus! {

// ---------------------------------------------------------------------
// Writing
// ---------------------------------------------------------------------

/// The decimal digit of value `d`.
pub open spec fn digit(d: int) -> char {
    (48 + d) as u8 as char
}

/// `n` in decimal, without leading zeros.
pub open spec fn dec(n: nat) -> Seq<char>
    decreases n,
{
    if n < 10 {
        seq![digit(n as int)]
    } else {
        dec(n / 10).push(digit((n % 10) as int))
    }
}

/// `i` in decimal, with a minus sign where it is negative.
pub open spec fn int_dec(i: int) -> Seq<char> {
    if i < 0 {
        seq!['-'] + dec((-i) as nat)
    } else {
        dec(i as nat)
    }
}

/// Writes `n` in decimal.
pub fn decimal(n: u64) -> (s: String)
    ensures
        s@ == dec(n as nat),
    decreases n,
{
    let mut s = if n < 10 {
        String::new()
    } else {
        decimal(n / 10)
    };
    let d: u8 = (n % 10) as u8;
    s.push((48 + d) as char);
    assert(n < 10 ==> s@ =~= seq![digit(n as int)]);
    s
}

/// Writes `i` in decimal.
pub fn signed_decimal(i: i64) -> (s: String)
    ensures
        s@ == int_dec(i as int),
{
    if i < 0 {
        let m: u64 = (-(i + 1)) as u64 + 1;
        let mut s = String::new();
        s.push('-');
        s.append(decimal(m).as_str());
        assert(s@ =~= seq!['-'] + dec(m as nat));
        s
    } else {
        decimal(i as u64)
    }
}

/// The small hexadecimal digit of value `d`.
pub open spec fn hex_digit(d: int) -> char {
    if d < 10 {
        (48 + d) as u8 as char
    } else {
        (87 + d) as u8 as char
    }
}

/// The last `width` hexadecimal digits of `n`.
pub open spec fn hex_fixed(n: nat, width: nat) -> Seq<char>
    decreases width,
{
    if width == 0 {
        Seq::empty()
    } else {
        hex_fixed(n / 16, (width - 1) as nat).push(hex_digit((n % 16) as int))
    }
}

/// Each byte of `bytes` as two hexadecimal digits.
pub open spec fn hex_text(bytes: Seq<u8>) -> Seq<char>
    decreases bytes.len(),
{
    if bytes.len() == 0 {
        Seq::empty()
    } else {
        hex_text(bytes.drop_last()) + hex_fixed(bytes.last() as nat, 2)
    }
}

/// Writes the last `width` hexadecimal digits of `n`.
pub fn hex_padded(n: u64, width: usize) -> (s: String)
    ensures
        s@ == hex_fixed(n as nat, width as nat),
    decreases width,
{
    if width == 0 {
        return String::new();
    }
    let mut s = hex_padded(n / 16, width - 1);
    let d: u8 = (n % 16) as u8;
    if d < 10 {
        s.push((48 + d) as char);
    } else {
        s.push((87 + d) as char);
    }
    s
}

/// Writes each byte as two hexadecimal digits.
pub fn hex_string(bytes: &Vec<u8>) -> (s: String)
    ensures
        s@ == hex_text(bytes@),
{
    let mut s = String::new();
    let mut i: usize = 0;
    assert(s@ =~= hex_text(bytes@.take(0)));
    while i < bytes.len()
        invariant
            i <= bytes@.len(),
            s@ == hex_text(bytes@.take(i as int)),
        decreases bytes@.len() - i,
    {
        assert(bytes@.take(i + 1).drop_last() =~= bytes@.take(i as int));
        s.append(hex_padded(bytes[i] as u64, 2).as_str());
        i = i + 1;
    }
    assert(bytes@.take(i as int) =~= bytes@);
    s
}

// ---------------------------------------------------------------------
// Reading
// ---------------------------------------------------------------------

/// The value of a decimal digit.
pub open spec fn digit_value(c: char) -> nat {
    (c as int - 48) as nat
}

/// The number that a row of decimal digits denotes.
pub open spec fn value(s: Seq<char>) -> nat
    decreases s.len(),
{
    if s.len() == 0 {
        0
    } else {
        value(s.drop_last()) * 10 + digit_value(s.last())
    }
}

/// `s` without one sign character `sign` in front.
pub open spec fn unsigned_part(s: Seq<char>, sign: char) -> Seq<char> {
    if s.len() > 0 && s[0] == sign {
        s.skip(1)
    } else {
        s
    }
}

/// The number that a nonempty row of digits denotes, if it is at most `max`.
pub open spec fn digits_up_to(s: Seq<char>, max: int) -> Option<int> {
    if s.len() > 0 && text::all_digits(s) && value(s) <= max {
        Some(value(s) as int)
    } else {
        None
    }
}

/// Reads an unsigned number of at most `max`: digits, with an optional plus
/// sign in front.
pub open spec fn read_unsigned(s: Seq<char>, max: int) -> Option<int> {
    digits_up_to(unsigned_part(s, '+'), max)
}

/// Reads a number from `min` to `max`: digits, with an optional plus or minus
/// sign in front.
pub open spec fn read_signed(s: Seq<char>, min: int, max: int) -> Option<int> {
    if s.len() > 0 && s[0] == '-' {
        match digits_up_to(s.skip(1), -min) {
            Some(n) => Some(-n),
            None => None,
        }
    } else {
        digits_up_to(unsigned_part(s, '+'), max)
    }
}

/// Reads the digits `v[from..]`.
fn digits_from(v: &Vec<char>, from: usize, max: u64) -> (r: Option<u64>)
    requires
        from <= v@.len(),
    ensures
        match r {
            Some(n) => digits_up_to(v@.skip(from as int), max as int) == Some(n as int),
            None => digits_up_to(v@.skip(from as int), max as int) is None,
        },
{
    let ghost t = v@.skip(from as int);
    if from == v.len() {
        return None;
    }
    let mut i: usize = from;
    let mut acc: u64 = 0;
    let mut over: bool = false;
    while i < v.len()
        invariant
            from <= i <= v@.len(),
            t == v@.skip(from as int),
            forall|j: int| 0 <= j < i - from ==> text::is_digit(#[trigger] t[j]),
            over ==> value(t.take(i - from)) > max,
            !over ==> acc == value(t.take(i - from)) && acc <= max,
        decreases v@.len() - i,
    {
        let c = v[i];
        assert(t[i - from] == c);
        if !('0' <= c && c <= '9') {
            assert(!text::all_digits(t));
            return None;
        }
        assert(t.take(i - from + 1).drop_last() =~= t.take(i - from));
        assert(t.take(i - from + 1).last() == c);
        let d: u8 = c as u8 - 48;
        if !over {
            let next: u128 = acc as u128 * 10 + d as u128;
            if next > max as u128 {
                over = true;
            } else {
                acc = next as u64;
            }
        }
        i = i + 1;
    }
    assert(t.take(i - from) =~= t);
    if over {
        None
    } else {
        Some(acc)
    }
}

/// Reads an unsigned number of at most `max`.
fn parse_unsigned(s: &str, max: u64) -> (r: Option<u64>)
    ensures
        match r {
            Some(n) => read_unsigned(s@, max as int) == Some(n as int),
            None => read_unsigned(s@, max as int) is None,
        },
{
    let v = text::to_chars(s);
    if v.len() > 0 && v[0] == '+' {
        digits_from(&v, 1, max)
    } else {
        assert(v@.skip(0) =~= v@);
        digits_from(&v, 0, max)
    }
}

/// Reads a `u32`.
pub fn parse_u32(s: &str) -> (r: Option<u32>)
    ensures
        match r {
            Some(n) => read_unsigned(s@, u32::MAX as int) == Some(n as int),
            None => read_unsigned(s@, u32::MAX as int) is None,
        },
{
    match parse_unsigned(s, u32::MAX as u64) {
        Some(n) => Some(n as u32),
        None => None,
    }
}

/// Reads an `i64`.
pub fn parse_i64(s: &str) -> (r: Option<i64>)
    ensures
        match r {
            Some(n) => read_signed(s@, i64::MIN as int, i64::MAX as int) == Some(n as int),
            None => read_signed(s@, i64::MIN as int, i64::MAX as int) is None,
        },
{
    let v = text::to_chars(s);
    if v.len() > 0 && v[0] == '-' {
        match digits_from(&v, 1, 0x8000_0000_0000_0000) {
            Some(n) => {
                if n == 0x8000_0000_0000_0000 {
                    Some(i64::MIN)
                } else {
                    Some(-(n as i64))
                }
            },
            None => None,
        }
    } else {
        match parse_unsigned(s, i64::MAX as u64) {
            Some(n) => Some(n as i64),
            None => None,
        }
    }
}

/// Reads an `i32`.
pub fn parse_i32(s: &str) -> (r: Option<i32>)
    ensures
        match r {
            Some(n) => read_signed(s@, i32::MIN as int, i32::MAX as int) == Some(n as int),
            None => read_signed(s@, i32::MIN as int, i32::MAX as int) is None,
        },
{
    match parse_i64(s) {
        Some(n) => {
            if n >= i32::MIN as i64 && n <= i32::MAX as i64 {
                Some(n as i32)
            } else {
                None
            }
        },
        None => None,
    }
}

// ---------------------------------------------------------------------
// Round trips
// ---------------------------------------------------------------------

/// The decimal form of a number consists of digits, is not empty and denotes
/// the number.
pub proof fn law_decimal_reads_back(n: nat)
    ensures
        dec(n).len() > 0,
        text::all_digits(dec(n)),
        value(dec(n)) == n,
    decreases n,
{
    if n < 10 {
        assert(dec(n).drop_last() =~= Seq::<char>::empty());
        assert(value(dec(n).drop_last()) == 0);
    } else {
        law_decimal_reads_back(n / 10);
        assert(dec(n).drop_last() =~= dec(n / 10));
        assert(dec(n).last() == digit((n % 10) as int));
        assert forall|i: int| 0 <= i < dec(n).len() implies text::is_digit(#[trigger] dec(n)[i]) by {
            if i < dec(n / 10).len() {
                assert(dec(n)[i] == dec(n / 10)[i]);
            }
        }
    }
}

/// A number written in decimal reads back, with or without a plus sign where it
/// is not negative, as long as it lies between the bounds.
pub proof fn law_number_reads_back(i: int, min: int, max: int)
    requires
        min <= i <= max,
        min <= 0 <= max,
    ensures
        read_signed(int_dec(i), min, max) == Some(i),
        i >= 0 ==> read_signed(seq!['+'] + int_dec(i), min, max) == Some(i),
        i >= 0 ==> read_unsigned(int_dec(i), max) == Some(i),
        i >= 0 ==> read_unsigned(seq!['+'] + int_dec(i), max) == Some(i),
{
    if i < 0 {
        law_decimal_reads_back((-i) as nat);
        assert(int_dec(i).skip(1) =~= dec((-i) as nat));
    } else {
        let d = dec(i as nat);
        law_decimal_reads_back(i as nat);
        assert(text::is_digit(d[0]));
        assert((seq!['+'] + d).skip(1) =~= d);
    }
}

/// A text that is read as a number consists of digits, with a sign in front or
/// none, and the number lies between the bounds.
pub proof fn law_only_numbers_are_read(s: Seq<char>, min: int, max: int)
    requires
        min <= 0 <= max,
    ensures
        read_signed(s, min, max) matches Some(n) ==> {
            &&& min <= n <= max
            &&& s.len() > 0
            &&& s[0] == '+' || s[0] == '-' || text::is_digit(s[0])
            &&& s[0] == '+' || s[0] == '-' ==> s.len() > 1
            &&& forall|i: int| 1 <= i < s.len() ==> text::is_digit(#[trigger] s[i])
        },
        read_unsigned(s, max) matches Some(n) ==> 0 <= n <= max && s[0] != '-'
            && read_signed(s, min, max) == Some(n),
{
    if read_signed(s, min, max) is Some {
        let d = if s[0] == '-' {
            s.skip(1)
        } else {
            unsigned_part(s, '+')
        };
        assert forall|i: int| 1 <= i < s.len() implies text::is_digit(#[trigger] s[i]) by {
            if d.len() < s.len() {
                assert(d[i - 1] == s[i]);
            } else {
                assert(d[i] == s[i]);
            }
        }
        assert(text::is_digit(d[0]));
    }
    if read_unsigned(s, max) is Some && s.len() > 0 && s[0] == '-' {
        assert(text::is_digit(s[0]));
    }
}

/// The hexadecimal form of bytes has two digits for each, the higher one first.
pub proof fn law_hex_is_two_digits_each(bytes: Seq<u8>, i: int)
    requires
        0 <= i < bytes.len(),
    ensures
        hex_text(bytes).len() == 2 * bytes.len(),
        hex_text(bytes)[2 * i] == hex_digit(bytes[i] as int / 16),
        hex_text(bytes)[2 * i + 1] == hex_digit(bytes[i] as int % 16),
    decreases bytes.len(),
{
    let front = bytes.drop_last();
    let last = bytes.last();
    reveal_with_fuel(hex_fixed, 3);
    assert(hex_fixed(last as nat, 2) =~= seq![
        hex_digit((last as nat / 16) as int % 16),
        hex_digit(last as int % 16),
    ]);
    if front.len() > 0 {
        law_hex_is_two_digits_each(front, if i < front.len() { i } else { 0 });
    } else {
        assert(hex_text(front).len() == 0);
    }
    if i < front.len() {
        assert(front[i] == bytes[i]);
    }
}

/// A hexadecimal digit is a decimal one below ten, and a small letter from the
/// start of the alphabet above.
pub proof fn law_hex_digits(d: int)
    ensures
        0 <= d < 10 ==> hex_digit(d) as int == '0' as int + d,
        10 <= d < 16 ==> hex_digit(d) as int == 'a' as int + d - 10,
        0 <= d < 10 ==> digit(d) as int == '0' as int + d && digit_value(digit(d)) == d,
{
}

} // verus!
