//! Lowercase hexadecimal rendering and parsing.
//!
//! Asset ids are rendered as 16 hex digits and SHA-256 hashes as 64 hex
//! digits; parsing accepts both lowercase and uppercase digits.

use vstd::prelude::*;

verus! {

/// The lowercase hex character for a digit value below 16.
pub open spec fn hex_char_of(v: int) -> char {
    if v == 0 {
        '0'
    } else if v == 1 {
        '1'
    } else if v == 2 {
        '2'
    } else if v == 3 {
        '3'
    } else if v == 4 {
        '4'
    } else if v == 5 {
        '5'
    } else if v == 6 {
        '6'
    } else if v == 7 {
        '7'
    } else if v == 8 {
        '8'
    } else if v == 9 {
        '9'
    } else if v == 10 {
        'a'
    } else if v == 11 {
        'b'
    } else if v == 12 {
        'c'
    } else if v == 13 {
        'd'
    } else if v == 14 {
        'e'
    } else {
        'f'
    }
}

/// The digit value of a hex character, or `None` if it is not one.
/// Uppercase digits are accepted, as the original text forms are
/// case-insensitive on input.
pub open spec fn hex_val_of(c: char) -> Option<int> {
    if c == '0' {
        Some(0int)
    } else if c == '1' {
        Some(1int)
    } else if c == '2' {
        Some(2int)
    } else if c == '3' {
        Some(3int)
    } else if c == '4' {
        Some(4int)
    } else if c == '5' {
        Some(5int)
    } else if c == '6' {
        Some(6int)
    } else if c == '7' {
        Some(7int)
    } else if c == '8' {
        Some(8int)
    } else if c == '9' {
        Some(9int)
    } else if c == 'a' || c == 'A' {
        Some(10int)
    } else if c == 'b' || c == 'B' {
        Some(11int)
    } else if c == 'c' || c == 'C' {
        Some(12int)
    } else if c == 'd' || c == 'D' {
        Some(13int)
    } else if c == 'e' || c == 'E' {
        Some(14int)
    } else if c == 'f' || c == 'F' {
        Some(15int)
    } else {
        None
    }
}

/// Rendering then reading a digit gives the digit back.
pub proof fn lemma_hex_char_val(v: int)
    requires
        0 <= v < 16,
    ensures
        hex_val_of(hex_char_of(v)) == Some(v),
{
}

/// The lowercase hex rendering of a byte sequence: two digits per byte,
/// high nibble first.
pub open spec fn hex_of_bytes(bytes: Seq<u8>) -> Seq<char>
    decreases bytes.len(),
{
    if bytes.len() == 0 {
        Seq::empty()
    } else {
        hex_of_bytes(bytes.drop_last()) + seq![
            hex_char_of(bytes.last() as int / 16),
            hex_char_of(bytes.last() as int % 16),
        ]
    }
}

pub proof fn lemma_hex_of_bytes_len(bytes: Seq<u8>)
    ensures
        hex_of_bytes(bytes).len() == 2 * bytes.len(),
    decreases bytes.len(),
{
    if bytes.len() > 0 {
        lemma_hex_of_bytes_len(bytes.drop_last());
    }
}

/// The exec counterpart of a single digit, as a one-character string slice
/// so that it can be appended to a `String`.
pub fn hex_digit_str(v: u8) -> (r: &'static str)
    requires
        v < 16,
    ensures
        r@ == seq![hex_char_of(v as int)],
{
    proof {
        reveal_strlit("0");
        reveal_strlit("1");
        reveal_strlit("2");
        reveal_strlit("3");
        reveal_strlit("4");
        reveal_strlit("5");
        reveal_strlit("6");
        reveal_strlit("7");
        reveal_strlit("8");
        reveal_strlit("9");
        reveal_strlit("a");
        reveal_strlit("b");
        reveal_strlit("c");
        reveal_strlit("d");
        reveal_strlit("e");
        reveal_strlit("f");
    }
    match v {
        0 => "0",
        1 => "1",
        2 => "2",
        3 => "3",
        4 => "4",
        5 => "5",
        6 => "6",
        7 => "7",
        8 => "8",
        9 => "9",
        10 => "a",
        11 => "b",
        12 => "c",
        13 => "d",
        14 => "e",
        _ => "f",
    }
}

/// Renders a byte slice as lowercase hex, two digits per byte.
pub fn bytes_to_hex(bytes: &Vec<u8>) -> (r: String)
    ensures
        r@ == hex_of_bytes(bytes@),
{
    let mut out = String::new();
    let mut i: usize = 0;
    while i < bytes.len()
        invariant
            i <= bytes.len(),
            out@ == hex_of_bytes(bytes@.take(i as int)),
        decreases bytes.len() - i,
    {
        let b = bytes[i];
        let hi = b / 16;
        let lo = b % 16;
        out.append(hex_digit_str(hi));
        out.append(hex_digit_str(lo));
        proof {
            assert(bytes@.take(i + 1int).drop_last() =~= bytes@.take(i as int));
            assert(bytes@.take(i + 1int).last() == b);
        }
        i = i + 1;
    }
    proof {
        assert(bytes@.take(bytes@.len() as int) =~= bytes@);
    }
    out
}

/// Reads a sequence of hex characters back into bytes: `Some` exactly when
/// the length is even and every character is a hex digit.
pub open spec fn bytes_of_hex(s: Seq<char>) -> Option<Seq<u8>>
    decreases s.len(),
{
    if s.len() == 0 {
        Some(Seq::empty())
    } else if s.len() % 2 != 0 {
        None
    } else {
        let rest = bytes_of_hex(s.subrange(0, s.len() - 2));
        let hi = hex_val_of(s[s.len() - 2]);
        let lo = hex_val_of(s[s.len() - 1]);
        if rest is Some && hi is Some && lo is Some {
            Some(rest.unwrap() + seq![(hi.unwrap() * 16 + lo.unwrap()) as u8])
        } else {
            None
        }
    }
}

/// Reading back a rendering yields the original bytes.
pub proof fn lemma_hex_round_trip(bytes: Seq<u8>)
    ensures
        bytes_of_hex(hex_of_bytes(bytes)) == Some(bytes),
    decreases bytes.len(),
{
    lemma_hex_of_bytes_len(bytes);
    if bytes.len() == 0 {
        assert(hex_of_bytes(bytes) =~= Seq::<char>::empty());
        assert(bytes_of_hex(hex_of_bytes(bytes)) == Some(Seq::<u8>::empty()));
        assert(bytes =~= Seq::<u8>::empty());
    } else {
        let s = hex_of_bytes(bytes);
        let prefix = hex_of_bytes(bytes.drop_last());
        lemma_hex_of_bytes_len(bytes.drop_last());
        assert(s.subrange(0, s.len() - 2) =~= prefix);
        lemma_hex_round_trip(bytes.drop_last());
        let b = bytes.last();
        lemma_hex_char_val(b as int / 16);
        lemma_hex_char_val(b as int % 16);
        assert(s[s.len() - 2] == hex_char_of(b as int / 16));
        assert(s[s.len() - 1] == hex_char_of(b as int % 16));
        assert((b as int / 16) * 16 + b as int % 16 == b) by {
            assert(b as int == 16 * (b as int / 16) + b as int % 16) by (nonlinear_arith);
        }
        assert(bytes.drop_last() + seq![b] =~= bytes);
    }
}

/// Parses an even-length hex string into bytes; `None` exactly when some
/// character is not a hex digit.
pub fn hex_to_bytes(s: &str) -> (r: Option<Vec<u8>>)
    requires
        s@.len() % 2 == 0,
    ensures
        match r {
            Some(v) => bytes_of_hex(s@) == Some(v@),
            None => bytes_of_hex(s@) is None,
        },
{
    let len = s.unicode_len();
    let mut out: Vec<u8> = Vec::new();
    let mut i: usize = 0;
    while i < len
        invariant
            len == s@.len(),
            s@.len() % 2 == 0,
            i % 2 == 0,
            i <= len,
            bytes_of_hex(s@.subrange(0, i as int)) == Some(out@),
        decreases len - i,
    {
        let hi = hex_digit_val(s.get_char(i));
        let lo = hex_digit_val(s.get_char(i + 1));
        match (hi, lo) {
            (Some(h), Some(l)) => {
                out.push(h * 16 + l);
                proof {
                    let sub = s@.subrange(0, i + 2int);
                    assert(sub.subrange(0, sub.len() - 2) =~= s@.subrange(0, i as int));
                    assert(sub[sub.len() - 2] == s@[i as int]);
                    assert(sub[sub.len() - 1] == s@[i + 1int]);
                }
                i = i + 2;
            },
            _ => {
                proof {
                    lemma_bad_digit_no_parse(s@, i as int);
                }
                return None;
            },
        }
    }
    proof {
        assert(s@.subrange(0, s@.len() as int) =~= s@);
    }
    Some(out)
}

/// A sequence with a non-digit at an even position does not parse.
proof fn lemma_bad_digit_no_parse(s: Seq<char>, i: int)
    requires
        s.len() % 2 == 0,
        0 <= i,
        i % 2 == 0,
        i + 2 <= s.len(),
        hex_val_of(s[i]) is None || hex_val_of(s[i + 1]) is None,
    ensures
        bytes_of_hex(s) is None,
    decreases s.len(),
{
    if s.len() > i + 2 {
        lemma_bad_digit_no_parse(s.subrange(0, s.len() - 2), i);
    }
}

/// The exec form of `hex_val_of`.
pub fn hex_digit_val(c: char) -> (r: Option<u8>)
    ensures
        match r {
            Some(v) => hex_val_of(c) == Some(v as int) && v < 16,
            None => hex_val_of(c) is None,
        },
{
    match c {
        '0' => Some(0),
        '1' => Some(1),
        '2' => Some(2),
        '3' => Some(3),
        '4' => Some(4),
        '5' => Some(5),
        '6' => Some(6),
        '7' => Some(7),
        '8' => Some(8),
        '9' => Some(9),
        'a' | 'A' => Some(10),
        'b' | 'B' => Some(11),
        'c' | 'C' => Some(12),
        'd' | 'D' => Some(13),
        'e' | 'E' => Some(14),
        'f' | 'F' => Some(15),
        _ => None,
    }
}

} // verus!
