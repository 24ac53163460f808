//! Rendering of numbers as decimal and hexadecimal text, used for byte
//! literals and glyph labels.
use vstd::prelude::*;

verus! {

/// The character for one hexadecimal digit, upper case.
pub open spec fn hex_char_upper(d: int) -> char {
    if d == 0 {
        '0'
    } else if d == 1 {
        '1'
    } else if d == 2 {
        '2'
    } else if d == 3 {
        '3'
    } else if d == 4 {
        '4'
    } else if d == 5 {
        '5'
    } else if d == 6 {
        '6'
    } else if d == 7 {
        '7'
    } else if d == 8 {
        '8'
    } else if d == 9 {
        '9'
    } else if d == 10 {
        'A'
    } else if d == 11 {
        'B'
    } else if d == 12 {
        'C'
    } else if d == 13 {
        'D'
    } else if d == 14 {
        'E'
    } else {
        'F'
    }
}

/// The character for one hexadecimal digit, lower case.
pub open spec fn hex_char_lower(d: int) -> char {
    if d == 10 {
        'a'
    } else if d == 11 {
        'b'
    } else if d == 12 {
        'c'
    } else if d == 13 {
        'd'
    } else if d == 14 {
        'e'
    } else if d == 15 {
        'f'
    } else {
        hex_char_upper(d)
    }
}

/// The decimal rendering of `n`, most significant digit first, no padding.
pub open spec fn spec_dec(n: nat) -> Seq<char>
    decreases n,
{
    if n < 10 {
        seq![hex_char_upper(n as int)]
    } else {
        spec_dec(n / 10).push(hex_char_upper((n % 10) as int))
    }
}

/// The upper-case hexadecimal rendering of `n`, most significant digit first,
/// no padding.
pub open spec fn spec_hex(n: nat) -> Seq<char>
    decreases n,
{
    if n < 16 {
        seq![hex_char_upper(n as int)]
    } else {
        spec_hex(n / 16).push(hex_char_upper((n % 16) as int))
    }
}

/// The upper-case hexadecimal rendering of `n`, zero-padded on the left to at
/// least two digits.
pub open spec fn spec_hex_pad2(n: nat) -> Seq<char> {
    if n < 16 {
        seq!['0'] + spec_hex(n)
    } else {
        spec_hex(n)
    }
}

/// The two upper-case hexadecimal digits of one byte.
pub open spec fn spec_byte_hex_upper(b: u8) -> Seq<char> {
    seq![hex_char_upper(b as int / 16), hex_char_upper(b as int % 16)]
}

/// The two lower-case hexadecimal digits of one byte.
pub open spec fn spec_byte_hex_lower(b: u8) -> Seq<char> {
    seq![hex_char_lower(b as int / 16), hex_char_lower(b as int % 16)]
}

/// One upper-case hexadecimal digit as a string slice.
fn hex_str_upper(d: u8) -> (r: &'static str)
    requires
        d < 16,
    ensures
        r@.len() == 1,
        r@[0] == hex_char_upper(d as int),
{
    match d {
        0 => {
            proof {
                reveal_strlit("0");
            }
            "0"
        },
        1 => {
            proof {
                reveal_strlit("1");
            }
            "1"
        },
        2 => {
            proof {
                reveal_strlit("2");
            }
            "2"
        },
        3 => {
            proof {
                reveal_strlit("3");
            }
            "3"
        },
        4 => {
            proof {
                reveal_strlit("4");
            }
            "4"
        },
        5 => {
            proof {
                reveal_strlit("5");
            }
            "5"
        },
        6 => {
            proof {
                reveal_strlit("6");
            }
            "6"
        },
        7 => {
            proof {
                reveal_strlit("7");
            }
            "7"
        },
        8 => {
            proof {
                reveal_strlit("8");
            }
            "8"
        },
        9 => {
            proof {
                reveal_strlit("9");
            }
            "9"
        },
        10 => {
            proof {
                reveal_strlit("A");
            }
            "A"
        },
        11 => {
            proof {
                reveal_strlit("B");
            }
            "B"
        },
        12 => {
            proof {
                reveal_strlit("C");
            }
            "C"
        },
        13 => {
            proof {
                reveal_strlit("D");
            }
            "D"
        },
        14 => {
            proof {
                reveal_strlit("E");
            }
            "E"
        },
        _ => {
            proof {
                reveal_strlit("F");
            }
            "F"
        },
    }
}

/// One lower-case hexadecimal digit as a string slice.
fn hex_str_lower(d: u8) -> (r: &'static str)
    requires
        d < 16,
    ensures
        r@.len() == 1,
        r@[0] == hex_char_lower(d as int),
{
    match d {
        10 => {
            proof {
                reveal_strlit("a");
            }
            "a"
        },
        11 => {
            proof {
                reveal_strlit("b");
            }
            "b"
        },
        12 => {
            proof {
                reveal_strlit("c");
            }
            "c"
        },
        13 => {
            proof {
                reveal_strlit("d");
            }
            "d"
        },
        14 => {
            proof {
                reveal_strlit("e");
            }
            "e"
        },
        15 => {
            proof {
                reveal_strlit("f");
            }
            "f"
        },
        _ => hex_str_upper(d),
    }
}

/// Appends the decimal rendering of `n` to `s`.
pub fn append_dec_u64(s: &mut String, n: u64)
    ensures
        final(s)@ == old(s)@ + spec_dec(n as nat),
    decreases n,
{
    if n < 10 {
        let d = hex_str_upper(n as u8);
        s.append(d);
        proof {
            assert(s@ =~= old(s)@ + spec_dec(n as nat));
        }
    } else {
        append_dec_u64(s, n / 10);
        let d = hex_str_upper((n % 10) as u8);
        s.append(d);
        proof {
            assert(s@ =~= old(s)@ + spec_dec(n as nat));
        }
    }
}

/// Appends the upper-case hexadecimal rendering of `n` to `s`.
pub fn append_hex_u64(s: &mut String, n: u64)
    ensures
        final(s)@ == old(s)@ + spec_hex(n as nat),
    decreases n,
{
    if n < 16 {
        let d = hex_str_upper(n as u8);
        s.append(d);
        proof {
            assert(s@ =~= old(s)@ + spec_hex(n as nat));
        }
    } else {
        append_hex_u64(s, n / 16);
        let d = hex_str_upper((n % 16) as u8);
        s.append(d);
        proof {
            assert(s@ =~= old(s)@ + spec_hex(n as nat));
        }
    }
}

/// Appends the upper-case hexadecimal rendering of `n`, zero-padded to at
/// least two digits, to `s`.
pub fn append_hex_pad2_u64(s: &mut String, n: u64)
    ensures
        final(s)@ == old(s)@ + spec_hex_pad2(n as nat),
{
    if n < 16 {
        s.append("0");
        proof {
            reveal_strlit("0");
        }
        append_hex_u64(s, n);
        proof {
            assert(s@ =~= old(s)@ + spec_hex_pad2(n as nat));
        }
    } else {
        append_hex_u64(s, n);
    }
}

/// Appends the two upper-case hexadecimal digits of `b` to `s`.
pub fn append_byte_hex_upper(s: &mut String, b: u8)
    ensures
        final(s)@ == old(s)@ + spec_byte_hex_upper(b),
{
    let hi = hex_str_upper(b / 16);
    s.append(hi);
    let lo = hex_str_upper(b % 16);
    s.append(lo);
    proof {
        assert(s@ =~= old(s)@ + spec_byte_hex_upper(b));
    }
}

/// Appends the two lower-case hexadecimal digits of `b` to `s`.
pub fn append_byte_hex_lower(s: &mut String, b: u8)
    ensures
        final(s)@ == old(s)@ + spec_byte_hex_lower(b),
{
    let hi = hex_str_lower(b / 16);
    s.append(hi);
    let lo = hex_str_lower(b % 16);
    s.append(lo);
    proof {
        assert(s@ =~= old(s)@ + spec_byte_hex_lower(b));
    }
}

} // verus!
