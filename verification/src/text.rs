use vstd::prelude::*;
use crate::num::is_digit;

verus! {

/// The character a supported ASCII byte stands for. The telemetry formats
/// use only digits, the minus sign, the comma and the underscore in text
/// that is also kept as `String`.
pub open spec fn ascii_char(b: u8) -> char {
    if b == 48 {
        '0'
    } else if b == 49 {
        '1'
    } else if b == 50 {
        '2'
    } else if b == 51 {
        '3'
    } else if b == 52 {
        '4'
    } else if b == 53 {
        '5'
    } else if b == 54 {
        '6'
    } else if b == 55 {
        '7'
    } else if b == 56 {
        '8'
    } else if b == 57 {
        '9'
    } else if b == 44 {
        ','
    } else if b == 45 {
        '-'
    } else {
        '_'
    }
}

pub open spec fn text_byte(b: u8) -> bool {
    is_digit(b) || b == 44 || b == 45 || b == 95
}

pub open spec fn chars_of(s: Seq<u8>) -> Seq<char> {
    s.map_values(|b: u8| ascii_char(b))
}

/// Append the character a supported byte stands for.
pub fn push_ascii(s: &mut String, b: u8)
    requires
        text_byte(b),
    ensures
        final(s)@ == old(s)@ + seq![ascii_char(b)],
{
    let ghost prev = s@;
    if b == 48 {
        proof {
            reveal_strlit("0");
        }
        s.append("0");
    } else if b == 49 {
        proof {
            reveal_strlit("1");
        }
        s.append("1");
    } else if b == 50 {
        proof {
            reveal_strlit("2");
        }
        s.append("2");
    } else if b == 51 {
        proof {
            reveal_strlit("3");
        }
        s.append("3");
    } else if b == 52 {
        proof {
            reveal_strlit("4");
        }
        s.append("4");
    } else if b == 53 {
        proof {
            reveal_strlit("5");
        }
        s.append("5");
    } else if b == 54 {
        proof {
            reveal_strlit("6");
        }
        s.append("6");
    } else if b == 55 {
        proof {
            reveal_strlit("7");
        }
        s.append("7");
    } else if b == 56 {
        proof {
            reveal_strlit("8");
        }
        s.append("8");
    } else if b == 57 {
        proof {
            reveal_strlit("9");
        }
        s.append("9");
    } else if b == 44 {
        proof {
            reveal_strlit(",");
        }
        s.append(",");
    } else if b == 45 {
        proof {
            reveal_strlit("-");
        }
        s.append("-");
    } else {
        proof {
            reveal_strlit("_");
        }
        s.append("_");
    }
    proof {
        assert(s@ =~= prev + seq![ascii_char(b)]);
    }
}

pub open spec fn text_bytes(s: Seq<u8>) -> bool {
    forall|i: int| 0 <= i < s.len() ==> text_byte(#[trigger] s[i])
}

/// The string the supported bytes stand for, character by character.
pub fn ascii_string(bytes: &Vec<u8>) -> (r: String)
    requires
        text_bytes(bytes@),
    ensures
        r@ == chars_of(bytes@),
{
    let mut out = String::new();
    let mut i: usize = 0;
    while i < bytes.len()
        invariant
            i <= bytes@.len(),
            text_bytes(bytes@),
            out@ == chars_of(bytes@.take(i as int)),
        decreases bytes@.len() - i,
    {
        push_ascii(&mut out, bytes[i]);
        proof {
            assert(chars_of(bytes@.take(i + 1)) =~= chars_of(bytes@.take(i as int)) + seq![
                ascii_char(bytes@[i as int]),
            ]);
        }
        i = i + 1;
    }
    proof {
        assert(bytes@.take(bytes@.len() as int) =~= bytes@);
    }
    out
}

/// The raw bytes of ASCII text.
pub open spec fn bytes_of_chars(s: Seq<char>) -> Seq<u8> {
    s.map_values(|c: char| c as u8)
}

pub fn str_to_bytes(s: &str) -> (r: Vec<u8>)
    requires
        s.is_ascii(),
    ensures
        r@ == bytes_of_chars(s@),
{
    proof {
        vstd::string::is_ascii_spec_bytes(s);
    }
    let b = s.as_bytes();
    let v = vstd::slice::slice_to_vec(b);
    proof {
        assert(v@ =~= bytes_of_chars(s@));
    }
    v
}

} // verus!
