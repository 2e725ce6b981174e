//! File names of unpacked audio entries: a link id becomes eight lowercase
//! hexadecimal digits with the fixed extension, and a file name stem parses
//! back to a link id. A non-hexadecimal stem is a format error, never a
//! crash.

use vstd::prelude::*;

use crate::errors::KtslError;

verus! {

/// The hexadecimal digit character for a value below 16.
pub open spec fn hex_digit(d: int) -> char
    recommends
        0 <= d < 16,
{
    if d == 0 {
        '0'
    } else if d == 1 {
        '1'
    } else if d == 2 {
        '2'
    } else if d == 3 {
        '3'
    } else if d == 4 {
        '4'
    } else if d == 5 {
        '5'
    } else if d == 6 {
        '6'
    } else if d == 7 {
        '7'
    } else if d == 8 {
        '8'
    } else if d == 9 {
        '9'
    } else if d == 10 {
        'a'
    } else if d == 11 {
        'b'
    } else if d == 12 {
        'c'
    } else if d == 13 {
        'd'
    } else if d == 14 {
        'e'
    } else {
        'f'
    }
}

/// `00aa11bb.ktss` for link id 0x00AA11BB: eight lowercase hex digits, most
/// significant first, then the fixed extension.
pub open spec fn spec_hex_name(id: u32) -> Seq<char> {
    seq![
        hex_digit(((id >> 28) & 0xf) as int),
        hex_digit(((id >> 24) & 0xf) as int),
        hex_digit(((id >> 20) & 0xf) as int),
        hex_digit(((id >> 16) & 0xf) as int),
        hex_digit(((id >> 12) & 0xf) as int),
        hex_digit(((id >> 8) & 0xf) as int),
        hex_digit(((id >> 4) & 0xf) as int),
        hex_digit((id & 0xf) as int),
        '.',
        'k',
        't',
        's',
        's',
    ]
}

/// The one-character string for a hexadecimal digit value.
fn hex_digit_str(d: u32) -> (r: &'static str)
    requires
        d < 16,
    ensures
        r@ =~= seq![hex_digit(d as int)],
{
    if d == 0 {
        proof {
            reveal_strlit("0");
        }
        "0"
    } else if d == 1 {
        proof {
            reveal_strlit("1");
        }
        "1"
    } else if d == 2 {
        proof {
            reveal_strlit("2");
        }
        "2"
    } else if d == 3 {
        proof {
            reveal_strlit("3");
        }
        "3"
    } else if d == 4 {
        proof {
            reveal_strlit("4");
        }
        "4"
    } else if d == 5 {
        proof {
            reveal_strlit("5");
        }
        "5"
    } else if d == 6 {
        proof {
            reveal_strlit("6");
        }
        "6"
    } else if d == 7 {
        proof {
            reveal_strlit("7");
        }
        "7"
    } else if d == 8 {
        proof {
            reveal_strlit("8");
        }
        "8"
    } else if d == 9 {
        proof {
            reveal_strlit("9");
        }
        "9"
    } else if d == 10 {
        proof {
            reveal_strlit("a");
        }
        "a"
    } else if d == 11 {
        proof {
            reveal_strlit("b");
        }
        "b"
    } else if d == 12 {
        proof {
            reveal_strlit("c");
        }
        "c"
    } else if d == 13 {
        proof {
            reveal_strlit("d");
        }
        "d"
    } else if d == 14 {
        proof {
            reveal_strlit("e");
        }
        "e"
    } else {
        proof {
            reveal_strlit("f");
        }
        "f"
    }
}

/// The file name an audio entry unpacks to.
pub fn ktss_file_name(link_id: u32) -> (r: String)
    ensures
        r@ == spec_hex_name(link_id),
{
    let mut s = String::new();
    proof {
        assert((link_id >> 28) & 0xf < 16 && (link_id >> 24) & 0xf < 16 && (link_id >> 20) & 0xf
            < 16 && (link_id >> 16) & 0xf < 16 && (link_id >> 12) & 0xf < 16 && (link_id >> 8)
            & 0xf < 16 && (link_id >> 4) & 0xf < 16 && link_id & 0xf < 16) by (bit_vector);
    }
    s.append(hex_digit_str((link_id >> 28) & 0xf));
    s.append(hex_digit_str((link_id >> 24) & 0xf));
    s.append(hex_digit_str((link_id >> 20) & 0xf));
    s.append(hex_digit_str((link_id >> 16) & 0xf));
    s.append(hex_digit_str((link_id >> 12) & 0xf));
    s.append(hex_digit_str((link_id >> 8) & 0xf));
    s.append(hex_digit_str((link_id >> 4) & 0xf));
    s.append(hex_digit_str(link_id & 0xf));
    proof {
        reveal_strlit(".ktss");
    }
    s.append(".ktss");
    proof {
        assert(s@ =~= spec_hex_name(link_id));
    }
    s
}

pub open spec fn is_hex_char(c: char) -> bool {
    (48 <= c as int && c as int <= 57) || (97 <= c as int && c as int <= 102) || (65 <= c as int
        && c as int <= 70)
}

pub open spec fn hex_char_val(c: char) -> int
    recommends
        is_hex_char(c),
{
    if 48 <= c as int && c as int <= 57 {
        c as int - 48
    } else if 97 <= c as int && c as int <= 102 {
        c as int - 87
    } else {
        c as int - 55
    }
}

/// The number a sequence of hexadecimal digits denotes, most significant
/// first.
pub open spec fn spec_hex_value(s: Seq<char>) -> int
    decreases s.len(),
{
    if s.len() == 0 {
        0
    } else {
        spec_hex_value(s.drop_last()) * 16 + hex_char_val(s.last())
    }
}

/// A run of hexadecimal digits denotes a value below `16 ^ length`.
pub proof fn lemma_hex_value_pow_bound(s: Seq<char>)
    requires
        forall|i: int| 0 <= i < s.len() ==> is_hex_char(#[trigger] s[i]),
    ensures
        0 <= spec_hex_value(s) < vstd::arithmetic::power::pow(16, s.len()),
    decreases s.len(),
{
    reveal(vstd::arithmetic::power::pow);
    if s.len() == 0 {
    } else {
        lemma_hex_value_pow_bound(s.drop_last());
        let prev = spec_hex_value(s.drop_last());
        let pm1 = vstd::arithmetic::power::pow(16, (s.len() - 1) as nat);
        let d = hex_char_val(s.last());
        assert(0 <= d < 16);
        assert(vstd::arithmetic::power::pow(16, s.len()) == 16 * pm1);
        assert(prev * 16 + d < 16 * pm1) by (nonlinear_arith)
            requires
                0 <= prev < pm1,
                0 <= d < 16,
        ;
    }
}

/// The concrete powers the stem lengths reach.
pub proof fn lemma_pow16_values()
    ensures
        vstd::arithmetic::power::pow(16, 7) == 0x10000000,
        vstd::arithmetic::power::pow(16, 8) == 0x100000000,
{
    reveal_with_fuel(vstd::arithmetic::power::pow, 10);
    assert(vstd::arithmetic::power::pow(16, 0) == 1);
    assert(vstd::arithmetic::power::pow(16, 1) == 16);
    assert(vstd::arithmetic::power::pow(16, 2) == 0x100);
    assert(vstd::arithmetic::power::pow(16, 3) == 0x1000);
    assert(vstd::arithmetic::power::pow(16, 4) == 0x10000);
    assert(vstd::arithmetic::power::pow(16, 5) == 0x100000);
    assert(vstd::arithmetic::power::pow(16, 6) == 0x1000000);
    assert(vstd::arithmetic::power::pow(16, 7) == 0x10000000);
    assert(vstd::arithmetic::power::pow(16, 8) == 0x100000000);
}

/// Parse a file name stem as a hexadecimal link id, as the directory-mode
/// pack derives it. Returns `BadFileName` — a format error, not a crash —
/// when the stem is empty, longer than eight digits, or not hexadecimal.
pub fn parse_link_id(stem: &str) -> (r: Result<u32, KtslError>)
    ensures
        match r {
            Ok(v) => 1 <= stem@.len() <= 8 && (forall|i: int|
                0 <= i < stem@.len() ==> is_hex_char(#[trigger] stem@[i])) && v as int
                == spec_hex_value(stem@),
            Err(e) => e == KtslError::BadFileName && !(1 <= stem@.len() <= 8 && (forall|i: int|
                0 <= i < stem@.len() ==> is_hex_char(#[trigger] stem@[i]))),
        },
{
    let len = stem.unicode_len();
    if len == 0 || len > 8 {
        return Err(KtslError::BadFileName);
    }
    let mut value: u32 = 0;
    let mut i: usize = 0;
    while i < len
        invariant
            i <= len,
            len == stem@.len(),
            1 <= len <= 8,
            forall|j: int| 0 <= j < i ==> is_hex_char(#[trigger] stem@[j]),
            value as int == spec_hex_value(stem@.take(i as int)),
        decreases len - i,
    {
        let c = stem.get_char(i);
        let cv = c as u32;
        let d: u32 = if cv >= 48 && cv <= 57 {
            cv - 48
        } else if cv >= 97 && cv <= 102 {
            cv - 87
        } else if cv >= 65 && cv <= 70 {
            cv - 55
        } else {
            return Err(KtslError::BadFileName);
        };
        proof {
            assert(stem@.take(i as int) =~= stem@.take(i + 1).drop_last());
            assert(stem@.take(i + 1).last() == stem@[i as int]);
            lemma_hex_value_pow_bound(stem@.take(i as int));
            lemma_pow16_values();
            vstd::arithmetic::power::lemma_pow_increases(16, i as nat, 7);
            assert(d as int == hex_char_val(stem@[i as int]));
        }
        value = value * 16 + d;
        i = i + 1;
    }
    proof {
        assert(stem@.take(len as int) =~= stem@);
    }
    Ok(value)
}

} // verus!
