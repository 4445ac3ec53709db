//! The codec string for MIME `codecs` parameters.
//!
//! For AVC it is the sample-entry name, a dot, and six upper-case hex
//! digits: the profile, compatibility and level bytes.

use vstd::prelude::*;
use vstd::string::StringExecFns;
use crate::sps::Sps;

verus! {

/// The upper-case hex digit for a value below 16.
pub open spec fn hex_digit(n: int) -> char {
    if n == 0 {
        '0'
    } else if n == 1 {
        '1'
    } else if n == 2 {
        '2'
    } else if n == 3 {
        '3'
    } else if n == 4 {
        '4'
    } else if n == 5 {
        '5'
    } else if n == 6 {
        '6'
    } else if n == 7 {
        '7'
    } else if n == 8 {
        '8'
    } else if n == 9 {
        '9'
    } else if n == 10 {
        'A'
    } else if n == 11 {
        'B'
    } else if n == 12 {
        'C'
    } else if n == 13 {
        'D'
    } else if n == 14 {
        'E'
    } else {
        'F'
    }
}

/// The two upper-case hex digits of a byte.
pub open spec fn hex_byte(b: u8) -> Seq<char> {
    seq![hex_digit(b as int / 16), hex_digit(b as int % 16)]
}

/// What a codec string is: the sample-entry name, a dot, and the hex
/// bytes for profile, compatibility and level.
pub open spec fn codec_string_spec(entry: Seq<char>, profile: u8, compat: u8, level: u8) -> Seq<
    char,
> {
    entry + "."@ + hex_byte(profile) + hex_byte(compat) + hex_byte(level)
}

/// Every character after the dot of a codec string is an upper-case
/// hex digit, and the string has exactly six of them: the format
/// `entry.PPCCLL`.
pub proof fn lemma_codec_string_format(entry: Seq<char>, profile: u8, compat: u8, level: u8)
    ensures
        ({
            let s = codec_string_spec(entry, profile, compat, level);
            &&& s.len() == entry.len() + 7
            &&& s[entry.len() as int] == '.'
            &&& forall|i: int|
                entry.len() + 1 <= i < s.len() ==> (('0' <= #[trigger] s[i] && s[i] <= '9') || (
                'A' <= s[i] && s[i] <= 'F'))
        }),
{
    let s = codec_string_spec(entry, profile, compat, level);
    reveal_strlit(".");
    assert(("."@).len() == 1);
    assert forall|i: int| entry.len() + 1 <= i < s.len() implies (('0' <= #[trigger] s[i] && s[i]
        <= '9') || ('A' <= s[i] && s[i] <= 'F')) by {
        let k = i - entry.len() - 1;
        assert(0 <= k < 6);
        let d: int = if k == 0 {
            profile as int / 16
        } else if k == 1 {
            profile as int % 16
        } else if k == 2 {
            compat as int / 16
        } else if k == 3 {
            compat as int % 16
        } else if k == 4 {
            level as int / 16
        } else {
            level as int % 16
        };
        assert(0 <= d < 16);
        assert(s[i] == hex_digit(d));
    }
}

/// The hex digit of a value below 16, as a one-character string.
fn hex_char_str(n: u8) -> (r: &'static str)
    requires
        n < 16,
    ensures
        r@ == seq![hex_digit(n as int)],
{
    proof {
        reveal_strlit("0");
        reveal_strlit("1");
        reveal_strlit("2");
        reveal_strlit("3");
        reveal_strlit("4");
        reveal_strlit("5");
        reveal_strlit("6");
        reveal_strlit("7");
        reveal_strlit("8");
        reveal_strlit("9");
        reveal_strlit("A");
        reveal_strlit("B");
        reveal_strlit("C");
        reveal_strlit("D");
        reveal_strlit("E");
        reveal_strlit("F");
    }
    if n == 0 {
        "0"
    } else if n == 1 {
        "1"
    } else if n == 2 {
        "2"
    } else if n == 3 {
        "3"
    } else if n == 4 {
        "4"
    } else if n == 5 {
        "5"
    } else if n == 6 {
        "6"
    } else if n == 7 {
        "7"
    } else if n == 8 {
        "8"
    } else if n == 9 {
        "9"
    } else if n == 10 {
        "A"
    } else if n == 11 {
        "B"
    } else if n == 12 {
        "C"
    } else if n == 13 {
        "D"
    } else if n == 14 {
        "E"
    } else {
        "F"
    }
}

/// Append the two upper-case hex digits of a byte.
fn push_hex_byte(out: &mut String, b: u8)
    ensures
        final(out)@ == old(out)@ + hex_byte(b),
{
    out.append(hex_char_str(b / 16));
    out.append(hex_char_str(b % 16));
    proof {
        assert(final(out)@ =~= old(out)@ + hex_byte(b));
    }
}

/// The codec string for a sample entry and its sequence parameter set:
/// the entry name, a dot, and the profile, compatibility and level
/// bytes as six upper-case hex digits.
pub fn codec_string(sample_entry: &str, sps: &Sps) -> (r: String)
    ensures
        r@ == codec_string_spec(
            sample_entry@,
            sps.profile,
            sps.profile_compatibility,
            sps.level,
        ),
{
    let mut out = String::from_str(sample_entry);
    out.append(".");
    push_hex_byte(&mut out, sps.profile);
    push_hex_byte(&mut out, sps.profile_compatibility);
    push_hex_byte(&mut out, sps.level);
    proof {
        assert(out@ =~= codec_string_spec(
            sample_entry@,
            sps.profile,
            sps.profile_compatibility,
            sps.level,
        ));
    }
    out
}

} // verus!
