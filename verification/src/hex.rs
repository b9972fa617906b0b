//! 64-bit numbers as hexadecimal text, as they go to and come from the oracle.

use vstd::prelude::*;
use vstd::string::*;

verus! {

/// The value of the hexadecimal digit `c`, in either case.
pub open spec fn hex_digit(c: char) -> Option<nat> {
    if '0' <= c && c <= '9' {
        Some((c as nat - '0' as nat) as nat)
    } else if 'a' <= c && c <= 'f' {
        Some((c as nat - 'a' as nat + 10) as nat)
    } else if 'A' <= c && c <= 'F' {
        Some((c as nat - 'A' as nat + 10) as nat)
    } else {
        None
    }
}

/// The number that the hexadecimal digits `s` stand for, the highest first.
pub open spec fn hex_value(s: Seq<char>) -> Option<nat>
    decreases s.len(),
{
    if s.len() == 0 {
        Some(0)
    } else {
        match (hex_value(s.drop_last()), hex_digit(s.last())) {
            (Some(v), Some(d)) => Some(16 * v + d),
            _ => None,
        }
    }
}

/// The number that `s` stands for: `0x`, then hexadecimal digits, one at
/// least, of a number that fits in 64 bits.
pub open spec fn read_hex(s: Seq<char>) -> Option<u64> {
    if s.len() > 2 && s[0] == '0' && s[1] == 'x' {
        match hex_value(s.skip(2)) {
            Some(v) => if v <= u64::MAX {
                Some(v as u64)
            } else {
                None
            },
            None => None,
        }
    } else {
        None
    }
}

/// The hexadecimal digit of `d`, in lower case.
pub open spec fn hex_char(d: nat) -> char {
    "0123456789abcdef"@[d as int]
}

/// The hexadecimal digits of `n`, the highest first, without zeros in front.
pub open spec fn hex_text(n: nat) -> Seq<char>
    decreases n,
{
    if n < 16 {
        seq![hex_char(n)]
    } else {
        hex_text(n / 16).push(hex_char(n % 16))
    }
}

/// The value of the hexadecimal digit `c`, in either case.
pub fn digit_value(c: char) -> (d: Option<u8>)
    ensures
        match d {
            Some(d) => hex_digit(c) == Some(d as nat) && d < 16,
            None => hex_digit(c) is None,
        },
{
    if '0' <= c && c <= '9' {
        Some((c as u32 - '0' as u32) as u8)
    } else if 'a' <= c && c <= 'f' {
        Some((c as u32 - 'a' as u32 + 10) as u8)
    } else if 'A' <= c && c <= 'F' {
        Some((c as u32 - 'A' as u32 + 10) as u8)
    } else {
        None
    }
}

/// The value of a prefix of digits is no more than that of the whole.
proof fn lemma_hex_value_grows(s: Seq<char>, k: int)
    requires
        0 <= k <= s.len(),
        hex_value(s) is Some,
    ensures
        hex_value(s.take(k)) is Some,
        hex_value(s.take(k))->0 <= hex_value(s)->0,
    decreases s.len() - k,
{
    if k == s.len() {
        assert(s.take(k) =~= s);
    } else {
        lemma_hex_value_grows(s, k + 1);
        assert(s.take(k + 1).drop_last() =~= s.take(k));
    }
}

/// A prefix of digits that are no number is in front of no number.
proof fn lemma_hex_value_none(s: Seq<char>, k: int)
    requires
        0 <= k <= s.len(),
        hex_value(s.take(k)) is None,
    ensures
        hex_value(s) is None,
    decreases s.len() - k,
{
    if k == s.len() {
        assert(s.take(k) =~= s);
    } else {
        assert(s.take(k + 1).drop_last() =~= s.take(k));
        lemma_hex_value_none(s, k + 1);
    }
}

/// Reads a number: `0x`, then hexadecimal digits. There is none where the
/// text begins otherwise, holds no digit or something else, or stands for
/// more than 64 bits hold.
pub fn read_0x_hex(s: &str) -> (r: Option<u64>)
    ensures
        r == read_hex(s@),
{
    let n = s.unicode_len();
    if n <= 2 || s.get_char(0) != '0' || s.get_char(1) != 'x' {
        return None;
    }
    let ghost digits = s@.skip(2);
    let mut value: u64 = 0;
    let mut i: usize = 2;
    assert(digits.take(0) =~= Seq::<char>::empty());
    while i < n
        invariant
            n == s@.len(),
            digits == s@.skip(2),
            2 <= i <= n,
            hex_value(digits.take(i - 2)) == Some(value as nat),
        decreases n - i,
    {
        let c = s.get_char(i);
        proof {
            assert(digits.take(i - 1).drop_last() =~= digits.take(i - 2));
            assert(digits.take(i - 1).last() == c);
        }
        let d = match digit_value(c) {
            Some(d) => d,
            None => {
                proof {
                    lemma_hex_value_none(digits, i - 1);
                }
                return None;
            },
        };
        if value > (u64::MAX - d as u64) / 16 {
            proof {
                if hex_value(digits) is Some {
                    lemma_hex_value_grows(digits, i - 1);
                }
            }
            return None;
        }
        value = 16 * value + d as u64;
        i = i + 1;
    }
    assert(digits.take(n - 2) =~= digits);
    Some(value)
}

/// Writes the hexadecimal digits of `n` at the end of `out`.
pub fn write_hex(n: u64, out: &mut String)
    ensures
        final(out)@ == old(out)@ + hex_text(n as nat),
    decreases n,
{
    let table = "0123456789abcdef";
    proof {
        reveal_strlit("0123456789abcdef");
    }
    if n >= 16 {
        write_hex(n / 16, out);
    }
    let d = (n % 16) as usize;
    let digit = table.substring_char(d, d + 1);
    assert(digit@ =~= seq![hex_char(d as nat)]);
    out.append(digit);
    assert(out@ =~= old(out)@ + hex_text(n as nat));
}

/// The hexadecimal digits of `n`, in lower case, without zeros in front.
pub fn to_hex(n: u64) -> (s: String)
    ensures
        s@ == hex_text(n as nat),
{
    let mut s = String::new();
    write_hex(n, &mut s);
    assert(s@ =~= hex_text(n as nat));
    s
}

/// The digits that are written are digits, each with its value.
proof fn lemma_hex_char(d: nat)
    requires
        d < 16,
    ensures
        hex_digit(hex_char(d)) == Some(d),
{
    reveal_strlit("0123456789abcdef");
    let s = "0123456789abcdef"@;
    assert(s[0] == '0' && s[1] == '1' && s[2] == '2' && s[3] == '3' && s[4] == '4' && s[5] == '5'
        && s[6] == '6' && s[7] == '7');
    assert(s[8] == '8' && s[9] == '9' && s[10] == 'a' && s[11] == 'b' && s[12] == 'c' && s[13]
        == 'd' && s[14] == 'e' && s[15] == 'f');
}

/// The digits of a number stand for the number.
proof fn lemma_hex_text_value(n: nat)
    ensures
        hex_value(hex_text(n)) == Some(n),
        hex_text(n).len() >= 1,
    decreases n,
{
    lemma_hex_char(n % 16);
    assert(hex_text(n).last() == hex_char(n % 16));
    if n < 16 {
        assert(hex_text(n).drop_last() =~= Seq::<char>::empty());
        assert(hex_value(Seq::<char>::empty()) == Some(0nat));
    } else {
        lemma_hex_text_value(n / 16);
        assert(hex_text(n).drop_last() =~= hex_text(n / 16));
    }
}

/// A number that is written and, with `0x` in front, read again is the same number.
pub proof fn law_hex_round_trip(n: u64)
    ensures
        read_hex(seq!['0', 'x'] + hex_text(n as nat)) == Some(n),
{
    let s = seq!['0', 'x'] + hex_text(n as nat);
    lemma_hex_text_value(n as nat);
    assert(s.skip(2) =~= hex_text(n as nat));
}

} // verus!
