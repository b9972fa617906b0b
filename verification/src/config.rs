//! The settings of a search: how many workers, and how long they may take.

use vstd::prelude::*;
use vstd::string::*;

verus! {

/// How many workers search where nothing else is set.
pub const DEFAULT_PARALLELISM: usize = 1;

/// How many seconds a search may take where nothing else is set.
pub const DEFAULT_TIMEOUT: u64 = 60;

/// The value of the decimal digit `c`.
pub open spec fn decimal_digit(c: char) -> Option<nat> {
    if '0' <= c && c <= '9' {
        Some((c as nat - '0' as nat) as nat)
    } else {
        None
    }
}

/// The number that the decimal digits `s` stand for, the highest first.
pub open spec fn decimal_value(s: Seq<char>) -> Option<nat>
    decreases s.len(),
{
    if s.len() == 0 {
        Some(0)
    } else {
        match (decimal_value(s.drop_last()), decimal_digit(s.last())) {
            (Some(v), Some(d)) => Some(10 * v + d),
            _ => None,
        }
    }
}

/// The number that `s` stands for: decimal digits, one at least, of a
/// number that fits in 64 bits.
pub open spec fn read_number(s: Seq<char>) -> Option<u64> {
    if s.len() == 0 {
        None
    } else {
        match decimal_value(s) {
            Some(v) => if v <= u64::MAX {
                Some(v as u64)
            } else {
                None
            },
            None => None,
        }
    }
}

/// The value of a prefix of digits is no more than that of the whole.
proof fn lemma_decimal_value_grows(s: Seq<char>, k: int)
    requires
        0 <= k <= s.len(),
        decimal_value(s) is Some,
    ensures
        decimal_value(s.take(k)) is Some,
        decimal_value(s.take(k))->0 <= decimal_value(s)->0,
    decreases s.len() - k,
{
    if k == s.len() {
        assert(s.take(k) =~= s);
    } else {
        lemma_decimal_value_grows(s, k + 1);
        assert(s.take(k + 1).drop_last() =~= s.take(k));
    }
}

/// A prefix of digits that are no number is in front of no number.
proof fn lemma_decimal_value_none(s: Seq<char>, k: int)
    requires
        0 <= k <= s.len(),
        decimal_value(s.take(k)) is None,
    ensures
        decimal_value(s) is None,
    decreases s.len() - k,
{
    if k == s.len() {
        assert(s.take(k) =~= s);
    } else {
        assert(s.take(k + 1).drop_last() =~= s.take(k));
        lemma_decimal_value_none(s, k + 1);
    }
}

/// Reads a number from decimal digits. There is none where the text is
/// empty, holds something else, or stands for more than 64 bits hold.
pub fn read_decimal(s: &str) -> (r: Option<u64>)
    ensures
        r == read_number(s@),
{
    let n = s.unicode_len();
    if n == 0 {
        return None;
    }
    let mut value: u64 = 0;
    let mut i: usize = 0;
    assert(s@.take(0) =~= Seq::<char>::empty());
    while i < n
        invariant
            n == s@.len(),
            0 <= i <= n,
            decimal_value(s@.take(i as int)) == Some(value as nat),
        decreases n - i,
    {
        let c = s.get_char(i);
        proof {
            assert(s@.take(i + 1).drop_last() =~= s@.take(i as int));
            assert(s@.take(i + 1).last() == c);
        }
        if !('0' <= c && c <= '9') {
            proof {
                lemma_decimal_value_none(s@, i + 1);
            }
            return None;
        }
        let d = (c as u32 - '0' as u32) as u64;
        if value > (u64::MAX - d) / 10 {
            proof {
                if decimal_value(s@) is Some {
                    lemma_decimal_value_grows(s@, i + 1);
                }
            }
            return None;
        }
        value = 10 * value + d;
        i = i + 1;
    }
    assert(s@.take(n as int) =~= s@);
    Some(value)
}

/// How many workers search: what `setting` says where it is a number
/// that fits, else `DEFAULT_PARALLELISM`.
pub fn parallelism(setting: Option<&str>) -> (n: usize)
    ensures
        n == match setting {
            Some(s) => match read_number(s@) {
                Some(v) => if v <= usize::MAX {
                    v as usize
                } else {
                    DEFAULT_PARALLELISM
                },
                None => DEFAULT_PARALLELISM,
            },
            None => DEFAULT_PARALLELISM,
        },
{
    match setting {
        Some(s) => match read_decimal(s) {
            Some(v) => if v <= usize::MAX as u64 {
                v as usize
            } else {
                DEFAULT_PARALLELISM
            },
            None => DEFAULT_PARALLELISM,
        },
        None => DEFAULT_PARALLELISM,
    }
}

/// The seconds that `setting` says, where it is a number, else `DEFAULT_TIMEOUT`.
pub open spec fn timeout_secs(setting: Option<Seq<char>>) -> u64 {
    match setting {
        Some(s) => match read_number(s) {
            Some(v) => v,
            None => DEFAULT_TIMEOUT,
        },
        None => DEFAULT_TIMEOUT,
    }
}

/// How many nanoseconds a search may take: the seconds that `setting`
/// says, else `DEFAULT_TIMEOUT`; no more than 64 bits hold.
pub fn timeout_ns(setting: Option<&str>) -> (ns: u64)
    ensures
        ns == if timeout_secs(
            match setting {
                Some(s) => Some(s@),
                None => None,
            },
        ) * 1000000000 <= u64::MAX {
            timeout_secs(
                match setting {
                    Some(s) => Some(s@),
                    None => None,
                },
            ) * 1000000000
        } else {
            u64::MAX as int
        },
{
    let secs = match setting {
        Some(s) => match read_decimal(s) {
            Some(v) => v,
            None => DEFAULT_TIMEOUT,
        },
        None => DEFAULT_TIMEOUT,
    };
    if secs <= u64::MAX / 1000000000 {
        secs * 1000000000
    } else {
        u64::MAX
    }
}

} // verus!
