//! Identifying the running daemon: the name of its control event and the
//! process id stored in its pidfile.

use vstd::prelude::*;

use crate::text::{chars_of, is_white_space, str_trim, trim_ws};

verus! {

broadcast use vstd::seq_lib::group_seq_properties;

/// FNV-1a offset basis (64-bit).
pub const FNV_OFFSET: u64 = 0xcbf2_9ce4_8422_2325;

/// FNV-1a prime (64-bit).
pub const FNV_PRIME: u64 = 0x0000_0100_0000_01b3;

/// 64-bit FNV-1a hash of a sequence of UTF-16 code units.
pub open spec fn fnv1a(units: Seq<u16>) -> u64
    decreases units.len(),
{
    if units.len() == 0 {
        0xcbf2_9ce4_8422_2325
    } else {
        (((fnv1a(units.drop_last()) ^ (units.last() as u64)) as int * 0x0000_0100_0000_01b3)
            % 0x1_0000_0000_0000_0000) as u64
    }
}

/// The lower-case hexadecimal digit for `d < 16`, as a UTF-16 unit.
pub open spec fn hex_digit(d: u64) -> u16 {
    if d < 10 {
        (0x30 + d) as u16
    } else {
        (0x61 + d - 10) as u16
    }
}

/// `h` as exactly 16 lower-case hexadecimal digits, most significant first.
pub open spec fn hex16(h: u64) -> Seq<u16> {
    Seq::new(16, |i: int| hex_digit((h >> ((60 - 4 * i) as u64)) & 0xfu64))
}

/// The name of the daemon's control event for a pidfile path given as
/// UTF-16 units: `Local\barkd-control-<hash>` with the 16-digit FNV-1a hash
/// of the path, NUL-terminated.
pub open spec fn event_name_units(path: Seq<u16>) -> Seq<u16> {
    "Local\\barkd-control-"@.map_values(|c: char| c as u16) + hex16(fnv1a(path)) + seq![0u16]
}

/// The control event name for a (lower-cased, canonical) pidfile path.
pub fn control_event_name(path: &[u16]) -> (name: Vec<u16>)
    ensures
        name@ == event_name_units(path@),
{
    let mut hash: u64 = FNV_OFFSET;
    let mut i: usize = 0;
    while i < path.len()
        invariant
            i <= path@.len(),
            hash == fnv1a(path@.take(i as int)),
        decreases path@.len() - i,
    {
        proof {
            assert(path@.take(i + 1).drop_last() =~= path@.take(i as int));
        }
        hash = (hash ^ (path[i] as u64)).wrapping_mul(FNV_PRIME);
        i = i + 1;
    }
    proof {
        assert(path@.take(path@.len() as int) =~= path@);
    }
    let prefix = chars_of("Local\\barkd-control-");
    let mut name: Vec<u16> = Vec::new();
    let mut k: usize = 0;
    while k < prefix.len()
        invariant
            k <= prefix@.len(),
            prefix@ == "Local\\barkd-control-"@,
            name@ == prefix@.take(k as int).map_values(|c: char| c as u16),
        decreases prefix@.len() - k,
    {
        let c: char = prefix[k];
        name.push(c as u16);
        k = k + 1;
        proof {
            assert(name@ =~= prefix@.take(k as int).map_values(|c: char| c as u16));
        }
    }
    proof {
        assert(prefix@.take(prefix@.len() as int) =~= prefix@);
    }
    let ghost before = name@;
    let mut d: u64 = 0;
    while d < 16
        invariant
            d <= 16,
            name@ == before + hex16(hash).take(d as int),
        decreases 16 - d,
    {
        let shift: u64 = 60 - 4 * d;
        let nibble: u64 = (hash >> shift) & 0xf;
        proof {
            assert(nibble < 16) by (bit_vector)
                requires
                    nibble == (hash >> shift) & 0xfu64,
            ;
        }
        let digit: u16 = if nibble < 10 {
            (0x30 + nibble) as u16
        } else {
            (0x61 + nibble - 10) as u16
        };
        name.push(digit);
        proof {
            assert(digit == hex16(hash)[d as int]);
            assert(name@ =~= before + hex16(hash).take(d + 1));
        }
        d = d + 1;
    }
    name.push(0);
    proof {
        assert(hex16(hash).take(16) =~= hex16(hash));
        assert(name@ =~= event_name_units(path@));
    }
    name
}

/// Why a pidfile's content is not a usable process id.
#[derive(Debug, Clone, Copy, PartialEq, Eq, Structural)]
pub enum PidError {
    /// Not an unsigned 32-bit decimal number.
    Invalid,
    /// The number is zero.
    Zero,
    /// The number does not fit the platform's process id type.
    TooLarge,
}

/// Whether `c` is an ASCII decimal digit.
pub open spec fn is_digit(c: char) -> bool {
    '0' <= c <= '9'
}

/// The value of a string of decimal digits.
pub open spec fn decimal_value(s: Seq<char>) -> int
    decreases s.len(),
{
    if s.len() == 0 {
        0
    } else {
        decimal_value(s.drop_last()) * 10 + (s.last() as int - '0' as int)
    }
}

/// The digits of an unsigned decimal literal: an optional leading '+'
/// removed.
pub open spec fn unsigned_digits(s: Seq<char>) -> Seq<char> {
    if s.len() > 0 && s[0] == '+' {
        s.drop_first()
    } else {
        s
    }
}

/// Whether `s` reads as a `u32` the way `u32::from_str` accepts it: an
/// optional '+', at least one digit, nothing else, value at most
/// `u32::MAX`.
pub open spec fn parses_as_u32(s: Seq<char>) -> bool {
    let d = unsigned_digits(s);
    &&& d.len() > 0
    &&& forall|i: int| 0 <= i < d.len() ==> is_digit(#[trigger] d[i])
    &&& decimal_value(d) <= u32::MAX
}

proof fn lemma_decimal_value_nonneg(s: Seq<char>)
    requires
        forall|i: int| 0 <= i < s.len() ==> is_digit(#[trigger] s[i]),
    ensures
        decimal_value(s) >= 0,
    decreases s.len(),
{
    if s.len() > 0 {
        lemma_decimal_value_nonneg(s.drop_last());
    }
}

proof fn lemma_decimal_value_monotone(s: Seq<char>, k: int)
    requires
        0 <= k <= s.len(),
        forall|i: int| 0 <= i < s.len() ==> is_digit(#[trigger] s[i]),
    ensures
        decimal_value(s.take(k)) <= decimal_value(s),
    decreases s.len() - k,
{
    if k < s.len() {
        lemma_decimal_value_monotone(s, k + 1);
        assert(s.take(k + 1).drop_last() =~= s.take(k));
        lemma_decimal_value_nonneg(s.take(k));
    } else {
        assert(s.take(k) =~= s);
    }
}

/// Reads the process id in a pidfile: surrounding white space is ignored;
/// the rest must be a `u32` as `u32::from_str` reads it, not zero, and at
/// most `i32::MAX`.
pub fn parse_pid(text: &str) -> (res: Result<i32, PidError>)
    ensures
        !parses_as_u32(trim_ws(text@)) <==> res == Err::<i32, PidError>(PidError::Invalid),
        parses_as_u32(trim_ws(text@)) ==> {
            let v = decimal_value(unsigned_digits(trim_ws(text@)));
            &&& v == 0 <==> res == Err::<i32, PidError>(PidError::Zero)
            &&& v > i32::MAX <==> res == Err::<i32, PidError>(PidError::TooLarge)
            &&& 0 < v <= i32::MAX <==> res == Ok::<i32, PidError>(v as i32)
        },
{
    let trimmed = str_trim(text);
    let chars = chars_of(trimmed);
    let ghost t = trimmed@;
    let mut start: usize = 0;
    if chars.len() > 0 && chars[0] == '+' {
        start = 1;
    }
    let ghost d = unsigned_digits(t);
    proof {
        assert(d =~= chars@.skip(start as int));
    }
    if start >= chars.len() {
        return Err(PidError::Invalid);
    }
    let mut i: usize = start;
    while i < chars.len()
        invariant
            start <= i <= chars@.len(),
            chars@ == t,
            t == trim_ws(text@),
            d == unsigned_digits(t),
            d == chars@.skip(start as int),
            forall|j: int| 0 <= j < i - start ==> is_digit(#[trigger] d[j]),
        decreases chars@.len() - i,
    {
        let c: char = chars[i];
        if c < '0' || c > '9' {
            proof {
                assert(!is_digit(d[i - start]));
            }
            return Err(PidError::Invalid);
        }
        i = i + 1;
    }
    let mut value: u64 = 0;
    let mut i: usize = start;
    while i < chars.len()
        invariant
            start <= i <= chars@.len(),
            chars@ == t,
            t == trim_ws(text@),
            d == unsigned_digits(t),
            d == chars@.skip(start as int),
            d.len() > 0,
            forall|j: int| 0 <= j < d.len() ==> is_digit(#[trigger] d[j]),
            value == decimal_value(d.take(i - start)),
            value <= u32::MAX,
        decreases chars@.len() - i,
    {
        let c: char = chars[i];
        assert(is_digit(d[i - start]));
        let digit: u64 = (c as u32 - '0' as u32) as u64;
        let next: u64 = value * 10 + digit;
        proof {
            assert(d.take(i - start + 1).drop_last() =~= d.take(i - start));
            assert(d.take(i - start + 1).last() == c);
        }
        if next > 0xffff_ffff {
            proof {
                lemma_decimal_value_monotone(d, i - start + 1);
            }
            return Err(PidError::Invalid);
        }
        value = next;
        i = i + 1;
    }
    proof {
        assert(d.take(d.len() as int) =~= d);
    }
    if value == 0 {
        return Err(PidError::Zero);
    }
    if value > 0x7fff_ffff {
        return Err(PidError::TooLarge);
    }
    Ok(value as i32)
}

} // verus!
