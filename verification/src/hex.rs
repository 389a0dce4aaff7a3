//! Hexadecimal parsing: the address ranges of the region listing, and the
//! operator-supplied addresses and raw byte patterns.

use vstd::prelude::*;

use crate::codec::copy_range;

verus! {

pub open spec fn is_hex_digit(b: u8) -> bool {
    (48 <= b <= 57) || (65 <= b <= 70) || (97 <= b <= 102)
}

/// The value of one hex digit (0 on a byte that is none).
pub open spec fn hex_digit_val(b: u8) -> nat {
    if 48 <= b <= 57 {
        (b - 48) as nat
    } else if 65 <= b <= 70 {
        (b - 55) as nat
    } else if 97 <= b <= 102 {
        (b - 87) as nat
    } else {
        0
    }
}

pub open spec fn all_hex(s: Seq<u8>) -> bool {
    forall|i: int| 0 <= i < s.len() ==> is_hex_digit(s[i])
}

/// The number written in hex by `s`, most significant digit first.
pub open spec fn hex_value(s: Seq<u8>) -> nat
    decreases s.len(),
{
    if s.len() == 0 {
        0
    } else {
        hex_value(s.drop_last()) * 16 + hex_digit_val(s.last())
    }
}

/// What parsing `s` as a hexadecimal `u64` yields: the digits' value when
/// `s` is one or more hex digits whose value fits, nothing otherwise.
pub open spec fn hex_u64_of(s: Seq<u8>) -> Option<u64> {
    if s.len() > 0 && all_hex(s) && hex_value(s) <= u64::MAX {
        Some(hex_value(s) as u64)
    } else {
        None
    }
}

/// A longer digit string never has a smaller value.
proof fn lemma_hex_value_prefix_mono(s: Seq<u8>, i: int)
    requires
        0 <= i <= s.len(),
    ensures
        hex_value(s.take(i)) <= hex_value(s),
    decreases s.len() - i,
{
    if i == s.len() {
        assert(s.take(i) =~= s);
    } else {
        assert(s.take(i + 1).drop_last() =~= s.take(i));
        assert(hex_value(s.take(i + 1)) == hex_value(s.take(i)) * 16 + hex_digit_val(
            s.take(i + 1).last(),
        ));
        lemma_hex_value_prefix_mono(s, i + 1);
    }
}

fn hex_digit(b: u8) -> (r: Option<u8>)
    ensures
        r is Some <==> is_hex_digit(b),
        r is Some ==> r->0 == hex_digit_val(b),
{
    if 48 <= b && b <= 57 {
        Some(b - 48)
    } else if 65 <= b && b <= 70 {
        Some(b - 55)
    } else if 97 <= b && b <= 102 {
        Some(b - 87)
    } else {
        None
    }
}

/// Parses `s` as a hexadecimal `u64`: at least one digit, digits only, and
/// a value that fits; anything else is rejected.
pub fn parse_hex_u64(s: &Vec<u8>) -> (r: Option<u64>)
    ensures
        r == hex_u64_of(s@),
{
    let n: usize = s.len();
    if n == 0 {
        return None;
    }
    let mut value: u64 = 0;
    let mut i: usize = 0;
    proof {
        assert(s@.take(0) =~= Seq::<u8>::empty());
    }
    while i < n
        invariant
            i <= n,
            n == s@.len(),
            all_hex(s@.take(i as int)),
            value == hex_value(s@.take(i as int)),
        decreases n - i,
    {
        proof {
            assert(s@.take(i + 1).drop_last() =~= s@.take(i as int));
            assert(s@.take(i + 1).last() == s@[i as int]);
        }
        match hex_digit(s[i]) {
            None => {
                assert(!is_hex_digit(s@[i as int]));
                return None;
            },
            Some(d) => {
                if value > 0x0FFF_FFFF_FFFF_FFFF {
                    proof {
                        lemma_hex_value_prefix_mono(s@, i + 1);
                        assert(hex_value(s@.take(i + 1)) > u64::MAX);
                    }
                    return None;
                }
                value = value * 16 + d as u64;
            },
        }
        i = i + 1;
    }
    proof {
        assert(s@.take(n as int) =~= s@);
    }
    Some(value)
}

/// The bytes written by consecutive hex digit pairs.
pub open spec fn hex_pairs_value(s: Seq<u8>) -> Seq<u8>
    decreases s.len(),
{
    if s.len() < 2 {
        Seq::empty()
    } else {
        seq![(hex_digit_val(s[0]) * 16 + hex_digit_val(s[1])) as u8] + hex_pairs_value(s.skip(2))
    }
}

/// Parses an even run of hex digits into the bytes it spells, two digits a
/// byte; an odd length or a stray byte is rejected.
pub fn parse_hex_bytes(s: &Vec<u8>) -> (r: Option<Vec<u8>>)
    ensures
        match r {
            Some(v) => s@.len() % 2 == 0 && all_hex(s@) && v@ == hex_pairs_value(s@),
            None => s@.len() % 2 != 0 || !all_hex(s@),
        },
{
    let n: usize = s.len();
    if n % 2 != 0 {
        return None;
    }
    let mut out: Vec<u8> = Vec::new();
    let mut i: usize = 0;
    proof {
        assert(s@.skip(0) =~= s@);
    }
    while i < n
        invariant
            i <= n,
            i % 2 == 0,
            n % 2 == 0,
            n == s@.len(),
            all_hex(s@.take(i as int)),
            hex_pairs_value(s@) == out@ + hex_pairs_value(s@.skip(i as int)),
        decreases n - i,
    {
        let d0 = match hex_digit(s[i]) {
            None => {
                assert(!is_hex_digit(s@[i as int]));
                return None;
            },
            Some(d) => d,
        };
        let d1 = match hex_digit(s[i + 1]) {
            None => {
                assert(!is_hex_digit(s@[i + 1]));
                return None;
            },
            Some(d) => d,
        };
        let b: u8 = d0 * 16 + d1;
        proof {
            let rest = s@.skip(i as int);
            assert(rest[0] == s@[i as int]);
            assert(rest[1] == s@[i + 1]);
            assert(rest.skip(2) =~= s@.skip(i + 2));
            assert(hex_pairs_value(rest) == seq![b] + hex_pairs_value(s@.skip(i + 2)));
            assert(out@.push(b) + hex_pairs_value(s@.skip(i + 2)) =~= out@ + hex_pairs_value(
                rest,
            ));
            assert(s@.take(i + 2) =~= s@.take(i as int).push(s@[i as int]).push(s@[i + 1]));
        }
        out.push(b);
        i = i + 2;
    }
    proof {
        assert(s@.take(n as int) =~= s@);
        assert(s@.skip(n as int) =~= Seq::<u8>::empty());
        assert(out@ + hex_pairs_value(s@.skip(n as int)) =~= out@);
    }
    Some(out)
}

/// What parsing an operator-typed address yields: an optional `0x` prefix,
/// then hex digits.
pub open spec fn address_of(s: Seq<u8>) -> Option<u64> {
    if s.len() >= 2 && s[0] == 48 && s[1] == 120 {
        hex_u64_of(s.skip(2))
    } else {
        hex_u64_of(s)
    }
}

/// Parses an address as the operator writes it, with or without a leading
/// `0x`.
pub fn parse_address(s: &Vec<u8>) -> (r: Option<u64>)
    ensures
        r == address_of(s@),
{
    if s.len() >= 2 && s[0] == 48 && s[1] == 120 {
        let tail = copy_range(s, 2, s.len());
        proof {
            assert(s@.subrange(2, s@.len() as int) =~= s@.skip(2));
        }
        parse_hex_u64(&tail)
    } else {
        parse_hex_u64(s)
    }
}

} // verus!
