//! Parsing the output of the system's pid lookup: a whitespace-separated
//! list of decimal process identifiers.  Running the lookup is the front
//! end's job; the library only parses what came back.

use vstd::prelude::*;

use crate::tokens::{tokenize, tokens_of, views_of};

verus! {

pub open spec fn is_dec_digit(b: u8) -> bool {
    48 <= b <= 57
}

pub open spec fn all_dec(s: Seq<u8>) -> bool {
    forall|i: int| 0 <= i < s.len() ==> is_dec_digit(s[i])
}

/// The number written in decimal by `s`, most significant digit first.
pub open spec fn dec_value(s: Seq<u8>) -> nat
    decreases s.len(),
{
    if s.len() == 0 {
        0
    } else {
        dec_value(s.drop_last()) * 10 + if is_dec_digit(s.last()) {
            (s.last() - 48) as nat
        } else {
            0nat
        }
    }
}

/// What parsing `s` as a decimal `u32` yields: the digits' value when `s`
/// is one or more decimal digits whose value fits, nothing otherwise.
pub open spec fn dec_u32_of(s: Seq<u8>) -> Option<u32> {
    if s.len() > 0 && all_dec(s) && dec_value(s) <= u32::MAX {
        Some(dec_value(s) as u32)
    } else {
        None
    }
}

/// What parsing a whole pid listing yields: every token parsed as a
/// decimal `u32`, in order; one bad token rejects the listing.
pub open spec fn pids_of_tokens(ts: Seq<Seq<u8>>) -> Option<Seq<u32>>
    decreases ts.len(),
{
    if ts.len() == 0 {
        Some(Seq::empty())
    } else {
        match (pids_of_tokens(ts.drop_last()), dec_u32_of(ts.last())) {
            (Some(ps), Some(p)) => Some(ps.push(p)),
            _ => None,
        }
    }
}

proof fn lemma_dec_value_prefix_mono(s: Seq<u8>, i: int)
    requires
        0 <= i <= s.len(),
    ensures
        dec_value(s.take(i)) <= dec_value(s),
    decreases s.len() - i,
{
    if i == s.len() {
        assert(s.take(i) =~= s);
    } else {
        assert(s.take(i + 1).drop_last() =~= s.take(i));
        lemma_dec_value_prefix_mono(s, i + 1);
    }
}

/// A token that does not parse rejects the whole listing.
proof fn lemma_pids_fail_at(ts: Seq<Seq<u8>>, i: int)
    requires
        0 <= i < ts.len(),
        dec_u32_of(ts[i]) is None,
    ensures
        pids_of_tokens(ts) is None,
    decreases ts.len(),
{
    if i < ts.len() - 1 {
        lemma_pids_fail_at(ts.drop_last(), i);
    }
}

/// Parses one token as a decimal `u32`.
fn parse_dec_u32(s: &Vec<u8>) -> (r: Option<u32>)
    ensures
        r == dec_u32_of(s@),
{
    let n: usize = s.len();
    if n == 0 {
        return None;
    }
    let mut value: u64 = 0;
    let mut i: usize = 0;
    proof {
        assert(s@.take(0) =~= Seq::<u8>::empty());
    }
    while i < n
        invariant
            i <= n,
            n == s@.len(),
            all_dec(s@.take(i as int)),
            value == dec_value(s@.take(i as int)),
            value <= u32::MAX,
        decreases n - i,
    {
        proof {
            assert(s@.take(i + 1).drop_last() =~= s@.take(i as int));
            assert(s@.take(i + 1).last() == s@[i as int]);
        }
        let b = s[i];
        if b < 48 || b > 57 {
            assert(!is_dec_digit(s@[i as int]));
            return None;
        }
        value = value * 10 + (b - 48) as u64;
        if value > 0xFFFF_FFFF {
            proof {
                lemma_dec_value_prefix_mono(s@, i + 1);
            }
            return None;
        }
        i = i + 1;
    }
    proof {
        assert(s@.take(n as int) =~= s@);
    }
    Some(value as u32)
}

/// Parses the pid lookup's output: whitespace-separated decimal pids, in
/// order; an empty listing yields an empty list, a bad token rejects the
/// whole listing.
pub fn parse_pid_list(s: &Vec<u8>) -> (r: Option<Vec<u32>>)
    ensures
        match r {
            Some(v) => pids_of_tokens(tokens_of(s@)) == Some(v@),
            None => pids_of_tokens(tokens_of(s@)) is None,
        },
{
    let ts = tokenize(s);
    let mut out: Vec<u32> = Vec::new();
    let mut i: usize = 0;
    proof {
        assert(views_of(ts@).take(0) =~= Seq::<Seq<u8>>::empty());
    }
    while i < ts.len()
        invariant
            i <= ts@.len(),
            views_of(ts@) == tokens_of(s@),
            pids_of_tokens(views_of(ts@).take(i as int)) == Some(out@),
        decreases ts@.len() - i,
    {
        proof {
            assert(views_of(ts@).take(i + 1).drop_last() =~= views_of(ts@).take(i as int));
            assert(views_of(ts@).take(i + 1).last() == ts@[i as int]@);
        }
        match parse_dec_u32(&ts[i]) {
            Some(p) => {
                out.push(p);
            },
            None => {
                proof {
                    lemma_pids_fail_at(views_of(ts@), i as int);
                }
                return None;
            },
        }
        i = i + 1;
    }
    proof {
        assert(views_of(ts@).take(ts@.len() as int) =~= views_of(ts@));
    }
    Some(out)
}

} // verus!
