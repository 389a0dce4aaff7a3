//! Whitespace tokenization of one listing line, and the space-joined tail
//! that rebuilds a pathname from its tokens.

use vstd::prelude::*;

use crate::codec::push_all;

verus! {

/// ASCII whitespace as the listing splitter treats it.
pub open spec fn is_ws(b: u8) -> bool {
    b == 32 || b == 9 || b == 10 || b == 13
}

/// The views of a sequence of byte buffers.
pub open spec fn views_of(ts: Seq<Vec<u8>>) -> Seq<Seq<u8>> {
    ts.map_values(|t: Vec<u8>| t@)
}

/// The longest non-whitespace prefix of `s`.
pub open spec fn token_prefix(s: Seq<u8>) -> Seq<u8>
    decreases s.len(),
{
    if s.len() == 0 || is_ws(s[0]) {
        Seq::empty()
    } else {
        seq![s[0]] + token_prefix(s.skip(1))
    }
}

/// The whitespace-delimited tokens of `s`, in order, with empty tokens
/// never produced.
pub open spec fn tokens_of(s: Seq<u8>) -> Seq<Seq<u8>>
    decreases s.len(),
    via tokens_of_decreases
{
    if s.len() == 0 {
        Seq::empty()
    } else if is_ws(s[0]) {
        tokens_of(s.skip(1))
    } else {
        seq![token_prefix(s)] + tokens_of(s.skip(token_prefix(s).len() as int))
    }
}

proof fn lemma_token_prefix_len(s: Seq<u8>)
    ensures
        token_prefix(s).len() <= s.len(),
    decreases s.len(),
{
    if s.len() > 0 && !is_ws(s[0]) {
        lemma_token_prefix_len(s.skip(1));
    }
}

#[via_fn]
proof fn tokens_of_decreases(s: Seq<u8>) {
    if s.len() > 0 && !is_ws(s[0]) {
        assert(token_prefix(s) == seq![s[0]] + token_prefix(s.skip(1)));
        assert(token_prefix(s).len() >= 1);
        lemma_token_prefix_len(s);
    }
}

/// The tokens joined back with single spaces.
pub open spec fn join_spaced(ts: Seq<Seq<u8>>) -> Seq<u8>
    decreases ts.len(),
{
    if ts.len() == 0 {
        Seq::empty()
    } else if ts.len() == 1 {
        ts[0]
    } else {
        join_spaced(ts.drop_last()) + seq![32u8] + ts.last()
    }
}

/// The non-whitespace run starting at a non-whitespace head is exactly the
/// prefix up to the first whitespace byte (or the end).
proof fn lemma_token_prefix_range(s: Seq<u8>, j: int)
    requires
        0 <= j <= s.len(),
        forall|k: int| 0 <= k < j ==> !is_ws(s[k]),
        j == s.len() || is_ws(s[j]),
    ensures
        token_prefix(s) == s.take(j),
    decreases j,
{
    if j == 0 {
        assert(token_prefix(s) =~= s.take(0));
    } else {
        lemma_token_prefix_range(s.skip(1), j - 1);
        assert(seq![s[0]] + s.skip(1).take(j - 1) =~= s.take(j));
    }
}

fn is_ws_byte(b: u8) -> (r: bool)
    ensures
        r == is_ws(b),
{
    b == 32 || b == 9 || b == 10 || b == 13
}

/// Splits `line` into its whitespace-delimited tokens, in order.
pub fn tokenize(line: &Vec<u8>) -> (r: Vec<Vec<u8>>)
    ensures
        views_of(r@) == tokens_of(line@),
{
    let n: usize = line.len();
    let mut r: Vec<Vec<u8>> = Vec::new();
    let mut i: usize = 0;
    proof {
        assert(line@.skip(0) =~= line@);
        assert(views_of(r@) + tokens_of(line@) =~= tokens_of(line@));
    }
    while i < n
        invariant
            i <= n,
            n == line@.len(),
            tokens_of(line@) == views_of(r@) + tokens_of(line@.skip(i as int)),
        decreases n - i,
    {
        if is_ws_byte(line[i]) {
            proof {
                assert(line@.skip(i as int).skip(1) =~= line@.skip(i + 1));
            }
            i = i + 1;
        } else {
            let start: usize = i;
            let mut tok: Vec<u8> = Vec::new();
            let mut j: usize = i;
            while j < n && !is_ws_byte(line[j])
                invariant
                    start <= j <= n,
                    n == line@.len(),
                    tok@ == line@.subrange(start as int, j as int),
                    forall|k: int| start <= k < j ==> !is_ws(line@[k]),
                decreases n - j,
            {
                tok.push(line[j]);
                proof {
                    assert(line@.subrange(start as int, j + 1) =~= line@.subrange(
                        start as int,
                        j as int,
                    ).push(line@[j as int]));
                }
                j = j + 1;
            }
            proof {
                let rest = line@.skip(start as int);
                lemma_token_prefix_range(rest, j - start);
                assert(rest.take(j - start) =~= line@.subrange(start as int, j as int));
                assert(rest.skip(j - start) =~= line@.skip(j as int));
                assert(tokens_of(rest) == seq![tok@] + tokens_of(line@.skip(j as int)));
                assert(views_of(r@.push(tok)) =~= views_of(r@).push(tok@));
                assert(views_of(r@.push(tok)) + tokens_of(line@.skip(j as int)) =~= views_of(r@)
                    + tokens_of(line@.skip(start as int)));
            }
            r.push(tok);
            i = j;
        }
    }
    proof {
        assert(line@.skip(n as int) =~= Seq::<u8>::empty());
        assert(views_of(r@) + tokens_of(line@.skip(n as int)) =~= views_of(r@));
    }
    r
}

/// Joins the tokens from index `from` on with single spaces: the
/// pathname tail of a listing line.
pub fn join_tokens(ts: &Vec<Vec<u8>>, from: usize) -> (r: Vec<u8>)
    requires
        from <= ts@.len(),
    ensures
        r@ == join_spaced(views_of(ts@).skip(from as int)),
{
    let n: usize = ts.len();
    let mut r: Vec<u8> = Vec::new();
    let mut k: usize = from;
    proof {
        assert(views_of(ts@).subrange(from as int, from as int) =~= Seq::<Seq<u8>>::empty());
    }
    while k < n
        invariant
            from <= k <= n,
            n == ts@.len(),
            r@ == join_spaced(views_of(ts@).subrange(from as int, k as int)),
        decreases n - k,
    {
        if k > from {
            r.push(32);
        }
        push_all(&mut r, &ts[k]);
        proof {
            let vs = views_of(ts@);
            assert(vs.subrange(from as int, k + 1).drop_last() =~= vs.subrange(
                from as int,
                k as int,
            ));
            assert(vs.subrange(from as int, k + 1).last() == ts@[k as int]@);
            if k == from {
                assert(vs.subrange(from as int, k + 1)[0] == ts@[k as int]@);
            }
        }
        k = k + 1;
    }
    proof {
        assert(views_of(ts@).subrange(from as int, n as int) =~= views_of(ts@).skip(from as int));
    }
    r
}

} // verus!
