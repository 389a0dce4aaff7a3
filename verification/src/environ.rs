//! The environment block of a target process as the kernel serializes it:
//! `key=value` entries joined with NUL separators.  The library encodes and
//! searches the block; reading and writing the live process stays outside.

use vstd::prelude::*;

use crate::codec::{push_all, vec_eq};

verus! {

/// The views of the key/value pairs.
pub open spec fn pairs_view(vars: Seq<(Vec<u8>, Vec<u8>)>) -> Seq<(Seq<u8>, Seq<u8>)> {
    vars.map_values(|p: (Vec<u8>, Vec<u8>)| (p.0@, p.1@))
}

/// One serialized entry: `key=value`.
pub open spec fn environ_entry(k: Seq<u8>, v: Seq<u8>) -> Seq<u8> {
    k + seq![61u8] + v
}

/// The serialized block: entries in order, NUL between consecutive entries.
pub open spec fn environ_bytes(vars: Seq<(Seq<u8>, Seq<u8>)>) -> Seq<u8>
    decreases vars.len(),
{
    if vars.len() == 0 {
        Seq::empty()
    } else if vars.len() == 1 {
        environ_entry(vars[0].0, vars[0].1)
    } else {
        environ_bytes(vars.drop_last()) + seq![0u8] + environ_entry(
            vars.last().0,
            vars.last().1,
        )
    }
}

/// Serializes the whole environment block.
pub fn encode_environ(vars: &Vec<(Vec<u8>, Vec<u8>)>) -> (r: Vec<u8>)
    ensures
        r@ == environ_bytes(pairs_view(vars@)),
{
    let n: usize = vars.len();
    let mut r: Vec<u8> = Vec::new();
    let mut k: usize = 0;
    proof {
        assert(pairs_view(vars@).take(0) =~= Seq::<(Seq<u8>, Seq<u8>)>::empty());
    }
    while k < n
        invariant
            k <= n,
            n == vars@.len(),
            r@ == environ_bytes(pairs_view(vars@).take(k as int)),
        decreases n - k,
    {
        if k > 0 {
            r.push(0);
        }
        push_all(&mut r, &vars[k].0);
        r.push(61);
        push_all(&mut r, &vars[k].1);
        proof {
            let pv = pairs_view(vars@);
            assert(pv.take(k + 1).drop_last() =~= pv.take(k as int));
            assert(pv.take(k + 1).last() == pv[k as int]);
            assert(pv[k as int] == (vars@[k as int].0@, vars@[k as int].1@));
            if k == 0 {
                assert(pv.take(1)[0] == pv[0]);
            }
            assert(r@ =~= environ_bytes(pv.take(k + 1)));
        }
        k = k + 1;
    }
    proof {
        assert(pairs_view(vars@).take(n as int) =~= pairs_view(vars@));
    }
    r
}

/// Finds the first entry whose key is `key`.
pub fn find_env_by_key(vars: &Vec<(Vec<u8>, Vec<u8>)>, key: &Vec<u8>) -> (r: Option<usize>)
    ensures
        match r {
            Some(i) => i < vars@.len() && vars@[i as int].0@ == key@ && (forall|j: int|
                0 <= j < i ==> vars@[j].0@ != key@),
            None => forall|j: int| 0 <= j < vars@.len() ==> vars@[j].0@ != key@,
        },
{
    let mut i: usize = 0;
    while i < vars.len()
        invariant
            i <= vars@.len(),
            forall|j: int| 0 <= j < i ==> vars@[j].0@ != key@,
        decreases vars@.len() - i,
    {
        if vec_eq(&vars[i].0, key) {
            return Some(i);
        }
        i = i + 1;
    }
    None
}

/// Finds the first entry whose value is `wanted`.
pub fn find_env_by_value(vars: &Vec<(Vec<u8>, Vec<u8>)>, wanted: &Vec<u8>) -> (r: Option<usize>)
    ensures
        match r {
            Some(i) => i < vars@.len() && vars@[i as int].1@ == wanted@ && (forall|j: int|
                0 <= j < i ==> vars@[j].1@ != wanted@),
            None => forall|j: int| 0 <= j < vars@.len() ==> vars@[j].1@ != wanted@,
        },
{
    let mut i: usize = 0;
    while i < vars.len()
        invariant
            i <= vars@.len(),
            forall|j: int| 0 <= j < i ==> vars@[j].1@ != wanted@,
        decreases vars@.len() - i,
    {
        if vec_eq(&vars[i].1, wanted) {
            return Some(i);
        }
        i = i + 1;
    }
    None
}

} // verus!
