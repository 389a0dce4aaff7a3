//! The parsed listing of the target's mapped memory regions.
//!
//! Each listing line encodes `start-end permissions ...` with an optional
//! pathname tail from the sixth token on.  A line that does not split into
//! exactly two hexadecimal addresses with the start below the end is
//! malformed and skipped; the parse never aborts on one bad line.

use vstd::prelude::*;

use crate::codec::copy_range;
use crate::hex::{hex_u64_of, parse_hex_u64};
use crate::tokens::{join_spaced, join_tokens, tokenize, tokens_of, views_of};

verus! {

/// Permission flags of one mapped region, read from the fixed-width
/// permission token of the listing.
#[derive(Clone, Copy, PartialEq, Eq, Structural, Debug)]
pub struct Permissions {
    pub read: bool,
    pub write: bool,
    pub execute: bool,
    pub shared: bool,
}

/// One contiguous mapped range of the target's address space, an immutable
/// snapshot taken at attach time.
pub struct MemoryRegion {
    pub start: u64,
    pub end: u64,
    pub permissions: Permissions,
    pub pathname: Vec<u8>,
}

/// The mathematical model of one region.
pub struct RegionModel {
    pub start: u64,
    pub end: u64,
    pub permissions: Permissions,
    pub pathname: Seq<u8>,
}

impl View for MemoryRegion {
    type V = RegionModel;

    open spec fn view(&self) -> RegionModel {
        RegionModel {
            start: self.start,
            end: self.end,
            permissions: self.permissions,
            pathname: self.pathname@,
        }
    }
}

/// The models of a parsed region list.
pub open spec fn region_views(rs: Seq<MemoryRegion>) -> Seq<RegionModel> {
    rs.map_values(|m: MemoryRegion| m@)
}

pub open spec fn has_byte(s: Seq<u8>, b: u8) -> bool {
    exists|i: int| 0 <= i < s.len() && s[i] == b
}

pub open spec fn count_byte(s: Seq<u8>, b: u8) -> nat
    decreases s.len(),
{
    if s.len() == 0 {
        0
    } else {
        count_byte(s.drop_last(), b) + if s.last() == b {
            1nat
        } else {
            0nat
        }
    }
}

/// The index of the first occurrence of `b` in `s`.
pub open spec fn first_index_of(s: Seq<u8>, b: u8) -> int
    decreases s.len(),
{
    if s.len() == 0 {
        0
    } else if s[0] == b {
        0
    } else {
        1 + first_index_of(s.skip(1), b)
    }
}

/// The flags spelled by a permission token: `r`, `w`, `x` and the
/// shared-mapping mark `s`.
pub open spec fn perms_of_token(t: Seq<u8>) -> Permissions {
    Permissions {
        read: has_byte(t, 114),
        write: has_byte(t, 119),
        execute: has_byte(t, 120),
        shared: has_byte(t, 115),
    }
}

/// What one listing line yields: its region when it is well formed,
/// nothing when it is malformed.
pub open spec fn parse_line_spec(line: Seq<u8>) -> Option<RegionModel> {
    let ts = tokens_of(line);
    if ts.len() < 2 {
        None
    } else if count_byte(ts[0], 45) != 1 {
        None
    } else {
        let d = first_index_of(ts[0], 45);
        match (hex_u64_of(ts[0].take(d)), hex_u64_of(ts[0].skip(d + 1))) {
            (Some(start), Some(end)) => if start < end {
                Some(
                    RegionModel {
                        start,
                        end,
                        permissions: perms_of_token(ts[1]),
                        pathname: if ts.len() > 5 {
                            join_spaced(ts.skip(5))
                        } else {
                            Seq::empty()
                        },
                    },
                )
            } else {
                None
            },
            _ => None,
        }
    }
}

/// Whether a listing line parses into a region.
pub open spec fn line_well_formed(line: Seq<u8>) -> bool {
    parse_line_spec(line) is Some
}

/// What the whole listing yields: each well-formed line's region, in
/// listing order; malformed lines are skipped.
pub open spec fn parse_maps_spec(lines: Seq<Seq<u8>>) -> Seq<RegionModel> {
    lines.filter_map(|l: Seq<u8>| parse_line_spec(l))
}

proof fn lemma_first_index_at(s: Seq<u8>, b: u8, d: int)
    requires
        0 <= d < s.len(),
        s[d] == b,
        forall|k: int| 0 <= k < d ==> s[k] != b,
    ensures
        first_index_of(s, b) == d,
    decreases d,
{
    if d > 0 {
        lemma_first_index_at(s.skip(1), b, d - 1);
    }
}

fn contains_byte(t: &Vec<u8>, b: u8) -> (r: bool)
    ensures
        r == has_byte(t@, b),
{
    let mut i: usize = 0;
    while i < t.len()
        invariant
            i <= t@.len(),
            forall|k: int| 0 <= k < i ==> t@[k] != b,
        decreases t@.len() - i,
    {
        if t[i] == b {
            return true;
        }
        i = i + 1;
    }
    false
}

/// Parses one listing line.
pub fn parse_line(line: &Vec<u8>) -> (r: Option<MemoryRegion>)
    ensures
        match r {
            Some(m) => parse_line_spec(line@) == Some(m@),
            None => parse_line_spec(line@) is None,
        },
{
    let ts = tokenize(line);
    if ts.len() < 2 {
        return None;
    }
    let t0 = &ts[0];
    proof {
        assert(t0@ == tokens_of(line@)[0]);
        assert(ts[1]@ == tokens_of(line@)[1]);
    }
    let mut dash_idx: usize = 0;
    let mut dashes: usize = 0;
    let mut i: usize = 0;
    proof {
        assert(t0@.take(0) =~= Seq::<u8>::empty());
    }
    while i < t0.len()
        invariant
            i <= t0@.len(),
            dashes <= i,
            dashes == count_byte(t0@.take(i as int), 45),
            dashes > 0 ==> dash_idx < i && t0@[dash_idx as int] == 45 && (forall|k: int|
                0 <= k < dash_idx ==> t0@[k] != 45),
            dashes == 0 ==> forall|k: int| 0 <= k < i ==> t0@[k] != 45,
        decreases t0@.len() - i,
    {
        proof {
            assert(t0@.take(i + 1).drop_last() =~= t0@.take(i as int));
            assert(t0@.take(i + 1).last() == t0@[i as int]);
        }
        if t0[i] == 45 {
            if dashes == 0 {
                dash_idx = i;
            }
            dashes = dashes + 1;
        }
        i = i + 1;
    }
    proof {
        assert(t0@.take(t0@.len() as int) =~= t0@);
    }
    if dashes != 1 {
        return None;
    }
    proof {
        lemma_first_index_at(t0@, 45, dash_idx as int);
    }
    let part_a = copy_range(t0, 0, dash_idx);
    let part_b = copy_range(t0, dash_idx + 1, t0.len());
    proof {
        assert(t0@.subrange(0, dash_idx as int) =~= t0@.take(dash_idx as int));
        assert(t0@.subrange(dash_idx + 1, t0@.len() as int) =~= t0@.skip(dash_idx + 1));
    }
    let start = match parse_hex_u64(&part_a) {
        Some(v) => v,
        None => {
            return None;
        },
    };
    let end = match parse_hex_u64(&part_b) {
        Some(v) => v,
        None => {
            return None;
        },
    };
    if start >= end {
        return None;
    }
    let t1 = &ts[1];
    let permissions = Permissions {
        read: contains_byte(t1, 114),
        write: contains_byte(t1, 119),
        execute: contains_byte(t1, 120),
        shared: contains_byte(t1, 115),
    };
    let pathname: Vec<u8> = if ts.len() > 5 {
        let p = join_tokens(&ts, 5);
        proof {
            assert(views_of(ts@).skip(5) =~= tokens_of(line@).skip(5));
        }
        p
    } else {
        Vec::new()
    };
    Some(MemoryRegion { start, end, permissions, pathname })
}

impl MemoryRegion {
    /// Parses the whole listing, line by line: one region per well-formed
    /// line, in listing order; malformed lines are skipped, never fatal.
    pub fn parse_maps(lines: &Vec<Vec<u8>>) -> (r: Vec<MemoryRegion>)
        ensures
            region_views(r@) == parse_maps_spec(views_of(lines@)),
    {
        let mut r: Vec<MemoryRegion> = Vec::new();
        let mut i: usize = 0;
        proof {
            assert(views_of(lines@).take(0) =~= Seq::<Seq<u8>>::empty());
            assert(region_views(r@) =~= parse_maps_spec(views_of(lines@).take(0)));
        }
        while i < lines.len()
            invariant
                i <= lines@.len(),
                region_views(r@) == parse_maps_spec(views_of(lines@).take(i as int)),
            decreases lines@.len() - i,
        {
            let vs = Ghost(views_of(lines@));
            proof {
                vs@.lemma_filter_map_take_succ(|l: Seq<u8>| parse_line_spec(l), i as int);
                assert(vs@[i as int] == lines@[i as int]@);
            }
            match parse_line(&lines[i]) {
                Some(m) => {
                    proof {
                        assert(region_views(r@.push(m)) =~= region_views(r@).push(m@));
                        assert(parse_maps_spec(vs@.take(i as int)) + seq![m@]
                            =~= parse_maps_spec(vs@.take(i as int)).push(m@));
                    }
                    r.push(m);
                },
                None => {
                    proof {
                        assert(parse_maps_spec(vs@.take(i + 1)) =~= parse_maps_spec(
                            vs@.take(i as int),
                        ));
                    }
                },
            }
            i = i + 1;
        }
        proof {
            assert(views_of(lines@).take(lines@.len() as int) =~= views_of(lines@));
        }
        r
    }
}

/// Law: the parse yields exactly one entry per well-formed line, in listing
/// order; a malformed line is skipped and never aborts the parse.
pub proof fn lemma_parse_one_entry_per_line(lines: Seq<Seq<u8>>, l: Seq<u8>)
    ensures
        parse_maps_spec(lines).len() <= lines.len(),
        line_well_formed(l) ==> parse_maps_spec(lines.push(l)) == parse_maps_spec(lines).push(
            parse_line_spec(l)->0,
        ),
        !line_well_formed(l) ==> parse_maps_spec(lines.push(l)) == parse_maps_spec(lines),
    decreases lines.len(),
{
    if lines.len() > 0 {
        lemma_parse_one_entry_per_line(lines.drop_last(), l);
    }
    let f = |x: Seq<u8>| parse_line_spec(x);
    assert(lines.push(l).drop_last() =~= lines);
    assert(lines.push(l).last() == l);
    if line_well_formed(l) {
        assert(parse_maps_spec(lines.push(l)) =~= parse_maps_spec(lines).push(
            parse_line_spec(l)->0,
        ));
    }
}

proof fn lemma_parse_line_end_gt_start(l: Seq<u8>)
    ensures
        line_well_formed(l) ==> parse_line_spec(l)->0.end > parse_line_spec(l)->0.start,
{
}

/// Law: every region the parse yields has its end address strictly above
/// its start address.
pub proof fn lemma_parse_end_gt_start(lines: Seq<Seq<u8>>)
    ensures
        forall|k: int|
            0 <= k < parse_maps_spec(lines).len() ==> (#[trigger] parse_maps_spec(lines)[k]).end
                > parse_maps_spec(lines)[k].start,
    decreases lines.len(),
{
    if lines.len() == 0 {
    } else {
        let f = |x: Seq<u8>| parse_line_spec(x);
        let rest = lines.drop_last();
        lemma_parse_end_gt_start(rest);
        lemma_parse_line_end_gt_start(lines.last());
        assert(parse_maps_spec(lines) == if f(lines.last()) is Some {
            parse_maps_spec(rest) + seq![f(lines.last())->0]
        } else {
            parse_maps_spec(rest)
        });
    }
}

} // verus!
