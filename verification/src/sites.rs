//! The sites handed to a triangulation: a seed set with coincident points left out.
use vstd::prelude::*;
use crate::math::Point;
use crate::weighted_voronoi::StippleError;

verus! {

/// The points of `s` in the order of their first occurrence, each once.
pub open spec fn distinct(s: Seq<Point>) -> Seq<Point>
    decreases s.len(),
{
    if s.len() == 0 {
        Seq::empty()
    } else if distinct(s.drop_last()).contains(s.last()) {
        distinct(s.drop_last())
    } else {
        distinct(s.drop_last()).push(s.last())
    }
}

/// Leaving out repeats loses no point, adds none, and leaves no point twice.
pub proof fn lemma_distinct(s: Seq<Point>)
    ensures
        distinct(s).no_duplicates(),
        distinct(s).len() <= s.len(),
        forall|p: Point| distinct(s).contains(p) <==> s.contains(p),
    decreases s.len(),
{
    if s.len() > 0 {
        let t = s.drop_last();
        let d = distinct(t);
        lemma_distinct(t);
        assert forall|p: Point| distinct(s).contains(p) <==> s.contains(p) by {
            if s.contains(p) {
                let i = choose|i: int| 0 <= i < s.len() && s[i] == p;
                if i < t.len() {
                    assert(t[i] == p);
                    assert(t.contains(p));
                    assert(d.contains(p));
                    let j = choose|j: int| 0 <= j < d.len() && d[j] == p;
                    assert(distinct(s)[j] == p);
                } else if !d.contains(p) {
                    assert(distinct(s)[d.len() as int] == p);
                }
            }
            if distinct(s).contains(p) {
                let j = choose|j: int| 0 <= j < distinct(s).len() && distinct(s)[j] == p;
                if j < d.len() {
                    assert(d[j] == p);
                    assert(d.contains(p));
                    assert(t.contains(p));
                    let i = choose|i: int| 0 <= i < t.len() && t[i] == p;
                    assert(s[i] == p);
                } else {
                    assert(s[s.len() - 1] == p);
                }
            }
        }
    }
}

/// Finds the first position at which `p` stands among `sites`.
pub fn find_site(sites: &Vec<Point>, p: Point) -> (r: Option<usize>)
    ensures
        match r {
            Some(i) => {
                &&& i < sites@.len()
                &&& sites@[i as int] == p
                &&& forall|j: int| 0 <= j < i ==> sites@[j] != p
            },
            None => !sites@.contains(p),
        },
{
    let mut i: usize = 0;
    while i < sites.len()
        invariant
            i <= sites.len(),
            forall|j: int| 0 <= j < i ==> sites@[j] != p,
        decreases sites.len() - i,
    {
        if sites[i] == p {
            return Some(i);
        }
        i += 1;
    }
    None
}

/// Adds a site as a triangulation takes a vertex: a point that coincides with a site
/// already there is refused with `DuplicateInsertion` and changes nothing; any other is
/// appended, and its position handed back.
pub fn insert_site(sites: &mut Vec<Point>, p: Point) -> (r: Result<usize, StippleError>)
    ensures
        match r {
            Ok(i) => {
                &&& !old(sites)@.contains(p)
                &&& final(sites)@ == old(sites)@.push(p)
                &&& i == old(sites)@.len()
            },
            Err(e) => {
                &&& e == StippleError::DuplicateInsertion
                &&& old(sites)@.contains(p)
                &&& final(sites)@ == old(sites)@
            },
        },
{
    match find_site(sites, p) {
        Some(_) => Err(StippleError::DuplicateInsertion),
        None => {
            let i = sites.len();
            sites.push(p);
            Ok(i)
        },
    }
}

/// The sites to triangulate for a seed set: its points in order, each coincident repeat
/// skipped.
pub fn distinct_sites(seeds: &Vec<Point>) -> (sites: Vec<Point>)
    ensures
        sites@ == distinct(seeds@),
        sites@.no_duplicates(),
        forall|p: Point| sites@.contains(p) <==> seeds@.contains(p),
{
    let mut sites: Vec<Point> = Vec::new();
    let mut i: usize = 0;
    while i < seeds.len()
        invariant
            i <= seeds.len(),
            sites@ == distinct(seeds@.take(i as int)),
        decreases seeds.len() - i,
    {
        proof {
            assert(seeds@.take(i + 1).drop_last() =~= seeds@.take(i as int));
            assert(seeds@.take(i + 1).last() == seeds@[i as int]);
        }
        let _ = insert_site(&mut sites, seeds[i]);
        i += 1;
    }
    proof {
        assert(seeds@.take(i as int) =~= seeds@);
        lemma_distinct(seeds@);
    }
    sites
}

} // verus!
