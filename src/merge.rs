use vstd::prelude::*;

use crate::point::{newer, ranks_before, ScoredPoint};

verus! {

/// No two entries of `s` share an identifier.
pub open spec fn distinct_ids(s: Seq<ScoredPoint>) -> bool {
    forall|i: int, j: int|
        0 <= i < s.len() && 0 <= j < s.len() && i != j ==> #[trigger] s[i].id != #[trigger] s[j].id
}

/// Some entry of `s` has identifier `id`.
pub open spec fn has_id(s: Seq<ScoredPoint>, id: u64) -> bool {
    exists|k: int| 0 <= k < s.len() && s[k].id == id
}

/// `x` is a candidate of `c` and no candidate with its identifier is newer.
pub open spec fn is_latest(x: ScoredPoint, c: Seq<ScoredPoint>) -> bool {
    &&& c.contains(x)
    &&& forall|j: int| 0 <= j < c.len() && #[trigger] c[j].id == x.id ==> !newer(c[j], x)
}

/// The candidates that survive deduplication: one per identifier, the most
/// recent one.
pub open spec fn latest_set(c: Seq<ScoredPoint>) -> Set<ScoredPoint> {
    Set::new(|x: ScoredPoint| is_latest(x, c))
}

/// Every entry of `r` is listed before every later entry.
pub open spec fn strictly_ranked(r: Seq<ScoredPoint>) -> bool {
    forall|i: int, j: int| 0 <= i < j < r.len() ==> ranks_before(#[trigger] r[i], #[trigger] r[j])
}

/// `r` lists the members of `s` in rank order, each once.
pub open spec fn ranks(r: Seq<ScoredPoint>, s: Set<ScoredPoint>) -> bool {
    &&& strictly_ranked(r)
    &&& forall|x: ScoredPoint| #[trigger] r.contains(x) <==> s.contains(x)
}

/// The deduplicated candidates of `c` in rank order (there is exactly one
/// such list, see `lemma_ranking_unique`).
pub open spec fn ranking(c: Seq<ScoredPoint>) -> Seq<ScoredPoint> {
    choose|r: Seq<ScoredPoint>| ranks(r, latest_set(c))
}

/// The window of `s` that skips `offset` entries and keeps at most `limit`.
pub open spec fn page(s: Seq<ScoredPoint>, offset: nat, limit: nat) -> Seq<ScoredPoint> {
    if offset >= s.len() {
        Seq::empty()
    } else if offset + limit >= s.len() {
        s.subrange(offset as int, s.len() as int)
    } else {
        s.subrange(offset as int, (offset + limit) as int)
    }
}

/// `x` is among the first `n` candidates and none of those with its
/// identifier is newer.
spec fn latest_among(x: ScoredPoint, c: Seq<ScoredPoint>, n: int) -> bool {
    &&& exists|j: int| 0 <= j < n && c[j] == x
    &&& forall|j: int| 0 <= j < n && #[trigger] c[j].id == x.id ==> !newer(c[j], x)
}

/// Position of the entry with identifier `id`, if there is one.
fn find_id(s: &Vec<ScoredPoint>, id: u64) -> (r: Option<usize>)
    ensures
        match r {
            Some(k) => k < s@.len() && s@[k as int].id == id,
            None => forall|k: int| 0 <= k < s@.len() ==> #[trigger] s@[k].id != id,
        },
{
    let mut k: usize = 0;
    while k < s.len()
        invariant
            k <= s@.len(),
            forall|m: int| 0 <= m < k ==> #[trigger] s@[m].id != id,
        decreases s@.len() - k,
    {
        if s[k].id == id {
            return Some(k);
        }
        k += 1;
    }
    None
}

/// Keeps, for each identifier among `points`, only its most recent entry:
/// the highest version, and of equal versions the highest score.
#[verifier::spinoff_prover]
pub fn latest_versions(points: &Vec<ScoredPoint>) -> (r: Vec<ScoredPoint>)
    ensures
        distinct_ids(r@),
        forall|x: ScoredPoint| #[trigger] r@.contains(x) <==> is_latest(x, points@),
        forall|j: int| 0 <= j < points@.len() ==> has_id(r@, #[trigger] points@[j].id),
{
    let mut out: Vec<ScoredPoint> = Vec::new();
    let mut i: usize = 0;
    while i < points.len()
        invariant
            i <= points@.len(),
            distinct_ids(out@),
            forall|k: int| 0 <= k < out@.len() ==> latest_among(#[trigger] out@[k], points@, i as int),
            forall|j: int| 0 <= j < i ==> has_id(out@, #[trigger] points@[j].id),
        decreases points@.len() - i,
    {
        let p = points[i];
        let ghost c = points@;
        let ghost before = out@;
        match find_id(&out, p.id) {
            None => {
                out.push(p);
                assert forall|k: int| 0 <= k < out@.len() implies latest_among(#[trigger] out@[k], c, i + 1) by {
                    if k < before.len() {
                        let w = choose|j: int| 0 <= j < i && c[j] == before[k];
                        assert(0 <= w < i + 1 && c[w] == out@[k]);
                    } else {
                        assert(c[i as int] == out@[k]);
                        assert forall|j: int| 0 <= j < i + 1 && #[trigger] c[j].id == out@[k].id implies !newer(c[j], out@[k]) by {
                            if j < i {
                                assert(has_id(before, c[j].id));
                                let kk = choose|kk: int| 0 <= kk < before.len() && before[kk].id == c[j].id;
                                assert(before[kk].id != p.id);
                            }
                        }
                    }
                }
                assert forall|j: int| 0 <= j < i + 1 implies has_id(out@, #[trigger] c[j].id) by {
                    if j < i {
                        assert(has_id(before, c[j].id));
                        let kk = choose|kk: int| 0 <= kk < before.len() && before[kk].id == c[j].id;
                        assert(out@[kk].id == c[j].id);
                    } else {
                        assert(out@[before.len() as int].id == c[j].id);
                    }
                }
            },
            Some(k) => {
                let q = out[k];
                if p.is_newer_than(&q) {
                    out[k] = p;
                }
                assert forall|m: int| 0 <= m < out@.len() implies latest_among(#[trigger] out@[m], c, i + 1) by {
                    if m == k && out@[m] == p {
                        assert(c[i as int] == out@[m]);
                        assert forall|j: int| 0 <= j < i + 1 && #[trigger] c[j].id == out@[m].id implies !newer(c[j], out@[m]) by {
                            if j < i {
                                assert(!newer(c[j], before[m]));
                            }
                        }
                    } else {
                        assert(out@[m] == before[m]);
                        let w = choose|j: int| 0 <= j < i && c[j] == before[m];
                        assert(0 <= w < i + 1 && c[w] == out@[m]);
                        assert forall|j: int| 0 <= j < i + 1 && #[trigger] c[j].id == out@[m].id implies !newer(c[j], out@[m]) by {
                            if j == i && m != k {
                                assert(before[k as int].id == p.id);
                            }
                        }
                    }
                }
                assert forall|j: int| 0 <= j < i + 1 implies has_id(out@, #[trigger] c[j].id) by {
                    if j < i {
                        assert(has_id(before, c[j].id));
                        let kk = choose|kk: int| 0 <= kk < before.len() && before[kk].id == c[j].id;
                        assert(out@[kk].id == c[j].id);
                    } else {
                        assert(out@[k as int].id == c[j].id);
                    }
                }
            },
        }
        i += 1;
    }
    proof {
        let c = points@;
        assert forall|x: ScoredPoint| #[trigger] out@.contains(x) <==> is_latest(x, c) by {
            if out@.contains(x) {
                let k = choose|k: int| 0 <= k < out@.len() && out@[k] == x;
                assert(latest_among(out@[k], c, c.len() as int));
            }
            if is_latest(x, c) {
                let j = choose|j: int| 0 <= j < c.len() && c[j] == x;
                assert(has_id(out@, c[j].id));
                let k = choose|k: int| 0 <= k < out@.len() && out@[k].id == c[j].id;
                assert(latest_among(out@[k], c, c.len() as int));
                let w = choose|w: int| 0 <= w < c.len() && c[w] == out@[k];
                assert(!newer(c[w], x));
                assert(!newer(c[j], out@[k]));
                assert(out@[k] == x);
            }
        }
    }
    out
}

/// Lists `points` in rank order: descending score, ties by ascending
/// identifier.
#[verifier::spinoff_prover]
pub fn rank_by_score(points: &Vec<ScoredPoint>) -> (r: Vec<ScoredPoint>)
    requires
        distinct_ids(points@),
    ensures
        strictly_ranked(r@),
        forall|x: ScoredPoint| #[trigger] r@.contains(x) <==> points@.contains(x),
{
    let mut out: Vec<ScoredPoint> = Vec::new();
    let mut i: usize = 0;
    while i < points.len()
        invariant
            i <= points@.len(),
            distinct_ids(points@),
            strictly_ranked(out@),
            forall|x: ScoredPoint| #[trigger] out@.contains(x) <==> exists|j: int| 0 <= j < i && points@[j] == x,
        decreases points@.len() - i,
    {
        let p = points[i];
        let ghost before = out@;
        let mut pos: usize = 0;
        while pos < out.len() && out[pos].ranks_before(&p)
            invariant
                pos <= out@.len(),
                out@ == before,
                forall|m: int| 0 <= m < pos ==> ranks_before(#[trigger] out@[m], p),
            decreases out@.len() - pos,
        {
            pos += 1;
        }
        assert forall|m: int| 0 <= m < before.len() implies #[trigger] before[m].id != p.id by {
            assert(before.contains(before[m]));
            let j = choose|j: int| 0 <= j < i && points@[j] == before[m];
            assert(points@[j].id != points@[i as int].id);
        }
        assert forall|m: int| pos <= m < before.len() implies ranks_before(p, #[trigger] before[m]) by {
            assert(before[pos as int].id != p.id);
            if m > pos {
                assert(ranks_before(before[pos as int], before[m]));
            }
        }
        out.insert(pos, p);
        proof {
            before.insert_ensures(pos as int, p);
            let ins = before.insert(pos as int, p);
            assert(out@ == ins);
            assert forall|a: int, b: int| 0 <= a < b < ins.len() implies ranks_before(#[trigger] ins[a], #[trigger] ins[b]) by {
                if b < pos {
                } else if b == pos {
                } else if a < pos {
                    assert(ins[b] == before[b - 1]);
                } else if a == pos {
                    assert(ins[b] == before[b - 1]);
                } else {
                    assert(ins[a] == before[a - 1]);
                    assert(ins[b] == before[b - 1]);
                }
            }
            assert forall|x: ScoredPoint| #[trigger] ins.contains(x) <==> exists|j: int| 0 <= j < i + 1 && points@[j] == x by {
                if ins.contains(x) {
                    let k = choose|k: int| 0 <= k < ins.len() && ins[k] == x;
                    if k == pos {
                        assert(points@[i as int] == x);
                    } else if k < pos {
                        assert(before[k] == x && before.contains(x));
                    } else {
                        assert(before[k - 1] == x && before.contains(x));
                    }
                }
                if exists|j: int| 0 <= j < i + 1 && points@[j] == x {
                    let j = choose|j: int| 0 <= j < i + 1 && points@[j] == x;
                    if j == i {
                        assert(ins[pos as int] == x);
                    } else {
                        assert(before.contains(x));
                        let k = choose|k: int| 0 <= k < before.len() && before[k] == x;
                        if k < pos {
                            assert(ins[k] == x);
                        } else {
                            assert(ins[k + 1] == x);
                        }
                    }
                }
            }
        }
        i += 1;
    }
    proof {
        assert forall|x: ScoredPoint| #[trigger] out@.contains(x) <==> points@.contains(x) by {
            if points@.contains(x) {
                let j = choose|j: int| 0 <= j < points@.len() && points@[j] == x;
                assert(exists|j: int| 0 <= j < i && points@[j] == x);
            }
        }
    }
    out
}

/// Skips the first `offset` entries of `ranked` and keeps at most `limit`
/// of the rest.
pub fn paginate(ranked: &Vec<ScoredPoint>, offset: usize, limit: usize) -> (r: Vec<ScoredPoint>)
    ensures
        r@ == page(ranked@, offset as nat, limit as nat),
{
    let len = ranked.len();
    let mut out: Vec<ScoredPoint> = Vec::new();
    if offset >= len {
        return out;
    }
    let end: usize = if limit >= len - offset {
        len
    } else {
        offset + limit
    };
    let mut i: usize = offset;
    while i < end
        invariant
            offset <= i <= end <= len,
            len == ranked@.len(),
            out@ == ranked@.subrange(offset as int, i as int),
        decreases end - i,
    {
        out.push(ranked[i]);
        i += 1;
        assert(out@ =~= ranked@.subrange(offset as int, i as int));
    }
    out
}

/// Two lists in strict rank order with the same members are equal.
#[verifier::spinoff_prover]
proof fn lemma_same_members_same_order(r1: Seq<ScoredPoint>, r2: Seq<ScoredPoint>)
    requires
        strictly_ranked(r1),
        strictly_ranked(r2),
        forall|x: ScoredPoint| #[trigger] r1.contains(x) <==> r2.contains(x),
    ensures
        r1 == r2,
    decreases r1.len(),
{
    if r1.len() == 0 {
        if r2.len() > 0 {
            assert(r2.contains(r2[0]));
            assert(r1.contains(r2[0]));
        }
        assert(r1 =~= r2);
    } else {
        assert(r1.contains(r1[0]));
        assert(r2.contains(r1[0]));
        assert(r2.contains(r2[0]));
        assert(r1.contains(r2[0]));
        let m = choose|m: int| 0 <= m < r1.len() && r1[m] == r2[0];
        let k = choose|k: int| 0 <= k < r2.len() && r2[k] == r1[0];
        if m > 0 {
            assert(ranks_before(r1[0], r1[m]));
            if k > 0 {
                assert(ranks_before(r2[0], r2[k]));
            }
        }
        assert(r1[0] == r2[0]);
        let t1 = r1.drop_first();
        let t2 = r2.drop_first();
        assert(strictly_ranked(t1)) by {
            assert forall|a: int, b: int| 0 <= a < b < t1.len() implies ranks_before(#[trigger] t1[a], #[trigger] t1[b]) by {
                assert(t1[a] == r1[a + 1] && t1[b] == r1[b + 1]);
            }
        }
        assert(strictly_ranked(t2)) by {
            assert forall|a: int, b: int| 0 <= a < b < t2.len() implies ranks_before(#[trigger] t2[a], #[trigger] t2[b]) by {
                assert(t2[a] == r2[a + 1] && t2[b] == r2[b + 1]);
            }
        }
        assert forall|x: ScoredPoint| #[trigger] t1.contains(x) <==> t2.contains(x) by {
            if t1.contains(x) {
                let a = choose|a: int| 0 <= a < t1.len() && t1[a] == x;
                assert(r1[a + 1] == x && r1.contains(x));
                let b = choose|b: int| 0 <= b < r2.len() && r2[b] == x;
                if b == 0 {
                    assert(ranks_before(r1[0], r1[a + 1]));
                }
                assert(t2[b - 1] == x);
            }
            if t2.contains(x) {
                let a = choose|a: int| 0 <= a < t2.len() && t2[a] == x;
                assert(r2[a + 1] == x && r2.contains(x));
                assert(r1.contains(x));
                let b = choose|b: int| 0 <= b < r1.len() && r1[b] == x;
                if b == 0 {
                    assert(ranks_before(r2[0], r2[a + 1]));
                }
                assert(t1[b - 1] == x);
            }
        }
        lemma_same_members_same_order(t1, t2);
        assert(r1.len() == t1.len() + 1 && r2.len() == t2.len() + 1);
        assert forall|a: int| 0 <= a < r1.len() implies r1[a] == r2[a] by {
            if a > 0 {
                assert(r1[a] == t1[a - 1]);
                assert(r2[a] == t2[a - 1]);
            }
        }
        assert(r1 =~= r2);
    }
}

/// A set has at most one listing in rank order: any two are equal.
pub proof fn lemma_ranking_unique(r1: Seq<ScoredPoint>, r2: Seq<ScoredPoint>, s: Set<ScoredPoint>)
    requires
        ranks(r1, s),
        ranks(r2, s),
    ensures
        r1 == r2,
{
    assert forall|x: ScoredPoint| #[trigger] r1.contains(x) <==> r2.contains(x) by {
        assert(r1.contains(x) <==> s.contains(x));
        assert(r2.contains(x) <==> s.contains(x));
    }
    lemma_same_members_same_order(r1, r2);
}

/// Merges the candidates that all segments returned into one page of the
/// answer: one entry per point identifier (its most recent one), in
/// descending score order, skipping `offset` entries and keeping at most
/// `limit`.
#[verifier::spinoff_prover]
pub fn merge_candidates(points: &Vec<ScoredPoint>, offset: usize, limit: usize) -> (r: Vec<
    ScoredPoint,
>)
    ensures
        ranks(ranking(points@), latest_set(points@)),
        forall|j: int| 0 <= j < points@.len() ==> has_id(ranking(points@), #[trigger] points@[j].id),
        r@ == page(ranking(points@), offset as nat, limit as nat),
        strictly_ranked(r@),
        distinct_ids(r@),
        forall|k: int| 0 <= k < r@.len() ==> is_latest(#[trigger] r@[k], points@),
        offset >= ranking(points@).len() ==> r@.len() == 0,
{
    let latest = latest_versions(points);
    let ranked = rank_by_score(&latest);
    proof {
        let s = latest_set(points@);
        assert forall|x: ScoredPoint| #[trigger] ranked@.contains(x) <==> s.contains(x) by {
            assert(latest@.contains(x) <==> is_latest(x, points@));
        }
        assert(ranks(ranked@, s));
        lemma_ranking_unique(ranked@, ranking(points@), s);
        assert forall|j: int| 0 <= j < points@.len() implies has_id(ranked@, #[trigger] points@[j].id) by {
            assert(has_id(latest@, points@[j].id));
            let m = choose|m: int| 0 <= m < latest@.len() && latest@[m].id == points@[j].id;
            assert(latest@.contains(latest@[m]));
            assert(ranked@.contains(latest@[m]));
            let k = choose|k: int| 0 <= k < ranked@.len() && ranked@[k] == latest@[m];
            assert(ranked@[k].id == points@[j].id);
        }
    }
    let r = paginate(&ranked, offset, limit);
    proof {
        let q = ranked@;
        assert forall|k: int| 0 <= k < r@.len() implies r@[k] == q[offset + k] && is_latest(
            #[trigger] r@[k],
            points@,
        ) by {
            assert(q.contains(q[offset + k]));
        }
        assert forall|a: int, b: int| 0 <= a < b < r@.len() implies ranks_before(
            #[trigger] r@[a],
            #[trigger] r@[b],
        ) by {
            assert(r@[a] == q[offset + a] && r@[b] == q[offset + b]);
        }
        assert forall|a: int, b: int|
            0 <= a < r@.len() && 0 <= b < r@.len() && a != b implies #[trigger] r@[a].id
            != #[trigger] r@[b].id by {
            assert(r@[a] == q[offset + a] && r@[b] == q[offset + b]);
            if a < b {
                assert(ranks_before(q[offset + a], q[offset + b]));
            } else {
                assert(ranks_before(q[offset + b], q[offset + a]));
            }
        }
    }
    r
}

/// The merged answer does not depend on the order in which the segments
/// delivered their candidates: any rearrangement of the same candidates
/// has the same ranking, hence every page of it is the same.
pub proof fn lemma_merge_ignores_arrival_order(a: Seq<ScoredPoint>, b: Seq<ScoredPoint>)
    requires
        a.to_multiset() == b.to_multiset(),
    ensures
        latest_set(a) == latest_set(b),
        ranking(a) == ranking(b),
        forall|offset: nat, limit: nat| #[trigger] page(ranking(a), offset, limit) == page(ranking(b), offset, limit),
{
    broadcast use vstd::seq_lib::group_to_multiset_ensures;
    assert forall|x: ScoredPoint| a.contains(x) <==> b.contains(x) by {
        assert(a.contains(x) <==> a.to_multiset().count(x) > 0);
        assert(b.contains(x) <==> b.to_multiset().count(x) > 0);
    }
    assert forall|x: ScoredPoint| is_latest(x, a) implies is_latest(x, b) by {
        assert(b.contains(x));
        assert forall|j: int| 0 <= j < b.len() && #[trigger] b[j].id == x.id implies !newer(b[j], x) by {
            assert(b.contains(b[j]));
            assert(a.contains(b[j]));
            let i = choose|i: int| 0 <= i < a.len() && a[i] == b[j];
            assert(a[i].id == x.id);
        }
    }
    assert forall|x: ScoredPoint| is_latest(x, b) implies is_latest(x, a) by {
        assert(a.contains(x));
        assert forall|j: int| 0 <= j < a.len() && #[trigger] a[j].id == x.id implies !newer(a[j], x) by {
            assert(a.contains(a[j]));
            assert(b.contains(a[j]));
            let i = choose|i: int| 0 <= i < b.len() && b[i] == a[j];
            assert(b[i].id == x.id);
        }
    }
    assert(latest_set(a) =~= latest_set(b));
}

} // verus!
