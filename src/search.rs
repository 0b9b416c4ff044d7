use vstd::prelude::*;

use crate::error::ShardError;
use crate::merge::{merge_candidates, page, ranking};
use crate::point::ScoredPoint;

verus! {

/// What the caller of a search does next.
#[derive(Debug)]
pub enum SearchAction {
    /// Search segment `index` of the snapshot for up to `top_k` candidates.
    QuerySegment { index: usize, top_k: usize },
    /// The search is over: return this answer.
    Reply(Result<Vec<ScoredPoint>, ShardError>),
}

/// `a` replies with a successful answer whose entries are `s`.
pub open spec fn replies_with(a: SearchAction, s: Seq<ScoredPoint>) -> bool {
    match a {
        SearchAction::Reply(Ok(v)) => v@ == s,
        _ => false,
    }
}

/// How many candidates each segment is asked for: enough to fill the
/// requested page on its own.
pub open spec fn top_k_spec(offset: usize, limit: usize) -> usize {
    if offset + limit <= usize::MAX {
        (offset + limit) as usize
    } else {
        usize::MAX
    }
}

/// The number of candidates to request from every segment for a page that
/// skips `offset` entries and keeps `limit`.
pub fn top_k(offset: usize, limit: usize) -> (r: usize)
    ensures
        r == top_k_spec(offset, limit),
{
    offset.saturating_add(limit)
}

/// One step of a search: querying the next segment of `before` gave
/// `result`, which leads to `after` and the caller's next `action`.
///
/// A failure ends the search with that failure and no partial answer.
/// Candidates are gathered; the next segment is queried, or, after the last
/// one, the answer is the page of the ranking of all gathered candidates.
pub open spec fn search_step(
    before: SearchMerge,
    result: Result<Vec<ScoredPoint>, ShardError>,
    after: SearchMerge,
    action: SearchAction,
) -> bool {
    &&& after.wf()
    &&& after.segment_count == before.segment_count
    &&& after.offset == before.offset
    &&& after.limit == before.limit
    &&& match result {
        Err(e) => {
            &&& action == SearchAction::Reply(Err(e))
            &&& after.finished
            &&& after.collected@ == before.collected@
            &&& after.next_segment == before.next_segment
        },
        Ok(found) => {
            &&& after.collected@ == before.collected@ + found@
            &&& after.next_segment == before.next_segment + 1
            &&& if after.next_segment < after.segment_count {
                &&& !after.finished
                &&& action == (SearchAction::QuerySegment {
                    index: after.next_segment,
                    top_k: top_k_spec(after.offset, after.limit),
                })
            } else {
                &&& after.finished
                &&& replies_with(action, after.answer())
            }
        },
    }
}

/// The candidates that the first `n` outcomes of `results` delivered, in
/// order.
pub open spec fn gathered(results: Seq<Result<Vec<ScoredPoint>, ShardError>>, n: nat) -> Seq<
    ScoredPoint,
>
    decreases n,
{
    if n == 0 {
        Seq::empty()
    } else {
        gathered(results, (n - 1) as nat) + match results[n - 1] {
            Ok(v) => v@,
            Err(_) => Seq::empty(),
        }
    }
}

proof fn lemma_gathered_prefix(
    a: Seq<Result<Vec<ScoredPoint>, ShardError>>,
    b: Seq<Result<Vec<ScoredPoint>, ShardError>>,
    n: nat,
)
    requires
        n <= a.len(),
        n <= b.len(),
        forall|i: int| 0 <= i < n ==> a[i] == b[i],
    ensures
        gathered(a, n) == gathered(b, n),
    decreases n,
{
    if n > 0 {
        lemma_gathered_prefix(a, b, (n - 1) as nat);
    }
}

/// Over a whole search, only the last segment queried can have failed: a
/// failure is the reply, with no partial answer. When every segment
/// answered, the reply is the page of the ranking of all the candidates the
/// segments returned, in the order they were queried.
#[verifier::spinoff_prover]
pub proof fn lemma_search_run(
    states: Seq<SearchMerge>,
    results: Seq<Result<Vec<ScoredPoint>, ShardError>>,
    actions: Seq<SearchAction>,
)
    requires
        states.len() == results.len() + 1,
        actions.len() == results.len(),
        states[0].wf(),
        states[0].next_segment == 0,
        states[0].collected@ == Seq::<ScoredPoint>::empty(),
        forall|i: int|
            0 <= i < results.len() ==> !(#[trigger] states[i]).finished && search_step(
                states[i],
                results[i],
                states[i + 1],
                actions[i],
            ),
    ensures
        ({
            let n = results.len() as int;
            let last = states[n];
            &&& last.segment_count == states[0].segment_count
            &&& last.offset == states[0].offset
            &&& last.limit == states[0].limit
            &&& forall|i: int| 0 <= i < n - 1 ==> #[trigger] results[i] is Ok
            &&& last.collected@ == gathered(results, n as nat)
            &&& n > 0 && results[n - 1] is Err ==> {
                &&& actions[n - 1] == SearchAction::Reply(Err(results[n - 1]->Err_0))
                &&& last.finished
                &&& last.next_segment == n - 1
            }
            &&& (n == 0 || results[n - 1] is Ok) ==> last.next_segment == n
            &&& n > 0 && results[n - 1] is Ok && n < last.segment_count ==> actions[n - 1] == (
            SearchAction::QuerySegment { index: n as usize, top_k: top_k_spec(last.offset, last.limit) })
            &&& n > 0 && results[n - 1] is Ok && n >= last.segment_count ==> replies_with(
                actions[n - 1],
                page(ranking(gathered(results, n as nat)), last.offset as nat, last.limit as nat),
            )
        }),
    decreases results.len(),
{
    let n = results.len() as int;
    if n > 0 {
        let m = n - 1;
        let s2 = states.subrange(0, m + 1);
        let r2 = results.subrange(0, m);
        let a2 = actions.subrange(0, m);
        assert forall|i: int| 0 <= i < r2.len() implies !(#[trigger] s2[i]).finished && search_step(
            s2[i],
            r2[i],
            s2[i + 1],
            a2[i],
        ) by {
            assert(s2[i] == states[i] && s2[i + 1] == states[i + 1]);
            assert(!states[i].finished && search_step(states[i], results[i], states[i + 1], actions[i]));
        }
        lemma_search_run(s2, r2, a2);
        lemma_gathered_prefix(r2, results, m as nat);
        assert(s2[m] == states[m]);
        assert(!states[m].finished && search_step(states[m], results[m], states[m + 1], actions[m]));
        if m > 0 {
            assert(r2[m - 1] == results[m - 1]);
            assert(results[m - 1] is Ok);
        }
        assert forall|i: int| 0 <= i < n - 1 implies #[trigger] results[i] is Ok by {
            assert(r2[i] == results[i]);
            if i < m - 1 {
                assert(r2[i] is Ok);
            }
        }
    }
}

/// One search over a snapshot of `segment_count` segments, taken in the
/// order non-appendable first, then appendable.
///
/// The caller queries the segments one after another as the returned
/// actions say and feeds each outcome back; the candidates gathered so far
/// are `collected`.
pub struct SearchMerge {
    pub segment_count: usize,
    pub next_segment: usize,
    pub offset: usize,
    pub limit: usize,
    pub collected: Vec<ScoredPoint>,
    pub finished: bool,
}

impl SearchMerge {
    /// A search in progress still has a segment to query.
    pub open spec fn wf(&self) -> bool {
        &&& self.next_segment <= self.segment_count
        &&& !self.finished ==> self.next_segment < self.segment_count
    }

    /// The answer once every segment has contributed `collected`.
    pub open spec fn answer(&self) -> Seq<ScoredPoint> {
        page(ranking(self.collected@), self.offset as nat, self.limit as nat)
    }

    /// Starts a search; with no segments at all it is answered at once,
    /// with an empty list.
    pub fn begin(segment_count: usize, offset: usize, limit: usize) -> (r: (SearchMerge, SearchAction))
        ensures
            r.0.wf(),
            r.0.segment_count == segment_count,
            r.0.next_segment == 0,
            r.0.offset == offset,
            r.0.limit == limit,
            r.0.collected@ == Seq::<ScoredPoint>::empty(),
            segment_count == 0 ==> r.0.finished && replies_with(r.1, Seq::empty()),
            segment_count > 0 ==> !r.0.finished && r.1 == (SearchAction::QuerySegment {
                index: 0,
                top_k: top_k_spec(offset, limit),
            }),
    {
        let state = SearchMerge {
            segment_count,
            next_segment: 0,
            offset,
            limit,
            collected: Vec::new(),
            finished: segment_count == 0,
        };
        if segment_count == 0 {
            (state, SearchAction::Reply(Ok(Vec::new())))
        } else {
            (state, SearchAction::QuerySegment { index: 0, top_k: top_k(offset, limit) })
        }
    }

    /// Takes the outcome of querying segment `next_segment`.
    ///
    /// A failure ends the search with that failure and no partial answer.
    /// Candidates are gathered; after the last segment the gathered
    /// candidates are merged into the answer.
    pub fn on_segment_result(&mut self, result: Result<Vec<ScoredPoint>, ShardError>) -> (r:
        SearchAction)
        requires
            old(self).wf(),
            !old(self).finished,
        ensures
            search_step(*old(self), result, *final(self), r),
    {
        match result {
            Err(e) => {
                self.finished = true;
                SearchAction::Reply(Err(e))
            },
            Ok(found) => {
                let mut found = found;
                self.collected.append(&mut found);
                self.next_segment = self.next_segment + 1;
                if self.next_segment < self.segment_count {
                    SearchAction::QuerySegment {
                        index: self.next_segment,
                        top_k: top_k(self.offset, self.limit),
                    }
                } else {
                    self.finished = true;
                    SearchAction::Reply(Ok(merge_candidates(&self.collected, self.offset, self.limit)))
                }
            },
        }
    }
}

} // verus!
