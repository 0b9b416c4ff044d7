use vstd::prelude::*;

verus! {

/// Hands out operation identifiers for one shard's write-ahead log.
#[derive(Clone, Copy, Debug, PartialEq, Eq, Structural)]
pub struct OpSequencer {
    pub next_id: u64,
}

/// Going from `before` to `after` handed out `id`.
pub open spec fn issued(before: OpSequencer, after: OpSequencer, id: u64) -> bool {
    &&& before.next_id < u64::MAX
    &&& id == before.next_id
    &&& after.next_id == before.next_id + 1
}

impl OpSequencer {
    /// A sequencer whose first identifier is `first_id`.
    pub fn new(first_id: u64) -> (r: OpSequencer)
        ensures
            r.next_id == first_id,
    {
        OpSequencer { next_id: first_id }
    }

    /// The next identifier, or `None` once the identifiers are used up
    /// (the last value of `u64` is never handed out).
    pub fn issue(&mut self) -> (r: Option<u64>)
        ensures
            match r {
                Some(id) => issued(*old(self), *final(self), id),
                None => old(self).next_id == u64::MAX && *final(self) == *old(self),
            },
    {
        if self.next_id == u64::MAX {
            None
        } else {
            let id = self.next_id;
            self.next_id = id + 1;
            Some(id)
        }
    }
}

/// Identifiers that successive calls hand out are strictly increasing and
/// leave no gaps: the `i`-th one is the first plus `i`.
pub proof fn lemma_issued_ids_gap_free(states: Seq<OpSequencer>, ids: Seq<u64>)
    requires
        states.len() == ids.len() + 1,
        forall|i: int| 0 <= i < ids.len() ==> issued(#[trigger] states[i], states[i + 1], ids[i]),
    ensures
        forall|i: int| 0 <= i < ids.len() ==> #[trigger] ids[i] == states[0].next_id + i,
        forall|i: int, j: int| 0 <= i < j < ids.len() ==> #[trigger] ids[i] < #[trigger] ids[j],
        states[ids.len() as int].next_id == states[0].next_id + ids.len(),
    decreases ids.len(),
{
    if ids.len() > 0 {
        let n = ids.len() - 1;
        let s = states.subrange(0, n + 1);
        let d = ids.subrange(0, n);
        assert forall|i: int| 0 <= i < d.len() implies issued(#[trigger] s[i], s[i + 1], d[i]) by {
            assert(s[i] == states[i] && s[i + 1] == states[i + 1] && d[i] == ids[i]);
            assert(issued(states[i], states[i + 1], ids[i]));
        }
        lemma_issued_ids_gap_free(s, d);
        assert(issued(states[n], states[n + 1], ids[n]));
        assert forall|i: int| 0 <= i < ids.len() implies #[trigger] ids[i] == states[0].next_id + i by {
            if i < n {
                assert(d[i] == ids[i]);
            }
        }
    }
}

} // verus!
