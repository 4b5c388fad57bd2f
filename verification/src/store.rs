//! The shared result store.
//!
//! Each worker accumulates its records in a buffer of its own; once every
//! worker has finished, the dispatcher merges the buffers into one store.
//! The final dataset is the concatenation of the workers' buffers, so no
//! record is dropped and none is duplicated, whatever the interleaving of
//! the run was.

use vstd::prelude::*;
use crate::record::ResultRecord;

verus! {

/// The collection of per-request outcomes of a whole run.
pub struct ResultStore {
    pub records: Vec<ResultRecord>,
}

impl View for ResultStore {
    type V = Seq<ResultRecord>;

    open spec fn view(&self) -> Seq<ResultRecord> {
        self.records@
    }
}

impl ResultStore {
    /// Every record of the store is well formed.
    pub open spec fn wf(self) -> bool {
        forall|i: int| 0 <= i < self@.len() ==> self@[i].wf()
    }

    /// An empty store.
    pub fn new() -> (s: ResultStore)
        ensures
            s@ == Seq::<ResultRecord>::empty(),
            s.wf(),
    {
        ResultStore { records: Vec::new() }
    }

    /// How many records the store holds.
    pub fn len(&self) -> (n: usize)
        ensures
            n == self@.len(),
    {
        self.records.len()
    }

    /// Appends one record.
    pub fn push(&mut self, r: ResultRecord)
        ensures
            final(self)@ == old(self)@.push(r),
    {
        self.records.push(r);
    }

    /// Appends a whole worker buffer, in order.
    pub fn push_all(&mut self, buf: &Vec<ResultRecord>)
        ensures
            final(self)@ == old(self)@ + buf@,
    {
        let ghost orig = self.records@;
        let n = buf.len();
        let mut j: usize = 0;
        proof {
            assert(orig + buf@.take(0) =~= orig);
        }
        while j < n
            invariant
                n == buf@.len(),
                j <= n,
                self.records@ == orig + buf@.take(j as int),
            decreases n - j,
        {
            self.records.push(buf[j]);
            proof {
                assert(orig + buf@.take(j + 1) =~= (orig + buf@.take(j as int)).push(buf@[j as int]));
            }
            j = j + 1;
        }
        proof {
            assert(orig + buf@.take(n as int) =~= orig + buf@);
        }
    }

    /// Merges the buffers of all workers into one store: the result is
    /// exactly their concatenation.
    pub fn merge(buffers: &Vec<Vec<ResultRecord>>) -> (s: ResultStore)
        ensures
            s@ == buffers@.map_values(|b: Vec<ResultRecord>| b@).flatten(),
    {
        let ghost dv = buffers@.map_values(|b: Vec<ResultRecord>| b@);
        let mut s = ResultStore::new();
        let n = buffers.len();
        let mut i: usize = 0;
        proof {
            assert(dv.take(0) =~= Seq::<Seq<ResultRecord>>::empty());
            assert(dv.take(0).flatten() =~= Seq::<ResultRecord>::empty());
        }
        while i < n
            invariant
                n == buffers@.len(),
                i <= n,
                dv == buffers@.map_values(|b: Vec<ResultRecord>| b@),
                s@ == dv.take(i as int).flatten(),
            decreases n - i,
        {
            s.push_all(&buffers[i]);
            proof {
                assert(dv.take(i + 1) =~= dv.take(i as int).push(dv[i as int]));
                dv.take(i as int).lemma_flatten_push(dv[i as int]);
            }
            i = i + 1;
        }
        proof {
            assert(dv.take(n as int) =~= dv);
        }
        s
    }
}

/// After a run of `n` workers whose buffers hold `m` records each, the
/// merged store holds exactly `n * m` records: none dropped, none
/// duplicated, whatever order the workers finished in.
pub proof fn lemma_merge_count(buffers: Seq<Seq<ResultRecord>>, m: nat)
    requires
        forall|i: int| 0 <= i < buffers.len() ==> (#[trigger] buffers[i]).len() == m,
    ensures
        buffers.flatten().len() == buffers.len() * m,
    decreases buffers.len(),
{
    if buffers.len() == 0 {
        assert(buffers.flatten().len() == 0);
    } else {
        let rest = buffers.drop_first();
        assert(forall|i: int| 0 <= i < rest.len() ==> (#[trigger] rest[i]).len() == m);
        lemma_merge_count(rest, m);
        assert(buffers.flatten() == buffers.first() + rest.flatten());
        assert(buffers.len() * m == m + (buffers.len() - 1) * m) by (nonlinear_arith);
    }
}

} // verus!
