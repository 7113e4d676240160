//! Pipeline state store: a durable record keyed by (template name, step
//! index) whose value is Completed or Failed with a message; a pair without
//! a record is Pending.  The orchestrator persists the record after every
//! single status change, so a crash leaves it consistent as of the last
//! fully-recorded step outcome.

use crate::statefmt::{
    bounded_entries, dec_state, enc_state, entries_view, parse_entries, encode_entries,
    EntryStatus, SpecEntry, SpecStatus, StateEntry,
};
use crate::strutil::str_eq;
use vstd::prelude::*;

verus! {

/// The status of one (template, step index) pair.
#[derive(Debug, PartialEq)]
pub enum StepState {
    Pending,
    Completed,
    Failed(String),
}

/// The map a record list denotes: a later record for the same pair wins.
pub open spec fn etm(es: Seq<SpecEntry>) -> Map<(Seq<char>, nat), SpecStatus>
    decreases es.len(),
{
    if es.len() == 0 {
        Map::empty()
    } else {
        etm(es.drop_last()).insert(
            (es.last().template, es.last().index),
            es.last().status,
        )
    }
}

/// Pairwise-distinct (template, index) keys.
pub open spec fn wf_state_entries(es: Seq<SpecEntry>) -> bool {
    forall|i: int, j: int|
        0 <= i < j < es.len() ==> (es[i].template, es[i].index) != (
            es[j].template,
            es[j].index,
        )
}

proof fn lemma_etm_contains(es: Seq<SpecEntry>, k: (Seq<char>, nat))
    ensures
        etm(es).contains_key(k) <==> exists|i: int|
            0 <= i < es.len() && ((#[trigger] es[i].template), es[i].index) == k,
    decreases es.len(),
{
    if es.len() > 0 {
        lemma_etm_contains(es.drop_last(), k);
        if etm(es).contains_key(k) {
            if (es.last().template, es.last().index) == k {
                assert((es[es.len() - 1].template, es[es.len() - 1].index) == k);
            } else {
                let i = choose|i: int|
                    0 <= i < es.drop_last().len() && ((#[trigger] es.drop_last()[i].template),
                    es.drop_last()[i].index) == k;
                assert((es[i].template, es[i].index) == k);
            }
        }
        if exists|i: int| 0 <= i < es.len() && ((#[trigger] es[i].template), es[i].index) == k {
            let i = choose|i: int|
                0 <= i < es.len() && ((#[trigger] es[i].template), es[i].index) == k;
            if i < es.len() - 1 {
                assert((es.drop_last()[i].template, es.drop_last()[i].index) == k);
            }
        }
    }
}

proof fn lemma_etm_get(es: Seq<SpecEntry>, i: int)
    requires
        wf_state_entries(es),
        0 <= i < es.len(),
    ensures
        etm(es).contains_key((es[i].template, es[i].index)),
        etm(es)[(es[i].template, es[i].index)] == es[i].status,
    decreases es.len(),
{
    if i == es.len() - 1 {
        lemma_etm_contains(es, (es[i].template, es[i].index));
    } else {
        assert(wf_state_entries(es.drop_last())) by {
            assert(forall|p: int, q: int|
                0 <= p < q < es.drop_last().len() ==> (es[p].template, es[p].index) != (
                    es[q].template,
                    es[q].index,
                ));
        }
        lemma_etm_get(es.drop_last(), i);
        assert(es.drop_last()[i] == es[i]);
        assert((es[i].template, es[i].index) != (es.last().template, es.last().index));
    }
}

proof fn lemma_etm_extract(es: Seq<SpecEntry>, i: int)
    requires
        wf_state_entries(es),
        0 <= i < es.len(),
    ensures
        etm(es) =~= etm(es.remove(i)).insert((es[i].template, es[i].index), es[i].status),
    decreases es.len(),
{
    if i == es.len() - 1 {
        assert(es.remove(i) =~= es.drop_last());
    } else {
        assert(wf_state_entries(es.drop_last())) by {
            assert(forall|p: int, q: int|
                0 <= p < q < es.drop_last().len() ==> (es[p].template, es[p].index) != (
                    es[q].template,
                    es[q].index,
                ));
        }
        lemma_etm_extract(es.drop_last(), i);
        assert(es.remove(i).drop_last() =~= es.drop_last().remove(i));
        assert(es.remove(i).last() == es.last());
        assert((es[i].template, es[i].index) != (es.last().template, es.last().index));
    }
}

/// The durable per-step record of a pipeline run.
#[derive(Debug)]
pub struct PipelineState {
    entries: Vec<StateEntry>,
}

impl View for PipelineState {
    type V = Map<(Seq<char>, nat), SpecStatus>;

    closed spec fn view(&self) -> Map<(Seq<char>, nat), SpecStatus> {
        etm(entries_view(self.entries@))
    }
}

impl PipelineState {
    /// Well-formedness: one record per (template, index) pair.
    pub closed spec fn wf(&self) -> bool {
        wf_state_entries(entries_view(self.entries@))
    }

    /// An empty record: every step is Pending.
    pub fn new() -> (r: PipelineState)
        ensures
            r.wf(),
            r@ == Map::<(Seq<char>, nat), SpecStatus>::empty(),
    {
        let st = PipelineState { entries: Vec::new() };
        proof {
            assert(entries_view(st.entries@) =~= Seq::<SpecEntry>::empty());
        }
        st
    }

    /// Record `status` for the pair, replacing any previous record.
    fn set(&mut self, template: &str, step_idx: usize, status: EntryStatus)
        requires
            old(self).wf(),
        ensures
            final(self).wf(),
            final(self)@ == old(self)@.insert((template@, step_idx as nat), status@),
    {
        let ghost prev = entries_view(self.entries@);
        let n = self.entries.len();
        let mut i: usize = 0;
        while i < n
            invariant
                wf_state_entries(prev),
                prev == entries_view(old(self).entries@),
                entries_view(self.entries@) == prev,
                self.entries@.len() == n,
                prev.len() == n,
                i <= n,
                forall|j: int|
                    0 <= j < i ==> ((#[trigger] prev[j].template), prev[j].index) != (
                        template@,
                        step_idx as nat,
                    ),
            decreases n - i,
        {
            if self.entries[i].index == step_idx && str_eq(
                self.entries[i].template.as_str(),
                template,
            ) {
                proof {
                    assert((prev[i as int].template, prev[i as int].index) == (
                        template@,
                        step_idx as nat,
                    ));
                    lemma_etm_extract(prev, i as int);
                }
                self.entries.remove(i);
                self.entries.push(StateEntry { template: template.to_owned(), index: step_idx, status });
                proof {
                    let removed = prev.remove(i as int);
                    assert(entries_view(self.entries@).drop_last() =~= removed);
                    assert(entries_view(self.entries@).last() == SpecEntry {
                        template: template@,
                        index: step_idx as nat,
                        status: status@,
                    });
                    assert(etm(entries_view(self.entries@)) =~= etm(prev).insert(
                        (template@, step_idx as nat),
                        status@,
                    ));
                    assert(forall|j: int|
                        0 <= j < removed.len() ==> ((#[trigger] removed[j].template),
                        removed[j].index) != (template@, step_idx as nat)) by {
                        assert(forall|j: int|
                            0 <= j < removed.len() ==> exists|p: int|
                                0 <= p < prev.len() && p != i && prev[p] == #[trigger] removed[j]);
                    }
                    assert(wf_state_entries(entries_view(self.entries@))) by {
                        let cur = entries_view(self.entries@);
                        assert forall|p: int, q: int| 0 <= p < q < cur.len() implies (
                        cur[p].template,
                        cur[p].index,
                        ) != (cur[q].template, cur[q].index) by {
                            assert(cur[p] == removed[p]);
                            if q < cur.len() - 1 {
                                assert(cur[q] == removed[q]);
                            }
                        };
                    }
                }
                return ;
            }
            i = i + 1;
        }
        self.entries.push(StateEntry { template: template.to_owned(), index: step_idx, status });
        proof {
            assert(entries_view(self.entries@).drop_last() =~= prev);
            assert(entries_view(self.entries@).last() == SpecEntry {
                template: template@,
                index: step_idx as nat,
                status: status@,
            });
            assert(wf_state_entries(entries_view(self.entries@))) by {
                let cur = entries_view(self.entries@);
                assert forall|p: int, q: int| 0 <= p < q < cur.len() implies (
                cur[p].template,
                cur[p].index,
                ) != (cur[q].template, cur[q].index) by {
                    assert(cur[p] == prev[p]);
                    if q < cur.len() - 1 {
                        assert(cur[q] == prev[q]);
                    }
                };
            }
        }
    }

    /// Record that the step completed.
    pub fn mark_completed(&mut self, template: &str, step_idx: usize)
        requires
            old(self).wf(),
        ensures
            final(self).wf(),
            final(self)@ == old(self)@.insert((template@, step_idx as nat), SpecStatus::Completed),
    {
        self.set(template, step_idx, EntryStatus::Completed);
    }

    /// Record that the step failed, with the failure's message.
    pub fn mark_failed(&mut self, template: &str, step_idx: usize, error: &str)
        requires
            old(self).wf(),
        ensures
            final(self).wf(),
            final(self)@ == old(self)@.insert(
                (template@, step_idx as nat),
                SpecStatus::Failed(error@),
            ),
    {
        self.set(template, step_idx, EntryStatus::Failed(error.to_owned()));
    }

    /// The recorded status of the pair; Pending when no record exists.
    pub fn get(&self, template: &str, step_idx: usize) -> (r: StepState)
        requires
            self.wf(),
        ensures
            match self@.get((template@, step_idx as nat)) {
                None => r == StepState::Pending,
                Some(SpecStatus::Completed) => r == StepState::Completed,
                Some(SpecStatus::Failed(m)) => match r {
                    StepState::Failed(msg) => msg@ == m,
                    _ => false,
                },
            },
    {
        let ghost es = entries_view(self.entries@);
        let n = self.entries.len();
        let mut i: usize = 0;
        while i < n
            invariant
                self.wf(),
                es == entries_view(self.entries@),
                self.entries@.len() == n,
                es.len() == n,
                i <= n,
                forall|j: int|
                    0 <= j < i ==> ((#[trigger] es[j].template), es[j].index) != (
                        template@,
                        step_idx as nat,
                    ),
            decreases n - i,
        {
            if self.entries[i].index == step_idx && str_eq(
                self.entries[i].template.as_str(),
                template,
            ) {
                proof {
                    lemma_etm_get(es, i as int);
                }
                match &self.entries[i].status {
                    EntryStatus::Completed => {
                        return StepState::Completed;
                    },
                    EntryStatus::Failed(m) => {
                        return StepState::Failed(m.clone());
                    },
                }
            }
            i = i + 1;
        }
        proof {
            lemma_etm_contains(es, (template@, step_idx as nat));
        }
        StepState::Pending
    }

    /// Serialize the full record as text.
    pub fn serialize(&self) -> (r: String)
        ensures
            r@ == enc_state(entries_view(self.entries_seq())),
            dec_state(r@) == Some(entries_view(self.entries_seq())),
            etm(entries_view(self.entries_seq())) == self@,
            bounded_entries(entries_view(self.entries_seq())),
    {
        proof {
            crate::statefmt::lemma_dec_state_of_enc(entries_view(self.entries@));
        }
        encode_entries(&self.entries)
    }

    /// The recorded entries, for specification purposes.
    pub closed spec fn entries_seq(&self) -> Seq<StateEntry> {
        self.entries@
    }

    /// Rebuild a record from text, as `serialize` wrote it.  Invalid text is
    /// an error; the records of valid text are replayed in order.
    pub fn deserialize(s: &str) -> (r: Result<PipelineState, StateIoError>)
        ensures
            match r {
                Ok(ps) => {
                    &&& ps.wf()
                    &&& dec_state(s@) is Some
                    &&& ps@ == etm(dec_state(s@)->Some_0)
                },
                Err(_) => match dec_state(s@) {
                    Some(es) => !bounded_entries(es),
                    None => true,
                },
            },
    {
        let parsed = match parse_entries(s) {
            Some(v) => v,
            None => {
                return Err(StateIoError {  });
            },
        };
        let mut ps = PipelineState::new();
        let n = parsed.len();
        let mut i: usize = 0;
        proof {
            assert(entries_view(parsed@.take(0)) =~= Seq::<SpecEntry>::empty());
        }
        while i < n
            invariant
                n == parsed@.len(),
                i <= n,
                ps.wf(),
                ps@ == etm(entries_view(parsed@.take(i as int))),
            decreases n - i,
        {
            let entry = &parsed[i];
            match &entry.status {
                EntryStatus::Completed => {
                    ps.mark_completed(entry.template.as_str(), entry.index);
                },
                EntryStatus::Failed(m) => {
                    ps.mark_failed(entry.template.as_str(), entry.index, m.as_str());
                },
            }
            proof {
                let upto = entries_view(parsed@.take(i + 1));
                assert(upto.drop_last() =~= entries_view(parsed@.take(i as int)));
                assert(upto.last() == parsed@[i as int]@);
            }
            i = i + 1;
        }
        proof {
            assert(parsed@.take(n as int) =~= parsed@);
        }
        Ok(ps)
    }
}

/// Failure to rebuild a pipeline state record from text.
#[derive(Debug)]
pub struct StateIoError {}

impl StateIoError {
    /// Render the error as text.
    pub fn message(&self) -> (r: String)
        ensures
            r@ == "malformed pipeline state record"@,
    {
        let mut s = String::new();
        s.append("malformed pipeline state record");
        proof {
            assert(s@ =~= "malformed pipeline state record"@);
        }
        s
    }
}

} // verus!
