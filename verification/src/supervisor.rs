//! The servant supervisor: the table of running instances, keyed by
//! (kind, artefact id, servant id), together with start and stop.

use vstd::prelude::*;
use crate::artefact::{ArtefactKind, ArtefactDefinition, Endpoint, EndpointV, constructible};
use crate::errors::{Error, ErrorV};

verus! {

/// One running servant: the identity under which it was started.
#[derive(Debug)]
pub struct ServantEntry {
    pub kind: ArtefactKind,
    pub artefact_id: String,
    pub servant_id: String,
}

/// Mathematical view of a [`ServantEntry`].
#[verifier::ext_equal]
pub struct KeyV {
    pub kind: ArtefactKind,
    pub artefact_id: Seq<char>,
    pub servant_id: Seq<char>,
}

impl View for ServantEntry {
    type V = KeyV;

    open spec fn view(&self) -> KeyV {
        KeyV { kind: self.kind, artefact_id: self.artefact_id@, servant_id: self.servant_id@ }
    }
}

impl DeepView for ServantEntry {
    type V = KeyV;

    open spec fn deep_view(&self) -> KeyV {
        self@
    }
}

impl Clone for ServantEntry {
    fn clone(&self) -> (r: Self)
        ensures
            r == *self,
    {
        ServantEntry {
            kind: self.kind,
            artefact_id: self.artefact_id.clone(),
            servant_id: self.servant_id.clone(),
        }
    }
}

/// No element of `s` occurs twice.
pub open spec fn distinct_seq<A>(s: Seq<A>) -> bool {
    forall|i: int, j: int| 0 <= i < j < s.len() ==> s[i] != s[j]
}

/// Keys in the servant table are unique: a (kind, artefact id, servant id)
/// triple identifies at most one live servant.
pub open spec fn sup_wf(s: Seq<KeyV>) -> bool {
    distinct_seq(s)
}

/// The index of `k` in `s` (unique when `sup_wf` holds).
pub open spec fn sup_idx(s: Seq<KeyV>, k: KeyV) -> int {
    choose|i: int| 0 <= i < s.len() && s[i] == k
}

/// The servant ids of the servants running under (kind, artefact id), in
/// table order.
pub open spec fn sids_for(s: Seq<KeyV>, kind: ArtefactKind, aid: Seq<char>) -> Seq<Seq<char>>
    decreases s.len(),
{
    if s.len() == 0 {
        Seq::empty()
    } else {
        let rest = sids_for(s.drop_last(), kind, aid);
        if s.last().kind == kind && s.last().artefact_id == aid {
            rest.push(s.last().servant_id)
        } else {
            rest
        }
    }
}

/// The endpoints (kind, artefact id) of the servants whose servant id is
/// `sid`, in table order.
pub open spec fn eps_linked(s: Seq<KeyV>, sid: Seq<char>) -> Seq<EndpointV>
    decreases s.len(),
{
    if s.len() == 0 {
        Seq::empty()
    } else {
        let rest = eps_linked(s.drop_last(), sid);
        if s.last().servant_id == sid {
            rest.push(EndpointV { kind: s.last().kind, id: s.last().artefact_id })
        } else {
            rest
        }
    }
}

/// The table after every servant with servant id `sid` is stopped.
pub open spec fn without_sid(s: Seq<KeyV>, sid: Seq<char>) -> Seq<KeyV>
    decreases s.len(),
{
    if s.len() == 0 {
        Seq::empty()
    } else {
        let rest = without_sid(s.drop_last(), sid);
        if s.last().servant_id == sid {
            rest
        } else {
            rest.push(s.last())
        }
    }
}

/// How stopping `sid` partitions the table: the endpoints taken down and the
/// keys kept account for every entry; a table with no servant under `sid` is
/// left unchanged; the kept keys are exactly the entries under other ids.
pub proof fn lemma_sid_partition(s: Seq<KeyV>, sid: Seq<char>)
    ensures
        eps_linked(s, sid).len() + without_sid(s, sid).len() == s.len(),
        eps_linked(s, sid).len() == 0 ==> without_sid(s, sid) == s,
        forall|i: int|
            0 <= i < s.len() && s[i].servant_id == sid ==> eps_linked(s, sid).len() > 0,
        forall|i: int|
            0 <= i < without_sid(s, sid).len() ==> s.contains(#[trigger] without_sid(s, sid)[i])
                && without_sid(s, sid)[i].servant_id != sid,
        eps_linked(s, sid).len() != 0 ==> exists|i: int|
            0 <= i < s.len() && s[i].servant_id == sid,
    decreases s.len(),
{
    if s.len() > 0 {
        let bl = s.drop_last();
        lemma_sid_partition(bl, sid);
        assert(forall|i: int| 0 <= i < bl.len() ==> bl[i] == s[i]);
        if eps_linked(s, sid).len() == 0 {
            assert(without_sid(bl, sid) == bl);
            assert(without_sid(s, sid) =~= bl.push(s.last()));
            assert(bl.push(s.last()) =~= s);
        }
        assert forall|i: int| 0 <= i < without_sid(s, sid).len() implies s.contains(
            #[trigger] without_sid(s, sid)[i],
        ) && without_sid(s, sid)[i].servant_id != sid by {
            let w = without_sid(s, sid);
            let wbl = without_sid(bl, sid);
            if s.last().servant_id != sid && i == w.len() - 1 {
                assert(w[i] == s.last());
                assert(s[s.len() - 1] == s.last());
            } else {
                assert(w[i] == wbl[i]);
                assert(bl.contains(wbl[i]));
                let j = choose|j: int| 0 <= j < bl.len() && bl[j] == wbl[i];
                assert(s[j] == wbl[i]);
            }
        }
    }
}

/// Stopping every servant under `sid` keeps the remaining keys distinct.
pub proof fn lemma_without_sid_distinct(s: Seq<KeyV>, sid: Seq<char>)
    requires
        distinct_seq(s),
    ensures
        distinct_seq(without_sid(s, sid)),
    decreases s.len(),
{
    if s.len() > 0 {
        let bl = s.drop_last();
        assert(forall|i: int| 0 <= i < bl.len() ==> bl[i] == s[i]);
        assert(distinct_seq(bl));
        lemma_without_sid_distinct(bl, sid);
        if s.last().servant_id != sid {
            let w = without_sid(s, sid);
            let wbl = without_sid(bl, sid);
            assert(w == wbl.push(s.last()));
            lemma_sid_partition(bl, sid);
            assert forall|a: int, b: int| 0 <= a < b < w.len() implies w[a] != w[b] by {
                if b == w.len() - 1 {
                    assert(w[b] == s.last());
                    assert(bl.contains(wbl[a]));
                    let j = choose|j: int| 0 <= j < bl.len() && bl[j] == wbl[a];
                    assert(s[j] == w[a]);
                    assert(s[j] != s[s.len() - 1]);
                }
            }
        }
    }
}

/// Tracks running instances; owns start and stop of the underlying unit.
#[derive(Debug)]
pub struct Supervisor {
    table: Vec<ServantEntry>,
}

impl View for Supervisor {
    type V = Seq<KeyV>;

    closed spec fn view(&self) -> Seq<KeyV> {
        self.table.deep_view()
    }
}

impl Supervisor {
    /// An empty servant table.
    pub fn new() -> (r: Supervisor)
        ensures
            r@ == Seq::<KeyV>::empty(),
            sup_wf(r@),
    {
        let r = Supervisor { table: Vec::new() };
        proof {
            assert(r@ =~= Seq::<KeyV>::empty());
        }
        r
    }

    /// How many servants are running.
    pub fn len(&self) -> (r: usize)
        ensures
            r == self@.len(),
    {
        self.table.len()
    }

    /// The index of the servant with this identity, if it is running.
    fn find(&self, kind: ArtefactKind, aid: &String, sid: &String) -> (r: Option<usize>)
        ensures
            match r {
                Some(i) => i < self@.len() && self@[i as int] == (KeyV {
                    kind,
                    artefact_id: aid@,
                    servant_id: sid@,
                }),
                None => !self@.contains(
                    KeyV { kind, artefact_id: aid@, servant_id: sid@ },
                ),
            },
    {
        let ghost k = KeyV { kind, artefact_id: aid@, servant_id: sid@ };
        let mut i: usize = 0;
        while i < self.table.len()
            invariant
                i <= self.table.len(),
                self@.len() == self.table.len(),
                k == (KeyV { kind, artefact_id: aid@, servant_id: sid@ }),
                forall|j: int| 0 <= j < i ==> self@[j] != k,
            decreases self.table.len() - i,
        {
            let e = &self.table[i];
            proof {
                assert(self@[i as int] == (KeyV {
                    kind: e.kind,
                    artefact_id: e.artefact_id@,
                    servant_id: e.servant_id@,
                }));
            }
            if e.kind == kind && e.artefact_id == *aid && e.servant_id == *sid {
                return Some(i);
            }
            i += 1;
        }
        proof {
            if self@.contains(k) {
                let j = choose|j: int| 0 <= j < self@.len() && self@[j] == k;
                assert(self@[j] != k);
            }
        }
        None
    }

    /// Whether the servant with this identity is running.
    pub fn is_running(&self, kind: ArtefactKind, aid: &String, sid: &String) -> (r: bool)
        ensures
            r == self@.contains(KeyV { kind, artefact_id: aid@, servant_id: sid@ }),
    {
        match self.find(kind, aid, sid) {
            Some(i) => {
                proof {
                    assert(self@.contains(
                        KeyV { kind, artefact_id: aid@, servant_id: sid@ },
                    )) by {
                        assert(self@[i as int]
                            == (KeyV { kind, artefact_id: aid@, servant_id: sid@ }));
                    }
                }
                true
            },
            None => false,
        }
    }

    /// Constructs and registers a servant for `def` under the given identity.
    /// Construction is fallible; on failure no partial state is retained.
    pub fn start(
        &mut self,
        kind: ArtefactKind,
        aid: &String,
        sid: &String,
        def: &ArtefactDefinition,
    ) -> (r: Result<(), Error>)
        requires
            sup_wf(old(self)@),
        ensures
            sup_wf(final(self)@),
            ({
                let k = KeyV { kind, artefact_id: aid@, servant_id: sid@ };
                match r {
                    Ok(()) => !old(self)@.contains(k) && constructible(def@) && final(self)@
                        == old(self)@.push(k),
                    Err(e) => final(self)@ == old(self)@ && if old(self)@.contains(k) {
                        e@ == ErrorV::AlreadyRunning
                    } else {
                        e@ == ErrorV::Construction && !constructible(def@)
                    },
                }
            }),
    {
        let ghost k = KeyV { kind, artefact_id: aid@, servant_id: sid@ };
        if let Some(_) = self.find(kind, aid, sid) {
            return Err(Error::AlreadyRunning);
        }
        if def.payload.len() == 0 {
            return Err(Error::Construction);
        }
        let ghost before = self@;
        self.table.push(
            ServantEntry { kind, artefact_id: aid.clone(), servant_id: sid.clone() },
        );
        proof {
            assert(self@ =~= before.push(k));
            assert forall|a: int, b: int|
                0 <= a < b < self@.len() implies self@[a] != self@[b] by {
                if b == before.len() {
                    assert(self@[a] == before[a]);
                    assert(!before.contains(k));
                }
            }
        }
        Ok(())
    }

    /// Stops the servant with this identity: signals the unit to quiesce and
    /// removes it from the table.
    pub fn stop(&mut self, kind: ArtefactKind, aid: &String, sid: &String) -> (r: Result<
        (),
        Error,
    >)
        requires
            sup_wf(old(self)@),
        ensures
            sup_wf(final(self)@),
            ({
                let k = KeyV { kind, artefact_id: aid@, servant_id: sid@ };
                match r {
                    Ok(()) => old(self)@.contains(k) && final(self)@ == old(self)@.remove(
                        sup_idx(old(self)@, k),
                    ),
                    Err(e) => e@ == ErrorV::NotFound && !old(self)@.contains(k) && final(self)@
                        == old(self)@,
                }
            }),
    {
        let ghost k = KeyV { kind, artefact_id: aid@, servant_id: sid@ };
        match self.find(kind, aid, sid) {
            Some(i) => {
                proof {
                    assert(old(self)@.contains(k)) by {
                        assert(old(self)@[i as int] == k);
                    }
                    lemma_sup_idx_unique(self@, k, i as int);
                }
                let ghost before = self@;
                let _ = self.table.remove(i);
                proof {
                    assert(self@ =~= before.remove(i as int));
                    lemma_distinct_remove(before, i as int);
                }
                Ok(())
            },
            None => Err(Error::NotFound),
        }
    }

    /// The servant ids running under (kind, artefact id), in table order.
    pub fn list_for(&self, kind: ArtefactKind, aid: &String) -> (r: Vec<String>)
        ensures
            r.deep_view() == sids_for(self@, kind, aid@),
    {
        let mut out: Vec<String> = Vec::new();
        let mut i: usize = 0;
        proof {
            assert(self@.take(0) =~= Seq::<KeyV>::empty());
            assert(out.deep_view() =~= sids_for(self@.take(0), kind, aid@));
        }
        while i < self.table.len()
            invariant
                i <= self.table.len(),
                self@.len() == self.table.len(),
                out.deep_view() == sids_for(self@.take(i as int), kind, aid@),
            decreases self.table.len() - i,
        {
            let ghost pre = out.deep_view();
            let ghost t0 = self@.take(i as int);
            let ghost t1 = self@.take(i as int + 1);
            let e = &self.table[i];
            proof {
                assert(self@[i as int] == e@);
                assert(t1.drop_last() =~= t0);
                assert(t1.last() == self@[i as int]);
            }
            if e.kind == kind && e.artefact_id == *aid {
                out.push(e.servant_id.clone());
                proof {
                    assert(sids_for(t1, kind, aid@) == sids_for(t0, kind, aid@).push(
                        t1.last().servant_id,
                    ));
                    assert(out.deep_view() =~~= pre.push(t1.last().servant_id));
                }
            } else {
                proof {
                    assert(sids_for(t1, kind, aid@) == sids_for(t0, kind, aid@));
                }
            }
            i += 1;
        }
        proof {
            assert(self@.take(self@.len() as int) =~= self@);
        }
        out
    }

    /// Whether any servant is currently linked under the servant id `sid`.
    pub fn has_linked(&self, sid: &String) -> (r: bool)
        ensures
            r == (eps_linked(self@, sid@).len() != 0),
    {
        let mut i: usize = 0;
        while i < self.table.len()
            invariant
                i <= self.table.len(),
                self@.len() == self.table.len(),
                forall|j: int| 0 <= j < i ==> self@[j].servant_id != sid@,
            decreases self.table.len() - i,
        {
            let e = &self.table[i];
            proof {
                assert(self@[i as int] == e@);
            }
            if e.servant_id == *sid {
                proof {
                    lemma_sid_partition(self@, sid@);
                }
                return true;
            }
            i += 1;
        }
        proof {
            lemma_sid_partition(self@, sid@);
            if eps_linked(self@, sid@).len() != 0 {
                let j = choose|j: int|
                    0 <= j < self@.len() && self@[j].servant_id == sid@;
                assert(self@[j].servant_id != sid@);
            }
        }
        false
    }

    /// The servant id of the first servant in the table.
    pub fn first_servant_id(&self) -> (s: String)
        requires
            self@.len() > 0,
        ensures
            s@ == self@[0].servant_id,
    {
        proof {
            assert(self@[0] == self.table[0]@);
        }
        self.table[0].servant_id.clone()
    }

    /// Stops every servant whose servant id is `sid` and returns the
    /// endpoints they were running for, in table order. Servants already gone
    /// are simply absent from the result.
    pub fn stop_linked(&mut self, sid: &String) -> (r: Vec<Endpoint>)
        requires
            sup_wf(old(self)@),
        ensures
            sup_wf(final(self)@),
            final(self)@ == without_sid(old(self)@, sid@),
            r.deep_view() == eps_linked(old(self)@, sid@),
    {
        let mut kept: Vec<ServantEntry> = Vec::new();
        let mut removed: Vec<Endpoint> = Vec::new();
        let mut i: usize = 0;
        proof {
            assert(self@.take(0) =~= Seq::<KeyV>::empty());
            assert(kept.deep_view() =~= without_sid(self@.take(0), sid@));
            assert(removed.deep_view() =~= eps_linked(self@.take(0), sid@));
        }
        while i < self.table.len()
            invariant
                i <= self.table.len(),
                self@.len() == self.table.len(),
                kept.deep_view() == without_sid(self@.take(i as int), sid@),
                removed.deep_view() == eps_linked(self@.take(i as int), sid@),
            decreases self.table.len() - i,
        {
            let ghost pre_kept = kept.deep_view();
            let ghost pre_removed = removed.deep_view();
            let ghost t0 = self@.take(i as int);
            let ghost t1 = self@.take(i as int + 1);
            let e = &self.table[i];
            proof {
                assert(self@[i as int] == e@);
                assert(t1.drop_last() =~= t0);
                assert(t1.last() == self@[i as int]);
            }
            if e.servant_id == *sid {
                removed.push(Endpoint { kind: e.kind, id: e.artefact_id.clone() });
                proof {
                    assert(eps_linked(t1, sid@) == eps_linked(t0, sid@).push(
                        EndpointV { kind: t1.last().kind, id: t1.last().artefact_id },
                    ));
                    assert(without_sid(t1, sid@) == without_sid(t0, sid@));
                    assert(removed.deep_view() =~~= pre_removed.push(
                        EndpointV { kind: t1.last().kind, id: t1.last().artefact_id },
                    ));
                }
            } else {
                kept.push(e.clone());
                proof {
                    assert(without_sid(t1, sid@) == without_sid(t0, sid@).push(t1.last()));
                    assert(eps_linked(t1, sid@) == eps_linked(t0, sid@));
                    assert(kept.deep_view() =~~= pre_kept.push(t1.last()));
                }
            }
            i += 1;
        }
        let ghost before = self@;
        self.table = kept;
        proof {
            assert(before.take(before.len() as int) =~= before);
            lemma_without_sid_distinct(before, sid@);
        }
        removed
    }
}

/// Under `sup_wf`, an index holding `k` is the chosen one.
pub proof fn lemma_sup_idx_unique(s: Seq<KeyV>, k: KeyV, i: int)
    requires
        sup_wf(s),
        0 <= i < s.len(),
        s[i] == k,
    ensures
        sup_idx(s, k) == i,
        s.contains(k),
{
    assert(s.contains(k));
    let j = sup_idx(s, k);
    assert(0 <= j < s.len() && s[j] == k);
    if i < j {
        assert(s[i] != s[j]);
    } else if j < i {
        assert(s[j] != s[i]);
    }
}

/// Removing an element keeps the rest distinct.
pub proof fn lemma_distinct_remove<A>(s: Seq<A>, i: int)
    requires
        distinct_seq(s),
        0 <= i < s.len(),
    ensures
        distinct_seq(s.remove(i)),
{
    let t = s.remove(i);
    assert forall|a: int, b: int| 0 <= a < b < t.len() implies t[a] != t[b] by {
        let a0 = if a < i { a } else { a + 1 };
        let b0 = if b < i { b } else { b + 1 };
        assert(t[a] == s[a0]);
        assert(t[b] == s[b0]);
    }
}

} // verus!
