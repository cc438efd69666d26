//! The artefact registry: a per-kind mapping from identifier to immutable
//! definition, kept in insertion order with unique identifiers.

use vstd::prelude::*;
use crate::artefact::{ArtefactDefinition, DefV};
use crate::errors::{Error, ErrorV};

verus! {

/// One registered artefact: its identifier and its definition.
#[derive(Debug)]
pub struct RegistryEntry {
    pub id: String,
    pub def: ArtefactDefinition,
}

/// Mathematical view of a [`RegistryEntry`].
#[verifier::ext_equal]
pub struct RegEntryV {
    pub id: Seq<char>,
    pub def: DefV,
}

impl View for RegistryEntry {
    type V = RegEntryV;

    open spec fn view(&self) -> RegEntryV {
        RegEntryV { id: self.id@, def: self.def@ }
    }
}

impl DeepView for RegistryEntry {
    type V = RegEntryV;

    open spec fn deep_view(&self) -> RegEntryV {
        self@
    }
}

impl Clone for RegistryEntry {
    fn clone(&self) -> (r: Self)
        ensures
            r@ == self@,
    {
        RegistryEntry { id: self.id.clone(), def: self.def.clone() }
    }
}

/// Some entry of `r` carries the identifier `id`.
pub open spec fn reg_has(r: Seq<RegEntryV>, id: Seq<char>) -> bool {
    exists|i: int| 0 <= i < r.len() && r[i].id == id
}

/// The index of the entry carrying `id` (unique when `reg_wf` holds).
pub open spec fn reg_idx(r: Seq<RegEntryV>, id: Seq<char>) -> int {
    choose|i: int| 0 <= i < r.len() && r[i].id == id
}

/// The definition stored under `id`.
pub open spec fn reg_def(r: Seq<RegEntryV>, id: Seq<char>) -> DefV {
    r[reg_idx(r, id)].def
}

/// Identifiers are unique within the registry.
pub open spec fn reg_wf(r: Seq<RegEntryV>) -> bool {
    forall|i: int, j: int| 0 <= i < j < r.len() ==> r[i].id != r[j].id
}

/// Per-kind storage of published artefacts, in insertion order.
#[derive(Debug)]
pub struct Registry {
    entries: Vec<RegistryEntry>,
}

impl View for Registry {
    type V = Seq<RegEntryV>;

    closed spec fn view(&self) -> Seq<RegEntryV> {
        self.entries.deep_view()
    }
}

impl Registry {
    /// An empty registry.
    pub fn new() -> (r: Registry)
        ensures
            r@ == Seq::<RegEntryV>::empty(),
            reg_wf(r@),
    {
        let r = Registry { entries: Vec::new() };
        proof {
            assert(r@ =~= Seq::<RegEntryV>::empty());
        }
        r
    }

    /// The index of the entry registered under `id`, if any.
    fn find(&self, id: &String) -> (r: Option<usize>)
        ensures
            match r {
                Some(i) => i < self@.len() && self@[i as int].id == id@,
                None => !reg_has(self@, id@),
            },
    {
        let mut i: usize = 0;
        while i < self.entries.len()
            invariant
                i <= self.entries.len(),
                self@.len() == self.entries.len(),
                forall|j: int| 0 <= j < i ==> self@[j].id != id@,
            decreases self.entries.len() - i,
        {
            if self.entries[i].id == *id {
                return Some(i);
            }
            i += 1;
        }
        None
    }

    /// Registers `def` under `id`. A duplicate identifier is a conflict, not
    /// an overwrite: the stored definition stays the first one.
    pub fn publish(&mut self, id: String, def: ArtefactDefinition) -> (r: Result<(), Error>)
        requires
            reg_wf(old(self)@),
        ensures
            reg_wf(final(self)@),
            match r {
                Ok(()) => !reg_has(old(self)@, id@) && final(self)@ == old(self)@.push(
                    RegEntryV { id: id@, def: def@ },
                ),
                Err(e) => e@ == ErrorV::Conflict && reg_has(old(self)@, id@) && final(self)@
                    == old(self)@,
            },
    {
        match self.find(&id) {
            Some(_) => Err(Error::Conflict),
            None => {
                let ghost before = self@;
                let ghost idv = id@;
                let ghost defv = def@;
                self.entries.push(RegistryEntry { id, def });
                proof {
                    assert(self@ =~= before.push(RegEntryV { id: idv, def: defv }));
                    assert forall|a: int, b: int|
                        0 <= a < b < self@.len() implies self@[a].id != self@[b].id by {
                        if b == before.len() {
                            assert(self@[a] == before[a]);
                            assert(before[a].id != idv);
                        }
                    }
                }
                Ok(())
            },
        }
    }

    /// The definition registered under `id`, if any.
    pub fn get(&self, id: &String) -> (r: Option<&ArtefactDefinition>)
        requires
            reg_wf(self@),
        ensures
            match r {
                Some(d) => reg_has(self@, id@) && d@ == reg_def(self@, id@),
                None => !reg_has(self@, id@),
            },
    {
        match self.find(id) {
            Some(i) => {
                proof {
                    lemma_reg_idx_unique(self@, id@, i as int);
                }
                Some(&self.entries[i].def)
            },
            None => None,
        }
    }

    /// Removes and returns the definition registered under `id`. The other
    /// entries keep their insertion order.
    pub fn remove(&mut self, id: &String) -> (r: Result<ArtefactDefinition, Error>)
        requires
            reg_wf(old(self)@),
        ensures
            reg_wf(final(self)@),
            match r {
                Ok(d) => reg_has(old(self)@, id@) && d@ == reg_def(old(self)@, id@)
                    && final(self)@ == old(self)@.remove(reg_idx(old(self)@, id@)),
                Err(e) => e@ == ErrorV::NotFound && !reg_has(old(self)@, id@) && final(self)@
                    == old(self)@,
            },
    {
        match self.find(id) {
            Some(i) => {
                proof {
                    lemma_reg_idx_unique(self@, id@, i as int);
                }
                let ghost before = self@;
                let entry = self.entries.remove(i);
                proof {
                    assert(self@ =~= before.remove(i as int));
                    lemma_reg_wf_remove(before, i as int);
                }
                Ok(entry.def)
            },
            None => Err(Error::NotFound),
        }
    }

    /// All entries, in insertion order.
    pub fn list(&self) -> (r: &Vec<RegistryEntry>)
        ensures
            r.deep_view() == self@,
    {
        &self.entries
    }

    /// A copy of all entries, in insertion order.
    pub fn list_cloned(&self) -> (r: Vec<RegistryEntry>)
        ensures
            r.deep_view() == self@,
    {
        let mut out: Vec<RegistryEntry> = Vec::new();
        let mut i: usize = 0;
        proof {
            assert(out.deep_view() =~= self@.take(0));
        }
        while i < self.entries.len()
            invariant
                i <= self.entries.len(),
                self@.len() == self.entries.len(),
                out.deep_view() == self@.take(i as int),
            decreases self.entries.len() - i,
        {
            let ghost pre = out.deep_view();
            out.push(self.entries[i].clone());
            proof {
                assert(self@[i as int] == self.entries[i as int]@);
                assert(self@.take(i as int + 1).drop_last() =~= self@.take(i as int));
                assert(out.deep_view() =~~= pre.push(self@[i as int]));
                assert(out.deep_view() =~~= self@.take(i as int + 1));
            }
            i += 1;
        }
        proof {
            assert(self@.take(self@.len() as int) =~= self@);
        }
        out
    }

    /// How many artefacts are registered.
    pub fn len(&self) -> (r: usize)
        ensures
            r == self@.len(),
    {
        self.entries.len()
    }
}

/// Under `reg_wf`, an index whose entry carries `id` is the chosen one.
pub proof fn lemma_reg_idx_unique(r: Seq<RegEntryV>, id: Seq<char>, i: int)
    requires
        reg_wf(r),
        0 <= i < r.len(),
        r[i].id == id,
    ensures
        reg_idx(r, id) == i,
        reg_has(r, id),
{
    assert(reg_has(r, id));
    let j = reg_idx(r, id);
    assert(0 <= j < r.len() && r[j].id == id);
    if i < j {
        assert(r[i].id != r[j].id);
    } else if j < i {
        assert(r[j].id != r[i].id);
    }
}

/// Publishing a fresh identifier: the entry is found afterwards, carries the
/// published definition, and uniqueness is preserved.
pub proof fn lemma_reg_push(r: Seq<RegEntryV>, id: Seq<char>, d: DefV)
    requires
        reg_wf(r),
        !reg_has(r, id),
    ensures
        reg_wf(r.push(RegEntryV { id, def: d })),
        reg_has(r.push(RegEntryV { id, def: d }), id),
        reg_def(r.push(RegEntryV { id, def: d }), id) == d,
{
    let r2 = r.push(RegEntryV { id, def: d });
    assert(r2[r.len() as int] == (RegEntryV { id, def: d }));
    assert forall|a: int, b: int| 0 <= a < b < r2.len() implies r2[a].id != r2[b].id by {
        if b == r.len() {
            assert(r2[a] == r[a]);
        }
    }
    lemma_reg_idx_unique(r2, id, r.len() as int);
}

/// After removing an identifier, no entry carries it any more.
pub proof fn lemma_reg_remove_gone(r: Seq<RegEntryV>, id: Seq<char>)
    requires
        reg_wf(r),
        reg_has(r, id),
    ensures
        reg_wf(r.remove(reg_idx(r, id))),
        !reg_has(r.remove(reg_idx(r, id)), id),
{
    let i = reg_idx(r, id);
    assert(0 <= i < r.len() && r[i].id == id);
    lemma_reg_wf_remove(r, i);
    let t = r.remove(i);
    if reg_has(t, id) {
        let j = choose|j: int| 0 <= j < t.len() && t[j].id == id;
        let j0 = if j < i {
            j
        } else {
            j + 1
        };
        assert(t[j] == r[j0]);
        if j0 < i {
            assert(r[j0].id != r[i].id);
        } else {
            assert(r[i].id != r[j0].id);
        }
    }
}

/// Removing an entry keeps the remaining identifiers unique.
pub proof fn lemma_reg_wf_remove(r: Seq<RegEntryV>, i: int)
    requires
        reg_wf(r),
        0 <= i < r.len(),
    ensures
        reg_wf(r.remove(i)),
{
    let s = r.remove(i);
    assert forall|a: int, b: int| 0 <= a < b < s.len() implies s[a].id != s[b].id by {
        let a0 = if a < i { a } else { a + 1 };
        let b0 = if b < i { b } else { b + 1 };
        assert(s[a] == r[a0]);
        assert(s[b] == r[b0]);
    }
}

} // verus!
