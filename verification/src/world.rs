//! The orchestrator: the single owner of the registries and the servant
//! table. Every management operation is a transition on one state value, so
//! callers always observe a consistent snapshot; the bounded mailbox gives
//! request/response exchange with backpressure, and `stop` runs the shutdown
//! protocol.

use vstd::prelude::*;
use crate::artefact::{
    ArtefactKind, ArtefactDefinition, DefV, Endpoint, EndpointV, constructible,
};
use crate::errors::{Error, ErrorV};
use crate::registry::{Registry, RegistryEntry, RegEntryV, reg_has, reg_def, reg_wf};
use crate::resolver::{all_eps, dedup_eps, endpoints_of};
use crate::supervisor::{
    Supervisor, KeyV, sup_wf, sids_for, eps_linked, without_sid, distinct_seq,
    lemma_sid_partition,
};

verus! {

/// Mathematical view of the whole orchestrator state.
#[verifier::ext_equal]
pub struct WorldV {
    pub pipelines: Seq<RegEntryV>,
    pub sources: Seq<RegEntryV>,
    pub sinks: Seq<RegEntryV>,
    pub bindings: Seq<RegEntryV>,
    pub servants: Seq<KeyV>,
    pub queue: Seq<RequestV>,
    pub capacity: int,
    pub accepting: bool,
}

/// The registry holding artefacts of `kind`.
pub open spec fn reg_of(w: WorldV, kind: ArtefactKind) -> Seq<RegEntryV> {
    match kind {
        ArtefactKind::Pipeline => w.pipelines,
        ArtefactKind::Source => w.sources,
        ArtefactKind::Sink => w.sinks,
        ArtefactKind::Binding => w.bindings,
    }
}

/// `w` with the registry of `kind` replaced by `r`.
pub open spec fn with_reg(w: WorldV, kind: ArtefactKind, r: Seq<RegEntryV>) -> WorldV {
    match kind {
        ArtefactKind::Pipeline => WorldV { pipelines: r, ..w },
        ArtefactKind::Source => WorldV { sources: r, ..w },
        ArtefactKind::Sink => WorldV { sinks: r, ..w },
        ArtefactKind::Binding => WorldV { bindings: r, ..w },
    }
}

/// Consistency of the orchestrator state: unique ids per kind, unique
/// servant keys, a positive mailbox capacity that bounds the backlog.
pub open spec fn world_wf(w: WorldV) -> bool {
    &&& reg_wf(w.pipelines)
    &&& reg_wf(w.sources)
    &&& reg_wf(w.sinks)
    &&& reg_wf(w.bindings)
    &&& sup_wf(w.servants)
    &&& w.capacity >= 1
    &&& w.queue.len() <= w.capacity
}

/// The initial state: empty registries and servant table, an empty mailbox
/// of the given capacity, accepting requests.
pub open spec fn init_world(capacity: int) -> WorldV {
    WorldV {
        pipelines: Seq::empty(),
        sources: Seq::empty(),
        sinks: Seq::empty(),
        bindings: Seq::empty(),
        servants: Seq::empty(),
        queue: Seq::empty(),
        capacity: capacity,
        accepting: true,
    }
}

/// Publishing: a fresh id is appended to its kind's registry; a duplicate is
/// a conflict and changes nothing.
pub open spec fn publish_t(w: WorldV, kind: ArtefactKind, id: Seq<char>, d: DefV) -> (
    WorldV,
    Result<(), ErrorV>,
) {
    if reg_has(reg_of(w, kind), id) {
        (w, Err(ErrorV::Conflict))
    } else {
        (with_reg(w, kind, reg_of(w, kind).push(RegEntryV { id, def: d })), Ok(()))
    }
}

/// Reading: the stored definition, or `NotFound`.
pub open spec fn get_t(w: WorldV, kind: ArtefactKind, id: Seq<char>) -> Result<DefV, ErrorV> {
    if reg_has(reg_of(w, kind), id) {
        Ok(reg_def(reg_of(w, kind), id))
    } else {
        Err(ErrorV::NotFound)
    }
}

/// The servant ids that block unpublishing `id` of `kind`: for a binding its
/// own realization, for the other kinds the servants running under it.
pub open spec fn blockers(w: WorldV, kind: ArtefactKind, id: Seq<char>) -> Seq<Seq<char>> {
    if kind == ArtefactKind::Binding {
        if eps_linked(w.servants, id).len() != 0 {
            seq![id]
        } else {
            Seq::empty()
        }
    } else {
        sids_for(w.servants, kind, id)
    }
}

/// Unpublishing: absent ids are `NotFound`; an id with live servants is
/// `InUse` and nothing changes; otherwise the entry is removed and the
/// definition handed back.
pub open spec fn unpublish_t(w: WorldV, kind: ArtefactKind, id: Seq<char>) -> (
    WorldV,
    Result<DefV, ErrorV>,
) {
    if !reg_has(reg_of(w, kind), id) {
        (w, Err(ErrorV::NotFound))
    } else if blockers(w, kind, id).len() != 0 {
        (w, Err(ErrorV::InUse(blockers(w, kind, id))))
    } else {
        let r = reg_of(w, kind);
        (
            with_reg(w, kind, r.remove(crate::registry::reg_idx(r, id))),
            Ok(reg_def(r, id)),
        )
    }
}

/// An endpoint a binding may reference: not itself a binding, and published
/// in its kind's registry.
pub open spec fn ep_valid(w: WorldV, e: EndpointV) -> bool {
    e.kind != ArtefactKind::Binding && reg_has(reg_of(w, e.kind), e.id)
}

/// The definition an endpoint resolves to.
pub open spec fn ep_def(w: WorldV, e: EndpointV) -> DefV {
    reg_def(reg_of(w, e.kind), e.id)
}

/// The first endpoint, in first-mention order, that fails validation.
pub open spec fn first_invalid(w: WorldV, eps: Seq<EndpointV>) -> Option<EndpointV>
    decreases eps.len(),
{
    if eps.len() == 0 {
        None
    } else if !ep_valid(w, eps[0]) {
        Some(eps[0])
    } else {
        first_invalid(w, eps.drop_first())
    }
}

/// The endpoints the binding `b` would realize, each once, in first-mention
/// order.
pub open spec fn binding_eps(w: WorldV, b: Seq<char>) -> Seq<EndpointV> {
    dedup_eps(all_eps(reg_def(w.bindings, b).links))
}

/// The servant keys created for `eps` under servant id `sid`.
pub open spec fn keys_of(eps: Seq<EndpointV>, sid: Seq<char>) -> Seq<KeyV>
    decreases eps.len(),
{
    if eps.len() == 0 {
        Seq::empty()
    } else {
        keys_of(eps.drop_last(), sid).push(
            KeyV {
                kind: eps.last().kind,
                artefact_id: eps.last().id,
                servant_id: sid,
            },
        )
    }
}

/// Some endpoint's definition cannot be constructed.
pub open spec fn some_unbuildable(w: WorldV, eps: Seq<EndpointV>) -> bool {
    exists|j: int| 0 <= j < eps.len() && !constructible(ep_def(w, eps[j]))
}

/// Linking: all-or-nothing realization of a binding. Validation failures and
/// construction failures leave the state unchanged; success appends one
/// servant per distinct endpoint, all under the binding's id.
pub open spec fn link_t(w: WorldV, b: Seq<char>) -> (
    WorldV,
    Result<Seq<EndpointV>, ErrorV>,
) {
    if !reg_has(w.bindings, b) {
        (w, Err(ErrorV::NotFound))
    } else if eps_linked(w.servants, b).len() != 0 {
        (w, Err(ErrorV::Conflict))
    } else {
        let eps = binding_eps(w, b);
        match first_invalid(w, eps) {
            Some(e) => (w, Err(ErrorV::Validation(e))),
            None => if some_unbuildable(w, eps) {
                (w, Err(ErrorV::PartialFailure))
            } else {
                (WorldV { servants: w.servants + keys_of(eps, b), ..w }, Ok(eps))
            },
        }
    }
}

/// The outcome of an unlink that found its binding published.
#[derive(Debug)]
pub enum UnlinkOutcome {
    /// The realized endpoints that were stopped, in table order.
    Removed(Vec<Endpoint>),
    /// The binding was not linked; nothing had to be stopped.
    AlreadyAbsent,
}

/// Mathematical view of an [`UnlinkOutcome`].
#[verifier::ext_equal]
pub enum UnlinkV {
    Removed(Seq<EndpointV>),
    AlreadyAbsent,
}

impl View for UnlinkOutcome {
    type V = UnlinkV;

    open spec fn view(&self) -> UnlinkV {
        match self {
            UnlinkOutcome::Removed(eps) => UnlinkV::Removed(eps.deep_view()),
            UnlinkOutcome::AlreadyAbsent => UnlinkV::AlreadyAbsent,
        }
    }
}

/// Unlinking: stops every servant the binding realized; a published but
/// unlinked binding reports `AlreadyAbsent` rather than an error.
pub open spec fn unlink_t(w: WorldV, b: Seq<char>) -> (WorldV, Result<UnlinkV, ErrorV>) {
    if !reg_has(w.bindings, b) {
        (w, Err(ErrorV::NotFound))
    } else if eps_linked(w.servants, b).len() == 0 {
        (w, Ok(UnlinkV::AlreadyAbsent))
    } else {
        (
            WorldV { servants: without_sid(w.servants, b), ..w },
            Ok(UnlinkV::Removed(eps_linked(w.servants, b))),
        )
    }
}

/// Shutdown: every linked binding is unlinked, so no servant remains, and no
/// further request is accepted. Registries keep their contents.
pub open spec fn stop_t(w: WorldV) -> WorldV {
    WorldV { servants: Seq::empty(), accepting: false, ..w }
}

/// One management request, as submitted to the mailbox.
#[derive(Debug)]
pub enum Request {
    Publish(ArtefactKind, String, ArtefactDefinition),
    Unpublish(ArtefactKind, String),
    Get(ArtefactKind, String),
    List(ArtefactKind),
    Link(String),
    Unlink(String),
    Stop,
}

/// Mathematical view of a [`Request`].
#[verifier::ext_equal]
pub enum RequestV {
    Publish(ArtefactKind, Seq<char>, DefV),
    Unpublish(ArtefactKind, Seq<char>),
    Get(ArtefactKind, Seq<char>),
    List(ArtefactKind),
    Link(Seq<char>),
    Unlink(Seq<char>),
    Stop,
}

impl View for Request {
    type V = RequestV;

    open spec fn view(&self) -> RequestV {
        match self {
            Request::Publish(k, id, d) => RequestV::Publish(*k, id@, d@),
            Request::Unpublish(k, id) => RequestV::Unpublish(*k, id@),
            Request::Get(k, id) => RequestV::Get(*k, id@),
            Request::List(k) => RequestV::List(*k),
            Request::Link(b) => RequestV::Link(b@),
            Request::Unlink(b) => RequestV::Unlink(b@),
            Request::Stop => RequestV::Stop,
        }
    }
}

impl DeepView for Request {
    type V = RequestV;

    open spec fn deep_view(&self) -> RequestV {
        self@
    }
}

/// The reply to one management request.
#[derive(Debug)]
pub enum Response {
    Published,
    Unpublished(ArtefactDefinition),
    Definition(ArtefactDefinition),
    Listing(Vec<RegistryEntry>),
    Linked(Vec<Endpoint>),
    Unlinked(UnlinkOutcome),
    Stopped,
    Failed(Error),
}

/// Mathematical view of a [`Response`].
#[verifier::ext_equal]
pub enum RespV {
    Published,
    Unpublished(DefV),
    Definition(DefV),
    Listing(Seq<RegEntryV>),
    Linked(Seq<EndpointV>),
    Unlinked(UnlinkV),
    Stopped,
    Failed(ErrorV),
}

impl View for Response {
    type V = RespV;

    open spec fn view(&self) -> RespV {
        match self {
            Response::Published => RespV::Published,
            Response::Unpublished(d) => RespV::Unpublished(d@),
            Response::Definition(d) => RespV::Definition(d@),
            Response::Listing(l) => RespV::Listing(l.deep_view()),
            Response::Linked(eps) => RespV::Linked(eps.deep_view()),
            Response::Unlinked(u) => RespV::Unlinked(u@),
            Response::Stopped => RespV::Stopped,
            Response::Failed(e) => RespV::Failed(e@),
        }
    }
}

/// Dispatch: the state transition and reply for one request.
pub open spec fn handle_t(w: WorldV, req: RequestV) -> (WorldV, RespV) {
    match req {
        RequestV::Publish(k, id, d) => {
            let (w2, r) = publish_t(w, k, id, d);
            (
                w2,
                match r {
                    Ok(()) => RespV::Published,
                    Err(e) => RespV::Failed(e),
                },
            )
        },
        RequestV::Unpublish(k, id) => {
            let (w2, r) = unpublish_t(w, k, id);
            (
                w2,
                match r {
                    Ok(d) => RespV::Unpublished(d),
                    Err(e) => RespV::Failed(e),
                },
            )
        },
        RequestV::Get(k, id) => (
            w,
            match get_t(w, k, id) {
                Ok(d) => RespV::Definition(d),
                Err(e) => RespV::Failed(e),
            },
        ),
        RequestV::List(k) => (w, RespV::Listing(reg_of(w, k))),
        RequestV::Link(b) => {
            let (w2, r) = link_t(w, b);
            (
                w2,
                match r {
                    Ok(eps) => RespV::Linked(eps),
                    Err(e) => RespV::Failed(e),
                },
            )
        },
        RequestV::Unlink(b) => {
            let (w2, r) = unlink_t(w, b);
            (
                w2,
                match r {
                    Ok(u) => RespV::Unlinked(u),
                    Err(e) => RespV::Failed(e),
                },
            )
        },
        RequestV::Stop => (stop_t(w), RespV::Stopped),
    }
}

/// The result view of a link call.
pub open spec fn res_link_v(r: Result<Vec<Endpoint>, Error>) -> Result<Seq<EndpointV>, ErrorV> {
    match r {
        Ok(eps) => Ok(eps.deep_view()),
        Err(e) => Err(e@),
    }
}

/// The result view of an unlink call.
pub open spec fn res_unlink_v(r: Result<UnlinkOutcome, Error>) -> Result<UnlinkV, ErrorV> {
    match r {
        Ok(u) => Ok(u@),
        Err(e) => Err(e@),
    }
}

/// The result view of an unpublish call.
pub open spec fn res_def_v(r: Result<ArtefactDefinition, Error>) -> Result<DefV, ErrorV> {
    match r {
        Ok(d) => Ok(d@),
        Err(e) => Err(e@),
    }
}

/// The result view of a publish call.
pub open spec fn res_unit_v(r: Result<(), Error>) -> Result<(), ErrorV> {
    match r {
        Ok(()) => Ok(()),
        Err(e) => Err(e@),
    }
}

/// The keys created for `eps` under `sid`: one per endpoint, in order.
pub proof fn lemma_keys_of(eps: Seq<EndpointV>, sid: Seq<char>)
    ensures
        keys_of(eps, sid).len() == eps.len(),
        forall|i: int|
            0 <= i < eps.len() ==> #[trigger] keys_of(eps, sid)[i] == (KeyV {
                kind: eps[i].kind,
                artefact_id: eps[i].id,
                servant_id: sid,
            }),
    decreases eps.len(),
{
    if eps.len() > 0 {
        let bl = eps.drop_last();
        lemma_keys_of(bl, sid);
        assert(forall|i: int| 0 <= i < bl.len() ==> bl[i] == eps[i]);
    }
}

/// Appending keys under a foreign servant id and then stopping that id
/// restores the original table.
pub proof fn lemma_without_sid_concat(s1: Seq<KeyV>, s2: Seq<KeyV>, sid: Seq<char>)
    requires
        forall|i: int| 0 <= i < s1.len() ==> s1[i].servant_id != sid,
        forall|i: int| 0 <= i < s2.len() ==> s2[i].servant_id == sid,
    ensures
        without_sid(s1 + s2, sid) == s1,
    decreases s2.len(),
{
    if s2.len() == 0 {
        assert(s1 + s2 =~= s1);
        lemma_sid_partition(s1, sid);
        if eps_linked(s1, sid).len() != 0 {
            let j = choose|j: int| 0 <= j < s1.len() && s1[j].servant_id == sid;
            assert(s1[j].servant_id != sid);
        }
    } else {
        let bl = s2.drop_last();
        assert(forall|i: int| 0 <= i < bl.len() ==> bl[i] == s2[i]);
        assert((s1 + s2).drop_last() =~= s1 + bl);
        assert((s1 + s2).last() == s2.last());
        assert(s2[s2.len() - 1].servant_id == sid);
        lemma_without_sid_concat(s1, bl, sid);
    }
}

/// If all valid up to `i`, the first invalid endpoint of the whole list is
/// the first invalid one of the remainder.
pub proof fn lemma_first_invalid_skip(w: WorldV, eps: Seq<EndpointV>, i: int)
    requires
        0 <= i <= eps.len(),
        forall|j: int| 0 <= j < i ==> ep_valid(w, #[trigger] eps[j]),
    ensures
        first_invalid(w, eps) == first_invalid(w, eps.skip(i)),
    decreases i,
{
    if i == 0 {
        assert(eps.skip(0) =~= eps);
    } else {
        lemma_first_invalid_skip(w, eps, i - 1);
        let rest = eps.skip(i - 1);
        assert(rest.len() == eps.len() - i + 1);
        assert(rest[0] == eps[i - 1]);
        assert(ep_valid(w, eps[i - 1]));
        assert(first_invalid(w, rest) == first_invalid(w, rest.drop_first()));
        assert(rest.drop_first() =~= eps.skip(i));
    }
}

/// The orchestrator. Owns the four registries, the servant supervisor and
/// the bounded request mailbox; every operation is one serialized state
/// transition.
#[derive(Debug)]
pub struct World {
    pipelines: Registry,
    sources: Registry,
    sinks: Registry,
    bindings: Registry,
    supervisor: Supervisor,
    queue: Vec<Request>,
    capacity: usize,
    accepting: bool,
}

impl View for World {
    type V = WorldV;

    closed spec fn view(&self) -> WorldV {
        WorldV {
            pipelines: self.pipelines@,
            sources: self.sources@,
            sinks: self.sinks@,
            bindings: self.bindings@,
            servants: self.supervisor@,
            queue: self.queue.deep_view(),
            capacity: self.capacity as int,
            accepting: self.accepting,
        }
    }
}

impl World {
    /// A fresh orchestrator with the given mailbox capacity. The capacity is
    /// required configuration and must be positive.
    pub fn new(capacity: usize) -> (r: World)
        requires
            capacity >= 1,
        ensures
            r@ == init_world(capacity as int),
            world_wf(r@),
    {
        let r = World {
            pipelines: Registry::new(),
            sources: Registry::new(),
            sinks: Registry::new(),
            bindings: Registry::new(),
            supervisor: Supervisor::new(),
            queue: Vec::new(),
            capacity,
            accepting: true,
        };
        proof {
            assert(r@.queue =~= Seq::<RequestV>::empty());
            assert(r@ =~= init_world(capacity as int));
        }
        r
    }

    /// The registry holding artefacts of `kind`.
    fn registry_for(&self, kind: ArtefactKind) -> (r: &Registry)
        ensures
            r@ == reg_of(self@, kind),
    {
        match kind {
            ArtefactKind::Pipeline => &self.pipelines,
            ArtefactKind::Source => &self.sources,
            ArtefactKind::Sink => &self.sinks,
            ArtefactKind::Binding => &self.bindings,
        }
    }

    /// Registers `def` under `id` in the registry of `kind`.
    pub fn publish(&mut self, kind: ArtefactKind, id: String, def: ArtefactDefinition) -> (r:
        Result<(), Error>)
        requires
            world_wf(old(self)@),
        ensures
            world_wf(final(self)@),
            final(self)@ == publish_t(old(self)@, kind, id@, def@).0,
            res_unit_v(r) == publish_t(old(self)@, kind, id@, def@).1,
    {
        let ghost w0 = self@;
        let res = match kind {
            ArtefactKind::Pipeline => self.pipelines.publish(id, def),
            ArtefactKind::Source => self.sources.publish(id, def),
            ArtefactKind::Sink => self.sinks.publish(id, def),
            ArtefactKind::Binding => self.bindings.publish(id, def),
        };
        proof {
            if res is Ok {
                assert(self@ =~= publish_t(w0, kind, id@, def@).0);
            } else {
                assert(self@ =~= w0);
            }
        }
        res
    }

    /// The definition published under `id` in the registry of `kind`.
    pub fn get(&self, kind: ArtefactKind, id: &String) -> (r: Result<&ArtefactDefinition, Error>)
        requires
            world_wf(self@),
        ensures
            match r {
                Ok(d) => get_t(self@, kind, id@) == Ok::<DefV, ErrorV>(d@),
                Err(e) => get_t(self@, kind, id@) == Err::<DefV, ErrorV>(e@),
            },
    {
        match self.registry_for(kind).get(id) {
            Some(d) => Ok(d),
            None => Err(Error::NotFound),
        }
    }

    /// All artefacts published under `kind`, in insertion order.
    pub fn list(&self, kind: ArtefactKind) -> (r: &Vec<RegistryEntry>)
        ensures
            r.deep_view() == reg_of(self@, kind),
    {
        self.registry_for(kind).list()
    }

    /// How many servants are currently running.
    pub fn servant_count(&self) -> (r: usize)
        ensures
            r == self@.servants.len(),
    {
        self.supervisor.len()
    }

    /// Whether the binding `b` is currently linked.
    pub fn is_linked(&self, binding_id: &String) -> (r: bool)
        ensures
            r == (eps_linked(self@.servants, binding_id@).len() != 0),
    {
        self.supervisor.has_linked(binding_id)
    }

    /// Removes `id` from the registry of `kind` and returns its definition.
    /// Fails with `InUse` while servants still run under the artefact; no
    /// implicit teardown is performed.
    pub fn unpublish(&mut self, kind: ArtefactKind, id: &String) -> (r: Result<
        ArtefactDefinition,
        Error,
    >)
        requires
            world_wf(old(self)@),
        ensures
            world_wf(final(self)@),
            final(self)@ == unpublish_t(old(self)@, kind, id@).0,
            res_def_v(r) == unpublish_t(old(self)@, kind, id@).1,
    {
        let ghost w0 = self@;
        let present = self.registry_for(kind).get(id).is_some();
        if !present {
            return Err(Error::NotFound);
        }
        if kind == ArtefactKind::Binding {
            if self.supervisor.has_linked(id) {
                let mut sids: Vec<String> = Vec::new();
                sids.push(id.clone());
                proof {
                    assert(sids.deep_view() =~= blockers(w0, kind, id@));
                }
                return Err(Error::InUse(sids));
            }
        } else {
            let sids = self.supervisor.list_for(kind, id);
            if sids.len() != 0 {
                proof {
                    assert(sids.deep_view() == blockers(w0, kind, id@));
                }
                return Err(Error::InUse(sids));
            }
        }
        let res = match kind {
            ArtefactKind::Pipeline => self.pipelines.remove(id),
            ArtefactKind::Source => self.sources.remove(id),
            ArtefactKind::Sink => self.sinks.remove(id),
            ArtefactKind::Binding => self.bindings.remove(id),
        };
        match res {
            Ok(d) => {
                proof {
                    assert(self@ =~= unpublish_t(w0, kind, id@).0);
                }
                Ok(d)
            },
            Err(_) => {
                proof {
                    assert(false);
                }
                Err(Error::NotFound)
            },
        }
    }

    /// The definition an endpoint resolves to, when it is valid.
    fn def_for(&self, ep: &Endpoint) -> (r: Option<&ArtefactDefinition>)
        requires
            world_wf(self@),
        ensures
            match r {
                Some(d) => ep_valid(self@, ep@) && d@ == ep_def(self@, ep@),
                None => !ep_valid(self@, ep@),
            },
    {
        if let ArtefactKind::Binding = ep.kind {
            return None;
        }
        self.registry_for(ep.kind).get(&ep.id)
    }

    /// Realizes the binding `b`: validates every descriptor endpoint against
    /// the registries, then starts one servant per distinct endpoint, all
    /// under the binding's id. All-or-nothing: if one construction fails,
    /// every servant started during the attempt is stopped again and the
    /// call reports `PartialFailure`. A binding with no descriptors realizes
    /// nothing.
    #[verifier::loop_isolation(false)]
    pub fn link(&mut self, binding_id: &String) -> (r: Result<Vec<Endpoint>, Error>)
        requires
            world_wf(old(self)@),
        ensures
            world_wf(final(self)@),
            final(self)@ == link_t(old(self)@, binding_id@).0,
            res_link_v(r) == link_t(old(self)@, binding_id@).1,
    {
        let ghost w0 = self@;
        let links: Vec<crate::artefact::LinkDescriptor> = match self.bindings.get(binding_id) {
            Some(d) => {
                let c = d.links.clone();
                proof {
                    assert forall|i: int| 0 <= i < c@.len() implies c@[i] == d.links@[i] by {
                        assert(cloned(d.links[i], c[i]));
                    }
                    assert(c@ =~= d.links@);
                }
                c
            },
            None => {
                return Err(Error::NotFound);
            },
        };
        proof {
            assert(links.deep_view() == reg_def(w0.bindings, binding_id@).links);
        }
        if self.supervisor.has_linked(binding_id) {
            return Err(Error::Conflict);
        }
        let eps = endpoints_of(&links);
        let ghost epsv = eps.deep_view();
        proof {
            assert(epsv == binding_eps(w0, binding_id@));
        }
        // Validation: fail fast, before any servant is started.
        let mut i: usize = 0;
        while i < eps.len()
            invariant
                i <= eps.len(),
                epsv == eps.deep_view(),
                epsv.len() == eps.len(),
                self@ == w0,
                world_wf(self@),
                forall|j: int| 0 <= j < i ==> ep_valid(w0, #[trigger] epsv[j]),
            decreases eps.len() - i,
        {
            let e = &eps[i];
            proof {
                assert(epsv[i as int] == e@);
            }
            if self.def_for(e).is_none() {
                proof {
                    lemma_first_invalid_skip(w0, epsv, i as int);
                    let rest = epsv.skip(i as int);
                    assert(rest[0] == epsv[i as int]);
                    assert(first_invalid(w0, epsv) == Some(e@));
                }
                return Err(Error::Validation(e.clone()));
            }
            i += 1;
        }
        proof {
            lemma_first_invalid_skip(w0, epsv, epsv.len() as int);
            assert(epsv.skip(epsv.len() as int) =~= Seq::<EndpointV>::empty());
            assert(first_invalid(w0, epsv) is None);
            lemma_sid_partition(w0.servants, binding_id@);
            if eps_linked(w0.servants, binding_id@).len() != 0 {
                assert(false);
            }
            lemma_keys_of(epsv, binding_id@);
        }
        let ghost old_sup = self.supervisor@;
        // Realization: start one servant per endpoint; roll back on failure.
        let mut idx: usize = 0;
        proof {
            assert(epsv.take(0) =~= Seq::<EndpointV>::empty());
            assert(old_sup + keys_of(epsv.take(0), binding_id@) =~= old_sup);
        }
        while idx < eps.len()
            invariant
                idx <= eps.len(),
                epsv == eps.deep_view(),
                epsv.len() == eps.len(),
                distinct_seq(epsv),
                forall|j: int| 0 <= j < epsv.len() ==> ep_valid(w0, #[trigger] epsv[j]),
                forall|j: int| 0 <= j < idx ==> constructible(ep_def(w0, #[trigger] epsv[j])),
                forall|j: int|
                    0 <= j < old_sup.len() ==> #[trigger] old_sup[j].servant_id != binding_id@,
                self.supervisor@ == old_sup + keys_of(epsv.take(idx as int), binding_id@),
                sup_wf(self.supervisor@),
                self@.pipelines == w0.pipelines,
                self@.sources == w0.sources,
                self@.sinks == w0.sinks,
                self@.bindings == w0.bindings,
                self@.queue == w0.queue,
                self@.capacity == w0.capacity,
                self@.accepting == w0.accepting,
                world_wf(w0),
                old_sup == w0.servants,
            decreases eps.len() - idx,
        {
            let ghost sup0 = self.supervisor@;
            let ghost t0 = epsv.take(idx as int);
            let ghost t1 = epsv.take(idx as int + 1);
            let e = &eps[idx];
            proof {
                assert(epsv[idx as int] == e@);
                lemma_keys_of(t0, binding_id@);
                lemma_keys_of(t1, binding_id@);
            }
            let d: ArtefactDefinition = match self.def_for(e) {
                Some(dd) => dd.clone(),
                None => {
                    proof {
                        assert(false);
                    }
                    return Err(Error::NotFound);
                },
            };
            let ghost key = KeyV { kind: e.kind, artefact_id: e.id@, servant_id: binding_id@ };
            proof {
                assert(!self.supervisor@.contains(key)) by {
                    if self.supervisor@.contains(key) {
                        let j = choose|j: int|
                            0 <= j < sup0.len() && sup0[j] == key;
                        if j < old_sup.len() {
                            assert(old_sup[j].servant_id != binding_id@);
                        } else {
                            let jj = j - old_sup.len();
                            assert(keys_of(t0, binding_id@)[jj] == (KeyV {
                                kind: t0[jj].kind,
                                artefact_id: t0[jj].id,
                                servant_id: binding_id@,
                            }));
                            assert(t0[jj] == epsv[jj]);
                            assert(epsv[jj] =~= epsv[idx as int]);
                        }
                    }
                }
            }
            match self.supervisor.start(e.kind, &e.id, binding_id, &d) {
                Ok(()) => {
                    proof {
                        assert(t1.drop_last() =~= t0);
                        assert(t1.last() == epsv[idx as int]);
                        assert(keys_of(t1, binding_id@) == keys_of(t0, binding_id@).push(key));
                        assert(self.supervisor@ =~= old_sup + keys_of(t1, binding_id@));
                    }
                },
                Err(_) => {
                    proof {
                        assert(!constructible(ep_def(w0, epsv[idx as int])));
                        assert(some_unbuildable(w0, epsv));
                    }
                    let _ = self.supervisor.stop_linked(binding_id);
                    proof {
                        assert forall|j: int|
                            0 <= j < keys_of(t0, binding_id@).len() implies #[trigger] keys_of(
                            t0,
                            binding_id@,
                        )[j].servant_id == binding_id@ by {}
                        lemma_without_sid_concat(
                            old_sup,
                            keys_of(t0, binding_id@),
                            binding_id@,
                        );
                        assert(self.supervisor@ == old_sup);
                        assert(self@ =~= w0);
                    }
                    return Err(Error::PartialFailure);
                },
            }
            idx += 1;
        }
        proof {
            assert(epsv.take(epsv.len() as int) =~= epsv);
            assert(!some_unbuildable(w0, epsv));
            assert(self@ =~= link_t(w0, binding_id@).0);
        }
        Ok(eps)
    }

    /// Tears down the binding `b`: stops every servant it realized. An
    /// unlinked binding reports `AlreadyAbsent`; an unpublished one,
    /// `NotFound`.
    pub fn unlink(&mut self, binding_id: &String) -> (r: Result<UnlinkOutcome, Error>)
        requires
            world_wf(old(self)@),
        ensures
            world_wf(final(self)@),
            final(self)@ == unlink_t(old(self)@, binding_id@).0,
            res_unlink_v(r) == unlink_t(old(self)@, binding_id@).1,
    {
        let ghost w0 = self@;
        if self.bindings.get(binding_id).is_none() {
            return Err(Error::NotFound);
        }
        let eps = self.supervisor.stop_linked(binding_id);
        proof {
            lemma_sid_partition(w0.servants, binding_id@);
        }
        if eps.len() == 0 {
            proof {
                assert(without_sid(w0.servants, binding_id@) == w0.servants);
                assert(self@ =~= w0);
            }
            Ok(UnlinkOutcome::AlreadyAbsent)
        } else {
            proof {
                assert(self@ =~= unlink_t(w0, binding_id@).0);
            }
            Ok(UnlinkOutcome::Removed(eps))
        }
    }

    /// The shutdown protocol: stops accepting requests, unlinks every linked
    /// binding (stopping all servants exactly once), and leaves the
    /// registries intact. After `stop` returns, no servant remains.
    #[verifier::loop_isolation(false)]
    pub fn stop(&mut self) -> (r: ())
        requires
            world_wf(old(self)@),
        ensures
            world_wf(final(self)@),
            final(self)@ == stop_t(old(self)@),
    {
        let ghost w0 = self@;
        self.accepting = false;
        while self.supervisor.len() > 0
            invariant
                sup_wf(self.supervisor@),
                self@.pipelines == w0.pipelines,
                self@.sources == w0.sources,
                self@.sinks == w0.sinks,
                self@.bindings == w0.bindings,
                self@.queue == w0.queue,
                self@.capacity == w0.capacity,
                self@.accepting == false,
                world_wf(w0),
            decreases self.supervisor@.len(),
        {
            let ghost sup0 = self.supervisor@;
            let sid = self.supervisor.first_servant_id();
            let _ = self.supervisor.stop_linked(&sid);
            proof {
                lemma_sid_partition(sup0, sid@);
                assert(eps_linked(sup0, sid@).len() > 0) by {
                    assert(sup0[0].servant_id == sid@);
                }
            }
        }
        proof {
            assert(self.supervisor@ =~= Seq::<KeyV>::empty());
            assert(self@ =~= stop_t(w0));
        }
    }

    /// The outcome of submitting a request to the bounded mailbox.
    pub fn submit(&mut self, req: Request) -> (r: Submission)
        requires
            world_wf(old(self)@),
        ensures
            world_wf(final(self)@),
            match r {
                Submission::Enqueued => old(self)@.accepting && old(self)@.queue.len() < old(
                    self,
                )@.capacity && final(self)@ == (WorldV {
                    queue: old(self)@.queue.push(req@),
                    ..old(self)@
                }),
                Submission::Saturated(q) => old(self)@.accepting && old(self)@.queue.len()
                    >= old(self)@.capacity && q@ == req@ && final(self)@ == old(self)@,
                Submission::Closed(q) => !old(self)@.accepting && q@ == req@ && final(self)@
                    == old(self)@,
            },
    {
        if !self.accepting {
            return Submission::Closed(req);
        }
        if self.queue.len() >= self.capacity {
            return Submission::Saturated(req);
        }
        let ghost w0 = self@;
        let ghost rv = req@;
        self.queue.push(req);
        proof {
            assert(self@.queue =~= w0.queue.push(rv));
            assert(self@ =~= (WorldV { queue: w0.queue.push(rv), ..w0 }));
        }
        Submission::Enqueued
    }

    /// Applies one request to the state and produces the reply.
    pub fn handle(&mut self, req: Request) -> (resp: Response)
        requires
            world_wf(old(self)@),
        ensures
            world_wf(final(self)@),
            final(self)@ == handle_t(old(self)@, req@).0,
            resp@ == handle_t(old(self)@, req@).1,
    {
        match req {
            Request::Publish(kind, id, def) => match self.publish(kind, id, def) {
                Ok(()) => Response::Published,
                Err(e) => Response::Failed(e),
            },
            Request::Unpublish(kind, id) => match self.unpublish(kind, &id) {
                Ok(d) => Response::Unpublished(d),
                Err(e) => Response::Failed(e),
            },
            Request::Get(kind, id) => match self.get(kind, &id) {
                Ok(d) => Response::Definition(d.clone()),
                Err(e) => Response::Failed(e),
            },
            Request::List(kind) => {
                let l = self.registry_for(kind).list_cloned();
                Response::Listing(l)
            },
            Request::Link(b) => match self.link(&b) {
                Ok(eps) => Response::Linked(eps),
                Err(e) => Response::Failed(e),
            },
            Request::Unlink(b) => match self.unlink(&b) {
                Ok(u) => Response::Unlinked(u),
                Err(e) => Response::Failed(e),
            },
            Request::Stop => {
                self.stop();
                Response::Stopped
            },
        }
    }

    /// Takes the oldest pending request off the mailbox and processes it.
    /// Requests are processed in submission order.
    pub fn step(&mut self) -> (r: Option<Response>)
        requires
            world_wf(old(self)@),
        ensures
            world_wf(final(self)@),
            old(self)@.queue.len() == 0 ==> r is None && final(self)@ == old(self)@,
            old(self)@.queue.len() > 0 ==> ({
                let mid = WorldV { queue: old(self)@.queue.drop_first(), ..old(self)@ };
                let (w2, rv) = handle_t(mid, old(self)@.queue[0]);
                &&& final(self)@ == w2
                &&& r matches Some(resp) && resp@ == rv
            }),
    {
        let ghost w0 = self@;
        if self.queue.len() == 0 {
            return None;
        }
        let req = self.queue.remove(0);
        proof {
            assert(self@.queue =~= w0.queue.drop_first());
            assert(self@ =~= (WorldV { queue: w0.queue.drop_first(), ..w0 }));
            assert(req@ == w0.queue[0]);
        }
        Some(self.handle(req))
    }
}

/// The outcome of a mailbox submission: accepted, or held back. A held-back
/// request is handed back to the caller, never dropped; the caller suspends
/// and resubmits once an in-flight request completes.
#[derive(Debug)]
pub enum Submission {
    /// The request is pending in the mailbox.
    Enqueued,
    /// The backlog is at capacity; the caller must wait and resubmit.
    Saturated(Request),
    /// The orchestrator has stopped and accepts no further requests.
    Closed(Request),
}

} // verus!
