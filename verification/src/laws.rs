//! The laws of the orchestrator: properties that relate several operations,
//! stated over the ghost transitions and proved once for every state and
//! input.

use vstd::prelude::*;
use crate::artefact::{ArtefactKind, DefV, EndpointV};
use crate::errors::ErrorV;
use crate::registry::{reg_has, lemma_reg_push, lemma_reg_remove_gone};
use crate::supervisor::{eps_linked, lemma_sid_partition};
use crate::world::{
    WorldV, world_wf, reg_of, with_reg, publish_t, get_t, unpublish_t, blockers, link_t,
    unlink_t, UnlinkV, binding_eps, first_invalid, some_unbuildable,
};

verus! {

/// Replacing the registry of a kind and reading it back yields that
/// registry; the other registries and the rest of the state are untouched.
proof fn lemma_with_reg(w: WorldV, kind: ArtefactKind, r: Seq<crate::registry::RegEntryV>)
    ensures
        reg_of(with_reg(w, kind, r), kind) == r,
        with_reg(w, kind, r).servants == w.servants,
        with_reg(w, kind, r).bindings == if kind == ArtefactKind::Binding {
            r
        } else {
            w.bindings
        },
{
}

/// Publishing the same identifier twice under one kind, without an
/// intervening unpublish, yields `Conflict` on the second call, leaves the
/// state unchanged, and the stored definition remains the first one.
pub proof fn law_duplicate_publish_conflict(
    w: WorldV,
    kind: ArtefactKind,
    id: Seq<char>,
    d1: DefV,
    d2: DefV,
)
    requires
        world_wf(w),
        publish_t(w, kind, id, d1).1 is Ok,
    ensures
        ({
            let w1 = publish_t(w, kind, id, d1).0;
            &&& publish_t(w1, kind, id, d2) == (w1, Err::<(), ErrorV>(ErrorV::Conflict))
            &&& get_t(w1, kind, id) == Ok::<DefV, ErrorV>(d1)
        }),
{
    let r = reg_of(w, kind);
    lemma_reg_push(r, id, d1);
    let w1 = publish_t(w, kind, id, d1).0;
    lemma_with_reg(w, kind, r.push(crate::registry::RegEntryV { id, def: d1 }));
}

/// A definition can be read back exactly as published: publish then get
/// returns the definition unchanged.
pub proof fn law_publish_get_roundtrip(w: WorldV, kind: ArtefactKind, id: Seq<char>, d: DefV)
    requires
        world_wf(w),
        publish_t(w, kind, id, d).1 is Ok,
    ensures
        get_t(publish_t(w, kind, id, d).0, kind, id) == Ok::<DefV, ErrorV>(d),
{
    let r = reg_of(w, kind);
    lemma_reg_push(r, id, d);
    lemma_with_reg(w, kind, r.push(crate::registry::RegEntryV { id, def: d }));
}

/// Unpublishing an id with zero linked servants succeeds, and a subsequent
/// get for that id reports `NotFound`.
pub proof fn law_unpublish_then_get(w: WorldV, kind: ArtefactKind, id: Seq<char>)
    requires
        world_wf(w),
        unpublish_t(w, kind, id).1 is Ok,
    ensures
        get_t(unpublish_t(w, kind, id).0, kind, id) == Err::<DefV, ErrorV>(ErrorV::NotFound),
{
    let r = reg_of(w, kind);
    lemma_reg_remove_gone(r, id);
    lemma_with_reg(w, kind, r.remove(crate::registry::reg_idx(r, id)));
}

/// Unpublishing an id that still has linked servants fails with `InUse`,
/// carrying those servant ids, and neither the definition nor the servants
/// change.
pub proof fn law_unpublish_in_use(w: WorldV, kind: ArtefactKind, id: Seq<char>)
    requires
        world_wf(w),
        reg_has(reg_of(w, kind), id),
        blockers(w, kind, id).len() != 0,
    ensures
        unpublish_t(w, kind, id) == (
            w,
            Err::<DefV, ErrorV>(ErrorV::InUse(blockers(w, kind, id))),
        ),
{
}

/// Linking a binding whose descriptors reference an invalid endpoint fails
/// with `ValidationError` citing that endpoint, and no servant is created:
/// the state, servant table and all, is exactly the one before.
pub proof fn law_link_validation(w: WorldV, b: Seq<char>, e: EndpointV)
    requires
        world_wf(w),
        reg_has(w.bindings, b),
        eps_linked(w.servants, b).len() == 0,
        first_invalid(w, binding_eps(w, b)) == Some(e),
    ensures
        link_t(w, b) == (w, Err::<Seq<EndpointV>, ErrorV>(ErrorV::Validation(e))),
{
}

/// If some endpoint of a valid binding cannot be constructed, the link
/// reports `PartialFailure` and every servant started during the attempt is
/// rolled back: the state is exactly the one before.
pub proof fn law_link_partial_failure(w: WorldV, b: Seq<char>)
    requires
        world_wf(w),
        reg_has(w.bindings, b),
        eps_linked(w.servants, b).len() == 0,
        first_invalid(w, binding_eps(w, b)) is None,
        some_unbuildable(w, binding_eps(w, b)),
    ensures
        link_t(w, b) == (w, Err::<Seq<EndpointV>, ErrorV>(ErrorV::PartialFailure)),
{
}

/// Unlink is idempotent: after a successful unlink, unlinking the same
/// binding again reports the benign `AlreadyAbsent` signal and changes
/// nothing.
pub proof fn law_unlink_idempotent(w: WorldV, b: Seq<char>)
    requires
        world_wf(w),
        unlink_t(w, b).1 is Ok,
    ensures
        ({
            let w1 = unlink_t(w, b).0;
            unlink_t(w1, b) == (w1, Ok::<UnlinkV, ErrorV>(UnlinkV::AlreadyAbsent))
        }),
{
    let w1 = unlink_t(w, b).0;
    if eps_linked(w.servants, b).len() != 0 {
        lemma_sid_partition(w.servants, b);
        lemma_sid_partition(w1.servants, b);
        if eps_linked(w1.servants, b).len() != 0 {
            let i = choose|i: int|
                0 <= i < w1.servants.len() && w1.servants[i].servant_id == b;
            assert(w1.servants[i].servant_id != b);
        }
    }
}

} // verus!
