//! The artefact data model: kinds, endpoints, link descriptors and immutable
//! definitions, together with their mathematical views.

use vstd::prelude::*;

verus! {

/// The closed set of artefact kinds the orchestrator manages.
#[derive(Clone, Copy, PartialEq, Eq, Structural, Debug)]
pub enum ArtefactKind {
    Pipeline,
    Source,
    Sink,
    Binding,
}

/// One endpoint of a link descriptor: an artefact named by kind and id.
#[derive(Debug)]
pub struct Endpoint {
    pub kind: ArtefactKind,
    pub id: String,
}

/// Mathematical view of an [`Endpoint`].
#[verifier::ext_equal]
pub struct EndpointV {
    pub kind: ArtefactKind,
    pub id: Seq<char>,
}

impl View for Endpoint {
    type V = EndpointV;

    open spec fn view(&self) -> EndpointV {
        EndpointV { kind: self.kind, id: self.id@ }
    }
}

impl DeepView for Endpoint {
    type V = EndpointV;

    open spec fn deep_view(&self) -> EndpointV {
        self@
    }
}

impl Clone for Endpoint {
    fn clone(&self) -> (r: Self)
        ensures
            r == *self,
    {
        Endpoint { kind: self.kind, id: self.id.clone() }
    }
}

impl Endpoint {
    /// Equality of endpoints, decided field by field.
    pub fn same_as(&self, other: &Endpoint) -> (r: bool)
        ensures
            r == (self@ == other@),
    {
        self.kind == other.kind && self.id == other.id
    }
}

/// A directed edge inside a binding definition, from one servant slot to
/// another (for example Source to Pipeline, or Pipeline to Sink).
#[derive(Debug)]
pub struct LinkDescriptor {
    pub from: Endpoint,
    pub to: Endpoint,
}

/// Mathematical view of a [`LinkDescriptor`].
#[verifier::ext_equal]
pub struct LinkV {
    pub from: EndpointV,
    pub to: EndpointV,
}

impl View for LinkDescriptor {
    type V = LinkV;

    open spec fn view(&self) -> LinkV {
        LinkV { from: self.from@, to: self.to@ }
    }
}

impl DeepView for LinkDescriptor {
    type V = LinkV;

    open spec fn deep_view(&self) -> LinkV {
        self@
    }
}

impl Clone for LinkDescriptor {
    fn clone(&self) -> (r: Self)
        ensures
            r == *self,
    {
        LinkDescriptor { from: self.from.clone(), to: self.to.clone() }
    }
}

/// The immutable configuration payload of one artefact. The `payload` holds
/// the raw definition bytes (a dataflow graph for a pipeline, connector
/// parameters for a source or sink); `links` holds the link descriptors and
/// is meaningful only for bindings.
#[derive(Debug)]
pub struct ArtefactDefinition {
    pub payload: Vec<u8>,
    pub links: Vec<LinkDescriptor>,
}

/// Mathematical view of an [`ArtefactDefinition`].
#[verifier::ext_equal]
pub struct DefV {
    pub payload: Seq<u8>,
    pub links: Seq<LinkV>,
}

impl View for ArtefactDefinition {
    type V = DefV;

    open spec fn view(&self) -> DefV {
        DefV { payload: self.payload@, links: self.links.deep_view() }
    }
}

impl DeepView for ArtefactDefinition {
    type V = DefV;

    open spec fn deep_view(&self) -> DefV {
        self@
    }
}

impl Clone for ArtefactDefinition {
    fn clone(&self) -> (r: Self)
        ensures
            r@ == self@,
    {
        let payload = self.payload.clone();
        let links = self.links.clone();
        proof {
            assert(payload@ =~= self.payload@);
            assert forall|i: int| 0 <= i < links@.len() implies links@[i] == self.links@[i] by {
                assert(cloned(self.links[i], links[i]));
            }
            assert(links@ =~= self.links@);
        }
        ArtefactDefinition { payload, links }
    }
}

impl ArtefactDefinition {
    /// A definition that carries the given raw payload and no links.
    pub fn from_payload(payload: Vec<u8>) -> (r: ArtefactDefinition)
        ensures
            r@.payload == payload@,
            r@.links == Seq::<LinkV>::empty(),
    {
        let r = ArtefactDefinition { payload, links: Vec::new() };
        proof {
            assert(r@.links =~= Seq::<LinkV>::empty());
        }
        r
    }
}

/// Whether a definition can be compiled into a running unit. Construction of
/// a servant is fallible; a definition with an empty payload stands for one
/// that cannot be realized (a bad graph, a connector that cannot be opened).
pub open spec fn constructible(d: DefV) -> bool {
    d.payload.len() > 0
}

} // verus!
