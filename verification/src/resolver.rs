//! Binding resolution helpers: the endpoints a binding definition names, in
//! first-mention order and without duplicates.

use vstd::prelude::*;
use crate::artefact::{Endpoint, EndpointV, LinkDescriptor, LinkV};
use crate::supervisor::distinct_seq;

verus! {

/// Every endpoint a list of link descriptors mentions, in order, with the
/// `from` slot of each descriptor before its `to` slot.
pub open spec fn all_eps(links: Seq<LinkV>) -> Seq<EndpointV>
    decreases links.len(),
{
    if links.len() == 0 {
        Seq::empty()
    } else {
        all_eps(links.drop_last()) + seq![links.last().from, links.last().to]
    }
}

/// The same endpoints with later duplicates dropped: each endpoint appears
/// once, at its first mention.
pub open spec fn dedup_eps(eps: Seq<EndpointV>) -> Seq<EndpointV>
    decreases eps.len(),
{
    if eps.len() == 0 {
        Seq::empty()
    } else {
        let rest = dedup_eps(eps.drop_last());
        if rest.contains(eps.last()) {
            rest
        } else {
            rest.push(eps.last())
        }
    }
}

/// Deduplication keeps exactly the endpoints mentioned, each once.
pub proof fn lemma_dedup_eps(eps: Seq<EndpointV>)
    ensures
        distinct_seq(dedup_eps(eps)),
        forall|x: EndpointV| #![auto] dedup_eps(eps).contains(x) == eps.contains(x),
    decreases eps.len(),
{
    if eps.len() > 0 {
        let bl = eps.drop_last();
        lemma_dedup_eps(bl);
        let rest = dedup_eps(bl);
        let x = eps.last();
        assert(forall|i: int| 0 <= i < bl.len() ==> bl[i] == eps[i]);
        assert forall|y: EndpointV| #![auto] dedup_eps(eps).contains(y) == eps.contains(y) by {
            if dedup_eps(eps).contains(y) {
                if rest.contains(y) {
                    assert(bl.contains(y));
                    let j = choose|j: int| 0 <= j < bl.len() && bl[j] == y;
                    assert(eps[j] == y);
                } else {
                    let j = choose|j: int|
                        0 <= j < dedup_eps(eps).len() && dedup_eps(eps)[j] == y;
                    if j < rest.len() {
                        assert(rest[j] == y);
                    } else {
                        assert(y == x);
                        assert(eps[eps.len() - 1] == y);
                    }
                }
            }
            if eps.contains(y) {
                let j = choose|j: int| 0 <= j < eps.len() && eps[j] == y;
                if j < bl.len() {
                    assert(bl[j] == y);
                    assert(bl.contains(y));
                    assert(rest.contains(y));
                    if !rest.contains(x) {
                        let i = choose|i: int| 0 <= i < rest.len() && rest[i] == y;
                        assert(rest.push(x)[i] == y);
                    }
                } else {
                    assert(y == x);
                    if rest.contains(x) {
                        assert(dedup_eps(eps).contains(y));
                    } else {
                        assert(rest.push(x)[rest.len() as int] == x);
                    }
                }
            }
        }
        if !rest.contains(x) {
            assert forall|a: int, b: int|
                0 <= a < b < dedup_eps(eps).len() implies dedup_eps(eps)[a] != dedup_eps(
                eps,
            )[b] by {
                if b == dedup_eps(eps).len() - 1 {
                    assert(dedup_eps(eps)[b] == x);
                    assert(rest.contains(rest[a]));
                    assert(dedup_eps(eps)[a] == rest[a]);
                }
            }
        }
    }
}

/// Whether `v` already holds the endpoint `ep`.
fn contains_ep(v: &Vec<Endpoint>, ep: &Endpoint) -> (r: bool)
    ensures
        r == v.deep_view().contains(ep@),
{
    let mut i: usize = 0;
    while i < v.len()
        invariant
            i <= v.len(),
            v.deep_view().len() == v.len(),
            forall|j: int| 0 <= j < i ==> v.deep_view()[j] != ep@,
        decreases v.len() - i,
    {
        proof {
            assert(v.deep_view()[i as int] == v[i as int]@);
        }
        if v[i].same_as(ep) {
            return true;
        }
        i += 1;
    }
    proof {
        if v.deep_view().contains(ep@) {
            let j = choose|j: int|
                0 <= j < v.deep_view().len() && v.deep_view()[j] == ep@;
            assert(v.deep_view()[j] != ep@);
        }
    }
    false
}

/// The endpoints a binding's descriptors name, each once, in first-mention
/// order.
pub fn endpoints_of(links: &Vec<LinkDescriptor>) -> (r: Vec<Endpoint>)
    ensures
        r.deep_view() == dedup_eps(all_eps(links.deep_view())),
        distinct_seq(r.deep_view()),
{
    let ghost lv = links.deep_view();
    let mut all: Vec<Endpoint> = Vec::new();
    let mut i: usize = 0;
    proof {
        assert(lv.take(0) =~= Seq::<LinkV>::empty());
        assert(all.deep_view() =~= all_eps(lv.take(0)));
    }
    while i < links.len()
        invariant
            i <= links.len(),
            lv == links.deep_view(),
            lv.len() == links.len(),
            all.deep_view() == all_eps(lv.take(i as int)),
        decreases links.len() - i,
    {
        let ghost pre = all.deep_view();
        let ghost t0 = lv.take(i as int);
        let ghost t1 = lv.take(i as int + 1);
        let l = &links[i];
        proof {
            assert(lv[i as int] == l@);
            assert(t1.drop_last() =~= t0);
            assert(t1.last() == lv[i as int]);
        }
        all.push(l.from.clone());
        all.push(l.to.clone());
        proof {
            assert(all_eps(t1) == all_eps(t0) + seq![t1.last().from, t1.last().to]);
            assert(all.deep_view() =~~= pre + seq![l.from@, l.to@]);
        }
        i += 1;
    }
    proof {
        assert(lv.take(lv.len() as int) =~= lv);
    }
    let ghost av = all.deep_view();
    let mut out: Vec<Endpoint> = Vec::new();
    let mut j: usize = 0;
    proof {
        assert(av.take(0) =~= Seq::<EndpointV>::empty());
        assert(out.deep_view() =~= dedup_eps(av.take(0)));
    }
    while j < all.len()
        invariant
            j <= all.len(),
            av == all.deep_view(),
            av.len() == all.len(),
            out.deep_view() == dedup_eps(av.take(j as int)),
        decreases all.len() - j,
    {
        let ghost pre = out.deep_view();
        let ghost t0 = av.take(j as int);
        let ghost t1 = av.take(j as int + 1);
        let e = &all[j];
        proof {
            assert(av[j as int] == e@);
            assert(t1.drop_last() =~= t0);
            assert(t1.last() == av[j as int]);
        }
        if !contains_ep(&out, e) {
            out.push(e.clone());
            proof {
                assert(dedup_eps(t1) == dedup_eps(t0).push(t1.last()));
                assert(out.deep_view() =~~= pre.push(e@));
            }
        } else {
            proof {
                assert(dedup_eps(t1) == dedup_eps(t0));
            }
        }
        j += 1;
    }
    proof {
        assert(av.take(av.len() as int) =~= av);
        lemma_dedup_eps(av);
    }
    out
}

} // verus!
