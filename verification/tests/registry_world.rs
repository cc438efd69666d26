use orchestra::artefact::{ArtefactDefinition, ArtefactKind, Endpoint, LinkDescriptor};
use orchestra::errors::Error;
use orchestra::world::World;

fn def(bytes: &[u8]) -> ArtefactDefinition {
    ArtefactDefinition { payload: bytes.to_vec(), links: Vec::new() }
}

fn ep(kind: ArtefactKind, id: &str) -> Endpoint {
    Endpoint { kind, id: id.to_owned() }
}

fn binding_def(links: Vec<LinkDescriptor>) -> ArtefactDefinition {
    ArtefactDefinition { payload: b"binding".to_vec(), links }
}

#[test]
fn duplicate_publish_is_conflict_and_keeps_first_definition() {
    let mut w = World::new(8);
    assert!(w.publish(ArtefactKind::Pipeline, "p1".to_owned(), def(b"first")).is_ok());
    let second = w.publish(ArtefactKind::Pipeline, "p1".to_owned(), def(b"second"));
    assert!(matches!(second, Err(Error::Conflict)));
    let stored = w.get(ArtefactKind::Pipeline, &"p1".to_owned()).unwrap();
    assert_eq!(stored.payload, b"first".to_vec());
}

#[test]
fn duplicate_publish_under_each_kind_is_conflict() {
    let kinds = [
        ArtefactKind::Pipeline,
        ArtefactKind::Source,
        ArtefactKind::Sink,
        ArtefactKind::Binding,
    ];
    for kind in kinds {
        let mut w = World::new(8);
        assert!(w.publish(kind, "a".to_owned(), def(b"one")).is_ok());
        assert!(matches!(w.publish(kind, "a".to_owned(), def(b"two")), Err(Error::Conflict)));
        assert_eq!(w.get(kind, &"a".to_owned()).unwrap().payload, b"one".to_vec());
    }
}

#[test]
fn unpublish_with_zero_servants_succeeds_and_get_reports_not_found() {
    let mut w = World::new(8);
    w.publish(ArtefactKind::Source, "s1".to_owned(), def(b"src")).unwrap();
    let removed = w.unpublish(ArtefactKind::Source, &"s1".to_owned()).unwrap();
    assert_eq!(removed.payload, b"src".to_vec());
    assert!(matches!(w.get(ArtefactKind::Source, &"s1".to_owned()), Err(Error::NotFound)));
}

#[test]
fn unpublish_unknown_id_is_not_found() {
    let mut w = World::new(8);
    assert!(matches!(w.unpublish(ArtefactKind::Sink, &"nope".to_owned()), Err(Error::NotFound)));
}

#[test]
fn unpublish_with_linked_servant_is_in_use_and_changes_nothing() {
    let mut w = World::new(8);
    w.publish(ArtefactKind::Source, "s1".to_owned(), def(b"src")).unwrap();
    w.publish(ArtefactKind::Pipeline, "p1".to_owned(), def(b"pipe")).unwrap();
    w.publish(
        ArtefactKind::Binding,
        "b1".to_owned(),
        binding_def(vec![LinkDescriptor {
            from: ep(ArtefactKind::Source, "s1"),
            to: ep(ArtefactKind::Pipeline, "p1"),
        }]),
    )
    .unwrap();
    w.link(&"b1".to_owned()).unwrap();
    let before = w.servant_count();

    let r = w.unpublish(ArtefactKind::Pipeline, &"p1".to_owned());
    match r {
        Err(Error::InUse(sids)) => assert_eq!(sids, vec!["b1".to_owned()]),
        other => panic!("expected InUse, got {:?}", other),
    }
    assert_eq!(w.servant_count(), before);
    assert_eq!(w.get(ArtefactKind::Pipeline, &"p1".to_owned()).unwrap().payload, b"pipe".to_vec());

    let r = w.unpublish(ArtefactKind::Binding, &"b1".to_owned());
    match r {
        Err(Error::InUse(sids)) => assert_eq!(sids, vec!["b1".to_owned()]),
        other => panic!("expected InUse, got {:?}", other),
    }
}

#[test]
fn publish_get_round_trip_is_byte_for_byte() {
    let mut w = World::new(8);
    let payload: Vec<u8> = (0u8..=255u8).collect();
    let links = vec![LinkDescriptor {
        from: ep(ArtefactKind::Source, "in"),
        to: ep(ArtefactKind::Sink, "out"),
    }];
    w.publish(
        ArtefactKind::Binding,
        "b".to_owned(),
        ArtefactDefinition { payload: payload.clone(), links },
    )
    .unwrap();
    let got = w.get(ArtefactKind::Binding, &"b".to_owned()).unwrap();
    assert_eq!(got.payload, payload);
    assert_eq!(got.links.len(), 1);
    assert_eq!(got.links[0].from.kind, ArtefactKind::Source);
    assert_eq!(got.links[0].from.id, "in");
    assert_eq!(got.links[0].to.kind, ArtefactKind::Sink);
    assert_eq!(got.links[0].to.id, "out");
}

#[test]
fn get_unknown_id_is_not_found() {
    let w = World::new(8);
    assert!(matches!(w.get(ArtefactKind::Pipeline, &"ghost".to_owned()), Err(Error::NotFound)));
}

#[test]
fn list_keeps_insertion_order() {
    let mut w = World::new(8);
    w.publish(ArtefactKind::Sink, "z".to_owned(), def(b"1")).unwrap();
    w.publish(ArtefactKind::Sink, "a".to_owned(), def(b"2")).unwrap();
    w.publish(ArtefactKind::Sink, "m".to_owned(), def(b"3")).unwrap();
    let ids: Vec<String> = w.list(ArtefactKind::Sink).iter().map(|e| e.id.clone()).collect();
    assert_eq!(ids, vec!["z".to_owned(), "a".to_owned(), "m".to_owned()]);
}

#[test]
fn ids_are_scoped_per_kind() {
    let mut w = World::new(8);
    assert!(w.publish(ArtefactKind::Source, "same".to_owned(), def(b"a")).is_ok());
    assert!(w.publish(ArtefactKind::Sink, "same".to_owned(), def(b"b")).is_ok());
    assert_eq!(w.get(ArtefactKind::Source, &"same".to_owned()).unwrap().payload, b"a".to_vec());
    assert_eq!(w.get(ArtefactKind::Sink, &"same".to_owned()).unwrap().payload, b"b".to_vec());
}
