use orchestra::artefact::{ArtefactDefinition, ArtefactKind, Endpoint, LinkDescriptor};
use orchestra::errors::Error;
use orchestra::supervisor::Supervisor;
use orchestra::world::{UnlinkOutcome, World};

fn def(bytes: &[u8]) -> ArtefactDefinition {
    ArtefactDefinition { payload: bytes.to_vec(), links: Vec::new() }
}

fn ep(kind: ArtefactKind, id: &str) -> Endpoint {
    Endpoint { kind, id: id.to_owned() }
}

fn chain(from: Endpoint, to: Endpoint) -> LinkDescriptor {
    LinkDescriptor { from, to }
}

/// A world with s1 -> p1 -> o1 published and the binding b1 over them.
fn world_with_binding() -> World {
    let mut w = World::new(8);
    w.publish(ArtefactKind::Source, "s1".to_owned(), def(b"src")).unwrap();
    w.publish(ArtefactKind::Pipeline, "p1".to_owned(), def(b"pipe")).unwrap();
    w.publish(ArtefactKind::Sink, "o1".to_owned(), def(b"sink")).unwrap();
    w.publish(
        ArtefactKind::Binding,
        "b1".to_owned(),
        ArtefactDefinition {
            payload: b"bind".to_vec(),
            links: vec![
                chain(ep(ArtefactKind::Source, "s1"), ep(ArtefactKind::Pipeline, "p1")),
                chain(ep(ArtefactKind::Pipeline, "p1"), ep(ArtefactKind::Sink, "o1")),
            ],
        },
    )
    .unwrap();
    w
}

#[test]
fn link_creates_one_servant_per_distinct_endpoint() {
    let mut w = world_with_binding();
    let eps = w.link(&"b1".to_owned()).unwrap();
    // p1 appears in two descriptors but is realized once.
    assert_eq!(eps.len(), 3);
    assert_eq!(eps[0].id, "s1");
    assert_eq!(eps[1].id, "p1");
    assert_eq!(eps[2].id, "o1");
    assert_eq!(w.servant_count(), 3);
    assert!(w.is_linked(&"b1".to_owned()));
}

#[test]
fn link_unknown_binding_is_not_found() {
    let mut w = World::new(8);
    assert!(matches!(w.link(&"b1".to_owned()), Err(Error::NotFound)));
}

#[test]
fn link_twice_is_conflict() {
    let mut w = world_with_binding();
    w.link(&"b1".to_owned()).unwrap();
    assert!(matches!(w.link(&"b1".to_owned()), Err(Error::Conflict)));
    assert_eq!(w.servant_count(), 3);
}

#[test]
fn link_with_unpublished_endpoint_is_validation_error_and_no_servant_appears() {
    let mut w = World::new(8);
    w.publish(ArtefactKind::Source, "s1".to_owned(), def(b"src")).unwrap();
    w.publish(ArtefactKind::Sink, "o1".to_owned(), def(b"sink")).unwrap();
    // p1 is never published.
    w.publish(
        ArtefactKind::Binding,
        "b1".to_owned(),
        ArtefactDefinition {
            payload: b"bind".to_vec(),
            links: vec![
                chain(ep(ArtefactKind::Source, "s1"), ep(ArtefactKind::Pipeline, "p1")),
                chain(ep(ArtefactKind::Pipeline, "p1"), ep(ArtefactKind::Sink, "o1")),
            ],
        },
    )
    .unwrap();
    assert_eq!(w.servant_count(), 0);
    match w.link(&"b1".to_owned()) {
        Err(Error::Validation(e)) => {
            assert_eq!(e.kind, ArtefactKind::Pipeline);
            assert_eq!(e.id, "p1");
        }
        other => panic!("expected Validation, got {:?}", other),
    }
    assert_eq!(w.servant_count(), 0);
}

#[test]
fn link_referencing_a_binding_endpoint_is_validation_error() {
    let mut w = World::new(8);
    w.publish(ArtefactKind::Source, "s1".to_owned(), def(b"src")).unwrap();
    w.publish(ArtefactKind::Binding, "inner".to_owned(), def(b"x")).unwrap();
    w.publish(
        ArtefactKind::Binding,
        "outer".to_owned(),
        ArtefactDefinition {
            payload: b"bind".to_vec(),
            links: vec![chain(
                ep(ArtefactKind::Source, "s1"),
                ep(ArtefactKind::Binding, "inner"),
            )],
        },
    )
    .unwrap();
    match w.link(&"outer".to_owned()) {
        Err(Error::Validation(e)) => assert_eq!(e.id, "inner"),
        other => panic!("expected Validation, got {:?}", other),
    }
}

#[test]
fn construction_failure_rolls_back_every_servant_of_the_attempt() {
    let mut w = World::new(8);
    w.publish(ArtefactKind::Source, "s1".to_owned(), def(b"src")).unwrap();
    w.publish(ArtefactKind::Pipeline, "p1".to_owned(), def(b"pipe")).unwrap();
    // An empty payload cannot be constructed into a running unit.
    w.publish(ArtefactKind::Sink, "o1".to_owned(), def(b"")).unwrap();
    w.publish(
        ArtefactKind::Binding,
        "b1".to_owned(),
        ArtefactDefinition {
            payload: b"bind".to_vec(),
            links: vec![
                chain(ep(ArtefactKind::Source, "s1"), ep(ArtefactKind::Pipeline, "p1")),
                chain(ep(ArtefactKind::Pipeline, "p1"), ep(ArtefactKind::Sink, "o1")),
            ],
        },
    )
    .unwrap();
    // s1 and p1 start first and must be rolled back when o1 fails.
    match w.link(&"b1".to_owned()) {
        Err(Error::PartialFailure) => {}
        other => panic!("expected PartialFailure, got {:?}", other),
    }
    assert_eq!(w.servant_count(), 0);
    assert!(!w.is_linked(&"b1".to_owned()));
}

#[test]
fn unlink_stops_the_realized_servants() {
    let mut w = world_with_binding();
    w.link(&"b1".to_owned()).unwrap();
    match w.unlink(&"b1".to_owned()) {
        Ok(UnlinkOutcome::Removed(eps)) => assert_eq!(eps.len(), 3),
        other => panic!("expected Removed, got {:?}", other),
    }
    assert_eq!(w.servant_count(), 0);
}

#[test]
fn unlink_already_unlinked_binding_is_benign() {
    let mut w = world_with_binding();
    w.link(&"b1".to_owned()).unwrap();
    w.unlink(&"b1".to_owned()).unwrap();
    match w.unlink(&"b1".to_owned()) {
        Ok(UnlinkOutcome::AlreadyAbsent) => {}
        other => panic!("expected AlreadyAbsent, got {:?}", other),
    }
    // A binding that was never linked reports the same benign signal.
    let mut fresh = world_with_binding();
    match fresh.unlink(&"b1".to_owned()) {
        Ok(UnlinkOutcome::AlreadyAbsent) => {}
        other => panic!("expected AlreadyAbsent, got {:?}", other),
    }
}

#[test]
fn binding_with_no_descriptors_realizes_nothing() {
    let mut w = World::new(8);
    w.publish(ArtefactKind::Binding, "empty".to_owned(), def(b"bind")).unwrap();
    let eps = w.link(&"empty".to_owned()).unwrap();
    assert!(eps.is_empty());
    assert_eq!(w.servant_count(), 0);
    match w.unlink(&"empty".to_owned()) {
        Ok(UnlinkOutcome::AlreadyAbsent) => {}
        other => panic!("expected AlreadyAbsent, got {:?}", other),
    }
}

#[test]
fn stop_on_an_idle_world_is_harmless() {
    let mut w = World::new(8);
    w.publish(ArtefactKind::Pipeline, "p1".to_owned(), def(b"pipe")).unwrap();
    w.stop();
    assert_eq!(w.servant_count(), 0);
    assert!(w.get(ArtefactKind::Pipeline, &"p1".to_owned()).is_ok());
}

#[test]
fn unlink_unknown_binding_is_not_found() {
    let mut w = World::new(8);
    assert!(matches!(w.unlink(&"nope".to_owned()), Err(Error::NotFound)));
}

#[test]
fn supervisor_rejects_duplicate_identity_and_unbuildable_definition() {
    let mut s = Supervisor::new();
    let aid = "p1".to_owned();
    let sid = "b1".to_owned();
    assert!(s.start(ArtefactKind::Pipeline, &aid, &sid, &def(b"pipe")).is_ok());
    assert!(matches!(
        s.start(ArtefactKind::Pipeline, &aid, &sid, &def(b"pipe")),
        Err(Error::AlreadyRunning)
    ));
    assert!(matches!(
        s.start(ArtefactKind::Sink, &"o1".to_owned(), &sid, &def(b"")),
        Err(Error::Construction)
    ));
    assert_eq!(s.len(), 1);
    assert_eq!(s.list_for(ArtefactKind::Pipeline, &aid), vec!["b1".to_owned()]);
    assert!(s.stop(ArtefactKind::Pipeline, &aid, &sid).is_ok());
    assert!(matches!(
        s.stop(ArtefactKind::Pipeline, &aid, &sid),
        Err(Error::NotFound)
    ));
    assert_eq!(s.len(), 0);
}
