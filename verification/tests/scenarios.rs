use orchestra::artefact::{ArtefactDefinition, ArtefactKind, Endpoint, LinkDescriptor};
use orchestra::errors::Error;
use orchestra::loader::{load_all, source_kind, ConfigItem, ConfigSource, SourceKind};
use orchestra::server::{ServerCommand, ServerRun};
use orchestra::world::{Request, Response, Submission, World};

fn def(bytes: &[u8]) -> ArtefactDefinition {
    ArtefactDefinition::from_payload(bytes.to_vec())
}

fn ep(kind: ArtefactKind, id: &str) -> Endpoint {
    Endpoint { kind, id: id.to_owned() }
}

fn publish_item(kind: ArtefactKind, id: &str, d: ArtefactDefinition) -> ConfigItem {
    ConfigItem::Publish { kind, id: id.to_owned(), def: d }
}

fn binding_b1() -> ArtefactDefinition {
    ArtefactDefinition {
        payload: b"bind".to_vec(),
        links: vec![
            LinkDescriptor {
                from: ep(ArtefactKind::Source, "s1"),
                to: ep(ArtefactKind::Pipeline, "p1"),
            },
            LinkDescriptor {
                from: ep(ArtefactKind::Pipeline, "p1"),
                to: ep(ArtefactKind::Sink, "o1"),
            },
        ],
    }
}

fn trickle_file() -> ConfigSource {
    ConfigSource {
        path: "flows/main.trickle".to_owned(),
        items: vec![publish_item(ArtefactKind::Pipeline, "p1", def(b"pipe"))],
    }
}

fn yaml_file() -> ConfigSource {
    ConfigSource {
        path: "deploy/site.yaml".to_owned(),
        items: vec![
            publish_item(ArtefactKind::Source, "s1", def(b"src")),
            publish_item(ArtefactKind::Sink, "o1", def(b"sink")),
            publish_item(ArtefactKind::Binding, "b1", binding_b1()),
            ConfigItem::Link { binding_id: "b1".to_owned() },
        ],
    }
}

#[test]
fn source_kind_recognizes_the_dialects() {
    assert_eq!(source_kind("flows/main.trickle"), SourceKind::Trickle);
    assert_eq!(source_kind("script.tremor"), SourceKind::Tremor);
    assert_eq!(source_kind("data.json"), SourceKind::Json);
    assert_eq!(source_kind("deploy.yaml"), SourceKind::Yaml);
    assert_eq!(source_kind("deploy.yml"), SourceKind::Yaml);
    assert_eq!(source_kind("notes.txt"), SourceKind::Unsupported);
    assert_eq!(source_kind("trickle"), SourceKind::Unsupported);
}

#[test]
fn startup_loads_dataflow_then_configuration_and_realizes_the_binding() {
    let cmd = ServerCommand::Run(ServerRun {
        mailbox_capacity: 16,
        sources: vec![trickle_file(), yaml_file()],
    });
    let world = cmd.run().expect("startup must succeed");
    assert_eq!(world.servant_count(), 3);
    assert!(world.is_linked(&"b1".to_owned()));
    assert!(world.get(ArtefactKind::Pipeline, &"p1".to_owned()).is_ok());
}

#[test]
fn startup_defers_configuration_files_regardless_of_position() {
    // The loader partitions by dialect, so the configuration file may come
    // first in the list: its binding still resolves p1.
    let run = ServerRun { mailbox_capacity: 16, sources: vec![yaml_file(), trickle_file()] };
    let world = run.run().expect("startup must succeed");
    assert_eq!(world.servant_count(), 3);
}

#[test]
fn loading_the_binding_file_without_the_dataflow_file_fails_citing_it() {
    // Applied on its own, before any dataflow description, the configuration
    // file must fail: its link finds p1 missing.
    let mut world = World::new(16);
    match load_all(&mut world, &vec![yaml_file()]) {
        Err(Error::FileLoad(path)) => assert_eq!(path, "deploy/site.yaml"),
        other => panic!("expected FileLoad, got {:?}", other),
    }
    // The validation failure underneath names p1 as the missing endpoint.
    let mut world = World::new(16);
    world.publish(ArtefactKind::Source, "s1".to_owned(), def(b"src")).unwrap();
    world.publish(ArtefactKind::Sink, "o1".to_owned(), def(b"sink")).unwrap();
    world.publish(ArtefactKind::Binding, "b1".to_owned(), binding_b1()).unwrap();
    match world.link(&"b1".to_owned()) {
        Err(Error::Validation(e)) => {
            assert_eq!(e.kind, ArtefactKind::Pipeline);
            assert_eq!(e.id, "p1");
        }
        other => panic!("expected Validation, got {:?}", other),
    }
}

#[test]
fn startup_rejects_a_file_of_a_foreign_dialect() {
    let mut world = World::new(16);
    let bad = ConfigSource { path: "conf.json".to_owned(), items: vec![] };
    match load_all(&mut world, &vec![trickle_file(), bad]) {
        Err(Error::UnsupportedFileType(path, kind)) => {
            assert_eq!(path, "conf.json");
            assert_eq!(kind, SourceKind::Json);
        }
        other => panic!("expected UnsupportedFileType, got {:?}", other),
    }
}

#[test]
fn startup_rejects_a_trickle_file_that_does_not_define_pipelines() {
    let mut world = World::new(16);
    let bad = ConfigSource {
        path: "odd.trickle".to_owned(),
        items: vec![publish_item(ArtefactKind::Source, "s9", def(b"x"))],
    };
    match load_all(&mut world, &vec![bad]) {
        Err(Error::FileLoad(path)) => assert_eq!(path, "odd.trickle"),
        other => panic!("expected FileLoad, got {:?}", other),
    }
}

#[test]
fn shutdown_unlinks_every_binding_and_leaves_no_servant() {
    let mut world = World::new(16);
    world.publish(ArtefactKind::Source, "s1".to_owned(), def(b"src")).unwrap();
    world.publish(ArtefactKind::Pipeline, "p1".to_owned(), def(b"pipe")).unwrap();
    world.publish(ArtefactKind::Sink, "o1".to_owned(), def(b"sink")).unwrap();
    world.publish(ArtefactKind::Binding, "b1".to_owned(), binding_b1()).unwrap();
    let second = ArtefactDefinition {
        payload: b"bind2".to_vec(),
        links: vec![LinkDescriptor {
            from: ep(ArtefactKind::Source, "s1"),
            to: ep(ArtefactKind::Sink, "o1"),
        }],
    };
    world.publish(ArtefactKind::Binding, "b2".to_owned(), second).unwrap();
    world.link(&"b1".to_owned()).unwrap();
    world.link(&"b2".to_owned()).unwrap();
    assert!(world.servant_count() > 0);

    world.stop();
    assert_eq!(world.servant_count(), 0);
    assert!(!world.is_linked(&"b1".to_owned()));
    assert!(!world.is_linked(&"b2".to_owned()));
    // The registries survive shutdown; only the running state is gone.
    assert!(world.get(ArtefactKind::Binding, &"b1".to_owned()).is_ok());
    // After stop, no further request is accepted.
    match world.submit(Request::List(ArtefactKind::Pipeline)) {
        Submission::Closed(_) => {}
        other => panic!("expected Closed, got {:?}", other),
    }
}

#[test]
fn mailbox_backpressure_holds_the_request_instead_of_dropping_it() {
    let mut world = World::new(2);
    assert!(matches!(
        world.submit(Request::Publish(ArtefactKind::Pipeline, "p1".to_owned(), def(b"pipe"))),
        Submission::Enqueued
    ));
    assert!(matches!(
        world.submit(Request::Get(ArtefactKind::Pipeline, "p1".to_owned())),
        Submission::Enqueued
    ));
    // The mailbox is at capacity: the caller is held back, the request is
    // handed back untouched rather than failed or dropped.
    let held = match world.submit(Request::List(ArtefactKind::Pipeline)) {
        Submission::Saturated(req) => req,
        other => panic!("expected Saturated, got {:?}", other),
    };
    // One in-flight request completes...
    match world.step() {
        Some(Response::Published) => {}
        other => panic!("expected Published, got {:?}", other),
    }
    // ...and the resubmission goes through.
    assert!(matches!(world.submit(held), Submission::Enqueued));
    match world.step() {
        Some(Response::Definition(d)) => assert_eq!(d.payload, b"pipe".to_vec()),
        other => panic!("expected Definition, got {:?}", other),
    }
    match world.step() {
        Some(Response::Listing(entries)) => assert_eq!(entries.len(), 1),
        other => panic!("expected Listing, got {:?}", other),
    }
    assert!(world.step().is_none());
}

#[test]
fn requests_are_processed_in_submission_order() {
    let mut world = World::new(8);
    world.submit(Request::Publish(ArtefactKind::Sink, "o1".to_owned(), def(b"a")));
    world.submit(Request::Publish(ArtefactKind::Sink, "o1".to_owned(), def(b"b")));
    assert!(matches!(world.step(), Some(Response::Published)));
    match world.step() {
        Some(Response::Failed(Error::Conflict)) => {}
        other => panic!("expected Conflict, got {:?}", other),
    }
    assert_eq!(world.get(ArtefactKind::Sink, &"o1".to_owned()).unwrap().payload, b"a".to_vec());
}

#[test]
fn stop_request_through_the_mailbox_runs_the_shutdown() {
    let mut world = World::new(8);
    world.publish(ArtefactKind::Source, "s1".to_owned(), def(b"src")).unwrap();
    world.publish(ArtefactKind::Pipeline, "p1".to_owned(), def(b"pipe")).unwrap();
    world.publish(ArtefactKind::Sink, "o1".to_owned(), def(b"sink")).unwrap();
    world.publish(ArtefactKind::Binding, "b1".to_owned(), binding_b1()).unwrap();
    world.link(&"b1".to_owned()).unwrap();
    world.submit(Request::Stop);
    assert!(matches!(world.step(), Some(Response::Stopped)));
    assert_eq!(world.servant_count(), 0);
}

#[test]
fn startup_requires_a_positive_mailbox_capacity() {
    let run = ServerRun { mailbox_capacity: 1, sources: vec![] };
    assert!(run.run().is_ok());
}

#[test]
fn startup_failure_reports_the_offending_trickle_file() {
    let duplicate = ConfigSource {
        path: "again.trickle".to_owned(),
        items: vec![publish_item(ArtefactKind::Pipeline, "p1", def(b"other"))],
    };
    let run = ServerRun {
        mailbox_capacity: 4,
        sources: vec![trickle_file(), duplicate],
    };
    match run.run() {
        Err(Error::FileLoad(path)) => assert_eq!(path, "again.trickle"),
        other => panic!("expected FileLoad, got {:?}", other),
    }
}
