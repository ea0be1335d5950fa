use pinki::event::{Event, EventBody, Resolution, VIOLATED};
use pinki::record::Promise;

fn record() -> Promise {
    Promise {
        id: "pnk_4f3a91".into(),
        promise: "hand back a schema with notes".into(),
        by: "https://example.org/agents/editor".into(),
        to: "https://example.org/agents/author".into(),
        on: Some("pnk_0c2b77".into()),
        until: "2026-09-01T17:00:00Z".into(),
        task: Some("a2a-task-9c1f0e".into()),
        meta: None,
    }
}

#[test]
fn an_amend_is_not_a_resolution() {
    let ev = Event::new(
        "2026-09-01T17:05:00Z".to_string(),
        EventBody::amend("pnk_4f3a91", "…/editor", "2026-09-01T17:15:00Z", None),
    );
    assert!(ev.resolution().is_none());
    assert_eq!(ev.subject(), "pnk_4f3a91");
}

#[test]
fn an_unknown_event_has_no_meta_and_will_not_be_given_one() {
    let ev = Event::new("2026-09-01T17:05:00Z".to_string(), EventBody::Unknown);
    assert!(ev.meta().is_none());
    let body = EventBody::Unknown.with_meta(Some(r#"{"by":"offboard"}"#.to_string()));
    assert!(matches!(body, EventBody::Unknown));
    assert!(Event::new("2026-09-01T17:05:00Z".to_string(), body)
        .meta()
        .is_none());
}

#[test]
fn with_meta_attaches_to_every_event_type() {
    let provenance = r#"{"attempt":2,"seat":"works"}"#.to_string();
    for body in [
        EventBody::promise(record()),
        EventBody::amend("pnk_4f3a91", "…/editor", "2026-09-02T00:00:00Z", None),
        EventBody::satisfied("pnk_4f3a91", "…/editor", vec!["sha:abc".into()]),
        EventBody::violated("pnk_4f3a91", "…/author", None),
    ] {
        let ev = Event::new(
            "2026-09-01T16:02:11Z".to_string(),
            body.with_meta(Some(provenance.clone())),
        );
        assert_eq!(ev.meta(), Some(&provenance));
        assert_eq!(ev.subject(), "pnk_4f3a91");
    }
}

#[test]
fn the_constructors_build_the_design_section_4_shapes() {
    match EventBody::cancelled("pnk_4f3a91", "…/editor", "upstream withdrew") {
        EventBody::Resolve {
            promise,
            resolution: Resolution::Cancelled { by, reason },
            meta,
        } => {
            assert_eq!(promise, "pnk_4f3a91");
            assert_eq!(by, "…/editor");
            assert_eq!(reason, "upstream withdrew");
            assert!(meta.is_none());
        }
        other => panic!("{other:?}"),
    }
    match EventBody::violated("pnk_88de10", "…/author", Some("nothing shipped".into())) {
        EventBody::Assess {
            state, observer, note, ..
        } => {
            assert_eq!(state, VIOLATED);
            assert_eq!(observer, "…/author");
            assert_eq!(note.as_deref(), Some("nothing shipped"));
        }
        other => panic!("{other:?}"),
    }
}

#[test]
fn a_resolution_names_its_outcome_and_its_issuer() {
    let released = Resolution::Released {
        by: "…/author".into(),
        reason: None,
    };
    assert_eq!(released.as_str(), "released");
    assert_eq!(released.by(), "…/author");
    let satisfied = Resolution::Satisfied {
        by: "…/editor".into(),
        evidence: vec!["https://example.org/x".into()],
    };
    assert_eq!(satisfied.as_str(), "satisfied");
    let ev = Event::new(
        "2026-09-01T16:02:11Z".to_string(),
        EventBody::satisfied("pnk_4f3a91", "…/editor", vec!["https://example.org/x".into()]),
    );
    assert_eq!(ev.resolution().unwrap().by(), "…/editor");
    assert_eq!(
        Event::new("t".to_string(), EventBody::promise(record())).subject(),
        "pnk_4f3a91"
    );
}
