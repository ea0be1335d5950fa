use pinki::cli::ResolveArgs;
use pinki::verbs::{ellipsize, non_blank, pad_right, parse_until, resolution_from, width, Fail, Outcome};

fn resolve_args(satisfied: bool, cancelled: bool, released: bool) -> ResolveArgs {
    ResolveArgs {
        id: "pnk_4f3a91".into(),
        satisfied,
        cancelled,
        released,
        evidence: Vec::new(),
        reason: None,
        by: None,
        meta: None,
    }
}

#[test]
fn exit_codes_split_malformed_from_operational() {
    assert_eq!(Fail::Usage("x".into()).code(), 2);
    assert_eq!(Fail::Op("x".into()).code(), 1);
}

#[test]
fn until_is_normalized_to_seconds_and_utc() {
    assert_eq!(
        parse_until("2026-09-01T17:00Z").unwrap(),
        "2026-09-01T17:00:00Z"
    );
    assert_eq!(
        parse_until("2026-09-01T10:00:00-07:00").unwrap(),
        "2026-09-01T17:00:00Z"
    );
}

#[test]
fn naive_until_is_a_usage_error() {
    let err = parse_until("2026-09-01T17:00:00").unwrap_err();
    assert_eq!(err.code(), 2);
    let message = err.message();
    assert!(message.contains("offset"), "{message}");
    assert!(message.contains("2026-09-01T17:00Z"), "{message}");
}

#[test]
fn blank_values_are_refused() {
    assert_eq!(non_blank("   ", "--reason").unwrap_err().code(), 2);
    assert_eq!(non_blank(" kept ", "--reason").unwrap(), "kept");
}

#[test]
fn a_blank_value_says_what_was_empty() {
    assert_eq!(non_blank("\t", "--observer").unwrap_err().message(), "--observer is empty");
}

#[test]
fn satisfied_without_evidence_is_malformed() {
    let args = resolve_args(true, false, false);
    let err = resolution_from(&args).unwrap_err();
    assert_eq!(err.code(), 2);
    assert!(err.message().contains("--evidence"), "{}", err.message());
}

#[test]
fn blank_evidence_is_malformed() {
    let args = ResolveArgs {
        evidence: vec!["   ".into()],
        ..resolve_args(true, false, false)
    };
    assert_eq!(resolution_from(&args).unwrap_err().code(), 2);
}

#[test]
fn evidence_is_trimmed_and_kept_in_order() {
    let args = ResolveArgs {
        evidence: vec![" https://example.org/a ".into(), "sha:9c1f0e".into()],
        ..resolve_args(true, false, false)
    };
    match resolution_from(&args).unwrap() {
        Outcome::Satisfied(evidence) => {
            assert_eq!(evidence, vec!["https://example.org/a".to_string(), "sha:9c1f0e".to_string()])
        }
        other => panic!("expected Satisfied, got {other:?}"),
    }
}

#[test]
fn a_reason_is_not_evidence() {
    let args = ResolveArgs {
        evidence: vec!["https://example.org/a".into()],
        reason: Some("it is done".into()),
        ..resolve_args(true, false, false)
    };
    let err = resolution_from(&args).unwrap_err();
    assert_eq!(err.code(), 2);
    assert!(err.message().starts_with("--reason is not accepted with --satisfied"));
}

#[test]
fn cancelled_needs_a_reason_and_refuses_evidence() {
    let bare = resolve_args(false, true, false);
    assert_eq!(resolution_from(&bare).unwrap_err().code(), 2);

    let with_evidence = ResolveArgs {
        evidence: vec!["https://example.org/x".into()],
        reason: Some("upstream schema was withdrawn".into()),
        ..bare
    };
    assert_eq!(resolution_from(&with_evidence).unwrap_err().code(), 2);
}

#[test]
fn a_cancel_reason_is_trimmed() {
    let args = ResolveArgs {
        reason: Some("  upstream withdrew ".into()),
        ..resolve_args(false, true, false)
    };
    assert!(matches!(resolution_from(&args).unwrap(), Outcome::Cancelled(r) if r == "upstream withdrew"));
}

#[test]
fn released_takes_an_optional_reason() {
    let args = resolve_args(false, false, true);
    assert!(matches!(
        resolution_from(&args).unwrap(),
        Outcome::Released(None)
    ));
}

#[test]
fn released_refuses_evidence_and_a_blank_reason() {
    let with_evidence = ResolveArgs {
        evidence: vec!["https://example.org/x".into()],
        ..resolve_args(false, false, true)
    };
    assert!(resolution_from(&with_evidence)
        .unwrap_err()
        .message()
        .starts_with("--evidence is not accepted with --released"));
    let blank = ResolveArgs {
        reason: Some("  ".into()),
        ..resolve_args(false, false, true)
    };
    assert_eq!(resolution_from(&blank).unwrap_err().message(), "--reason is empty");
}

#[test]
fn ellipsize_counts_characters_and_stays_ascii() {
    assert_eq!(ellipsize("short", 10), "short");
    assert_eq!(ellipsize("abcdefghijkl", 8), "abcde...");
    assert_eq!(ellipsize("ααααααααα", 5), "αα...");
    assert_eq!(ellipsize("a\tb", 10), "a b");
}

#[test]
fn a_column_is_as_wide_as_its_widest_cell_in_characters() {
    assert_eq!(width(&vec![]), 0);
    assert_eq!(width(&vec!["ab".to_string(), "αααα".to_string(), "c".to_string()]), 4);
}

#[test]
fn cells_are_padded_on_the_right() {
    assert_eq!(pad_right("ab", 5), "ab   ");
    assert_eq!(pad_right("abcdef", 3), "abcdef");
    assert_eq!(pad_right("α", 2), "α ");
}
