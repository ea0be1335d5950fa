use pinki::id::{
    candidate, check_supplied, id_set, is_well_formed, mint, mint_with, SuppliedIdError,
    MAX_ATTEMPTS, MAX_SUPPLIED_LEN, PREFIX,
};

#[test]
fn minted_ids_are_well_formed() {
    let empty = id_set(&[]);
    for _ in 0..200 {
        let id = mint(&empty).unwrap();
        assert_eq!(id.len(), PREFIX.len() + 6, "{id}");
        assert!(is_well_formed(&id), "{id}");
    }
}

#[test]
fn minting_avoids_ids_already_taken() {
    let mut taken = id_set(&[]);
    for _ in 0..50 {
        let id = mint(&taken).unwrap();
        assert!(taken.insert(id.clone()), "minted a duplicate: {id}");
    }
    assert_eq!(taken.len(), 50);
}

#[test]
fn minting_retries_past_a_collision() {
    let taken = id_set(&[format!("{PREFIX}aaaaaa")]);
    let id = mint_with(&taken, |attempt| {
        if attempt < 3 {
            format!("{PREFIX}aaaaaa")
        } else {
            format!("{PREFIX}bbbbbb")
        }
    })
    .unwrap();
    assert_eq!(id, format!("{PREFIX}bbbbbb"));
}

#[test]
fn minting_gives_up_loudly_when_every_attempt_collides() {
    let taken = id_set(&[format!("{PREFIX}aaaaaa")]);
    let err = mint_with(&taken, |_| format!("{PREFIX}aaaaaa")).unwrap_err();
    assert_eq!(err.attempts, MAX_ATTEMPTS);
    let msg = err.message();
    assert!(msg.contains("64 attempts"), "{msg}");
    assert!(msg.contains("1 ids already in the ledger"), "{msg}");
}

#[test]
fn rejects_malformed_ids() {
    assert!(
        !is_well_formed("pnk_4F3A91"),
        "uppercase hex is not our form"
    );
    assert!(!is_well_formed("pnk_4f3a9"), "five digits");
    assert!(!is_well_formed("pnk_4f3a911"), "seven digits");
    assert!(!is_well_formed("4f3a91"), "no prefix");
    assert!(!is_well_formed("pnk_zzzzzz"), "not hex");
    assert!(is_well_formed("pnk_4f3a91"));
    assert!(is_well_formed("pnk_000000"));
}

#[test]
fn a_supplied_id_may_be_any_shape_a_handle_can_have() {
    for id in [
        "pr-20260906203134-225e24cd",
        "PR-20260906203134-225E24CD",
        "3f2504e0-4f89-11d3-9a0c-0305e82c3301",
        "JIRA-1234",
        "https://example.org/obligations/91",
        "urn:example:promise:91",
        "約束-91",
        "a",
    ] {
        assert_eq!(check_supplied(id), Ok(()), "{id}");
    }
}

#[test]
fn a_blank_supplied_id_is_refused() {
    assert_eq!(check_supplied(""), Err(SuppliedIdError::Blank));
    let message = SuppliedIdError::Blank.message();
    assert!(message.contains("§1"), "{message}");
    assert!(message.contains("Nothing was appended"), "{message}");
}

#[test]
fn a_supplied_id_with_whitespace_or_a_control_char_is_refused() {
    assert_eq!(
        check_supplied("two words"),
        Err(SuppliedIdError::Whitespace)
    );
    assert_eq!(
        check_supplied("tab\there"),
        Err(SuppliedIdError::Whitespace)
    );
    assert_eq!(
        check_supplied("new\nline"),
        Err(SuppliedIdError::Whitespace)
    );
    assert_eq!(
        check_supplied("bel\u{7}here"),
        Err(SuppliedIdError::Control)
    );
    assert_eq!(check_supplied("del\u{7f}"), Err(SuppliedIdError::Control));
}

#[test]
fn a_supplied_id_is_bounded() {
    let at_the_bound = "x".repeat(MAX_SUPPLIED_LEN);
    assert_eq!(check_supplied(&at_the_bound), Ok(()));

    let over = "x".repeat(MAX_SUPPLIED_LEN + 1);
    assert_eq!(
        check_supplied(&over),
        Err(SuppliedIdError::TooLong(MAX_SUPPLIED_LEN + 1))
    );
    let message = SuppliedIdError::TooLong(MAX_SUPPLIED_LEN + 1).message();
    assert!(message.contains("129"), "the length it had: {message}");
    assert!(message.contains("128"), "the bound: {message}");

    assert_eq!(check_supplied(&"約".repeat(MAX_SUPPLIED_LEN)), Ok(()));
}

#[test]
fn the_minted_prefix_is_reserved_even_though_everything_else_is_open() {
    assert_eq!(check_supplied("pnk_4f3a91"), Ok(()));

    for id in [
        "pnk_4F3A91",
        "pnk_4f3a9",
        "pnk_4f3a911",
        "pnk_zzzzzz",
        "pnk_",
    ] {
        assert_eq!(
            check_supplied(id),
            Err(SuppliedIdError::ReservedPrefix),
            "{id}"
        );
    }
    assert_eq!(check_supplied("pnk-4f3a91"), Ok(()));
    assert_eq!(check_supplied("pnkish"), Ok(()));
    assert_eq!(check_supplied("PNK_4F3A91"), Ok(()));

    let message = SuppliedIdError::ReservedPrefix.message();
    assert!(message.contains("pnk_"), "{message}");
    assert!(message.contains("§1"), "{message}");
}

#[test]
fn distinct_attempts_diverge() {
    let mut drawn: Vec<String> = (0..64).map(candidate).collect();
    drawn.sort();
    drawn.dedup();
    assert!(drawn.len() >= 60, "only {} distinct of 64", drawn.len());
}

#[test]
fn every_minted_candidate_has_the_minted_form() {
    for attempt in 0..MAX_ATTEMPTS {
        let id = candidate(attempt);
        assert!(id.starts_with(PREFIX), "{id}");
        assert!(is_well_formed(&id), "{id}");
    }
}

#[test]
fn a_well_formed_minted_id_is_also_a_valid_supplied_one() {
    let id = mint(&id_set(&[])).unwrap();
    assert_eq!(check_supplied(&id), Ok(()));
}

#[test]
fn a_supplied_id_with_an_invisible_character_is_refused() {
    for id in [
        "pr\u{200b}91",
        "soft\u{ad}hyphen",
        "bidi\u{202e}",
        "vs\u{fe0f}",
        "bom\u{feff}",
        "tag\u{e0041}",
        "hangul\u{3164}",
    ] {
        assert_eq!(check_supplied(id), Err(SuppliedIdError::Invisible), "{id:?}");
    }
    // Non-ASCII is otherwise fine: the rule is about invisibility, not script.
    assert_eq!(check_supplied("約束\u{301}-91"), Ok(()));
    let message = SuppliedIdError::Invisible.message();
    assert!(message.contains("§1"), "{message}");
    assert!(message.contains("Nothing was appended"), "{message}");
}
