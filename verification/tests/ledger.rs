use pinki::ledger::{
    encode_text, io_text, malformed_text, resolve_path, significant, unknown_type_warning,
    DEFAULT_PATH, ENV_VAR,
};

#[test]
fn default_path_when_env_is_unset_or_empty() {
    assert_eq!(resolve_path(None), DEFAULT_PATH);
    assert_eq!(resolve_path(Some(String::new())), DEFAULT_PATH);
}

#[test]
fn env_var_relocates_the_ledger() {
    assert_eq!(
        resolve_path(Some("/tmp/elsewhere.jsonl".to_string())),
        "/tmp/elsewhere.jsonl"
    );
    assert_eq!(ENV_VAR, "PINKI_LEDGER");
    assert_eq!(DEFAULT_PATH, "./.pinki/ledger.jsonl");
}

fn numbered(text: &str) -> Vec<(usize, String)> {
    significant(text)
        .into_iter()
        .map(|line| (line.number, line.text))
        .collect()
}

#[test]
fn blank_and_whitespace_lines_are_skipped() {
    let text = "\n{\"a\":1}\n   \n\t\n{\"b\":2}\n\n";
    assert_eq!(
        numbered(text),
        vec![(2, "{\"a\":1}".to_string()), (5, "{\"b\":2}".to_string())]
    );
}

#[test]
fn blank_lines_do_not_shift_the_reported_line_number() {
    let text = "\n\n{\"a\":1}\n\n{ nope\n";
    let lines = numbered(text);
    assert_eq!(lines.last().unwrap(), &(5, "{ nope".to_string()));
}

#[test]
fn line_endings_are_dropped_as_str_lines_drops_them() {
    assert_eq!(
        numbered("one\r\ntwo\nthree"),
        vec![
            (1, "one".to_string()),
            (2, "two".to_string()),
            (3, "three".to_string())
        ]
    );
    // A carriage return that ends no line is kept.
    assert_eq!(numbered("last\r"), vec![(1, "last\r".to_string())]);
    assert_eq!(numbered(""), Vec::<(usize, String)>::new());
    assert_eq!(numbered("\n\n"), Vec::<(usize, String)>::new());
}

#[test]
fn the_significant_lines_agree_with_str_lines() {
    let text = "a\n\n  b \r\n\u{3000}\nc\r\nd";
    let expected: Vec<(usize, String)> = text
        .lines()
        .enumerate()
        .filter(|(_, line)| !line.trim().is_empty())
        .map(|(index, line)| (index + 1, line.to_string()))
        .collect();
    assert_eq!(numbered(text), expected);
}

#[test]
fn malformed_line_is_loud_and_names_file_and_line_number() {
    let msg = malformed_text("/tmp/ledger.jsonl", 2, "expected value at line 1 column 2");
    assert_eq!(
        msg,
        "ledger /tmp/ledger.jsonl: line 2 is not a valid pinki event: expected value at line 1 column 2"
    );
}

#[test]
fn an_io_error_names_the_path_it_was_touching() {
    assert_eq!(io_text("/tmp/ledger.jsonl", "denied"), "ledger /tmp/ledger.jsonl: denied");
}

#[test]
fn an_encode_error_says_the_event_could_not_be_encoded() {
    assert!(encode_text("boom").starts_with("could not encode event as JSON: "));
}

#[test]
fn an_unknown_event_type_is_warned_about_with_its_line_number() {
    let w = unknown_type_warning("./.pinki/ledger.jsonl", 12);
    assert_eq!(
        w,
        "pinki: warning: ./.pinki/ledger.jsonl line 12: unknown event type, skipped — written by a newer pinki? The fold ignores it (§4); nothing was lost from the file"
    );
}
