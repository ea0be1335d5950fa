use pinki::a2a::{metadata_key, DESCRIPTION, URI};
use pinki::cli::{A2aCommand, AmendArgs, AssessArgs, Command, LsArgs, PromiseArgs, ResolveArgs, ShowArgs};
use pinki::event::{Event, EventBody, Resolution};
use pinki::instant::Instant;
use pinki::ledger::Ledger;
use pinki::record::{MetaShape, Promise};
use pinki::state::State;
use pinki::verbs::{check_meta, report, run, Effect, Fail, Incoming, FORMS};

const PATH: &str = "/tmp/scratch/.pinki/ledger.jsonl";
const PAST: &str = "2020-01-01T00:00:00Z";
const FUTURE: &str = "2099-01-01T00:00:00Z";
const NOW: &str = "2026-09-01T12:00:00Z";
const META: &str = r#"{"attempt":2,"by":"scheduler","policy":{"escalate":["t-24h","t-2h"],"kind":"nudge"},"session":"s-91"}"#;

#[derive(Debug)]
enum Out {
    Appended { id: String, line: String },
    Lines(Vec<String>),
    Rows(Vec<(String, State)>),
    Detail {
        state: State,
        resolution: Option<Event>,
        assessments: usize,
        meta: Option<String>,
    },
    Card,
    Task(Promise, String),
}

/// A ledger in memory, and the program's half of each verb: append what is decided.
struct Scratch {
    events: Vec<Event>,
    warnings: Vec<String>,
    now: Instant,
}

impl Scratch {
    fn new() -> Self {
        Scratch {
            events: Vec::new(),
            warnings: Vec::new(),
            now: Instant::parse(NOW).unwrap(),
        }
    }

    fn run(&mut self, command: Command) -> (Result<Out, Fail>, Vec<String>) {
        self.run_piped(command, None)
    }

    fn run_piped(
        &mut self,
        command: Command,
        piped: Option<Result<Incoming, Fail>>,
    ) -> (Result<Out, Fail>, Vec<String>) {
        let ledger = Ledger {
            events: self.events.clone(),
            warnings: self.warnings.clone(),
        };
        let mut notes = Vec::new();
        let decided = run(command, piped, Ok(&ledger), self.now, PATH, &mut notes);
        let out = match decided {
            Err(f) => Err(f),
            Ok(Effect::Append { event, id }) => {
                self.events.push(event);
                let line = report(&self.events, self.now, &id);
                Ok(Out::Appended { id, line })
            }
            Ok(Effect::Print(lines)) => Ok(Out::Lines(lines)),
            Ok(Effect::Rows(rows)) => Ok(Out::Rows(
                rows.iter()
                    .map(|row| (row.record.id.clone(), row.state))
                    .collect(),
            )),
            Ok(Effect::Detail(d)) => Ok(Out::Detail {
                state: d.state,
                resolution: d.resolution.cloned(),
                assessments: d.assessments.len(),
                meta: d.record.meta.clone(),
            }),
            Ok(Effect::Card) => Ok(Out::Card),
            Ok(Effect::TaskBlock { record, until }) => Ok(Out::Task(record.clone(), until.to_string())),
        };
        (out, notes)
    }

    /// Declare a promise through the verb and hand back its id.
    fn promise(&mut self, text: &str, by: &str, to: &str, until: &str) -> String {
        match self.run(promise(text, by, to, until)).0 {
            Ok(Out::Appended { id, .. }) => id,
            other => panic!("promise failed: {other:?}"),
        }
    }

    fn state_of(&mut self, id: &str) -> String {
        report(&self.events, self.now, id)
            .split('\t')
            .nth(1)
            .unwrap()
            .to_string()
    }

    fn rows(&mut self, ls: LsArgs) -> Vec<String> {
        match self.run(Command::Ls(ls)).0 {
            Ok(Out::Rows(rows)) => rows.into_iter().map(|(id, _)| id).collect(),
            other => panic!("ls failed: {other:?}"),
        }
    }

    fn lines(&mut self, command: Command) -> (Vec<String>, Vec<String>) {
        match self.run(command) {
            (Ok(Out::Lines(lines)), notes) => (lines, notes),
            other => panic!("expected lines: {other:?}"),
        }
    }
}

fn promise(text: &str, by: &str, to: &str, until: &str) -> Command {
    Command::Promise(promise_args(text, by, to, until))
}

fn promise_args(text: &str, by: &str, to: &str, until: &str) -> PromiseArgs {
    PromiseArgs {
        text: Some(text.into()),
        by: Some(by.into()),
        to: Some(to.into()),
        until: Some(until.into()),
        on: None,
        task: None,
        id: None,
        meta: None,
    }
}

fn resolve(id: &str) -> ResolveArgs {
    ResolveArgs {
        id: id.into(),
        satisfied: false,
        cancelled: false,
        released: false,
        evidence: Vec::new(),
        reason: None,
        by: None,
        meta: None,
    }
}

fn satisfied(id: &str, evidence: &str) -> Command {
    Command::Resolve(ResolveArgs {
        satisfied: true,
        evidence: vec![evidence.into()],
        ..resolve(id)
    })
}

fn cancelled(id: &str, reason: &str) -> Command {
    Command::Resolve(ResolveArgs {
        cancelled: true,
        reason: Some(reason.into()),
        ..resolve(id)
    })
}

fn released(id: &str, reason: Option<&str>) -> Command {
    Command::Resolve(ResolveArgs {
        released: true,
        reason: reason.map(str::to_string),
        ..resolve(id)
    })
}

fn violated(id: &str, observer: &str, note: Option<&str>) -> Command {
    Command::Assess(AssessArgs {
        id: id.into(),
        violated: true,
        observer: observer.into(),
        note: note.map(str::to_string),
        meta: None,
    })
}

fn ls() -> LsArgs {
    LsArgs {
        open: false,
        overdue: false,
        all: false,
        by: None,
        to: None,
        json: true,
    }
}

fn show(id: &str, json: bool) -> Command {
    Command::Show(ShowArgs {
        id: id.into(),
        json,
    })
}

fn object(compact: &str) -> MetaShape {
    MetaShape::Object {
        members: 1,
        compact: compact.into(),
    }
}

fn expect_fail(r: Result<Out, Fail>, code: i32) -> String {
    match r {
        Err(f) => {
            assert_eq!(f.code(), code, "{}", f.message());
            f.message().to_string()
        }
        Ok(out) => panic!("expected a failure, got {out:?}"),
    }
}

// ---- promise ---------------------------------------------------------

#[test]
fn promise_prints_the_id_a_tab_and_the_state() {
    let mut s = Scratch::new();
    let (out, notes) = s.run(promise("ship it", "author", "publisher", FUTURE));
    match out {
        Ok(Out::Appended { id, line }) => {
            assert!(pinki::id::is_well_formed(&id), "{id}");
            assert_eq!(line, format!("{id}\tdetached"));
        }
        other => panic!("{other:?}"),
    }
    assert!(notes.is_empty());
    assert_eq!(s.events.len(), 1);
}

#[test]
fn until_is_stored_normalized() {
    let mut s = Scratch::new();
    s.promise("ship it", "author", "publisher", "2026-09-01T10:00:00-07:00");
    match &s.events[0].body {
        EventBody::Promise(p) => assert_eq!(p.until, "2026-09-01T17:00:00Z"),
        other => panic!("{other:?}"),
    }
    assert_eq!(s.events[0].ts, NOW);
}

#[test]
fn a_naive_until_is_rejected_and_writes_nothing() {
    let mut s = Scratch::new();
    let (out, _) = s.run(promise(
        "send the draft schema",
        "author",
        "editor",
        "2026-09-01T17:00:00",
    ));
    let message = expect_fail(out, 2);
    assert!(message.contains("offset"), "{message}");
    assert!(message.contains("2026-09-01T17:00Z"), "{message}");
    assert!(s.events.is_empty(), "nothing may be appended");
}

#[test]
fn a_missing_required_flag_is_a_usage_error() {
    let mut s = Scratch::new();
    let args = PromiseArgs {
        to: None,
        ..promise_args("no creditor", "author", "x", FUTURE)
    };
    let message = expect_fail(s.run(Command::Promise(args)).0, 2);
    assert_eq!(
        message,
        "--to is required: pinki promise TEXT --by WHO --to WHO --until ISO"
    );
    assert!(s.events.is_empty());
}

#[test]
fn promise_with_neither_text_nor_stdin_is_a_usage_error() {
    let mut s = Scratch::new();
    let args = PromiseArgs {
        text: None,
        ..promise_args("", "", "", "")
    };
    let message = expect_fail(s.run(Command::Promise(args)).0, 2);
    assert_eq!(message, format!("no promise given: {FORMS}"));
    assert!(s.events.is_empty());
}

fn incoming(text: &str) -> Incoming {
    Incoming {
        id: None,
        promise: text.into(),
        by: " author ".into(),
        to: "publisher".into(),
        on: None,
        until: FUTURE.into(),
        task: None,
        meta: None,
    }
}

fn bare() -> PromiseArgs {
    PromiseArgs {
        text: None,
        by: None,
        to: None,
        until: None,
        on: None,
        task: None,
        id: None,
        meta: None,
    }
}

#[test]
fn a_full_record_on_stdin_is_accepted() {
    let mut s = Scratch::new();
    let record = Incoming {
        id: Some("JIRA-1234".into()),
        task: Some("a2a-task-9c1f0e".into()),
        ..incoming("ship it")
    };
    let (out, _) = s.run_piped(Command::Promise(bare()), Some(Ok(record)));
    match out {
        Ok(Out::Appended { id, line }) => {
            assert_eq!(id, "JIRA-1234");
            assert_eq!(line, "JIRA-1234\tdetached");
        }
        other => panic!("{other:?}"),
    }
    match &s.events[0].body {
        EventBody::Promise(p) => {
            assert_eq!(p.by, "author", "values are trimmed");
            assert_eq!(p.task.as_deref(), Some("a2a-task-9c1f0e"));
        }
        other => panic!("{other:?}"),
    }
}

#[test]
fn a_refusal_read_from_stdin_is_passed_through() {
    let mut s = Scratch::new();
    let (out, _) = s.run_piped(
        Command::Promise(bare()),
        Some(Err(Fail::Usage("nothing on stdin".into()))),
    );
    assert_eq!(expect_fail(out, 2), "nothing on stdin");
}

#[test]
fn an_unknown_antecedent_warns_but_proceeds() {
    let mut s = Scratch::new();
    let args = PromiseArgs {
        on: Some("pnk_000000".into()),
        ..promise_args("waits on a ghost", "author", "editor", FUTURE)
    };
    let (out, notes) = s.run(Command::Promise(args));
    match out {
        Ok(Out::Appended { line, .. }) => assert!(line.ends_with("\tconditional"), "{line}"),
        other => panic!("{other:?}"),
    }
    assert_eq!(
        notes,
        vec![format!(
            "pinki: warning: nothing in {PATH} declares `pnk_000000`; recording the promise as conditional on it anyway"
        )]
    );
    assert_eq!(s.events.len(), 1);
}

#[test]
fn an_explicit_id_is_recorded_instead_of_a_minted_one() {
    let mut s = Scratch::new();
    let args = PromiseArgs {
        id: Some("  pnk_4f3a91 ".into()),
        ..promise_args("send the draft schema", "author", "editor", FUTURE)
    };
    match s.run(Command::Promise(args)).0 {
        Ok(Out::Appended { id, .. }) => assert_eq!(id, "pnk_4f3a91"),
        other => panic!("{other:?}"),
    }
}

#[test]
fn an_explicit_id_that_wears_the_reserved_prefix_is_a_usage_error() {
    let mut s = Scratch::new();
    let args = PromiseArgs {
        id: Some("pnk_promise-1".into()),
        ..promise_args("send the draft schema", "author", "editor", FUTURE)
    };
    let message = expect_fail(s.run(Command::Promise(args)).0, 2);
    assert!(message.starts_with("`pnk_promise-1` will not do as an id: "), "{message}");
    assert!(message.contains("six lowercase hex digits"), "{message}");
    assert!(s.events.is_empty(), "nothing may be appended");
}

#[test]
fn an_explicit_id_that_is_already_declared_is_refused() {
    let mut s = Scratch::new();
    let declare = |text: &str| PromiseArgs {
        id: Some("pnk_4f3a91".into()),
        ..promise_args(text, "author", "editor", FUTURE)
    };
    assert!(s.run(Command::Promise(declare("send the draft schema"))).0.is_ok());
    let message = expect_fail(s.run(Command::Promise(declare("send a different schema"))).0, 1);
    assert!(message.contains("already declared"), "{message}");
    assert_eq!(s.events.len(), 1, "the first declaration stands");
}

#[test]
fn a_blank_antecedent_or_task_is_refused() {
    let mut s = Scratch::new();
    let args = PromiseArgs {
        on: Some("  ".into()),
        ..promise_args("x", "author", "editor", FUTURE)
    };
    assert_eq!(expect_fail(s.run(Command::Promise(args)).0, 2), "`on` is empty");
    let args = PromiseArgs {
        task: Some("".into()),
        ..promise_args("x", "author", "editor", FUTURE)
    };
    assert_eq!(expect_fail(s.run(Command::Promise(args)).0, 2), "`task` is empty");
    assert!(s.events.is_empty());
}

#[test]
fn a_blank_text_is_refused_before_anything_else() {
    let mut s = Scratch::new();
    let message = expect_fail(s.run(promise("   ", "", "", "")).0, 2);
    assert_eq!(message, "the promise text is empty");
}

// ---- resolve ---------------------------------------------------------

#[test]
fn resolve_satisfied_with_evidence() {
    let mut s = Scratch::new();
    let id = s.promise("send the draft schema", "author", "editor", PAST);
    match s.run(satisfied(&id, "https://example.org/x")).0 {
        Ok(Out::Appended { line, .. }) => assert_eq!(line, format!("{id}\tsatisfied")),
        other => panic!("{other:?}"),
    }
    match &s.events[1].body {
        EventBody::Resolve {
            resolution: Resolution::Satisfied { by, evidence },
            ..
        } => {
            assert_eq!(by, "author", "the debtor satisfies by default");
            assert_eq!(evidence, &vec!["https://example.org/x".to_string()]);
        }
        other => panic!("{other:?}"),
    }
}

#[test]
fn resolve_released_defaults_by_to_the_creditor() {
    let mut s = Scratch::new();
    let id = s.promise("send the draft schema", "author", "editor", FUTURE);
    assert!(s.run(released(&id, None)).0.is_ok());
    match &s.events[1].body {
        EventBody::Resolve {
            resolution: Resolution::Released { by, reason },
            ..
        } => {
            assert_eq!(by, "editor");
            assert!(reason.is_none());
        }
        other => panic!("{other:?}"),
    }
}

#[test]
fn an_explicit_by_that_disagrees_is_recorded_not_rejected() {
    let mut s = Scratch::new();
    let id = s.promise("send the draft schema", "author", "editor", FUTURE);
    let args = ResolveArgs {
        by: Some(" someone-else ".into()),
        cancelled: true,
        reason: Some("withdrawn".into()),
        ..resolve(&id)
    };
    assert!(s.run(Command::Resolve(args)).0.is_ok());
    match &s.events[1].body {
        EventBody::Resolve { resolution, .. } => assert_eq!(resolution.by(), "someone-else"),
        other => panic!("{other:?}"),
    }
}

#[test]
fn the_first_resolve_wins_and_the_second_appends_nothing() {
    let mut s = Scratch::new();
    let id = s.promise("send the draft schema", "author", "editor", FUTURE);
    assert!(s.run(satisfied(&id, "https://example.org/x")).0.is_ok());
    let message = expect_fail(s.run(cancelled(&id, "changed my mind")).0, 1);
    assert_eq!(
        message,
        format!(
            "`{id}` is already resolved: satisfied at {NOW}. The first resolve wins (§4), so nothing was appended — `pinki show {id}` for the record"
        )
    );
    assert_eq!(s.events.len(), 2, "exactly one resolve event may exist");
}

#[test]
fn resolving_an_unknown_id_fails_operationally() {
    let mut s = Scratch::new();
    let message = expect_fail(s.run(satisfied("pnk_000000", "https://example.org/x")).0, 1);
    assert_eq!(message, format!("cannot resolve `pnk_000000`: nothing in {PATH} declares it"));
    assert!(s.events.is_empty());
}

#[test]
fn an_unknown_id_wearing_the_reserved_prefix_gets_a_hint() {
    let mut s = Scratch::new();
    let message = expect_fail(s.run(show("pnk_nope", false)).0, 1);
    assert!(message.starts_with("cannot show `pnk_nope`: nothing in "), "{message}");
    assert!(message.contains("could never have been declared"), "{message}");
    let message = expect_fail(s.run(show("JIRA-1234", false)).0, 1);
    assert!(!message.contains("could never"), "{message}");
}

#[test]
fn a_malformed_resolve_is_refused_before_the_ledger_is_consulted() {
    let mut s = Scratch::new();
    // No such promise, but the command is malformed first: exit 2, not 1.
    let args = ResolveArgs {
        satisfied: true,
        ..resolve("pnk_000000")
    };
    expect_fail(s.run(Command::Resolve(args)).0, 2);
}

#[test]
fn a_ledger_that_would_not_read_fails_once_the_command_is_well_formed() {
    let mut notes = Vec::new();
    let r = run(
        satisfied("pnk_000000", "https://example.org/x"),
        None,
        Err(Fail::Op("ledger x: denied".into())),
        Instant::parse(NOW).unwrap(),
        PATH,
        &mut notes,
    );
    match r {
        Err(f) => assert_eq!((f.code(), f.message()), (1, "ledger x: denied")),
        Ok(e) => panic!("{e:?}"),
    }
}

// ---- assess ----------------------------------------------------------

#[test]
fn an_assessment_is_recorded_and_never_terminal() {
    let mut s = Scratch::new();
    let id = s.promise("ship it", "author", "publisher", PAST);
    match s.run(violated(&id, "publisher", Some(" nothing shipped "))).0 {
        Ok(Out::Appended { line, .. }) => assert_eq!(line, format!("{id}\toverdue")),
        other => panic!("{other:?}"),
    }
    match &s.events[1].body {
        EventBody::Assess {
            state,
            observer,
            note,
            ..
        } => {
            assert_eq!(state, "violated");
            assert_eq!(observer, "publisher");
            assert_eq!(note.as_deref(), Some("nothing shipped"));
        }
        other => panic!("{other:?}"),
    }
    // A resolved promise may still be assessed.
    assert!(s.run(satisfied(&id, "https://example.org/x")).0.is_ok());
    assert!(s.run(violated(&id, "publisher", None)).0.is_ok());
    assert_eq!(s.state_of(&id), "satisfied");
}

#[test]
fn assessing_an_unknown_id_fails_operationally() {
    let mut s = Scratch::new();
    let message = expect_fail(s.run(violated("pnk_000000", "publisher", None)).0, 1);
    assert!(message.starts_with("cannot assess `pnk_000000`"), "{message}");
    let message = expect_fail(s.run(violated("pnk_000000", " ", None)).0, 2);
    assert_eq!(message, "--observer is empty");
}

// ---- ls --------------------------------------------------------------

#[test]
fn ls_on_an_empty_ledger_is_an_empty_array() {
    let mut s = Scratch::new();
    assert!(s.rows(ls()).is_empty());
}

#[test]
fn ls_scopes_open_overdue_and_all() {
    let mut s = Scratch::new();
    let late = s.promise("ship it", "author", "publisher", PAST);
    let soon = s.promise("proofread it", "editor", "author", FUTURE);
    let done = s.promise("send it", "author", "editor", FUTURE);
    assert!(s.run(satisfied(&done, "https://example.org/x")).0.is_ok());

    let default = s.rows(ls());
    assert_eq!(default, s.rows(LsArgs { open: true, ..ls() }));
    assert!(default.contains(&late) && default.contains(&soon));
    assert!(!default.contains(&done), "a satisfied promise is not open");

    assert_eq!(s.rows(LsArgs { overdue: true, ..ls() }), vec![late.clone()]);

    let all = s.rows(LsArgs { all: true, ..ls() });
    assert_eq!(all, vec![late, soon, done]);
}

#[test]
fn ls_filters_by_and_to_orthogonally() {
    let mut s = Scratch::new();
    let mine = s.promise("ship it", "author", "publisher", FUTURE);
    let theirs = s.promise("proofread it", "editor", "author", FUTURE);

    assert_eq!(s.rows(LsArgs { by: Some("author".into()), ..ls() }), vec![mine.clone()]);
    assert_eq!(s.rows(LsArgs { to: Some("author".into()), ..ls() }), vec![theirs]);
    assert_eq!(
        s.rows(LsArgs {
            all: true,
            by: Some("author".into()),
            to: Some("publisher".into()),
            ..ls()
        }),
        vec![mine]
    );
    assert!(s
        .rows(LsArgs {
            by: Some("author".into()),
            to: Some("author".into()),
            ..ls()
        })
        .is_empty());
}

#[test]
fn ls_json_rows_carry_the_record_and_the_state() {
    let mut s = Scratch::new();
    let id = s.promise("ship it", "author", "publisher", PAST);
    match s.run(Command::Ls(ls())).0 {
        Ok(Out::Rows(rows)) => assert_eq!(rows, vec![(id, State::Overdue)]),
        other => panic!("{other:?}"),
    }
}

#[test]
fn ls_on_an_empty_ledger_says_so_on_stderr() {
    let mut s = Scratch::new();
    let (lines, notes) = s.lines(Command::Ls(LsArgs { json: false, ..ls() }));
    assert!(lines.is_empty(), "no table for an empty ledger");
    assert_eq!(notes, vec![format!("pinki: the ledger at {PATH} holds no promises")]);
}

#[test]
fn ls_says_how_many_the_ledger_holds_when_a_filter_hides_everything() {
    let mut s = Scratch::new();
    s.promise("ship it", "author", "publisher", FUTURE);
    let (lines, notes) = s.lines(Command::Ls(LsArgs {
        json: false,
        by: Some("nobody".into()),
        ..ls()
    }));
    assert!(lines.is_empty());
    assert_eq!(
        notes,
        vec!["pinki: no promises match; the ledger holds 1 — `pinki ls --all` shows every state".to_string()]
    );
}

#[test]
fn ls_human_output_is_plain_ascii_columns() {
    let mut s = Scratch::new();
    let args = PromiseArgs {
        id: Some("pnk_000001".into()),
        ..promise_args("ship it", "author", "publisher", PAST)
    };
    assert!(s.run(Command::Promise(args)).0.is_ok());
    let args = PromiseArgs {
        id: Some("JIRA-12345".into()),
        ..promise_args(
            "a very long promise text that will certainly not fit in the fifty-six columns",
            "rev",
            "author",
            FUTURE,
        )
    };
    assert!(s.run(Command::Promise(args)).0.is_ok());
    let (lines, notes) = s.lines(Command::Ls(LsArgs { json: false, ..ls() }));
    assert!(notes.is_empty());
    assert_eq!(
        lines,
        vec![
            "pnk_000001  overdue   2020-01-01T00:00:00Z  author -> publisher  ship it".to_string(),
            "JIRA-12345  detached  2099-01-01T00:00:00Z  rev -> author        a very long promise text that will certainly not fit ...".to_string(),
        ]
    );
}

// ---- show ------------------------------------------------------------

#[test]
fn show_prints_a_plain_text_block_for_an_unresolved_promise() {
    let mut s = Scratch::new();
    let id = s.promise("ship it", "author", "publisher", FUTURE);
    let (lines, _) = s.lines(show(&id, false));
    assert_eq!(
        lines,
        vec![
            format!("{id}  detached"),
            "  promise      ship it".to_string(),
            "  by           author".to_string(),
            "  to           publisher".to_string(),
            format!("  until        {FUTURE}"),
            "  resolution   (unresolved)".to_string(),
            "  assessments  (none)".to_string(),
        ]
    );
}

#[test]
fn show_prints_the_antecedent_and_the_task_when_the_record_has_them() {
    let mut s = Scratch::new();
    let a = s.promise("send the draft schema", "author", "editor", FUTURE);
    let args = PromiseArgs {
        on: Some(a.clone()),
        task: Some("a2a-task-9c1f0e".into()),
        ..promise_args("hand back the notes", "editor", "author", FUTURE)
    };
    let b = match s.run(Command::Promise(args)).0 {
        Ok(Out::Appended { id, .. }) => id,
        other => panic!("{other:?}"),
    };
    let (lines, _) = s.lines(show(&b, false));
    assert!(lines.contains(&format!("  on           {a}")), "{lines:?}");
    assert!(lines.contains(&"  task         a2a-task-9c1f0e".to_string()), "{lines:?}");
}

#[test]
fn show_prints_every_evidence_reference_under_the_resolution() {
    let mut s = Scratch::new();
    let id = s.promise("ship it", "author", "publisher", FUTURE);
    let args = ResolveArgs {
        satisfied: true,
        evidence: vec!["https://example.org/a".into(), "sha:9c1f0e".into()],
        ..resolve(&id)
    };
    assert!(s.run(Command::Resolve(args)).0.is_ok());
    let (lines, _) = s.lines(show(&id, false));
    assert_eq!(
        lines[5..].to_vec(),
        vec![
            format!("  resolution   satisfied at {NOW} by author"),
            "    evidence   https://example.org/a".to_string(),
            "    evidence   sha:9c1f0e".to_string(),
            "  assessments  (none)".to_string(),
        ]
    );
}

#[test]
fn show_prints_the_reason_a_promise_was_cancelled() {
    let mut s = Scratch::new();
    let id = s.promise("ship it", "author", "publisher", FUTURE);
    assert!(s.run(cancelled(&id, "upstream withdrew")).0.is_ok());
    let (lines, _) = s.lines(show(&id, false));
    assert!(lines.contains(&"    reason     upstream withdrew".to_string()), "{lines:?}");
    assert_eq!(lines[0], format!("{id}  cancelled"));
}

#[test]
fn show_lists_an_assessment_with_its_note() {
    let mut s = Scratch::new();
    let id = s.promise("ship it", "author", "publisher", PAST);
    assert!(s.run(violated(&id, "publisher", Some("nothing shipped"))).0.is_ok());
    assert!(s.run(violated(&id, "author", None)).0.is_ok());
    let (lines, _) = s.lines(show(&id, false));
    assert_eq!(
        lines[6..].to_vec(),
        vec![
            "  assessments".to_string(),
            format!("    {NOW}  violated  publisher  nothing shipped"),
            format!("    {NOW}  violated  author"),
        ]
    );
}

#[test]
fn show_json_carries_state_resolution_and_assessments() {
    let mut s = Scratch::new();
    let id = s.promise("ship it", "author", "publisher", PAST);
    assert!(s.run(violated(&id, "publisher", None)).0.is_ok());
    match s.run(show(&id, true)).0 {
        Ok(Out::Detail {
            state,
            resolution,
            assessments,
            meta,
        }) => {
            assert_eq!(state, State::Overdue);
            assert!(resolution.is_none(), "no resolution is null");
            assert_eq!(assessments, 1);
            assert!(meta.is_none());
        }
        other => panic!("{other:?}"),
    }
    assert!(s.run(released(&id, Some("no longer needed"))).0.is_ok());
    match s.run(show(&id, true)).0 {
        Ok(Out::Detail {
            state, resolution, ..
        }) => {
            assert_eq!(state, State::Released);
            let resolution = resolution.unwrap();
            assert_eq!(resolution.resolution().unwrap().as_str(), "released");
            assert_eq!(resolution.resolution().unwrap().by(), "publisher");
        }
        other => panic!("{other:?}"),
    }
}

#[test]
fn showing_an_unknown_id_fails_operationally() {
    let mut s = Scratch::new();
    expect_fail(s.run(show("JIRA-1", true)).0, 1);
}

// ---- the graph -------------------------------------------------------

#[test]
fn a_dependent_detaches_when_its_antecedent_is_satisfied() {
    let mut s = Scratch::new();
    let a = s.promise("send the draft schema", "author", "editor", FUTURE);
    let args = PromiseArgs {
        on: Some(a.clone()),
        ..promise_args("hand back the notes", "editor", "author", FUTURE)
    };
    let (out, notes) = s.run(Command::Promise(args));
    let b = match out {
        Ok(Out::Appended { id, line }) => {
            assert!(line.ends_with("\tconditional"));
            id
        }
        other => panic!("{other:?}"),
    };
    assert!(notes.is_empty(), "a declared antecedent earns no warning");
    assert_eq!(s.state_of(&b), "conditional");
    assert!(s
        .run(satisfied(&a, "https://example.org/schemas/draft-3.json"))
        .0
        .is_ok());
    assert_eq!(s.state_of(&a), "satisfied");
    assert_eq!(s.state_of(&b), "detached");
}

// ---- a2a -------------------------------------------------------------

#[test]
fn a2a_card_asks_for_the_card() {
    let mut s = Scratch::new();
    let (out, notes) = s.run(Command::A2a {
        command: A2aCommand::Card,
    });
    assert!(matches!(out, Ok(Out::Card)));
    assert!(notes.is_empty());
    assert!(DESCRIPTION.starts_with("Promises made by this card's subject"));
}

#[test]
fn a2a_task_emits_the_metadata_block_for_one_promise() {
    let mut s = Scratch::new();
    let a = s.promise("send the draft schema", "author", "editor", FUTURE);
    let args = PromiseArgs {
        on: Some(a.clone()),
        task: Some("a2a-task-9c1f0e".into()),
        ..promise_args("hand back the notes", "editor", "author", FUTURE)
    };
    let b = match s.run(Command::Promise(args)).0 {
        Ok(Out::Appended { id, .. }) => id,
        other => panic!("{other:?}"),
    };
    match s.run(Command::A2a {
        command: A2aCommand::Task { id: b.clone() },
    }) {
        (Ok(Out::Task(record, until)), notes) => {
            assert_eq!(until, FUTURE);
            assert!(notes.is_empty());
            assert_eq!(record.id, b);
            assert_eq!(record.on.as_deref(), Some(a.as_str()));
            assert_eq!(record.until, FUTURE);
            assert_eq!(record.task.as_deref(), Some("a2a-task-9c1f0e"));
        }
        other => panic!("{other:?}"),
    }
    assert_eq!(metadata_key(), format!("{URI}/promise"));
    assert_eq!(
        metadata_key(),
        "https://github.com/azigler/pinki/ext/promise/v0/promise"
    );
}

#[test]
fn a2a_task_for_an_unknown_id_fails_operationally() {
    let mut s = Scratch::new();
    let message = expect_fail(
        s.run(Command::A2a {
            command: A2aCommand::Task {
                id: "pnk_000000".into(),
            },
        })
        .0,
        1,
    );
    assert!(message.starts_with("cannot a2a task `pnk_000000`"), "{message}");
}

// ---- ledger warnings ---------------------------------------------------

#[test]
fn the_ledgers_own_warnings_come_first_and_only_once_it_is_consulted() {
    let mut s = Scratch::new();
    s.warnings = vec!["pinki: warning: x line 2: unknown event type".to_string()];
    let (out, notes) = s.run(violated("pnk_000000", " ", None));
    expect_fail(out, 2);
    assert!(notes.is_empty(), "a malformed command never reads the ledger");
    let (_, notes) = s.run(Command::Ls(ls()));
    assert_eq!(notes, s.warnings);
}

// ---- meta --------------------------------------------------------------

#[test]
fn meta_from_the_flag_rides_the_promise_line_verbatim() {
    let mut s = Scratch::new();
    let args = PromiseArgs {
        meta: Some(object(META)),
        ..promise_args("ship it", "author", "publisher", FUTURE)
    };
    assert!(s.run(Command::Promise(args)).0.is_ok());
    match &s.events[0].body {
        EventBody::Promise(p) => assert_eq!(p.meta.as_deref(), Some(META)),
        other => panic!("{other:?}"),
    }
}

#[test]
fn meta_from_a_stdin_record_rides_the_promise_line_verbatim() {
    let mut s = Scratch::new();
    let record = Incoming {
        meta: Some(object(META)),
        ..incoming("ship it")
    };
    assert!(s.run_piped(Command::Promise(bare()), Some(Ok(record))).0.is_ok());
    match &s.events[0].body {
        EventBody::Promise(p) => assert_eq!(p.meta.as_deref(), Some(META)),
        other => panic!("{other:?}"),
    }
}

#[test]
fn a_promise_with_no_meta_writes_no_meta_key() {
    let mut s = Scratch::new();
    let id = s.promise("ship it", "author", "publisher", FUTURE);
    assert!(s.events[0].meta().is_none());
    let (lines, _) = s.lines(show(&id, false));
    assert!(lines.iter().all(|line| !line.contains("meta")), "{lines:?}");
}

#[test]
fn meta_that_is_not_an_object_is_refused_and_the_ledger_is_untouched() {
    let mut s = Scratch::new();
    s.promise("something first", "author", "publisher", FUTURE);
    for (shape, kind) in [
        (MetaShape::Null, "null"),
        (MetaShape::Bool, "a boolean"),
        (MetaShape::Number, "a number"),
        (MetaShape::Text, "a string"),
        (MetaShape::Array, "an array"),
    ] {
        let args = PromiseArgs {
            meta: Some(shape),
            ..promise_args("ship it", "author", "publisher", FUTURE)
        };
        let message = expect_fail(s.run(Command::Promise(args)).0, 2);
        assert!(message.contains("§1"), "{message}");
        assert!(message.contains(kind), "{message}");
    }
    let record = Incoming {
        meta: Some(MetaShape::Array),
        ..incoming("ship it")
    };
    let message = expect_fail(s.run_piped(Command::Promise(bare()), Some(Ok(record))).0, 2);
    assert!(message.contains("an array"), "{message}");
    let args = PromiseArgs {
        meta: Some(MetaShape::Object {
            members: 0,
            compact: "{}".into(),
        }),
        ..promise_args("ship it", "author", "publisher", FUTURE)
    };
    let message = expect_fail(s.run(Command::Promise(args)).0, 2);
    assert!(message.contains("empty object"), "{message}");
    let args = PromiseArgs {
        meta: Some(MetaShape::NotJson("expected ident at line 1 column 2".into())),
        ..promise_args("ship it", "author", "publisher", FUTURE)
    };
    let message = expect_fail(s.run(Command::Promise(args)).0, 2);
    assert!(message.contains("not JSON"), "{message}");
    assert_eq!(s.events.len(), 1, "nothing may be appended");
}

#[test]
fn meta_over_the_cap_is_refused_and_just_under_it_is_not() {
    let over = format!(r#"{{"pad":"{}"}}"#, "x".repeat(8 * 1024));
    let message = match check_meta(&Some(object(&over))) {
        Err(f) => f.message().to_string(),
        Ok(m) => panic!("{m:?}"),
    };
    assert!(message.contains("8192"), "{message}");
    let under = format!(r#"{{"pad":"{}"}}"#, "x".repeat(8 * 1024 - 11));
    assert_eq!(check_meta(&Some(object(&under))).unwrap(), Some(under.clone()));
    // The cap counts bytes: a two-byte character costs two.
    let wide = format!(r#"{{"pad":"{}"}}"#, "é".repeat(4 * 1024));
    assert!(check_meta(&Some(object(&wide))).is_err());
}

#[test]
fn meta_and_a_record_on_stdin_may_not_both_be_given() {
    let mut s = Scratch::new();
    let args = PromiseArgs {
        meta: Some(object(META)),
        ..bare()
    };
    let message = expect_fail(
        s.run_piped(Command::Promise(args), Some(Ok(incoming("ship it")))).0,
        2,
    );
    assert!(message.contains("--meta"), "{message}");
    assert!(s.events.is_empty(), "nothing may be appended");
}

#[test]
fn resolve_and_assess_carry_their_own_meta() {
    let mut s = Scratch::new();
    let id = s.promise("ship it", "author", "publisher", PAST);
    let resolve_meta = r#"{"by":"expected-gap-watchdog","cites_ref":"sha:9c1f0e"}"#;
    let assess_meta = r#"{"by":"offboard","window":"w-12"}"#;
    let assess = Command::Assess(AssessArgs {
        id: id.clone(),
        violated: true,
        observer: "publisher".into(),
        note: None,
        meta: Some(object(assess_meta)),
    });
    assert!(s.run(assess).0.is_ok());
    let args = ResolveArgs {
        satisfied: true,
        evidence: vec!["https://example.org/x".into()],
        meta: Some(object(resolve_meta)),
        ..resolve(&id)
    };
    assert!(s.run(Command::Resolve(args)).0.is_ok());
    assert_eq!(s.events[1].meta().map(String::as_str), Some(assess_meta));
    assert_eq!(s.events[2].meta().map(String::as_str), Some(resolve_meta));

    let (lines, _) = s.lines(show(&id, false));
    assert!(lines.contains(&format!("    meta       {resolve_meta}")), "{lines:?}");
    assert!(lines.contains(&format!("      meta     {assess_meta}")), "{lines:?}");
}

#[test]
fn show_renders_the_records_meta_on_one_line_when_it_has_one() {
    let mut s = Scratch::new();
    let args = PromiseArgs {
        meta: Some(object(META)),
        ..promise_args("ship it", "author", "publisher", FUTURE)
    };
    let id = match s.run(Command::Promise(args)).0 {
        Ok(Out::Appended { id, .. }) => id,
        other => panic!("{other:?}"),
    };
    let (lines, _) = s.lines(show(&id, false));
    assert!(lines.contains(&format!("  meta         {META}")), "{lines:?}");
    match s.run(show(&id, true)).0 {
        Ok(Out::Detail { meta, .. }) => assert_eq!(meta.as_deref(), Some(META)),
        other => panic!("{other:?}"),
    }
}

#[test]
fn ls_prints_the_current_horizon_after_an_amend() {
    let mut s = Scratch::new();
    let args = PromiseArgs {
        id: Some("pnk_000001".into()),
        ..promise_args("ship it", "author", "publisher", PAST)
    };
    assert!(s.run(Command::Promise(args)).0.is_ok());
    // An amend written by another tool, read back from a joined ledger.
    s.events.push(Event::new(
        "2026-09-01T00:00:00Z".to_string(),
        EventBody::amend("pnk_000001", "author", FUTURE, Some("the draft landed late".into())),
    ));
    let (lines, _) = s.lines(Command::Ls(LsArgs { json: false, ..ls() }));
    assert_eq!(
        lines,
        vec![format!("pnk_000001  detached  {FUTURE}  author -> publisher  ship it")]
    );
    // `show` prints the current horizon too, and keeps the declared one.
    let (lines, _) = s.lines(show("pnk_000001", false));
    assert!(lines.contains(&format!("  until        {FUTURE}")), "{lines:?}");
    assert!(lines.contains(&format!("    horizon    {PAST}  declared")), "{lines:?}");
}

// ---- amend -------------------------------------------------------------

fn amend(id: &str, until: &str, reason: Option<&str>, by: Option<&str>) -> Command {
    Command::Amend(AmendArgs {
        id: id.into(),
        until: until.into(),
        reason: reason.map(str::to_string),
        by: by.map(str::to_string),
        meta: None,
    })
}

#[test]
fn an_amend_moves_the_deadline_and_the_state_follows() {
    let mut s = Scratch::new();
    let id = s.promise("ship it", "author", "publisher", PAST);
    assert_eq!(s.state_of(&id), "overdue");
    match s.run(amend(&id, "2099-01-01T10:00:00+02:00", Some(" the draft landed late "), None)).0 {
        Ok(Out::Appended { line, .. }) => assert_eq!(line, format!("{id}\tdetached")),
        other => panic!("{other:?}"),
    }
    match &s.events[1].body {
        EventBody::Amend {
            promise,
            by,
            until,
            reason,
            meta,
        } => {
            assert_eq!(promise, &id);
            assert_eq!(by, "author", "the debtor amends by default");
            assert_eq!(until, "2099-01-01T08:00:00Z", "the deadline is normalized");
            assert_eq!(reason.as_deref(), Some("the draft landed late"));
            assert!(meta.is_none());
        }
        other => panic!("{other:?}"),
    }
}

#[test]
fn show_lists_every_horizon_once_there_is_more_than_one() {
    let mut s = Scratch::new();
    let id = s.promise("ship it", "author", "publisher", PAST);
    assert!(s.run(amend(&id, "2026-09-01T18:00:00Z", Some("late draft"), Some("author"))).0.is_ok());
    assert!(s.run(amend(&id, FUTURE, None, None)).0.is_ok());
    let (lines, _) = s.lines(show(&id, false));
    assert_eq!(
        lines[4..8].to_vec(),
        vec![
            format!("  until        {FUTURE}"),
            format!("    horizon    {PAST}  declared"),
            format!("    horizon    2026-09-01T18:00:00Z  amended at {NOW} by author: late draft"),
            format!("    horizon    {FUTURE}  amended at {NOW} by author"),
        ]
    );
    match s.run(Command::A2a {
        command: A2aCommand::Task { id: id.clone() },
    }) {
        (Ok(Out::Task(record, until)), _) => {
            assert_eq!(until, FUTURE, "the block carries the current horizon");
            assert_eq!(record.until, PAST, "the declaration is never rewritten");
        }
        other => panic!("{other:?}"),
    }
}

#[test]
fn only_the_debtor_may_amend() {
    let mut s = Scratch::new();
    let id = s.promise("ship it", "author", "publisher", PAST);
    let message = expect_fail(s.run(amend(&id, FUTURE, None, Some("publisher"))).0, 1);
    assert!(message.starts_with(&format!("only the debtor may amend `{id}`: it is owed by author, not publisher")), "{message}");
    assert_eq!(s.events.len(), 1, "nothing may be appended");
}

#[test]
fn a_resolved_promise_cannot_be_amended() {
    let mut s = Scratch::new();
    let id = s.promise("ship it", "author", "publisher", PAST);
    assert!(s.run(released(&id, None)).0.is_ok());
    let message = expect_fail(s.run(amend(&id, FUTURE, None, None)).0, 1);
    assert!(message.contains("cannot be amended"), "{message}");
    assert_eq!(s.events.len(), 2);
}

#[test]
fn a_malformed_amend_is_refused_before_the_ledger_is_consulted() {
    let mut s = Scratch::new();
    let message = expect_fail(s.run(amend("pnk_000000", "2026-09-01T17:00:00", None, None)).0, 2);
    assert!(message.contains("offset"), "{message}");
    let message = expect_fail(s.run(amend("pnk_000000", FUTURE, Some(" "), None)).0, 2);
    assert_eq!(message, "--reason is empty");
    let message = expect_fail(s.run(amend("pnk_000000", FUTURE, None, None)).0, 1);
    assert_eq!(message, format!("cannot amend `pnk_000000`: nothing in {PATH} declares it"));
}

#[test]
fn the_read_surfaces_carry_the_current_horizon() {
    let mut s = Scratch::new();
    let id = s.promise("ship it", "author", "publisher", PAST);
    assert!(s.run(amend(&id, FUTURE, None, None)).0.is_ok());
    let ledger = Ledger {
        events: s.events.clone(),
        warnings: Vec::new(),
    };
    let mut notes = Vec::new();
    let now = Instant::parse(NOW).unwrap();
    match run(Command::Ls(ls()), None, Ok(&ledger), now, PATH, &mut notes) {
        Ok(Effect::Rows(rows)) => {
            assert_eq!(rows[0].until, FUTURE);
            assert_eq!(rows[0].record.until, PAST);
            assert_eq!(rows[0].state, State::Detached);
        }
        other => panic!("{other:?}"),
    }
    match run(show(&id, true), None, Ok(&ledger), now, PATH, &mut notes) {
        Ok(Effect::Detail(d)) => assert_eq!(d.until, FUTURE),
        other => panic!("{other:?}"),
    }
}
