use oxide_cli::manifest::{IfExists, IfNotFound};
use oxide_cli::steps::{
    after_answer, after_missing_marker_answer, append_text, inject_action, inject_failure_message, inject_step_outcome, InjectAction,
    InjectFailure, content_lines, inject_text, relocate_error_message, relocate_plan,
    render_text, write_plan, write_rollback, RelocateError, Rollback, WritePlan,
};

fn lines(v: &[&str]) -> Vec<String> {
    v.iter().map(|s| s.to_string()).collect()
}

#[test]
fn content_is_split_into_lines_like_str_lines() {
    assert_eq!(content_lines("a\nb\r\nc\n"), lines(&["a", "b", "c"]));
    assert_eq!(content_lines(""), Vec::<String>::new());
    assert_eq!(content_lines("x\n\ny"), lines(&["x", "", "y"]));
    assert_eq!(render_text(&lines(&["a", "b"])), "a\nb");
}

#[test]
fn append_adds_a_newline_only_when_missing() {
    assert_eq!(append_text("line", &lines(&["new"])), "line\nnew");
    assert_eq!(append_text("line\n", &lines(&["new", "more"])), "line\nnew\nmore");
    assert_eq!(append_text("", &lines(&["new"])), "new");
}

#[test]
fn inject_after_marker_inserts_below_the_first_match() {
    let file = "import a\n// marker\nrest\n// marker\n";
    let out = inject_text(file, &lines(&["x", "y"]), Some("marker"), None).unwrap();
    assert_eq!(out, "import a\n// marker\nx\ny\nrest\n// marker");
}

#[test]
fn inject_before_marker_inserts_above_the_first_match() {
    let out = inject_text("a\nb\nc", &lines(&["x"]), None, Some("b")).unwrap();
    assert_eq!(out, "a\nx\nb\nc");
}

#[test]
fn inject_prefers_after_when_both_are_given() {
    let out = inject_text("a\nb\nc", &lines(&["x"]), Some("a"), Some("c")).unwrap();
    assert_eq!(out, "a\nx\nb\nc");
}

#[test]
fn inject_without_marker_goes_to_the_top() {
    let out = inject_text("a\r\nb", &lines(&["x"]), None, None).unwrap();
    assert_eq!(out, "x\na\nb");
}

#[test]
fn inject_reports_a_missing_marker() {
    assert_eq!(inject_text("a\nb", &lines(&["x"]), Some("zzz"), None), None);
    assert_eq!(inject_text("", &lines(&["x"]), None, Some("a")), None);
}

#[test]
fn copy_and_create_decisions() {
    assert_eq!(write_plan(false, IfExists::Skip), WritePlan::CreateNew);
    assert_eq!(write_plan(true, IfExists::Skip), WritePlan::Skip);
    assert_eq!(write_plan(true, IfExists::Ask), WritePlan::Ask);
    assert_eq!(write_plan(true, IfExists::Overwrite), WritePlan::Overwrite);
    assert_eq!(after_answer(true), WritePlan::Overwrite);
    assert_eq!(after_answer(false), WritePlan::Skip);
}

#[test]
fn rename_and_move_checks() {
    assert_eq!(relocate_plan("a", "b", false, true).unwrap_err(), RelocateError::SourceMissing);
    assert_eq!(relocate_plan("a", "b", true, true).unwrap_err(), RelocateError::DestinationExists);
    match relocate_plan("/p/a", "/p/b", true, false).unwrap() {
        Rollback::RenameFile { from, to } => {
            assert_eq!(from, "/p/b");
            assert_eq!(to, "/p/a");
        },
        other => panic!("unexpected rollback {other:?}"),
    }
    assert_eq!(relocate_error_message(RelocateError::SourceMissing, "/p/a", "/p/b"), "/p/a does not exist");
    assert_eq!(relocate_error_message(RelocateError::DestinationExists, "/p/a", "/p/b"), "/p/b already exists");
}

#[test]
fn missing_marker_follows_if_not_found() {
    let r = lines(&["x"]);
    assert!(matches!(inject_action("a\nb", &r, Some("b"), None, IfNotFound::Error), InjectAction::Write(t) if t == "a\nb\nx"));
    assert!(matches!(inject_action("a", &r, Some("zz"), None, IfNotFound::Skip), InjectAction::Skip));
    assert!(matches!(inject_action("a", &r, Some("zz"), None, IfNotFound::WarnAndAsk), InjectAction::Ask));
    assert!(matches!(
        inject_action("a", &r, None, Some("zz"), IfNotFound::Error),
        InjectAction::Fail(InjectFailure::MarkerNotFound)
    ));
    assert!(matches!(after_missing_marker_answer(Some(true)), InjectAction::Skip));
    assert!(matches!(after_missing_marker_answer(Some(false)), InjectAction::Fail(InjectFailure::Aborted)));
    assert!(matches!(after_missing_marker_answer(None), InjectAction::Fail(InjectFailure::Unanswered)));
    assert_eq!(
        inject_failure_message(InjectFailure::MarkerNotFound, &format!("{:?}", "// hook"), "src/main.ts", ""),
        "Marker \"// hook\" not found in src/main.ts"
    );
    assert_eq!(inject_failure_message(InjectFailure::Aborted, "", "", ""), "Aborted by user");
    assert_eq!(
        inject_failure_message(InjectFailure::Unanswered, "", "", "Operation was interrupted by the user"),
        "Operation was interrupted by the user"
    );
}

#[test]
fn inject_step_gathers_rollbacks_until_the_first_failure() {
    let paths = vec!["a".to_string(), "b".to_string(), "c".to_string()];
    let originals = vec![b"A".to_vec(), b"B".to_vec(), b"C".to_vec()];
    let actions = vec![InjectAction::Write("a2".into()), InjectAction::Skip, InjectAction::Write("c2".into())];
    let rollbacks = inject_step_outcome(&paths, originals.clone(), &actions).unwrap();
    let restored: Vec<(String, Vec<u8>)> = rollbacks
        .into_iter()
        .map(|r| match r {
            Rollback::RestoreFile { path, original } => (path, original),
            other => panic!("unexpected rollback {other:?}"),
        })
        .collect();
    assert_eq!(restored, vec![("a".to_string(), b"A".to_vec()), ("c".to_string(), b"C".to_vec())]);
    let failing = vec![
        InjectAction::Write("a2".into()),
        InjectAction::Fail(InjectFailure::MarkerNotFound),
        InjectAction::Fail(InjectFailure::Aborted),
    ];
    assert_eq!(inject_step_outcome(&paths, originals.clone(), &failing).unwrap_err(), InjectFailure::MarkerNotFound);
    let unanswered = vec![InjectAction::Write("a2".into()), InjectAction::Ask, InjectAction::Write("c2".into())];
    assert_eq!(inject_step_outcome(&paths, originals, &unanswered).unwrap_err(), InjectFailure::Unanswered);
}

#[test]
fn a_write_records_how_to_undo_it() {
    match write_rollback(WritePlan::CreateNew, "/p/new.txt", Vec::new()) {
        Some(Rollback::DeleteCreatedFile { path }) => assert_eq!(path, "/p/new.txt"),
        other => panic!("unexpected {other:?}"),
    }
    match write_rollback(WritePlan::Overwrite, "/p/old.txt", b"before".to_vec()) {
        Some(Rollback::RestoreFile { path, original }) => {
            assert_eq!(path, "/p/old.txt");
            assert_eq!(original, b"before".to_vec());
        }
        other => panic!("unexpected {other:?}"),
    }
    assert!(write_rollback(WritePlan::Skip, "/p/x", Vec::new()).is_none());
    assert!(write_rollback(WritePlan::Ask, "/p/x", Vec::new()).is_none());
}
