use clippy_dev::reconcile::{find_from, reconcile, synchronize, Artifact, Mode, Outcome, ReconcileError};
use clippy_dev::lint::PassKind;
use clippy_dev::scan::{scan_file, ScanError};

fn chars(s: &str) -> Vec<char> {
    s.chars().collect()
}

fn text(v: &[char]) -> String {
    v.iter().collect()
}

fn artifact(body: &str, block: &str) -> Artifact {
    Artifact {
        text: chars(body),
        start: chars("// begin lints\n"),
        end: chars("// end lints\n"),
        block: chars(block),
    }
}

#[test]
fn write_then_write_again_is_up_to_date() {
    let a = artifact("head\n// begin lints\nold\n// end lints\ntail\n", "new_a\nnew_b\n");
    let first = reconcile(&a.text, &a.start, &a.end, &a.block, Mode::Write);
    let written = match first {
        Ok(Outcome::Written(t)) => t,
        other => panic!("expected a write, got {:?}", other),
    };
    assert_eq!(text(&written), "head\n// begin lints\nnew_a\nnew_b\n// end lints\ntail\n");
    let second = reconcile(&written, &a.start, &a.end, &a.block, Mode::Write);
    assert!(matches!(second, Ok(Outcome::UpToDate)));
}

#[test]
fn check_agrees_with_write() {
    let stale = artifact("x\n// begin lints\nold\n// end lints\n", "new\n");
    let check = reconcile(&stale.text, &stale.start, &stale.end, &stale.block, Mode::Check);
    let write = reconcile(&stale.text, &stale.start, &stale.end, &stale.block, Mode::Write);
    assert!(matches!(check, Ok(Outcome::Drift)));
    assert!(matches!(write, Ok(Outcome::Written(_))));

    let fresh = artifact("x\n// begin lints\nnew\n// end lints\n", "new\n");
    let check = reconcile(&fresh.text, &fresh.start, &fresh.end, &fresh.block, Mode::Check);
    let write = reconcile(&fresh.text, &fresh.start, &fresh.end, &fresh.block, Mode::Write);
    assert!(matches!(check, Ok(Outcome::UpToDate)));
    assert!(matches!(write, Ok(Outcome::UpToDate)));
}

#[test]
fn missing_delimiter_does_not_stop_others() {
    let arts = vec![
        artifact("no markers here\n", "a\n"),
        artifact("// begin lints\nold\n// end lints\n", "a\n"),
        artifact("// begin lints\nno end marker\n", "a\n"),
    ];
    let out = synchronize(&arts, Mode::Write);
    assert_eq!(out.len(), 3);
    assert!(matches!(out[0], Err(ReconcileError::MissingDelimiter)));
    match &out[1] {
        Ok(Outcome::Written(t)) => assert_eq!(text(t), "// begin lints\na\n// end lints\n"),
        other => panic!("expected a write, got {:?}", other),
    }
    assert!(matches!(out[2], Err(ReconcileError::MissingDelimiter)));
    let checked = synchronize(&arts, Mode::Check);
    assert!(matches!(checked[1], Ok(Outcome::Drift)));
}

#[test]
fn text_outside_block_is_kept() {
    let a = artifact("// begin lints\n// begin lints\nz\n// end lints\n// end lints\n", "q\n");
    match reconcile(&a.text, &a.start, &a.end, &a.block, Mode::Write) {
        Ok(Outcome::Written(t)) => {
            assert_eq!(text(&t), "// begin lints\nq\n// end lints\n// end lints\n")
        },
        other => panic!("expected a write, got {:?}", other),
    }
}

#[test]
fn find_from_positions() {
    let t = chars("abcabc");
    assert_eq!(find_from(&t, &chars("bc"), 0), Some(1));
    assert_eq!(find_from(&t, &chars("bc"), 2), Some(4));
    assert_eq!(find_from(&t, &chars("bc"), 5), None);
    assert_eq!(find_from(&t, &chars("zz"), 0), None);
}

fn lines(s: &str) -> Vec<Vec<char>> {
    s.lines().map(chars).collect()
}

#[test]
fn scan_reads_declarations() {
    let src = lines(
        "use x;\n\
         declare_clippy_lint! {\n\
         \x20   /// Checks for needless returns.\n\
         \x20   ///\n\
         \x20   #[clippy::version = \"1.0.0\"]\n\
         \x20   pub NEEDLESS_RETURN,\n\
         \x20   style,\n\
         \x20   \"using a return statement\"\n\
         }\n\
         declare_clippy_lint! {\n\
         \x20   pub FOO_BAR,\n\
         \x20   complexity,\n\
         \x20   \"foo\"\n\
         }\n",
    );
    let recs = scan_file(&src, &"returns".to_string(), PassKind::Late).unwrap();
    assert_eq!(recs.len(), 2);
    assert_eq!(recs[0].identity, "needless_return");
    assert_eq!(recs[0].group, clippy_dev::lint::Group::Style);
    assert_eq!(recs[0].doc, "Checks for needless returns.");
    assert_eq!(recs[0].module, "returns");
    assert_eq!(recs[1].identity, "foo_bar");
    assert_eq!(recs[1].group, clippy_dev::lint::Group::Complexity);
    assert_eq!(recs[1].doc, "");
}

#[test]
fn scan_rejects_missing_group() {
    let src = lines("fn a() {}\ndeclare_clippy_lint! {\n    pub FOO,\n    shiny,\n    \"x\"\n}\n");
    assert!(matches!(
        scan_file(&src, &"m".to_string(), PassKind::Early),
        Err(ScanError::MalformedDeclaration { line: 1 })
    ));
    let src = lines("declare_clippy_lint! {\n    /// doc\n    style,\n    \"x\"\n}\n");
    assert!(matches!(
        scan_file(&src, &"m".to_string(), PassKind::Early),
        Err(ScanError::MalformedDeclaration { line: 0 })
    ));
}
