use clippy_dev::lint::{Group, LintRecord, PassKind, Status, UsageSite};
use clippy_dev::mutate::{create_lint, deprecate, rename, uplift, MutationError};
use clippy_dev::registry::{Registry, RegistryError};
use clippy_dev::render::{
    listed_ids, render_decimal, render_link_refs, render_listing, render_registration,
    render_summary, summary_count, Listing,
};

fn text(v: &[char]) -> String {
    v.iter().collect()
}

fn rec(name: &str, group: Group, pass: PassKind) -> LintRecord {
    LintRecord {
        identity: name.to_string(),
        group,
        pass,
        status: Status::Active,
        doc: String::new(),
        module: name.to_string(),
        msrv: None,
    }
}

fn usage(name: &str, line: usize) -> UsageSite {
    UsageSite { identity: name.to_string(), file: "src/lib.rs".to_string(), line }
}

fn two_lints() -> Registry {
    let lints = vec![
        rec("needless_return", Group::Style, PassKind::Late),
        rec("foo_bar", Group::Complexity, PassKind::Early),
    ];
    let usages = vec![usage("needless_return", 3), usage("foo_bar", 7)];
    Registry::build(lints, usages).unwrap()
}

fn ids(reg: &Registry) -> Vec<String> {
    reg.lints.iter().map(|l| l.identity.clone()).collect()
}

#[test]
fn summary_and_deprecate_scenario() {
    let mut reg = two_lints();
    assert_eq!(summary_count(&reg), 2);
    assert_eq!(text(&render_summary(&reg)), "2");
    deprecate(&mut reg, &"foo_bar".to_string(), Some("superseded".to_string())).unwrap();
    assert_eq!(summary_count(&reg), 1);
    assert_eq!(text(&render_summary(&reg)), "1");
    assert_eq!(listed_ids(&reg, Listing::Deprecated), vec!["foo_bar".to_string()]);
    assert!(listed_ids(&reg, Listing::Members(Group::Complexity)).is_empty());
    match &reg.lints[1].status {
        Status::Deprecated { reason } => assert_eq!(reason.as_deref(), Some("superseded")),
        _ => panic!("foo_bar should be deprecated"),
    }
}

#[test]
fn rename_scenario() {
    let mut reg = two_lints();
    let r = rename(&mut reg, &"needless_return".to_string(), &"needless_return_v2".to_string());
    assert!(r.is_ok());
    assert_eq!(ids(&reg), vec!["needless_return_v2".to_string(), "foo_bar".to_string()]);
    assert_eq!(reg.usages[0].identity, "needless_return_v2");
    assert_eq!(reg.usages[0].line, 3);
    assert_eq!(reg.usages[1].identity, "foo_bar");
    assert_eq!(
        listed_ids(&reg, Listing::Members(Group::Style)),
        vec!["needless_return_v2".to_string()]
    );

    let r = rename(&mut reg, &"needless_return_v2".to_string(), &"foo_bar".to_string());
    assert!(matches!(r, Err(MutationError::NameCollision)));
    assert_eq!(ids(&reg), vec!["needless_return_v2".to_string(), "foo_bar".to_string()]);
    assert_eq!(reg.usages[0].identity, "needless_return_v2");
}

#[test]
fn rename_onto_deprecated_name_collides() {
    let mut reg = two_lints();
    deprecate(&mut reg, &"foo_bar".to_string(), None).unwrap();
    let r = rename(&mut reg, &"needless_return".to_string(), &"foo_bar".to_string());
    assert!(matches!(r, Err(MutationError::NameCollision)));
}

#[test]
fn rename_errors() {
    let mut reg = two_lints();
    let r = rename(&mut reg, &"missing".to_string(), &"other".to_string());
    assert!(matches!(r, Err(MutationError::UnknownLint)));
    uplift(&mut reg, &"foo_bar".to_string()).unwrap();
    let r = rename(&mut reg, &"foo_bar".to_string(), &"other".to_string());
    assert!(matches!(r, Err(MutationError::NotActive)));
    let r = deprecate(&mut reg, &"foo_bar".to_string(), None);
    assert!(matches!(r, Err(MutationError::NotActive)));
    assert_eq!(listed_ids(&reg, Listing::Uplifted), vec!["foo_bar".to_string()]);
}

#[test]
fn rename_removes_old_name_everywhere() {
    let mut reg = two_lints();
    rename(&mut reg, &"foo_bar".to_string(), &"baz".to_string()).unwrap();
    let listings = [
        Listing::Members(Group::Complexity),
        Listing::Registered(PassKind::Early),
        Listing::Public,
    ];
    for l in listings {
        let names = listed_ids(&reg, l);
        assert!(!names.contains(&"foo_bar".to_string()));
        assert!(names.contains(&"baz".to_string()));
    }
    assert!(reg.usages.iter().all(|u| u.identity != "foo_bar"));
}

#[test]
fn deprecate_internal_lint_keeps_count() {
    let lints = vec![
        rec("a_lint", Group::Style, PassKind::Late),
        rec("b_lint", Group::Internal, PassKind::Late),
    ];
    let mut reg = Registry::build(lints, vec![]).unwrap();
    assert_eq!(summary_count(&reg), 1);
    deprecate(&mut reg, &"b_lint".to_string(), None).unwrap();
    assert_eq!(summary_count(&reg), 1);
    deprecate(&mut reg, &"a_lint".to_string(), None).unwrap();
    assert_eq!(summary_count(&reg), 0);
    assert_eq!(text(&render_summary(&reg)), "0");
}

#[test]
fn build_rejects_duplicates() {
    let lints = vec![
        rec("x", Group::Style, PassKind::Late),
        rec("y", Group::Perf, PassKind::Late),
        rec("x", Group::Perf, PassKind::Early),
    ];
    match Registry::build(lints, vec![]) {
        Err(RegistryError::DuplicateIdentity(id)) => assert_eq!(id, "x"),
        _ => panic!("expected a duplicate"),
    }
}

#[test]
fn build_rejects_dangling_usage() {
    let lints = vec![rec("x", Group::Style, PassKind::Late)];
    match Registry::build(lints, vec![usage("x", 1), usage("nope", 2)]) {
        Err(RegistryError::DanglingUsage(id)) => assert_eq!(id, "nope"),
        _ => panic!("expected a dangling usage"),
    }
}

#[test]
fn registration_table_text() {
    let lints = vec![
        rec("alpha", Group::Style, PassKind::Late),
        rec("beta", Group::Internal, PassKind::Late),
        rec("gamma", Group::Perf, PassKind::Early),
        rec("delta", Group::Pedantic, PassKind::Late),
    ];
    let reg = Registry::build(lints, vec![]).unwrap();
    assert_eq!(
        text(&render_registration(&reg, PassKind::Late)),
        "    style::alpha,\n    pedantic::delta,\n"
    );
    assert_eq!(text(&render_registration(&reg, PassKind::Early)), "    perf::gamma,\n");
}

#[test]
fn group_list_text() {
    let lints = vec![
        rec("alpha", Group::Style, PassKind::Late),
        rec("gamma", Group::Perf, PassKind::Early),
        rec("delta", Group::Style, PassKind::Late),
    ];
    let reg = Registry::build(lints, vec![]).unwrap();
    assert_eq!(
        text(&render_listing(&reg, Listing::Members(Group::Style), "    LintId::of(", "),\n")),
        "    LintId::of(alpha),\n    LintId::of(delta),\n"
    );
}

#[test]
fn link_refs_text() {
    let reg = two_lints();
    assert_eq!(
        text(&render_link_refs(&reg, "https://example.org/#")),
        "[needless_return]: https://example.org/#needless_return\n[foo_bar]: https://example.org/#foo_bar\n"
    );
}

#[test]
fn decimal_text() {
    assert_eq!(text(&render_decimal(0)), "0");
    assert_eq!(text(&render_decimal(7)), "7");
    assert_eq!(text(&render_decimal(1234)), "1234");
    assert_eq!(text(&render_decimal(600)), "600");
}

#[test]
fn create_lint_adds_record() {
    let mut reg = two_lints();
    let r = create_lint(
        &mut reg,
        &"new_one".to_string(),
        Group::Nursery,
        PassKind::Early,
        &"misc".to_string(),
        Some("1.70".to_string()),
    );
    assert!(r.is_ok());
    assert_eq!(reg.lints.len(), 3);
    assert_eq!(reg.lints[2].identity, "new_one");
    assert_eq!(reg.lints[2].module, "misc");
    assert_eq!(listed_ids(&reg, Listing::Members(Group::Nursery)), vec!["new_one".to_string()]);
    let r = create_lint(&mut reg, &"foo_bar".to_string(), Group::Style, PassKind::Late, &"m".to_string(), None);
    assert!(matches!(r, Err(MutationError::NameCollision)));
    assert_eq!(reg.lints.len(), 3);
}
