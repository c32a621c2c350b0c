use clippy_dev::lint::{Group, LintRecord, PassKind, Status};
use clippy_dev::order::{module_list, render_modules, sort_by_identity, str_lt};
use clippy_dev::registry::Registry;
use clippy_dev::render::render_registration;

fn rec(name: &str, module: &str) -> LintRecord {
    LintRecord {
        identity: name.to_string(),
        group: Group::Style,
        pass: PassKind::Late,
        status: Status::Active,
        doc: String::new(),
        module: module.to_string(),
        msrv: None,
    }
}

#[test]
fn string_order() {
    assert!(str_lt(&"abc".to_string(), &"abd".to_string()));
    assert!(str_lt(&"ab".to_string(), &"abc".to_string()));
    assert!(!str_lt(&"abc".to_string(), &"ab".to_string()));
    assert!(!str_lt(&"same".to_string(), &"same".to_string()));
    assert!(str_lt(&"".to_string(), &"a".to_string()));
    assert!(str_lt(&"a_b".to_string(), &"ab".to_string()));
}

#[test]
fn records_sorted_by_identity() {
    let v = vec![rec("zeta", "m"), rec("alpha", "m"), rec("mu", "m"), rec("beta", "m")];
    let sorted = sort_by_identity(v);
    let names: Vec<&str> = sorted.iter().map(|r| r.identity.as_str()).collect();
    assert_eq!(names, vec!["alpha", "beta", "mu", "zeta"]);
    let reg = Registry::build(sorted, vec![]).unwrap();
    assert_eq!(
        render_registration(&reg, PassKind::Late).iter().collect::<String>(),
        "    style::alpha,\n    style::beta,\n    style::mu,\n    style::zeta,\n"
    );
}

#[test]
fn sort_keeps_every_record() {
    let v = vec![rec("b", "m1"), rec("a", "m2"), rec("b", "m3")];
    let sorted = sort_by_identity(v);
    assert_eq!(sorted.len(), 3);
    assert_eq!(sorted[0].identity, "a");
    assert_eq!(sorted[1].identity, "b");
    assert_eq!(sorted[2].identity, "b");
}

#[test]
fn modules_sorted_and_deduplicated() {
    let lints = vec![
        rec("a", "returns"),
        rec("b", "methods"),
        rec("c", "returns"),
        rec("d", "attrs"),
        rec("e", "methods"),
    ];
    let reg = Registry::build(lints, vec![]).unwrap();
    assert_eq!(
        module_list(&reg),
        vec!["attrs".to_string(), "methods".to_string(), "returns".to_string()]
    );
    assert_eq!(
        render_modules(&reg).iter().collect::<String>(),
        "pub mod attrs;\npub mod methods;\npub mod returns;\n"
    );
}

#[test]
fn modules_of_empty_registry() {
    let reg = Registry::build(vec![], vec![]).unwrap();
    assert!(module_list(&reg).is_empty());
    assert!(render_modules(&reg).is_empty());
}
