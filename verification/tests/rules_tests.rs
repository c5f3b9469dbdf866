//! The bundle, the materializer's permission policy, the scanner's rule and
//! the confirmation gate, exercised from outside.

use ssh_keys::bundle::Bundle;
use ssh_keys::confirm::{classify_answer, Answer};
use ssh_keys::errors::ErrorKind;
use ssh_keys::materialize::{materialize_plan, mode_for};
use ssh_keys::scan::{scan_entries, RawEntry};

#[test]
fn bundle_keeps_names_sorted_and_unique() {
    let mut b = Bundle::new();
    b.insert("b".to_string(), "2".to_string());
    b.insert("a".to_string(), "1".to_string());
    b.insert("c".to_string(), "3".to_string());
    b.insert("b".to_string(), "rewritten".to_string());
    let names: Vec<String> = b.names();
    assert_eq!(names, vec!["a", "b", "c"]);
    assert_eq!(b.get("b").unwrap(), "rewritten");
    assert_eq!(b.len(), 3);
    assert!(b.get("missing").is_none());
}

#[test]
fn mode_policy_by_name() {
    assert_eq!(mode_for("id_rsa"), 0o400);
    assert_eq!(mode_for("id_rsa.pub"), 0o444);
    assert_eq!(mode_for("key.public"), 0o444);
    assert_eq!(mode_for("pub"), 0o400);
    assert_eq!(mode_for("x.pubx"), 0o400);
    assert_eq!(mode_for(".pub"), 0o444);
}

#[test]
fn materialize_plan_applies_modes_and_contents() {
    let mut b = Bundle::new();
    b.insert("id_rsa.pub".to_string(), "B".to_string());
    b.insert("id_rsa".to_string(), "A".to_string());
    let plan = materialize_plan(&b);
    assert_eq!(plan.len(), 2);
    assert_eq!(plan[0].name, "id_rsa");
    assert_eq!(plan[0].mode, 0o400);
    assert_eq!(plan[0].content, "A");
    assert_eq!(plan[1].name, "id_rsa.pub");
    assert_eq!(plan[1].mode, 0o444);
    assert_eq!(plan[1].content, "B");
}

fn file_entry(name: &str, content: &str) -> RawEntry {
    RawEntry {
        is_file: true,
        name: Some(name.to_string()),
        content: Some(content.to_string()),
        display: format!("src/{}", name),
    }
}

#[test]
fn scan_skips_directories_and_other_entries() {
    let entries = vec![
        RawEntry {
            is_file: false,
            name: Some("subdir".to_string()),
            content: None,
            display: "src/subdir".to_string(),
        },
        file_entry("id_rsa", "A"),
    ];
    let b = scan_entries(entries).unwrap();
    assert_eq!(b.len(), 1);
    assert_eq!(b.get("id_rsa").unwrap(), "A");
}

#[test]
fn scan_fails_on_unreadable_file_name() {
    let entries = vec![
        file_entry("ok", "fine"),
        RawEntry {
            is_file: true,
            name: None,
            content: Some("x".to_string()),
            display: "src/<bad>".to_string(),
        },
    ];
    let e = scan_entries(entries).unwrap_err();
    assert_eq!(e.kind(), ErrorKind::Encoding);
    assert_eq!(e.message(), "invalid text in file name: src/<bad>");
}

#[test]
fn scan_fails_on_unreadable_file_content() {
    let entries = vec![RawEntry {
        is_file: true,
        name: Some("key".to_string()),
        content: None,
        display: "src/key".to_string(),
    }];
    let e = scan_entries(entries).unwrap_err();
    assert_eq!(e.kind(), ErrorKind::Encoding);
    assert_eq!(e.message(), "invalid text in file content: src/key");
}

#[test]
fn gate_reads_answers_case_insensitively() {
    assert_eq!(classify_answer("yes"), Answer::Affirm);
    assert_eq!(classify_answer("YES\n"), Answer::Affirm);
    assert_eq!(classify_answer("  y \t"), Answer::Affirm);
    assert_eq!(classify_answer("Yes"), Answer::Affirm);
    assert_eq!(classify_answer("no"), Answer::Deny);
    assert_eq!(classify_answer("N\n"), Answer::Deny);
    assert_eq!(classify_answer("No"), Answer::Deny);
    assert_eq!(classify_answer("maybe"), Answer::Reprompt);
    assert_eq!(classify_answer(""), Answer::Reprompt);
    assert_eq!(classify_answer("\n"), Answer::Reprompt);
    assert_eq!(classify_answer("yess"), Answer::Reprompt);
    assert_eq!(classify_answer("y e s"), Answer::Reprompt);
}
