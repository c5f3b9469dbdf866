//! The two orchestrations, driven step by step as the surrounding program
//! would drive them.

use ssh_keys::errors::ErrorKind;
use ssh_keys::get_flow::{get_step, DirStatus, GetAction, GetEvent, GetState};
use ssh_keys::put_flow::{put_step, PutAction, PutEvent, PutState};
use ssh_keys::scan::RawEntry;

fn file_entry(name: &str, content: &str) -> RawEntry {
    RawEntry {
        is_file: true,
        name: Some(name.to_string()),
        content: Some(content.to_string()),
        display: format!("src/{}", name),
    }
}

#[test]
fn get_rejects_nonempty_directory_and_stops() {
    let (s, a) = get_step(
        GetState::AwaitDir,
        GetEvent::DirStatus { status: DirStatus::NonEmptyDir },
    );
    match a {
        GetAction::Fail { error } => {
            assert_eq!(error.kind(), ErrorKind::Validation);
            assert_eq!(
                error.message(),
                "the output directory is not an empty directory"
            );
        },
        _ => panic!("expected a failure action"),
    }
    // nothing further happens: no fetch, no files
    let (s, a) = get_step(s, GetEvent::Fetched { result: Ok(Some("{}".to_string())) });
    assert!(matches!(a, GetAction::Halt));
    let (_, a) = get_step(s, GetEvent::FileWritten { result: Ok(()) });
    assert!(matches!(a, GetAction::Halt));
}

#[test]
fn get_rejects_non_directory() {
    let (_, a) = get_step(
        GetState::AwaitDir,
        GetEvent::DirStatus { status: DirStatus::NotADir },
    );
    match a {
        GetAction::Fail { error } => assert_eq!(error.kind(), ErrorKind::Validation),
        _ => panic!("expected a failure action"),
    }
}

#[test]
fn get_creates_missing_directory_then_fetches() {
    let (s, a) = get_step(
        GetState::AwaitDir,
        GetEvent::DirStatus { status: DirStatus::Missing },
    );
    assert!(matches!(a, GetAction::CreateDir));
    let (_, a) = get_step(s, GetEvent::DirCreated { result: Ok(()) });
    assert!(matches!(a, GetAction::Fetch));
}

#[test]
fn get_materializes_fetched_payload_in_order() {
    let (s, a) = get_step(
        GetState::AwaitDir,
        GetEvent::DirStatus { status: DirStatus::EmptyDir },
    );
    assert!(matches!(a, GetAction::Fetch));
    let payload = "{\"id_rsa\": \"A\", \"id_rsa.pub\": \"B\"}".to_string();
    let (s, a) = get_step(s, GetEvent::Fetched { result: Ok(Some(payload)) });
    match &a {
        GetAction::CreateFile { plan } => {
            assert_eq!(plan.name, "id_rsa");
            assert_eq!(plan.mode, 0o400);
            assert_eq!(plan.content, "A");
        },
        _ => panic!("expected the first file"),
    }
    let (s, a) = get_step(s, GetEvent::FileWritten { result: Ok(()) });
    match &a {
        GetAction::CreateFile { plan } => {
            assert_eq!(plan.name, "id_rsa.pub");
            assert_eq!(plan.mode, 0o444);
            assert_eq!(plan.content, "B");
        },
        _ => panic!("expected the second file"),
    }
    let (_, a) = get_step(s, GetEvent::FileWritten { result: Ok(()) });
    assert!(matches!(a, GetAction::Finish));
}

#[test]
fn get_fails_on_missing_secret_content() {
    let (s, _) = get_step(
        GetState::AwaitDir,
        GetEvent::DirStatus { status: DirStatus::EmptyDir },
    );
    let (_, a) = get_step(s, GetEvent::Fetched { result: Ok(None) });
    match a {
        GetAction::Fail { error } => {
            assert_eq!(error.kind(), ErrorKind::Store);
            assert_eq!(error.message(), "the secret has no content");
        },
        _ => panic!("expected a failure action"),
    }
}

#[test]
fn get_fails_on_malformed_payload() {
    let (s, _) = get_step(
        GetState::AwaitDir,
        GetEvent::DirStatus { status: DirStatus::EmptyDir },
    );
    let (_, a) = get_step(s, GetEvent::Fetched { result: Ok(Some("not an object".to_string())) });
    match a {
        GetAction::Fail { error } => assert_eq!(error.kind(), ErrorKind::Decode),
        _ => panic!("expected a failure action"),
    }
}

#[test]
fn put_reprompts_then_proceeds_on_affirmation() {
    let entries = vec![file_entry("id_rsa", "A"), file_entry("id_rsa.pub", "B")];
    let (s, a) = put_step(PutState::AwaitScan, PutEvent::Scanned { result: Ok(entries) });
    match &a {
        PutAction::Prompt { names } => assert_eq!(names, &vec!["id_rsa", "id_rsa.pub"]),
        _ => panic!("expected the prompt"),
    }
    let (s, a) = put_step(s, PutEvent::Line { input: "maybe".to_string() });
    assert!(matches!(a, PutAction::Reprompt));
    let (s, a) = put_step(s, PutEvent::Line { input: "YES".to_string() });
    match &a {
        PutAction::Replace { payload, token } => {
            assert_eq!(payload, "{\n  \"id_rsa\": \"A\",\n  \"id_rsa.pub\": \"B\"\n}");
            assert_eq!(token.len(), 36);
        },
        _ => panic!("expected the remote write"),
    }
    let (_, a) = put_step(
        s,
        PutEvent::Replaced { result: Ok(Some("version-7".to_string())) },
    );
    match a {
        PutAction::ReportVersion { version } => assert_eq!(version, "version-7"),
        _ => panic!("expected the version report"),
    }
}

#[test]
fn put_decline_cancels_without_any_remote_write() {
    let entries = vec![file_entry("id_rsa", "A")];
    let (s, _) = put_step(PutState::AwaitScan, PutEvent::Scanned { result: Ok(entries) });
    let (s, a) = put_step(s, PutEvent::Line { input: "no".to_string() });
    assert!(matches!(a, PutAction::Cancel));
    // the machine stays stopped, whatever else is reported
    let (_, a) = put_step(s, PutEvent::Replaced { result: Ok(None) });
    assert!(matches!(a, PutAction::Halt));
}

#[test]
fn put_fails_before_prompting_on_bad_file_name() {
    let entries = vec![
        file_entry("ok", "fine"),
        RawEntry {
            is_file: true,
            name: None,
            content: Some("x".to_string()),
            display: "src/<bad>".to_string(),
        },
    ];
    let (s, a) = put_step(PutState::AwaitScan, PutEvent::Scanned { result: Ok(entries) });
    match a {
        PutAction::Fail { error } => {
            assert_eq!(error.kind(), ErrorKind::Encoding);
            assert_eq!(error.message(), "invalid text in file name: src/<bad>");
        },
        _ => panic!("expected a failure action"),
    }
    let (_, a) = put_step(s, PutEvent::Line { input: "yes".to_string() });
    assert!(matches!(a, PutAction::Halt));
}

#[test]
fn put_propagates_store_failure() {
    let entries = vec![file_entry("id_rsa", "A")];
    let (s, _) = put_step(PutState::AwaitScan, PutEvent::Scanned { result: Ok(entries) });
    let (s, _) = put_step(s, PutEvent::Line { input: "y".to_string() });
    let (_, a) = put_step(
        s,
        PutEvent::Replaced { result: Err("access denied".to_string()) },
    );
    match a {
        PutAction::Fail { error } => {
            assert_eq!(error.kind(), ErrorKind::Store);
            assert_eq!(error.message(), "access denied");
        },
        _ => panic!("expected a failure action"),
    }
}

#[test]
fn put_reports_success_without_version() {
    let entries = vec![file_entry("id_rsa", "A")];
    let (s, _) = put_step(PutState::AwaitScan, PutEvent::Scanned { result: Ok(entries) });
    let (s, _) = put_step(s, PutEvent::Line { input: "y".to_string() });
    let (_, a) = put_step(s, PutEvent::Replaced { result: Ok(None) });
    assert!(matches!(a, PutAction::Finish));
}

#[test]
fn get_empty_payload_finishes_without_files() {
    let (s, _) = get_step(
        GetState::AwaitDir,
        GetEvent::DirStatus { status: DirStatus::EmptyDir },
    );
    let (_, a) = get_step(s, GetEvent::Fetched { result: Ok(Some("{}".to_string())) });
    assert!(matches!(a, GetAction::Finish));
}

#[test]
fn put_rejects_source_that_is_not_a_directory() {
    let (s, a) = put_step(
        PutState::AwaitScan,
        PutEvent::Scanned { result: Err("src/keys".to_string()) },
    );
    match a {
        PutAction::Fail { error } => {
            assert_eq!(error.kind(), ErrorKind::Validation);
            assert_eq!(
                error.message(),
                "the input directory is not a directory: src/keys"
            );
        },
        _ => panic!("expected a failure action"),
    }
    let (_, a) = put_step(s, PutEvent::Line { input: "yes".to_string() });
    assert!(matches!(a, PutAction::Halt));
}
