use cc_switch::doctor::{doctor_failure_message, doctor_report, DirState, ProfileJsonCheck, TargetState};

#[test]
fn healthy_state_reports_only_ok_lines() {
    let profiles = vec![ProfileJsonCheck { name: "official".to_string(), error: None }];
    let report = doctor_report(
        (DirState::Directory, DirState::Directory, DirState::Directory),
        DirState::Directory,
        &TargetState::ValidJson,
        &profiles,
    );
    assert_eq!(
        report.lines,
        vec![
            "[ok] config dir exists",
            "[ok] profiles dir exists",
            "[ok] backups dir exists",
            "[ok] target parent exists",
            "[ok] target settings file is valid JSON",
            "[ok] detected 1 profile(s)",
            "[ok] profile official is valid JSON",
        ]
    );
    assert!(report.issues.is_empty());
    assert_eq!(doctor_failure_message(&report.issues), None);
}

#[test]
fn problems_are_listed_in_check_order() {
    let profiles = vec![
        ProfileJsonCheck { name: "a".to_string(), error: Some("EOF while parsing".to_string()) },
        ProfileJsonCheck { name: "b".to_string(), error: None },
    ];
    let report = doctor_report(
        (DirState::Missing, DirState::NotDirectory, DirState::Directory),
        DirState::Missing,
        &TargetState::InvalidJson("expected value".to_string()),
        &profiles,
    );
    assert_eq!(
        report.lines,
        vec![
            "[warn] config dir does not exist yet",
            "[error] profiles dir is not a directory",
            "[ok] backups dir exists",
            "[warn] target parent does not exist",
            "[error] target settings file is invalid JSON: expected value",
            "[ok] detected 2 profile(s)",
            "[error] profile a is invalid JSON: EOF while parsing",
            "[ok] profile b is valid JSON",
        ]
    );
    assert_eq!(
        report.issues,
        vec![
            "profiles dir is not a directory",
            "target settings file is invalid JSON",
            "profile a is invalid JSON",
        ]
    );
    assert_eq!(
        doctor_failure_message(&report.issues).as_deref(),
        Some(
            "Doctor found issues:\n- profiles dir is not a directory\n- target settings file is invalid JSON\n- profile a is invalid JSON"
        )
    );
}

#[test]
fn target_path_that_is_not_a_file_is_a_problem() {
    let report = doctor_report(
        (DirState::Directory, DirState::Directory, DirState::Directory),
        DirState::NotDirectory,
        &TargetState::NotFile,
        &Vec::new(),
    );
    assert_eq!(
        report.issues,
        vec!["target parent is not a directory", "target settings path is not a file"]
    );
    assert_eq!(report.lines[5], "[ok] detected 0 profile(s)");
}
