use cc_switch::profile::{
    before_record_action, collect_profile_names, current_label, format_profile_list,
    parse_before_record, parse_current_record, plan_profile_switch, position_of_name,
    profile_file_name, profile_name_from_file_name, resolve_current_index, BeforeRecordAction,
    ProfileNameError, SwitchPlan,
};
use cc_switch::{
    canonical_json_value, detect_current_profile_index, detect_current_profile_name,
    next_profile_index, validate_profile_name, JsonMember, JsonValue,
};

fn strings(items: &[&str]) -> Vec<String> {
    items.iter().map(|s| s.to_string()).collect()
}

fn num(text: &str) -> JsonValue {
    JsonValue::Number(text.to_string())
}

fn text(value: &str) -> JsonValue {
    JsonValue::Str(value.to_string())
}

fn object(members: Vec<(&str, JsonValue)>) -> JsonValue {
    JsonValue::Object(
        members
            .into_iter()
            .map(|(key, value)| JsonMember { key: key.to_string(), value })
            .collect(),
    )
}

fn canonical(value: &JsonValue) -> String {
    canonical_json_value(value).unwrap()
}

#[test]
fn next_profile_index_rotates_and_wraps() {
    assert_eq!(next_profile_index(None, 3), Some(0));
    assert_eq!(next_profile_index(Some(0), 3), Some(1));
    assert_eq!(next_profile_index(Some(2), 3), Some(0));
    assert_eq!(next_profile_index(Some(0), 1), Some(0));
    assert_eq!(next_profile_index(None, 0), None);
}

#[test]
fn next_profile_index_cycles_through_every_profile() {
    let mut current = Some(1);
    let mut seen = Vec::new();
    for _ in 0..4 {
        current = next_profile_index(current, 4);
        seen.push(current.unwrap());
    }
    assert_eq!(seen, vec![2, 3, 0, 1]);
}

#[test]
fn validate_profile_name_accepts_allowed_characters() {
    assert_eq!(validate_profile_name("deepseek"), Ok(()));
    assert_eq!(validate_profile_name("local-test_2.v1"), Ok(()));
}

#[test]
fn validate_profile_name_rejects_each_kind_of_bad_name() {
    assert_eq!(validate_profile_name(""), Err(ProfileNameError::Empty));
    assert_eq!(validate_profile_name(".hidden"), Err(ProfileNameError::LeadingDot));
    assert_eq!(validate_profile_name("a/b"), Err(ProfileNameError::InvalidCharacter));
    assert_eq!(validate_profile_name("naïve"), Err(ProfileNameError::InvalidCharacter));
    assert_eq!(validate_profile_name("has space"), Err(ProfileNameError::InvalidCharacter));
}

#[test]
fn collect_profiles_returns_sorted_names() {
    let files = strings(&["zeta.json", "alpha.json", "beta.json", "notes.txt"]);
    assert_eq!(collect_profile_names(&files), vec!["alpha", "beta", "zeta"]);
}

#[test]
fn profile_file_names_map_to_names_and_back() {
    assert_eq!(profile_file_name("official"), "official.json");
    assert_eq!(profile_name_from_file_name("official.json").as_deref(), Some("official"));
    assert_eq!(profile_name_from_file_name("a.b.json").as_deref(), Some("a.b"));
    assert_eq!(profile_name_from_file_name(".json"), None);
    assert_eq!(profile_name_from_file_name("settings.toml"), None);
}

#[test]
fn detect_current_profile_index_matches_canonical_json() {
    let official = object(vec![
        ("env", object(vec![("A", num("1")), ("B", num("2"))])),
        ("mcp", JsonValue::Array(vec![text("a"), text("b")])),
    ]);
    let other = object(vec![("env", object(vec![("A", num("3"))]))]);
    let target = object(vec![
        ("mcp", JsonValue::Array(vec![text("a"), text("b")])),
        ("env", object(vec![("B", num("2")), ("A", num("1"))])),
    ]);
    let candidates = vec![Some(canonical(&official)), Some(canonical(&other))];
    let target_text = canonical(&target);
    assert_eq!(detect_current_profile_index(Some(&target_text), &candidates), Some(0));
}

#[test]
fn detect_current_profile_index_without_target_or_match() {
    let candidates = vec![Some("{\"a\":1}".to_string()), None];
    assert_eq!(detect_current_profile_index(None, &candidates), None);
    let other = "{\"a\":2}".to_string();
    assert_eq!(detect_current_profile_index(Some(&other), &candidates), None);
}

#[test]
fn detect_current_profile_name_picks_first_match() {
    let names = strings(&["alpha", "beta", "gamma"]);
    let candidates = vec![
        Some("{\"n\":1}".to_string()),
        None,
        Some("{\"n\":2}".to_string()),
    ];
    let target = "{\"n\":2}".to_string();
    assert_eq!(
        detect_current_profile_name(&names, Some(&target), &candidates).as_deref(),
        Some("gamma")
    );
}

#[test]
fn current_record_is_preferred_over_content_detection() {
    let names = strings(&["alpha", "beta"]);
    let recorded = "beta".to_string();
    assert_eq!(resolve_current_index(&names, Some(&recorded), Some(0)), Some(1));
    let unknown = "missing".to_string();
    assert_eq!(resolve_current_index(&names, Some(&unknown), Some(0)), Some(0));
    assert_eq!(resolve_current_index(&names, None, None), None);
    assert_eq!(position_of_name(&names, "alpha"), Some(0));
}

#[test]
fn current_label_falls_back_to_unknown() {
    let names = strings(&["alpha"]);
    assert_eq!(current_label(&names, Some(0)), "alpha");
    assert_eq!(current_label(&names, None), "unknown");
}

#[test]
fn records_are_trimmed_and_checked() {
    assert_eq!(parse_current_record("  openai\n").as_deref(), Some("openai"));
    assert_eq!(parse_current_record(" \n\t"), None);
    assert_eq!(parse_before_record("alpha\n").as_deref(), Some("alpha"));
    assert_eq!(parse_before_record("../etc"), None);
    assert_eq!(parse_before_record(""), None);
}

#[test]
fn before_record_follows_the_switch() {
    let alpha = "alpha".to_string();
    assert_eq!(
        before_record_action(Some(&alpha), "beta"),
        BeforeRecordAction::Write("alpha".to_string())
    );
    assert_eq!(before_record_action(Some(&alpha), "alpha"), BeforeRecordAction::Keep);
    assert_eq!(before_record_action(None, "alpha"), BeforeRecordAction::Clear);
}

#[test]
fn before_records_toggle_between_two_profiles() {
    // alpha active, then switch to beta: before = alpha
    let alpha = "alpha".to_string();
    let beta = "beta".to_string();
    assert_eq!(
        before_record_action(Some(&alpha), "beta"),
        BeforeRecordAction::Write(alpha.clone())
    );
    // `before` goes back to alpha: before = beta
    assert_eq!(
        before_record_action(Some(&beta), "alpha"),
        BeforeRecordAction::Write(beta.clone())
    );
}

#[test]
fn switch_plan_depends_on_target_content() {
    let profile = "{\"a\":1}".to_string();
    let same = "{\"a\":1}".to_string();
    let other = "{\"a\":2}".to_string();
    assert_eq!(plan_profile_switch(None, &profile), SwitchPlan::CreateTarget);
    assert_eq!(plan_profile_switch(Some(&same), &profile), SwitchPlan::AlreadyActive);
    assert_eq!(plan_profile_switch(Some(&other), &profile), SwitchPlan::BackUpThenWrite);
}

#[test]
fn profile_list_marks_current() {
    let names = strings(&["alpha", "beta"]);
    let current = "beta".to_string();
    assert_eq!(format_profile_list(&names, Some(&current)), vec!["  alpha", "* beta"]);
    assert_eq!(format_profile_list(&names, None), vec!["  alpha", "  beta"]);
}

#[test]
fn settings_sync_back_only_when_texts_differ() {
    let a = "{\"a\":1}".to_string();
    let b = "{\"a\":2}".to_string();
    assert!(cc_switch::profile::settings_sync_back_pending(Some(&a), Some(&b)));
    assert!(!cc_switch::profile::settings_sync_back_pending(Some(&a), Some(&a)));
    assert!(!cc_switch::profile::settings_sync_back_pending(None, Some(&b)));
    assert!(!cc_switch::profile::settings_sync_back_pending(Some(&a), None));
}

#[test]
fn repeat_use_plans_no_write() {
    let text = "{\"a\":1}".to_string();
    assert_eq!(
        cc_switch::profile::plan_profile_switch(Some(&text), &text),
        cc_switch::profile::SwitchPlan::AlreadyActive
    );
}
