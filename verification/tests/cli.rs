use autoloop_core::cli::{
    anchors_from_text, compose_anchor_request, parse_degrade_profile, parse_refresh_plan_mode, DegradeProfileKind,
    RefreshPlanMode,
};

#[test]
fn anchor_request_lists_the_given_details() {
    assert_eq!(compose_anchor_request("rates", None, None, None, None), "Focus anchor: rates");
    assert_eq!(
        compose_anchor_request("rates", Some("2024"), None, Some("ecb"), Some("daily")),
        "Focus anchor: rates\nTime range: 2024\nCore source preference: ecb\nUpdate cycle: daily"
    );
}

#[test]
fn anchor_lists_skip_blanks_and_comments() {
    let raw = "  beta \n# comment\n\nalpha\r\nbeta\n  #also comment";
    assert_eq!(anchors_from_text(raw), vec!["alpha".to_string(), "beta".to_string()]);
    assert!(anchors_from_text("").is_empty());
}

#[test]
fn modes_and_profiles_read_in_any_case() {
    assert_eq!(parse_refresh_plan_mode(None), RefreshPlanMode::Detect);
    assert_eq!(parse_refresh_plan_mode(Some("DRY-RUN")), RefreshPlanMode::DryRun);
    assert_eq!(parse_refresh_plan_mode(Some("Page")), RefreshPlanMode::Page);
    assert_eq!(parse_refresh_plan_mode(Some("whatever")), RefreshPlanMode::Detect);
    assert_eq!(parse_degrade_profile("Read-Only"), DegradeProfileKind::ReadOnly);
    assert_eq!(parse_degrade_profile("provider_fallback"), DegradeProfileKind::ProviderFallback);
    assert_eq!(parse_degrade_profile("normal"), DegradeProfileKind::Normal);
    assert_eq!(parse_degrade_profile("??"), DegradeProfileKind::ManualTakeover);
}
