//! The command lines that run requests ask for.

use aside::args::{option_string, reasoning_flag};
use aside::harness::AsideHarness;
use aside::json::Json;
use aside::protocol::{ReasoningLevel, RunRequest};

fn request(model: Option<&str>) -> RunRequest {
    RunRequest {
        prompt: "p".into(),
        model: model.map(|model| model.into()),
        reasoning: None,
        model_options: vec![],
        cwd: String::new(),
        resume: None,
    }
}

fn set(request: &mut RunRequest, id: &str, value: &str) {
    request.model_options.push((id.into(), Json::Text(value.into())));
}

#[test]
fn reasoning_and_explicit_options_map_to_documented_flags() {
    let mut request = request(Some("fast"));
    request.reasoning = Some(ReasoningLevel::High);
    set(&mut request, "permission", "full-access");
    set(&mut request, "provider", "openai");
    set(&mut request, "host", "local");
    assert_eq!(
        AsideHarness::global_args(&request),
        vec![
            "--speed",
            "fast",
            "--effort",
            "high",
            "--permission",
            "full-access",
            "--provider",
            "openai",
            "--host",
            "local"
        ]
    );
}

#[test]
fn slash_model_uses_short_flag_and_suppresses_provider() {
    let mut request = request(Some("fake-beta/fake-beta-model-1"));
    set(&mut request, "provider", "fake-beta");
    set(&mut request, "host", "local");
    assert_eq!(
        AsideHarness::global_args(&request),
        vec!["-m", "fake-beta/fake-beta-model-1", "--host", "local"]
    );
}

#[test]
fn account_option_validates_membership_only_when_discovery_succeeded() {
    let mut request = request(Some("default"));
    set(&mut request, "account", "u0");
    assert!(AsideHarness::global_args(&request).contains(&"--account".to_owned()));
    assert!(AsideHarness::global_args_with_accounts(
        &request,
        Some(&["u0".to_owned(), "u2".to_owned()])
    )
    .contains(&"u0".to_owned()));
    let filtered = AsideHarness::global_args_with_accounts(&request, Some(&["u2".to_owned()]));
    assert!(!filtered.contains(&"--account".to_owned()));
    assert!(!filtered.contains(&"u0".to_owned()));
    let empty = AsideHarness::global_args_with_accounts(&request, Some(&[] as &[String]));
    assert!(!empty.contains(&"--account".to_owned()));
}

#[test]
fn plain_requests_have_no_flags() {
    assert!(AsideHarness::global_args(&request(None)).is_empty());
    assert!(AsideHarness::global_args(&request(Some("default"))).is_empty());
    assert!(AsideHarness::global_args(&request(Some(""))).is_empty());
}

#[test]
fn other_models_use_the_long_flag() {
    assert_eq!(AsideHarness::global_args(&request(Some("gpt"))), vec!["--model", "gpt"]);
}

#[test]
fn fast_speed_overrides_the_model() {
    let mut fast = request(Some("p/m"));
    set(&mut fast, "speed", "fast");
    set(&mut fast, "provider", "p");
    assert_eq!(AsideHarness::global_args(&fast), vec!["--speed", "fast"]);
    let mut slow = request(Some("p/m"));
    set(&mut slow, "speed", "slow");
    assert_eq!(AsideHarness::global_args(&slow), vec!["-m", "p/m"]);
}

#[test]
fn picked_effort_wins_over_the_reasoning_level() {
    let mut picked = request(None);
    picked.reasoning = Some(ReasoningLevel::Low);
    set(&mut picked, "effort", "ultrabrowse");
    assert_eq!(AsideHarness::global_args(&picked), vec!["--effort", "ultrabrowse"]);
    let mut default = request(None);
    default.reasoning = Some(ReasoningLevel::Low);
    set(&mut default, "effort", "default");
    assert!(AsideHarness::global_args(&default).is_empty());
    default.reasoning = None;
    assert!(AsideHarness::global_args(&default).is_empty());
    let mut level = request(None);
    level.reasoning = Some(ReasoningLevel::Low);
    assert_eq!(AsideHarness::global_args(&level), vec!["--effort", "low"]);
}

#[test]
fn empty_options_are_left_out() {
    let mut empty = request(None);
    for id in ["effort", "permission", "provider", "host", "account"] {
        set(&mut empty, id, "");
    }
    assert!(AsideHarness::global_args(&empty).is_empty());
}

#[test]
fn first_entry_of_an_option_counts() {
    let mut twice = request(None);
    set(&mut twice, "host", "a");
    set(&mut twice, "host", "b");
    assert_eq!(AsideHarness::global_args(&twice), vec!["--host", "a"]);
}

#[test]
fn all_flags_come_in_order() {
    let mut all = request(Some("m"));
    for id in ["account", "host", "provider", "permission", "effort"] {
        set(&mut all, id, id);
    }
    assert_eq!(
        AsideHarness::global_args(&all),
        vec![
            "--model",
            "m",
            "--effort",
            "effort",
            "--permission",
            "permission",
            "--provider",
            "provider",
            "--host",
            "host",
            "--account",
            "account",
        ]
    );
}

#[test]
fn options_are_texts_or_switches() {
    assert_eq!(option_string(&Json::Text("x".into())), Some("x"));
    assert_eq!(option_string(&Json::Bool(true)), Some("true"));
    assert_eq!(option_string(&Json::Bool(false)), Some("false"));
    assert_eq!(option_string(&Json::Number("1".into())), None);
    assert_eq!(option_string(&Json::Null), None);
    assert_eq!(option_string(&Json::Array(vec![])), None);
    let mut switched = request(None);
    switched.model_options.push(("host".into(), Json::Bool(true)));
    assert_eq!(AsideHarness::global_args(&switched), vec!["--host", "true"]);
}

#[test]
fn reasoning_levels_have_flag_values() {
    let expected = [
        (ReasoningLevel::Off, None),
        (ReasoningLevel::Minimal, Some("minimal")),
        (ReasoningLevel::Low, Some("low")),
        (ReasoningLevel::Medium, Some("medium")),
        (ReasoningLevel::High, Some("high")),
        (ReasoningLevel::XHigh, Some("xhigh")),
        (ReasoningLevel::Max, Some("max")),
        (ReasoningLevel::Ultrathink, None),
        (ReasoningLevel::Ultracode, Some("xhigh")),
        (ReasoningLevel::Ultra, Some("max")),
    ];
    for (level, value) in expected {
        assert_eq!(reasoning_flag(level), value);
    }
}

#[test]
fn commands_follow_the_flags() {
    let mut happy = request(Some("fast"));
    happy.reasoning = Some(ReasoningLevel::High);
    set(&mut happy, "permission", "full-access");
    set(&mut happy, "provider", "openai");
    set(&mut happy, "host", "local");
    assert_eq!(
        AsideHarness::mcp_args(&happy, Some(&[])).join(" "),
        "--speed fast --effort high --permission full-access --provider openai --host local mcp"
    );
    let fast = request(Some("fast"));
    assert_eq!(AsideHarness::mcp_args(&fast, None).join(" "), "--speed fast mcp");
    assert_eq!(
        AsideHarness::session_command_args(
            &fast,
            None,
            "steer",
            "ses-live",
            Some("change direction")
        ),
        vec!["--speed", "fast", "session", "steer", "ses-live", "change direction"]
    );
    assert_eq!(
        AsideHarness::session_command_args(&fast, None, "stop", "ses-live", None),
        vec!["--speed", "fast", "session", "stop", "ses-live"]
    );
}

#[test]
fn default_effort_leaves_the_effort_to_the_client() {
    let mut default = request(Some("default"));
    default.reasoning = Some(ReasoningLevel::High);
    set(&mut default, "effort", "default");
    assert!(AsideHarness::global_args_with_accounts(&default, None).is_empty());
}

#[test]
fn resumed_turns_pass_only_the_account() {
    let mut resumed = request(Some("fake-beta/m"));
    resumed.resume = Some("ses-happy".into());
    resumed.reasoning = Some(ReasoningLevel::High);
    for id in ["effort", "permission", "provider", "host", "speed"] {
        set(&mut resumed, id, "high");
    }
    assert_eq!(AsideHarness::mcp_args(&resumed, None), vec!["mcp"]);
    set(&mut resumed, "account", "u0");
    assert_eq!(AsideHarness::mcp_args(&resumed, None), vec!["--account", "u0", "mcp"]);
    let known = ["u0".to_owned()];
    assert_eq!(AsideHarness::mcp_args(&resumed, Some(&known)), vec!["--account", "u0", "mcp"]);
    let others = ["u1".to_owned()];
    assert_eq!(AsideHarness::mcp_args(&resumed, Some(&others)), vec!["mcp"]);
    resumed.resume = None;
    assert_eq!(
        AsideHarness::mcp_args(&resumed, Some(&others)).join(" "),
        "-m fake-beta/m --effort high --permission high --host high mcp"
    );
}

#[test]
fn working_directory_is_that_of_the_host_if_it_is_empty() {
    let mut there = request(None);
    assert_eq!(AsideHarness::working_directory(&there), None);
    there.cwd = "/work".into();
    assert_eq!(AsideHarness::working_directory(&there), Some("/work"));
}

#[test]
fn requests_can_be_copied() {
    let mut one = request(Some("m"));
    one.resume = Some("ses".into());
    set(&mut one, "host", "local");
    assert_eq!(one.clone(), one);
}
