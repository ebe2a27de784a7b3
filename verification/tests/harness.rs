//! Where the client is looked for and what the harness can do.

use std::path::{Path, PathBuf};
use std::time::Duration;

use aside::harness::{search_plan, start_error, AsideHarness, SearchPlan};
use aside::protocol::{HarnessError, HarnessId, ReasoningLevel, SteeringMode};

#[test]
fn harness_reports_what_it_can_do() {
    let harness = AsideHarness::new();
    assert_eq!(harness.id(), HarnessId::Aside);
    assert_eq!(harness.display_name(), "Aside");
    assert!(harness.supports_steering());
    assert_eq!(harness.steering_mode(), SteeringMode::StepBoundary);
    assert!(harness.deterministic_turn_end());
    assert_eq!(
        harness.reasoning_levels(),
        vec![
            ReasoningLevel::Off,
            ReasoningLevel::Minimal,
            ReasoningLevel::Low,
            ReasoningLevel::Medium,
            ReasoningLevel::High,
            ReasoningLevel::XHigh,
            ReasoningLevel::Max,
        ]
    );
}

#[test]
fn graces_default_to_two_and_three_seconds() {
    for harness in [AsideHarness::new(), AsideHarness::default()] {
        assert_eq!(harness.executable(), None);
        assert_eq!(harness.interrupt_grace(), Duration::from_millis(2000));
        assert_eq!(harness.kill_grace(), Duration::from_millis(3000));
    }
}

#[test]
fn executable_and_graces_are_set_apart() {
    let harness = AsideHarness::new()
        .with_executable("/opt/aside")
        .with_graces(Duration::from_millis(50), Duration::from_millis(60));
    assert_eq!(harness.executable(), Some(&PathBuf::from("/opt/aside")));
    assert_eq!(harness.interrupt_grace(), Duration::from_millis(50));
    assert_eq!(harness.kill_grace(), Duration::from_millis(60));
    let other = harness.with_executable(PathBuf::from("/other"));
    assert_eq!(other.executable(), Some(&PathBuf::from("/other")));
    assert_eq!(other.interrupt_grace(), Duration::from_millis(50));
}

#[test]
fn override_is_the_only_place_to_look_unless_it_is_empty() {
    let home = Path::new("/home/someone");
    assert_eq!(
        search_plan(Some(PathBuf::from("/x/aside")), Some(home)),
        SearchPlan::Override(PathBuf::from("/x/aside"))
    );
    assert_eq!(search_plan(Some(PathBuf::new()), Some(home)), search_plan(None, Some(home)));
}

#[test]
fn search_goes_on_below_home_and_among_the_applications() {
    assert_eq!(
        search_plan(None, Some(Path::new("/home/someone"))),
        SearchPlan::Paths(vec![
            PathBuf::from("/home/someone/.local/bin/aside"),
            PathBuf::from("/home/someone/.aside/cli/Aside CLI.app/Contents/MacOS/aside"),
            PathBuf::from("/Applications/Aside.app/Contents/MacOS/Aside"),
        ])
    );
    assert_eq!(
        search_plan(None, None),
        SearchPlan::Paths(vec![PathBuf::from("/Applications/Aside.app/Contents/MacOS/Aside")])
    );
}

#[test]
fn failed_search_says_where_it_looked() {
    let missing = HarnessError::NotInstalled("x".into());
    match AsideHarness::new().resolve_executable(Err(missing)) {
        Err(HarnessError::NotInstalled(message)) => assert_eq!(
            message,
            "aside (searched ASIDE_EXECUTABLE, PATH, the login shell's PATH, ~/.local/bin/aside, ~/.aside/cli/Aside CLI.app, and /Applications/Aside.app; set ASIDE_EXECUTABLE to override)"
        ),
        other => panic!("{other:?}"),
    }
}

#[test]
fn what_is_wrong_with_a_fixed_client_is_passed_on() {
    let fixed = AsideHarness::new().with_executable("/nowhere");
    assert_eq!(
        fixed.resolve_executable(Err(HarnessError::Protocol("bad".into()))),
        Err(HarnessError::Protocol("bad".into()))
    );
    assert_eq!(fixed.resolve_executable(Ok(PathBuf::from("/a"))), Ok(PathBuf::from("/a")));
    assert_eq!(
        AsideHarness::new().resolve_executable(Ok(PathBuf::from("/b"))),
        Ok(PathBuf::from("/b"))
    );
}

#[test]
fn missing_clients_are_not_installed() {
    assert_eq!(
        start_error(true, "/a".into(), "gone".into()),
        HarnessError::NotInstalled("/a".into())
    );
    assert_eq!(
        start_error(false, "/a".into(), "denied".into()),
        HarnessError::Io("denied".into())
    );
}

#[test]
fn executable_and_graces_are_set_in_any_order() {
    let (a, b) = (Duration::from_millis(1), Duration::from_millis(2));
    let one = AsideHarness::new().with_executable("/x").with_graces(a, b);
    let two = AsideHarness::new().with_graces(a, b).with_executable("/x");
    for harness in [one, two] {
        assert_eq!(harness.executable(), Some(&PathBuf::from("/x")));
        assert_eq!(harness.interrupt_grace(), a);
        assert_eq!(harness.kill_grace(), b);
    }
}

#[test]
fn fixed_client_is_the_only_place_to_look() {
    let home = Path::new("/home/someone");
    let fixed = AsideHarness::new().with_executable("/opt/aside");
    for chosen in [None, Some(PathBuf::new()), Some(PathBuf::from("/x/aside"))] {
        assert_eq!(
            fixed.client_plan(chosen.clone(), Some(home)),
            SearchPlan::Override(PathBuf::from("/opt/aside"))
        );
        assert_eq!(
            AsideHarness::new().client_plan(chosen.clone(), Some(home)),
            search_plan(chosen, Some(home))
        );
    }
    assert_eq!(fixed.executable(), Some(&PathBuf::from("/opt/aside")));
}
