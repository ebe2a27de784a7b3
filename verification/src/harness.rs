//! The Aside harness: where its client is found and what it can do.

use crate::models::{full_reasoning_ladder, ladder};
use crate::paths::{
    is_empty_path, join_all, joined_all, path_buf_bytes, path_bytes, path_from,
};
use crate::protocol::{HarnessError, HarnessId, ReasoningLevel, SteeringMode};
use std::path::{Path, PathBuf};
use std::time::Duration;
use vstd::prelude::*;
use vstd::utf8::encode_utf8;

verus! {

/// How long a duration is, in nanoseconds.
pub uninterp spec fn duration_nanos(duration: Duration) -> nat;

/// `Duration::from_secs`. Claimed: the duration is that many whole seconds long.
pub assume_specification[ Duration::from_secs ](secs: u64) -> (duration: Duration)
    ensures
        duration_nanos(duration) == secs as nat * 1_000_000_000,
;

/// A harness that drives the Aside client.
pub struct AsideHarness {
    executable: Option<PathBuf>,
    interrupt_grace: Duration,
    kill_grace: Duration,
}

/// Where the client is to be looked for.
#[derive(Debug, PartialEq, Eq)]
pub enum SearchPlan {
    /// Only at this place.
    Override(PathBuf),
    /// On the search paths and then at these places.
    Paths(Vec<PathBuf>),
}

/// The places below the home directory where the client may be installed.
pub open spec fn home_candidates(home: Seq<u8>) -> Seq<Seq<u8>> {
    seq![
        joined_all(home, seq![".local"@, "bin"@, "aside"@]),
        joined_all(
            home,
            seq![".aside"@, "cli"@, "Aside CLI.app"@, "Contents"@, "MacOS"@, "aside"@],
        ),
    ]
}

/// The bytes of the paths in a list.
pub open spec fn all_path_bytes(paths: Seq<PathBuf>) -> Seq<Seq<u8>> {
    paths.map_values(|path: PathBuf| path_buf_bytes(path))
}

/// The places besides the search paths where the client may be installed.
pub open spec fn extra_candidates(home: Option<Seq<u8>>) -> Seq<Seq<u8>> {
    let below = match home {
        Some(home) => home_candidates(home),
        None => Seq::empty(),
    };
    below.push(encode_utf8("/Applications/Aside.app/Contents/MacOS/Aside"@))
}

/// The bytes of the home directory, if there is one.
pub open spec fn home_bytes(home: Option<&Path>) -> Option<Seq<u8>> {
    match home {
        Some(home) => Some(path_bytes(home)),
        None => None,
    }
}

/// The error message when the client is nowhere to be found.
pub open spec fn not_found_message() -> Seq<char> {
    "aside (searched ASIDE_EXECUTABLE, PATH, the login shell's PATH, ~/.local/bin/aside, ~/.aside/cli/Aside CLI.app, and /Applications/Aside.app; set ASIDE_EXECUTABLE to override)"@
}

/// The plan that an override and a home directory lead to: only the override, if there
/// is one that is not empty; else the search paths and the other places.
pub open spec fn planned(
    override_path: Option<PathBuf>,
    home: Option<&Path>,
    plan: SearchPlan,
) -> bool {
    match plan {
        SearchPlan::Override(path) => override_path == Some(path) && path_buf_bytes(path).len() > 0,
        SearchPlan::Paths(extra) => {
            &&& override_path matches Some(path) ==> path_buf_bytes(path).len() == 0
            &&& all_path_bytes(extra@) == extra_candidates(home_bytes(home))
        },
    }
}

/// Where the client is to be looked for: only at the override, if there is one that
/// is not empty; else on the search paths, below the home directory and among the
/// installed applications.
pub fn search_plan(override_path: Option<PathBuf>, home: Option<&Path>) -> (plan: SearchPlan)
    ensures
        planned(override_path, home, plan),
{
    if let Some(path) = override_path {
        if !is_empty_path(&path) {
            return SearchPlan::Override(path);
        }
    }
    let mut extra: Vec<PathBuf> = Vec::new();
    if let Some(home) = home {
        let more: [&str; 2] = ["bin", "aside"];
        assert(seq![".local"@] + more.deep_view() =~= seq![".local"@, "bin"@, "aside"@]);
        extra.push(join_all(home, ".local", &more));
        let more: [&str; 5] = ["cli", "Aside CLI.app", "Contents", "MacOS", "aside"];
        assert(seq![".aside"@] + more.deep_view() =~= seq![
            ".aside"@,
            "cli"@,
            "Aside CLI.app"@,
            "Contents"@,
            "MacOS"@,
            "aside"@,
        ]);
        extra.push(join_all(home, ".aside", &more));
        assert(all_path_bytes(extra@) =~= home_candidates(path_bytes(home)));
    } else {
        assert(all_path_bytes(extra@) =~= Seq::empty());
    }
    let ghost before = all_path_bytes(extra@);
    extra.push(path_from("/Applications/Aside.app/Contents/MacOS/Aside"));
    assert(all_path_bytes(extra@) =~= before.push(path_buf_bytes(extra@.last())));
    SearchPlan::Paths(extra)
}

/// The error of a client that could not be started: a missing one is not installed,
/// anything else is a failed operation.
pub fn start_error(missing: bool, executable: String, message: String) -> (error: HarnessError)
    ensures
        error == (if missing {
            HarnessError::NotInstalled(executable)
        } else {
            HarnessError::Io(message)
        }),
{
    if missing {
        HarnessError::NotInstalled(executable)
    } else {
        HarnessError::Io(message)
    }
}

/// The client is fixed to this one, and nothing else is changed.
pub open spec fn fixes_executable(
    before: AsideHarness,
    path: PathBuf,
    after: AsideHarness,
) -> bool {
    &&& after.chosen() == Some(path)
    &&& after.stop_wait() == before.stop_wait()
    &&& after.exit_wait() == before.exit_wait()
}

/// The graces are set to these, and nothing else is changed.
pub open spec fn sets_graces(
    before: AsideHarness,
    interrupt_grace: Duration,
    kill_grace: Duration,
    after: AsideHarness,
) -> bool {
    &&& after.chosen() == before.chosen()
    &&& after.stop_wait() == interrupt_grace
    &&& after.exit_wait() == kill_grace
}

/// The client and the graces can be set in either order: the harness is the same, with
/// this client and these graces.
pub proof fn settings_come_in_any_order(
    start: AsideHarness,
    path: PathBuf,
    interrupt_grace: Duration,
    kill_grace: Duration,
    client_first: AsideHarness,
    then_graces: AsideHarness,
    graces_first: AsideHarness,
    then_client: AsideHarness,
)
    requires
        fixes_executable(start, path, client_first),
        sets_graces(client_first, interrupt_grace, kill_grace, then_graces),
        sets_graces(start, interrupt_grace, kill_grace, graces_first),
        fixes_executable(graces_first, path, then_client),
    ensures
        then_graces == then_client,
        then_graces.chosen() == Some(path),
        then_graces.stop_wait() == interrupt_grace,
        then_graces.exit_wait() == kill_grace,
{
}

impl Default for AsideHarness {
    fn default() -> (harness: AsideHarness)
        ensures
            harness.chosen() is None,
            duration_nanos(harness.stop_wait()) == 2_000_000_000,
            duration_nanos(harness.exit_wait()) == 3_000_000_000,
    {
        AsideHarness {
            executable: None,
            interrupt_grace: Duration::from_secs(2),
            kill_grace: Duration::from_secs(3),
        }
    }
}

impl AsideHarness {
    /// The client that was fixed.
    pub closed spec fn chosen(self) -> Option<PathBuf> {
        self.executable
    }

    /// How long a stopped task may take to answer.
    pub closed spec fn stop_wait(self) -> Duration {
        self.interrupt_grace
    }

    /// How long the client may take to exit.
    pub closed spec fn exit_wait(self) -> Duration {
        self.kill_grace
    }

    /// A harness that looks for the client.
    pub fn new() -> (harness: AsideHarness)
        ensures
            harness.chosen() is None,
            duration_nanos(harness.stop_wait()) == 2_000_000_000,
            duration_nanos(harness.exit_wait()) == 3_000_000_000,
    {
        Self::default()
    }

    /// Fixes the client.
    pub fn with_executable<P: Into<PathBuf>>(self, path: P) -> (harness: AsideHarness)
        ensures
            harness.chosen() matches Some(chosen) && call_ensures(
                <P as Into<PathBuf>>::into,
                (path,),
                chosen,
            ) && fixes_executable(self, chosen, harness),
    {
        AsideHarness {
            executable: Some(path.into()),
            interrupt_grace: self.interrupt_grace,
            kill_grace: self.kill_grace,
        }
    }

    /// Sets how long a stopped task may take to answer and the client to exit.
    pub fn with_graces(self, interrupt_grace: Duration, kill_grace: Duration) -> (harness:
        AsideHarness)
        ensures
            sets_graces(self, interrupt_grace, kill_grace, harness),
    {
        AsideHarness { executable: self.executable, interrupt_grace, kill_grace }
    }

    /// The client that was fixed.
    pub fn executable(&self) -> (path: Option<&PathBuf>)
        ensures
            match path {
                Some(path) => self.chosen() == Some(*path),
                None => self.chosen() is None,
            },
    {
        self.executable.as_ref()
    }

    /// How long a stopped task may take to answer.
    pub fn interrupt_grace(&self) -> (grace: Duration)
        ensures
            grace == self.stop_wait(),
    {
        self.interrupt_grace
    }

    /// How long the client may take to exit.
    pub fn kill_grace(&self) -> (grace: Duration)
        ensures
            grace == self.exit_wait(),
    {
        self.kill_grace
    }

    /// Where this harness looks for its client: only at the fixed one, if there is one,
    /// whatever the override; else where the override and the home directory say.
    pub fn client_plan(&self, override_path: Option<PathBuf>, home: Option<&Path>) -> (plan:
        SearchPlan)
        ensures
            match self.chosen() {
                Some(path) => plan == SearchPlan::Override(path),
                None => planned(override_path, home, plan),
            },
    {
        match &self.executable {
            Some(path) => SearchPlan::Override(path.clone()),
            None => search_plan(override_path, home),
        }
    }

    /// The client to run, given how the fixed one was found or, without one, how the
    /// search went. What is wrong with a fixed client is reported as it is; a search
    /// that fails says where it looked.
    pub fn resolve_executable(&self, found: Result<PathBuf, HarnessError>) -> (client: Result<
        PathBuf,
        HarnessError,
    >)
        ensures
            found is Ok || self.chosen() is Some ==> client == found,
            found is Err && self.chosen() is None ==> (client matches Err(
                HarnessError::NotInstalled(message),
            ) && message@ == not_found_message()),
    {
        match found {
            Ok(path) => Ok(path),
            Err(error) => if self.executable.is_some() {
                Err(error)
            } else {
                Err(
                    HarnessError::NotInstalled(
                        "aside (searched ASIDE_EXECUTABLE, PATH, the login shell's PATH, ~/.local/bin/aside, ~/.aside/cli/Aside CLI.app, and /Applications/Aside.app; set ASIDE_EXECUTABLE to override)".to_owned(),
                    ),
                )
            },
        }
    }

    /// Which harness this is.
    pub fn id(&self) -> (id: HarnessId)
        ensures
            id == HarnessId::Aside,
    {
        HarnessId::Aside
    }

    /// The name to show.
    pub fn display_name(&self) -> (name: &str)
        ensures
            name@ == "Aside"@,
    {
        "Aside"
    }

    /// A running turn can be steered.
    pub fn supports_steering(&self) -> (yes: bool)
        ensures
            yes,
    {
        true
    }

    /// A steering prompt interrupts the current step and replaces it.
    pub fn steering_mode(&self) -> (mode: SteeringMode)
        ensures
            mode == SteeringMode::StepBoundary,
    {
        SteeringMode::StepBoundary
    }

    /// The reasoning levels to choose from.
    pub fn reasoning_levels(&self) -> (levels: Vec<ReasoningLevel>)
        ensures
            levels@ == ladder(),
    {
        full_reasoning_ladder()
    }

    /// A turn is over when the client has answered.
    pub fn deterministic_turn_end(&self) -> (yes: bool)
        ensures
            yes,
    {
        true
    }
}

} // verus!
