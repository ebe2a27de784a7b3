//! Where the client is looked for, and how the harness is set up.

use crate::harness::{
    all_path_bytes, fixes_executable, not_found_message, planned, sets_graces, AsideHarness,
    SearchPlan,
};
use crate::paths::{joined_all, joined_bytes, path_buf_bytes, path_bytes};
use std::path::{Path, PathBuf};
use std::time::Duration;
use vstd::prelude::*;
use vstd::utf8::encode_utf8;

verus! {

/// Parts are joined to a path one after the other, each whole, and none is left out.
pub proof fn parts_are_joined_in_order(base: Seq<u8>, parts: Seq<Seq<char>>, part: Seq<char>)
    ensures
        joined_all(base, parts.push(part)) == joined_bytes(joined_all(base, parts), part),
        joined_all(base, Seq::empty()) == base,
{
    assert(parts.push(part).drop_last() =~= parts);
}

/// An override that is not empty is the only place to look; without one the search paths
/// are followed by the places where the client is installed, in this order: the command
/// link and the client below the home directory, if there is one, and the application.
pub proof fn places_to_look_are_these(
    override_path: Option<PathBuf>,
    home: Option<&Path>,
    plan: SearchPlan,
)
    requires
        planned(override_path, home, plan),
    ensures
        ({
            let app = encode_utf8("/Applications/Aside.app/Contents/MacOS/Aside"@);
            if override_path is Some && path_buf_bytes(override_path->0).len() > 0 {
                plan == SearchPlan::Override(override_path->0)
            } else {
                &&& plan is Paths
                &&& all_path_bytes(plan->Paths_0@) == if home is Some {
                    let link = joined_bytes(
                        joined_bytes(joined_bytes(path_bytes(home->0), ".local"@), "bin"@),
                        "aside"@,
                    );
                    let cli = joined_bytes(
                        joined_bytes(
                            joined_bytes(
                                joined_bytes(
                                    joined_bytes(
                                        joined_bytes(path_bytes(home->0), ".aside"@),
                                        "cli"@,
                                    ),
                                    "Aside CLI.app"@,
                                ),
                                "Contents"@,
                            ),
                            "MacOS"@,
                        ),
                        "aside"@,
                    );
                    seq![link, cli, app]
                } else {
                    seq![app]
                }
                &&& all_path_bytes(plan->Paths_0@).len() == plan->Paths_0@.len()
                &&& forall|i: int|
                    0 <= i < plan->Paths_0@.len() ==> #[trigger] all_path_bytes(plan->Paths_0@)[i]
                        == path_buf_bytes(plan->Paths_0@[i])
            }
        }),
{
    reveal_with_fuel(joined_all, 7);
    if home is Some && plan is Paths {
        let link = seq![".local"@, "bin"@, "aside"@];
        assert(link.drop_last() =~= seq![".local"@, "bin"@]);
        assert(link.drop_last().drop_last() =~= seq![".local"@]);
        assert(link.drop_last().drop_last().drop_last() =~= Seq::empty());
        let cli = seq![".aside"@, "cli"@, "Aside CLI.app"@, "Contents"@, "MacOS"@, "aside"@];
        assert(cli.drop_last() =~= seq![
            ".aside"@,
            "cli"@,
            "Aside CLI.app"@,
            "Contents"@,
            "MacOS"@,
        ]);
        assert(cli.drop_last().drop_last() =~= seq![
            ".aside"@,
            "cli"@,
            "Aside CLI.app"@,
            "Contents"@,
        ]);
        assert(cli.drop_last().drop_last().drop_last() =~= seq![
            ".aside"@,
            "cli"@,
            "Aside CLI.app"@,
        ]);
        assert(cli.drop_last().drop_last().drop_last().drop_last() =~= seq![".aside"@, "cli"@]);
        assert(cli.drop_last().drop_last().drop_last().drop_last().drop_last() =~= seq![
            ".aside"@,
        ]);
        assert(cli.drop_last().drop_last().drop_last().drop_last().drop_last().drop_last()
            =~= Seq::empty());
    }
    if plan is Paths {
        let app = encode_utf8("/Applications/Aside.app/Contents/MacOS/Aside"@);
        if home is None {
            assert(all_path_bytes(plan->Paths_0@) =~= seq![app]);
        } else {
            let all = all_path_bytes(plan->Paths_0@);
            assert(all.len() == 3);
            assert(all =~= seq![all[0], all[1], all[2]]);
        }
    }
}

/// Each setting changes what it is for and nothing else.
pub proof fn settings_change_only_their_own(
    before: AsideHarness,
    path: PathBuf,
    interrupt_grace: Duration,
    kill_grace: Duration,
    after: AsideHarness,
)
    ensures
        fixes_executable(before, path, after) <==> {
            &&& after.chosen() == Some(path)
            &&& after.stop_wait() == before.stop_wait()
            &&& after.exit_wait() == before.exit_wait()
        },
        sets_graces(before, interrupt_grace, kill_grace, after) <==> {
            &&& after.chosen() == before.chosen()
            &&& after.stop_wait() == interrupt_grace
            &&& after.exit_wait() == kill_grace
        },
{
}

/// A search that fails says everywhere it looked and how to override it.
pub proof fn failed_search_is_explained()
    ensures
        not_found_message()
            == "aside (searched ASIDE_EXECUTABLE, PATH, the login shell's PATH, ~/.local/bin/aside, ~/.aside/cli/Aside CLI.app, and /Applications/Aside.app; set ASIDE_EXECUTABLE to override)"@,
{
}

} // verus!
