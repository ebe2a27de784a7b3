//! The command lines of the Aside client that a run request asks for.

use crate::json::{find_entry, lookup, Json, JsonView};
use crate::harness::AsideHarness;
use crate::models::{DEFAULT_MODEL, FAST_MODEL};
use crate::protocol::{ReasoningLevel, RequestView, RunRequest};
use crate::text::{contains, holds_text, occurs, same_text};
use vstd::prelude::*;

verus! {

/// A flag with its value.
pub type Flag = (Seq<char>, Seq<char>);

/// The text that an option value is passed as.
pub open spec fn option_text(value: JsonView) -> Option<Seq<char>> {
    match value {
        JsonView::Text(text) => Some(text),
        JsonView::Bool(true) => Some("true"@),
        JsonView::Bool(false) => Some("false"@),
        _ => None,
    }
}

/// The value of an option of the request, empty ones included.
pub open spec fn raw_option(request: RequestView, id: Seq<char>) -> Option<Seq<char>> {
    match lookup(request.model_options, id) {
        Some(value) => option_text(value),
        None => None,
    }
}

/// The value of an option of the request, unless it is empty.
pub open spec fn set_option(request: RequestView, id: Seq<char>) -> Option<Seq<char>> {
    match raw_option(request, id) {
        Some(text) if text.len() > 0 => Some(text),
        _ => None,
    }
}

/// The flag value of a reasoning level.
pub open spec fn level_flag(level: ReasoningLevel) -> Option<Seq<char>> {
    match level {
        ReasoningLevel::Off => None,
        ReasoningLevel::Minimal => Some("minimal"@),
        ReasoningLevel::Low => Some("low"@),
        ReasoningLevel::Medium => Some("medium"@),
        ReasoningLevel::High => Some("high"@),
        ReasoningLevel::XHigh => Some("xhigh"@),
        ReasoningLevel::Ultracode => Some("xhigh"@),
        ReasoningLevel::Max => Some("max"@),
        ReasoningLevel::Ultra => Some("max"@),
        ReasoningLevel::Ultrathink => None,
    }
}

/// The model that the request routes to.
pub open spec fn selected_model(request: RequestView) -> Seq<char> {
    match request.model {
        Some(model) => model,
        None => "default"@,
    }
}

/// A discovered model: provider and model, with a slash between them.
pub open spec fn slash_model(model: Seq<char>) -> bool {
    occurs(model, "/"@)
}

/// One flag, if there is a value.
pub open spec fn flag(name: Seq<char>, value: Option<Seq<char>>) -> Seq<Flag> {
    match value {
        Some(value) => seq![(name, value)],
        None => Seq::empty(),
    }
}

/// The flag that routes to the model.
pub open spec fn routing_flags(request: RequestView) -> Seq<Flag> {
    let model = selected_model(request);
    if model == "fast"@ || raw_option(request, "speed"@) == Some("fast"@) {
        seq![("--speed"@, "fast"@)]
    } else if slash_model(model) {
        seq![("-m"@, model)]
    } else if model != "default"@ && model.len() > 0 {
        seq![("--model"@, model)]
    } else {
        Seq::empty()
    }
}

/// The thinking effort: the option, or without one what the reasoning level stands for.
/// The choice `default` leaves the effort to the client.
pub open spec fn effort_value(request: RequestView) -> Option<Seq<char>> {
    match set_option(request, "effort"@) {
        Some(effort) => if effort == "default"@ {
            None
        } else {
            Some(effort)
        },
        None => match request.reasoning {
            Some(level) => level_flag(level),
            None => None,
        },
    }
}

/// The provider: a discovered model names its own.
pub open spec fn provider_value(request: RequestView) -> Option<Seq<char>> {
    if slash_model(selected_model(request)) {
        None
    } else {
        set_option(request, "provider"@)
    }
}

/// The account: where the signed-in accounts are known, only one of them.
pub open spec fn account_value(
    request: RequestView,
    signed_in: Option<Seq<Seq<char>>>,
) -> Option<Seq<char>> {
    match (set_option(request, "account"@), signed_in) {
        (Some(account), Some(ids)) if !ids.contains(account) => None,
        (account, _) => account,
    }
}

/// The flags of a request, in order.
pub open spec fn request_flags(
    request: RequestView,
    signed_in: Option<Seq<Seq<char>>>,
) -> Seq<Flag> {
    routing_flags(request) + flag("--effort"@, effort_value(request)) + flag(
        "--permission"@,
        set_option(request, "permission"@),
    ) + flag("--provider"@, provider_value(request)) + flag(
        "--host"@,
        set_option(request, "host"@),
    ) + flag("--account"@, account_value(request, signed_in))
}

/// Flags as arguments: each name and then its value.
pub open spec fn flag_args(flags: Seq<Flag>) -> Seq<Seq<char>>
    decreases flags.len(),
{
    if flags.len() == 0 {
        Seq::empty()
    } else {
        flag_args(flags.drop_last()).push(flags.last().0).push(flags.last().1)
    }
}

/// The arguments of a request in front of a command.
pub open spec fn request_args(
    request: RequestView,
    signed_in: Option<Seq<Seq<char>>>,
) -> Seq<Seq<char>> {
    flag_args(request_flags(request, signed_in))
}

/// The arguments of a turn in front of its command. A turn that goes on with a session
/// keeps the session's routing: all that it passes is the account.
pub open spec fn turn_args(
    request: RequestView,
    signed_in: Option<Seq<Seq<char>>>,
) -> Seq<Seq<char>> {
    if request.resume is Some {
        flag_args(flag("--account"@, account_value(request, signed_in)))
    } else {
        request_args(request, signed_in)
    }
}

/// The arguments of a command on a session.
pub open spec fn session_args(
    request: RequestView,
    signed_in: Option<Seq<Seq<char>>>,
    command: Seq<char>,
    session_id: Seq<char>,
    prompt: Option<Seq<char>>,
) -> Seq<Seq<char>> {
    request_args(request, signed_in) + seq!["session"@, command, session_id] + (match prompt {
        Some(prompt) => seq![prompt],
        None => Seq::empty(),
    })
}

/// The text that an option value is passed as: a text as it is, a flag as `true` or
/// `false`.
pub fn option_string(value: &Json) -> (text: Option<&str>)
    ensures
        text.deep_view() == option_text(value.deep_view()),
{
    match value {
        Json::Text(text) => Some(text.as_str()),
        Json::Bool(true) => Some("true"),
        Json::Bool(false) => Some("false"),
        _ => None,
    }
}

/// The flag value of a reasoning level.
pub fn reasoning_flag(level: ReasoningLevel) -> (value: Option<&'static str>)
    ensures
        value.deep_view() == level_flag(level),
{
    match level {
        ReasoningLevel::Off => None,
        ReasoningLevel::Minimal => Some("minimal"),
        ReasoningLevel::Low => Some("low"),
        ReasoningLevel::Medium => Some("medium"),
        ReasoningLevel::High => Some("high"),
        ReasoningLevel::XHigh => Some("xhigh"),
        ReasoningLevel::Ultracode => Some("xhigh"),
        ReasoningLevel::Max => Some("max"),
        ReasoningLevel::Ultra => Some("max"),
        ReasoningLevel::Ultrathink => None,
    }
}

/// The value of an option of the request, empty ones included.
fn get_option<'a>(request: &'a RunRequest, id: &str) -> (value: Option<&'a str>)
    ensures
        value.deep_view() == raw_option(request.deep_view(), id@),
{
    match find_entry(&request.model_options, id) {
        Some(value) => option_string(value),
        None => None,
    }
}

/// The value of an option of the request, unless it is empty.
fn get_set_option<'a>(request: &'a RunRequest, id: &str) -> (value: Option<&'a str>)
    ensures
        value.deep_view() == set_option(request.deep_view(), id@),
{
    match get_option(request, id) {
        Some(text) => if text.is_empty() {
            None
        } else {
            Some(text)
        },
        None => None,
    }
}

/// The account of the request: where the signed-in accounts are known, only one of them.
fn get_account<'a>(request: &'a RunRequest, signed_in: Option<&[String]>) -> (account: Option<
    &'a str,
>)
    ensures
        account.deep_view() == account_value(request.deep_view(), signed_in.deep_view()),
{
    match get_set_option(request, "account") {
        Some(account) => match signed_in {
            Some(ids) => if holds_text(ids, account) {
                Some(account)
            } else {
                None
            },
            None => Some(account),
        },
        None => None,
    }
}

/// Appends a flag, if there is a value.
fn push_flag(
    args: &mut Vec<String>,
    name: &str,
    value: Option<&str>,
    Ghost(flags): Ghost<Seq<Flag>>,
)
    requires
        old(args).deep_view() == flag_args(flags),
    ensures
        final(args).deep_view() == flag_args(flags + flag(name@, value.deep_view())),
{
    let ghost before = args.deep_view();
    match value {
        Some(value) => {
            args.push(name.to_owned());
            args.push(value.to_owned());
            proof {
                let all = flags + flag(name@, Some(value@));
                assert(all.drop_last() =~= flags);
                assert(args.deep_view() =~= before.push(name@).push(value@));
            }
        },
        None => {
            assert(flags + flag(name@, None) =~= flags);
        },
    }
}

impl AsideHarness {
    /// The arguments of a request in front of a command, where nothing is known of
    /// the accounts.
    pub fn global_args(request: &RunRequest) -> (args: Vec<String>)
        ensures
            args.deep_view() == request_args(request.deep_view(), None),
    {
        Self::global_args_with_accounts(request, None)
    }

    /// The arguments of a request in front of a command. Where the signed-in accounts
    /// are known, any other account is left out; it is never an error.
    pub fn global_args_with_accounts(request: &RunRequest, signed_in: Option<&[String]>) -> (args:
        Vec<String>)
        ensures
            args.deep_view() == request_args(request.deep_view(), signed_in.deep_view()),
    {
        let ghost view = request.deep_view();
        let mut args: Vec<String> = Vec::new();
        let model: &str = match &request.model {
            Some(model) => model.as_str(),
            None => DEFAULT_MODEL,
        };
        let fast = same_text(model, FAST_MODEL) || match get_option(request, "speed") {
            Some(speed) => same_text(speed, FAST_MODEL),
            None => false,
        };
        let slash = contains(model, "/");
        let ghost none: Seq<Flag> = Seq::empty();
        assert(args.deep_view() =~= flag_args(none));
        if fast {
            push_flag(&mut args, "--speed", Some(FAST_MODEL), Ghost(none));
        } else if slash {
            push_flag(&mut args, "-m", Some(model), Ghost(none));
        } else if !same_text(model, DEFAULT_MODEL) && !model.is_empty() {
            push_flag(&mut args, "--model", Some(model), Ghost(none));
        }
        let ghost mut flags = routing_flags(view);
        assert(flags =~= none + flags);
        let effort = match get_set_option(request, "effort") {
            Some(effort) => if same_text(effort, "default") {
                None
            } else {
                Some(effort)
            },
            None => match request.reasoning {
                Some(level) => reasoning_flag(level),
                None => None,
            },
        };
        push_flag(&mut args, "--effort", effort, Ghost(flags));
        proof {
            flags = flags + flag("--effort"@, effort_value(view));
        }
        let permission = get_set_option(request, "permission");
        push_flag(&mut args, "--permission", permission, Ghost(flags));
        proof {
            flags = flags + flag("--permission"@, set_option(view, "permission"@));
        }
        let provider = if slash {
            None
        } else {
            get_set_option(request, "provider")
        };
        push_flag(&mut args, "--provider", provider, Ghost(flags));
        proof {
            flags = flags + flag("--provider"@, provider_value(view));
        }
        let host = get_set_option(request, "host");
        push_flag(&mut args, "--host", host, Ghost(flags));
        proof {
            flags = flags + flag("--host"@, set_option(view, "host"@));
        }
        let account = get_account(request, signed_in);
        push_flag(&mut args, "--account", account, Ghost(flags));
        args
    }

    /// The arguments that start the client as a tool server. A turn that goes on with a
    /// session passes no flag but the account.
    pub fn mcp_args(request: &RunRequest, signed_in: Option<&[String]>) -> (args: Vec<String>)
        ensures
            args.deep_view() == turn_args(request.deep_view(), signed_in.deep_view()).push("mcp"@),
    {
        let mut args: Vec<String> = Vec::new();
        if request.resume.is_some() {
            let ghost none: Seq<Flag> = Seq::empty();
            let account = get_account(request, signed_in);
            assert(args.deep_view() =~= flag_args(none));
            push_flag(&mut args, "--account", account, Ghost(none));
            assert(none + flag("--account"@, account.deep_view()) =~= flag(
                "--account"@,
                account.deep_view(),
            ));
        } else {
            args = Self::global_args_with_accounts(request, signed_in);
        }
        let ghost before = args.deep_view();
        args.push("mcp".to_owned());
        assert(args.deep_view() =~= before.push("mcp"@));
        args
    }

    /// The arguments of a command on a session.
    pub fn session_command_args(
        request: &RunRequest,
        signed_in: Option<&[String]>,
        command: &str,
        session_id: &str,
        prompt: Option<&str>,
    ) -> (args: Vec<String>)
        ensures
            args.deep_view() == session_args(
                request.deep_view(),
                signed_in.deep_view(),
                command@,
                session_id@,
                prompt.deep_view(),
            ),
    {
        let mut args = Self::global_args_with_accounts(request, signed_in);
        let ghost before = args.deep_view();
        args.push("session".to_owned());
        args.push(command.to_owned());
        args.push(session_id.to_owned());
        assert(args.deep_view() =~= before + seq!["session"@, command@, session_id@]);
        let ghost named = args.deep_view();
        match prompt {
            Some(prompt) => {
                args.push(prompt.to_owned());
                assert(args.deep_view() =~= named + seq![prompt@]);
            },
            None => {
                assert(named + Seq::empty() =~= named);
            },
        }
        args
    }

    /// The working directory of a run; none for that of the host.
    pub fn working_directory(request: &RunRequest) -> (cwd: Option<&str>)
        ensures
            cwd.deep_view() == (if request.deep_view().cwd.len() > 0 {
                Some(request.deep_view().cwd)
            } else {
                None
            }),
    {
        if request.cwd.as_str().is_empty() {
            None
        } else {
            Some(request.cwd.as_str())
        }
    }
}

/// The flags hold one with this name.
pub open spec fn has_flag(flags: Seq<Flag>, name: Seq<char>) -> bool {
    exists|i: int| 0 <= i < flags.len() && (#[trigger] flags[i]).0 == name
}

/// The names of the flags that a request can lead to, in order.
spec fn flag_rank(name: Seq<char>) -> int {
    if name == "--speed"@ || name == "-m"@ || name == "--model"@ {
        0
    } else if name == "--effort"@ {
        1
    } else if name == "--permission"@ {
        2
    } else if name == "--provider"@ {
        3
    } else if name == "--host"@ {
        4
    } else if name == "--account"@ {
        5
    } else {
        6
    }
}

/// The names of flags differ.
proof fn lemma_flag_names()
    ensures
        flag_rank("--speed"@) == 0,
        flag_rank("-m"@) == 0,
        flag_rank("--model"@) == 0,
        flag_rank("--effort"@) == 1,
        flag_rank("--permission"@) == 2,
        flag_rank("--provider"@) == 3,
        flag_rank("--host"@) == 4,
        flag_rank("--account"@) == 5,
{
    reveal_strlit("--speed");
    reveal_strlit("-m");
    reveal_strlit("--model");
    reveal_strlit("--effort");
    reveal_strlit("--permission");
    reveal_strlit("--provider");
    reveal_strlit("--host");
    reveal_strlit("--account");
    assert("--effort"@[2] == 'e');
    assert("--permission"@[3] == 'e');
    assert("--provider"@[3] == 'r');
    assert("--host"@[2] == 'h');
    assert("--account"@[2] == 'a');
    assert("--permission"@[2] == 'p');
    assert("--provider"@[2] == 'p');
    assert("--speed"@[2] == 's');
    assert("--model"@[2] == 'm');
    assert("-m"@[1] == 'm');
    assert("--speed"@[1] == '-' && "--effort"@[1] == '-' && "--permission"@[1] == '-');
    assert("--provider"@[1] == '-' && "--host"@[1] == '-' && "--account"@[1] == '-');
}

/// One more flag keeps the flags in order.
proof fn lemma_ranked(flags: Seq<Flag>, name: Seq<char>, value: Option<Seq<char>>)
    requires
        forall|i: int| 0 <= i < flags.len() ==> flag_rank((#[trigger] flags[i]).0) < flag_rank(name),
        forall|i: int, j: int|
            0 <= i < j < flags.len() ==> flag_rank((#[trigger] flags[i]).0) < flag_rank(
                (#[trigger] flags[j]).0,
            ),
    ensures
        ({
            let all = flags + flag(name, value);
            &&& forall|i: int|
                0 <= i < all.len() ==> flag_rank((#[trigger] all[i]).0) <= flag_rank(name)
            &&& forall|i: int, j: int|
                0 <= i < j < all.len() ==> flag_rank((#[trigger] all[i]).0) < flag_rank(
                    (#[trigger] all[j]).0,
                )
        }),
{
    let all = flags + flag(name, value);
    assert forall|i: int| 0 <= i < all.len() implies flag_rank((#[trigger] all[i]).0) <= flag_rank(
        name,
    ) by {
        if i < flags.len() {
            assert(all[i] == flags[i]);
        }
    }
    assert forall|i: int, j: int| 0 <= i < j < all.len() implies flag_rank((#[trigger] all[i]).0)
        < flag_rank((#[trigger] all[j]).0) by {
        assert(all[i] == flags[i]);
        if j < flags.len() {
            assert(all[j] == flags[j]);
        }
    }
}

/// The flags of a request are in order.
proof fn lemma_request_ranked(request: RequestView, signed_in: Option<Seq<Seq<char>>>)
    ensures
        ({
            let all = request_flags(request, signed_in);
            forall|i: int, j: int|
                0 <= i < j < all.len() ==> flag_rank((#[trigger] all[i]).0) < flag_rank(
                    (#[trigger] all[j]).0,
                )
        }),
{
    lemma_flag_names();
    let a = routing_flags(request);
    lemma_ranked(a, "--effort"@, effort_value(request));
    let b = a + flag("--effort"@, effort_value(request));
    let permission = set_option(request, "permission"@);
    lemma_ranked(b, "--permission"@, permission);
    let c = b + flag("--permission"@, permission);
    lemma_ranked(c, "--provider"@, provider_value(request));
    let d = c + flag("--provider"@, provider_value(request));
    let host = set_option(request, "host"@);
    lemma_ranked(d, "--host"@, host);
    let e = d + flag("--host"@, host);
    lemma_ranked(e, "--account"@, account_value(request, signed_in));
}

/// No flag is passed twice.
pub proof fn flags_are_distinct(request: RequestView, signed_in: Option<Seq<Seq<char>>>)
    ensures
        ({
            let flags = request_flags(request, signed_in);
            forall|i: int, j: int|
                0 <= i < j < flags.len() ==> (#[trigger] flags[i]).0 != (#[trigger] flags[j]).0
        }),
{
    lemma_request_ranked(request, signed_in);
}

/// No flag is passed without a value or with an empty one.
pub proof fn flag_values_are_not_empty(request: RequestView, signed_in: Option<Seq<Seq<char>>>)
    ensures
        ({
            let flags = request_flags(request, signed_in);
            forall|i: int| 0 <= i < flags.len() ==> (#[trigger] flags[i]).1.len() > 0
        }),
{
    reveal_strlit("fast");
    reveal_strlit("minimal");
    reveal_strlit("low");
    reveal_strlit("medium");
    reveal_strlit("high");
    reveal_strlit("xhigh");
    reveal_strlit("max");
    reveal_strlit("/");
    let model = selected_model(request);
    if slash_model(model) {
        let i = choose|i: int| #[trigger] crate::text::occurs_at(model, "/"@, i);
        assert(model.len() > 0);
    }
    let a = routing_flags(request);
    let b = a + flag("--effort"@, effort_value(request));
    let c = b + flag("--permission"@, set_option(request, "permission"@));
    let d = c + flag("--provider"@, provider_value(request));
    let e = d + flag("--host"@, set_option(request, "host"@));
    let f = e + flag("--account"@, account_value(request, signed_in));
    assert(forall|i: int| 0 <= i < a.len() ==> (#[trigger] a[i]).1.len() > 0);
    assert(forall|i: int| 0 <= i < b.len() ==> (#[trigger] b[i]).1.len() > 0);
    assert(forall|i: int| 0 <= i < c.len() ==> (#[trigger] c[i]).1.len() > 0);
    assert(forall|i: int| 0 <= i < d.len() ==> (#[trigger] d[i]).1.len() > 0);
    assert(forall|i: int| 0 <= i < e.len() ==> (#[trigger] e[i]).1.len() > 0);
    assert(forall|i: int| 0 <= i < f.len() ==> (#[trigger] f[i]).1.len() > 0);
}

/// What one flag among the flags of a request is.
proof fn lemma_flag_source(request: RequestView, signed_in: Option<Seq<Seq<char>>>, i: int)
    requires
        0 <= i < request_flags(request, signed_in).len(),
    ensures
        ({
            let (name, value) = request_flags(request, signed_in)[i];
            ||| routing_flags(request).contains((name, value))
            ||| name == "--effort"@ && effort_value(request) == Some(value)
            ||| name == "--permission"@ && set_option(request, "permission"@) == Some(value)
            ||| name == "--provider"@ && provider_value(request) == Some(value)
            ||| name == "--host"@ && set_option(request, "host"@) == Some(value)
            ||| name == "--account"@ && account_value(request, signed_in) == Some(value)
        }),
{
    let a = routing_flags(request);
    let all = request_flags(request, signed_in);
    if i < a.len() {
        assert(all[i] == a[i]);
    }
}

/// Where the signed-in accounts are known, an account is passed only if it is one of
/// them; where they are not known, the account of the request is passed as it is.
pub proof fn account_is_checked_only_against_known_accounts(
    request: RequestView,
    signed_in: Option<Seq<Seq<char>>>,
)
    ensures
        ({
            let flags = request_flags(request, signed_in);
            let wanted = set_option(request, "account"@);
            forall|i: int|
                0 <= i < flags.len() && (#[trigger] flags[i]).0 == "--account"@ ==> Some(flags[i].1)
                    == wanted && (signed_in matches Some(ids) ==> ids.contains(flags[i].1))
        }),
        ({
            let flags = request_flags(request, signed_in);
            let wanted = set_option(request, "account"@);
            has_flag(flags, "--account"@) <==> (wanted is Some && (signed_in matches Some(ids)
                ==> ids.contains(wanted->0)))
        }),
{
    let flags = request_flags(request, signed_in);
    lemma_flag_names();
    assert forall|i: int|
        0 <= i < flags.len() && (#[trigger] flags[i]).0 == "--account"@ implies account_value(
        request,
        signed_in,
    ) == Some(flags[i].1) by {
        lemma_flag_source(request, signed_in, i);
        if routing_flags(request).contains(flags[i]) {
            assert(flag_rank(flags[i].0) == 0);
        }
    }
    if account_value(request, signed_in) is Some {
        assert(flags.last().0 == "--account"@);
        assert(flags[flags.len() - 1].0 == "--account"@);
    }
}

/// A discovered model names its provider itself: no other provider is passed with it,
/// and the model goes by the short flag unless the fast route is asked for.
pub proof fn slash_model_names_its_provider(
    request: RequestView,
    signed_in: Option<Seq<Seq<char>>>,
)
    requires
        slash_model(selected_model(request)),
    ensures
        !has_flag(request_flags(request, signed_in), "--provider"@),
        !has_flag(request_flags(request, signed_in), "--model"@),
        raw_option(request, "speed"@) != Some("fast"@) ==> request_flags(request, signed_in).len()
            > 0 && request_flags(request, signed_in)[0] == ("-m"@, selected_model(request)),
{
    let flags = request_flags(request, signed_in);
    let model = selected_model(request);
    lemma_flag_names();
    reveal_strlit("-m");
    reveal_strlit("--model");
    reveal_strlit("--speed");
    reveal_strlit("fast");
    reveal_strlit("/");
    assert("--speed"@[2] != "--model"@[2]);
    assert(model != "fast"@) by {
        let i = choose|i: int| #[trigger] crate::text::occurs_at(model, "/"@, i);
        assert(model.subrange(i, i + 1)[0] == '/');
        assert(model[i] == '/');
    }
    assert forall|i: int| 0 <= i < flags.len() implies (#[trigger] flags[i]).0 != "--provider"@
        && flags[i].0 != "--model"@ by {
        lemma_flag_source(request, signed_in, i);
        if routing_flags(request).contains(flags[i]) {
            assert(flags[i].0 == "--speed"@ || flags[i].0 == "-m"@);
        }
    }
}

/// A request that sets nothing passes no flags, so that the client decides everything.
pub proof fn plain_request_has_no_flags(request: RequestView, signed_in: Option<Seq<Seq<char>>>)
    requires
        request.model is None || request.model == Some("default"@),
        request.reasoning is None,
        request.model_options.len() == 0,
    ensures
        request_args(request, signed_in).len() == 0,
{
    reveal_strlit("default");
    reveal_strlit("fast");
    reveal_strlit("/");
    assert("default"@.len() != "fast"@.len());
    assert(!slash_model("default"@)) by {
        if slash_model("default"@) {
            let i = choose|i: int| #[trigger] crate::text::occurs_at("default"@, "/"@, i);
            assert("default"@.subrange(i, i + 1)[0] == '/');
        }
    }
    assert(request_flags(request, signed_in) =~= Seq::empty());
}

/// Arguments come in pairs: each flag and then its value.
pub proof fn arguments_come_in_pairs(flags: Seq<Flag>)
    ensures
        flag_args(flags).len() == 2 * flags.len(),
        forall|i: int|
            0 <= i < flags.len() ==> flag_args(flags)[2 * i] == (#[trigger] flags[i]).0 && flag_args(
                flags,
            )[2 * i + 1] == flags[i].1,
    decreases flags.len(),
{
    if flags.len() > 0 {
        arguments_come_in_pairs(flags.drop_last());
        let before = flag_args(flags.drop_last());
        assert forall|i: int| 0 <= i < flags.len() implies flag_args(flags)[2 * i] == (
        #[trigger] flags[i]).0 && flag_args(flags)[2 * i + 1] == flags[i].1 by {
            if i < flags.len() - 1 {
                assert(flags.drop_last()[i] == flags[i]);
            }
        }
    }
}

/// The thinking effort that was picked wins over the reasoning level, and the choice
/// `default` passes no effort at all, whatever the level. Only where nothing was picked
/// does the level decide.
pub proof fn picked_effort_wins(request: RequestView, signed_in: Option<Seq<Seq<char>>>)
    ensures
        ({
            let picked = set_option(request, "effort"@);
            let flags = request_flags(request, signed_in);
            &&& picked == Some("default"@) ==> !has_flag(flags, "--effort"@)
            &&& picked is Some && picked != Some("default"@) ==> flags.contains(
                ("--effort"@, picked->0),
            )
            &&& picked is None ==> match request.reasoning {
                Some(level) if level_flag(level) is Some => flags.contains(
                    ("--effort"@, level_flag(level)->0),
                ),
                _ => !has_flag(flags, "--effort"@),
            }
        }),
{
    let flags = request_flags(request, signed_in);
    lemma_flag_names();
    if let Some(effort) = effort_value(request) {
        let i = routing_flags(request).len() as int;
        assert(flags[i] == ("--effort"@, effort));
    }
    assert forall|i: int| 0 <= i < flags.len() && (#[trigger] flags[i]).0 == "--effort"@ implies
        effort_value(request) == Some(flags[i].1) by {
        lemma_flag_source(request, signed_in, i);
        if routing_flags(request).contains(flags[i]) {
            assert(flag_rank(flags[i].0) == 0);
        }
    }
}

/// A turn that goes on with a session passes no routing: its arguments are the account
/// flag or nothing, whatever model, effort or other option the request has.
pub proof fn resumed_turn_passes_only_the_account(
    request: RequestView,
    signed_in: Option<Seq<Seq<char>>>,
)
    requires
        request.resume is Some,
    ensures
        turn_args(request, signed_in) == match account_value(request, signed_in) {
            Some(account) => seq!["--account"@, account],
            None => Seq::empty(),
        },
{
    let flags = flag("--account"@, account_value(request, signed_in));
    if account_value(request, signed_in) is Some {
        assert(flags.drop_last() =~= Seq::empty());
        assert(flag_args(flags.drop_last()) =~= Seq::empty());
        assert(flag_args(flags) =~= seq!["--account"@, account_value(request, signed_in)->0]);
    }
}

} // verus!
