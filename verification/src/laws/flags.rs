//! Which flags a request is passed on as.

use crate::args::{
    account_value, arguments_come_in_pairs, effort_value, flag, flag_args, level_flag, option_text,
    provider_value, raw_option, request_args, request_flags, routing_flags, selected_model,
    session_args, set_option, slash_model, turn_args, Flag,
};
use crate::json::{lookup, JsonView};
use crate::protocol::{ReasoningLevel, RequestView};
use crate::text::occurs_at;
use vstd::prelude::*;

verus! {

/// What the request has under an option: a text that is not empty, or a switch in words.
pub open spec fn given(request: RequestView, id: Seq<char>) -> Option<Seq<char>> {
    match lookup(request.model_options, id) {
        Some(JsonView::Text(text)) => if text.len() > 0 {
            Some(text)
        } else {
            None
        },
        Some(JsonView::Bool(switch)) => if switch {
            Some("true"@)
        } else {
            Some("false"@)
        },
        _ => None,
    }
}

/// An option's value in words: a text as it is, empty or not, and a switch by its name.
pub proof fn option_values_are_texts_or_switches(value: JsonView)
    ensures
        option_text(value) == match value {
            JsonView::Text(text) => Some(text),
            JsonView::Bool(switch) => if switch {
                Some("true"@)
            } else {
                Some("false"@)
            },
            _ => None,
        },
{
}

/// The model of the request, `default` if there is none.
pub open spec fn model_of(request: RequestView) -> Seq<char> {
    if request.model is Some {
        request.model->0
    } else {
        "default"@
    }
}

/// There is a slash in the text.
pub open spec fn has_slash(text: Seq<char>) -> bool {
    text.contains('/')
}

/// The request asks for the fast route.
pub open spec fn wants_fast(request: RequestView) -> bool {
    model_of(request) == "fast"@ || lookup(request.model_options, "speed"@) == Some(
        JsonView::Text("fast"@),
    )
}

proof fn lemma_given(request: RequestView, id: Seq<char>)
    ensures
        set_option(request, id) == given(request, id),
{
    reveal_strlit("true");
    reveal_strlit("false");
}

proof fn lemma_routing_words(request: RequestView)
    ensures
        selected_model(request) == model_of(request),
        slash_model(model_of(request)) == has_slash(model_of(request)),
        (model_of(request) == "fast"@ || raw_option(request, "speed"@) == Some("fast"@))
            == wants_fast(request),
{
    reveal_strlit("/");
    reveal_strlit("true");
    reveal_strlit("false");
    reveal_strlit("fast");
    assert("true"@[0] == 't' && "fast"@[0] == 'f' && "false"@.len() == 5 && "fast"@.len() == 4);
    let model = model_of(request);
    if slash_model(model) {
        let i = choose|i: int| #[trigger] occurs_at(model, "/"@, i);
        assert(model.subrange(i, i + 1)[0] == '/');
        assert(model[i] == '/');
    }
    if has_slash(model) {
        let i = choose|i: int| 0 <= i < model.len() && model[i] == '/';
        assert(model.subrange(i, i + 1) =~= "/"@);
        assert(occurs_at(model, "/"@, i));
    }
}

proof fn lemma_names_differ()
    ensures
        "--speed"@.len() == 7,
        "-m"@.len() == 2,
        "--model"@.len() == 7,
        "--speed"@ != "--model"@,
        "--effort"@.len() == 8,
        "--permission"@.len() == 12,
        "--provider"@.len() == 10,
        "--host"@.len() == 6,
        "--account"@.len() == 9,
{
    reveal_strlit("--speed");
    reveal_strlit("-m");
    reveal_strlit("--model");
    reveal_strlit("--effort");
    reveal_strlit("--permission");
    reveal_strlit("--provider");
    reveal_strlit("--host");
    reveal_strlit("--account");
    assert("--speed"@[2] == 's' && "--model"@[2] == 'm');
}

proof fn lemma_concat_contains(a: Seq<Flag>, b: Seq<Flag>, x: Flag)
    ensures
        (a + b).contains(x) <==> a.contains(x) || b.contains(x),
{
    let all = a + b;
    if a.contains(x) {
        let i = choose|i: int| 0 <= i < a.len() && a[i] == x;
        assert(all[i] == x);
    }
    if b.contains(x) {
        let i = choose|i: int| 0 <= i < b.len() && b[i] == x;
        assert(all[a.len() + i] == x);
    }
    if all.contains(x) {
        let i = choose|i: int| 0 <= i < all.len() && all[i] == x;
        if i < a.len() {
            assert(a[i] == x);
        } else {
            assert(b[i - a.len()] == x);
        }
    }
}

proof fn lemma_flag_contains(name: Seq<char>, value: Option<Seq<char>>, x: Flag)
    ensures
        flag(name, value).contains(x) <==> x.0 == name && value == Some(x.1),
{
    if x.0 == name && value == Some(x.1) {
        assert(flag(name, value)[0] == x);
    }
}

proof fn lemma_flags_contain(request: RequestView, signed_in: Option<Seq<Seq<char>>>, x: Flag)
    ensures
        request_flags(request, signed_in).contains(x) <==> {
            ||| routing_flags(request).contains(x)
            ||| x.0 == "--effort"@ && effort_value(request) == Some(x.1)
            ||| x.0 == "--permission"@ && given(request, "permission"@) == Some(x.1)
            ||| x.0 == "--provider"@ && provider_value(request) == Some(x.1)
            ||| x.0 == "--host"@ && given(request, "host"@) == Some(x.1)
            ||| x.0 == "--account"@ && account_value(request, signed_in) == Some(x.1)
        },
{
    lemma_given(request, "permission"@);
    lemma_given(request, "host"@);
    let a = routing_flags(request);
    let b = flag("--effort"@, effort_value(request));
    let c = flag("--permission"@, set_option(request, "permission"@));
    let d = flag("--provider"@, provider_value(request));
    let e = flag("--host"@, set_option(request, "host"@));
    let f = flag("--account"@, account_value(request, signed_in));
    lemma_concat_contains(a, b, x);
    lemma_concat_contains(a + b, c, x);
    lemma_concat_contains(a + b + c, d, x);
    lemma_concat_contains(a + b + c + d, e, x);
    lemma_concat_contains(a + b + c + d + e, f, x);
    lemma_flag_contains("--effort"@, effort_value(request), x);
    lemma_flag_contains("--permission"@, set_option(request, "permission"@), x);
    lemma_flag_contains("--provider"@, provider_value(request), x);
    lemma_flag_contains("--host"@, set_option(request, "host"@), x);
    lemma_flag_contains("--account"@, account_value(request, signed_in), x);
}

proof fn lemma_routing_contains(request: RequestView, x: Flag)
    ensures
        routing_flags(request).contains(x) <==> {
            let model = model_of(request);
            ||| wants_fast(request) && x == ("--speed"@, "fast"@)
            ||| !wants_fast(request) && has_slash(model) && x == ("-m"@, model)
            ||| !wants_fast(request) && !has_slash(model) && model != "default"@ && model.len() > 0
                && x == ("--model"@, model)
        },
{
    lemma_routing_words(request);
    let flags = routing_flags(request);
    if flags.len() > 0 {
        assert(flags.len() == 1);
        assert(flags.contains(x) <==> flags[0] == x);
    }
}

/// A permission is passed exactly if one is set, as it is set, whatever else the request
/// asks for; the same goes for the host, and for the provider unless the model names its
/// own, with a slash.
pub proof fn set_options_are_passed(
    request: RequestView,
    signed_in: Option<Seq<Seq<char>>>,
    value: Seq<char>,
)
    ensures
        ({
            let flags = request_flags(request, signed_in);
            &&& flags.contains(("--permission"@, value)) <==> given(request, "permission"@) == Some(
                value,
            )
            &&& flags.contains(("--host"@, value)) <==> given(request, "host"@) == Some(value)
            &&& flags.contains(("--provider"@, value)) <==> given(request, "provider"@) == Some(
                value,
            ) && !has_slash(model_of(request))
        }),
{
    lemma_names_differ();
    lemma_routing_words(request);
    lemma_given(request, "provider"@);
    lemma_routing_contains(request, ("--permission"@, value));
    lemma_routing_contains(request, ("--host"@, value));
    lemma_routing_contains(request, ("--provider"@, value));
    lemma_flags_contain(request, signed_in, ("--permission"@, value));
    lemma_flags_contain(request, signed_in, ("--host"@, value));
    lemma_flags_contain(request, signed_in, ("--provider"@, value));
}

/// An account is passed exactly if one is set and, where the signed-in accounts are known,
/// it is one of them; it is passed as it is set.
pub proof fn set_account_is_passed(
    request: RequestView,
    signed_in: Option<Seq<Seq<char>>>,
    value: Seq<char>,
)
    ensures
        request_flags(request, signed_in).contains(("--account"@, value)) <==> {
            &&& given(request, "account"@) == Some(value)
            &&& signed_in matches Some(ids) ==> ids.contains(value)
        },
{
    lemma_names_differ();
    lemma_given(request, "account"@);
    lemma_routing_contains(request, ("--account"@, value));
    lemma_flags_contain(request, signed_in, ("--account"@, value));
}

/// The word for a reasoning level, for those that have one.
pub open spec fn word_of(level: ReasoningLevel, word: Seq<char>) -> bool {
    ||| level == ReasoningLevel::Minimal && word == "minimal"@
    ||| level == ReasoningLevel::Low && word == "low"@
    ||| level == ReasoningLevel::Medium && word == "medium"@
    ||| level == ReasoningLevel::High && word == "high"@
    ||| (level == ReasoningLevel::XHigh || level == ReasoningLevel::Ultracode) && word == "xhigh"@
    ||| (level == ReasoningLevel::Max || level == ReasoningLevel::Ultra) && word == "max"@
}

/// A reasoning level is passed by its own word; `Off` and `Ultrathink` have none.
pub proof fn levels_have_their_words(level: ReasoningLevel, word: Seq<char>)
    ensures
        level_flag(level) == Some(word) <==> word_of(level, word),
        level == ReasoningLevel::Off || level == ReasoningLevel::Ultrathink ==> level_flag(
            level,
        ) is None,
{
}

/// An effort is passed exactly if one is picked that is not `default`, as it is picked, or
/// if none is picked and the reasoning level has a word, and then that word.
pub proof fn picked_effort_or_level_is_passed(
    request: RequestView,
    signed_in: Option<Seq<Seq<char>>>,
    value: Seq<char>,
)
    ensures
        request_flags(request, signed_in).contains(("--effort"@, value)) <==> {
            ||| given(request, "effort"@) == Some(value) && value != "default"@
            ||| given(request, "effort"@) is None && request.reasoning is Some && word_of(
                request.reasoning->0,
                value,
            )
        },
{
    lemma_names_differ();
    lemma_given(request, "effort"@);
    lemma_routing_contains(request, ("--effort"@, value));
    lemma_flags_contain(request, signed_in, ("--effort"@, value));
    if request.reasoning is Some {
        levels_have_their_words(request.reasoning->0, value);
    }
}

/// The route: the fast one exactly if the model or the speed says so; else the whole model,
/// by the short flag if it names its provider with a slash and by the long one if not;
/// and none for the default model or an empty one.
pub proof fn model_decides_the_route(
    request: RequestView,
    signed_in: Option<Seq<Seq<char>>>,
    value: Seq<char>,
)
    ensures
        ({
            let flags = request_flags(request, signed_in);
            let model = model_of(request);
            &&& flags.contains(("--speed"@, value)) <==> wants_fast(request) && value == "fast"@
            &&& flags.contains(("-m"@, value)) <==> !wants_fast(request) && has_slash(model)
                && value == model
            &&& flags.contains(("--model"@, value)) <==> !wants_fast(request) && !has_slash(model)
                && model != "default"@ && model.len() > 0 && value == model
        }),
{
    lemma_names_differ();
    lemma_routing_contains(request, ("--speed"@, value));
    lemma_routing_contains(request, ("-m"@, value));
    lemma_routing_contains(request, ("--model"@, value));
    lemma_flags_contain(request, signed_in, ("--speed"@, value));
    lemma_flags_contain(request, signed_in, ("-m"@, value));
    lemma_flags_contain(request, signed_in, ("--model"@, value));
}

/// Where a flag stands among the others.
pub open spec fn place(name: Seq<char>) -> int {
    if name == "--speed"@ || name == "-m"@ || name == "--model"@ {
        0
    } else if name == "--effort"@ {
        1
    } else if name == "--permission"@ {
        2
    } else if name == "--provider"@ {
        3
    } else if name == "--host"@ {
        4
    } else if name == "--account"@ {
        5
    } else {
        6
    }
}

/// The flags are in order and none stands behind this place.
spec fn in_place(flags: Seq<Flag>, last: int) -> bool {
    &&& forall|i: int| 0 <= i < flags.len() ==> place((#[trigger] flags[i]).0) <= last
    &&& forall|i: int, j: int|
        0 <= i < j < flags.len() ==> place((#[trigger] flags[i]).0) < place((#[trigger] flags[j]).0)
}

proof fn lemma_in_place(flags: Seq<Flag>, name: Seq<char>, value: Option<Seq<char>>)
    requires
        in_place(flags, place(name) - 1),
    ensures
        in_place(flags + flag(name, value), place(name)),
{
    let all = flags + flag(name, value);
    assert forall|i: int| 0 <= i < all.len() implies place((#[trigger] all[i]).0) <= place(
        name,
    ) by {
        if i < flags.len() {
            assert(all[i] == flags[i]);
        }
    }
    assert forall|i: int, j: int| 0 <= i < j < all.len() implies place((#[trigger] all[i]).0)
        < place((#[trigger] all[j]).0) by {
        assert(all[i] == flags[i]);
        if j < flags.len() {
            assert(all[j] == flags[j]);
        }
    }
}

/// The flags come in one order, each at most once: the route, the effort, the permission,
/// the provider, the host and the account. There are no others.
pub proof fn flags_have_their_places(request: RequestView, signed_in: Option<Seq<Seq<char>>>)
    ensures
        ({
            let flags = request_flags(request, signed_in);
            &&& forall|i: int| 0 <= i < flags.len() ==> place((#[trigger] flags[i]).0) <= 5
            &&& forall|i: int, j: int|
                0 <= i < j < flags.len() ==> place((#[trigger] flags[i]).0) < place(
                    (#[trigger] flags[j]).0,
                )
        }),
{
    lemma_names_differ();
    let a = routing_flags(request);
    assert(in_place(a, 0));
    lemma_in_place(a, "--effort"@, effort_value(request));
    let b = a + flag("--effort"@, effort_value(request));
    let permission = set_option(request, "permission"@);
    lemma_in_place(b, "--permission"@, permission);
    let c = b + flag("--permission"@, permission);
    lemma_in_place(c, "--provider"@, provider_value(request));
    let d = c + flag("--provider"@, provider_value(request));
    let host = set_option(request, "host"@);
    lemma_in_place(d, "--host"@, host);
    let e = d + flag("--host"@, host);
    lemma_in_place(e, "--account"@, account_value(request, signed_in));
}

/// The arguments are the flags one after the other, each name followed by its value, and
/// nothing else.
pub proof fn arguments_are_the_flags(request: RequestView, signed_in: Option<Seq<Seq<char>>>)
    ensures
        ({
            let flags = request_flags(request, signed_in);
            let args = request_args(request, signed_in);
            &&& args.len() == 2 * flags.len()
            &&& forall|i: int|
                0 <= i < flags.len() ==> args[2 * i] == (#[trigger] flags[i]).0 && args[2 * i + 1]
                    == flags[i].1
        }),
{
    arguments_come_in_pairs(request_flags(request, signed_in));
}

/// A turn that goes on with no session passes all the flags; one that goes on with a
/// session passes the account, if it may, and nothing else.
pub proof fn turn_passes_its_flags(request: RequestView, signed_in: Option<Seq<Seq<char>>>)
    ensures
        ({
            let args = turn_args(request, signed_in);
            let account = given(request, "account"@);
            if request.resume is None {
                args == request_args(request, signed_in)
            } else if account is Some && (signed_in matches Some(ids) ==> ids.contains(
                account->0,
            )) {
                args == seq!["--account"@, account->0]
            } else {
                args.len() == 0
            }
        }),
{
    lemma_given(request, "account"@);
    let flags = flag("--account"@, account_value(request, signed_in));
    if account_value(request, signed_in) is Some {
        assert(flags.drop_last() =~= Seq::empty());
        assert(flag_args(flags.drop_last()) =~= Seq::empty());
        assert(flag_args(flags) =~= seq!["--account"@, account_value(request, signed_in)->0]);
    }
}

/// A command on a session follows the flags: `session`, the command, the session's id and,
/// if there is one, the whole prompt, as one argument.
pub proof fn session_command_is_spelled_out(
    request: RequestView,
    signed_in: Option<Seq<Seq<char>>>,
    command: Seq<char>,
    session_id: Seq<char>,
    prompt: Option<Seq<char>>,
)
    ensures
        ({
            let flags = request_args(request, signed_in);
            let args = session_args(request, signed_in, command, session_id, prompt);
            let n = flags.len() as int;
            &&& args.len() == n + if prompt is Some {
                4int
            } else {
                3int
            }
            &&& args.take(n) == flags
            &&& args[n] == "session"@
            &&& args[n + 1] == command
            &&& args[n + 2] == session_id
            &&& prompt matches Some(prompt) ==> args[n + 3] == prompt
        }),
{
    let flags = request_args(request, signed_in);
    let args = session_args(request, signed_in, command, session_id, prompt);
    assert(args.take(flags.len() as int) =~= flags);
}

} // verus!
