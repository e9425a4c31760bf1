//! What holds of a test as a whole: which requests are valid, in what order the actions are
//! done, when the server stops, and when a test passes.

use crate::actions::{APIEndpoint, ActionView};
use crate::container;
use crate::endpoints;
use crate::endpoints::{AgentServer, ContextView, ServerContext, UnknownEndpoint};
use crate::environment;
use crate::environment::EnvironmentView;
use crate::failure::{FailureView, RunView, TestLogView};
use crate::http_server;
use crate::http_server::{HttpRequestView, HttpResponseView};
use crate::runner;
use crate::text;
use crate::text_map;
use vstd::prelude::*;

verus! {

/// The context after a request was served.
pub open spec fn served(request: HttpRequestView, before: ContextView) -> ContextView {
    match text_map::lookup(endpoints::api_routes(), request.request_target) {
        Some(endpoint) => endpoints::context_after(endpoint, request, before),
        None => before,
    }
}

/// The context after requests were served one after the other, up to the one after which
/// the server stops.
pub open spec fn served_all(requests: Seq<HttpRequestView>, before: ContextView) -> ContextView
    decreases requests.len(),
{
    if requests.len() == 0 {
        before
    } else {
        let after = served(requests[0], before);
        if after.terminate_server {
            after
        } else {
            served_all(requests.skip(1), after)
        }
    }
}

/// A call to an endpoint.
pub open spec fn calls(request: HttpRequestView, endpoint: APIEndpoint) -> bool {
    request.request_target == endpoints::route(endpoint).0
}

/// A request does what an action expects.
pub open spec fn fulfils(request: HttpRequestView, action: ActionView) -> bool {
    match environment::call_of(action) {
        Some(endpoint) => calls(request, endpoint) && environment::content_matches(
            action,
            request,
            endpoints::blame_for(endpoint, request),
        ),
        None => false,
    }
}

/// The form in which endpoints are compared is reached in one step, and a slash at the end
/// makes no difference to it.
pub proof fn law_slash_is_ignored(url: Seq<char>)
    ensures
        http_server::relative_url(http_server::relative_url(url)) == http_server::relative_url(url),
        url.len() > 0 && url.last() != '/' ==> http_server::relative_url(url.push('/'))
            == http_server::relative_url(url),
{
}

/// A request for the path of an endpoint, with or without a slash at its end, is handed to
/// that endpoint, and a request with any other target to none.
pub proof fn law_endpoint_is_found(target: Seq<char>, endpoint: APIEndpoint)
    ensures
        text_map::lookup(
            endpoints::api_routes(),
            http_server::relative_url(endpoint.spec_path()),
        ) == Some(endpoint),
        text_map::lookup(
            endpoints::api_routes(),
            http_server::relative_url(endpoint.spec_path().push('/')),
        ) == Some(endpoint),
        text_map::lookup(endpoints::api_routes(), target) == Some(endpoint) <==> target
            == http_server::relative_url(endpoint.spec_path()),
{
    endpoints::lemma_targets_differ();
    let routes = endpoints::api_routes();
    let n: int = match endpoint {
        APIEndpoint::TaskSuccess => 0,
        APIEndpoint::TaskFailure => 1,
        APIEndpoint::TaskInfo => 2,
        APIEndpoint::LLMRequest => 3,
    };
    assert(routes[n] == endpoints::route(endpoint));
    text_map::lemma_key_position_is(routes, endpoints::route(endpoint).0, n);
    text_map::lemma_key_position(routes, target);
    lemma_paths();
    assert(endpoint.spec_path().push('/').last() == '/');
    assert(endpoint.spec_path().push('/') == http_server::relative_url(endpoint.spec_path()));
    if text_map::lookup(routes, target) == Some(endpoint) {
        let k = text_map::key_position(routes, target) as int;
        assert(routes[0].1 == APIEndpoint::TaskSuccess);
        assert(routes[1].1 == APIEndpoint::TaskFailure);
        assert(routes[2].1 == APIEndpoint::TaskInfo);
        assert(routes[3].1 == APIEndpoint::LLMRequest);
        assert(k == n);
    }
}

/// The lengths of the paths, and that none ends with a slash.
proof fn lemma_paths()
    ensures
        APIEndpoint::TaskSuccess.spec_path().len() == 24,
        APIEndpoint::TaskFailure.spec_path().len() == 20,
        APIEndpoint::TaskInfo.spec_path().len() == 15,
        APIEndpoint::LLMRequest.spec_path().len() == 21,
        forall|endpoint: APIEndpoint| (#[trigger] endpoint.spec_path()).last() != '/',
{
    reveal_strlit("/api/agent/task/complete");
    reveal_strlit("/api/agent/task/fail");
    reveal_strlit("/api/agent/task");
    reveal_strlit("/api/chat/completions");
    assert("/api/agent/task/complete"@[23] == 'e');
    assert("/api/agent/task/fail"@[19] == 'l');
    assert("/api/agent/task"@[14] == 'k');
    assert("/api/chat/completions"@[20] == 's');
}

/// A call goes to the endpoint of an action exactly where it is the call that the action is.
proof fn lemma_goes_to(request: HttpRequestView, endpoint: APIEndpoint, action: ActionView)
    requires
        calls(request, endpoint),
    ensures
        environment::goes_to(request, action) <==> environment::call_of(action) == Some(endpoint),
        environment::call_of(action) is Some ==> (environment::mode_matches(
            action,
            endpoints::blame_for(endpoint, request),
        ) <==> environment::call_of(action) == Some(endpoint)),
{
    lemma_paths();
    endpoints::lemma_targets_differ();
    law_slash_is_ignored(endpoint.spec_path());
    let there = endpoints::route(endpoint).0;
    assert(there.len() == endpoint.spec_path().len() + 1);
    let here = http_server::relative_url(environment::endpoint_of(action));
    match environment::call_of(action) {
        Some(other) => {
            assert(here == endpoints::route(other).0);
            assert(here.len() == other.spec_path().len() + 1);
        },
        None => {},
    }
}

/// A call is valid exactly where it is the next serial action or is at no endpoint of the
/// serial actions that are still to be done.
pub proof fn law_valid_requests(
    environment: EnvironmentView,
    request: HttpRequestView,
    endpoint: APIEndpoint,
)
    requires
        calls(request, endpoint),
    ensures
        environment::is_next(environment, request, endpoints::blame_for(endpoint, request)) <==> (
        environment.next() is Some && fulfils(request, environment.next()->0)),
        environment::is_valid(environment, request, endpoints::blame_for(endpoint, request)) <==> (
        environment.next() is Some && fulfils(request, environment.next()->0))
            || !environment::goes_to_any(request, environment.uncompleted()),
{
    let rest = environment.uncompleted();
    if environment.next() is Some {
        let next = environment.next()->0;
        lemma_goes_to(request, endpoint, next);
        assert(rest[0] == next);
        assert(environment::goes_to_any(request, rest) <==> environment::goes_to(request, next)
            || environment::goes_to_any(request, environment.following())) by {
            let following = environment.following();
            if environment::goes_to_any(request, rest) {
                let i = choose|i: int|
                    0 <= i < rest.len() && environment::goes_to(request, #[trigger] rest[i]);
                if i > 0 {
                    assert(following[i - 1] == rest[i]);
                }
            }
            if environment::goes_to_any(request, following) {
                let i = choose|i: int|
                    0 <= i < following.len() && environment::goes_to(
                        request,
                        #[trigger] following[i],
                    );
                assert(rest[i + 1] == following[i]);
            }
        }
    }
}

/// A server with the agent's endpoints answers each request in one way: a call as its
/// endpoint does, and any other request with a response that says that nothing was found,
/// without a change to the context.
pub proof fn law_agent_server(
    server: AgentServer,
    request: HttpRequestView,
    after: ServerContext,
    response: HttpResponseView,
)
    requires
        server.routes() == endpoints::api_routes(),
        server.fallback() == Some(UnknownEndpoint {  }),
        server.responds(request, after, response),
    ensures
        after@ == served(request, server.context@),
        match text_map::lookup(endpoints::api_routes(), request.request_target) {
            Some(endpoint) => response == endpoints::answer_to(
                endpoint,
                request,
                server.context@,
            ),
            None => after == server.context && response == endpoints::not_found_response(),
        },
{
}

/// A request changes nothing of what is expected.
pub proof fn law_expectations_stay(request: HttpRequestView, before: ContextView)
    ensures
        served(request, before).environment.serial_actions == before.environment.serial_actions,
        served(request, before).environment.parallel_actions == before.environment.parallel_actions,
        served(request, before).environment.task == before.environment.task,
{
}

/// However many requests were served, the task that the agent is given is the one that was
/// set, and what is expected is what was expected at first.
pub proof fn law_task_is_given(
    requests: Seq<HttpRequestView>,
    request: HttpRequestView,
    before: ContextView,
)
    ensures
        endpoints::answer_to(APIEndpoint::TaskInfo, request, served_all(requests, before))
            == http_server::with_json(
            endpoints::ok_response(),
            crate::json::json_text(crate::actions::task_document(before.environment.task)),
        ),
        served_all(requests, before).environment.serial_actions
            == before.environment.serial_actions,
        served_all(requests, before).environment.parallel_actions
            == before.environment.parallel_actions,
    decreases requests.len(),
{
    if requests.len() > 0 {
        let after = served(requests[0], before);
        law_expectations_stay(requests[0], before);
        if !after.terminate_server {
            law_task_is_given(requests.skip(1), request, after);
        }
    }
}

/// What is recorded of a request: one entry where it is a call, and nothing otherwise.
pub open spec fn entry_of(request: HttpRequestView) -> Seq<TestLogView> {
    match text_map::lookup(endpoints::api_routes(), request.request_target) {
        Some(endpoint) => seq![endpoints::log_entry_for(endpoint, request)],
        None => seq![],
    }
}

/// What is recorded of requests that are served one after the other, up to the one after
/// which the server stops.
pub open spec fn entries_of(requests: Seq<HttpRequestView>, before: ContextView) -> Seq<TestLogView>
    decreases requests.len(),
{
    if requests.len() == 0 {
        seq![]
    } else {
        let after = served(requests[0], before);
        if after.terminate_server {
            entry_of(requests[0])
        } else {
            entry_of(requests[0]) + entries_of(requests.skip(1), after)
        }
    }
}

/// The log grows by one entry with each call, valid or not, and by none with any other
/// request.
pub proof fn law_call_is_recorded(request: HttpRequestView, before: ContextView)
    ensures
        served(request, before).test_data.log == before.test_data.log + entry_of(request),
{
    assert(served(request, before).test_data.log == before.test_data.log + entry_of(request));
}

/// After requests were served, the log holds what it held before and then every call that
/// was served, in order.
pub proof fn law_calls_are_recorded(requests: Seq<HttpRequestView>, before: ContextView)
    ensures
        served_all(requests, before).test_data.log == before.test_data.log + entries_of(
            requests,
            before,
        ),
    decreases requests.len(),
{
    if requests.len() > 0 {
        let after = served(requests[0], before);
        law_call_is_recorded(requests[0], before);
        if !after.terminate_server {
            law_calls_are_recorded(requests.skip(1), after);
            assert(before.test_data.log + entry_of(requests[0]) + entries_of(
                requests.skip(1),
                after,
            ) == before.test_data.log + entries_of(requests, before));
        }
    } else {
        assert(before.test_data.log + entries_of(requests, before) == before.test_data.log);
    }
}

/// The log of a whole test holds every call of the agent that was served, in order, and then
/// whether the agent could not be stopped.
pub proof fn law_log_of_test(
    environment: EnvironmentView,
    requests: Seq<HttpRequestView>,
    parallel: Seq<ActionView>,
    agent_stop_error: Option<FailureView>,
)
    ensures
        runner::final_data(
            crate::failure::empty_run(),
            parallel,
            agent_stop_error,
            served_all(requests, endpoints::initial_context(environment)),
        ).log == entries_of(requests, endpoints::initial_context(environment)) + if agent_stop_error
            is Some {
            seq![TestLogView::CouldNotStopAgent]
        } else {
            seq![]
        },
{
    let before = endpoints::initial_context(environment);
    let server = served_all(requests, before);
    let stopped = if agent_stop_error is Some {
        seq![TestLogView::CouldNotStopAgent]
    } else {
        seq![]
    };
    law_calls_are_recorded(requests, before);
    law_reasons_of_failure(crate::failure::empty_run(), parallel, agent_stop_error, server);
    assert(server.test_data.log == entries_of(requests, before));
    assert(server.test_data.log + Seq::<TestLogView>::empty() + stopped == server.test_data.log
        + stopped);
}

/// A request moves the queue on by one action where it does what the next one expects, and
/// not at all otherwise.
pub proof fn law_queue_moves_by_one(request: HttpRequestView, before: ContextView)
    requires
        before.environment.serial_actions.len() <= usize::MAX,
    ensures
        served(request, before).environment.serial_action_index
            == before.environment.serial_action_index + if before.environment.next() is Some
            && fulfils(request, before.environment.next()->0) {
            1int
        } else {
            0int
        },
{
    match text_map::lookup(endpoints::api_routes(), request.request_target) {
        Some(endpoint) => {
            law_endpoint_is_found(request.request_target, endpoint);
            law_valid_requests(before.environment, request, endpoint);
        },
        None => {
            if before.environment.next() is Some {
                let endpoint = environment::call_of(before.environment.next()->0)->0;
                law_endpoint_is_found(request.request_target, endpoint);
            }
        },
    }
}

/// The server stops after a call that ends the test and after one that is blamed, and after
/// no other request.
pub proof fn law_when_server_stops(request: HttpRequestView, before: ContextView)
    requires
        !before.terminate_server,
        before.test_data.failure is None,
    ensures
        served(request, before).terminate_server <==> (calls(request, APIEndpoint::TaskSuccess)
            || calls(request, APIEndpoint::TaskFailure) || served(
            request,
            before,
        ).test_data.failure is Some),
{
    law_endpoint_is_found(request.request_target, APIEndpoint::TaskSuccess);
    law_endpoint_is_found(request.request_target, APIEndpoint::TaskFailure);
}

/// While the server runs, no failure is recorded: a failure stops it, and so is never
/// replaced by a later request.
pub proof fn law_no_failure_while_running(requests: Seq<HttpRequestView>, before: ContextView)
    requires
        before.test_data.failure is None,
    ensures
        served_all(requests, before).test_data.failure is Some ==> served_all(
            requests,
            before,
        ).terminate_server,
    decreases requests.len(),
{
    if requests.len() > 0 {
        let after = served(requests[0], before);
        if !after.terminate_server {
            law_no_failure_while_running(requests.skip(1), after);
        }
    }
}

/// The places of the requests that did the next serial action when they were served.
pub open spec fn doing(requests: Seq<HttpRequestView>, before: ContextView) -> Seq<int>
    decreases requests.len(),
{
    if requests.len() == 0 {
        seq![]
    } else {
        let after = served(requests[0], before);
        let first = if before.environment.next() is Some && fulfils(
            requests[0],
            before.environment.next()->0,
        ) {
            seq![0int]
        } else {
            seq![]
        };
        if after.terminate_server {
            first
        } else {
            first + doing(requests.skip(1), after).map_values(|place: int| place + 1)
        }
    }
}

/// The serial actions are done in the given order: each one that the queue has moved past
/// was done by a request of its own, and these requests came one after the other.
pub proof fn law_done_in_order(requests: Seq<HttpRequestView>, before: ContextView)
    requires
        before.environment.serial_actions.len() <= usize::MAX,
    ensures
        ({
            let places = doing(requests, before);
            let start = before.environment.serial_action_index as int;
            let after = served_all(requests, before);
            &&& after.environment.serial_actions == before.environment.serial_actions
            &&& after.environment.serial_action_index == start + places.len()
            &&& places.len() > 0 ==> start + places.len()
                <= before.environment.serial_actions.len()
            &&& forall|i: int, j: int| 0 <= i < j < places.len() ==> places[i] < places[j]
            &&& forall|i: int| #![trigger places[i]]
                0 <= i < places.len() ==> 0 <= places[i] < requests.len() && fulfils(
                    requests[places[i]],
                    before.environment.serial_actions[start + i],
                )
        }),
    decreases requests.len(),
{
    if requests.len() > 0 {
        let after = served(requests[0], before);
        let places = doing(requests, before);
        let start = before.environment.serial_action_index as int;
        law_queue_moves_by_one(requests[0], before);
        law_expectations_stay(requests[0], before);
        if !after.terminate_server {
            let rest = requests.skip(1);
            law_done_in_order(rest, after);
            let later = doing(rest, after);
            let moved = later.map_values(|place: int| place + 1);
            let first: int = if before.environment.next() is Some && fulfils(
                requests[0],
                before.environment.next()->0,
            ) {
                1
            } else {
                0
            };
            assert forall|i: int| #![trigger places[i]] 0 <= i < places.len() implies 0 <= places[i]
                < requests.len() && fulfils(
                requests[places[i]],
                before.environment.serial_actions[start + i],
            ) by {
                if i >= first {
                    assert(places[i] == moved[i - first]);
                    assert(places[i] == later[i - first] + 1);
                    assert(rest[later[i - first]] == requests[places[i]]);
                }
            }
            assert forall|i: int, j: int| 0 <= i < j < places.len() implies places[i]
                < places[j] by {
                assert(places[j] == later[j - first] + 1);
                if i >= first {
                    assert(places[i] == later[i - first] + 1);
                }
            }
        }
    }
}

/// A request calls the endpoint of one of the actions.
pub open spec fn called_for(request: HttpRequestView, list: Seq<ActionView>) -> bool {
    exists|i: int|
        0 <= i < list.len() && environment::call_of(#[trigger] list[i]) is Some && calls(
            request,
            environment::call_of(list[i])->0,
        )
}

/// The requests do the actions, each in its turn. What comes in between is no call for an
/// action that is still to be done and does not end the test, and only the last action ends
/// it.
pub open spec fn does_all(requests: Seq<HttpRequestView>, list: Seq<ActionView>) -> bool
    decreases requests.len(),
{
    if list.len() == 0 {
        true
    } else if requests.len() == 0 {
        false
    } else if fulfils(requests[0], list[0]) {
        if endpoints::ends_test(environment::call_of(list[0])->0) {
            list.len() == 1
        } else {
            does_all(requests.skip(1), list.skip(1))
        }
    } else {
        &&& !called_for(requests[0], list)
        &&& !calls(requests[0], APIEndpoint::TaskSuccess)
        &&& !calls(requests[0], APIEndpoint::TaskFailure)
        &&& does_all(requests.skip(1), list)
    }
}

/// A call for one of the actions goes to the endpoint of one of them.
proof fn lemma_called_for(
    request: HttpRequestView,
    endpoint: APIEndpoint,
    list: Seq<ActionView>,
)
    requires
        calls(request, endpoint),
    ensures
        called_for(request, list) <==> environment::goes_to_any(request, list),
{
    law_endpoint_is_found(request.request_target, endpoint);
    if called_for(request, list) {
        let i = choose|i: int|
            0 <= i < list.len() && environment::call_of(#[trigger] list[i]) is Some && calls(
                request,
                environment::call_of(list[i])->0,
            );
        law_endpoint_is_found(request.request_target, environment::call_of(list[i])->0);
        lemma_goes_to(request, endpoint, list[i]);
        assert(environment::goes_to(request, list[i]));
    }
    if environment::goes_to_any(request, list) {
        let i = choose|i: int|
            0 <= i < list.len() && environment::goes_to(request, #[trigger] list[i]);
        lemma_goes_to(request, endpoint, list[i]);
        assert(environment::call_of(list[i]) is Some);
    }
}

/// What one request does to a test that is still running: where it does the next action, the
/// queue moves on; otherwise it is blamed exactly where it is a call for an action that is
/// still to be done.
proof fn lemma_one_request(request: HttpRequestView, before: ContextView)
    requires
        before.environment.serial_actions.len() <= usize::MAX,
        before.test_data.failure is None,
        !before.terminate_server,
    ensures
        ({
            let after = served(request, before);
            let list = before.environment.uncompleted();
            &&& after.environment.serial_actions == before.environment.serial_actions
            &&& if list.len() > 0 && fulfils(request, list[0]) {
                &&& after.test_data.failure is None
                &&& after.environment.uncompleted() == list.skip(1)
                &&& after.terminate_server == endpoints::ends_test(environment::call_of(list[0])->0)
            } else {
                &&& after.environment == before.environment
                &&& after.test_data.failure is Some <==> called_for(request, list)
                &&& after.terminate_server <==> called_for(request, list) || calls(
                    request,
                    APIEndpoint::TaskSuccess,
                ) || calls(request, APIEndpoint::TaskFailure)
            }
        }),
{
    let list = before.environment.uncompleted();
    let after = served(request, before);
    if list.len() > 0 {
        assert(list[0] == before.environment.next()->0);
    }
    law_queue_moves_by_one(request, before);
    law_when_server_stops(request, before);
    match text_map::lookup(endpoints::api_routes(), request.request_target) {
        Some(endpoint) => {
            law_endpoint_is_found(request.request_target, endpoint);
            law_valid_requests(before.environment, request, endpoint);
            lemma_called_for(request, endpoint, list);
            if list.len() > 0 && fulfils(request, list[0]) {
                law_endpoint_is_found(request.request_target, environment::call_of(list[0])->0);
                assert(after.environment.uncompleted() == list.skip(1));
            }
        },
        None => {
            if called_for(request, list) {
                let i = choose|i: int|
                    0 <= i < list.len() && environment::call_of(#[trigger] list[i]) is Some && calls(
                        request,
                        environment::call_of(list[i])->0,
                    );
                law_endpoint_is_found(request.request_target, environment::call_of(list[i])->0);
            }
            if list.len() > 0 && fulfils(request, list[0]) {
                law_endpoint_is_found(request.request_target, environment::call_of(list[0])->0);
            }
        },
    }
}

/// An agent is blamed for nothing and leaves no serial action undone exactly where its
/// requests do the actions, each in its turn.
pub proof fn law_when_calls_pass(requests: Seq<HttpRequestView>, before: ContextView)
    requires
        before.environment.serial_actions.len() <= usize::MAX,
        before.test_data.failure is None,
        !before.terminate_server,
    ensures
        served_all(requests, before).test_data.failure is None && served_all(
            requests,
            before,
        ).environment.uncompleted().len() == 0 <==> does_all(
            requests,
            before.environment.uncompleted(),
        ),
    decreases requests.len(),
{
    if requests.len() > 0 {
        let after = served(requests[0], before);
        lemma_one_request(requests[0], before);
        if !after.terminate_server {
            law_when_calls_pass(requests.skip(1), after);
        }
    }
}

/// Requests that do the actions one after the other, of which only the last ends the test,
/// do them each in its turn.
pub proof fn law_actions_in_order(requests: Seq<HttpRequestView>, list: Seq<ActionView>)
    requires
        requests.len() == list.len(),
        forall|i: int| 0 <= i < requests.len() ==> fulfils(#[trigger] requests[i], list[i]),
        forall|i: int| 0 <= i < list.len() - 1 ==> (#[trigger] list[i]) is LLMCall,
    ensures
        does_all(requests, list),
    decreases requests.len(),
{
    if requests.len() > 0 {
        let rest = requests.skip(1);
        let later = list.skip(1);
        assert(fulfils(requests[0], list[0]));
        assert forall|i: int| 0 <= i < rest.len() implies fulfils(#[trigger] rest[i], later[i]) by {
            assert(rest[i] == requests[i + 1]);
        }
        assert forall|i: int| 0 <= i < later.len() - 1 implies (
        #[trigger] later[i]) is LLMCall by {
            assert(later[i] == list[i + 1]);
        }
        law_actions_in_order(rest, later);
        if list.len() > 1 {
            assert(list[0] is LLMCall);
        }
    }
}

/// A call to the language model that does what the next serial action expects is answered
/// with the response given for it.
pub proof fn law_expected_prompt_is_answered(
    request: HttpRequestView,
    before: ContextView,
    call: crate::actions::LLMCallView,
)
    requires
        before.environment.next() == Some(ActionView::LLMCall(call)),
        calls(request, APIEndpoint::LLMRequest),
        call.prompt is None || call.prompt == Some(request.body),
    ensures
        endpoints::answer_to(APIEndpoint::LLMRequest, request, before) == http_server::with_json(
            endpoints::ok_response(),
            crate::json::json_text(endpoints::chat_document(call.response.spec_text())),
        ),
        served(request, before).test_data.failure is None,
{
    law_endpoint_is_found(request.request_target, APIEndpoint::LLMRequest);
    law_valid_requests(before.environment, request, APIEndpoint::LLMRequest);
}

/// A call that brings another prompt, or another failure report, than the next serial action
/// expects is blamed, and stops the server.
pub proof fn law_content_has_to_correspond(
    request: HttpRequestView,
    before: ContextView,
    expected: Seq<char>,
    response: crate::actions::LLMResponseView,
)
    requires
        request.body != expected,
    ensures
        calls(request, APIEndpoint::LLMRequest) && before.environment.next() == Some(
            ActionView::LLMCall(crate::actions::LLMCallView { prompt: Some(expected), response }),
        ) ==> {
            &&& served(request, before).test_data.failure == Some(
                FailureView::CallToLLM(request.body),
            )
            &&& served(request, before).terminate_server
        },
        calls(request, APIEndpoint::TaskFailure) && before.environment.next() == Some(
            ActionView::TaskFailure(Some(expected)),
        ) ==> {
            &&& served(request, before).test_data.failure == Some(FailureView::CallToFailure)
            &&& served(request, before).terminate_server
        },
{
    law_endpoint_is_found(request.request_target, APIEndpoint::LLMRequest);
    law_endpoint_is_found(request.request_target, APIEndpoint::TaskFailure);
}

/// The reasons that a failure is made of.
pub open spec fn reasons(failure: FailureView) -> Seq<FailureView>
    decreases failure,
{
    match failure {
        FailureView::Multiple(a, b) => reasons(*a) + reasons(*b),
        _ => seq![failure],
    }
}

/// The reasons that an optional failure is made of.
pub open spec fn optional_reasons(failure: Option<FailureView>) -> Seq<FailureView> {
    match failure {
        Some(failure) => reasons(failure),
        None => seq![],
    }
}

/// Merging two failures keeps every reason, in order. No failure is neutral, there is none
/// where both are none, and the reasons do not depend on which of three are merged first.
pub proof fn law_merge_keeps_reasons(
    a: Option<FailureView>,
    b: Option<FailureView>,
    c: Option<FailureView>,
)
    ensures
        optional_reasons(runner::merged_failure(a, b)) == optional_reasons(a) + optional_reasons(b),
        runner::merged_failure(a, None) == a,
        runner::merged_failure(None, b) == b,
        runner::merged_failure(a, b) is None <==> a is None && b is None,
        optional_reasons(runner::merged_failure(runner::merged_failure(a, b), c))
            == optional_reasons(runner::merged_failure(a, runner::merged_failure(b, c))),
{
    lemma_merge_reasons(a, b);
    lemma_merge_reasons(b, c);
    lemma_merge_reasons(runner::merged_failure(a, b), c);
    lemma_merge_reasons(a, runner::merged_failure(b, c));
    assert(optional_reasons(a) + optional_reasons(b) + optional_reasons(c) == optional_reasons(a)
        + (optional_reasons(b) + optional_reasons(c)));
}

proof fn lemma_merge_reasons(a: Option<FailureView>, b: Option<FailureView>)
    ensures
        optional_reasons(runner::merged_failure(a, b)) == optional_reasons(a) + optional_reasons(b),
{
    assert(optional_reasons(runner::merged_failure(a, b)) == optional_reasons(a)
        + optional_reasons(b));
}

/// A test passes exactly where nothing was known against it, the server blamed no request,
/// every parallel and every serial action was done, and the agent was stopped without an
/// error.
pub proof fn law_when_test_passes(
    known: RunView,
    parallel: Seq<ActionView>,
    agent_stop_error: Option<FailureView>,
    server: ContextView,
)
    ensures
        runner::final_data(known, parallel, agent_stop_error, server).failure is None <==> {
            &&& known.failure is None
            &&& server.test_data.failure is None
            &&& parallel.len() == 0
            &&& server.environment.uncompleted().len() == 0
            &&& agent_stop_error is None
        },
{
}

/// The reasons for the failure of a test are those that the server recorded, those that were
/// known, the missing parallel actions, the failure to stop the agent, and the missing
/// serial actions, in that order; and what was logged stays logged.
pub proof fn law_reasons_of_failure(
    known: RunView,
    parallel: Seq<ActionView>,
    agent_stop_error: Option<FailureView>,
    server: ContextView,
)
    ensures
        ({
            let data = runner::final_data(known, parallel, agent_stop_error, server);
            &&& optional_reasons(data.failure) == optional_reasons(server.test_data.failure)
                + optional_reasons(known.failure) + optional_reasons(runner::missing(parallel))
                + optional_reasons(agent_stop_error) + optional_reasons(
                runner::missing(server.environment.uncompleted()),
            )
            &&& data.log == server.test_data.log + known.log + if agent_stop_error is Some {
                seq![TestLogView::CouldNotStopAgent]
            } else {
                seq![]
            }
        }),
{
    let serial = runner::missing(server.environment.uncompleted());
    let first = runner::merged_failure(known.failure, runner::missing(parallel));
    let second = runner::merged_failure(first, agent_stop_error);
    lemma_merge_reasons(known.failure, runner::missing(parallel));
    lemma_merge_reasons(first, agent_stop_error);
    lemma_merge_reasons(second, serial);
    lemma_merge_reasons(server.test_data.failure, runner::merged_failure(second, serial));
    let data = runner::final_data(known, parallel, agent_stop_error, server);
    assert(optional_reasons(data.failure) == optional_reasons(server.test_data.failure)
        + optional_reasons(known.failure) + optional_reasons(runner::missing(parallel))
        + optional_reasons(agent_stop_error) + optional_reasons(serial));
    assert(data.log == server.test_data.log + known.log + if agent_stop_error is Some {
        seq![TestLogView::CouldNotStopAgent]
    } else {
        seq![]
    });
}

/// An agent passes its test exactly where its requests do the serial actions, each in its
/// turn, every parallel action was done, and it stopped without an error.
pub proof fn law_when_agent_passes(
    environment: EnvironmentView,
    requests: Seq<HttpRequestView>,
    parallel: Seq<ActionView>,
    agent_stop_error: Option<FailureView>,
)
    requires
        environment.serial_action_index == 0,
        environment.serial_actions.len() <= usize::MAX,
    ensures
        runner::final_data(
            crate::failure::empty_run(),
            parallel,
            agent_stop_error,
            served_all(requests, endpoints::initial_context(environment)),
        ).failure is None <==> {
            &&& does_all(requests, environment.serial_actions)
            &&& parallel.len() == 0
            &&& agent_stop_error is None
        },
{
    let before = endpoints::initial_context(environment);
    assert(environment.uncompleted() == environment.serial_actions);
    law_when_calls_pass(requests, before);
    law_when_test_passes(
        crate::failure::empty_run(),
        parallel,
        agent_stop_error,
        served_all(requests, before),
    );
}

/// The parallel actions that are still to be done are none exactly where every check says
/// that its action was done.
pub proof fn law_undone<E>(checked: Seq<Result<bool, E>>, list: Seq<ActionView>)
    requires
        checked.len() == list.len(),
    ensures
        runner::undone(checked, list).len() == 0 <==> (forall|i: int|
            0 <= i < checked.len() ==> (#[trigger] checked[i]) != Ok::<bool, E>(false)),
        forall|action: ActionView|
            #![trigger runner::undone(checked, list).contains(action)]
            runner::undone(checked, list).contains(action) <==> (exists|i: int|
                0 <= i < list.len() && #[trigger] list[i] == action && checked[i] == Ok::<bool, E>(
                    false,
                )),
    decreases list.len(),
{
    let all = runner::undone(checked, list);
    if list.len() > 0 {
        let rest = runner::undone(checked.skip(1), list.skip(1));
        law_undone(checked.skip(1), list.skip(1));
        if checked[0] != Ok::<bool, E>(false) {
            assert(all == rest);
        } else {
            assert(all == seq![list[0]] + rest);
        }
        assert(all.len() == 0 <==> (forall|i: int|
            0 <= i < checked.len() ==> (#[trigger] checked[i]) != Ok::<bool, E>(false))) by {
            if all.len() == 0 {
                assert forall|i: int| 0 <= i < checked.len() implies (#[trigger] checked[i])
                    != Ok::<bool, E>(false) by {
                    if i > 0 {
                        assert(checked.skip(1)[i - 1] == checked[i]);
                    }
                }
            } else if checked[0] != Ok::<bool, E>(false) {
                let k = choose|k: int|
                    0 <= k < checked.skip(1).len() && (#[trigger] checked.skip(1)[k]) == Ok::<
                        bool,
                        E,
                    >(false);
                assert(checked[k + 1] == Ok::<bool, E>(false));
            }
        }
        assert forall|action: ActionView|
            #![trigger all.contains(action)]
            all.contains(action) <==> (exists|i: int|
                0 <= i < list.len() && #[trigger] list[i] == action && checked[i] == Ok::<bool, E>(
                    false,
                )) by {
            if all.contains(action) {
                let k = choose|k: int| 0 <= k < all.len() && all[k] == action;
                if checked[0] == Ok::<bool, E>(false) && k == 0 {
                    assert(list[0] == action);
                } else {
                    let offset: int = if checked[0] == Ok::<bool, E>(false) {
                        1
                    } else {
                        0
                    };
                    assert(rest[k - offset] == action);
                    assert(rest.contains(action));
                    let i = choose|i: int|
                        0 <= i < list.skip(1).len() && #[trigger] list.skip(1)[i] == action
                            && checked.skip(1)[i] == Ok::<bool, E>(false);
                    assert(list[i + 1] == action);
                }
            }
            if exists|i: int|
                0 <= i < list.len() && #[trigger] list[i] == action && checked[i] == Ok::<bool, E>(
                    false,
                ) {
                let i = choose|i: int|
                    0 <= i < list.len() && #[trigger] list[i] == action && checked[i] == Ok::<
                        bool,
                        E,
                    >(false);
                if i == 0 {
                    assert(all[0] == action);
                } else {
                    assert(list.skip(1)[i - 1] == action);
                    assert(checked.skip(1)[i - 1] == checked[i]);
                    assert(rest.contains(action));
                    let k = choose|k: int| 0 <= k < rest.len() && rest[k] == action;
                    let offset: int = if checked[0] == Ok::<bool, E>(false) {
                        1
                    } else {
                        0
                    };
                    assert(all[k + offset] == action);
                }
            }
        }
    }
}

/// Of the members of an archive with the same path the last one gives the file, and a path
/// without a member gives none.
pub proof fn law_last_member_counts(
    members: Seq<(Option<Seq<char>>, Seq<char>)>,
    path: Seq<char>,
)
    requires
        container::unicode_paths(members),
    ensures
        text_map::distinct_keys(container::files_of(members)),
        forall|i: int|
            0 <= i < members.len() && (#[trigger] members[i]).0 == Some(path) && (forall|j: int|
                i < j < members.len() ==> (#[trigger] members[j]).0 != Some(path))
                ==> text_map::lookup(container::files_of(members), path) == Some(members[i].1),
        (forall|i: int| 0 <= i < members.len() ==> (#[trigger] members[i]).0 != Some(path))
            ==> text_map::lookup(container::files_of(members), path) is None,
    decreases members.len(),
{
    if members.len() > 0 {
        let init = members.drop_last();
        assert forall|i: int| 0 <= i < init.len() implies (#[trigger] init[i]).0 is Some by {
            assert(init[i] == members[i]);
        }
        law_last_member_counts(init, path);
        let last = members.last();
        assert(members[members.len() - 1].0 is Some);
        let here = last.0->0;
        text_map::law_upsert(container::files_of(init), here, last.1, path);
        assert forall|i: int|
            0 <= i < members.len() && (#[trigger] members[i]).0 == Some(path) && (forall|j: int|
                i < j < members.len() ==> (#[trigger] members[j]).0 != Some(
                    path,
                )) implies text_map::lookup(container::files_of(members), path) == Some(
            members[i].1,
        ) by {
            if i < members.len() - 1 {
                assert(members[members.len() - 1].0 != Some(path));
                assert(init[i] == members[i]);
                assert forall|j: int| i < j < init.len() implies (#[trigger] init[j]).0 != Some(
                    path,
                ) by {
                    assert(init[j] == members[j]);
                }
            }
        }
        if forall|i: int| 0 <= i < members.len() ==> (#[trigger] members[i]).0 != Some(path) {
            assert(members[members.len() - 1].0 != Some(path));
            assert forall|i: int| 0 <= i < init.len() implies (#[trigger] init[i]).0 != Some(
                path,
            ) by {
                assert(init[i] == members[i]);
            }
        }
    }
}

/// The agent is told the port at which the server waits, and a base URL under which every
/// endpoint is.
pub proof fn law_agent_finds_endpoints(endpoint: APIEndpoint)
    ensures
        "MINION_API_BASE_URL=http://host.docker.internal:3000/api/"@
            == "MINION_API_BASE_URL=http://host.docker.internal:"@ + text::decimal(
            container::API_PORT as nat,
        ) + "/api/"@,
        endpoint.spec_path().len() >= 5,
        endpoint.spec_path().take(5) == "/api/"@,
{
    reveal_strlit("MINION_API_BASE_URL=http://host.docker.internal:3000/api/");
    reveal_strlit("MINION_API_BASE_URL=http://host.docker.internal:");
    reveal_strlit("/api/");
    reveal_strlit("/api/agent/task/complete");
    reveal_strlit("/api/agent/task/fail");
    reveal_strlit("/api/agent/task");
    reveal_strlit("/api/chat/completions");
    reveal_with_fuel(text::decimal, 5);
    let port = text::decimal(container::API_PORT as nat);
    assert(port == seq!['3', '0', '0', '0']);
    assert("MINION_API_BASE_URL=http://host.docker.internal:3000/api/"@
        == "MINION_API_BASE_URL=http://host.docker.internal:"@ + port + "/api/"@);
    assert(endpoint.spec_path().take(5) == "/api/"@);
}

} // verus!
