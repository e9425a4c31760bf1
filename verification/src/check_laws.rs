//! How each call of an agent is judged and answered.

use crate::actions;
use crate::actions::{
    APIEndpoint, ActionView, AgentExpectedAction, LLMCall, LLMCallView, LLMResponse,
    LLMResponseView, Task,
};
use crate::endpoints;
use crate::endpoints::{AgentServer, ServerContext};
use crate::environment;
use crate::environment::{AgentTestEnvironment, EnvironmentView};
use crate::failure::{FailureView, TestFailure, TestLogView};
use crate::http_server;
use crate::http_server::{
    Callback, Error, HttpRequest, HttpRequestView, HttpResponse, ServerEvent, ServerStep,
};
use crate::json;
use crate::json::{Json, JsonView};
use crate::text;
use crate::text_map;
use vstd::prelude::*;

verus! {

/// A request is for the given path, with or without a slash at its end.
pub open spec fn is_for(request: HttpRequestView, path: Seq<char>) -> bool {
    request.request_target == path || request.request_target == path + seq!['/']
}

/// Only the place in the queue differs, and it is `steps` further on.
pub open spec fn moved_by(before: EnvironmentView, after: EnvironmentView, steps: int) -> bool {
    &&& after.serial_actions == before.serial_actions
    &&& after.parallel_actions == before.parallel_actions
    &&& after.task == before.task
    &&& after.serial_action_index == before.serial_action_index + steps
}

proof fn lemma_path_lengths()
    ensures
        APIEndpoint::TaskSuccess.spec_path() == "/api/agent/task/complete"@,
        APIEndpoint::TaskFailure.spec_path() == "/api/agent/task/fail"@,
        APIEndpoint::TaskInfo.spec_path() == "/api/agent/task"@,
        APIEndpoint::LLMRequest.spec_path() == "/api/chat/completions"@,
        "/api/agent/task/complete"@.len() == 24,
        "/api/agent/task/fail"@.len() == 20,
        "/api/agent/task"@.len() == 15,
        "/api/chat/completions"@.len() == 21,
        forall|endpoint: APIEndpoint| (#[trigger] endpoint.spec_path()).last() != '/',
{
    reveal_strlit("/api/agent/task/complete");
    reveal_strlit("/api/agent/task/fail");
    reveal_strlit("/api/agent/task");
    reveal_strlit("/api/chat/completions");
    assert("/api/agent/task/complete"@[23] == 'e');
    assert("/api/agent/task/fail"@[19] == 'l');
    assert("/api/agent/task"@[14] == 'k');
    assert("/api/chat/completions"@[20] == 's');
}

proof fn lemma_for(request: HttpRequestView, endpoint: APIEndpoint)
    requires
        is_for(request, endpoint.spec_path()),
    ensures
        http_server::relative_url(request.request_target) == endpoint.spec_path() + seq!['/'],
{
    lemma_path_lengths();
    assert(endpoint.spec_path() + seq!['/'] == endpoint.spec_path().push('/'));
}

proof fn lemma_goes_to(request: HttpRequestView, endpoint: APIEndpoint, action: ActionView)
    requires
        is_for(request, endpoint.spec_path()),
    ensures
        environment::goes_to(request, action) <==> environment::call_of(action) == Some(endpoint),
{
    lemma_path_lengths();
    lemma_for(request, endpoint);
    if environment::call_of(action) is Some {
        let other = environment::call_of(action)->0;
        assert(environment::endpoint_of(action) == other.spec_path());
        assert(http_server::relative_url(other.spec_path()) == other.spec_path().push('/'));
        assert((endpoint.spec_path() + seq!['/']).len() == endpoint.spec_path().len() + 1);
        assert(endpoint.spec_path() + seq!['/'] == endpoint.spec_path().push('/'));
    }
}

/// A call that is not the next action is valid exactly where no action that is still to be
/// done is such a call.
proof fn lemma_valid(
    before: EnvironmentView,
    request: HttpRequestView,
    failure: FailureView,
    endpoint: APIEndpoint,
)
    requires
        is_for(request, endpoint.spec_path()),
        before.serial_actions.len() <= usize::MAX,
        forall|action: ActionView|
            #![trigger environment::mode_matches(action, failure)]
            environment::call_of(action) is Some ==> (environment::mode_matches(action, failure)
                <==> environment::call_of(action) == Some(endpoint)),
    ensures
        environment::is_valid(before, request, failure) <==> environment::is_next(
            before,
            request,
            failure,
        ) || forall|j: int|
            before.serial_action_index <= j < before.serial_actions.len() ==> environment::call_of(
                #[trigger] before.serial_actions[j],
            ) != Some(endpoint),
{
    let list = before.serial_actions;
    let i = before.serial_action_index as int;
    let following = before.following();
    if i < list.len() {
        let next = list[i];
        assert(before.next() == Some(next));
        assert(following.len() == list.len() - i - 1);
        assert(environment::mode_matches(next, failure) || !environment::mode_matches(
            next,
            failure,
        ));
        assert forall|k: int| 0 <= k < following.len() implies #[trigger] following[k] == list[i + 1
            + k] by {}
        if environment::goes_to_any(request, following) {
            let k = choose|k: int|
                0 <= k < following.len() && environment::goes_to(request, #[trigger] following[k]);
            lemma_goes_to(request, endpoint, following[k]);
            assert(list[i + 1 + k] == following[k]);
        } else {
            assert forall|j: int| i < j < list.len() implies environment::call_of(
                #[trigger] list[j],
            ) != Some(endpoint) by {
                lemma_goes_to(request, endpoint, list[j]);
                assert(following[j - i - 1] == list[j]);
            }
        }
    }
}

/// A call to the success endpoint, whatever it says, is the next action where that expects
/// success, whatever report it names. Otherwise it is valid exactly where no success is
/// expected any more. The queue moves on past the next action alone.
pub proof fn law_success_call(
    env: &mut AgentTestEnvironment,
    request: HttpRequest,
    failure: TestFailure,
    r: bool,
)
    requires
        call_ensures(AgentTestEnvironment::check_api_request, (env, request, &failure), r),
        is_for(request@, "/api/agent/task/complete"@),
        failure@ is CallToSuccess,
        old(env)@.serial_actions.len() <= usize::MAX,
    ensures
        ({
            let list = old(env)@.serial_actions;
            let i = old(env)@.serial_action_index as int;
            if i < list.len() && list[i] is TaskSuccess {
                r && moved_by(old(env)@, final(env)@, 1)
            } else {
                &&& moved_by(old(env)@, final(env)@, 0)
                &&& r <==> forall|j: int| i <= j < list.len() ==> !((#[trigger] list[j]) is TaskSuccess)
            }
        }),
{
    lemma_path_lengths();
    lemma_valid(old(env)@, request@, failure@, APIEndpoint::TaskSuccess);
    let list = old(env)@.serial_actions;
    assert forall|j: int| 0 <= j < list.len() implies ((#[trigger] list[j]) is TaskSuccess
        <==> environment::call_of(list[j]) == Some(APIEndpoint::TaskSuccess)) by {}
}

/// A call to the failure endpoint is the next action where that expects failure and, where it
/// names a report, the call says just that. Otherwise it is valid exactly where no failure is
/// expected any more.
pub proof fn law_failure_call(
    env: &mut AgentTestEnvironment,
    request: HttpRequest,
    failure: TestFailure,
    r: bool,
)
    requires
        call_ensures(AgentTestEnvironment::check_api_request, (env, request, &failure), r),
        is_for(request@, "/api/agent/task/fail"@),
        failure@ is CallToFailure,
        old(env)@.serial_actions.len() <= usize::MAX,
    ensures
        ({
            let list = old(env)@.serial_actions;
            let i = old(env)@.serial_action_index as int;
            if i < list.len() && (list[i] == ActionView::TaskFailure(None) || list[i]
                == ActionView::TaskFailure(Some(request.body@))) {
                r && moved_by(old(env)@, final(env)@, 1)
            } else {
                &&& moved_by(old(env)@, final(env)@, 0)
                &&& r <==> forall|j: int| i <= j < list.len() ==> !((#[trigger] list[j]) is TaskFailure)
            }
        }),
{
    lemma_path_lengths();
    lemma_valid(old(env)@, request@, failure@, APIEndpoint::TaskFailure);
    let list = old(env)@.serial_actions;
    assert forall|j: int| 0 <= j < list.len() implies ((#[trigger] list[j]) is TaskFailure
        <==> environment::call_of(list[j]) == Some(APIEndpoint::TaskFailure)) by {}
}

/// A call to the language model is the next action where that expects such a call and, where
/// it names a prompt, the call has just that. Otherwise it is valid exactly where no such
/// call is expected any more.
pub proof fn law_llm_call(
    env: &mut AgentTestEnvironment,
    request: HttpRequest,
    failure: TestFailure,
    prompt: Seq<char>,
    r: bool,
)
    requires
        call_ensures(AgentTestEnvironment::check_api_request, (env, request, &failure), r),
        is_for(request@, "/api/chat/completions"@),
        failure@ == FailureView::CallToLLM(prompt),
        old(env)@.serial_actions.len() <= usize::MAX,
    ensures
        ({
            let list = old(env)@.serial_actions;
            let i = old(env)@.serial_action_index as int;
            if i < list.len() && list[i] is LLMCall && (list[i]->LLMCall_0.prompt is None
                || list[i]->LLMCall_0.prompt == Some(prompt)) {
                r && moved_by(old(env)@, final(env)@, 1)
            } else {
                &&& moved_by(old(env)@, final(env)@, 0)
                &&& r <==> forall|j: int| i <= j < list.len() ==> !((#[trigger] list[j]) is LLMCall)
            }
        }),
{
    lemma_path_lengths();
    lemma_valid(old(env)@, request@, failure@, APIEndpoint::LLMRequest);
    let list = old(env)@.serial_actions;
    assert forall|j: int| 0 <= j < list.len() implies ((#[trigger] list[j]) is LLMCall
        <==> environment::call_of(list[j]) == Some(APIEndpoint::LLMRequest)) by {}
}

/// A call for the task is always valid, and moves nothing.
pub proof fn law_task_call(
    env: &mut AgentTestEnvironment,
    request: HttpRequest,
    failure: TestFailure,
    r: bool,
)
    requires
        call_ensures(AgentTestEnvironment::check_api_request, (env, request, &failure), r),
        is_for(request@, "/api/agent/task"@),
        failure@ is CallToTaskInfo,
        old(env)@.serial_actions.len() <= usize::MAX,
    ensures
        r,
        moved_by(old(env)@, final(env)@, 0),
{
    lemma_path_lengths();
    lemma_valid(old(env)@, request@, failure@, APIEndpoint::TaskInfo);
}

/// A call is blamed with the given failure exactly where it is not valid, and what is
/// expected then is the same as where it is only checked.
pub proof fn law_blame(
    env: &mut AgentTestEnvironment,
    env_checked: &mut AgentTestEnvironment,
    request: HttpRequest,
    failure: TestFailure,
    blame: Option<TestFailure>,
    valid: bool,
)
    requires
        old(env)@ == old(env_checked)@,
        call_ensures(
            AgentTestEnvironment::check_api_request_failure_mode,
            (env, request, failure),
            blame,
        ),
        call_ensures(
            AgentTestEnvironment::check_api_request,
            (env_checked, request, &failure),
            valid,
        ),
    ensures
        final(env)@ == final(env_checked)@,
        valid ==> blame is None,
        !valid ==> blame is Some && blame->0@ == failure@,
{
}

/// The serial actions are gone through by the index: the next is the one at it, the ones to
/// be done are from it on, and the following ones are after it.
pub proof fn law_queue(
    env: AgentTestEnvironment,
    moving: &mut AgentTestEnvironment,
    taken: Option<&AgentExpectedAction>,
    next: Option<&AgentExpectedAction>,
    to_do: &[AgentExpectedAction],
    following: &[AgentExpectedAction],
)
    requires
        old(moving)@ == env@,
        env.serial_action_index < usize::MAX,
        call_ensures(AgentTestEnvironment::next_serial_action, (moving,), taken),
        call_ensures(AgentTestEnvironment::peek_next_serial_action, (&env,), next),
        call_ensures(AgentTestEnvironment::uncompleted_serial_actions, (&env,), to_do),
        call_ensures(AgentTestEnvironment::following_serial_actions, (&env,), following),
    ensures
        ({
            let list = env@.serial_actions;
            let i = env@.serial_action_index as int;
            &&& moved_by(env@, final(moving)@, 1)
            &&& i < list.len() <==> next is Some
            &&& i < list.len() <==> taken is Some
            &&& i < list.len() ==> next->0@ == list[i] && taken->0@ == list[i]
            &&& to_do@.len() == if i < list.len() {
                list.len() - i
            } else {
                0
            }
            &&& forall|k: int| 0 <= k < to_do@.len() ==> (#[trigger] to_do@[k])@ == list[i + k]
            &&& following@.len() == if i < list.len() {
                list.len() - i - 1
            } else {
                0
            }
            &&& forall|k: int|
                0 <= k < following@.len() ==> (#[trigger] following@[k])@ == list[i + 1 + k]
        }),
{
    let list = env@.serial_actions;
    let i = env@.serial_action_index as int;
    let left = actions::action_views(to_do@);
    let later = actions::action_views(following@);
    assert(left.len() == to_do@.len());
    assert(later.len() == following@.len());
    assert forall|k: int| 0 <= k < to_do@.len() implies (#[trigger] to_do@[k])@ == list[i + k] by {
        assert(left[k] == to_do@[k]@);
        assert(left[k] == env@.uncompleted()[k]);
    }
    assert forall|k: int| 0 <= k < following@.len() implies (#[trigger] following@[k])@ == list[i
        + 1 + k] by {
        assert(later[k] == following@[k]@);
        assert(later[k] == env@.following()[k]);
    }
}

/// What an action is compared by: whether it is a call, its kind, its content, and its path.
pub proof fn law_comparing_actions(
    action: AgentExpectedAction,
    request: HttpRequest,
    failure: TestFailure,
    is_call: bool,
    same_kind: bool,
    same_content: bool,
    path: String,
)
    requires
        call_ensures(AgentTestEnvironment::action_is_call, (&action,), is_call),
        call_ensures(
            AgentTestEnvironment::action_matches_failure_mode,
            (&action, &failure),
            same_kind,
        ),
        call_ensures(
            AgentTestEnvironment::action_matches_content,
            (&action, &request, &failure),
            same_content,
        ),
        call_ensures(AgentTestEnvironment::action_to_endpoint, (&action,), path),
    ensures
        match action@ {
            ActionView::LLMCall(call) => {
                &&& is_call
                &&& same_kind == (failure@ is CallToLLM)
                &&& same_content == (call.prompt is None || failure@ == FailureView::CallToLLM(
                    call.prompt->0,
                ))
                &&& path@ == "/api/chat/completions"@
            },
            ActionView::TaskSuccess(_) => {
                &&& is_call && same_content
                &&& same_kind == (failure@ is CallToSuccess)
                &&& path@ == "/api/agent/task/complete"@
            },
            ActionView::TaskFailure(report) => {
                &&& is_call
                &&& same_kind == (failure@ is CallToFailure)
                &&& same_content == (report is None || report->0 == request.body@)
                &&& path@ == "/api/agent/task/fail"@
            },
            _ => !is_call && same_kind && same_content && path@ == "no endpoint"@,
        },
{
}

/// What is expected is added at the end, with what it was given, and changes nothing else.
pub proof fn law_expectations(
    env: AgentTestEnvironment,
    task: Task,
    response: LLMResponse,
    prompt: Option<&str>,
    name: &str,
    with_task: AgentTestEnvironment,
    with_call: AgentTestEnvironment,
    with_success: AgentTestEnvironment,
    with_failure: AgentTestEnvironment,
    with_file: AgentTestEnvironment,
    text: Option<Seq<char>>,
)
    requires
        call_ensures(AgentTestEnvironment::with_task, (env, &task), with_task),
        call_ensures(AgentTestEnvironment::expect_llm_call, (env, &response, prompt), with_call),
        call_ensures(AgentTestEnvironment::expect_success, (env, prompt), with_success),
        call_ensures(AgentTestEnvironment::expect_failure, (env, prompt), with_failure),
        call_ensures(AgentTestEnvironment::expect_file, (env, name, prompt), with_file),
        prompt is None ==> text is None,
        prompt is Some ==> text == Some(prompt->0@),
    ensures
        with_task@ == (EnvironmentView { task: task.description@, ..env@ }),
        with_call@ == (EnvironmentView {
            serial_actions: env@.serial_actions.push(
                ActionView::LLMCall(LLMCallView { prompt: text, response: response@ }),
            ),
            ..env@
        }),
        with_success@ == (EnvironmentView {
            serial_actions: env@.serial_actions.push(ActionView::TaskSuccess(text)),
            ..env@
        }),
        with_failure@ == (EnvironmentView {
            serial_actions: env@.serial_actions.push(ActionView::TaskFailure(text)),
            ..env@
        }),
        with_file@ == (EnvironmentView {
            parallel_actions: env@.parallel_actions.push(ActionView::File(name@, text)),
            ..env@
        }),
{
}

/// Nothing is expected at first, and copies are the same as what they are copies of.
pub proof fn law_new_and_copied(
    new: AgentTestEnvironment,
    env: AgentTestEnvironment,
    copy: AgentTestEnvironment,
    list: &[AgentExpectedAction],
    copied: Vec<AgentExpectedAction>,
)
    requires
        call_ensures(AgentTestEnvironment::new, (), new),
        call_ensures(<AgentTestEnvironment as Clone>::clone, (&env,), copy),
        call_ensures(actions::copied_actions, (list,), copied),
    ensures
        new@.serial_actions.len() == 0 && new@.parallel_actions.len() == 0 && new@.task.len() == 0,
        new@.serial_action_index == 0,
        copy@ == env@,
        copied@.len() == list@.len(),
        forall|i: int| 0 <= i < list@.len() ==> (#[trigger] copied@[i])@ == list@[i]@,
{
    let a = actions::action_views(copied@);
    let b = actions::action_views(list@);
    assert(a.len() == copied@.len() && b.len() == list@.len());
    assert forall|i: int| 0 <= i < list@.len() implies (#[trigger] copied@[i])@ == list@[i]@ by {
        assert(a[i] == b[i]);
    }
}

/// The parts of which expectations are made: a task has its description, a call its prompt
/// and its answer, and an answer its text.
pub proof fn law_parts(
    description: &str,
    task: Task,
    document: Json,
    response: LLMResponse,
    prompt: Option<&str>,
    call: LLMCall,
    said: &String,
    endpoint: APIEndpoint,
    path: &'static str,
)
    requires
        call_ensures(Task::new, (description,), task),
        call_ensures(Task::document, (&task,), document),
        call_ensures(LLMCall::new, (response, prompt), call),
        call_ensures(LLMResponse::text, (&response,), said),
        call_ensures(APIEndpoint::path, (endpoint,), path),
    ensures
        task.description@ == description@,
        document@ == JsonView::Object(seq![("description"@, JsonView::Text(description@))]),
        call@.response == response@,
        prompt is None ==> call@.prompt is None,
        prompt is Some ==> call@.prompt == Some(prompt->0@),
        response@ == LLMResponseView::Message(said@) || response@ == LLMResponseView::ToolCall(
            said@,
        ),
        path@ == match endpoint {
            APIEndpoint::TaskSuccess => "/api/agent/task/complete"@,
            APIEndpoint::TaskFailure => "/api/agent/task/fail"@,
            APIEndpoint::TaskInfo => "/api/agent/task"@,
            APIEndpoint::LLMRequest => "/api/chat/completions"@,
        },
{
}

/// The value of a field of a JSON object.
pub open spec fn field(document: JsonView, key: Seq<char>) -> Option<JsonView> {
    if document is Object {
        text_map::lookup(document->Object_0, key)
    } else {
        None
    }
}

/// A chat completion has one choice, whose message is the assistant's and has the given
/// content, and it counts no tokens.
pub proof fn law_chat_completion(content: &str, r: Json)
    requires
        call_ensures(endpoints::chat_completion, (content,), r),
    ensures
        ({
            let choices = field(r@, "choices"@);
            let usage = field(r@, "usage"@);
            &&& r@->Object_0.len() == 2
            &&& choices is Some && choices->0 is Array && choices->0->Array_0.len() == 1
            &&& ({
                let choice = choices->0->Array_0[0];
                let message = field(choice, "message"@);
                &&& choice->Object_0.len() == 3
                &&& field(choice, "finish_reason"@) == Some(JsonView::Text("done"@))
                &&& field(choice, "index"@) == Some(JsonView::Number(0))
                &&& message is Some && message->0->Object_0.len() == 2
                &&& field(message->0, "role"@) == Some(JsonView::Text("assistant"@))
                &&& field(message->0, "content"@) == Some(JsonView::Text(content@))
            })
            &&& usage is Some && usage->0->Object_0.len() == 3
            &&& field(usage->0, "completion_tokens"@) == Some(JsonView::Number(0))
            &&& field(usage->0, "prompt_tokens"@) == Some(JsonView::Number(0))
            &&& field(usage->0, "total_tokens"@) == Some(JsonView::Number(0))
        }),
{
    reveal_strlit("choices");
    reveal_strlit("usage");
    reveal_strlit("finish_reason");
    reveal_strlit("index");
    reveal_strlit("message");
    reveal_strlit("role");
    reveal_strlit("content");
    reveal_strlit("completion_tokens");
    reveal_strlit("prompt_tokens");
    reveal_strlit("total_tokens");
    let document = r@->Object_0;
    lemma_field(document, 0);
    lemma_field(document, 1);
    let choice = document[0].1->Array_0[0]->Object_0;
    lemma_field(choice, 0);
    lemma_field(choice, 1);
    lemma_field(choice, 2);
    let message = choice[2].1->Object_0;
    lemma_field(message, 0);
    lemma_field(message, 1);
    let usage = document[1].1->Object_0;
    lemma_field(usage, 0);
    lemma_field(usage, 1);
    lemma_field(usage, 2);
}

/// The value at a place is that of its key, where the keys differ in length.
proof fn lemma_field(fields: Seq<(Seq<char>, JsonView)>, n: int)
    requires
        0 <= n < fields.len(),
        forall|i: int| 0 <= i < n ==> (#[trigger] fields[i]).0.len() != fields[n].0.len(),
    ensures
        text_map::lookup(fields, fields[n].0) == Some(fields[n].1),
{
    text_map::lemma_key_position_is(fields, fields[n].0, n);
}

/// What is recorded of a call.
pub open spec fn entry_for(endpoint: APIEndpoint, request: HttpRequestView) -> TestLogView {
    match endpoint {
        APIEndpoint::TaskSuccess => TestLogView::CallToSuccess,
        APIEndpoint::TaskFailure => TestLogView::CallToFailure,
        APIEndpoint::TaskInfo => TestLogView::HttpRequest(request),
        APIEndpoint::LLMRequest => TestLogView::CallToLLM(request.body),
    }
}

/// What a call is blamed with where it is not valid.
pub open spec fn blame_of(endpoint: APIEndpoint, request: HttpRequestView) -> FailureView {
    match endpoint {
        APIEndpoint::TaskSuccess => FailureView::CallToSuccess,
        APIEndpoint::TaskFailure => FailureView::CallToFailure,
        APIEndpoint::TaskInfo => FailureView::CallToTaskInfo,
        APIEndpoint::LLMRequest => FailureView::CallToLLM(request.body),
    }
}

/// A call to an endpoint is checked against what is expected and recorded. The failure is
/// what it is blamed with, if it is; the server stops after a call that ends the test, and
/// after one that is blamed.
pub proof fn law_call_is_judged(
    endpoint: APIEndpoint,
    request: HttpRequest,
    context: &mut ServerContext,
    response: HttpResponse,
    env: &mut AgentTestEnvironment,
    failure: TestFailure,
    blame: Option<TestFailure>,
)
    requires
        call_ensures(
            <APIEndpoint as Callback<ServerContext>>::call,
            (&endpoint, request, context),
            response,
        ),
        old(env)@ == old(context)@.environment,
        failure@ == blame_of(endpoint, request@),
        call_ensures(
            AgentTestEnvironment::check_api_request_failure_mode,
            (env, request, failure),
            blame,
        ),
    ensures
        final(context)@.environment == final(env)@,
        final(context)@.test_data.failure is Some <==> blame is Some,
        blame is Some ==> final(context)@.test_data.failure == Some(blame->0@),
        final(context)@.test_data.log == old(context)@.test_data.log.push(
            entry_for(endpoint, request@),
        ),
        final(context)@.terminate_server == (old(context)@.terminate_server || endpoint
            == APIEndpoint::TaskSuccess || endpoint == APIEndpoint::TaskFailure || blame is Some),
{
}

/// Recording a call has the same effect as calling the endpoint.
pub proof fn law_record(
    endpoint: APIEndpoint,
    request: HttpRequest,
    context: &mut ServerContext,
    recorded: &mut ServerContext,
    response: HttpResponse,
)
    requires
        old(context)@ == old(recorded)@,
        call_ensures(
            <APIEndpoint as Callback<ServerContext>>::call,
            (&endpoint, request, context),
            response,
        ),
        call_ensures(APIEndpoint::record, (endpoint, request, recorded), ()),
    ensures
        final(context)@ == final(recorded)@,
{
}

/// A call that ends the test is answered with an empty response that says that all went
/// well; a call for the task with the task as a JSON document; and a call to the language
/// model with a chat completion, of the answer given for it where it is the next action and
/// of a greeting otherwise.
pub proof fn law_call_is_answered(
    endpoint: APIEndpoint,
    request: HttpRequest,
    context: &mut ServerContext,
    response: HttpResponse,
    content: &str,
    completion: Json,
    said: String,
    env: AgentTestEnvironment,
)
    requires
        call_ensures(
            <APIEndpoint as Callback<ServerContext>>::call,
            (&endpoint, request, context),
            response,
        ),
        call_ensures(endpoints::chat_completion, (content,), completion),
        env@ == old(context)@.environment,
        call_ensures(APIEndpoint::llm_reply, (&request, &env), said),
        ({
            let list = old(context)@.environment.serial_actions;
            let i = old(context)@.environment.serial_action_index as int;
            content@ == if i < list.len() && list[i] is LLMCall && (list[i]->LLMCall_0.prompt
                is None || list[i]->LLMCall_0.prompt == Some(request.body@)) {
                match list[i]->LLMCall_0.response {
                    LLMResponseView::Message(answer) => answer,
                    LLMResponseView::ToolCall(answer) => answer,
                }
            } else {
                "hello world"@
            }
        }),
    ensures
        response.status_code == 200,
        said@ == content@,
        match endpoint {
            APIEndpoint::TaskSuccess => response.headers@.len() == 0 && response.body@.len() == 0,
            APIEndpoint::TaskFailure => response.headers@.len() == 0 && response.body@.len() == 0,
            APIEndpoint::TaskInfo => {
                &&& response.headers@ == seq![("Content-Type"@, "application/json"@)]
                &&& response.body@ == json::json_text(
                    JsonView::Object(
                        seq![
                            (
                                "description"@,
                                JsonView::Text(old(context)@.environment.task),
                            ),
                        ],
                    ),
                )
            },
            APIEndpoint::LLMRequest => {
                &&& response.headers@ == seq![("Content-Type"@, "application/json"@)]
                &&& response.body@ == json::json_text(completion@)
            },
        },
{
    let none = Seq::<(Seq<char>, Seq<char>)>::empty();
    assert(text_map::upsert(none, "Content-Type"@, "application/json"@) == seq![
        ("Content-Type"@, "application/json"@),
    ]);
}

/// The endpoints are found by their paths with a slash at the end, and by nothing else; and
/// what is told of a request names what it is and brings what it says, whole.
pub proof fn law_endpoints_and_notices(
    target: String,
    request: HttpRequest,
    found: Option<APIEndpoint>,
    notice: Option<String>,
)
    requires
        target@ == request.request_target@,
        call_ensures(endpoints::endpoint_for, (&target,), found),
        call_ensures(endpoints::request_notice, (&request,), notice),
    ensures
        found == Some(APIEndpoint::TaskSuccess) <==> target@ == "/api/agent/task/complete/"@,
        found == Some(APIEndpoint::TaskFailure) <==> target@ == "/api/agent/task/fail/"@,
        found == Some(APIEndpoint::TaskInfo) <==> target@ == "/api/agent/task/"@,
        found == Some(APIEndpoint::LLMRequest) <==> target@ == "/api/chat/completions/"@,
        match found {
            Some(APIEndpoint::TaskSuccess) => notice is Some && notice->0@ == "Task succeeded: "@
                + request.body@,
            Some(APIEndpoint::TaskFailure) => notice is Some && notice->0@ == "Task failed: "@
                + request.body@,
            Some(APIEndpoint::TaskInfo) => notice is Some && notice->0@ == "Task requested"@,
            Some(APIEndpoint::LLMRequest) => notice is None,
            None => notice is Some && notice->0@ == "Request on unknown endpoint: "@ + target@,
        },
{
    lemma_targets(target@);
}

/// The targets of the endpoints.
proof fn lemma_targets(target: Seq<char>)
    ensures
        endpoints::route(APIEndpoint::TaskSuccess).0 == "/api/agent/task/complete/"@,
        endpoints::route(APIEndpoint::TaskFailure).0 == "/api/agent/task/fail/"@,
        endpoints::route(APIEndpoint::TaskInfo).0 == "/api/agent/task/"@,
        endpoints::route(APIEndpoint::LLMRequest).0 == "/api/chat/completions/"@,
        text_map::lookup(endpoints::api_routes(), target) == Some(APIEndpoint::TaskSuccess)
            <==> target == "/api/agent/task/complete/"@,
        text_map::lookup(endpoints::api_routes(), target) == Some(APIEndpoint::TaskFailure)
            <==> target == "/api/agent/task/fail/"@,
        text_map::lookup(endpoints::api_routes(), target) == Some(APIEndpoint::TaskInfo)
            <==> target == "/api/agent/task/"@,
        text_map::lookup(endpoints::api_routes(), target) == Some(APIEndpoint::LLMRequest)
            <==> target == "/api/chat/completions/"@,
{
    lemma_path_lengths();
    reveal_strlit("/api/agent/task/complete");
    reveal_strlit("/api/agent/task/fail");
    reveal_strlit("/api/agent/task");
    reveal_strlit("/api/chat/completions");
    reveal_strlit("/api/agent/task/complete/");
    reveal_strlit("/api/agent/task/fail/");
    reveal_strlit("/api/agent/task/");
    reveal_strlit("/api/chat/completions/");
    assert("/api/agent/task/complete"@.push('/') == "/api/agent/task/complete/"@);
    assert("/api/agent/task/fail"@.push('/') == "/api/agent/task/fail/"@);
    assert("/api/agent/task"@.push('/') == "/api/agent/task/"@);
    assert("/api/chat/completions"@.push('/') == "/api/chat/completions/"@);
    crate::laws::law_endpoint_is_found(target, APIEndpoint::TaskSuccess);
    crate::laws::law_endpoint_is_found(target, APIEndpoint::TaskFailure);
    crate::laws::law_endpoint_is_found(target, APIEndpoint::TaskInfo);
    crate::laws::law_endpoint_is_found(target, APIEndpoint::LLMRequest);
}

/// The server for an agent begins with what is expected, nothing recorded and no failure,
/// and is not to stop.
pub proof fn law_agent_server_begins(
    env: AgentTestEnvironment,
    server: Result<AgentServer, Error>,
    context: ServerContext,
    stopped: &mut ServerContext,
)
    requires
        call_ensures(endpoints::setup_api_endpoints, (env,), server),
        call_ensures(ServerContext::new, (env,), context),
        call_ensures(ServerContext::terminate_server, (stopped,), ()),
    ensures
        server is Ok,
        server->Ok_0.context@ == context@,
        context@.environment == env@,
        context@.test_data.log.len() == 0 && context@.test_data.failure is None,
        !context@.terminate_server,
        final(stopped)@.terminate_server,
        final(stopped)@.environment == old(stopped)@.environment,
        final(stopped)@.test_data == old(stopped)@.test_data,
{
}

/// Bytes that are a request for an endpoint, with or without a slash at the end, have the
/// server for an agent do what the endpoint does, send what it answers, and stop where its
/// context then says so.
pub proof fn law_server_calls_endpoint(
    env: AgentTestEnvironment,
    fresh: Result<AgentServer, Error>,
    server: &mut AgentServer,
    bytes: Vec<u8>,
    r: Result<ServerStep, Error>,
    content: &str,
    parsed: Result<HttpRequest, Error>,
    endpoint: APIEndpoint,
    path: &'static str,
    request: HttpRequest,
    context: &mut ServerContext,
    response: HttpResponse,
    written: Result<String, Error>,
)
    requires
        call_ensures(endpoints::setup_api_endpoints, (env,), fresh),
        fresh is Ok && old(server).routes() == fresh->Ok_0.routes(),
        call_ensures(AgentServer::step, (server, ServerEvent::Received(bytes)), r),
        content@ == text::utf8_lossy(bytes@),
        call_ensures(http_server::parse_http_request, (content,), parsed),
        parsed is Ok && is_for(parsed->Ok_0@, path@),
        call_ensures(APIEndpoint::path, (endpoint,), path),
        request@ == (HttpRequestView { request_target: path@ + seq!['/'], ..parsed->Ok_0@ }),
        old(context)@ == old(server).context@,
        call_ensures(
            <APIEndpoint as Callback<ServerContext>>::call,
            (&endpoint, request, context),
            response,
        ),
        call_ensures(http_server::format_http_response, (response,), written),
    ensures
        r is Ok,
        r->Ok_0.request@ == request@,
        r->Ok_0.response@ == written->Ok_0@,
        final(server).context@ == final(context)@,
        r->Ok_0.finished == final(context)@.terminate_server,
        final(server).routes() == old(server).routes(),
{
    let target = path@ + seq!['/'];
    lemma_for(parsed->Ok_0@, endpoint);
    crate::laws::law_endpoint_is_found(target, endpoint);
    lemma_path_lengths();
    assert(target == endpoint.spec_path().push('/'));
    assert(http_server::normalized(parsed->Ok_0@) == request@);
}

/// Bytes that are a request for no endpoint are answered with a response that says that
/// nothing was found, and change nothing; bytes that are no request, and failures at the
/// door, end the server with the error, and change nothing either.
pub proof fn law_server_with_no_endpoint(
    env: AgentTestEnvironment,
    fresh: Result<AgentServer, Error>,
    server: &mut AgentServer,
    event: ServerEvent,
    r: Result<ServerStep, Error>,
    content: &str,
    parsed: Result<HttpRequest, Error>,
    not_found: HttpResponse,
    written: Result<String, Error>,
)
    requires
        call_ensures(endpoints::setup_api_endpoints, (env,), fresh),
        fresh is Ok && old(server).routes() == fresh->Ok_0.routes(),
        old(server).fallback() == fresh->Ok_0.fallback(),
        call_ensures(AgentServer::step, (server, event), r),
        event matches ServerEvent::Received(bytes) ==> content@ == text::utf8_lossy(bytes@),
        call_ensures(http_server::parse_http_request, (content,), parsed),
        call_ensures(HttpResponse::not_found, (), not_found),
        call_ensures(http_server::format_http_response, (not_found,), written),
        parsed is Ok ==> !is_for(parsed->Ok_0@, "/api/agent/task/complete"@) && !is_for(
            parsed->Ok_0@,
            "/api/agent/task/fail"@,
        ) && !is_for(parsed->Ok_0@, "/api/agent/task"@) && !is_for(
            parsed->Ok_0@,
            "/api/chat/completions"@,
        ),
    ensures
        final(server).context@ == old(server).context@,
        match event {
            ServerEvent::ConnectionFailed(reason) => r is Err && r->Err_0@
                == http_server::ErrorView::ConnectionFailed(reason@),
            ServerEvent::IOFailed(reason) => r is Err && r->Err_0@
                == http_server::ErrorView::IOError(reason@),
            ServerEvent::Received(_) => match parsed {
                Ok(request) => r is Ok && r->Ok_0.response@ == written->Ok_0@ && r->Ok_0.finished
                    == old(server).context@.terminate_server && r->Ok_0.request.body@
                    == request.body@,
                Err(e) => r is Err && r->Err_0@ == e@,
            },
        },
{
    if event is Received && parsed is Ok {
        let target = http_server::relative_url(parsed->Ok_0.request_target@);
        lemma_path_lengths();
        reveal_strlit("/api/agent/task/complete");
        reveal_strlit("/api/agent/task/fail");
        reveal_strlit("/api/agent/task");
        reveal_strlit("/api/chat/completions");
        lemma_not_for(parsed->Ok_0@, APIEndpoint::TaskSuccess);
        lemma_not_for(parsed->Ok_0@, APIEndpoint::TaskFailure);
        lemma_not_for(parsed->Ok_0@, APIEndpoint::TaskInfo);
        lemma_not_for(parsed->Ok_0@, APIEndpoint::LLMRequest);
        let found = text_map::lookup(endpoints::api_routes(), target);
        if found is Some {
            crate::laws::law_endpoint_is_found(target, found->0);
        }
        assert(not_found@.headers == Seq::<(Seq<char>, Seq<char>)>::empty());
        assert(not_found@.body == Seq::<char>::empty());
        assert(not_found@ == endpoints::not_found_response());
    }
}

proof fn lemma_not_for(request: HttpRequestView, endpoint: APIEndpoint)
    requires
        !is_for(request, endpoint.spec_path()),
    ensures
        http_server::relative_url(request.request_target) != http_server::relative_url(
            endpoint.spec_path(),
        ),
{
    lemma_path_lengths();
    let path = endpoint.spec_path();
    assert(http_server::relative_url(path) == path.push('/'));
    assert(path.push('/') == path + seq!['/']);
    if http_server::relative_url(request.request_target) == path.push('/') {
        if request.request_target != path.push('/') {
            assert(request.request_target.push('/').drop_last() == request.request_target);
            assert(path.push('/').drop_last() == path);
        }
    }
}

} // verus!
