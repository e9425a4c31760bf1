//! The endpoints that an agent calls during a test, and what each of them does.

use crate::actions;
use crate::actions::{APIEndpoint, ActionView, AgentExpectedAction};
use crate::environment;
use crate::environment::{AgentTestEnvironment, EnvironmentView};
use crate::failure;
use crate::failure::{AgentTestFinishedRun, FailureView, RunView, TestFailure, TestLog, TestLogView};
use crate::http_server;
use crate::http_server::{Callback, ElseCallback, Error, HttpRequest, HttpRequestView, HttpResponse, HttpResponseView, Server};
use crate::json;
use crate::json::{Json, JsonView};
use crate::text_map;
use vstd::prelude::*;

verus! {

/// What the server keeps while an agent is tested.
pub struct ServerContext {
    pub environment: AgentTestEnvironment,
    pub test_data: AgentTestFinishedRun,
    pub terminate_server: bool,
}

/// What a context says.
pub struct ContextView {
    pub environment: EnvironmentView,
    pub test_data: RunView,
    pub terminate_server: bool,
}

impl View for ServerContext {
    type V = ContextView;

    open spec fn view(&self) -> ContextView {
        ContextView {
            environment: self.environment@,
            test_data: self.test_data@,
            terminate_server: self.terminate_server,
        }
    }
}

impl http_server::ServerContext for ServerContext {
    open spec fn terminates(&self) -> bool {
        self@.terminate_server
    }

    fn should_terminate_server(&self) -> (r: bool) {
        self.terminate_server
    }
}

impl ServerContext {
    /// The context at the start of a test.
    pub fn new(environment: AgentTestEnvironment) -> (r: Self)
        ensures
            r@ == initial_context(environment@),
    {
        ServerContext {
            environment,
            test_data: AgentTestFinishedRun::default(),
            terminate_server: false,
        }
    }

    /// Has the server stop after the current response.
    pub fn terminate_server(&mut self)
        ensures
            final(self)@ == (ContextView { terminate_server: true, ..old(self)@ }),
    {
        self.terminate_server = true
    }
}

/// The context at the start of a test.
pub open spec fn initial_context(environment: EnvironmentView) -> ContextView {
    ContextView {
        environment,
        test_data: failure::empty_run(),
        terminate_server: false,
    }
}

/// What a call to an endpoint is blamed for where it is not valid. A call to the language
/// model is blamed with its prompt, which is the content of the request.
pub open spec fn blame_for(endpoint: APIEndpoint, request: HttpRequestView) -> FailureView {
    match endpoint {
        APIEndpoint::TaskSuccess => FailureView::CallToSuccess,
        APIEndpoint::TaskFailure => FailureView::CallToFailure,
        APIEndpoint::TaskInfo => FailureView::CallToTaskInfo,
        APIEndpoint::LLMRequest => FailureView::CallToLLM(request.body),
    }
}

/// What is recorded of a call to an endpoint. A call for the task is recorded as the request
/// that it is.
pub open spec fn log_entry_for(endpoint: APIEndpoint, request: HttpRequestView) -> TestLogView {
    match endpoint {
        APIEndpoint::TaskSuccess => TestLogView::CallToSuccess,
        APIEndpoint::TaskFailure => TestLogView::CallToFailure,
        APIEndpoint::TaskInfo => TestLogView::HttpRequest(request),
        APIEndpoint::LLMRequest => TestLogView::CallToLLM(request.body),
    }
}

/// A call to the endpoint ends the test.
pub open spec fn ends_test(endpoint: APIEndpoint) -> bool {
    endpoint == APIEndpoint::TaskSuccess || endpoint == APIEndpoint::TaskFailure
}

/// The context after a call to an endpoint: the call is recorded and checked against what is
/// expected, and the server stops where the call ends the test or is not valid.
pub open spec fn context_after(
    endpoint: APIEndpoint,
    request: HttpRequestView,
    before: ContextView,
) -> ContextView {
    let blame = blame_for(endpoint, request);
    let failure = environment::blamed(before.environment, request, blame);
    ContextView {
        environment: environment::checked(before.environment, request, blame),
        test_data: RunView {
            log: before.test_data.log.push(log_entry_for(endpoint, request)),
            failure,
        },
        terminate_server: before.terminate_server || ends_test(endpoint) || failure is Some,
    }
}

/// What the language model says to a request: the answer that was expected for it, or a
/// greeting where none was.
pub open spec fn llm_content(request: HttpRequestView, before: EnvironmentView) -> Seq<char> {
    let blame = blame_for(APIEndpoint::LLMRequest, request);
    match before.next() {
        Some(ActionView::LLMCall(call)) => if environment::is_next(before, request, blame) {
            call.response.spec_text()
        } else {
            "hello world"@
        },
        _ => "hello world"@,
    }
}

/// The JSON document with which the language model says something.
pub open spec fn chat_document(content: Seq<char>) -> JsonView {
    let message = JsonView::Object(
        seq![("role"@, JsonView::Text("assistant"@)), ("content"@, JsonView::Text(content))],
    );
    let choice = JsonView::Object(
        seq![
            ("finish_reason"@, JsonView::Text("done"@)),
            ("index"@, JsonView::Number(0)),
            ("message"@, message),
        ],
    );
    let usage = JsonView::Object(
        seq![
            ("completion_tokens"@, JsonView::Number(0)),
            ("prompt_tokens"@, JsonView::Number(0)),
            ("total_tokens"@, JsonView::Number(0)),
        ],
    );
    JsonView::Object(seq![("choices"@, JsonView::Array(seq![choice])), ("usage"@, usage)])
}

/// A response that says that all went well, and no more.
pub open spec fn ok_response() -> HttpResponseView {
    HttpResponseView { headers: seq![], status_code: 200, body: seq![] }
}

/// The answer to a call to an endpoint.
pub open spec fn answer_to(
    endpoint: APIEndpoint,
    request: HttpRequestView,
    before: ContextView,
) -> HttpResponseView {
    match endpoint {
        APIEndpoint::TaskSuccess => ok_response(),
        APIEndpoint::TaskFailure => ok_response(),
        APIEndpoint::TaskInfo => http_server::with_json(
            ok_response(),
            json::json_text(actions::task_document(before.environment.task)),
        ),
        APIEndpoint::LLMRequest => http_server::with_json(
            ok_response(),
            json::json_text(chat_document(llm_content(request, before.environment))),
        ),
    }
}

/// The JSON document with which the language model says something.
pub fn chat_completion(content: &str) -> (r: Json)
    ensures
        r@ == chat_document(content@),
{
    let mut message: Vec<(String, Json)> = Vec::new();
    Json::add_field(&mut message, "role", Json::text("assistant"));
    Json::add_field(&mut message, "content", Json::text(content));
    let mut choice: Vec<(String, Json)> = Vec::new();
    Json::add_field(&mut choice, "finish_reason", Json::text("done"));
    Json::add_field(&mut choice, "index", Json::Number(0));
    Json::add_field(&mut choice, "message", Json::object(message));
    let mut choices: Vec<Json> = Vec::new();
    choices.push(Json::object(choice));
    let mut usage: Vec<(String, Json)> = Vec::new();
    Json::add_field(&mut usage, "completion_tokens", Json::Number(0));
    Json::add_field(&mut usage, "prompt_tokens", Json::Number(0));
    Json::add_field(&mut usage, "total_tokens", Json::Number(0));
    let mut fields: Vec<(String, Json)> = Vec::new();
    Json::add_field(&mut fields, "choices", Json::array(choices));
    Json::add_field(&mut fields, "usage", Json::object(usage));
    proof {
        let document = chat_document(content@)->Object_0;
        let shown = document[0].1->Array_0;
        assert(json::field_views(message@) == shown[0]->Object_0[2].1->Object_0);
        assert(json::field_views(choice@) == shown[0]->Object_0);
        assert(json::item_views(choices@) == shown);
        assert(json::field_views(usage@) == document[1].1->Object_0);
        assert(json::field_views(fields@) == document);
    }
    Json::object(fields)
}

impl APIEndpoint {
    /// Records a call, checks it against what is expected, and has the server stop where the
    /// call ends the test or is not valid.
    pub fn record(self, request: HttpRequest, context: &mut ServerContext)
        ensures
            final(context)@ == context_after(self, request@, old(context)@),
    {
        let blame = match self {
            APIEndpoint::TaskSuccess => TestFailure::CallToSuccess,
            APIEndpoint::TaskFailure => TestFailure::CallToFailure,
            APIEndpoint::TaskInfo => TestFailure::CallToTaskInfo,
            APIEndpoint::LLMRequest => TestFailure::CallToLLM(request.body.clone()),
        };
        let entry = match self {
            APIEndpoint::TaskSuccess => TestLog::CallToSuccess,
            APIEndpoint::TaskFailure => TestLog::CallToFailure,
            APIEndpoint::TaskInfo => TestLog::HttpRequest(request.clone()),
            APIEndpoint::LLMRequest => TestLog::CallToLLM(request.body.clone()),
        };
        let ghost before = context.test_data.log@;
        context.test_data.log.push(entry);
        assert(failure::log_views(context.test_data.log@) == failure::log_views(before).push(
            entry@,
        ));
        context.test_data.failure = context.environment.check_api_request_failure_mode(
            request,
            blame,
        );
        let ends = match self {
            APIEndpoint::TaskSuccess => true,
            APIEndpoint::TaskFailure => true,
            _ => false,
        };
        if ends || context.test_data.failure.is_some() {
            context.terminate_server();
        }
    }

    /// What the language model says to a request.
    pub fn llm_reply(request: &HttpRequest, environment: &AgentTestEnvironment) -> (r: String)
        ensures
            r@ == llm_content(request@, environment@),
    {
        let failure = TestFailure::CallToLLM(request.body.clone());
        match environment.peek_next_serial_action() {
            Some(action) => match action {
                AgentExpectedAction::LLMCall(call) => if AgentTestEnvironment::action_matches_content(
                    action,
                    request,
                    &failure,
                ) {
                    call.response.text().clone()
                } else {
                    "hello world".to_owned()
                },
                _ => "hello world".to_owned(),
            },
            None => "hello world".to_owned(),
        }
    }
}

impl Callback<ServerContext> for APIEndpoint {
    open spec fn answers(
        &self,
        request: HttpRequestView,
        before: ServerContext,
        after: ServerContext,
        response: HttpResponseView,
    ) -> bool {
        &&& after@ == context_after(*self, request, before@)
        &&& response == answer_to(*self, request, before@)
    }

    fn call(&self, request: HttpRequest, context: &mut ServerContext) -> (response: HttpResponse) {
        match self {
            APIEndpoint::TaskSuccess | APIEndpoint::TaskFailure => {
                self.record(request, context);
                HttpResponse::ok()
            },
            APIEndpoint::TaskInfo => {
                self.record(request, context);
                HttpResponse::ok().json(&context.environment.task.document())
            },
            APIEndpoint::LLMRequest => {
                let content = Self::llm_reply(&request, &context.environment);
                self.record(request, context);
                HttpResponse::ok().json(&chat_completion(content.as_str()))
            },
        }
    }
}

/// What answers a request to no endpoint: it is not found.
pub struct UnknownEndpoint {}

/// A response that says that there is nothing.
pub open spec fn not_found_response() -> HttpResponseView {
    HttpResponseView { headers: seq![], status_code: 404, body: seq![] }
}

impl ElseCallback for UnknownEndpoint {
    open spec fn answers_else(&self, request: HttpRequestView, response: HttpResponseView) -> bool {
        response == not_found_response()
    }

    fn call_else(&self, request: HttpRequest) -> (response: HttpResponse) {
        HttpResponse::not_found()
    }
}

/// The endpoints with their targets.
pub open spec fn api_routes() -> Seq<(Seq<char>, APIEndpoint)> {
    seq![
        route(APIEndpoint::TaskSuccess),
        route(APIEndpoint::TaskFailure),
        route(APIEndpoint::TaskInfo),
        route(APIEndpoint::LLMRequest),
    ]
}

/// An endpoint with its target.
pub open spec fn route(endpoint: APIEndpoint) -> (Seq<char>, APIEndpoint) {
    (http_server::relative_url(endpoint.spec_path()), endpoint)
}

/// No two endpoints have the same target.
pub proof fn lemma_targets_differ()
    ensures
        text_map::distinct_keys(api_routes()),
        forall|endpoint: APIEndpoint| (#[trigger] route(endpoint)).0.len() == endpoint.spec_path().len() + 1,
{
    reveal_strlit("/api/agent/task/complete");
    reveal_strlit("/api/agent/task/fail");
    reveal_strlit("/api/agent/task");
    reveal_strlit("/api/chat/completions");
    let keys = api_routes();
    assert(keys[0].0.len() == 25);
    assert(keys[1].0.len() == 21);
    assert(keys[2].0.len() == 16);
    assert(keys[3].0.len() == 22);
}

/// Each endpoint comes after those before it.
proof fn lemma_next_route(n: int)
    requires
        0 <= n < 4,
    ensures
        text_map::upsert(api_routes().take(n), api_routes()[n].0, api_routes()[n].1)
            == api_routes().take(n + 1),
{
    lemma_targets_differ();
    text_map::lemma_key_position_is(api_routes().take(n), api_routes()[n].0, n);
    assert(api_routes().take(n + 1) == api_routes().take(n).push(api_routes()[n]));
}

/// The server that an agent talks to.
pub type AgentServer = Server<ServerContext, APIEndpoint, UnknownEndpoint>;

/// Sets up the endpoints the agent can request, e.g. for the Task API or the LLM requests.
pub fn setup_api_endpoints(agent_environment: AgentTestEnvironment) -> (r: Result<
    AgentServer,
    Error,
>)
    ensures
        r matches Ok(server) && {
            &&& server.routes() == api_routes()
            &&& server.fallback() == Some(UnknownEndpoint {  })
            &&& server.context@ == initial_context(agent_environment@)
        },
{
    let server: AgentServer = Server::new(ServerContext::new(agent_environment));
    proof {
        lemma_targets_differ();
        lemma_next_route(0);
        lemma_next_route(1);
        lemma_next_route(2);
        lemma_next_route(3);
        assert(server.routes() == api_routes().take(0));
    }
    let server = server.with_endpoint(APIEndpoint::TaskSuccess.path(), APIEndpoint::TaskSuccess)?;
    let server = server.with_endpoint(APIEndpoint::TaskFailure.path(), APIEndpoint::TaskFailure)?;
    let server = server.with_endpoint(APIEndpoint::TaskInfo.path(), APIEndpoint::TaskInfo)?;
    let server = server.with_endpoint(APIEndpoint::LLMRequest.path(), APIEndpoint::LLMRequest)?;
    assert(api_routes().take(4) == api_routes());
    Ok(server.with_else_handle(UnknownEndpoint {  }))
}

/// What is told of a request, where anything is.
pub open spec fn notice_of(request: HttpRequestView) -> Option<Seq<char>> {
    match text_map::lookup(api_routes(), request.request_target) {
        Some(APIEndpoint::TaskSuccess) => Some("Task succeeded: "@ + request.body),
        Some(APIEndpoint::TaskFailure) => Some("Task failed: "@ + request.body),
        Some(APIEndpoint::TaskInfo) => Some("Task requested"@),
        Some(APIEndpoint::LLMRequest) => None,
        None => Some("Request on unknown endpoint: "@ + request.request_target),
    }
}

/// Tells whether a target is that of an endpoint.
fn is_target(target: &String, endpoint: APIEndpoint) -> (r: bool)
    ensures
        r == (target@ == route(endpoint).0),
{
    match http_server::format_relative_url(endpoint.path()) {
        Some(path) => target.eq(&path),
        None => false,
    }
}

/// The endpoint that a target is for.
pub fn endpoint_for(target: &String) -> (r: Option<APIEndpoint>)
    ensures
        r == text_map::lookup(api_routes(), target@),
{
    proof {
        text_map::lemma_key_position(api_routes(), target@);
        assert(api_routes()[0] == route(APIEndpoint::TaskSuccess));
        assert(api_routes()[1] == route(APIEndpoint::TaskFailure));
        assert(api_routes()[2] == route(APIEndpoint::TaskInfo));
        assert(api_routes()[3] == route(APIEndpoint::LLMRequest));
    }
    if is_target(target, APIEndpoint::TaskSuccess) {
        Some(APIEndpoint::TaskSuccess)
    } else if is_target(target, APIEndpoint::TaskFailure) {
        Some(APIEndpoint::TaskFailure)
    } else if is_target(target, APIEndpoint::TaskInfo) {
        Some(APIEndpoint::TaskInfo)
    } else if is_target(target, APIEndpoint::LLMRequest) {
        Some(APIEndpoint::LLMRequest)
    } else {
        None
    }
}

/// What is told of a request, where anything is.
pub fn request_notice(request: &HttpRequest) -> (r: Option<String>)
    ensures
        actions::optional_text(r) == notice_of(request@),
{
    match endpoint_for(&request.request_target) {
        Some(endpoint) => match endpoint {
            APIEndpoint::TaskSuccess => Some(
                "Task succeeded: ".to_owned().concat(request.body.as_str()),
            ),
            APIEndpoint::TaskFailure => Some(
                "Task failed: ".to_owned().concat(request.body.as_str()),
            ),
            APIEndpoint::TaskInfo => Some("Task requested".to_owned()),
            APIEndpoint::LLMRequest => None,
        },
        None => Some(
            "Request on unknown endpoint: ".to_owned().concat(request.request_target.as_str()),
        ),
    }
}

} // verus!
