use agent_harness::actions::{APIEndpoint, AgentExpectedAction, GitCmd, LLMResponse, Task};
use agent_harness::endpoints::{
    chat_completion, endpoint_for, request_notice, setup_api_endpoints, AgentServer, ServerContext,
};
use agent_harness::environment::AgentTestEnvironment;
use agent_harness::failure::{TestFailure, TestLog};
use agent_harness::http_server::{
    parse_http_request, Error, HttpResponse, ServerContext as Context, ServerEvent, ServerStep,
};
use agent_harness::runner::{AgentTestFinishedRunner, AgentTestRunner};

fn server(environment: AgentTestEnvironment) -> AgentServer {
    match setup_api_endpoints(environment) {
        Ok(server) => server,
        Err(error) => panic!("{}", error.message()),
    }
}

fn send(server: &mut AgentServer, target: &str, body: &str) -> ServerStep {
    let text = format!("POST {} HTTP/1.1\r\n\r\n{}", target, body);
    match server.step(ServerEvent::Received(text.into_bytes())) {
        Ok(step) => step,
        Err(error) => panic!("{}", error.message()),
    }
}

fn body(step: &ServerStep) -> serde_json::Value {
    let at = step.response.find("\r\n\r\n").unwrap();
    serde_json::from_str(&step.response[at + 4..]).unwrap()
}

fn finish(environment: AgentTestEnvironment, server: AgentServer) -> AgentTestFinishedRunner {
    AgentTestRunner::new(environment).join(vec![], None, server.context)
}

#[test]
fn the_task_is_given_as_json() {
    let environment = AgentTestEnvironment::new().with_task(&Task::new("Say \"hi\"\n"));
    let mut server = server(environment);
    for target in ["/api/agent/task", "/api/agent/task/"] {
        let step = send(&mut server, target, "");
        assert!(!step.finished);
        assert_eq!(step.request.request_target, "/api/agent/task/");
        assert_eq!(
            step.response,
            "HTTP/1.1 200 OK\r\nContent-Type: application/json\r\nContent-Length: 30\r\n\r\n\
             {\"description\":\"Say \\\"hi\\\"\\n\"}"
        );
    }
    assert!(server.context.test_data.failure.is_none());
}

#[test]
fn the_expected_prompt_is_answered_with_its_response() {
    let environment = AgentTestEnvironment::new()
        .expect_llm_call(&LLMResponse::Message("first".to_owned()), Some("one"))
        .expect_llm_call(&LLMResponse::ToolCall("second".to_owned()), None);
    let mut server = server(environment);
    let step = send(&mut server, "/api/chat/completions", "one");
    assert_eq!(body(&step)["choices"][0]["message"]["content"], "first");
    assert!(!step.finished);
    let step = send(&mut server, "/api/chat/completions", "anything");
    assert_eq!(body(&step)["choices"][0]["message"]["content"], "second");
    let step = send(&mut server, "/api/chat/completions", "more");
    assert_eq!(body(&step)["choices"][0]["message"]["content"], "hello world");
    assert!(!step.finished);
    assert!(server.context.test_data.failure.is_none());
}

#[test]
fn another_prompt_stops_the_server() {
    let environment = AgentTestEnvironment::new()
        .expect_llm_call(&LLMResponse::Message("first".to_owned()), Some("one"));
    let mut server = server(environment);
    let step = send(&mut server, "/api/chat/completions", "two");
    assert!(step.finished);
    assert_eq!(body(&step)["choices"][0]["message"]["content"], "hello world");
    match &server.context.test_data.failure {
        Some(TestFailure::CallToLLM(prompt)) => assert_eq!(prompt, "two"),
        _ => panic!(),
    }
}

#[test]
fn the_answer_of_the_language_model_is_a_chat_completion() {
    let document = HttpResponse::ok().json(&chat_completion("hello world")).body;
    let expected = "{\"choices\":[{\"finish_reason\":\"done\",\"index\":0,\"message\":\
        {\"role\":\"assistant\",\"content\":\"hello world\"}}],\"usage\":{\"completion_tokens\":0,\
        \"prompt_tokens\":0,\"total_tokens\":0}}";
    let a: serde_json::Value = serde_json::from_str(&document).unwrap();
    let b: serde_json::Value = serde_json::from_str(expected).unwrap();
    assert_eq!(a, b);
}

#[test]
fn success_and_failure_end_the_test() {
    for (target, blamed) in [("/api/agent/task/complete", true), ("/api/agent/task/fail", false)] {
        let mut server = server(AgentTestEnvironment::new().expect_failure(None));
        let step = send(&mut server, target, "report");
        assert!(step.finished);
        assert!(server.context.should_terminate_server());
        assert_eq!(step.response, "HTTP/1.1 200 OK\r\nContent-Length: 0\r\n\r\n");
        assert!(server.context.test_data.failure.is_none());
        assert_eq!(server.context.environment.uncompleted_serial_actions().len() == 1, blamed);
    }
}

#[test]
fn a_call_out_of_order_is_blamed() {
    let environment = AgentTestEnvironment::new()
        .expect_llm_call(&LLMResponse::Message("a".to_owned()), None)
        .expect_success(None);
    let mut server = server(environment.clone());
    let step = send(&mut server, "/api/agent/task/complete", "");
    assert!(step.finished);
    assert!(matches!(server.context.test_data.failure, Some(TestFailure::CallToSuccess)));
    let failure = finish(environment, server).test_failure();
    match failure {
        Some(TestFailure::Multiple(a, b)) => {
            assert!(matches!(*a, TestFailure::CallToSuccess));
            assert!(matches!(*b, TestFailure::ActionsMissing(list) if list.len() == 2));
        }
        _ => panic!(),
    }
}

#[test]
fn an_agent_that_does_what_is_expected_passes() {
    let environment = AgentTestEnvironment::new()
        .expect_llm_call(&LLMResponse::Message("a".to_owned()), Some("p"))
        .expect_llm_call(&LLMResponse::Message("b".to_owned()), None)
        .expect_failure(Some("gave up"));
    let mut server = server(environment.clone());
    assert!(!send(&mut server, "/api/agent/task", "").finished);
    assert!(!send(&mut server, "/api/chat/completions", "p").finished);
    assert!(!send(&mut server, "/api/chat/completions/", "q").finished);
    assert!(!send(&mut server, "/favicon.ico", "").finished);
    assert!(send(&mut server, "/api/agent/task/fail", "gave up").finished);
    let finished = finish(environment, server);
    assert!(finished.test_failure().is_none());
    let logs = finished.test_logs();
    assert_eq!(logs.len(), 4);
    match &logs[0] {
        TestLog::HttpRequest(request) => assert_eq!(request.request_target, "/api/agent/task/"),
        _ => panic!(),
    }
    assert!(matches!(&logs[1], TestLog::CallToLLM(prompt) if prompt == "p"));
    assert!(matches!(&logs[2], TestLog::CallToLLM(prompt) if prompt == "q"));
    assert!(matches!(logs[3], TestLog::CallToFailure));
}

#[test]
fn an_unknown_endpoint_is_not_found() {
    let mut server = server(AgentTestEnvironment::new().expect_success(None));
    let step = send(&mut server, "/nothing", "");
    assert!(!step.finished);
    assert_eq!(step.response, "HTTP/1.1 404 Not Found\r\nContent-Length: 0\r\n\r\n");
    assert_eq!(server.context.environment.serial_action_index, 0);
    assert!(server.context.test_data.failure.is_none());
}

#[test]
fn failures_at_the_door_end_the_server() {
    let mut server = server(AgentTestEnvironment::new());
    assert!(matches!(
        server.step(ServerEvent::ConnectionFailed("a".to_owned())),
        Err(Error::ConnectionFailed(reason)) if reason == "a"
    ));
    assert!(matches!(
        server.step(ServerEvent::IOFailed("b".to_owned())),
        Err(Error::IOError(reason)) if reason == "b"
    ));
    assert!(matches!(
        server.step(ServerEvent::Received(b"BREW / HTCPCP/1.0".to_vec())),
        Err(Error::InvalidRequest(reason)) if reason == "Unsupported HTTP method: BREW"
    ));
}

#[test]
fn targets_name_endpoints() {
    assert_eq!(
        endpoint_for(&"/api/agent/task/complete/".to_owned()),
        Some(APIEndpoint::TaskSuccess)
    );
    assert_eq!(endpoint_for(&"/api/agent/task/fail/".to_owned()), Some(APIEndpoint::TaskFailure));
    assert_eq!(endpoint_for(&"/api/agent/task/".to_owned()), Some(APIEndpoint::TaskInfo));
    assert_eq!(endpoint_for(&"/api/chat/completions/".to_owned()), Some(APIEndpoint::LLMRequest));
    assert_eq!(endpoint_for(&"/api/".to_owned()), None);
}

#[test]
fn requests_are_told_of() {
    let notice = |target: &str| {
        request_notice(&parse_http_request(&format!("GET {} HTTP/1.1\n\nx", target)).unwrap())
    };
    assert_eq!(notice("/api/agent/task/complete/"), Some("Task succeeded: x".to_owned()));
    assert_eq!(notice("/api/agent/task/fail/"), Some("Task failed: x".to_owned()));
    assert_eq!(notice("/api/agent/task/"), Some("Task requested".to_owned()));
    assert_eq!(notice("/api/chat/completions/"), None);
    assert_eq!(notice("/x/"), Some("Request on unknown endpoint: /x/".to_owned()));
}

#[test]
fn a_later_registration_counts() {
    let server: AgentServer = AgentServer::new(ServerContext::new(AgentTestEnvironment::new()));
    let mut server = server
        .with_endpoint("/x", APIEndpoint::TaskInfo)
        .unwrap()
        .with_endpoint("/x/", APIEndpoint::TaskSuccess)
        .unwrap();
    assert!(send(&mut server, "/x", "").finished);
    let step = send(&mut server, "/y", "");
    assert_eq!(step.response, "HTTP/1.1 404 Not Found\r\nContent-Length: 0\r\n\r\n");
}

#[test]
fn a_context_is_told_to_terminate() {
    let mut context = ServerContext::new(AgentTestEnvironment::new());
    assert!(!context.should_terminate_server());
    context.terminate_server();
    assert!(context.should_terminate_server());
}

#[test]
fn a_request_leaves_the_expectations_as_they_are() {
    let environment = AgentTestEnvironment::new()
        .with_task(&Task::new("t"))
        .expect_llm_call(&LLMResponse::Message("a".to_owned()), None)
        .expect_file("f", None)
        .expect_success(None);
    let mut server = server(environment.clone());
    for target in ["/api/chat/completions", "/api/agent/task", "/x", "/api/agent/task/complete"] {
        send(&mut server, target, "");
        let now = &server.context.environment;
        assert_eq!(format!("{:?}", now.serial_actions), format!("{:?}", environment.serial_actions));
        assert_eq!(
            format!("{:?}", now.parallel_actions),
            format!("{:?}", environment.parallel_actions)
        );
        assert_eq!(now.task.description, "t");
    }
    assert_eq!(server.context.test_data.log.len(), 3);
    assert_eq!(server.context.environment.serial_action_index, 2);
}

#[test]
fn an_end_that_comes_too_early_leaves_actions_undone() {
    let environment = AgentTestEnvironment::new()
        .expect_llm_call(&LLMResponse::Message("a".to_owned()), None);
    let mut server = server(environment.clone());
    assert!(send(&mut server, "/api/agent/task/complete", "").finished);
    assert!(server.context.test_data.failure.is_none());
    assert_eq!(
        finish(environment, server).test_failure().unwrap().message(),
        "There are actions missing, but the agent already stopped: \
         [LLMCall(LLMCall { prompt: None, response: Message(\"a\") })]"
    );
}

#[test]
fn every_endpoint_is_under_the_base_url() {
    for endpoint in [
        APIEndpoint::TaskSuccess,
        APIEndpoint::TaskFailure,
        APIEndpoint::TaskInfo,
        APIEndpoint::LLMRequest,
    ] {
        assert!(endpoint.path().starts_with("/api/"));
        assert_eq!(endpoint_for(&format!("{}/", endpoint.path())), Some(endpoint));
    }
}

#[test]
fn every_call_is_in_the_log() {
    let environment = AgentTestEnvironment::new();
    let mut server = server(environment.clone());
    assert!(send(&mut server, "/api/agent/task/complete", "").finished);
    let logs = finish(environment, server).test_logs();
    assert_eq!(logs.len(), 1);
    assert!(matches!(logs[0], TestLog::CallToSuccess));
}

#[test]
fn a_call_that_is_blamed_is_in_the_log() {
    let environment = AgentTestEnvironment::new()
        .expect_llm_call(&LLMResponse::Message("a".to_owned()), Some("one"));
    let mut server = server(environment.clone());
    assert!(send(&mut server, "/api/chat/completions", "two").finished);
    let finished = AgentTestRunner::new(environment).join(
        vec![],
        Some(TestFailure::AgentCrashed("boom".to_owned())),
        server.context,
    );
    let logs = finished.test_logs();
    assert_eq!(logs.len(), 2);
    assert!(matches!(&logs[0], TestLog::CallToLLM(prompt) if prompt == "two"));
    assert!(matches!(logs[1], TestLog::CouldNotStopAgent));
}

#[test]
fn a_call_does_no_action_that_is_no_call() {
    let mut environment = AgentTestEnvironment::new();
    environment.serial_actions.push(AgentExpectedAction::GitCmd(GitCmd {}));
    let environment = environment.expect_success(None);
    let mut server = server(environment);
    assert!(!send(&mut server, "/api/agent/task", "").finished);
    assert!(!send(&mut server, "/api/chat/completions", "p").finished);
    assert_eq!(server.context.environment.serial_action_index, 0);
    assert!(send(&mut server, "/api/agent/task/complete", "").finished);
    assert!(matches!(server.context.test_data.failure, Some(TestFailure::CallToSuccess)));
    assert_eq!(server.context.environment.serial_action_index, 0);
}
