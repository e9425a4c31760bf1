use agent_harness::actions::{APIEndpoint, AgentExpectedAction, GitCmd, LLMCall, LLMResponse, Task};
use agent_harness::environment::AgentTestEnvironment;
use agent_harness::failure::{format_action, format_actions, TestFailure};
use agent_harness::http_server::{parse_http_request, HttpRequest};

fn request(target: &str, body: &str) -> HttpRequest {
    parse_http_request(&format!("POST {} HTTP/1.1\r\n\r\n{}", target, body)).unwrap()
}

fn message(text: &str) -> LLMResponse {
    LLMResponse::Message(text.to_owned())
}

#[test]
fn a_new_environment_expects_nothing() {
    let environment = AgentTestEnvironment::new();
    assert!(environment.serial_actions.is_empty());
    assert!(environment.parallel_actions.is_empty());
    assert_eq!(environment.task.description, "");
    assert!(environment.uncompleted_serial_actions().is_empty());
    assert!(environment.following_serial_actions().is_empty());
    assert!(environment.peek_next_serial_action().is_none());
}

#[test]
fn expectations_are_collected() {
    let environment = AgentTestEnvironment::new()
        .with_task(&Task::new("Do nothing"))
        .expect_llm_call(&message("hi"), Some("prompt"))
        .expect_file("test.txt", Some("content"))
        .expect_success(Some("done"))
        .expect_failure(None);
    assert_eq!(environment.task.description, "Do nothing");
    assert_eq!(
        format!("{:?}", environment.serial_actions),
        "[LLMCall(LLMCall { prompt: Some(\"prompt\"), response: Message(\"hi\") }), \
         TaskSuccess(Some(\"done\")), TaskFailure(None)]"
    );
    assert_eq!(
        format!("{:?}", environment.parallel_actions),
        "[File(\"test.txt\", Some(\"content\"))]"
    );
    let copy = environment.clone();
    assert_eq!(format!("{:?}", copy.serial_actions), format!("{:?}", environment.serial_actions));
    assert_eq!(copy.task.description, "Do nothing");
}

#[test]
fn serial_actions_are_taken_in_order() {
    let mut environment = AgentTestEnvironment::new()
        .expect_llm_call(&message("a"), None)
        .expect_success(None);
    assert!(matches!(
        environment.next_serial_action(),
        Some(AgentExpectedAction::LLMCall(_))
    ));
    assert_eq!(environment.uncompleted_serial_actions().len(), 1);
    assert!(environment.following_serial_actions().is_empty());
    assert!(matches!(
        environment.peek_next_serial_action(),
        Some(AgentExpectedAction::TaskSuccess(None))
    ));
    assert!(environment.next_serial_action().is_some());
    assert!(environment.next_serial_action().is_none());
    assert!(environment.uncompleted_serial_actions().is_empty());
}

#[test]
fn the_next_action_is_valid_and_done() {
    let mut environment = AgentTestEnvironment::new().expect_failure(None);
    assert!(environment.check_api_request(
        request("/api/agent/task/fail", "why"),
        &TestFailure::CallToFailure
    ));
    assert_eq!(environment.serial_action_index, 1);
    assert!(environment.uncompleted_serial_actions().is_empty());
}

#[test]
fn a_later_action_is_not_valid() {
    for target in ["/api/agent/task/fail", "/api/agent/task/fail/"] {
        let mut environment = AgentTestEnvironment::new()
            .expect_llm_call(&message("a"), None)
            .expect_failure(None);
        assert!(!environment.check_api_request(request(target, ""), &TestFailure::CallToFailure));
        assert_eq!(environment.serial_action_index, 0);
        assert_eq!(environment.uncompleted_serial_actions().len(), 2);
    }
}

#[test]
fn a_request_that_nothing_expects_is_valid() {
    let mut environment = AgentTestEnvironment::new().expect_failure(None);
    assert!(environment.check_api_request(
        request("/api/agent/task/", ""),
        &TestFailure::CallToTaskInfo
    ));
    assert!(environment.check_api_request(
        request("/api/chat/completions/", ""),
        &TestFailure::CallToLLM("".to_owned())
    ));
    assert_eq!(environment.serial_action_index, 0);
}

#[test]
fn a_failure_report_has_to_correspond() {
    let expected = AgentTestEnvironment::new().expect_failure(Some("no disk"));
    let mut environment = expected.clone();
    assert!(environment
        .check_api_request_failure_mode(
            request("/api/agent/task/fail/", "no disk"),
            TestFailure::CallToFailure
        )
        .is_none());
    assert_eq!(environment.serial_action_index, 1);
    let mut environment = expected;
    assert!(matches!(
        environment.check_api_request_failure_mode(
            request("/api/agent/task/fail/", "no time"),
            TestFailure::CallToFailure
        ),
        Some(TestFailure::CallToFailure)
    ));
    assert_eq!(environment.serial_action_index, 0);
}

#[test]
fn a_prompt_has_to_correspond() {
    let mut environment = AgentTestEnvironment::new().expect_llm_call(&message("a"), Some("hello"));
    assert!(!environment.check_api_request(
        request("/api/chat/completions/", "bye"),
        &TestFailure::CallToLLM("bye".to_owned())
    ));
    assert!(environment.check_api_request(
        request("/api/chat/completions/", "hello"),
        &TestFailure::CallToLLM("hello".to_owned())
    ));
}

#[test]
fn actions_match_their_kind_of_call() {
    let call = AgentExpectedAction::LLMCall(LLMCall::new(message("a"), None));
    let success = AgentExpectedAction::TaskSuccess(None);
    let failure = AgentExpectedAction::TaskFailure(None);
    let file = AgentExpectedAction::File("f".to_owned(), None);
    let blame = TestFailure::CallToLLM("".to_owned());
    let matches = AgentTestEnvironment::action_matches_failure_mode;
    assert!(matches(&call, &blame));
    assert!(!matches(&call, &TestFailure::CallToSuccess));
    assert!(matches(&success, &TestFailure::CallToSuccess));
    assert!(!matches(&success, &TestFailure::CallToFailure));
    assert!(matches(&failure, &TestFailure::CallToFailure));
    assert!(!matches(&failure, &TestFailure::CallToTaskInfo));
    assert!(matches(&file, &TestFailure::CallToTaskInfo));
}

#[test]
fn actions_have_endpoints() {
    let endpoint = AgentTestEnvironment::action_to_endpoint;
    assert_eq!(
        endpoint(&AgentExpectedAction::LLMCall(LLMCall::new(message("a"), None))),
        "/api/chat/completions"
    );
    assert_eq!(endpoint(&AgentExpectedAction::TaskSuccess(None)), "/api/agent/task/complete");
    assert_eq!(endpoint(&AgentExpectedAction::TaskFailure(None)), "/api/agent/task/fail");
    assert_eq!(endpoint(&AgentExpectedAction::GitCmd(GitCmd {})), "no endpoint");
    assert_eq!(endpoint(&AgentExpectedAction::File("f".to_owned(), None)), "no endpoint");
    assert_eq!(APIEndpoint::TaskInfo.path(), "/api/agent/task");
}

#[test]
fn failures_are_put_in_words() {
    assert_eq!(TestFailure::CallToFailure.message(), "Unexpected call to the failure endpoint");
    assert_eq!(TestFailure::CallToSuccess.message(), "Unexpected call to the success endpoint");
    assert_eq!(TestFailure::CallToTaskInfo.message(), "Unexpected call to the Task API");
    assert_eq!(
        TestFailure::CallToLLM("hi".to_owned()).message(),
        "Unexpected LLM call with prompt: hi"
    );
    let crashed = TestFailure::AgentCrashed("boom".to_owned());
    assert_eq!(crashed.message(), "The agent crashed with error: boom");
    let both = TestFailure::Multiple(Box::new(crashed), Box::new(TestFailure::CallToSuccess));
    assert_eq!(
        both.clone().message(),
        "Multiple failure reasons:\n    The agent crashed with error: boom\n    \
         Unexpected call to the success endpoint"
    );
}

#[test]
fn missing_actions_are_shown_as_their_debug_output() {
    let actions = vec![
        AgentExpectedAction::File("a \"b\".txt".to_owned(), Some("x\ny".to_owned())),
        AgentExpectedAction::File("c".to_owned(), None),
        AgentExpectedAction::GitCmd(GitCmd {}),
        AgentExpectedAction::LLMCall(LLMCall::new(message("\u{e9}\t"), Some("p"))),
        AgentExpectedAction::LLMCall(LLMCall::new(LLMResponse::ToolCall("t".to_owned()), None)),
        AgentExpectedAction::TaskSuccess(Some("s".to_owned())),
        AgentExpectedAction::TaskFailure(None),
    ];
    let expected = format!(
        "There are actions missing, but the agent already stopped: {:?}",
        actions
    );
    assert_eq!(TestFailure::ActionsMissing(actions).message(), expected);
    assert_eq!(
        TestFailure::ActionsMissing(vec![]).message(),
        "There are actions missing, but the agent already stopped: []"
    );
}

#[test]
fn texts_that_are_quoted_already_are_shown_as_they_are() {
    let action = AgentExpectedAction::File("<n>".to_owned(), Some("<c>".to_owned()));
    assert_eq!(format_action(&action), "File(<n>, Some(<c>))");
    assert_eq!(
        format_actions(&vec![action, AgentExpectedAction::TaskSuccess(None)]),
        "[File(<n>, Some(<c>)), TaskSuccess(None)]"
    );
}

#[test]
fn a_call_behind_an_action_that_is_no_call_is_not_valid() {
    let mut environment = AgentTestEnvironment::new();
    environment.serial_actions =
        vec![AgentExpectedAction::GitCmd(GitCmd {}), AgentExpectedAction::TaskSuccess(None)];
    let complete = parse_http_request("POST /api/agent/task/complete HTTP/1.1").unwrap();
    assert!(!environment.check_api_request(complete, &TestFailure::CallToSuccess));
    assert_eq!(environment.serial_action_index, 0);
    assert!(!AgentTestEnvironment::action_is_call(&environment.serial_actions[0]));
    assert!(AgentTestEnvironment::action_is_call(&environment.serial_actions[1]));
}

#[test]
fn no_request_is_an_action_that_is_no_call() {
    let mut environment = AgentTestEnvironment::new().expect_success(None);
    environment.serial_actions.push(AgentExpectedAction::GitCmd(GitCmd {}));
    environment.serial_actions.push(AgentExpectedAction::File("f".to_owned(), None));
    let mut stray = request("/x", "");
    for target in ["no endpoint", "no endpoint/"] {
        stray.request_target = target.to_owned();
        assert!(environment.check_api_request(stray.clone(), &TestFailure::CallToTaskInfo));
        assert_eq!(environment.serial_action_index, 0);
    }
}
