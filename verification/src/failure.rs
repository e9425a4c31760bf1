//! What is recorded of an agent's run, why a run fails, and how that is put in words.

use crate::actions;
use crate::actions::{ActionView, AgentExpectedAction, LLMCall, LLMCallView, LLMResponse, LLMResponseView};
use crate::http_server::{HttpRequest, HttpRequestView};
use crate::text;
use vstd::prelude::*;

verus! {

/// A recorded action of the agent.
pub enum TestLog {
    HttpRequest(HttpRequest),
    CallToFailure,
    CallToSuccess,
    CallToLLM(String),
    CouldNotStopAgent,
}

/// What a record says.
pub enum TestLogView {
    HttpRequest(HttpRequestView),
    CallToFailure,
    CallToSuccess,
    CallToLLM(Seq<char>),
    CouldNotStopAgent,
}

impl View for TestLog {
    type V = TestLogView;

    open spec fn view(&self) -> TestLogView {
        match self {
            TestLog::HttpRequest(request) => TestLogView::HttpRequest(request@),
            TestLog::CallToFailure => TestLogView::CallToFailure,
            TestLog::CallToSuccess => TestLogView::CallToSuccess,
            TestLog::CallToLLM(prompt) => TestLogView::CallToLLM(prompt@),
            TestLog::CouldNotStopAgent => TestLogView::CouldNotStopAgent,
        }
    }
}

impl Clone for TestLog {
    fn clone(&self) -> (r: Self)
        ensures
            r@ == self@,
    {
        match self {
            TestLog::HttpRequest(request) => TestLog::HttpRequest(request.clone()),
            TestLog::CallToFailure => TestLog::CallToFailure,
            TestLog::CallToSuccess => TestLog::CallToSuccess,
            TestLog::CallToLLM(prompt) => TestLog::CallToLLM(prompt.clone()),
            TestLog::CouldNotStopAgent => TestLog::CouldNotStopAgent,
        }
    }
}

/// What a list of records says.
pub open spec fn log_views(log: Seq<TestLog>) -> Seq<TestLogView> {
    log.map_values(|entry: TestLog| entry@)
}

/// A copy of a list of records.
pub fn copied_log(log: &Vec<TestLog>) -> (r: Vec<TestLog>)
    ensures
        log_views(r@) == log_views(log@),
{
    let mut r: Vec<TestLog> = Vec::new();
    let mut i: usize = 0;
    while i < log.len()
        invariant
            i <= log.len(),
            log_views(r@) == log_views(log@.take(i as int)),
        decreases log.len() - i,
    {
        let ghost before = log_views(r@);
        let copy = log[i].clone();
        r.push(copy);
        proof {
            assert(log_views(r@) == before.push(copy@));
            assert(log_views(log@.take(i + 1)) == log_views(log@.take(i as int)).push(
                log@[i as int]@,
            ));
        }
        i = i + 1;
    }
    assert(log@.take(i as int) == log@);
    r
}

/// Why a test fails.
#[derive(Debug)]
pub enum TestFailure {
    CallToFailure,
    CallToSuccess,
    CallToTaskInfo,
    CallToLLM(String),
    AgentCrashed(String),
    ActionsMissing(Vec<AgentExpectedAction>),
    Multiple(Box<TestFailure>, Box<TestFailure>),
}

/// What a reason for failure says.
pub enum FailureView {
    CallToFailure,
    CallToSuccess,
    CallToTaskInfo,
    CallToLLM(Seq<char>),
    AgentCrashed(Seq<char>),
    ActionsMissing(Seq<ActionView>),
    Multiple(Box<FailureView>, Box<FailureView>),
}

impl View for TestFailure {
    type V = FailureView;

    open spec fn view(&self) -> FailureView
        decreases self,
    {
        match self {
            TestFailure::CallToFailure => FailureView::CallToFailure,
            TestFailure::CallToSuccess => FailureView::CallToSuccess,
            TestFailure::CallToTaskInfo => FailureView::CallToTaskInfo,
            TestFailure::CallToLLM(prompt) => FailureView::CallToLLM(prompt@),
            TestFailure::AgentCrashed(error) => FailureView::AgentCrashed(error@),
            TestFailure::ActionsMissing(list) => FailureView::ActionsMissing(
                actions::action_views(list@),
            ),
            TestFailure::Multiple(a, b) => FailureView::Multiple(
                Box::new((**a).view()),
                Box::new((**b).view()),
            ),
        }
    }
}

impl Clone for TestFailure {
    fn clone(&self) -> (r: Self)
        ensures
            r@ == self@,
        decreases self,
    {
        match self {
            TestFailure::CallToFailure => TestFailure::CallToFailure,
            TestFailure::CallToSuccess => TestFailure::CallToSuccess,
            TestFailure::CallToTaskInfo => TestFailure::CallToTaskInfo,
            TestFailure::CallToLLM(prompt) => TestFailure::CallToLLM(prompt.clone()),
            TestFailure::AgentCrashed(error) => TestFailure::AgentCrashed(error.clone()),
            TestFailure::ActionsMissing(list) => TestFailure::ActionsMissing(
                actions::copied_actions(list.as_slice()),
            ),
            TestFailure::Multiple(a, b) => TestFailure::Multiple(
                Box::new((&**a).clone()),
                Box::new((&**b).clone()),
            ),
        }
    }
}

/// What an optional reason says.
pub open spec fn optional_failure(failure: Option<TestFailure>) -> Option<FailureView> {
    match failure {
        Some(failure) => Some(failure@),
        None => None,
    }
}

/// A copy of an optional reason.
pub fn copied_failure(failure: &Option<TestFailure>) -> (r: Option<TestFailure>)
    ensures
        optional_failure(r) == optional_failure(*failure),
{
    match failure {
        Some(failure) => Some(failure.clone()),
        None => None,
    }
}

/// What is known of a run.
pub struct AgentTestFinishedRun {
    /// All registered actions of the agent
    pub log: Vec<TestLog>,
    /// The Reason of Failure, if the Test failed
    pub failure: Option<TestFailure>,
}

/// What the data of a run says.
pub struct RunView {
    pub log: Seq<TestLogView>,
    pub failure: Option<FailureView>,
}

impl View for AgentTestFinishedRun {
    type V = RunView;

    open spec fn view(&self) -> RunView {
        RunView { log: log_views(self.log@), failure: optional_failure(self.failure) }
    }
}

impl Clone for AgentTestFinishedRun {
    fn clone(&self) -> (r: Self)
        ensures
            r@ == self@,
    {
        AgentTestFinishedRun {
            log: copied_log(&self.log),
            failure: copied_failure(&self.failure),
        }
    }
}

/// A run of which nothing is known yet.
pub open spec fn empty_run() -> RunView {
    RunView { log: seq![], failure: None }
}

impl Default for AgentTestFinishedRun {
    fn default() -> (r: Self)
        ensures
            r@ == empty_run(),
    {
        let r = AgentTestFinishedRun { log: Vec::new(), failure: None };
        assert(log_views(r.log@) == Seq::<TestLogView>::empty());
        r
    }
}

/// An optional text as the debug output shows it, with the text as it stands.
pub open spec fn option_text(text: Option<Seq<char>>) -> Seq<char> {
    match text {
        Some(text) => "Some("@ + text + ")"@,
        None => "None"@,
    }
}

/// An answer of a language model as the debug output shows it, with its text as it
/// stands.
pub open spec fn response_text(response: LLMResponseView) -> Seq<char> {
    match response {
        LLMResponseView::Message(text) => "Message("@ + text + ")"@,
        LLMResponseView::ToolCall(text) => "ToolCall("@ + text + ")"@,
    }
}

/// An expected action as the debug output shows it, with its texts as they stand.
pub open spec fn action_text(action: ActionView) -> Seq<char> {
    match action {
        ActionView::File(name, content) => "File("@ + name + ", "@ + option_text(content) + ")"@,
        ActionView::GitCmd => "GitCmd(GitCmd)"@,
        ActionView::LLMCall(call) => "LLMCall(LLMCall { prompt: "@ + option_text(call.prompt)
            + ", response: "@ + response_text(call.response) + " })"@,
        ActionView::TaskSuccess(report) => "TaskSuccess("@ + option_text(report) + ")"@,
        ActionView::TaskFailure(report) => "TaskFailure("@ + option_text(report) + ")"@,
    }
}

/// An optional text, quoted.
pub open spec fn quoted_option(text: Option<Seq<char>>) -> Option<Seq<char>> {
    match text {
        Some(text) => Some(text::quoted(text)),
        None => None,
    }
}

/// An expected action with its texts quoted.
pub open spec fn quoted_action(action: ActionView) -> ActionView {
    match action {
        ActionView::File(name, content) => ActionView::File(
            text::quoted(name),
            quoted_option(content),
        ),
        ActionView::GitCmd => ActionView::GitCmd,
        ActionView::LLMCall(call) => ActionView::LLMCall(
            LLMCallView {
                prompt: quoted_option(call.prompt),
                response: match call.response {
                    LLMResponseView::Message(text) => LLMResponseView::Message(text::quoted(text)),
                    LLMResponseView::ToolCall(text) => LLMResponseView::ToolCall(
                        text::quoted(text),
                    ),
                },
            },
        ),
        ActionView::TaskSuccess(report) => ActionView::TaskSuccess(quoted_option(report)),
        ActionView::TaskFailure(report) => ActionView::TaskFailure(quoted_option(report)),
    }
}

/// Expected actions as the debug output shows them, with their texts as they stand.
pub open spec fn actions_text(list: Seq<ActionView>) -> Seq<char> {
    "["@ + text::joined(list.map_values(|action: ActionView| action_text(action)), ", "@) + "]"@
}

/// Expected actions with their texts quoted.
pub open spec fn quoted_actions(list: Seq<ActionView>) -> Seq<ActionView> {
    list.map_values(|action: ActionView| quoted_action(action))
}

/// A reason for failure in words.
pub open spec fn failure_text(failure: FailureView) -> Seq<char>
    decreases failure,
{
    match failure {
        FailureView::CallToFailure => "Unexpected call to the failure endpoint"@,
        FailureView::CallToSuccess => "Unexpected call to the success endpoint"@,
        FailureView::CallToTaskInfo => "Unexpected call to the Task API"@,
        FailureView::CallToLLM(prompt) => "Unexpected LLM call with prompt: "@ + prompt,
        FailureView::AgentCrashed(error) => "The agent crashed with error: "@ + error,
        FailureView::ActionsMissing(list) => {
            "There are actions missing, but the agent already stopped: "@ + actions_text(
                quoted_actions(list),
            )
        },
        FailureView::Multiple(a, b) => "Multiple failure reasons:\n    "@ + failure_text(*a)
            + "\n    "@ + failure_text(*b),
    }
}

fn format_option(text: &Option<String>) -> (r: String)
    ensures
        r@ == option_text(actions::optional_text(*text)),
{
    match text {
        Some(text) => "Some(".to_owned().concat(text.as_str()).concat(")"),
        None => "None".to_owned(),
    }
}

fn format_response(response: &LLMResponse) -> (r: String)
    ensures
        r@ == response_text(response@),
{
    match response {
        LLMResponse::Message(text) => "Message(".to_owned().concat(text.as_str()).concat(")"),
        LLMResponse::ToolCall(text) => "ToolCall(".to_owned().concat(text.as_str()).concat(")"),
    }
}

/// Writes an expected action as the debug output shows it, with its texts as they stand.
pub fn format_action(action: &AgentExpectedAction) -> (r: String)
    ensures
        r@ == action_text(action@),
{
    match action {
        AgentExpectedAction::File(name, content) => "File(".to_owned().concat(
            name.as_str(),
        ).concat(", ").concat(format_option(content).as_str()).concat(")"),
        AgentExpectedAction::GitCmd(_) => "GitCmd(GitCmd)".to_owned(),
        AgentExpectedAction::LLMCall(call) => "LLMCall(LLMCall { prompt: ".to_owned().concat(
            format_option(&call.prompt).as_str(),
        ).concat(", response: ").concat(format_response(&call.response).as_str()).concat(" })"),
        AgentExpectedAction::TaskSuccess(report) => "TaskSuccess(".to_owned().concat(
            format_option(report).as_str(),
        ).concat(")"),
        AgentExpectedAction::TaskFailure(report) => "TaskFailure(".to_owned().concat(
            format_option(report).as_str(),
        ).concat(")"),
    }
}

/// Writes expected actions as the debug output shows them, with their texts as they
/// stand.
pub fn format_actions(list: &Vec<AgentExpectedAction>) -> (r: String)
    ensures
        r@ == actions_text(actions::action_views(list@)),
{
    let ghost shown = actions::action_views(list@).map_values(
        |action: ActionView| action_text(action),
    );
    let mut r: String = "[".to_owned();
    let mut i: usize = 0;
    assert(shown.take(0) == Seq::<Seq<char>>::empty());
    while i < list.len()
        invariant
            i <= list.len(),
            shown == actions::action_views(list@).map_values(
                |action: ActionView| action_text(action),
            ),
            r@ == "["@ + text::joined(shown.take(i as int), ", "@),
        decreases list.len() - i,
    {
        if i > 0 {
            r.append(", ");
        }
        r.append(format_action(&list[i]).as_str());
        proof {
            assert(shown.take(i + 1).drop_last() == shown.take(i as int));
            assert(shown.take(i + 1).last() == action_text(list@[i as int]@));
            assert(r@ == "["@ + text::joined(shown.take(i + 1), ", "@));
        }
        i = i + 1;
    }
    assert(shown.take(i as int) == shown);
    r.append("]");
    r
}

fn quote_option(text: &Option<String>) -> (r: Option<String>)
    ensures
        actions::optional_text(r) == quoted_option(actions::optional_text(*text)),
{
    match text {
        Some(text) => Some(text::quote(text.as_str())),
        None => None,
    }
}

/// An expected action with its texts quoted.
pub fn quote_action(action: &AgentExpectedAction) -> (r: AgentExpectedAction)
    ensures
        r@ == quoted_action(action@),
{
    match action {
        AgentExpectedAction::File(name, content) => AgentExpectedAction::File(
            text::quote(name.as_str()),
            quote_option(content),
        ),
        AgentExpectedAction::GitCmd(cmd) => AgentExpectedAction::GitCmd(*cmd),
        AgentExpectedAction::LLMCall(call) => AgentExpectedAction::LLMCall(
            LLMCall {
                prompt: quote_option(&call.prompt),
                response: match &call.response {
                    LLMResponse::Message(text) => LLMResponse::Message(text::quote(text.as_str())),
                    LLMResponse::ToolCall(text) => LLMResponse::ToolCall(
                        text::quote(text.as_str()),
                    ),
                },
            },
        ),
        AgentExpectedAction::TaskSuccess(report) => AgentExpectedAction::TaskSuccess(
            quote_option(report),
        ),
        AgentExpectedAction::TaskFailure(report) => AgentExpectedAction::TaskFailure(
            quote_option(report),
        ),
    }
}

/// Expected actions with their texts quoted.
pub fn quote_actions(list: &Vec<AgentExpectedAction>) -> (r: Vec<AgentExpectedAction>)
    ensures
        actions::action_views(r@) == quoted_actions(actions::action_views(list@)),
{
    let ghost all = quoted_actions(actions::action_views(list@));
    let mut r: Vec<AgentExpectedAction> = Vec::new();
    let mut i: usize = 0;
    while i < list.len()
        invariant
            i <= list.len(),
            all == quoted_actions(actions::action_views(list@)),
            actions::action_views(r@) == all.take(i as int),
        decreases list.len() - i,
    {
        let ghost before = actions::action_views(r@);
        let action = quote_action(&list[i]);
        r.push(action);
        proof {
            assert(actions::action_views(r@) == before.push(action@));
            assert(all.take(i + 1) == all.take(i as int).push(all[i as int]));
        }
        i = i + 1;
    }
    assert(all.take(i as int) == all);
    r
}

impl TestFailure {
    /// The reason in words.
    pub fn message(&self) -> (r: String)
        ensures
            r@ == failure_text(self@),
        decreases self,
    {
        match self {
            TestFailure::CallToFailure => "Unexpected call to the failure endpoint".to_owned(),
            TestFailure::CallToSuccess => "Unexpected call to the success endpoint".to_owned(),
            TestFailure::CallToTaskInfo => "Unexpected call to the Task API".to_owned(),
            TestFailure::CallToLLM(prompt) => "Unexpected LLM call with prompt: ".to_owned().concat(
                prompt.as_str(),
            ),
            TestFailure::AgentCrashed(error) => "The agent crashed with error: ".to_owned().concat(
                error.as_str(),
            ),
            TestFailure::ActionsMissing(list) => {
                let quoted = quote_actions(list);
                "There are actions missing, but the agent already stopped: ".to_owned().concat(
                    format_actions(&quoted).as_str(),
                )
            },
            TestFailure::Multiple(a, b) => "Multiple failure reasons:\n    ".to_owned().concat(
                (&**a).message().as_str(),
            ).concat("\n    ").concat((&**b).message().as_str()),
        }
    }
}

} // verus!
