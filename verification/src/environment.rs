//! The environment in which an agent is tested: its task, what it is expected to do, and
//! how far it has come.

use crate::actions;
use crate::actions::{APIEndpoint, ActionView, AgentExpectedAction, LLMCall, LLMResponse, Task};
use crate::failure::{FailureView, TestFailure};
use crate::http_server;
use crate::http_server::{HttpRequest, HttpRequestView};
use vstd::prelude::*;

verus! {

/// What is expected of an agent.
pub struct AgentTestEnvironment {
    /// Actions which have to be done in the given order.
    pub serial_actions: Vec<AgentExpectedAction>,
    /// Actions which can be done at any time and just have to happen at least once.
    pub parallel_actions: Vec<AgentExpectedAction>,
    /// The task which is provided to the agent.
    pub task: Task,
    /// The current index of the serial actions
    pub serial_action_index: usize,
}

/// What an environment says.
pub struct EnvironmentView {
    pub serial_actions: Seq<ActionView>,
    pub parallel_actions: Seq<ActionView>,
    pub task: Seq<char>,
    pub serial_action_index: usize,
}

impl View for AgentTestEnvironment {
    type V = EnvironmentView;

    open spec fn view(&self) -> EnvironmentView {
        EnvironmentView {
            serial_actions: actions::action_views(self.serial_actions@),
            parallel_actions: actions::action_views(self.parallel_actions@),
            task: self.task@,
            serial_action_index: self.serial_action_index,
        }
    }
}

impl Clone for AgentTestEnvironment {
    fn clone(&self) -> (r: Self)
        ensures
            r@ == self@,
    {
        AgentTestEnvironment {
            serial_actions: actions::copied_actions(self.serial_actions.as_slice()),
            parallel_actions: actions::copied_actions(self.parallel_actions.as_slice()),
            task: self.task.clone(),
            serial_action_index: self.serial_action_index,
        }
    }
}

impl EnvironmentView {
    /// The serial action that comes next.
    pub open spec fn next(self) -> Option<ActionView> {
        if self.serial_action_index < self.serial_actions.len() {
            Some(self.serial_actions[self.serial_action_index as int])
        } else {
            None
        }
    }

    /// The serial actions that are still to be done.
    pub open spec fn uncompleted(self) -> Seq<ActionView> {
        if self.serial_action_index < self.serial_actions.len() {
            self.serial_actions.skip(self.serial_action_index as int)
        } else {
            seq![]
        }
    }

    /// The serial actions that are to be done after the next one.
    pub open spec fn following(self) -> Seq<ActionView> {
        if self.uncompleted().len() > 0 {
            self.uncompleted().skip(1)
        } else {
            seq![]
        }
    }

    /// The environment after the next serial action was done.
    pub open spec fn advanced(self) -> EnvironmentView {
        EnvironmentView { serial_action_index: (self.serial_action_index + 1) as usize, ..self }
    }
}

/// The endpoint at which an action is done, where it is a call.
pub open spec fn call_of(action: ActionView) -> Option<APIEndpoint> {
    match action {
        ActionView::LLMCall(_) => Some(APIEndpoint::LLMRequest),
        ActionView::TaskSuccess(_) => Some(APIEndpoint::TaskSuccess),
        ActionView::TaskFailure(_) => Some(APIEndpoint::TaskFailure),
        _ => None,
    }
}

/// The kind of call that a failure blames is not another than the kind that the action is.
/// An action that is no call rules out none.
pub open spec fn mode_matches(action: ActionView, failure: FailureView) -> bool {
    match action {
        ActionView::LLMCall(_) => failure is CallToLLM,
        ActionView::TaskSuccess(_) => failure is CallToSuccess,
        ActionView::TaskFailure(_) => failure is CallToFailure,
        _ => true,
    }
}

/// What a call brings corresponds to what the action expects: the prompt of a call to a
/// language model, and the report of a failure, where one is expected.
pub open spec fn content_matches(
    action: ActionView,
    request: HttpRequestView,
    failure: FailureView,
) -> bool {
    match action {
        ActionView::LLMCall(call) => match call.prompt {
            Some(expected) => failure == FailureView::CallToLLM(expected),
            None => true,
        },
        ActionView::TaskFailure(Some(expected)) => request.body == expected,
        _ => true,
    }
}

/// The path of the endpoint at which an action is done.
pub open spec fn endpoint_of(action: ActionView) -> Seq<char> {
    match action {
        ActionView::LLMCall(_) => APIEndpoint::LLMRequest.spec_path(),
        ActionView::TaskSuccess(_) => APIEndpoint::TaskSuccess.spec_path(),
        ActionView::TaskFailure(_) => APIEndpoint::TaskFailure.spec_path(),
        _ => "no endpoint"@,
    }
}

/// A request goes to the endpoint at which an action is done.
pub open spec fn goes_to(request: HttpRequestView, action: ActionView) -> bool {
    call_of(action) is Some && http_server::relative_url(request.request_target)
        == http_server::relative_url(endpoint_of(action))
}

/// A request goes to the endpoint of one of the actions.
pub open spec fn goes_to_any(request: HttpRequestView, list: Seq<ActionView>) -> bool {
    exists|i: int| 0 <= i < list.len() && goes_to(request, #[trigger] list[i])
}

/// The next serial action is a call, and a request is of its kind.
pub open spec fn is_next_kind(environment: EnvironmentView, failure: FailureView) -> bool {
    &&& environment.next() is Some
    &&& call_of(environment.next()->0) is Some
    &&& mode_matches(environment.next()->0, failure)
}

/// A request is the next serial action.
pub open spec fn is_next(
    environment: EnvironmentView,
    request: HttpRequestView,
    failure: FailureView,
) -> bool {
    is_next_kind(environment, failure) && content_matches(environment.next()->0, request, failure)
}

/// A request is valid: it is the next serial action, or no later one either, and not one
/// that brings something else than the next one expects.
pub open spec fn is_valid(
    environment: EnvironmentView,
    request: HttpRequestView,
    failure: FailureView,
) -> bool {
    is_next(environment, request, failure) || (!is_next_kind(environment, failure) && !goes_to_any(
        request,
        environment.following(),
    ))
}

/// The environment after a request was checked.
pub open spec fn checked(
    environment: EnvironmentView,
    request: HttpRequestView,
    failure: FailureView,
) -> EnvironmentView {
    if is_next(environment, request, failure) {
        environment.advanced()
    } else {
        environment
    }
}

/// What a checked request is blamed for.
pub open spec fn blamed(
    environment: EnvironmentView,
    request: HttpRequestView,
    failure: FailureView,
) -> Option<FailureView> {
    if is_valid(environment, request, failure) {
        None
    } else {
        Some(failure)
    }
}

impl AgentTestEnvironment {
    /// Construct a new agent test environment with empty task and no requirements for the
    /// agent.
    pub fn new() -> (r: Self)
        ensures
            r@ == (EnvironmentView {
                serial_actions: seq![],
                parallel_actions: seq![],
                task: seq![],
                serial_action_index: 0,
            }),
    {
        let r = AgentTestEnvironment {
            serial_actions: Vec::new(),
            parallel_actions: Vec::new(),
            task: Task::new(""),
            serial_action_index: 0,
        };
        proof {
            reveal_strlit("");
            assert(r@.serial_actions == Seq::<ActionView>::empty());
            assert(r@.parallel_actions == Seq::<ActionView>::empty());
            assert(r@.task == Seq::<char>::empty());
        }
        r
    }

    /// Set the task the agent should do
    pub fn with_task(self, task: &Task) -> (r: Self)
        ensures
            r@ == (EnvironmentView { task: task@, ..self@ }),
    {
        let mut r = self;
        r.task = task.clone();
        r
    }

    /// Adds an action to those that have to be done in order.
    fn expect_serial(self, action: AgentExpectedAction) -> (r: Self)
        ensures
            r@ == (EnvironmentView {
                serial_actions: self@.serial_actions.push(action@),
                ..self@
            }),
    {
        let mut r = self;
        r.serial_actions.push(action);
        assert(r@.serial_actions == self@.serial_actions.push(action@));
        r
    }

    /// Expect a llm prompt and send back the given `response`.
    /// If `exact_prompt` is not `None`, the received llm prompt has to correspond to it.
    pub fn expect_llm_call(self, response: &LLMResponse, exact_prompt: Option<&str>) -> (r: Self)
        ensures
            r@ == (EnvironmentView {
                serial_actions: self@.serial_actions.push(
                    ActionView::LLMCall(
                        actions::LLMCallView {
                            prompt: actions::optional_str(exact_prompt),
                            response: response@,
                        },
                    ),
                ),
                ..self@
            }),
    {
        self.expect_serial(
            AgentExpectedAction::LLMCall(LLMCall::new(response.clone(), exact_prompt)),
        )
    }

    /// Expect a termination request of the agent indicating success
    pub fn expect_success(self, success_report: Option<&str>) -> (r: Self)
        ensures
            r@ == (EnvironmentView {
                serial_actions: self@.serial_actions.push(
                    ActionView::TaskSuccess(actions::optional_str(success_report)),
                ),
                ..self@
            }),
    {
        self.expect_serial(AgentExpectedAction::TaskSuccess(actions::owned_text(success_report)))
    }

    /// Expect a termination request of the agent indicating failure with a corresponding
    /// failure report.
    /// If `failure_report` is not `None`, the received failure report has to correspond to
    /// it.
    pub fn expect_failure(self, failure_report: Option<&str>) -> (r: Self)
        ensures
            r@ == (EnvironmentView {
                serial_actions: self@.serial_actions.push(
                    ActionView::TaskFailure(actions::optional_str(failure_report)),
                ),
                ..self@
            }),
    {
        self.expect_serial(AgentExpectedAction::TaskFailure(actions::owned_text(failure_report)))
    }

    /// Test for the existence of a file with file name `file_name`.
    /// If the file is under a specific path, this path has to be included in the file name.
    /// An optional file content can be specified with `content` (is only tested if
    /// `content` is not `None`).
    /// The check is done at no specific time.
    pub fn expect_file(self, file_name: &str, content: Option<&str>) -> (r: Self)
        ensures
            r@ == (EnvironmentView {
                parallel_actions: self@.parallel_actions.push(
                    ActionView::File(file_name@, actions::optional_str(content)),
                ),
                ..self@
            }),
    {
        let mut r = self;
        let action = AgentExpectedAction::File(file_name.to_owned(), actions::owned_text(content));
        r.parallel_actions.push(action);
        assert(r@.parallel_actions == self@.parallel_actions.push(action@));
        r
    }

    /// Takes the next serial action and moves on past it.
    pub fn next_serial_action(&mut self) -> (r: Option<&AgentExpectedAction>)
        requires
            old(self).serial_action_index < usize::MAX,
        ensures
            final(self)@ == old(self)@.advanced(),
            match r {
                Some(action) => old(self)@.next() == Some(action@),
                None => old(self)@.next() is None,
            },
    {
        let i: usize = self.serial_action_index;
        self.serial_action_index = i + 1;
        if i < self.serial_actions.len() {
            Some(&self.serial_actions[i])
        } else {
            None
        }
    }

    /// Looks at the next serial action.
    pub fn peek_next_serial_action(&self) -> (r: Option<&AgentExpectedAction>)
        ensures
            match r {
                Some(action) => self@.next() == Some(action@),
                None => self@.next() is None,
            },
    {
        if self.serial_action_index < self.serial_actions.len() {
            Some(&self.serial_actions[self.serial_action_index])
        } else {
            None
        }
    }

    /// The serial actions that are to be done after the next one.
    pub fn following_serial_actions(&self) -> (r: &[AgentExpectedAction])
        ensures
            actions::action_views(r@) == self@.following(),
    {
        let uncompleted = self.uncompleted_serial_actions();
        if uncompleted.len() > 0 {
            let r = vstd::slice::slice_subrange(uncompleted, 1, uncompleted.len());
            assert(actions::action_views(r@) == self@.following());
            r
        } else {
            uncompleted
        }
    }

    /// The serial actions that are still to be done.
    pub fn uncompleted_serial_actions(&self) -> (r: &[AgentExpectedAction])
        ensures
            actions::action_views(r@) == self@.uncompleted(),
    {
        let length: usize = self.serial_actions.len();
        let from: usize = if self.serial_action_index >= length {
            length
        } else {
            self.serial_action_index
        };
        let r = vstd::slice::slice_subrange(self.serial_actions.as_slice(), from, length);
        assert(actions::action_views(r@) == self@.uncompleted());
        r
    }

    /// Checks if the given API request is valid.
    /// The request is valid if it is either next in the queue of serial actions or not at
    /// all in the queue. Where it is next, the queue moves on past it.
    pub fn check_api_request(&mut self, request: HttpRequest, failure: &TestFailure) -> (r: bool)
        ensures
            r == is_valid(old(self)@, request@, failure@),
            final(self)@ == checked(old(self)@, request@, failure@),
    {
        if let Some(action) = self.peek_next_serial_action() {
            if Self::action_is_call(action) && Self::action_matches_failure_mode(action, failure) {
                if Self::action_matches_content(action, &request, failure) {
                    assert(self.serial_action_index < self.serial_actions.len());
                    self.next_serial_action();
                    return true;
                }
                return false;
            }
        }
        let target = http_server::format_relative_url(request.request_target.as_str());
        let following = self.following_serial_actions();
        let mut i: usize = 0;
        while i < following.len()
            invariant
                i <= following.len(),
                target matches Some(t) && t@ == http_server::relative_url(
                    request.request_target@,
                ),
                actions::action_views(following@) == self@.following(),
                self@ == old(self)@,
                !is_next_kind(self@, failure@),
                forall|j: int| 0 <= j < i ==> !goes_to(request@, #[trigger] self@.following()[j]),
            decreases following.len() - i,
        {
            let endpoint = Self::action_to_endpoint(&following[i]);
            assert(self@.following()[i as int] == following@[i as int]@);
            let same = match (&target, &http_server::format_relative_url(endpoint.as_str())) {
                (Some(a), Some(b)) => Self::action_is_call(&following[i]) && a.eq(b),
                _ => false,
            };
            if same {
                assert(goes_to(request@, self@.following()[i as int]));
                return false;
            }
            i = i + 1;
        }
        true
    }

    /// Tells whether an action is a call to an endpoint. A request can be no other action.
    pub fn action_is_call(action: &AgentExpectedAction) -> (r: bool)
        ensures
            r == (call_of(action@) is Some),
    {
        match action {
            AgentExpectedAction::File(_, _) => false,
            AgentExpectedAction::GitCmd(_) => false,
            _ => true,
        }
    }

    /// Tells whether the kind of call that a failure blames is not another than the kind
    /// that the action is.
    pub fn action_matches_failure_mode(action: &AgentExpectedAction, failure: &TestFailure) -> (r:
        bool)
        ensures
            r == mode_matches(action@, failure@),
    {
        match action {
            AgentExpectedAction::LLMCall(_) => matches!(failure, TestFailure::CallToLLM(_)),
            AgentExpectedAction::TaskSuccess(_) => matches!(failure, TestFailure::CallToSuccess),
            AgentExpectedAction::TaskFailure(_) => matches!(failure, TestFailure::CallToFailure),
            _ => true,
        }
    }

    /// Tells whether what a call brings corresponds to what the action expects.
    pub fn action_matches_content(
        action: &AgentExpectedAction,
        request: &HttpRequest,
        failure: &TestFailure,
    ) -> (r: bool)
        ensures
            r == content_matches(action@, request@, failure@),
    {
        match action {
            AgentExpectedAction::LLMCall(call) => match &call.prompt {
                Some(expected) => match failure {
                    TestFailure::CallToLLM(prompt) => prompt.eq(expected),
                    _ => false,
                },
                None => true,
            },
            AgentExpectedAction::TaskFailure(report) => match report {
                Some(expected) => request.body.eq(expected),
                None => true,
            },
            _ => true,
        }
    }

    /// Checks an API request, and gives back the failure that it is blamed for where it is
    /// not valid.
    pub fn check_api_request_failure_mode(
        &mut self,
        request: HttpRequest,
        failure: TestFailure,
    ) -> (r: Option<TestFailure>)
        ensures
            crate::failure::optional_failure(r) == blamed(old(self)@, request@, failure@),
            final(self)@ == checked(old(self)@, request@, failure@),
    {
        if self.check_api_request(request, &failure) {
            None
        } else {
            Some(failure)
        }
    }

    /// Returns the API endpoint of a given action
    pub fn action_to_endpoint(action: &AgentExpectedAction) -> (r: String)
        ensures
            r@ == endpoint_of(action@),
    {
        match action {
            AgentExpectedAction::LLMCall(_) => APIEndpoint::LLMRequest.path().to_owned(),
            AgentExpectedAction::TaskSuccess(_) => APIEndpoint::TaskSuccess.path().to_owned(),
            AgentExpectedAction::TaskFailure(_) => APIEndpoint::TaskFailure.path().to_owned(),
            _ => "no endpoint".to_owned(),
        }
    }
}

} // verus!
