//! What an agent is expected to do, and the endpoints at which it does it.

use crate::json::{Json, JsonView};
use vstd::prelude::*;

verus! {

/// The endpoints that an agent can call.
#[derive(Clone, Copy, Debug, PartialEq, Eq, Structural)]
pub enum APIEndpoint {
    TaskSuccess,
    TaskFailure,
    TaskInfo,
    LLMRequest,
}

impl APIEndpoint {
    /// The path of the endpoint.
    pub open spec fn spec_path(self) -> Seq<char> {
        match self {
            APIEndpoint::TaskSuccess => "/api/agent/task/complete"@,
            APIEndpoint::TaskFailure => "/api/agent/task/fail"@,
            APIEndpoint::TaskInfo => "/api/agent/task"@,
            APIEndpoint::LLMRequest => "/api/chat/completions"@,
        }
    }

    /// The path of the endpoint.
    pub fn path(self) -> (r: &'static str)
        ensures
            r@ == self.spec_path(),
    {
        match self {
            APIEndpoint::TaskSuccess => "/api/agent/task/complete",
            APIEndpoint::TaskFailure => "/api/agent/task/fail",
            APIEndpoint::TaskInfo => "/api/agent/task",
            APIEndpoint::LLMRequest => "/api/chat/completions",
        }
    }
}

/// What an optional text says.
pub open spec fn optional_text(text: Option<String>) -> Option<Seq<char>> {
    match text {
        Some(text) => Some(text@),
        None => None,
    }
}

/// What an optional borrowed text says.
pub open spec fn optional_str(text: Option<&str>) -> Option<Seq<char>> {
    match text {
        Some(text) => Some(text@),
        None => None,
    }
}

/// An owned copy of an optional text.
pub fn owned_text(text: Option<&str>) -> (r: Option<String>)
    ensures
        optional_text(r) == optional_str(text),
{
    match text {
        Some(text) => Some(text.to_owned()),
        None => None,
    }
}

fn copied_text(text: &Option<String>) -> (r: Option<String>)
    ensures
        optional_text(r) == optional_text(*text),
{
    match text {
        Some(text) => Some(text.clone()),
        None => None,
    }
}

/// A git command of the agent.
#[derive(Clone, Copy, Debug)]
pub struct GitCmd {}

/// What a language model answers.
#[derive(Debug)]
pub enum LLMResponse {
    Message(String),
    ToolCall(String),
}

/// What an answer of a language model says.
pub enum LLMResponseView {
    Message(Seq<char>),
    ToolCall(Seq<char>),
}

impl View for LLMResponse {
    type V = LLMResponseView;

    open spec fn view(&self) -> LLMResponseView {
        match self {
            LLMResponse::Message(text) => LLMResponseView::Message(text@),
            LLMResponse::ToolCall(text) => LLMResponseView::ToolCall(text@),
        }
    }
}

impl Clone for LLMResponse {
    fn clone(&self) -> (r: Self)
        ensures
            r@ == self@,
    {
        match self {
            LLMResponse::Message(text) => LLMResponse::Message(text.clone()),
            LLMResponse::ToolCall(text) => LLMResponse::ToolCall(text.clone()),
        }
    }
}

impl LLMResponseView {
    /// The text that is sent back.
    pub open spec fn spec_text(self) -> Seq<char> {
        match self {
            LLMResponseView::Message(text) => text,
            LLMResponseView::ToolCall(text) => text,
        }
    }
}

impl LLMResponse {
    /// The text that is sent back.
    pub fn text(&self) -> (r: &String)
        ensures
            r@ == self@.spec_text(),
    {
        match self {
            LLMResponse::Message(text) => text,
            LLMResponse::ToolCall(text) => text,
        }
    }
}

/// A call to a language model: the prompt that is expected, where one is, and the answer
/// to it.
#[derive(Debug)]
pub struct LLMCall {
    pub prompt: Option<String>,
    pub response: LLMResponse,
}

/// What an expected call to a language model says.
pub struct LLMCallView {
    pub prompt: Option<Seq<char>>,
    pub response: LLMResponseView,
}

impl View for LLMCall {
    type V = LLMCallView;

    open spec fn view(&self) -> LLMCallView {
        LLMCallView { prompt: optional_text(self.prompt), response: self.response@ }
    }
}

impl Clone for LLMCall {
    fn clone(&self) -> (r: Self)
        ensures
            r@ == self@,
    {
        LLMCall { prompt: copied_text(&self.prompt), response: self.response.clone() }
    }
}

impl LLMCall {
    pub fn new(response: LLMResponse, prompt: Option<&str>) -> (r: Self)
        ensures
            r@ == (LLMCallView { prompt: optional_str(prompt), response: response@ }),
    {
        LLMCall { response, prompt: owned_text(prompt) }
    }
}

/// Something that the agent is expected to do.
#[derive(Debug)]
pub enum AgentExpectedAction {
    File(String, Option<String>),
    GitCmd(GitCmd),
    LLMCall(LLMCall),
    TaskSuccess(Option<String>),
    TaskFailure(Option<String>),
}

/// What an expected action says.
pub enum ActionView {
    File(Seq<char>, Option<Seq<char>>),
    GitCmd,
    LLMCall(LLMCallView),
    TaskSuccess(Option<Seq<char>>),
    TaskFailure(Option<Seq<char>>),
}

impl View for AgentExpectedAction {
    type V = ActionView;

    open spec fn view(&self) -> ActionView {
        match self {
            AgentExpectedAction::File(name, content) => ActionView::File(
                name@,
                optional_text(*content),
            ),
            AgentExpectedAction::GitCmd(_) => ActionView::GitCmd,
            AgentExpectedAction::LLMCall(call) => ActionView::LLMCall(call@),
            AgentExpectedAction::TaskSuccess(report) => ActionView::TaskSuccess(
                optional_text(*report),
            ),
            AgentExpectedAction::TaskFailure(report) => ActionView::TaskFailure(
                optional_text(*report),
            ),
        }
    }
}

impl Clone for AgentExpectedAction {
    fn clone(&self) -> (r: Self)
        ensures
            r@ == self@,
    {
        match self {
            AgentExpectedAction::File(name, content) => AgentExpectedAction::File(
                name.clone(),
                copied_text(content),
            ),
            AgentExpectedAction::GitCmd(cmd) => AgentExpectedAction::GitCmd(*cmd),
            AgentExpectedAction::LLMCall(call) => AgentExpectedAction::LLMCall(call.clone()),
            AgentExpectedAction::TaskSuccess(report) => AgentExpectedAction::TaskSuccess(
                copied_text(report),
            ),
            AgentExpectedAction::TaskFailure(report) => AgentExpectedAction::TaskFailure(
                copied_text(report),
            ),
        }
    }
}

/// What a list of expected actions says.
pub open spec fn action_views(actions: Seq<AgentExpectedAction>) -> Seq<ActionView> {
    actions.map_values(|action: AgentExpectedAction| action@)
}

/// A copy of a list of expected actions.
pub fn copied_actions(actions: &[AgentExpectedAction]) -> (r: Vec<AgentExpectedAction>)
    ensures
        action_views(r@) == action_views(actions@),
{
    let mut r: Vec<AgentExpectedAction> = Vec::new();
    let mut i: usize = 0;
    while i < actions.len()
        invariant
            i <= actions.len(),
            action_views(r@) == action_views(actions@.take(i as int)),
        decreases actions.len() - i,
    {
        let ghost before = action_views(r@);
        let copy = actions[i].clone();
        r.push(copy);
        proof {
            assert(action_views(r@) == before.push(copy@));
            assert(action_views(actions@.take(i + 1)) == action_views(actions@.take(i as int)).push(
                actions@[i as int]@,
            ));
        }
        i = i + 1;
    }
    assert(actions@.take(i as int) == actions@);
    r
}

/// What the agent is to do.
pub struct Task {
    pub description: String,
}

impl View for Task {
    type V = Seq<char>;

    open spec fn view(&self) -> Seq<char> {
        self.description@
    }
}

impl Clone for Task {
    fn clone(&self) -> (r: Self)
        ensures
            r@ == self@,
    {
        Task { description: self.description.clone() }
    }
}

/// The JSON document that gives an agent its task.
pub open spec fn task_document(description: Seq<char>) -> JsonView {
    JsonView::Object(seq![("description"@, JsonView::Text(description))])
}

impl Task {
    pub fn new(description: &str) -> (r: Self)
        ensures
            r@ == description@,
    {
        Task { description: description.to_owned() }
    }

    /// The JSON document that gives an agent its task.
    pub fn document(&self) -> (r: Json)
        ensures
            r@ == task_document(self@),
    {
        let mut fields: Vec<(String, Json)> = Vec::new();
        Json::add_field(&mut fields, "description", Json::text(self.description.as_str()));
        assert(crate::json::field_views(fields@) == task_document(self@)->Object_0);
        Json::object(fields)
    }
}

} // verus!
