//! The end of an agent's run: what is missing, and the verdict.

use crate::actions;
use crate::actions::{ActionView, AgentExpectedAction};
use crate::endpoints::{ContextView, ServerContext};
use crate::environment::AgentTestEnvironment;
use crate::failure;
use crate::failure::{AgentTestFinishedRun, FailureView, RunView, TestFailure, TestLog, TestLogView};
use crate::text_map;
use crate::text_map::TextMap;
use vstd::prelude::*;

verus! {

/// A test of an agent that is under way.
pub struct AgentTestRunner {
    pub environment: AgentTestEnvironment,
    pub test_data: AgentTestFinishedRun,
}

/// A test of an agent that is over.
pub struct AgentTestFinishedRunner {
    pub test_data: AgentTestFinishedRun,
}

/// Two optional reasons for failure as one.
pub open spec fn merged_failure(a: Option<FailureView>, b: Option<FailureView>) -> Option<
    FailureView,
> {
    match (a, b) {
        (None, None) => None,
        (Some(f), None) => Some(f),
        (None, Some(f)) => Some(f),
        (Some(a), Some(b)) => Some(FailureView::Multiple(Box::new(a), Box::new(b))),
    }
}

/// The data of two parts of a run as one.
pub open spec fn merged_data(a: RunView, b: RunView) -> RunView {
    RunView { log: a.log + b.log, failure: merged_failure(a.failure, b.failure) }
}

/// The reason for failure that missing actions are.
pub open spec fn missing(list: Seq<ActionView>) -> Option<FailureView> {
    if list.len() > 0 {
        Some(FailureView::ActionsMissing(list))
    } else {
        None
    }
}

/// The runner's own data at the end of a run: what was known, the missing parallel
/// actions, the failure to stop the agent, and the missing serial actions.
pub open spec fn own_data(
    known: RunView,
    parallel: Seq<ActionView>,
    agent_stop_error: Option<FailureView>,
    serial: Seq<ActionView>,
) -> RunView {
    RunView {
        log: if agent_stop_error is Some {
            known.log.push(TestLogView::CouldNotStopAgent)
        } else {
            known.log
        },
        failure: merged_failure(
            merged_failure(merged_failure(known.failure, missing(parallel)), agent_stop_error),
            missing(serial),
        ),
    }
}

/// The data of a whole run.
pub open spec fn final_data(
    known: RunView,
    parallel: Seq<ActionView>,
    agent_stop_error: Option<FailureView>,
    server: ContextView,
) -> RunView {
    merged_data(
        server.test_data,
        own_data(known, parallel, agent_stop_error, server.environment.uncompleted()),
    )
}

/// The actions whose check says that they were not done.
pub open spec fn undone<E>(checked: Seq<Result<bool, E>>, list: Seq<ActionView>) -> Seq<ActionView>
    decreases list.len(),
{
    if list.len() == 0 || checked.len() == 0 {
        seq![]
    } else if checked[0] == Ok::<bool, E>(false) {
        seq![list[0]] + undone(checked.skip(1), list.skip(1))
    } else {
        undone(checked.skip(1), list.skip(1))
    }
}

/// A file that an action expects is among the files.
pub open spec fn file_is_there(
    name: Seq<char>,
    content: Option<Seq<char>>,
    files: Seq<(Seq<char>, Seq<char>)>,
) -> bool {
    match text_map::lookup(files, name) {
        Some(found) => content is None || content == Some(found),
        None => false,
    }
}

/// A parallel action was done, going by the files. An action that is no file cannot be
/// checked in parallel, and counts as done.
pub open spec fn parallel_done(action: ActionView, files: Seq<(Seq<char>, Seq<char>)>) -> bool {
    match action {
        ActionView::File(name, content) => file_is_there(name, content, files),
        _ => true,
    }
}

impl AgentTestRunner {
    /// Construct a runner from an `AgentTestEnvironment`.
    pub fn new(agent_environment: AgentTestEnvironment) -> (r: Self)
        ensures
            r.environment@ == agent_environment@,
            r.test_data@ == failure::empty_run(),
    {
        AgentTestRunner {
            environment: agent_environment,
            test_data: AgentTestFinishedRun::default(),
        }
    }

    /// Ends a run: it is given the parallel actions that were not done, how stopping the
    /// agent went wrong, if it did, and what the server came to.
    /// Returns the results of the test run.
    pub fn join(
        self,
        uncompleted_parallel_actions: Vec<AgentExpectedAction>,
        agent_stop_error: Option<TestFailure>,
        server_context: ServerContext,
    ) -> (r: AgentTestFinishedRunner)
        ensures
            r.test_data@ == final_data(
                self.test_data@,
                actions::action_views(uncompleted_parallel_actions@),
                failure::optional_failure(agent_stop_error),
                server_context@,
            ),
    {
        let mut log = self.test_data.log;
        let mut reason = self.test_data.failure;
        // check for missing parallel actions
        if uncompleted_parallel_actions.len() > 0 {
            reason = Self::merge_test_failure(
                reason,
                Some(TestFailure::ActionsMissing(uncompleted_parallel_actions)),
            );
        }
        // cleanup
        if let Some(err) = agent_stop_error {
            reason = Self::merge_test_failure(reason, Some(err));
            let ghost before = log@;
            log.push(TestLog::CouldNotStopAgent);
            assert(failure::log_views(log@) == failure::log_views(before).push(
                TestLogView::CouldNotStopAgent,
            ));
        }
        // check for missing serial actions
        let uncompleted_serial_actions = server_context.environment.uncompleted_serial_actions();
        if uncompleted_serial_actions.len() > 0 {
            reason = Self::merge_test_failure(
                reason,
                Some(
                    TestFailure::ActionsMissing(
                        actions::copied_actions(uncompleted_serial_actions),
                    ),
                ),
            );
        }
        let own = AgentTestFinishedRun { log, failure: reason };
        AgentTestFinishedRunner { test_data: Self::merge_test_data(server_context.test_data, own) }
    }

    /// Goes by the checks of the given parallel actions, and takes those that were done
    /// from the queue. The first check that failed is the error.
    /// Returns the remaining uncompleted actions
    pub fn uncompleted_parallel_actions<E>(
        checked: Vec<Result<bool, E>>,
        list: Vec<AgentExpectedAction>,
    ) -> (r: Result<Vec<AgentExpectedAction>, E>)
        ensures
            match r {
                Ok(remaining) => {
                    &&& forall|i: int| 0 <= i < checked@.len() ==> (#[trigger] checked@[i]) is Ok
                    &&& actions::action_views(remaining@) == undone(
                        checked@,
                        actions::action_views(list@),
                    )
                },
                Err(error) => exists|i: int|
                    0 <= i < checked@.len() && #[trigger] checked@[i] == Err::<bool, E>(error) && (
                    forall|j: int| 0 <= j < i ==> (#[trigger] checked@[j]) is Ok),
            },
    {
        let ghost results = checked@;
        let mut done: Vec<bool> = Vec::new();
        for result in it: checked.into_iter()
            invariant
                it.seq() == results,
                done@.len() == it.index(),
                forall|j: int|
                    0 <= j < it.index() ==> (#[trigger] results[j]) == Ok::<bool, E>(done@[j]),
        {
            match result {
                Ok(flag) => done.push(flag),
                Err(error) => {
                    assert(results[it.index() as int] == Err::<bool, E>(error));
                    return Err(error);
                },
            }
        }
        let mut remaining: Vec<AgentExpectedAction> = Vec::new();
        let mut k: usize = 0;
        let ghost views = actions::action_views(list@);
        proof {
            assert(results.skip(0) == results);
            assert(views.skip(0) == views);
            assert(actions::action_views(remaining@) == Seq::<ActionView>::empty());
        }
        while k < list.len() && k < done.len()
            invariant
                k <= list.len(),
                k <= done.len() == results.len(),
                views == actions::action_views(list@),
                forall|j: int|
                    0 <= j < results.len() ==> (#[trigger] results[j]) == Ok::<bool, E>(done@[j]),
                actions::action_views(remaining@) + undone(
                    results.skip(k as int),
                    views.skip(k as int),
                ) == undone(results, views),
            decreases list.len() - k,
        {
            let ghost before = actions::action_views(remaining@);
            if !done[k] {
                let action = list[k].clone();
                remaining.push(action);
                assert(actions::action_views(remaining@) == before.push(action@));
            }
            proof {
                assert(results.skip(k as int)[0] == results[k as int]);
                assert(results.skip(k as int).skip(1) == results.skip(k + 1));
                assert(views.skip(k as int).skip(1) == views.skip(k + 1));
                assert(views.skip(k as int)[0] == list@[k as int]@);
                let rest = undone(results.skip(k + 1), views.skip(k + 1));
                assert(before + (seq![views[k as int]] + rest) == before.push(views[k as int])
                    + rest);
            }
            k = k + 1;
        }
        assert(actions::action_views(remaining@) + Seq::<ActionView>::empty()
            == actions::action_views(remaining@));
        Ok(remaining)
    }

    /// Tells whether the files are needed to check an action.
    pub fn needs_files(action: &AgentExpectedAction) -> (r: bool)
        ensures
            r == (action@ is File),
            !r ==> forall|files: Seq<(Seq<char>, Seq<char>)>| parallel_done(action@, files),
    {
        matches!(action, AgentExpectedAction::File(_, _))
    }

    /// Checks whether the given action is completed
    /// Returns `true` if it is and `false` if not
    pub fn check_parallel_action(action: &AgentExpectedAction, files: &TextMap) -> (r: bool)
        ensures
            r == parallel_done(action@, files@),
    {
        match action {
            AgentExpectedAction::File(name, maybe_content) => match files.get(name.as_str()) {
                Some(found) => match maybe_content {
                    Some(content) => content.eq(found),
                    None => true,
                },
                None => false,
            },
            // This action cannot be checked in parallel
            _ => true,
        }
    }

    /// Merge two instances of the data accumulated over an agent test run
    pub fn merge_test_data(a: AgentTestFinishedRun, b: AgentTestFinishedRun) -> (r:
        AgentTestFinishedRun)
        ensures
            r@ == merged_data(a@, b@),
    {
        let mut log = a.log;
        let mut rest = b.log;
        log.append(&mut rest);
        assert(failure::log_views(log@) == failure::log_views(a.log@) + failure::log_views(
            b.log@,
        ));
        AgentTestFinishedRun { log, failure: Self::merge_test_failure(a.failure, b.failure) }
    }

    /// Merge two instances of test results from an agent test run
    pub fn merge_test_failure(a: Option<TestFailure>, b: Option<TestFailure>) -> (r: Option<
        TestFailure,
    >)
        ensures
            failure::optional_failure(r) == merged_failure(
                failure::optional_failure(a),
                failure::optional_failure(b),
            ),
    {
        match (a, b) {
            (None, None) => None,
            (Some(f), None) => Some(f),
            (None, Some(f)) => Some(f),
            (Some(a), Some(b)) => Some(TestFailure::Multiple(Box::new(a), Box::new(b))),
        }
    }
}

impl AgentTestFinishedRunner {
    pub fn test_failure(&self) -> (r: Option<TestFailure>)
        ensures
            failure::optional_failure(r) == self.test_data@.failure,
    {
        failure::copied_failure(&self.test_data.failure)
    }

    pub fn test_logs(&self) -> (r: Vec<TestLog>)
        ensures
            failure::log_views(r@) == self.test_data@.log,
    {
        failure::copied_log(&self.test_data.log)
    }
}

} // verus!
