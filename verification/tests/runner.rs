use agent_harness::actions::{AgentExpectedAction, GitCmd};
use agent_harness::endpoints::ServerContext;
use agent_harness::environment::AgentTestEnvironment;
use agent_harness::failure::{AgentTestFinishedRun, TestFailure, TestLog};
use agent_harness::runner::AgentTestRunner;
use agent_harness::text_map::TextMap;

fn file(name: &str, content: Option<&str>) -> AgentExpectedAction {
    AgentExpectedAction::File(name.to_owned(), content.map(|text| text.to_owned()))
}

#[test]
fn nothing_merges_to_nothing() {
    let merge = AgentTestRunner::merge_test_failure;
    assert!(merge(None, None).is_none());
    assert!(matches!(
        merge(Some(TestFailure::CallToSuccess), None),
        Some(TestFailure::CallToSuccess)
    ));
    assert!(matches!(
        merge(None, Some(TestFailure::CallToFailure)),
        Some(TestFailure::CallToFailure)
    ));
    match merge(Some(TestFailure::CallToSuccess), Some(TestFailure::CallToFailure)) {
        Some(TestFailure::Multiple(a, b)) => {
            assert!(matches!(*a, TestFailure::CallToSuccess));
            assert!(matches!(*b, TestFailure::CallToFailure));
        }
        _ => panic!(),
    }
}

#[test]
fn logs_are_put_one_after_the_other() {
    let a = AgentTestFinishedRun { log: vec![TestLog::CallToFailure], failure: None };
    let b = AgentTestFinishedRun {
        log: vec![TestLog::CallToSuccess, TestLog::CallToLLM("p".to_owned())],
        failure: Some(TestFailure::CallToTaskInfo),
    };
    let merged = AgentTestRunner::merge_test_data(a, b.clone());
    assert_eq!(merged.log.len(), 3);
    assert!(matches!(merged.log[0], TestLog::CallToFailure));
    assert!(matches!(merged.log[1], TestLog::CallToSuccess));
    assert!(matches!(&merged.log[2], TestLog::CallToLLM(prompt) if prompt == "p"));
    assert!(matches!(merged.failure, Some(TestFailure::CallToTaskInfo)));
    let empty = AgentTestFinishedRun::default();
    assert!(empty.log.is_empty() && empty.failure.is_none());
}

#[test]
fn the_actions_that_were_not_done_remain() {
    let checked: Vec<Result<bool, String>> = vec![Ok(false), Ok(true), Ok(false)];
    let list = vec![file("a", None), file("b", None), file("c", None)];
    let remaining = AgentTestRunner::uncompleted_parallel_actions(checked, list).unwrap();
    assert_eq!(format!("{:?}", remaining), "[File(\"a\", None), File(\"c\", None)]");
}

#[test]
fn the_first_failed_check_is_the_error() {
    let checked: Vec<Result<bool, String>> =
        vec![Ok(false), Err("one".to_owned()), Err("two".to_owned())];
    let list = vec![file("a", None), file("b", None), file("c", None)];
    match AgentTestRunner::uncompleted_parallel_actions(checked, list) {
        Err(error) => assert_eq!(error, "one"),
        Ok(_) => panic!(),
    }
}

#[test]
fn files_are_looked_for() {
    let mut files = TextMap::new();
    files.insert("test.txt".to_owned(), "content".to_owned());
    let check = AgentTestRunner::check_parallel_action;
    assert!(check(&file("test.txt", None), &files));
    assert!(check(&file("test.txt", Some("content")), &files));
    assert!(!check(&file("test.txt", Some("other")), &files));
    assert!(!check(&file("other.txt", None), &files));
    assert!(check(&AgentExpectedAction::GitCmd(GitCmd {}), &files));
    assert!(AgentTestRunner::needs_files(&file("a", None)));
    assert!(!AgentTestRunner::needs_files(&AgentExpectedAction::TaskSuccess(None)));
}

#[test]
fn each_reason_for_failure_is_in_the_verdict() {
    let environment = AgentTestEnvironment::new().expect_success(None);
    let mut context = ServerContext::new(environment.clone());
    context.test_data.failure = Some(TestFailure::CallToTaskInfo);
    let finished = AgentTestRunner::new(environment).join(
        vec![file("a", None)],
        Some(TestFailure::AgentCrashed("boom".to_owned())),
        context,
    );
    assert_eq!(
        finished.test_failure().unwrap().message(),
        "Multiple failure reasons:\n    Unexpected call to the Task API\n    \
         Multiple failure reasons:\n    Multiple failure reasons:\n    \
         There are actions missing, but the agent already stopped: [File(\"a\", None)]\n    \
         The agent crashed with error: boom\n    \
         There are actions missing, but the agent already stopped: [TaskSuccess(None)]"
    );
    let logs = finished.test_logs();
    assert_eq!(logs.len(), 1);
    assert!(matches!(logs[0], TestLog::CouldNotStopAgent));
}

#[test]
fn a_run_without_a_reason_passes() {
    let environment = AgentTestEnvironment::new();
    let context = ServerContext::new(environment.clone());
    let finished = AgentTestRunner::new(environment).join(vec![], None, context);
    assert!(finished.test_failure().is_none());
    assert!(finished.test_logs().is_empty());
}

#[test]
fn merging_keeps_the_reasons_in_order() {
    let merge = AgentTestRunner::merge_test_failure;
    let crash = |text: &str| Some(TestFailure::AgentCrashed(text.to_owned()));
    let left = merge(merge(crash("a"), crash("b")), crash("c")).unwrap().message();
    let right = merge(crash("a"), merge(crash("b"), crash("c"))).unwrap().message();
    for text in [left, right] {
        let places: Vec<usize> =
            ["error: a", "error: b", "error: c"].iter().map(|p| text.find(p).unwrap()).collect();
        assert!(places[0] < places[1] && places[1] < places[2]);
    }
}
