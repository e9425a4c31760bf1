//! What is looked for at the end of a run, and how the verdict is made and put in words.

use crate::actions;
use crate::actions::{ActionView, AgentExpectedAction, LLMResponseView};
use crate::archive;
use crate::container;
use crate::container::{ContainerExit, ContainerOutput, FilesError, OutputLine};
use crate::endpoints::ServerContext;
use crate::failure;
use crate::failure::{AgentTestFinishedRun, FailureView, TestFailure, TestLog, TestLogView};
use crate::laws;
use crate::runner;
use crate::runner::{AgentTestFinishedRunner, AgentTestRunner};
use crate::text;
use crate::text_map;
use crate::text_map::TextMap;
use vstd::prelude::*;

verus! {

/// A file that is there counts as done where no content is expected, and otherwise exactly
/// where its content is the expected text; a file that is not there does not count. What is
/// no file cannot be looked for, and counts.
pub proof fn law_expected_file(
    action: AgentExpectedAction,
    files: TextMap,
    at: int,
    done: bool,
    looked_for: bool,
)
    requires
        call_ensures(AgentTestRunner::check_parallel_action, (&action, &files), done),
        call_ensures(AgentTestRunner::needs_files, (&action,), looked_for),
    ensures
        looked_for == (action@ is File),
        match action@ {
            ActionView::File(name, content) => {
                &&& (forall|i: int| 0 <= i < files@.len() ==> (#[trigger] files@[i]).0 != name)
                    ==> !done
                &&& 0 <= at < files@.len() && files@[at].0 == name && (forall|i: int|
                    0 <= i < at ==> (#[trigger] files@[i]).0 != name) ==> (done <==> content is None
                    || content == Some(files@[at].1))
            },
            _ => done,
        },
{
    if action@ is File {
        let name = action@->File_0;
        if forall|i: int| 0 <= i < files@.len() ==> (#[trigger] files@[i]).0 != name {
            text_map::lemma_key_position_is(files@, name, files@.len() as int);
        }
        if 0 <= at < files@.len() && files@[at].0 == name && (forall|i: int|
            0 <= i < at ==> (#[trigger] files@[i]).0 != name) {
            text_map::lemma_key_position_is(files@, name, at);
        }
    }
}

/// The files of an archive are its members: what was expected of a file is done exactly
/// where the last member with its path holds the expected text, whatever else is in the
/// archive, and not where no member has its path.
pub proof fn law_file_in_archive(
    data: &[u8],
    members: Seq<(Option<Seq<char>>, Seq<char>)>,
    r: Result<TextMap, FilesError>,
    fits: bool,
    name: Seq<char>,
    content: Option<Seq<char>>,
    action: AgentExpectedAction,
    done: bool,
)
    requires
        call_ensures(container::get_files, (data,), r),
        call_ensures(archive::has_fitting_sparse_members, (data,), fits),
        fits,
        archive::archive_members(data@) == Ok::<
            Seq<(Option<Seq<char>>, Seq<char>)>,
            Seq<char>,
        >(members),
        forall|i: int| 0 <= i < members.len() ==> (#[trigger] members[i]).0 is Some,
        r is Ok ==> call_ensures(AgentTestRunner::check_parallel_action, (&action, &r->Ok_0), done),
        action@ == ActionView::File(name, content),
    ensures
        r is Ok,
        forall|i: int|
            0 <= i < members.len() && (#[trigger] members[i]).0 == Some(name) && (forall|j: int|
                i < j < members.len() ==> (#[trigger] members[j]).0 != Some(name)) ==> (done
                <==> content is None || content == Some(members[i].1)),
        (forall|i: int| 0 <= i < members.len() ==> (#[trigger] members[i]).0 != Some(name))
            ==> !done,
{
    laws::law_last_member_counts(members, name);
}

/// An archive that cannot be read, one with a path that is not Unicode, and one that is
/// refused, are errors, each of its own.
pub proof fn law_archive_errors(data: &[u8], fits: bool, r: Result<TextMap, FilesError>)
    requires
        call_ensures(container::get_files, (data,), r),
        call_ensures(archive::has_fitting_sparse_members, (data,), fits),
    ensures
        !fits ==> r is Err && r->Err_0 is Archive,
        fits ==> match archive::archive_members(data@) {
            Err(reason) => r is Err && r->Err_0 is Archive && r->Err_0->Archive_0@ == reason,
            Ok(members) => r is Err <==> exists|i: int|
                0 <= i < members.len() && (#[trigger] members[i]).0 is None,
        },
{
}

/// Members with Unicode paths are collected under their paths, the later over the earlier.
pub proof fn law_collected_files(
    members: Vec<(Option<String>, String)>,
    r: Result<TextMap, FilesError>,
    i: int,
    found: Option<&String>,
    path: &str,
)
    requires
        call_ensures(container::collect_files, (members,), r),
        r is Ok ==> call_ensures(TextMap::get, (&r->Ok_0, path), found),
    ensures
        r is Err <==> exists|k: int| 0 <= k < members@.len() && (#[trigger] members@[k]).0 is None,
        r is Ok && 0 <= i < members@.len() && members@[i].0->0@ == path@ && (forall|j: int|
            i < j < members@.len() ==> (#[trigger] members@[j]).0->0@ != path@) ==> found is Some
            && found->0@ == members@[i].1@,
        r is Ok && (forall|j: int| 0 <= j < members@.len() ==> (#[trigger] members@[j]).0->0@
            != path@) ==> found is None,
{
    let all = archive::member_views(members@);
    assert(all.len() == members@.len());
    assert forall|k: int| 0 <= k < members@.len() implies (#[trigger] all[k]).1 == members@[k].1@
        && (all[k].0 is Some <==> members@[k].0 is Some) && (all[k].0 is Some ==> all[k].0->0
        == members@[k].0->0@) by {}
    if r is Err {
        let k = choose|k: int| 0 <= k < all.len() && (#[trigger] all[k]).0 is None;
        assert(members@[k].0 is None);
    } else {
        assert forall|k: int| 0 <= k < members@.len() implies (#[trigger] members@[k]).0 is Some by {
            assert(all[k].0 is Some);
        }
        laws::law_last_member_counts(all, path@);
        if 0 <= i < members@.len() && members@[i].0->0@ == path@ && (forall|j: int|
            i < j < members@.len() ==> (#[trigger] members@[j]).0->0@ != path@) {
            assert(all[i].0 == Some(path@));
            assert forall|j: int| i < j < all.len() implies (#[trigger] all[j]).0 != Some(path@) by {
                assert(members@[j].0->0@ != path@);
            }
        }
        if forall|j: int| 0 <= j < members@.len() ==> (#[trigger] members@[j]).0->0@ != path@ {
            assert forall|j: int| 0 <= j < all.len() implies (#[trigger] all[j]).0 != Some(path@) by {
                assert(members@[j].0->0@ != path@);
            }
        }
    }
}

/// The actions that are still to be done: none where there are none; otherwise the first,
/// where its check says that it was not done, and those of the others. A check that failed
/// is the error.
pub proof fn law_undone_actions<E>(
    checked: Vec<Result<bool, E>>,
    list: Vec<AgentExpectedAction>,
    checked_rest: Vec<Result<bool, E>>,
    list_rest: Vec<AgentExpectedAction>,
    r: Result<Vec<AgentExpectedAction>, E>,
    r_rest: Result<Vec<AgentExpectedAction>, E>,
)
    requires
        call_ensures(AgentTestRunner::uncompleted_parallel_actions::<E>, (checked, list), r),
        call_ensures(
            AgentTestRunner::uncompleted_parallel_actions::<E>,
            (checked_rest, list_rest),
            r_rest,
        ),
    ensures
        r is Ok <==> forall|i: int| 0 <= i < checked@.len() ==> (#[trigger] checked@[i]) is Ok,
        r is Ok && list@.len() == 0 ==> r->Ok_0@.len() == 0,
        checked@.len() > 0 && checked@[0] is Err ==> r is Err && r->Err_0 == checked@[0]->Err_0,
        checked@.len() > 0 && list@.len() > 0 && checked@[0] is Ok && checked_rest@
            == checked@.skip(1) && list_rest@ == list@.skip(1) ==> {
            &&& r is Ok <==> r_rest is Ok
            &&& r is Ok && checked@[0] == Ok::<bool, E>(true) ==> actions::action_views(r->Ok_0@)
                == actions::action_views(r_rest->Ok_0@)
            &&& r is Ok && checked@[0] == Ok::<bool, E>(false) ==> actions::action_views(r->Ok_0@)
                == seq![list@[0]@] + actions::action_views(r_rest->Ok_0@)
        },
{
    let views = actions::action_views(list@);
    if r is Ok && list@.len() == 0 {
        assert(actions::action_views(r->Ok_0@).len() == r->Ok_0@.len());
    }
    if checked@.len() > 0 && list@.len() > 0 && checked@[0] is Ok && checked_rest@ == checked@.skip(
        1,
    ) && list_rest@ == list@.skip(1) {
        assert(views.skip(1) == actions::action_views(list_rest@));
        assert(views[0] == list@[0]@);
        if r_rest is Ok {
            assert forall|i: int| 0 <= i < checked@.len() implies (#[trigger] checked@[i]) is Ok by {
                if i > 0 {
                    assert(checked_rest@[i - 1] is Ok);
                }
            }
        }
        if r is Ok {
            assert forall|i: int| 0 <= i < checked_rest@.len() implies (
            #[trigger] checked_rest@[i]) is Ok by {
                assert(checked@[i + 1] is Ok);
            }
        }
    }
}

/// No failure merged with another leaves the other, and two failures become both, in order;
/// logs are put one after the other.
pub proof fn law_merging(
    a: AgentTestFinishedRun,
    b: AgentTestFinishedRun,
    r: AgentTestFinishedRun,
    f: Option<TestFailure>,
)
    requires
        call_ensures(AgentTestRunner::merge_test_data, (a, b), r),
        call_ensures(AgentTestRunner::merge_test_failure, (a.failure, b.failure), f),
    ensures
        r@.log == a@.log + b@.log,
        f is None ==> r.failure is None,
        f is Some ==> r.failure is Some && r.failure->0@ == f->0@,
        a.failure is None && b.failure is None ==> f is None,
        a.failure is Some && b.failure is None ==> f is Some && f->0@ == a.failure->0@,
        a.failure is None && b.failure is Some ==> f is Some && f->0@ == b.failure->0@,
        a.failure is Some && b.failure is Some ==> f is Some && f->0@ == FailureView::Multiple(
            Box::new(a.failure->0@),
            Box::new(b.failure->0@),
        ),
{
}

/// The reason that missing actions are.
pub open spec fn reason_for(missing: Seq<ActionView>) -> Seq<FailureView> {
    if missing.len() > 0 {
        seq![FailureView::ActionsMissing(missing)]
    } else {
        seq![]
    }
}

/// The verdict on a run that a runner was made for has these reasons for failure, in this
/// order, and no others: what the server recorded, the parallel actions that were not done,
/// the error in stopping the agent, and the serial actions from the index on. It fails
/// exactly where there is one. The log is the server's, and then that the agent could not be
/// stopped, where it could not.
pub proof fn law_verdict(
    environment: crate::environment::AgentTestEnvironment,
    own: AgentTestRunner,
    undone: Vec<AgentExpectedAction>,
    stop_error: Option<TestFailure>,
    context: ServerContext,
    r: AgentTestFinishedRunner,
    verdict: Option<TestFailure>,
    log: Vec<TestLog>,
    serial: Seq<ActionView>,
)
    requires
        call_ensures(AgentTestRunner::new, (environment,), own),
        call_ensures(AgentTestRunner::join, (own, undone, stop_error, context), r),
        call_ensures(AgentTestFinishedRunner::test_failure, (&r,), verdict),
        call_ensures(AgentTestFinishedRunner::test_logs, (&r,), log),
        serial == if context@.environment.serial_action_index
            < context@.environment.serial_actions.len() {
            context@.environment.serial_actions.skip(
                context@.environment.serial_action_index as int,
            )
        } else {
            Seq::<ActionView>::empty()
        },
    ensures
        own.environment@ == environment@,
        laws::optional_reasons(failure::optional_failure(verdict)) == laws::optional_reasons(
            context@.test_data.failure,
        ) + reason_for(actions::action_views(undone@)) + laws::optional_reasons(
            failure::optional_failure(stop_error),
        ) + reason_for(serial),
        verdict is None <==> context@.test_data.failure is None && undone@.len() == 0 && stop_error
            is None && serial.len() == 0,
        failure::log_views(log@) == context@.test_data.log + if stop_error is Some {
            seq![TestLogView::CouldNotStopAgent]
        } else {
            seq![]
        },
{
    let parallel = actions::action_views(undone@);
    let stop = failure::optional_failure(stop_error);
    let known = failure::empty_run();
    assert(parallel.len() == undone@.len());
    laws::law_reasons_of_failure(known, parallel, stop, context@);
    laws::law_when_test_passes(known, parallel, stop, context@);
    assert(context@.environment.uncompleted() == serial);
    assert(laws::optional_reasons(runner::missing(parallel)) == reason_for(parallel));
    assert(laws::optional_reasons(runner::missing(serial)) == reason_for(serial));
    let server = laws::optional_reasons(context@.test_data.failure);
    assert(server + laws::optional_reasons(known.failure) == server);
    assert(context@.test_data.log + known.log == context@.test_data.log);
}

/// A reason for failure is put in words: each kind has its own, a text that comes with it is
/// brought whole, and of two reasons both are told, one after the other.
pub proof fn law_message(
    reason: TestFailure,
    r: String,
    first: TestFailure,
    second: TestFailure,
    r_first: String,
    r_second: String,
)
    requires
        call_ensures(TestFailure::message, (&reason,), r),
        call_ensures(TestFailure::message, (&first,), r_first),
        call_ensures(TestFailure::message, (&second,), r_second),
    ensures
        match reason@ {
            FailureView::CallToFailure => r@ == "Unexpected call to the failure endpoint"@,
            FailureView::CallToSuccess => r@ == "Unexpected call to the success endpoint"@,
            FailureView::CallToTaskInfo => r@ == "Unexpected call to the Task API"@,
            FailureView::CallToLLM(prompt) => r@ == "Unexpected LLM call with prompt: "@ + prompt,
            FailureView::AgentCrashed(error) => r@ == "The agent crashed with error: "@ + error,
            FailureView::ActionsMissing(list) => list.len() == 0 ==> r@
                == "There are actions missing, but the agent already stopped: "@ + ("["@ + "]"@),
            FailureView::Multiple(a, b) => *a == first@ && *b == second@ ==> r@
                == "Multiple failure reasons:\n    "@ + r_first@ + "\n    "@ + r_second@,
        },
{
    if reason@ is ActionsMissing && reason@->ActionsMissing_0.len() == 0 {
        let list = reason@->ActionsMissing_0;
        let shown = failure::quoted_actions(list).map_values(
            |action: ActionView| failure::action_text(action),
        );
        assert(shown == Seq::<Seq<char>>::empty());
        assert("["@ + text::joined(shown, ", "@) == "["@);
    }
}

proof fn lemma_actions_text(list: Seq<ActionView>, action: ActionView)
    ensures
        ({
            let before = failure::actions_text(list);
            let after = failure::actions_text(list.push(action));
            &&& list.len() > 0 ==> after == before.drop_last() + ", "@ + failure::action_text(action)
                + "]"@
            &&& list.len() == 0 ==> after == "["@ + failure::action_text(action) + "]"@
            &&& before.len() > 0 && before.last() == ']'
        }),
{
    reveal_strlit("]");
    let f = |a: ActionView| failure::action_text(a);
    let shown = list.map_values(f);
    let more = list.push(action).map_values(f);
    assert(more == shown.push(failure::action_text(action)));
    assert(more.drop_last() == shown);
    assert(more.last() == failure::action_text(action));
    let before = failure::actions_text(list);
    assert(before.last() == ']');
    assert(before.drop_last() == "["@ + text::joined(shown, ", "@));
    if list.len() == 0 {
        assert(text::joined(more, ", "@) == failure::action_text(action));
    } else {
        let after = failure::actions_text(list.push(action));
        assert(after == "["@ + (text::joined(shown, ", "@) + ", "@ + failure::action_text(action))
            + "]"@);
        assert(after == before.drop_last() + ", "@ + failure::action_text(action) + "]"@);
    }
}

/// The words on missing actions tell of every one of them: with one more at the end of the
/// list, it is told of after the others, as it is shown with its texts quoted.
pub proof fn law_missing_actions_are_told(
    list: Vec<AgentExpectedAction>,
    more: Vec<AgentExpectedAction>,
    reason: TestFailure,
    reason_more: TestFailure,
    r: String,
    r_more: String,
    action: AgentExpectedAction,
    quoted: AgentExpectedAction,
    shown: String,
)
    requires
        more@ == list@.push(action),
        reason@ == FailureView::ActionsMissing(actions::action_views(list@)),
        reason_more@ == FailureView::ActionsMissing(actions::action_views(more@)),
        call_ensures(TestFailure::message, (&reason,), r),
        call_ensures(TestFailure::message, (&reason_more,), r_more),
        call_ensures(failure::quote_action, (&action,), quoted),
        call_ensures(failure::format_action, (&quoted,), shown),
    ensures
        list@.len() == 0 ==> r_more@
            == "There are actions missing, but the agent already stopped: "@ + ("["@ + shown@
            + "]"@),
        list@.len() > 0 ==> r_more@ == r@.drop_last() + ", "@ + shown@ + "]"@,
{
    let views = actions::action_views(list@);
    let quoted_views = failure::quoted_actions(views);
    assert(views.len() == list@.len());
    assert(quoted_views.len() == list@.len());
    assert(actions::action_views(more@) == views.push(action@));
    assert(failure::quoted_actions(views.push(action@)) == quoted_views.push(quoted@));
    lemma_actions_text(quoted_views, quoted@);
    reveal_strlit("]");
    let phrase = "There are actions missing, but the agent already stopped: "@;
    let before = failure::actions_text(quoted_views);
    assert((phrase + before).drop_last() == phrase + before.drop_last());
    if list@.len() > 0 {
        let told = before.drop_last() + ", "@ + shown@ + "]"@;
        assert(phrase + told == phrase + before.drop_last() + ", "@ + shown@ + "]"@);
    }
}

/// Actions are shown one after the other in brackets, and an action by its kind and its
/// texts, whole; where they are to be quoted, every text is.
pub proof fn law_actions_are_shown(
    list: Vec<AgentExpectedAction>,
    more: Vec<AgentExpectedAction>,
    r: String,
    r_more: String,
    action: AgentExpectedAction,
    shown: String,
    quoted: AgentExpectedAction,
    all_quoted: Vec<AgentExpectedAction>,
)
    requires
        more@ == list@.push(action),
        call_ensures(failure::format_actions, (&list,), r),
        call_ensures(failure::format_actions, (&more,), r_more),
        call_ensures(failure::format_action, (&action,), shown),
        call_ensures(failure::quote_action, (&action,), quoted),
        call_ensures(failure::quote_actions, (&more,), all_quoted),
    ensures
        list@.len() == 0 ==> r@ == "["@ + "]"@ && r_more@ == "["@ + shown@ + "]"@,
        list@.len() > 0 ==> r_more@ == r@.drop_last() + ", "@ + shown@ + "]"@,
        all_quoted@.len() == more@.len(),
        all_quoted@.last()@ == quoted@,
        shown@ == match action@ {
            ActionView::File(name, content) => "File("@ + name + ", "@ + shown_option(content)
                + ")"@,
            ActionView::GitCmd => "GitCmd(GitCmd)"@,
            ActionView::LLMCall(call) => "LLMCall(LLMCall { prompt: "@ + shown_option(call.prompt)
                + ", response: "@ + (match call.response {
                LLMResponseView::Message(said) => "Message("@ + said + ")"@,
                LLMResponseView::ToolCall(said) => "ToolCall("@ + said + ")"@,
            }) + " })"@,
            ActionView::TaskSuccess(report) => "TaskSuccess("@ + shown_option(report) + ")"@,
            ActionView::TaskFailure(report) => "TaskFailure("@ + shown_option(report) + ")"@,
        },
        match action@ {
            ActionView::File(name, content) => {
                &&& quoted@ is File && quoted@->File_0 == text::quoted(name)
                &&& is_quoted(content, quoted@->File_1)
            },
            ActionView::GitCmd => quoted@ is GitCmd,
            ActionView::LLMCall(call) => {
                &&& quoted@ is LLMCall && is_quoted(call.prompt, quoted@->LLMCall_0.prompt)
                &&& call.response matches LLMResponseView::Message(said)
                    ==> quoted@->LLMCall_0.response == LLMResponseView::Message(text::quoted(said))
                &&& call.response matches LLMResponseView::ToolCall(said)
                    ==> quoted@->LLMCall_0.response == LLMResponseView::ToolCall(text::quoted(said))
            },
            ActionView::TaskSuccess(report) => quoted@ is TaskSuccess && is_quoted(
                report,
                quoted@->TaskSuccess_0,
            ),
            ActionView::TaskFailure(report) => quoted@ is TaskFailure && is_quoted(
                report,
                quoted@->TaskFailure_0,
            ),
        },
{
    let views = actions::action_views(list@);
    assert(views.len() == list@.len());
    assert(actions::action_views(more@) == views.push(action@));
    lemma_actions_text(views, action@);
    reveal_strlit("]");
    if list@.len() == 0 {
        let none = views.map_values(|a: ActionView| failure::action_text(a));
        assert(none == Seq::<Seq<char>>::empty());
        assert("["@ + text::joined(none, ", "@) == "["@);
    }
    let all = actions::action_views(all_quoted@);
    let expected = failure::quoted_actions(actions::action_views(more@));
    assert(all.len() == all_quoted@.len());
    assert(expected.len() == more@.len());
    assert(all[list@.len() as int] == all_quoted@[list@.len() as int]@);
    assert(expected[list@.len() as int] == quoted@);
}

/// An optional text as it is shown.
pub open spec fn shown_option(text: Option<Seq<char>>) -> Seq<char> {
    match text {
        Some(text) => "Some("@ + text + ")"@,
        None => "None"@,
    }
}

/// An optional text and the same text quoted.
pub open spec fn is_quoted(plain: Option<Seq<char>>, quoted: Option<Seq<char>>) -> bool {
    match plain {
        Some(text) => quoted == Some(text::quoted(text)),
        None => quoted is None,
    }
}

/// A message is shown after the name of its stream, whole but for one line feed at its end.
pub proof fn law_labels(label: &str, message: &str, core: Seq<char>, r: String)
    requires
        call_ensures(container::label_message, (label, message), r),
    ensures
        message@ == core + seq!['\n'] ==> r@ == label@ + ": "@ + core,
        message@.len() == 0 || message@.last() != '\n' ==> r@ == label@ + ": "@ + message@,
{
    if message@ == core + seq!['\n'] {
        assert(message@.last() == '\n');
        assert(message@.drop_last() == core);
    }
}

/// What a container writes is shown under the name of its stream, on the stream of the same
/// kind; how reading from it fails is shown as an error; and nothing else is shown.
pub proof fn law_output(
    output: ContainerOutput,
    r: Option<OutputLine>,
    message: &str,
    on_stdout: String,
    on_stderr: String,
)
    requires
        call_ensures(container::output_line, (output,), r),
        output matches ContainerOutput::StdOut(bytes) ==> message@ == text::utf8_lossy(bytes@),
        output matches ContainerOutput::StdErr(bytes) ==> message@ == text::utf8_lossy(bytes@),
        call_ensures(container::label_message, ("STDOUT", message), on_stdout),
        call_ensures(container::label_message, ("STDERR", message), on_stderr),
    ensures
        match output {
            ContainerOutput::StdOut(_) => r is Some && !r->0.on_stderr && r->0.text@ == on_stdout@,
            ContainerOutput::StdErr(_) => r is Some && r->0.on_stderr && r->0.text@ == on_stderr@,
            ContainerOutput::Other => r is None,
            ContainerOutput::Error(error) => r is Some && r->0.on_stderr && r->0.text@ == "Error: "@
                + error@,
        },
{
}

/// The end of a container is a failure exactly where its status code is above zero or waiting
/// for it went wrong. The words on it bring the code in decimal and the error, whole.
pub proof fn law_container_exit(exit: ContainerExit, r: Option<TestFailure>, code_text: String)
    requires
        call_ensures(container::join_agent_container, (exit,), r),
        exit matches ContainerExit::Exited(code, _) ==> code > 0 ==> call_ensures(
            text::decimal_text,
            (code as u64,),
            code_text,
        ),
    ensures
        match exit {
            ContainerExit::Silent => r is None,
            ContainerExit::Failed(reason) => r is Some && r->0@ == FailureView::AgentCrashed(
                reason@,
            ),
            ContainerExit::Exited(code, error) => {
                &&& code <= 0 ==> r is None
                &&& code > 0 ==> r is Some && r->0@ == FailureView::AgentCrashed(
                    "Container exited with status code "@ + code_text@ + " and error: "@
                        + match error {
                        Some(Some(message)) => message@,
                        Some(None) => "No message"@,
                        None => "No error"@,
                    },
                )
            },
        },
{
}

/// A report on a wait that failed is the end of the container with that code and that error.
pub proof fn law_wait_error(code: i64, error: String, r: ContainerExit)
    requires
        call_ensures(ContainerExit::from_wait_error, (code, error), r),
    ensures
        r is Exited && r->Exited_0 == code,
        error@.len() == 0 ==> r->Exited_1 is None,
        error@.len() > 0 ==> r->Exited_1 is Some && r->Exited_1->0 is Some && r->Exited_1->0->0@
            == error@,
{
}

/// The container is started from the given image, whatever it is called.
pub proof fn law_agent_container(image: &str, r: container::ContainerConfig)
    requires
        call_ensures(container::agent_container, (image,), r),
    ensures
        r.image@ == image@,
        r.env@.len() == 2 && r.extra_hosts@.len() == 1,
        r.env@[0]@ == "MINION_API_BASE_URL=http://host.docker.internal:3000/api/"@,
        r.env@[1]@ == "MINION_API_TOKEN=42"@,
        r.extra_hosts@[0]@ == "host.docker.internal:host-gateway"@,
{
    let env = container::string_views(r.env@);
    let hosts = container::string_views(r.extra_hosts@);
    assert(env.len() == r.env@.len() && hosts.len() == r.extra_hosts@.len());
    assert(env[0] == r.env@[0]@);
    assert(env[1] == r.env@[1]@);
    assert(hosts[0] == r.extra_hosts@[0]@);
}

/// Copies of failures and logs say what these say, and a run begins with neither.
pub proof fn law_copied_results(
    reason: TestFailure,
    optional: Option<TestFailure>,
    log: Vec<TestLog>,
    run: AgentTestFinishedRun,
    copied_reason: TestFailure,
    copied_optional: Option<TestFailure>,
    copied_log: Vec<TestLog>,
    copied_run: AgentTestFinishedRun,
    new: AgentTestFinishedRun,
)
    requires
        call_ensures(<TestFailure as Clone>::clone, (&reason,), copied_reason),
        call_ensures(failure::copied_failure, (&optional,), copied_optional),
        call_ensures(failure::copied_log, (&log,), copied_log),
        call_ensures(<AgentTestFinishedRun as Clone>::clone, (&run,), copied_run),
        call_ensures(<AgentTestFinishedRun as Default>::default, (), new),
    ensures
        copied_reason@ == reason@,
        copied_optional is Some <==> optional is Some,
        optional is Some ==> copied_optional->0@ == optional->0@,
        copied_log@.len() == log@.len(),
        forall|i: int| 0 <= i < log@.len() ==> (#[trigger] copied_log@[i])@ == log@[i]@,
        copied_run@ == run@,
        new.log@.len() == 0 && new.failure is None,
{
    let a = failure::log_views(copied_log@);
    let b = failure::log_views(log@);
    assert(a.len() == copied_log@.len() && b.len() == log@.len());
    assert forall|i: int| 0 <= i < log@.len() implies (#[trigger] copied_log@[i])@ == log@[i]@ by {
        assert(a[i] == b[i]);
    }
    assert(new@.log.len() == new.log@.len());
}

} // verus!
