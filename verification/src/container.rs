//! The container in which an agent runs: how it is started, what it writes, how it ends,
//! and the files in it.

use crate::actions;
use crate::archive;
use crate::failure;
use crate::failure::{FailureView, TestFailure};
use crate::text;
use crate::text_map;
use crate::text_map::TextMap;
use vstd::prelude::*;

verus! {

/// The port at which the server waits for the agent.
pub const API_PORT: u16 = 3000;

/// The path under which the files of the agent are.
pub open spec fn files_path() -> Seq<char> {
    "~/app"@
}

/// The path under which the files of the agent are.
pub fn agent_files_path() -> (r: &'static str)
    ensures
        r@ == files_path(),
{
    "~/app"
}

/// What a container is started with.
pub struct ContainerConfig {
    pub image: String,
    pub env: Vec<String>,
    pub extra_hosts: Vec<String>,
}

/// What a list of texts says.
pub open spec fn string_views(list: Seq<String>) -> Seq<Seq<char>> {
    list.map_values(|item: String| item@)
}

/// What the agent's container is started with: its image, where it finds the server and
/// with what token, and the host under that name.
pub fn agent_container(image_name: &str) -> (r: ContainerConfig)
    ensures
        r.image@ == image_name@,
        string_views(r.env@) == seq![
            "MINION_API_BASE_URL=http://host.docker.internal:3000/api/"@,
            "MINION_API_TOKEN=42"@,
        ],
        string_views(r.extra_hosts@) == seq!["host.docker.internal:host-gateway"@],
{
    let mut env: Vec<String> = Vec::new();
    env.push("MINION_API_BASE_URL=http://host.docker.internal:3000/api/".to_owned());
    env.push("MINION_API_TOKEN=42".to_owned());
    let mut extra_hosts: Vec<String> = Vec::new();
    extra_hosts.push("host.docker.internal:host-gateway".to_owned());
    let r = ContainerConfig { image: image_name.to_owned(), env, extra_hosts };
    proof {
        assert(string_views(r.env@) == seq![
            "MINION_API_BASE_URL=http://host.docker.internal:3000/api/"@,
            "MINION_API_TOKEN=42"@,
        ]);
        assert(string_views(r.extra_hosts@) == seq!["host.docker.internal:host-gateway"@]);
    }
    r
}

/// What a container writes, or how reading from it fails.
pub enum ContainerOutput {
    StdOut(Vec<u8>),
    StdErr(Vec<u8>),
    Other,
    Error(String),
}

/// A line to be shown, on the error stream or on the other.
pub struct OutputLine {
    pub on_stderr: bool,
    pub text: String,
}

/// `s` without one line feed at its end.
pub open spec fn without_newline(s: Seq<char>) -> Seq<char> {
    if s.len() > 0 && s.last() == '\n' {
        s.drop_last()
    } else {
        s
    }
}

/// A message with the name of its stream before it.
pub open spec fn labelled(label: Seq<char>, message: Seq<char>) -> Seq<char> {
    label + ": "@ + without_newline(message)
}

/// Writes a message with the name of its stream before it, and without one line feed at
/// its end.
pub fn label_message(label: &str, message: &str) -> (r: String)
    ensures
        r@ == labelled(label@, message@),
{
    let mut r: String = label.to_owned();
    r.append(": ");
    let length: usize = message.unicode_len();
    if length > 0 && message.get_char(length - 1) == '\n' {
        r.append(message.substring_char(0, length - 1));
        assert(message@.subrange(0, length - 1) == without_newline(message@));
    } else {
        r.append(message);
    }
    r
}

/// What is shown of the output of a container.
pub fn output_line(output: ContainerOutput) -> (r: Option<OutputLine>)
    ensures
        match output {
            ContainerOutput::StdOut(message) => r matches Some(line) && !line.on_stderr
                && line.text@ == labelled("STDOUT"@, text::utf8_lossy(message@)),
            ContainerOutput::StdErr(message) => r matches Some(line) && line.on_stderr
                && line.text@ == labelled("STDERR"@, text::utf8_lossy(message@)),
            ContainerOutput::Other => r is None,
            ContainerOutput::Error(error) => r matches Some(line) && line.on_stderr
                && line.text@ == "Error: "@ + error@,
        },
{
    match output {
        ContainerOutput::StdOut(message) => {
            let content = text::lossy_text(message.as_slice());
            Some(OutputLine { on_stderr: false, text: label_message("STDOUT", content.as_str()) })
        },
        ContainerOutput::StdErr(message) => {
            let content = text::lossy_text(message.as_slice());
            Some(OutputLine { on_stderr: true, text: label_message("STDERR", content.as_str()) })
        },
        ContainerOutput::Other => None,
        ContainerOutput::Error(error) => Some(
            OutputLine { on_stderr: true, text: "Error: ".to_owned().concat(error.as_str()) },
        ),
    }
}

/// How waiting for a container ended.
pub enum ContainerExit {
    /// Nothing was said.
    Silent,
    /// The container stopped with a status code and, where there was one, an error, which
    /// may come with a message.
    Exited(i64, Option<Option<String>>),
    /// Waiting went wrong, for the given reason.
    Failed(String),
}

/// The words on the error of a stopped container.
pub open spec fn exit_error(error: Option<Option<Seq<char>>>) -> Seq<char> {
    match error {
        Some(Some(message)) => message,
        Some(None) => "No message"@,
        None => "No error"@,
    }
}

/// What an optional message in an optional error says.
pub open spec fn optional_message(error: Option<Option<String>>) -> Option<Option<Seq<char>>> {
    match error {
        Some(message) => Some(actions::optional_text(message)),
        None => None,
    }
}

/// The reason for failure that the end of a container is.
pub open spec fn exit_failure(exit: ContainerExit) -> Option<FailureView> {
    match exit {
        ContainerExit::Silent => None,
        ContainerExit::Exited(status_code, error) => if status_code > 0 {
            Some(
                FailureView::AgentCrashed(
                    "Container exited with status code "@ + text::decimal(status_code as nat)
                        + " and error: "@ + exit_error(optional_message(error)),
                ),
            )
        } else {
            None
        },
        ContainerExit::Failed(reason) => Some(FailureView::AgentCrashed(reason@)),
    }
}

impl ContainerExit {
    /// The end of a container that is reported as an error with a code and a message, which
    /// is empty where the container gave no error.
    pub fn from_wait_error(code: i64, error: String) -> (r: Self)
        ensures
            r matches ContainerExit::Exited(status_code, given) && status_code == code
                && optional_message(given) == if error@.len() == 0 {
                None::<Option<Seq<char>>>
            } else {
                Some(Some(error@))
            },
    {
        if error.as_str().is_empty() {
            ContainerExit::Exited(code, None)
        } else {
            ContainerExit::Exited(code, Some(Some(error)))
        }
    }
}

/// Goes by how the agent container stopped and returns `None` on success.
/// If something unexpected happened while stopping, it is treated as a test failure and the
/// cause is returned.
pub fn join_agent_container(exit: ContainerExit) -> (r: Option<TestFailure>)
    ensures
        failure::optional_failure(r) == exit_failure(exit),
{
    match exit {
        ContainerExit::Silent => None,
        ContainerExit::Exited(status_code, error) => {
            if status_code > 0 {
                let mut message: String = "Container exited with status code ".to_owned();
                message.append(text::decimal_text(status_code as u64).as_str());
                message.append(" and error: ");
                match error {
                    Some(given) => match given {
                        Some(detail) => message.append(detail.as_str()),
                        None => message.append("No message"),
                    },
                    None => message.append("No error"),
                }
                Some(TestFailure::AgentCrashed(message))
            } else {
                None
            }
        },
        ContainerExit::Failed(reason) => Some(TestFailure::AgentCrashed(reason)),
    }
}

/// Why the files of a container cannot be had.
pub enum FilesError {
    /// The archive cannot be read, for the given reason.
    Archive(String),
    /// The path of a file is not Unicode.
    PathNotUnicode,
}

/// Why an archive with a sparse member that is too large is not read.
pub open spec fn vast_reason() -> Seq<char> {
    "a sparse member is too large"@
}

/// The files that the members of an archive are. Of two with the same path the later one
/// counts.
pub open spec fn files_of(members: Seq<(Option<Seq<char>>, Seq<char>)>) -> Seq<
    (Seq<char>, Seq<char>),
>
    decreases members.len(),
{
    if members.len() == 0 {
        seq![]
    } else {
        match members.last().0 {
            Some(path) => text_map::upsert(files_of(members.drop_last()), path, members.last().1),
            None => files_of(members.drop_last()),
        }
    }
}

/// Every member has a Unicode path.
pub open spec fn unicode_paths(members: Seq<(Option<Seq<char>>, Seq<char>)>) -> bool {
    forall|i: int| 0 <= i < members.len() ==> (#[trigger] members[i]).0 is Some
}

/// Collects the files that the members of an archive are.
pub fn collect_files(members: Vec<(Option<String>, String)>) -> (r: Result<TextMap, FilesError>)
    ensures
        match r {
            Ok(files) => unicode_paths(archive::member_views(members@)) && files@ == files_of(
                archive::member_views(members@),
            ),
            Err(error) => !unicode_paths(archive::member_views(members@)) && error is PathNotUnicode,
        },
{
    let ghost all = archive::member_views(members@);
    let mut files = TextMap::new();
    let mut i: usize = 0;
    assert(all.take(0) == Seq::<(Option<Seq<char>>, Seq<char>)>::empty());
    while i < members.len()
        invariant
            i <= members.len(),
            all == archive::member_views(members@),
            unicode_paths(all.take(i as int)),
            files@ == files_of(all.take(i as int)),
        decreases members.len() - i,
    {
        proof {
            assert(all[i as int] == (
                actions::optional_text(members@[i as int].0),
                members@[i as int].1@,
            ));
            assert(all.take(i + 1).drop_last() == all.take(i as int));
            assert(all.take(i + 1).last() == all[i as int]);
        }
        let member = &members[i];
        match &member.0 {
            Some(path) => {
                files.insert(path.clone(), member.1.clone());
                assert forall|j: int| 0 <= j < i + 1 implies (#[trigger] all.take(
                    i + 1,
                )[j]).0 is Some by {
                    if j < i {
                        assert(all.take(i as int)[j].0 is Some);
                    }
                }
            },
            None => {
                assert(all[i as int].0 is None);
                return Err(FilesError::PathNotUnicode);
            },
        }
        i = i + 1;
    }
    assert(all.take(i as int) == all);
    Ok(files)
}

/// Extracts all files from an archive of the container's files. An archive with a sparse
/// member that is too large to be in it is not read.
/// Returns a map from the filenames to the file content.
/// Filenames are given with path, so e.g. `dev/my_project/main.rs`
pub fn get_files(data: &[u8]) -> (r: Result<TextMap, FilesError>)
    ensures
        if archive::sparse_members_fit(data@) {
            match archive::archive_members(data@) {
                Ok(members) => if unicode_paths(members) {
                    r matches Ok(files) && files@ == files_of(members)
                } else {
                    r matches Err(error) && error is PathNotUnicode
                },
                Err(reason) => r matches Err(FilesError::Archive(given)) && given@ == reason,
            }
        } else {
            r matches Err(FilesError::Archive(given)) && given@ == vast_reason()
        },
{
    if !archive::has_fitting_sparse_members(data) {
        return Err(FilesError::Archive("a sparse member is too large".to_owned()));
    }
    match archive::list_archive(data) {
        Ok(members) => collect_files(members),
        Err(reason) => Err(FilesError::Archive(reason)),
    }
}

} // verus!
