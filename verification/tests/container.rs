use agent_harness::archive::has_fitting_sparse_members;
use agent_harness::container::{
    agent_container, agent_files_path, collect_files, get_files, join_agent_container,
    label_message, output_line, ContainerExit, ContainerOutput, FilesError, API_PORT,
};
use agent_harness::failure::TestFailure;

fn archive(members: &[(&str, &str)]) -> Vec<u8> {
    let mut builder = tar::Builder::new(Vec::new());
    for (path, content) in members {
        let mut header = tar::Header::new_gnu();
        header.set_size(content.len() as u64);
        header.set_mode(0o644);
        header.set_cksum();
        builder.append_data(&mut header, path, content.as_bytes()).unwrap();
    }
    builder.into_inner().unwrap()
}

fn crash(exit: ContainerExit) -> Option<String> {
    match join_agent_container(exit) {
        Some(TestFailure::AgentCrashed(error)) => Some(error),
        Some(_) => panic!(),
        None => None,
    }
}

#[test]
fn files_are_taken_out_of_an_archive() {
    let data = archive(&[("app/main.rs", "fn main() {}"), ("app/test.txt", "")]);
    match get_files(&data) {
        Ok(files) => {
            assert_eq!(files.len(), 2);
            assert_eq!(files.get("app/main.rs"), Some(&"fn main() {}".to_owned()));
            assert_eq!(files.get("app/test.txt"), Some(&"".to_owned()));
        }
        Err(_) => panic!(),
    }
}

#[test]
fn the_last_member_with_a_path_counts() {
    match get_files(&archive(&[("a", "1"), ("b", "2"), ("a", "3")])) {
        Ok(files) => {
            assert_eq!(files.len(), 2);
            assert_eq!(files.get("a"), Some(&"3".to_owned()));
        }
        Err(_) => panic!(),
    }
}

#[test]
fn an_empty_archive_has_no_files() {
    match get_files(&[]) {
        Ok(files) => assert_eq!(files.len(), 0),
        Err(_) => panic!(),
    }
}

#[test]
fn an_archive_that_cannot_be_read_is_an_error() {
    match get_files(b"this is no archive") {
        Err(FilesError::Archive(reason)) => assert_eq!(reason, "failed to read entire block"),
        _ => panic!(),
    }
}

#[test]
fn a_path_that_is_not_unicode_is_an_error() {
    let members = vec![
        (Some("a".to_owned()), "1".to_owned()),
        (None, "2".to_owned()),
    ];
    assert!(matches!(collect_files(members), Err(FilesError::PathNotUnicode)));
}

#[test]
fn the_container_is_told_where_the_server_is() {
    let config = agent_container("agent-42");
    assert_eq!(config.image, "agent-42");
    assert_eq!(
        config.env,
        vec!["MINION_API_BASE_URL=http://host.docker.internal:3000/api/", "MINION_API_TOKEN=42"]
    );
    assert_eq!(config.extra_hosts, vec!["host.docker.internal:host-gateway"]);
    assert_eq!(API_PORT, 3000);
    assert_eq!(agent_files_path(), "~/app");
}

#[test]
fn output_is_labelled() {
    let line = output_line(ContainerOutput::StdOut(b"hi\n\n".to_vec())).unwrap();
    assert_eq!((line.on_stderr, line.text.as_str()), (false, "STDOUT: hi\n"));
    let line = output_line(ContainerOutput::StdErr(b"\xffoops".to_vec())).unwrap();
    assert_eq!((line.on_stderr, line.text.as_str()), (true, "STDERR: \u{fffd}oops"));
    let line = output_line(ContainerOutput::Error("gone".to_owned())).unwrap();
    assert_eq!((line.on_stderr, line.text.as_str()), (true, "Error: gone"));
    assert!(output_line(ContainerOutput::Other).is_none());
    assert_eq!(label_message("X", "\n"), "X: ");
}

#[test]
fn a_container_that_stops_well_is_no_failure() {
    assert_eq!(crash(ContainerExit::Silent), None);
    assert_eq!(crash(ContainerExit::Exited(0, None)), None);
    assert_eq!(crash(ContainerExit::Exited(-1, None)), None);
}

#[test]
fn a_container_that_stops_badly_is_a_failure() {
    assert_eq!(
        crash(ContainerExit::Exited(137, None)),
        Some("Container exited with status code 137 and error: No error".to_owned())
    );
    assert_eq!(
        crash(ContainerExit::Exited(1, Some(None))),
        Some("Container exited with status code 1 and error: No message".to_owned())
    );
    assert_eq!(
        crash(ContainerExit::Exited(i64::MAX, Some(Some("oom".to_owned())))),
        Some("Container exited with status code 9223372036854775807 and error: oom".to_owned())
    );
    assert_eq!(crash(ContainerExit::Failed("no daemon".to_owned())), Some("no daemon".to_owned()));
    assert_eq!(
        crash(ContainerExit::from_wait_error(2, "".to_owned())),
        Some("Container exited with status code 2 and error: No error".to_owned())
    );
    assert_eq!(
        crash(ContainerExit::from_wait_error(2, "x".to_owned())),
        Some("Container exited with status code 2 and error: x".to_owned())
    );
}

fn sparse_header(size: u64, real_size: u64, is_extended: bool) -> tar::Header {
    let mut header = tar::Header::new_gnu();
    header.set_path("sparse").unwrap();
    header.set_mode(0o644);
    header.set_entry_type(tar::EntryType::GNUSparse);
    header.set_size(size);
    let gnu = header.as_gnu_mut().unwrap();
    gnu.set_is_extended(is_extended);
    gnu.set_real_size(real_size);
    gnu.sparse[0].set_offset(real_size);
    gnu.sparse[0].set_length(0);
    header.set_cksum();
    header
}

fn is_refused(data: &[u8]) -> bool {
    let refused = matches!(
        get_files(data),
        Err(FilesError::Archive(reason)) if reason == "a sparse member is too large"
    );
    assert_eq!(refused, !has_fitting_sparse_members(data));
    refused
}

#[test]
fn a_sparse_member_is_filled_up() {
    for is_extended in [false, true] {
        let mut data = sparse_header(0, 700, is_extended).as_bytes().to_vec();
        data.extend(vec![0; if is_extended { 512 } else { 0 } + 1024]);
        match get_files(&data) {
            Ok(files) => assert_eq!(files.get("sparse"), Some(&"\0".repeat(700))),
            Err(_) => panic!(),
        }
    }
}

#[test]
fn a_sparse_member_that_is_too_large_is_refused() {
    for (size, is_extended, refused) in [
        (u64::MAX, true, true),
        (u64::MAX - 1023, true, true),
        (1 << 63, true, true),
        ((1 << 63) - 1, true, false),
        (1 << 62, true, false),
        (u64::MAX - 1023, false, false),
    ] {
        let mut data = sparse_header(size, 700, is_extended).as_bytes().to_vec();
        data.extend([0; 512]);
        assert_eq!(is_refused(&data), refused, "{}", size);
        assert!(get_files(&data).is_err());
    }
}

#[test]
fn what_a_file_holds_is_not_taken_for_a_header() {
    let mut content = vec![b' '; 512];
    content[156] = b'S';
    content[257..265].copy_from_slice(b"ustar  \0");
    content[483..485].copy_from_slice("\u{e9}".as_bytes());
    content[487] = b'A';
    let content = String::from_utf8(content).unwrap();
    match get_files(&archive(&[("f", &content)])) {
        Ok(files) => {
            assert_eq!(files.len(), 1);
            assert_eq!(files.get("f"), Some(&content));
        }
        Err(_) => panic!(),
    }
}

#[test]
fn an_archive_in_an_archive_is_not_walked_through() {
    let inner = sparse_header(u64::MAX - 1023, 700, true);
    assert!(is_refused(&[inner.as_bytes().to_vec(), vec![0; 512]].concat()));
    let mut header = tar::Header::new_gnu();
    header.set_path("inner.tar").unwrap();
    header.set_size(1024);
    header.set_cksum();
    let data =
        [header.as_bytes().to_vec(), inner.as_bytes().to_vec(), vec![0; 512 + 1024]].concat();
    assert!(!is_refused(&data));
}

#[test]
fn the_walk_ends_where_the_archive_does() {
    let vast = sparse_header(u64::MAX - 1023, 700, true).as_bytes().to_vec();
    // after a block of zeros
    assert!(!is_refused(&[vec![0; 512], vast.clone(), vec![0; 512]].concat()));
    // after a header with a wrong sum
    let mut wrong = archive(&[("a", "1")])[..1024].to_vec();
    wrong[0] = b'b';
    assert!(!is_refused(&[wrong, vast.clone(), vec![0; 512]].concat()));
    // in a header that is cut off
    assert!(!is_refused(&vast[..511]));
    // with a wrong sum of its own
    let mut other = vast.clone();
    other[0] = b'x';
    assert!(!is_refused(&[other, vec![0; 512]].concat()));
}

fn content_of(data: &[u8], path: &str) -> String {
    match get_files(data) {
        Ok(files) => files.get(path).unwrap().clone(),
        Err(_) => panic!(),
    }
}

#[test]
fn the_walk_reaches_what_follows_each_kind_of_member() {
    let vast = sparse_header(u64::MAX - 1023, 700, true).as_bytes().to_vec();
    let refused_after = |mut before: Vec<u8>| {
        before.extend(&vast);
        before.extend([0; 512]);
        is_refused(&before)
    };
    // members with and without padding
    let members = archive(&[("a", ""), ("b", "1"), ("c", &"x".repeat(512)), ("d", &"y".repeat(513))]);
    assert!(refused_after(members[..members.len() - 1024].to_vec()));
    // a long name
    let long = archive(&[("n".repeat(200).as_str(), "1")]);
    assert!(refused_after(long[..long.len() - 1024].to_vec()));
    // a size in binary form
    let mut header = tar::Header::new_gnu();
    header.set_path("b").unwrap();
    header.as_old_mut().size = [0x80, 0, 0, 0, 0, 0, 0, 0, 0, 0, 2, 1];
    header.set_cksum();
    let member = [header.as_bytes().to_vec(), vec![b'x'; 1024]].concat();
    assert_eq!(content_of(&member, "b"), "x".repeat(513));
    assert!(refused_after(member));
    // a size with blanks around it
    let mut header = tar::Header::new_gnu();
    header.set_path("b").unwrap();
    header.as_old_mut().size.copy_from_slice(" \u{a0}+1001 \u{3000}".as_bytes());
    header.set_cksum();
    let member = [header.as_bytes().to_vec(), vec![b'x'; 1024]].concat();
    assert_eq!(content_of(&member, "b"), "x".repeat(513));
    assert!(refused_after(member));
    // a sparse member whose header goes on twice
    let mut blocks = vec![0; 1024];
    blocks[504] = 1;
    let sparse = [sparse_header(0, 700, true).as_bytes().to_vec(), blocks].concat();
    assert!(refused_after(sparse));
    // a member whose size an extended header gives
    let mut builder = tar::Builder::new(Vec::new());
    builder.append_pax_extensions([("comment", &b"c"[..]), ("size", &b"600"[..])]).unwrap();
    let mut data = builder.into_inner().unwrap();
    data.truncate(1024);
    let mut header = tar::Header::new_ustar();
    header.set_path("b").unwrap();
    header.set_size(0);
    header.set_cksum();
    data.extend(header.as_bytes());
    data.extend(vec![b'x'; 1024]);
    assert_eq!(content_of(&data, "b"), "x".repeat(600));
    assert!(refused_after(data));
}

fn with_records(records: &[u8], between: &[u8]) -> Vec<u8> {
    let mut header = tar::Header::new_ustar();
    header.set_path("x").unwrap();
    header.set_entry_type(tar::EntryType::XHeader);
    header.set_size(records.len() as u64);
    header.set_cksum();
    let mut data = header.as_bytes().to_vec();
    data.extend(records);
    data.resize(1024, 0);
    data.extend(between);
    data.extend(sparse_header(0, 700, true).as_bytes());
    data.extend([0; 1536]);
    data
}

#[test]
fn the_size_in_an_extended_header_counts() {
    for (records, refused) in [
        ("29 size=18446744073709550592\n", true),
        ("31 size=+018446744073709550592\n", true),
        ("28 size=9223372036854775808\n", true),
        ("28 size=9223372036854775807\n", false),
        ("29 size=18446744073709551616\n", false),
        ("28 size=922337203685477580x\n", false),
        ("9 size=0\n", false),
        ("7 a=b=\n28 size=9223372036854775808\n", true),
        ("9 size=0\n28 size=9223372036854775808\n", false),
        ("\n28 size=9223372036854775808\n", false),
        ("27 size=9223372036854775808\n", false),
        ("6 noeq\n28 size=9223372036854775808\n", false),
        ("028 size=9223372036854775808\n", false),
        ("029 size=9223372036854775808\n", true),
        ("28 size=9223372036854775808", true),
        ("29 xsize=9223372036854775808\n", false),
        ("", false),
    ] {
        let data = with_records(records.as_bytes(), &[]);
        assert_eq!(is_refused(&data), refused, "{:?}", records);
    }
    match get_files(&with_records(b"9 size=0\n", &[])) {
        Ok(files) => assert_eq!(files.get("sparse"), Some(&"\0".repeat(700))),
        Err(_) => panic!(),
    }
}

#[test]
fn the_size_in_an_extended_header_is_for_the_next_member() {
    let record = b"28 size=9223372036854775808\n";
    // a long name in between describes the same member
    let mut header = tar::Header::new_gnu();
    header.set_path("././@LongLink").unwrap();
    header.set_entry_type(tar::EntryType::GNULongName);
    header.set_size(1);
    header.set_cksum();
    let long_name = [header.as_bytes().to_vec(), vec![b'n'; 512]].concat();
    assert!(is_refused(&with_records(record, &long_name)));
    // a global header in between is a member of its own
    let mut header = tar::Header::new_ustar();
    header.set_path("g").unwrap();
    header.set_entry_type(tar::EntryType::XGlobalHeader);
    header.set_size(0);
    header.set_cksum();
    assert!(!is_refused(&with_records(record, header.as_bytes())));
}

#[test]
fn a_text_with_a_long_size_is_read() {
    let text = "28 size=9223372036854775808\n";
    match get_files(&archive(&[("a", text)])) {
        Ok(files) => assert_eq!(files.get("a"), Some(&text.to_owned())),
        Err(_) => panic!(),
    }
}
