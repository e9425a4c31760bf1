//! What is read of a request is what was sent.

use crate::http_server;
use crate::http_server::{HttpRequestView, RequestType};
use crate::text;
use crate::text_map;
use vstd::prelude::*;

verus! {

/// The word for a method.
pub open spec fn method_word(method: RequestType) -> Seq<char> {
    match method {
        RequestType::GET => "GET"@,
        RequestType::POST => "POST"@,
    }
}

/// The line that begins a request.
pub open spec fn start_line(method: RequestType, target: Seq<char>, protocol: Seq<char>) -> Seq<
    char,
> {
    method_word(method) + (seq![' '] + (target + (seq![' '] + protocol)))
}

/// The line for a header.
pub open spec fn header_line(header: (Seq<char>, Seq<char>)) -> Seq<char> {
    header.0 + seq![':', ' '] + header.1
}

/// A text that a header can carry: no colon, no line feed, and no blank at its ends.
pub open spec fn plain_text(s: Seq<char>) -> bool {
    !s.contains(':') && !s.contains('\n') && text::trimmed(s) == s
}

/// A header of which name and value can be carried.
pub open spec fn plain_header(header: (Seq<char>, Seq<char>)) -> bool {
    plain_text(header.0) && plain_text(header.1)
}

/// Lines, each ended with a carriage return and a line feed, and what follows them.
pub open spec fn lines_then(lines: Seq<Seq<char>>, rest: Seq<char>) -> Seq<char>
    decreases lines.len(),
{
    if lines.len() == 0 {
        rest
    } else {
        lines[0] + seq!['\r', '\n'] + lines_then(lines.skip(1), rest)
    }
}

/// The lines for headers.
pub open spec fn header_lines(headers: Seq<(Seq<char>, Seq<char>)>) -> Seq<Seq<char>> {
    headers.map_values(|header: (Seq<char>, Seq<char>)| header_line(header))
}

/// The lines before the body of a request.
pub open spec fn head_lines(
    method: RequestType,
    target: Seq<char>,
    protocol: Seq<char>,
    headers: Seq<(Seq<char>, Seq<char>)>,
) -> Seq<Seq<char>> {
    seq![start_line(method, target, protocol)] + (header_lines(headers) + seq![Seq::<char>::empty()])
}

/// The text that a client sends.
pub open spec fn request_text(
    method: RequestType,
    target: Seq<char>,
    protocol: Seq<char>,
    headers: Seq<(Seq<char>, Seq<char>)>,
    body: Seq<char>,
) -> Seq<char> {
    lines_then(head_lines(method, target, protocol, headers), body)
}

/// Headers set one after the other.
pub open spec fn set_headers(headers: Seq<(Seq<char>, Seq<char>)>) -> Seq<(Seq<char>, Seq<char>)>
    decreases headers.len(),
{
    if headers.len() == 0 {
        seq![]
    } else {
        text_map::upsert(
            set_headers(headers.drop_last()),
            headers.last().0,
            headers.last().1,
        )
    }
}

pub proof fn lemma_lines_then(lines: Seq<Seq<char>>, rest: Seq<char>)
    requires
        forall|i: int| 0 <= i < lines.len() ==> !(#[trigger] lines[i]).contains('\n'),
    ensures
        text::lines(lines_then(lines, rest)) == lines + text::lines(rest),
    decreases lines.len(),
{
    if lines.len() == 0 {
        assert(lines + text::lines(rest) == text::lines(rest));
    } else {
        lemma_lines_then(lines.skip(1), rest);
        text::lemma_first_line(lines[0], lines_then(lines.skip(1), rest));
        assert(seq![lines[0]] + (lines.skip(1) + text::lines(rest)) == lines + text::lines(rest));
    }
}

proof fn lemma_start_words(method: RequestType, target: Seq<char>, protocol: Seq<char>)
    requires
        text::is_word(target),
        text::is_word(protocol),
    ensures
        text::words(start_line(method, target, protocol)) == seq![
            method_word(method),
            target,
            protocol,
        ],
        !start_line(method, target, protocol).contains('\n'),
        http_server::method_of(method_word(method)) == Some(method),
{
    reveal_strlit("GET");
    reveal_strlit("POST");
    let word = method_word(method);
    assert("GET"@[0] == 'G');
    assert("POST"@[0] == 'P');
    assert(text::is_word(word));
    assert(text::blank(' '));
    let empty = Seq::<char>::empty();
    let after_word = seq![' '] + (target + (seq![' '] + protocol));
    let after_target = seq![' '] + protocol;
    assert(text::trim_start(empty) == empty);
    assert(text::words(empty) == Seq::<Seq<char>>::empty());
    assert(protocol + empty == protocol);
    text::lemma_first_word(protocol, empty);
    text::lemma_leading_space(protocol);
    text::lemma_first_word(target, after_target);
    text::lemma_leading_space(target + after_target);
    text::lemma_first_word(word, after_word);
    assert(text::words(start_line(method, target, protocol)) == seq![word, target, protocol]);
    let line = start_line(method, target, protocol);
    assert(text::blank('\n'));
    assert forall|i: int| 0 <= i < line.len() implies line[i] != '\n' by {
        if i < word.len() {
            assert(line[i] == word[i]);
        } else if i == word.len() {
            assert(line[i] == ' ');
        } else if i < word.len() + 1 + target.len() {
            assert(line[i] == target[i - word.len() - 1]);
        } else if i == word.len() + 1 + target.len() {
            assert(line[i] == ' ');
        } else {
            assert(line[i] == protocol[i - word.len() - target.len() - 2]);
        }
    }
}

pub proof fn lemma_header_pieces(header: (Seq<char>, Seq<char>))
    requires
        plain_header(header),
    ensures
        text::pieces(header_line(header), ':') == seq![header.0, seq![' '] + header.1],
        text::trimmed(seq![' '] + header.1) == header.1,
        !header_line(header).contains('\n'),
        header_line(header).len() > 0,
{
    let line = header_line(header);
    let n = header.0.len() as int;
    let rest = seq![' '] + header.1;
    assert forall|i: int| 0 <= i < n implies text::other_than(':')(#[trigger] line[i]) by {
        assert(line[i] == header.0[i]);
    }
    assert(line[n] == ':');
    text::lemma_span_is(line, text::other_than(':'), n);
    assert(line.take(n) == header.0);
    assert(line.skip(n + 1) == rest);
    assert forall|i: int| 0 <= i < rest.len() implies text::other_than(':')(#[trigger] rest[i]) by {
        if i > 0 {
            assert(rest[i] == header.1[i - 1]);
        }
    }
    text::lemma_span_is(rest, text::other_than(':'), rest.len() as int);
    assert(text::pieces(rest, ':') == seq![rest]);
    assert(text::pieces(line, ':') == seq![header.0, rest]);
    text::lemma_leading_space(header.1);
    assert forall|i: int| 0 <= i < line.len() implies line[i] != '\n' by {
        if i < n {
            assert(line[i] == header.0[i]);
        } else if i >= n + 2 {
            assert(line[i] == header.1[i - n - 2]);
        }
    }
}

proof fn lemma_header_entries(headers: Seq<(Seq<char>, Seq<char>)>)
    requires
        forall|i: int| 0 <= i < headers.len() ==> plain_header(#[trigger] headers[i]),
    ensures
        http_server::header_entries(header_lines(headers)) == set_headers(headers),
    decreases headers.len(),
{
    if headers.len() > 0 {
        let init = headers.drop_last();
        assert forall|i: int| 0 <= i < init.len() implies plain_header(#[trigger] init[i]) by {
            assert(init[i] == headers[i]);
        }
        lemma_header_entries(init);
        assert(header_lines(headers).drop_last() == header_lines(init));
        assert(plain_header(headers[headers.len() - 1]));
        lemma_header_pieces(headers.last());
    }
}

/// Headers with distinct names, set one after the other, are those headers.
pub proof fn law_set_headers(headers: Seq<(Seq<char>, Seq<char>)>)
    requires
        text_map::distinct_keys(headers),
    ensures
        set_headers(headers) == headers,
    decreases headers.len(),
{
    if headers.len() > 0 {
        let init = headers.drop_last();
        law_set_headers(init);
        text_map::lemma_key_position_is(init, headers.last().0, init.len() as int);
        assert(init.push(headers.last()) == headers);
    }
}

/// A request that is sent as text is read with the method, the target, the protocol and the
/// headers that it was sent with, where target and protocol are words and the headers can be
/// carried. Its body is read line by line.
pub proof fn law_request_is_read(
    method: RequestType,
    target: Seq<char>,
    protocol: Seq<char>,
    headers: Seq<(Seq<char>, Seq<char>)>,
    body: Seq<char>,
)
    requires
        text::is_word(target),
        text::is_word(protocol),
        forall|i: int| 0 <= i < headers.len() ==> plain_header(#[trigger] headers[i]),
    ensures
        http_server::parsed_request(request_text(method, target, protocol, headers, body)) == Ok::<
            HttpRequestView,
            Seq<char>,
        >(
            HttpRequestView {
                method,
                request_target: target,
                protocol,
                headers: set_headers(headers),
                body: text::joined(text::lines(body), seq!['\n']),
            },
        ),
{
    let head = head_lines(method, target, protocol, headers);
    let shown = header_lines(headers);
    let content = request_text(method, target, protocol, headers, body);
    lemma_start_words(method, target, protocol);
    assert forall|i: int| 0 <= i < head.len() implies !(#[trigger] head[i]).contains('\n') by {
        if i > 0 && i < head.len() - 1 {
            assert(head[i] == header_line(headers[i - 1]));
            lemma_header_pieces(headers[i - 1]);
        }
    }
    lemma_lines_then(head, body);
    let all = text::lines(content);
    let rest = all.skip(1);
    let n = headers.len() as int;
    assert(all[0] == start_line(method, target, protocol));
    assert(rest == shown + seq![Seq::<char>::empty()] + text::lines(body));
    assert forall|i: int| 0 <= i < n implies (#[trigger] rest[i]).len() > 0 by {
        assert(rest[i] == header_line(headers[i]));
        lemma_header_pieces(headers[i]);
    }
    assert(rest[n].len() == 0);
    http_server::lemma_header_count_is(rest, n);
    assert(rest.take(n) == shown);
    lemma_header_entries(headers);
    assert(rest.skip(n + 1) == text::lines(body));
}

/// A body without a carriage return before a line feed, and without a line feed at its end,
/// is read as it was sent; and so are headers with distinct names.
pub proof fn law_request_is_read_as_sent(
    method: RequestType,
    target: Seq<char>,
    protocol: Seq<char>,
    headers: Seq<(Seq<char>, Seq<char>)>,
    body: Seq<char>,
)
    requires
        text::is_word(target),
        text::is_word(protocol),
        forall|i: int| 0 <= i < headers.len() ==> plain_header(#[trigger] headers[i]),
        text_map::distinct_keys(headers),
        text::has_plain_lines(body),
        body.len() > 0 ==> body.last() != '\n',
    ensures
        http_server::parsed_request(request_text(method, target, protocol, headers, body)) == Ok::<
            HttpRequestView,
            Seq<char>,
        >(HttpRequestView { method, request_target: target, protocol, headers, body }),
{
    law_request_is_read(method, target, protocol, headers, body);
    law_set_headers(headers);
    text::law_lines_join(body);
}

/// The headers that are read have distinct names, and of two lines that set the same header
/// the later one counts; a line without exactly one colon sets none.
pub proof fn law_later_header_counts(lines: Seq<Seq<char>>, line: Seq<char>, name: Seq<char>)
    ensures
        text_map::distinct_keys(http_server::header_entries(lines)),
        ({
            let parts = text::pieces(line, ':');
            let before = http_server::header_entries(lines);
            let after = http_server::header_entries(lines.push(line));
            if parts.len() == 2 {
                &&& text_map::lookup(after, text::trimmed(parts[0])) == Some(
                    text::trimmed(parts[1]),
                )
                &&& name != text::trimmed(parts[0]) ==> text_map::lookup(after, name)
                    == text_map::lookup(before, name)
            } else {
                after == before
            }
        }),
{
    lemma_headers_distinct(lines);
    let parts = text::pieces(line, ':');
    let before = http_server::header_entries(lines);
    assert(lines.push(line).drop_last() == lines);
    if parts.len() == 2 {
        text_map::law_upsert(before, text::trimmed(parts[0]), text::trimmed(parts[1]), name);
    }
}

proof fn lemma_headers_distinct(lines: Seq<Seq<char>>)
    ensures
        text_map::distinct_keys(http_server::header_entries(lines)),
    decreases lines.len(),
{
    if lines.len() > 0 {
        lemma_headers_distinct(lines.drop_last());
        let before = http_server::header_entries(lines.drop_last());
        let parts = text::pieces(lines.last(), ':');
        if parts.len() == 2 {
            text_map::law_upsert(
                before,
                text::trimmed(parts[0]),
                text::trimmed(parts[1]),
                text::trimmed(parts[0]),
            );
        }
    }
}

} // verus!
