//! What is read of a request and written of a response, and which endpoint answers.

use crate::http_server;
use crate::http_server::{
    Callback, ElseCallback, Error, ErrorView, HttpRequest, HttpRequestView, HttpResponse,
    RequestType, Server, ServerContext, StatusCode,
};
use crate::json;
use crate::json::Json;
use crate::request_laws;
use crate::text;
use crate::text_laws;
use crate::text_map;
use vstd::prelude::*;

verus! {

/// One character at least, and none that is blank.
pub open spec fn is_word(s: Seq<char>) -> bool {
    s.len() > 0 && forall|i: int| 0 <= i < s.len() ==> !text::blank(#[trigger] s[i])
}

/// Words with blanks between them, before the first, and after the last; what comes after
/// the last begins with a blank.
pub open spec fn start_line(
    before: Seq<char>,
    method: Seq<char>,
    gap: Seq<char>,
    target: Seq<char>,
    second_gap: Seq<char>,
    protocol: Seq<char>,
    after: Seq<char>,
) -> Seq<char> {
    before + (method + (gap + (target + (second_gap + (protocol + after)))))
}

/// The text of a request: the start line, other lines, an empty line, and a body. Each line
/// ends with a carriage return and a line feed.
pub open spec fn request_text(start: Seq<char>, lines: Seq<Seq<char>>, body: Seq<char>) -> Seq<
    char,
> {
    request_laws::lines_then(seq![start] + lines + seq![Seq::<char>::empty()], body)
}

/// Lines that can stand before the empty line.
pub open spec fn are_head_lines(lines: Seq<Seq<char>>) -> bool {
    forall|i: int|
        0 <= i < lines.len() ==> (#[trigger] lines[i]).len() > 0 && !lines[i].contains('\n')
}

proof fn lemma_gap(gap: Seq<char>, rest: Seq<char>)
    requires
        gap.len() > 0,
        text_laws::all_blank(gap),
    ensures
        text::blank((gap + rest)[0]),
{
    assert(text::blank(gap[0]));
}

/// The words of a start line with three words.
proof fn lemma_three_words(
    before: Seq<char>,
    method: Seq<char>,
    gap: Seq<char>,
    target: Seq<char>,
    second_gap: Seq<char>,
    protocol: Seq<char>,
    after: Seq<char>,
)
    requires
        text_laws::all_blank(before),
        text_laws::all_blank(gap) && gap.len() > 0,
        text_laws::all_blank(second_gap) && second_gap.len() > 0,
        after.len() == 0 || text::blank(after[0]),
        is_word(method) && is_word(target) && is_word(protocol),
    ensures
        text::words(start_line(before, method, gap, target, second_gap, protocol, after)) == seq![
            method,
            target,
            protocol,
        ] + text::words(after),
{
    let third = protocol + after;
    let second = target + (second_gap + third);
    text::lemma_first_word(protocol, after);
    text_laws::lemma_leading_blanks(second_gap, third);
    lemma_gap(second_gap, third);
    text::lemma_first_word(target, second_gap + third);
    text_laws::lemma_leading_blanks(gap, second);
    lemma_gap(gap, second);
    text::lemma_first_word(method, gap + second);
    text_laws::lemma_leading_blanks(before, method + (gap + second));
    assert(text::words(start_line(before, method, gap, target, second_gap, protocol, after))
        == seq![method, target, protocol] + text::words(after));
}

/// The lines of a request's text.
proof fn lemma_request_lines(start: Seq<char>, lines: Seq<Seq<char>>, body: Seq<char>)
    requires
        !start.contains('\n'),
        are_head_lines(lines),
    ensures
        ({
            let all = text::lines(request_text(start, lines, body));
            let rest = all.skip(1);
            &&& all.len() > 0
            &&& all[0] == start
            &&& http_server::header_count(rest) == lines.len()
            &&& rest.take(lines.len() as int) == lines
            &&& http_server::body_lines(rest) == text::lines(body)
        }),
{
    let head = seq![start] + lines + seq![Seq::<char>::empty()];
    assert forall|i: int| 0 <= i < head.len() implies !(#[trigger] head[i]).contains('\n') by {
        if 0 < i && i < head.len() - 1 {
            assert(head[i] == lines[i - 1]);
        }
    }
    request_laws::lemma_lines_then(head, body);
    let all = text::lines(request_text(start, lines, body));
    let rest = all.skip(1);
    let n = lines.len() as int;
    assert(rest == lines + seq![Seq::<char>::empty()] + text::lines(body));
    assert forall|i: int| 0 <= i < n implies (#[trigger] rest[i]).len() > 0 by {
        assert(rest[i] == lines[i]);
    }
    assert(rest[n].len() == 0);
    http_server::lemma_header_count_is(rest, n);
    assert(rest.take(n) == lines);
    assert(rest.skip(n + 1) == text::lines(body));
}

proof fn lemma_parsed(
    before: Seq<char>,
    method: Seq<char>,
    gap: Seq<char>,
    target: Seq<char>,
    second_gap: Seq<char>,
    protocol: Seq<char>,
    after: Seq<char>,
    lines: Seq<Seq<char>>,
    body: Seq<char>,
)
    requires
        text_laws::all_blank(before),
        text_laws::all_blank(gap) && gap.len() > 0,
        text_laws::all_blank(second_gap) && second_gap.len() > 0,
        after.len() == 0 || text::blank(after[0]),
        method == "GET"@ || method == "POST"@,
        is_word(target) && is_word(protocol),
        !start_line(before, method, gap, target, second_gap, protocol, after).contains('\n'),
        are_head_lines(lines),
    ensures
        ({
            let start = start_line(before, method, gap, target, second_gap, protocol, after);
            http_server::parsed_request(request_text(start, lines, body)) == Ok::<
                HttpRequestView,
                Seq<char>,
            >(
                HttpRequestView {
                    method: if method == "GET"@ {
                        RequestType::GET
                    } else {
                        RequestType::POST
                    },
                    request_target: target,
                    protocol,
                    headers: http_server::header_entries(lines),
                    body: text::joined(text::lines(body), seq!['\n']),
                },
            )
        }),
{
    reveal_strlit("GET");
    reveal_strlit("POST");
    assert("GET"@[0] == 'G');
    assert("POST"@[0] == 'P');
    assert(is_word("GET"@));
    assert(is_word("POST"@));
    let start = start_line(before, method, gap, target, second_gap, protocol, after);
    lemma_three_words(before, method, gap, target, second_gap, protocol, after);
    lemma_request_lines(start, lines, body);
    let words = text::words(start);
    assert(words[0] == method);
    assert(words[1] == target);
    assert(words[2] == protocol);
}

/// A request is read with the method, the target and the protocol of its start line, whatever
/// lines stand between it and the empty line, and with all that follows the empty line as
/// its body. (A body of more lines: `law_body_of_lines`.)
pub proof fn law_parse_request(
    before: Seq<char>,
    method: Seq<char>,
    gap: Seq<char>,
    target: Seq<char>,
    second_gap: Seq<char>,
    protocol: Seq<char>,
    after: Seq<char>,
    lines: Seq<Seq<char>>,
    body: Seq<char>,
    content: &str,
    r: Result<HttpRequest, Error>,
)
    requires
        text_laws::all_blank(before),
        text_laws::all_blank(gap) && gap.len() > 0,
        text_laws::all_blank(second_gap) && second_gap.len() > 0,
        after.len() == 0 || text::blank(after[0]),
        method == "GET"@ || method == "POST"@,
        is_word(target) && is_word(protocol),
        !start_line(before, method, gap, target, second_gap, protocol, after).contains('\n'),
        are_head_lines(lines),
        content@ == request_text(
            start_line(before, method, gap, target, second_gap, protocol, after),
            lines,
            body,
        ),
        call_ensures(http_server::parse_http_request, (content,), r),
    ensures
        r matches Ok(request) && {
            &&& request.method == if method == "GET"@ {
                RequestType::GET
            } else {
                RequestType::POST
            }
            &&& request.request_target@ == target
            &&& request.protocol@ == protocol
            &&& lines.len() == 0 ==> request.headers@.len() == 0
            &&& !body.contains('\n') ==> request.body@ == body
            &&& text::has_plain_lines(body) && body.len() > 0 && body.last() != '\n'
                ==> request.body@ == body
        },
{
    lemma_parsed(before, method, gap, target, second_gap, protocol, after, lines, body);
    if !body.contains('\n') {
        assert(text::has_plain_lines(body)) by {
            assert forall|i: int| 0 < i < body.len() && #[trigger] body[i] == '\n' implies body[i
                - 1] != '\r' by {
                assert(body.contains(body[i]));
            }
        }
        if body.len() > 0 {
            assert(body.contains(body[body.len() - 1]));
        }
        text::law_lines_join(body);
    }
    if text::has_plain_lines(body) && body.len() > 0 && body.last() != '\n' {
        text::law_lines_join(body);
    }
}

proof fn lemma_body_of_lines(line: Seq<char>, rest: Seq<char>)
    requires
        !line.contains('\n'),
    ensures
        ({
            let kept = if line.len() > 0 && line.last() == '\r' {
                line.drop_last()
            } else {
                line
            };
            let whole = text::joined(text::lines(line + seq!['\n'] + rest), seq!['\n']);
            &&& rest.len() == 0 ==> whole == kept
            &&& rest.len() > 0 ==> whole == kept + seq!['\n'] + text::joined(
                text::lines(rest),
                seq!['\n'],
            )
        }),
{
    let s = line + seq!['\n'] + rest;
    let n = line.len() as int;
    assert forall|i: int| 0 <= i < n implies text::other_than('\n')(#[trigger] s[i]) by {
        assert(s[i] == line[i]);
        assert(line.contains(line[i]));
    }
    text::lemma_span_is(s, text::other_than('\n'), n);
    assert(s.take(n) == line);
    assert(s.skip(n + 1) == rest);
    let kept = text::without_return(line);
    assert(text::lines(s) == seq![kept] + text::lines(rest));
    if rest.len() > 0 {
        text::lemma_span(rest, text::other_than('\n'));
        assert(text::lines(rest).len() > 0);
        text::lemma_joined_front(kept, text::lines(rest), seq!['\n']);
    } else {
        assert(text::lines(rest) == Seq::<Seq<char>>::empty());
        assert(text::lines(s) == seq![kept]);
    }
}

/// A body that begins with a line is read as that line, without the carriage return that may
/// be part of its ending, and, where something follows, a line feed and what the rest alone
/// would be read as.
pub proof fn law_body_of_lines(
    target: Seq<char>,
    protocol: Seq<char>,
    lines: Seq<Seq<char>>,
    line: Seq<char>,
    rest: Seq<char>,
    content: &str,
    content_rest: &str,
    r: Result<HttpRequest, Error>,
    r_rest: Result<HttpRequest, Error>,
)
    requires
        is_word(target) && is_word(protocol),
        are_head_lines(lines),
        !line.contains('\n'),
        content@ == request_text("POST"@ + (seq![' '] + (target + (seq![' '] + protocol))), lines, line + seq!['\n'] + rest),
        content_rest@ == request_text("POST"@ + (seq![' '] + (target + (seq![' '] + protocol))), lines, rest),
        call_ensures(http_server::parse_http_request, (content,), r),
        call_ensures(http_server::parse_http_request, (content_rest,), r_rest),
    ensures
        r is Ok && r_rest is Ok,
        ({
            let kept = if line.len() > 0 && line.last() == '\r' {
                line.drop_last()
            } else {
                line
            };
            &&& rest.len() == 0 ==> r->Ok_0.body@ == kept
            &&& rest.len() > 0 ==> r->Ok_0.body@ == kept + seq!['\n'] + r_rest->Ok_0.body@
        }),
{
    lemma_plain_start("POST"@, target, protocol, lines, line + seq!['\n'] + rest);
    lemma_plain_start("POST"@, target, protocol, lines, rest);
    lemma_body_of_lines(line, rest);
}

/// A start line with single spaces between its words.
proof fn lemma_plain_start(
    method: Seq<char>,
    target: Seq<char>,
    protocol: Seq<char>,
    lines: Seq<Seq<char>>,
    body: Seq<char>,
)
    requires
        method == "GET"@ || method == "POST"@,
        is_word(target) && is_word(protocol),
        are_head_lines(lines),
    ensures
        http_server::parsed_request(
            request_text(method + (seq![' '] + (target + (seq![' '] + protocol))), lines, body),
        ) == Ok::<HttpRequestView, Seq<char>>(
            HttpRequestView {
                method: if method == "GET"@ {
                    RequestType::GET
                } else {
                    RequestType::POST
                },
                request_target: target,
                protocol,
                headers: http_server::header_entries(lines),
                body: text::joined(text::lines(body), seq!['\n']),
            },
        ),
{
    reveal_strlit("GET");
    reveal_strlit("POST");
    let empty = Seq::<char>::empty();
    let plain = method + (seq![' '] + (target + (seq![' '] + protocol)));
    assert(start_line(empty, method, seq![' '], target, seq![' '], protocol, empty) == plain);
    assert(text::blank(' '));
    assert(text::blank('\n'));
    assert forall|i: int| 0 <= i < plain.len() implies plain[i] != '\n' by {
        if i < method.len() {
            assert(plain[i] == method[i]);
        } else if i == method.len() {
            assert(plain[i] == ' ');
        } else if i < method.len() + 1 + target.len() {
            assert(plain[i] == target[i - method.len() - 1]);
        } else if i == method.len() + 1 + target.len() {
            assert(plain[i] == ' ');
        } else {
            assert(plain[i] == protocol[i - method.len() - target.len() - 2]);
        }
    }
    lemma_parsed(empty, method, seq![' '], target, seq![' '], protocol, empty, lines, body);
}

/// The entries after a name was given a value: in the place of the name, or at the end.
pub open spec fn entries_with(
    before: Seq<(Seq<char>, Seq<char>)>,
    name: Seq<char>,
    value: Seq<char>,
    after: Seq<(Seq<char>, Seq<char>)>,
) -> bool {
    ||| (forall|i: int| 0 <= i < before.len() ==> (#[trigger] before[i]).0 != name) && after
        == before.push((name, value))
    ||| exists|i: int|
        0 <= i < before.len() && (#[trigger] before[i]).0 == name && after == before.update(
            i,
            (name, value),
        )
}

/// Another line before the empty line sets the header that it names, where it has exactly one
/// colon: the name is what is before the colon and the value what is after it, both without
/// blanks around them. With no colon, or with more than one, it sets none. Nothing else
/// changes.
pub proof fn law_header_line(
    target: Seq<char>,
    protocol: Seq<char>,
    lines: Seq<Seq<char>>,
    line: Seq<char>,
    body: Seq<char>,
    a: Seq<char>,
    name: Seq<char>,
    b: Seq<char>,
    c: Seq<char>,
    value: Seq<char>,
    d: Seq<char>,
    content: &str,
    content_more: &str,
    r: Result<HttpRequest, Error>,
    r_more: Result<HttpRequest, Error>,
)
    requires
        is_word(target) && is_word(protocol),
        are_head_lines(lines),
        line.len() > 0 && !line.contains('\n'),
        content@ == request_text("POST"@ + (seq![' '] + (target + (seq![' '] + protocol))), lines, body),
        content_more@ == request_text("POST"@ + (seq![' '] + (target + (seq![' '] + protocol))), lines.push(line), body),
        call_ensures(http_server::parse_http_request, (content,), r),
        call_ensures(http_server::parse_http_request, (content_more,), r_more),
    ensures
        r is Ok && r_more is Ok,
        r_more->Ok_0.body@ == r->Ok_0.body@,
        r_more->Ok_0.request_target@ == target,
        line == (a + name + b) + seq![':'] + (c + value + d) && text_laws::all_blank(a)
            && text_laws::all_blank(b) && text_laws::all_blank(c) && text_laws::all_blank(d)
            && !name.contains(':') && !value.contains(':') && (name.len() == 0 || (!text::blank(
            name[0],
        ) && !text::blank(name.last()))) && (value.len() == 0 || (!text::blank(value[0])
            && !text::blank(value.last()))) ==> entries_with(
            r->Ok_0.headers@,
            name,
            value,
            r_more->Ok_0.headers@,
        ),
        !line.contains(':') ==> r_more->Ok_0.headers@ == r->Ok_0.headers@,
        (exists|i: int, j: int|
            0 <= i < j < line.len() && #[trigger] line[i] == ':' && #[trigger] line[j] == ':')
            ==> r_more->Ok_0.headers@ == r->Ok_0.headers@,
{
    let more = lines.push(line);
    assert(are_head_lines(more)) by {
        assert forall|i: int| 0 <= i < more.len() implies (#[trigger] more[i]).len() > 0
            && !more[i].contains('\n') by {
            if i < lines.len() {
                assert(more[i] == lines[i]);
            }
        }
    }
    lemma_plain_start("POST"@, target, protocol, lines, body);
    lemma_plain_start("POST"@, target, protocol, more, body);
    assert(more.drop_last() == lines);
    assert(more.last() == line);
    let before = http_server::header_entries(lines);
    let parts = text::pieces(line, ':');
    if line == (a + name + b) + seq![':'] + (c + value + d) && text_laws::all_blank(a)
        && text_laws::all_blank(b) && text_laws::all_blank(c) && text_laws::all_blank(d)
        && !name.contains(':') && !value.contains(':') && (name.len() == 0 || (!text::blank(name[0])
        && !text::blank(name.last()))) && (value.len() == 0 || (!text::blank(value[0])
        && !text::blank(value.last()))) {
        lemma_no_colon(a, name, b);
        lemma_no_colon(c, value, d);
        lemma_two_pieces(a + name + b, c + value + d);
        text_laws::lemma_trimmed_core(a, name, b);
        text_laws::lemma_trimmed_core(c, value, d);
        text_map::lemma_key_position(before, name);
        let i = text_map::key_position(before, name) as int;
        if i < before.len() {
            assert(before[i].0 == name);
        }
    }
    if !line.contains(':') {
        lemma_one_piece(line);
    }
    if exists|i: int, j: int|
        0 <= i < j < line.len() && #[trigger] line[i] == ':' && #[trigger] line[j] == ':' {
        let (i, j) = choose|i: int, j: int|
            0 <= i < j < line.len() && #[trigger] line[i] == ':' && #[trigger] line[j] == ':';
        lemma_more_pieces(line, i, j);
    }
}

proof fn lemma_no_colon(a: Seq<char>, core: Seq<char>, b: Seq<char>)
    requires
        text_laws::all_blank(a) && text_laws::all_blank(b),
        !core.contains(':'),
    ensures
        !(a + core + b).contains(':'),
{
    let s = a + core + b;
    assert(!text::blank(':'));
    assert forall|i: int| 0 <= i < s.len() implies s[i] != ':' by {
        if i < a.len() {
            assert(s[i] == a[i]);
            assert(text::blank(a[i]));
        } else if i < a.len() + core.len() {
            assert(s[i] == core[i - a.len()]);
            assert(core.contains(core[i - a.len()]));
        } else {
            assert(s[i] == b[i - a.len() - core.len()]);
            assert(text::blank(b[i - a.len() - core.len()]));
        }
    }
}

proof fn lemma_one_piece(s: Seq<char>)
    requires
        !s.contains(':'),
    ensures
        text::pieces(s, ':') == seq![s],
{
    assert forall|i: int| 0 <= i < s.len() implies text::other_than(':')(#[trigger] s[i]) by {
        assert(s.contains(s[i]));
    }
    text::lemma_span_is(s, text::other_than(':'), s.len() as int);
}

proof fn lemma_two_pieces(first: Seq<char>, second: Seq<char>)
    requires
        !first.contains(':'),
        !second.contains(':'),
    ensures
        text::pieces(first + seq![':'] + second, ':') == seq![first, second],
{
    let s = first + seq![':'] + second;
    let n = first.len() as int;
    assert forall|i: int| 0 <= i < n implies text::other_than(':')(#[trigger] s[i]) by {
        assert(s[i] == first[i]);
        assert(first.contains(first[i]));
    }
    text::lemma_span_is(s, text::other_than(':'), n);
    assert(s.take(n) == first);
    assert(s.skip(n + 1) == second);
    lemma_one_piece(second);
    assert(text::pieces(s, ':') == seq![first, second]);
}

proof fn lemma_more_pieces(s: Seq<char>, i: int, j: int)
    requires
        0 <= i < j < s.len(),
        s[i] == ':' && s[j] == ':',
    ensures
        text::pieces(s, ':').len() > 2,
{
    text::lemma_span(s, text::other_than(':'));
    let n = text::span(s, text::other_than(':')) as int;
    if i < n {
        assert(text::other_than(':')(s[i]));
    }
    let rest = s.skip(n + 1);
    assert(rest[j - n - 1] == ':');
    text::lemma_span(rest, text::other_than(':'));
    let m = text::span(rest, text::other_than(':')) as int;
    if j - n - 1 < m {
        assert(text::other_than(':')(rest[j - n - 1]));
    }
    text::law_split_join(rest.skip(m + 1), ':');
    assert(text::pieces(rest, ':') == seq![rest.take(m)] + text::pieces(rest.skip(m + 1), ':'));
}

/// What is no request is refused for the given reason.
pub open spec fn refused_for(r: Result<HttpRequest, Error>, reason: Seq<char>) -> bool {
    r is Err && r->Err_0@ == ErrorView::InvalidRequest(reason)
}

/// A text that is no request is refused for the first thing that is missing: the text is
/// empty, the first line has no word, its first word is no method that is known, or it has
/// only one or two words.
pub proof fn law_parse_errors(
    first: Seq<char>,
    rest: Seq<char>,
    before: Seq<char>,
    method: Seq<char>,
    gap: Seq<char>,
    target: Seq<char>,
    after: Seq<char>,
    content: &str,
    r: Result<HttpRequest, Error>,
)
    requires
        call_ensures(http_server::parse_http_request, (content,), r),
        !first.contains('\n'),
        content@ == first && rest.len() == 0 || content@ == first + seq!['\n'] + rest,
        first.len() > 0 ==> first.last() != '\r',
        text_laws::all_blank(before),
        text_laws::all_blank(gap),
        text_laws::all_blank(after),
        is_word(method),
        is_word(target),
    ensures
        content@.len() == 0 ==> refused_for(r, 
            "Empty request"@,
        ),
        content@.len() > 0 && first == before ==> refused_for(r, "Missing HTTP method"@),
        first == before + (method + (gap + target)) && gap.len() > 0 && method != "GET"@ && method
            != "POST"@ ==> refused_for(r, 
            "Unsupported HTTP method: "@ + method,
        ),
        first == before + (method + after) && method != "GET"@ && method != "POST"@
            ==> refused_for(r, 
            "Unsupported HTTP method: "@ + method,
        ),
        first == before + (method + after) && (method == "GET"@ || method == "POST"@)
            ==> refused_for(r, "Missing request target"@),
        first == before + (method + (gap + (target + after))) && gap.len() > 0 && (method == "GET"@
            || method == "POST"@) ==> refused_for(r, 
            "Missing HTTP protocol"@,
        ),
{
    let all = text::lines(content@);
    if content@.len() > 0 {
        lemma_first_of_lines(first, rest, content@);
    }
    let empty = Seq::<char>::empty();
    assert(text::trim_start(empty) == empty);
    assert(text::words(empty) == Seq::<Seq<char>>::empty());
    text_laws::lemma_leading_blanks(before, empty);
    assert(before + empty == before);
    text_laws::lemma_leading_blanks(after, empty);
    assert(after + empty == after);
    if after.len() > 0 {
        assert(text::blank(after[0]));
    }
    if first == before + (method + (gap + target)) && gap.len() > 0 {
        lemma_gap(gap, target);
        text::lemma_first_word(method, gap + target);
        text_laws::lemma_leading_blanks(before, method + (gap + target));
        assert(text::words(first)[0] == method);
    }
    if first == before + (method + after) {
        text::lemma_first_word(method, after);
        text_laws::lemma_leading_blanks(before, method + after);
        assert(text::words(first) == seq![method]);
    }
    if first == before + (method + (gap + (target + after))) && gap.len() > 0 {
        text::lemma_first_word(target, after);
        text_laws::lemma_leading_blanks(gap, target + after);
        lemma_gap(gap, target + after);
        text::lemma_first_word(method, gap + (target + after));
        text_laws::lemma_leading_blanks(before, method + (gap + (target + after)));
        assert(text::words(first) == seq![method, target]);
    }
}

proof fn lemma_first_of_lines(first: Seq<char>, rest: Seq<char>, s: Seq<char>)
    requires
        s.len() > 0,
        !first.contains('\n'),
        s == first && rest.len() == 0 || s == first + seq!['\n'] + rest,
        first.len() > 0 ==> first.last() != '\r',
    ensures
        text::lines(s).len() > 0,
        text::lines(s)[0] == first,
{
    let n = first.len() as int;
    assert forall|i: int| 0 <= i < n implies text::other_than('\n')(#[trigger] s[i]) by {
        assert(s[i] == first[i]);
        assert(first.contains(first[i]));
    }
    text::lemma_span_is(s, text::other_than('\n'), n);
    assert(s.take(n) == first);
}

/// Bytes are read as the text that they spell is, and the server gives the target of such a
/// request a slash at its end where it has none.
pub proof fn law_bytes_are_read<T: ServerContext, C: Callback<T>, E: ElseCallback>(
    bytes: &[u8],
    content: &str,
    r: Result<HttpRequest, Error>,
    r_bytes: Result<HttpRequest, Error>,
    r_server: Result<HttpRequest, Error>,
)
    requires
        content@ == text::utf8_lossy(bytes@),
        call_ensures(http_server::parse_http_request, (content,), r),
        call_ensures(http_server::read_http_request, (bytes,), r_bytes),
        call_ensures(Server::<T, C, E>::receive, (bytes,), r_server),
    ensures
        match r {
            Ok(request) => {
                &&& r_bytes is Ok && r_bytes->Ok_0@ == request@
                &&& r_server is Ok && r_server->Ok_0.method == request.method
                &&& r_server->Ok_0.protocol@ == request.protocol@
                &&& r_server->Ok_0.headers@ == request.headers@
                &&& r_server->Ok_0.body@ == request.body@
                &&& r_server->Ok_0.request_target@.len() > 0
                &&& r_server->Ok_0.request_target@.last() == '/'
                &&& r_server->Ok_0.request_target@ == request.request_target@
                    || r_server->Ok_0.request_target@ == request.request_target@.push('/')
                &&& request.request_target@.len() > 0 && request.request_target@.last() == '/'
                    ==> r_server->Ok_0.request_target@ == request.request_target@
            },
            Err(e) => r_bytes is Err && r_bytes->Err_0@ == e@ && r_server is Err
                && r_server->Err_0@ == e@,
        },
{
}

/// A relative URL keeps its slash at the end, and gets one where it has none.
pub proof fn law_relative_url(url: &str, r: Option<String>)
    requires
        call_ensures(http_server::format_relative_url, (url,), r),
    ensures
        r is Some,
        url@.len() > 0 && url@.last() == '/' ==> r->0@ == url@,
        url@.len() == 0 || url@.last() != '/' ==> r->0@ == url@ + seq!['/'],
{
}

/// Two status codes have words of their own, and all others have the same.
pub proof fn law_status_words(status_code: StatusCode, r: String)
    requires
        call_ensures(http_server::format_status_code_message, (status_code,), r),
    ensures
        status_code == 200 ==> r@ == "200 OK"@,
        status_code == 404 ==> r@ == "404 Not Found"@,
        status_code != 200 && status_code != 404 ==> r@ == "42 Misc"@,
{
}

/// The message of an error names it and quotes its whole text.
pub proof fn law_error_message(error: Error, r: String)
    requires
        call_ensures(Error::message, (&error,), r),
    ensures
        match error@ {
            ErrorView::ConnectionFailed(detail) => r@ == "HTTP Server Error: "@
                + "ConnectionFailed"@ + "("@ + text::quoted(detail) + ")"@,
            ErrorView::IOError(detail) => r@ == "HTTP Server Error: "@ + "IOError"@ + "("@
                + text::quoted(detail) + ")"@,
            ErrorView::InvalidRequest(detail) => r@ == "HTTP Server Error: "@
                + "InvalidRequest"@ + "("@ + text::quoted(detail) + ")"@,
            ErrorView::InvalidRequestEndpoint(detail) => r@ == "HTTP Server Error: "@
                + "InvalidRequestEndpoint"@ + "("@ + text::quoted(detail) + ")"@,
            ErrorView::InvalidEndpoint(detail) => r@ == "HTTP Server Error: "@
                + "InvalidEndpoint"@ + "("@ + text::quoted(detail) + ")"@,
        },
{
}

/// The message for an error brings the name and the text that it is given, whole.
pub proof fn law_format_error(name: &str, quoted_text: &str, r: String)
    requires
        call_ensures(http_server::format_error, (name, quoted_text), r),
    ensures
        r@ == "HTTP Server Error: "@ + (name@ + "("@ + quoted_text@ + ")"@),
{
}

/// A text as the body changes nothing but the body; a document as the body is its JSON text,
/// and the only header that it sets is the content type.
pub proof fn law_response_bodies(
    response: HttpResponse,
    body: &str,
    document: Json,
    content: String,
    other: Seq<char>,
    r_text: HttpResponse,
    r_json: HttpResponse,
    r_body: HttpResponse,
)
    requires
        call_ensures(HttpResponse::text, (response, body), r_text),
        call_ensures(HttpResponse::json, (response, &document), r_json),
        call_ensures(HttpResponse::json_body, (response, content), r_body),
        content@ == json::json_text(document@),
    ensures
        r_text.body@ == body@,
        r_text.status_code == response.status_code,
        r_text.headers@ == response.headers@,
        r_json.body@ == json::json_text(document@),
        r_json.status_code == response.status_code,
        r_body@ == r_json@,
        entries_with(
            response.headers@,
            "Content-Type"@,
            "application/json"@,
            r_json.headers@,
        ),
{
    let before = response.headers@;
    text_map::lemma_key_position(before, "Content-Type"@);
    let i = text_map::key_position(before, "Content-Type"@) as int;
    if i < before.len() {
        assert(before[i].0 == "Content-Type"@);
    }
}

/// The responses to begin with have no headers and no body.
pub proof fn law_plain_responses(new: HttpResponse, ok: HttpResponse, not_found: HttpResponse)
    requires
        call_ensures(HttpResponse::new, (), new),
        call_ensures(HttpResponse::ok, (), ok),
        call_ensures(HttpResponse::not_found, (), not_found),
    ensures
        new.status_code == 0 && ok.status_code == 200 && not_found.status_code == 404,
        new.headers@.len() == 0 && ok.headers@.len() == 0 && not_found.headers@.len() == 0,
        new.body@.len() == 0 && ok.body@.len() == 0 && not_found.body@.len() == 0,
{
}

/// The lines that headers are written as.
pub open spec fn header_lines(headers: Seq<(Seq<char>, Seq<char>)>) -> Seq<Seq<char>> {
    headers.map_values(|header: (Seq<char>, Seq<char>)| header.0 + seq![':', ' '] + header.1)
}

proof fn lemma_lines_then_last(lines: Seq<Seq<char>>, line: Seq<char>, rest: Seq<char>)
    ensures
        request_laws::lines_then(lines.push(line), rest) == request_laws::lines_then(
            lines,
            line + seq!['\r', '\n'] + rest,
        ),
    decreases lines.len(),
{
    let all = lines.push(line);
    if lines.len() > 0 {
        lemma_lines_then_last(lines.skip(1), line, rest);
        assert(all.skip(1) == lines.skip(1).push(line));
        assert(all[0] == lines[0]);
    } else {
        assert(all.skip(1) == Seq::<Seq<char>>::empty());
        assert(request_laws::lines_then(all.skip(1), rest) == rest);
        assert(request_laws::lines_then(lines, line + seq!['\r', '\n'] + rest) == line + seq![
            '\r',
            '\n',
        ] + rest);
    }
}

proof fn lemma_header_text(headers: Seq<(Seq<char>, Seq<char>)>, rest: Seq<char>)
    ensures
        http_server::header_text(headers) + rest == request_laws::lines_then(
            header_lines(headers),
            rest,
        ),
    decreases headers.len(),
{
    reveal_strlit(": ");
    reveal_strlit("\r\n");
    assert(": "@ == seq![':', ' ']);
    assert("\r\n"@ == seq!['\r', '\n']);
    if headers.len() > 0 {
        let last = headers.last();
        let line = last.0 + seq![':', ' '] + last.1;
        lemma_header_text(headers.drop_last(), line + seq!['\r', '\n'] + rest);
        assert(header_lines(headers) == header_lines(headers.drop_last()).push(line));
        lemma_lines_then_last(header_lines(headers.drop_last()), line, rest);
        assert(http_server::header_text(headers) + rest == http_server::header_text(
            headers.drop_last(),
        ) + (line + seq!['\r', '\n'] + rest));
    } else {
        assert(header_lines(headers) == Seq::<Seq<char>>::empty());
        assert(http_server::header_text(headers) + rest == rest);
    }
}

/// The line with which a response begins.
pub open spec fn status_line(status_code: StatusCode) -> Seq<char> {
    "HTTP/1.1 "@ + if status_code == 200 {
        "200 OK"@
    } else if status_code == 404 {
        "404 Not Found"@
    } else {
        "42 Misc"@
    }
}

proof fn lemma_written(response: http_server::HttpResponseView, length: Seq<Seq<char>>)
    requires
        length.len() <= 1,
        length.len() == 0 ==> http_server::length_text(response) == Seq::<char>::empty(),
        length.len() == 1 ==> http_server::length_text(response) == length[0] + seq!['\r', '\n'],
    ensures
        http_server::response_text(response) == request_laws::lines_then(
            seq![status_line(response.status_code)] + header_lines(response.headers) + length
                + seq![Seq::<char>::empty()],
            response.body,
        ),
{
    reveal_strlit("\r\n");
    let crlf = seq!['\r', '\n'];
    assert("\r\n"@ == crlf);
    let empty = Seq::<char>::empty();
    let start = status_line(response.status_code);
    let shown = header_lines(response.headers);
    let end = empty + crlf + response.body;
    let tail = http_server::length_text(response) + end;
    let head = seq![start] + shown;
    lemma_header_text(response.headers, tail);
    let parts = head + length + seq![empty];
    assert(parts == (head + length).push(empty));
    lemma_lines_then_last(head + length, empty, response.body);
    if length.len() == 1 {
        assert(head + length == head.push(length[0]));
        lemma_lines_then_last(head, length[0], end);
        assert(tail == length[0] + crlf + end);
    } else {
        assert(head + length == head);
        assert(tail == end);
    }
    assert(head.skip(1) == shown);
    assert(request_laws::lines_then(head, tail) == start + crlf + request_laws::lines_then(
        shown,
        tail,
    ));
    assert(http_server::response_text(response) == start + crlf + (http_server::header_text(
        response.headers,
    ) + tail));
}

/// A response is written as lines, each ended with a carriage return and a line feed: the
/// status, the headers in their order, the length of the body where no header gives it, and
/// an empty line; and then the body, whole. The length is in decimal, and it is the number
/// of bytes of what follows the empty line.
pub proof fn law_response_is_written(response: HttpResponse, r: Result<String, Error>) -> (length:
    Seq<char>)
    requires
        call_ensures(http_server::format_http_response, (response,), r),
    ensures
        r is Ok,
        text_laws::is_decimal(length),
        text_laws::value_of(length) == vstd::utf8::encode_utf8(response.body@).len(),
        (forall|i: int|
            0 <= i < response.headers@.len() ==> (#[trigger] response.headers@[i]).0
                != "Content-Length"@) ==> r->Ok_0@ == request_laws::lines_then(
            seq![status_line(response.status_code)] + header_lines(response.headers@) + seq![
                "Content-Length: "@ + length,
            ] + seq![Seq::<char>::empty()],
            response.body@,
        ),
        (exists|i: int|
            0 <= i < response.headers@.len() && (#[trigger] response.headers@[i]).0
                == "Content-Length"@) ==> r->Ok_0@ == request_laws::lines_then(
            seq![status_line(response.status_code)] + header_lines(response.headers@) + seq![
                Seq::<char>::empty(),
            ],
            response.body@,
        ),
{
    reveal_strlit("\r\n");
    assert("\r\n"@ == seq!['\r', '\n']);
    let n = vstd::utf8::encode_utf8(response.body@).len();
    let length = text::decimal(n);
    text_laws::lemma_decimal(n);
    let line = "Content-Length: "@ + length;
    if exists|i: int|
        0 <= i < response.headers@.len() && (#[trigger] response.headers@[i]).0
            == "Content-Length"@ {
        lemma_written(response@, seq![]);
        assert(seq![status_line(response.status_code)] + header_lines(response.headers@)
            + Seq::<Seq<char>>::empty() + seq![Seq::<char>::empty()] == seq![
            status_line(response.status_code),
        ] + header_lines(response.headers@) + seq![Seq::<char>::empty()]);
    } else {
        lemma_written(response@, seq![line]);
    }
    length
}

/// What is written for a response is read back line by line: the status, the headers, the
/// length, an empty line; and what follows are the lines of the body. (The headers hold no
/// line feed.)
pub proof fn law_response_is_read_back(
    response: HttpResponse,
    r: Result<String, Error>,
    chars: Vec<char>,
    lines: Vec<Vec<char>>,
)
    requires
        call_ensures(http_server::format_http_response, (response,), r),
        r is Ok && chars@ == r->Ok_0@,
        call_ensures(text::split_lines, (&chars,), lines),
        forall|i: int|
            0 <= i < response.headers@.len() ==> (#[trigger] response.headers@[i]).0
                != "Content-Length"@ && !response.headers@[i].0.contains('\n')
                && !response.headers@[i].1.contains('\n'),
    ensures
        ({
            let n = response.headers@.len() as int;
            &&& lines@.len() >= n + 3
            &&& lines@[0]@ == status_line(response.status_code)
            &&& forall|i: int|
                0 <= i < n ==> (#[trigger] lines@[i + 1])@ == response.headers@[i].0 + seq![
                    ':',
                    ' ',
                ] + response.headers@[i].1
            &&& exists|length: Seq<char>|
                #[trigger] text_laws::is_decimal(length) && text_laws::value_of(length)
                    == vstd::utf8::encode_utf8(response.body@).len() && lines@[n + 1]@
                    == "Content-Length: "@ + length
            &&& lines@[n + 2]@.len() == 0
        }),
{
    let length = law_response_is_written(response, r);
    let n = response.headers@.len() as int;
    let shown = header_lines(response.headers@);
    let line = "Content-Length: "@ + length;
    let head = seq![status_line(response.status_code)] + shown + seq![line] + seq![
        Seq::<char>::empty(),
    ];
    reveal_strlit("HTTP/1.1 ");
    reveal_strlit("200 OK");
    reveal_strlit("404 Not Found");
    reveal_strlit("42 Misc");
    reveal_strlit("Content-Length: ");
    assert forall|i: int| 0 <= i < head.len() implies !(#[trigger] head[i]).contains('\n') by {
        if i == 0 {
            assert(!status_line(response.status_code).contains('\n'));
        } else if i <= n {
            let header = response.headers@[i - 1];
            assert(head[i] == header.0 + seq![':', ' '] + header.1);
            assert forall|j: int| 0 <= j < head[i].len() implies head[i][j] != '\n' by {
                if j < header.0.len() {
                    assert(header.0.contains(header.0[j]));
                } else if j >= header.0.len() + 2 {
                    assert(header.1.contains(header.1[j - header.0.len() - 2]));
                }
            }
        } else if i == n + 1 {
            assert(head[i] == line);
            assert forall|j: int| 0 <= j < line.len() implies line[j] != '\n' by {
                if j >= "Content-Length: "@.len() {
                    assert(line[j] == length[j - "Content-Length: "@.len()]);
                    assert('0' <= length[j - "Content-Length: "@.len()] <= '9');
                }
            }
        }
    }
    request_laws::lemma_lines_then(head, response.body@);
    let all = text::texts(lines@);
    assert(all == head + text::lines(response.body@));
    assert forall|i: int| 0 <= i < head.len() implies (#[trigger] lines@[i])@ == head[i] by {
        assert(all[i] == head[i]);
    }
    assert(lines@[0]@ == head[0]);
    assert(lines@[n + 1]@ == head[n + 1]);
    assert(lines@[n + 2]@ == head[n + 2]);
    assert forall|i: int| 0 <= i < n implies (#[trigger] lines@[i + 1])@ == response.headers@[i].0
        + seq![':', ' '] + response.headers@[i].1 by {
        assert(head[i + 1] == shown[i]);
    }
}

/// An endpoint that is set is answered by what was given for it, in the place of the one
/// before or as the last; the other endpoints, what answers every other request, and the
/// context stay as they are.
pub proof fn law_with_endpoint<T: ServerContext, C: Callback<T>, E: ElseCallback>(
    server: Server<T, C, E>,
    target: &str,
    callback: C,
    r: Result<Server<T, C, E>, Error>,
    key: Seq<char>,
)
    requires
        call_ensures(Server::<T, C, E>::with_endpoint, (server, target, callback), r),
        key == if target@.len() > 0 && target@.last() == '/' {
            target@
        } else {
            target@ + seq!['/']
        },
    ensures
        r is Ok,
        r->Ok_0.context == server.context,
        r->Ok_0.fallback() == server.fallback(),
        (forall|i: int| 0 <= i < server.routes().len() ==> (#[trigger] server.routes()[i]).0 != key)
            ==> r->Ok_0.routes() == server.routes().push((key, callback)),
        forall|i: int|
            0 <= i < server.routes().len() && (#[trigger] server.routes()[i]).0 == key && (forall|
                j: int,
            |
                0 <= j < i ==> (#[trigger] server.routes()[j]).0 != key) ==> r->Ok_0.routes()
                == server.routes().update(i, (key, callback)),
{
    let routes = server.routes();
    assert(key == http_server::relative_url(target@));
    if forall|i: int| 0 <= i < routes.len() ==> (#[trigger] routes[i]).0 != key {
        text_map::lemma_key_position_is(routes, key, routes.len() as int);
    }
    assert forall|i: int|
        0 <= i < routes.len() && (#[trigger] routes[i]).0 == key && (forall|j: int|
            0 <= j < i ==> (#[trigger] routes[j]).0 != key) implies r->Ok_0.routes()
        == routes.update(i, (key, callback)) by {
        text_map::lemma_key_position_is(routes, key, i);
    }
}

/// A request is answered by the endpoint that its target is that of; with another target it
/// is answered by what was set for every other request, or not found where nothing was, and
/// the context stays as it is.
pub proof fn law_dispatch<T: ServerContext, C: Callback<T>, E: ElseCallback>(
    server: &mut Server<T, C, E>,
    request: HttpRequest,
    response: HttpResponse,
    at: int,
)
    requires
        call_ensures(Server::<T, C, E>::dispatch, (server, request), response),
    ensures
        final(server).routes() == old(server).routes(),
        final(server).fallback() == old(server).fallback(),
        0 <= at < old(server).routes().len() && old(server).routes()[at].0
            == request.request_target@ && (forall|j: int|
            0 <= j < at ==> (#[trigger] old(server).routes()[j]).0 != request.request_target@)
            ==> old(server).routes()[at].1.answers(
            request@,
            old(server).context,
            final(server).context,
            response@,
        ),
        (forall|j: int|
            0 <= j < old(server).routes().len() ==> (#[trigger] old(server).routes()[j]).0
                != request.request_target@) ==> {
            &&& final(server).context == old(server).context
            &&& old(server).fallback() matches Some(callback) ==> callback.answers_else(
                request@,
                response@,
            )
            &&& old(server).fallback() is None ==> response.status_code == 404
                && response.headers@.len() == 0 && response.body@.len() == 0
        },
{
    let routes = old(server).routes();
    let target = request.request_target@;
    if 0 <= at < routes.len() && routes[at].0 == target && (forall|j: int|
        0 <= j < at ==> (#[trigger] routes[j]).0 != target) {
        text_map::lemma_key_position_is(routes, target, at);
    }
    if forall|j: int| 0 <= j < routes.len() ==> (#[trigger] routes[j]).0 != target {
        text_map::lemma_key_position_is(routes, target, routes.len() as int);
    }
}

/// A server begins without endpoints and with its context; what is set to answer every other
/// request replaces what was set before, and nothing else.
pub proof fn law_server_parts<T: ServerContext, C: Callback<T>, E: ElseCallback>(
    context: T,
    new: Server<T, C, E>,
    server: Server<T, C, E>,
    handle: E,
    r: Server<T, C, E>,
)
    requires
        call_ensures(Server::<T, C, E>::new, (context,), new),
        call_ensures(Server::<T, C, E>::with_else_handle, (server, handle), r),
    ensures
        new.routes().len() == 0 && new.fallback() is None && new.context == context,
        r.routes() == server.routes() && r.context == server.context,
        r.fallback() == Some(handle),
{
}

/// Copies of requests, responses and headers say what these say.
pub proof fn law_copied_messages(
    request: HttpRequest,
    response: HttpResponse,
    headers: text_map::TextMap,
    copied_request: HttpRequest,
    copied_response: HttpResponse,
    copied_headers: text_map::TextMap,
)
    requires
        call_ensures(<HttpRequest as Clone>::clone, (&request,), copied_request),
        call_ensures(<HttpResponse as Clone>::clone, (&response,), copied_response),
        call_ensures(<text_map::TextMap as Clone>::clone, (&headers,), copied_headers),
    ensures
        copied_request.method == request.method,
        copied_request.request_target@ == request.request_target@,
        copied_request.protocol@ == request.protocol@,
        copied_request.headers@ == request.headers@,
        copied_request.body@ == request.body@,
        copied_response.headers@ == response.headers@,
        copied_response.status_code == response.status_code,
        copied_response.body@ == response.body@,
        copied_headers@ == headers@,
{
}

} // verus!
