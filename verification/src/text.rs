//! Text as a sequence of characters: lines, words, pieces, trimming, joining and
//! decimal numbers.

use vstd::prelude::*;

verus! {

/// The characters with the Unicode property `White_Space`.
pub open spec fn blank(c: char) -> bool {
    let n = c as u32;
    ||| 0x09 <= n <= 0x0d
    ||| n == 0x20
    ||| n == 0x85
    ||| n == 0xa0
    ||| n == 0x1680
    ||| 0x2000 <= n <= 0x200a
    ||| n == 0x2028
    ||| n == 0x2029
    ||| n == 0x202f
    ||| n == 0x205f
    ||| n == 0x3000
}

/// The number of leading characters of `s` that `p` holds of.
pub open spec fn span(s: Seq<char>, p: spec_fn(char) -> bool) -> nat
    decreases s.len(),
{
    if s.len() > 0 && p(s[0]) {
        1 + span(s.skip(1), p)
    } else {
        0
    }
}

/// Holds of every character but `sep`.
pub open spec fn other_than(sep: char) -> spec_fn(char) -> bool {
    |c: char| c != sep
}

/// Holds of every blank character.
pub open spec fn is_blank() -> spec_fn(char) -> bool {
    |c: char| blank(c)
}

/// Holds of every character that is not blank.
pub open spec fn not_blank() -> spec_fn(char) -> bool {
    |c: char| !blank(c)
}

/// The pieces of `s` between the occurrences of `sep`: one more than there are
/// occurrences.
pub open spec fn pieces(s: Seq<char>, sep: char) -> Seq<Seq<char>>
    decreases s.len(),
    via pieces_shrink
{
    let n = span(s, other_than(sep)) as int;
    if n >= s.len() {
        seq![s]
    } else {
        seq![s.take(n)] + pieces(s.skip(n + 1), sep)
    }
}

/// `s` without one carriage return at its end.
pub open spec fn without_return(s: Seq<char>) -> Seq<char> {
    if s.len() > 0 && s.last() == '\r' {
        s.drop_last()
    } else {
        s
    }
}

/// The lines of `s`. A line ends with a line feed, or with a carriage return and a
/// line feed; the ending is no part of the line, and the last line needs none.
pub open spec fn lines(s: Seq<char>) -> Seq<Seq<char>>
    decreases s.len(),
    via lines_shrink
{
    let n = span(s, other_than('\n')) as int;
    if s.len() == 0 {
        seq![]
    } else if n >= s.len() {
        seq![s]
    } else {
        seq![without_return(s.take(n))] + lines(s.skip(n + 1))
    }
}

/// `s` from its first character on that is not blank.
pub open spec fn trim_start(s: Seq<char>) -> Seq<char> {
    s.skip(span(s, is_blank()) as int)
}

/// `s` up to its last character that is not blank.
pub open spec fn trim_end(s: Seq<char>) -> Seq<char>
    decreases s.len(),
{
    if s.len() > 0 && blank(s.last()) {
        trim_end(s.drop_last())
    } else {
        s
    }
}

/// `s` without the blanks at its two ends.
pub open spec fn trimmed(s: Seq<char>) -> Seq<char> {
    trim_end(trim_start(s))
}

/// The longest stretches of `s` without a blank.
pub open spec fn words(s: Seq<char>) -> Seq<Seq<char>>
    decreases s.len(),
    via words_shrink
{
    let rest = trim_start(s);
    if rest.len() == 0 {
        seq![]
    } else {
        let n = span(rest, not_blank()) as int;
        seq![rest.take(n)] + words(rest.skip(n))
    }
}

/// The parts one after the other, with `sep` between each two of them.
pub open spec fn joined(parts: Seq<Seq<char>>, sep: Seq<char>) -> Seq<char>
    decreases parts.len(),
{
    if parts.len() == 0 {
        seq![]
    } else if parts.len() == 1 {
        parts[0]
    } else {
        joined(parts.drop_last(), sep) + sep + parts.last()
    }
}

/// The decimal digit of a number below ten.
pub open spec fn digit(n: nat) -> char {
    (48 + n) as char
}

/// The decimal digits of `n`, without leading zeros.
pub open spec fn decimal(n: nat) -> Seq<char>
    decreases n,
{
    if n < 10 {
        seq![digit(n)]
    } else {
        decimal(n / 10).push(digit(n % 10))
    }
}

/// `span` is the one number of leading characters that ends where `p` first fails.
pub proof fn lemma_span(s: Seq<char>, p: spec_fn(char) -> bool)
    ensures
        span(s, p) <= s.len(),
        forall|i: int| 0 <= i < span(s, p) ==> p(#[trigger] s[i]),
        span(s, p) < s.len() ==> !p(s[span(s, p) as int]),
    decreases s.len(),
{
    if s.len() > 0 && p(s[0]) {
        let rest = s.skip(1);
        lemma_span(rest, p);
        assert forall|i: int| 0 <= i < span(s, p) implies p(#[trigger] s[i]) by {
            if i > 0 {
                assert(s[i] == rest[i - 1]);
            }
        }
        if span(s, p) < s.len() {
            assert(s[span(s, p) as int] == rest[span(rest, p) as int]);
        }
    }
}

/// A number of leading characters at which `p` first fails is the span.
pub proof fn lemma_span_is(s: Seq<char>, p: spec_fn(char) -> bool, n: int)
    requires
        0 <= n <= s.len(),
        forall|i: int| 0 <= i < n ==> p(#[trigger] s[i]),
        n < s.len() ==> !p(s[n]),
    ensures
        span(s, p) == n,
{
    lemma_span(s, p);
    let k = span(s, p) as int;
    if k < n {
        assert(p(s[k]));
    } else if n < k {
        assert(p(s[n]));
    }
}

#[via_fn]
proof fn pieces_shrink(s: Seq<char>, sep: char) {
    lemma_span(s, other_than(sep));
}

#[via_fn]
proof fn lines_shrink(s: Seq<char>) {
    lemma_span(s, other_than('\n'));
}

#[via_fn]
proof fn words_shrink(s: Seq<char>) {
    lemma_span(s, is_blank());
    let rest = trim_start(s);
    lemma_span(rest, not_blank());
    if rest.len() > 0 {
        assert(rest[0] == s[span(s, is_blank()) as int]);
        assert(span(rest, not_blank()) > 0);
    }
}

/// The texts that vectors of characters hold.
pub open spec fn texts(parts: Seq<Vec<char>>) -> Seq<Seq<char>> {
    parts.map_values(|part: Vec<char>| part@)
}

/// `String::push` appends the given character to the end of the string.
pub assume_specification[ String::push ](s: &mut String, c: char)
    ensures
        final(s)@ == old(s)@.push(c),
;

/// The text that bytes spell in UTF-8, with replacement characters where they spell
/// none.
pub uninterp spec fn utf8_lossy(bytes: Seq<u8>) -> Seq<char>;

/// Calls `String::from_utf8_lossy`. The contract claims that the text depends on the
/// bytes and on nothing else, and that bytes that are valid UTF-8 give the text that
/// they encode.
#[verifier::external_body]
pub(crate) fn lossy_text(bytes: &[u8]) -> (r: String)
    ensures
        r@ == utf8_lossy(bytes@),
        vstd::utf8::valid_utf8(bytes@) ==> r@ == vstd::utf8::decode_utf8(bytes@),
{
    String::from_utf8_lossy(bytes).to_string()
}

/// A text between double quotes, with the escapes that its debug output has.
pub uninterp spec fn quoted(text: Seq<char>) -> Seq<char>;

/// Calls the `Debug` implementation of `str`. The contract claims that what it writes
/// depends on the text and on nothing else.
#[verifier::external_body]
pub(crate) fn quote(text: &str) -> (r: String)
    ensures
        r@ == quoted(text@),
{
    format!("{:?}", text)
}

/// Tells whether `c` has the Unicode property `White_Space`.
pub fn is_whitespace(c: char) -> (r: bool)
    ensures
        r == blank(c),
{
    let n: u32 = c as u32;
    (0x09 <= n && n <= 0x0d) || n == 0x20 || n == 0x85 || n == 0xa0 || n == 0x1680 || (0x2000 <= n
        && n <= 0x200a) || n == 0x2028 || n == 0x2029 || n == 0x202f || n == 0x205f || n == 0x3000
}

/// The characters of a text.
pub fn chars_of(s: &str) -> (r: Vec<char>)
    ensures
        r@ == s@,
{
    let mut r: Vec<char> = Vec::new();
    for c in it: s.chars()
        invariant
            it.seq() == s@,
            r@ == s@.take(it.index() as int),
    {
        r.push(c);
    }
    r
}

/// The text that characters spell.
pub fn text_of(chars: &Vec<char>) -> (r: String)
    ensures
        r@ == chars@,
{
    let mut r: String = String::new();
    let mut i: usize = 0;
    while i < chars.len()
        invariant
            i <= chars.len(),
            r@ == chars@.take(i as int),
        decreases chars.len() - i,
    {
        r.push(chars[i]);
        i = i + 1;
    }
    r
}

/// The characters from `from` up to `to`.
pub fn slice_of(chars: &Vec<char>, from: usize, to: usize) -> (r: Vec<char>)
    requires
        from <= to <= chars.len(),
    ensures
        r@ == chars@.subrange(from as int, to as int),
{
    let mut r: Vec<char> = Vec::new();
    let mut i: usize = from;
    while i < to
        invariant
            from <= i <= to <= chars.len(),
            r@ == chars@.subrange(from as int, i as int),
        decreases to - i,
    {
        r.push(chars[i]);
        i = i + 1;
    }
    r
}

/// Tells whether two texts hold the same characters.
pub fn same_chars(a: &Vec<char>, b: &str) -> (r: bool)
    ensures
        r == (a@ == b@),
{
    let other = chars_of(b);
    if a.len() != other.len() {
        return false;
    }
    let mut i: usize = 0;
    while i < a.len()
        invariant
            i <= a.len() == other.len(),
            other@ == b@,
            forall|j: int| 0 <= j < i ==> a@[j] == other@[j],
        decreases a.len() - i,
    {
        if a[i] != other[i] {
            assert(a@[i as int] != b@[i as int]);
            return false;
        }
        i = i + 1;
    }
    assert(a@ == b@);
    true
}

/// The position of the first `sep` at or after `from`, or the length where there is
/// none.
fn next_position(chars: &Vec<char>, from: usize, sep: char) -> (r: usize)
    requires
        from <= chars.len(),
    ensures
        from <= r <= chars.len(),
        r == from + span(chars@.skip(from as int), other_than(sep)),
        r < chars.len() ==> chars@[r as int] == sep,
{
    let mut i: usize = from;
    while i < chars.len() && chars[i] != sep
        invariant
            from <= i <= chars.len(),
            forall|j: int| from <= j < i ==> chars@[j] != sep,
        decreases chars.len() - i,
    {
        i = i + 1;
    }
    proof {
        lemma_span_is(chars@.skip(from as int), other_than(sep), i - from);
    }
    i
}

/// Splits a text at each `sep`.
pub fn split(chars: &Vec<char>, sep: char) -> (r: Vec<Vec<char>>)
    ensures
        texts(r@) == pieces(chars@, sep),
{
    let mut r: Vec<Vec<char>> = Vec::new();
    let mut start: usize = 0;
    assert(chars@.skip(0) == chars@);
    loop
        invariant
            start <= chars.len(),
            texts(r@) + pieces(chars@.skip(start as int), sep) == pieces(chars@, sep),
        decreases chars.len() - start,
    {
        let end: usize = next_position(chars, start, sep);
        let ghost rest = chars@.skip(start as int);
        let ghost before = texts(r@);
        let piece = slice_of(chars, start, end);
        proof {
            assert(piece@ == rest.take(end - start));
        }
        r.push(piece);
        assert(texts(r@) == before.push(piece@));
        if end == chars.len() {
            assert(piece@ == rest);
            assert(texts(r@) == before + seq![rest]);
            return r;
        }
        assert(rest.skip(end - start + 1) == chars@.skip(end + 1));
        start = end + 1;
        assert(texts(r@) + pieces(chars@.skip(start as int), sep) == before + (seq![piece@]
            + pieces(chars@.skip(start as int), sep)));
    }
}

/// Splits a text into its lines.
pub fn split_lines(chars: &Vec<char>) -> (r: Vec<Vec<char>>)
    ensures
        texts(r@) == lines(chars@),
{
    let mut r: Vec<Vec<char>> = Vec::new();
    let mut start: usize = 0;
    assert(chars@.skip(0) == chars@);
    while start < chars.len()
        invariant
            start <= chars.len(),
            texts(r@) + lines(chars@.skip(start as int)) == lines(chars@),
        decreases chars.len() - start,
    {
        let end: usize = next_position(chars, start, '\n');
        let ghost rest = chars@.skip(start as int);
        let ghost before = texts(r@);
        if end == chars.len() {
            let line = slice_of(chars, start, end);
            assert(line@ == rest);
            r.push(line);
            assert(texts(r@) == before.push(line@));
            assert(texts(r@) == before + seq![rest]);
            return r;
        }
        let stop: usize = if end > start && chars[end - 1] == '\r' {
            end - 1
        } else {
            end
        };
        let line = slice_of(chars, start, stop);
        proof {
            let whole = rest.take(end - start);
            if end > start {
                assert(whole.last() == chars@[end - 1]);
            }
            assert(line@ == without_return(whole));
            assert(rest.skip(end - start + 1) == chars@.skip(end + 1));
        }
        r.push(line);
        assert(texts(r@) == before.push(line@));
        start = end + 1;
        assert(texts(r@) + lines(chars@.skip(start as int)) == before + (seq![line@] + lines(
            chars@.skip(start as int),
        )));
    }
    assert(chars@.skip(start as int).len() == 0);
    assert(texts(r@) + lines(chars@.skip(start as int)) == texts(r@));
    r
}

/// The position of the first character at or after `from` that is blank, where
/// `wanted` is true, or not blank, where it is false; the length where there is none.
fn next_blank(chars: &Vec<char>, from: usize, wanted: bool) -> (r: usize)
    requires
        from <= chars.len(),
    ensures
        from <= r <= chars.len(),
        wanted ==> r == from + span(chars@.skip(from as int), not_blank()),
        !wanted ==> r == from + span(chars@.skip(from as int), is_blank()),
        r < chars.len() ==> blank(chars@[r as int]) == wanted,
{
    let mut i: usize = from;
    while i < chars.len() && is_whitespace(chars[i]) != wanted
        invariant
            from <= i <= chars.len(),
            forall|j: int| from <= j < i ==> blank(#[trigger] chars@[j]) != wanted,
        decreases chars.len() - i,
    {
        i = i + 1;
    }
    proof {
        let rest = chars@.skip(from as int);
        assert forall|j: int| 0 <= j < i - from implies blank(#[trigger] rest[j]) != wanted by {
            assert(rest[j] == chars@[j + from]);
        }
        if wanted {
            lemma_span_is(rest, not_blank(), i - from);
        } else {
            lemma_span_is(rest, is_blank(), i - from);
        }
    }
    i
}

/// Splits a text into its words.
pub fn split_words(chars: &Vec<char>) -> (r: Vec<Vec<char>>)
    ensures
        texts(r@) == words(chars@),
{
    let mut r: Vec<Vec<char>> = Vec::new();
    let mut start: usize = 0;
    assert(chars@.skip(0) == chars@);
    loop
        invariant
            start <= chars.len(),
            texts(r@) + words(chars@.skip(start as int)) == words(chars@),
        decreases chars.len() - start,
    {
        let ghost rest = chars@.skip(start as int);
        let ghost before = texts(r@);
        let begin: usize = next_blank(chars, start, false);
        proof {
            assert(trim_start(rest) == chars@.skip(begin as int));
        }
        if begin == chars.len() {
            assert(texts(r@) + words(rest) == texts(r@));
            return r;
        }
        let end: usize = next_blank(chars, begin, true);
        let word = slice_of(chars, begin, end);
        proof {
            lemma_span(chars@.skip(begin as int), not_blank());
            assert(chars@.skip(begin as int)[0] == chars@[begin as int]);
            assert(word@ == chars@.skip(begin as int).take(end - begin));
            assert(chars@.skip(begin as int).skip(end - begin) == chars@.skip(end as int));
        }
        r.push(word);
        assert(texts(r@) == before.push(word@));
        start = end;
        assert(texts(r@) + words(chars@.skip(start as int)) == before + (seq![word@] + words(
            chars@.skip(start as int),
        )));
    }
}

/// Takes the blanks off the two ends of a text.
pub fn trim(chars: &Vec<char>) -> (r: Vec<char>)
    ensures
        r@ == trimmed(chars@),
{
    let begin: usize = next_blank(chars, 0, false);
    let mut end: usize = chars.len();
    proof {
        assert(chars@.skip(0) == chars@);
        assert(trim_start(chars@) == chars@.subrange(begin as int, end as int));
    }
    while end > begin && is_whitespace(chars[end - 1])
        invariant
            begin <= end <= chars.len(),
            trim_end(chars@.subrange(begin as int, end as int)) == trimmed(chars@),
        decreases end,
    {
        assert(chars@.subrange(begin as int, end as int).drop_last() == chars@.subrange(
            begin as int,
            end - 1,
        ));
        end = end - 1;
    }
    slice_of(chars, begin, end)
}

/// Joins the parts from `from` on, with `sep` between each two of them.
pub fn join(parts: &Vec<Vec<char>>, from: usize, sep: char) -> (r: String)
    requires
        from <= parts.len(),
    ensures
        r@ == joined(texts(parts@).skip(from as int), seq![sep]),
{
    let mut r: String = String::new();
    let mut i: usize = from;
    let ghost all = texts(parts@);
    while i < parts.len()
        invariant
            from <= i <= parts.len(),
            all == texts(parts@),
            r@ == joined(all.subrange(from as int, i as int), seq![sep]),
        decreases parts.len() - i,
    {
        let ghost before = r@;
        if i > from {
            r.push(sep);
        }
        let part = text_of(&parts[i]);
        r = r.concat(part.as_str());
        proof {
            let done = all.subrange(from as int, i + 1);
            assert(done.drop_last() == all.subrange(from as int, i as int));
            assert(done.last() == part@);
            if i > from {
                assert(r@ == before + seq![sep] + part@);
            } else {
                assert(before == Seq::<char>::empty());
                assert(r@ == part@);
            }
        }
        i = i + 1;
    }
    assert(all.subrange(from as int, i as int) == all.skip(from as int));
    r
}

/// Writes a number in decimal.
pub fn decimal_text(n: u64) -> (r: String)
    ensures
        r@ == decimal(n as nat),
    decreases n,
{
    let last: u8 = (n % 10) as u8;
    let mut r: String = if n < 10 {
        String::new()
    } else {
        decimal_text(n / 10)
    };
    r.push((48 + last) as char);
    assert(n < 10 ==> r@ == seq![digit(n as nat)]);
    r
}

/// A part before others is joined to them.
pub proof fn lemma_joined_front(first: Seq<char>, rest: Seq<Seq<char>>, sep: Seq<char>)
    requires
        rest.len() > 0,
    ensures
        joined(seq![first] + rest, sep) == first + sep + joined(rest, sep),
    decreases rest.len(),
{
    let all = seq![first] + rest;
    assert(all.drop_last() == seq![first] + rest.drop_last());
    assert(all.last() == rest.last());
    if rest.len() > 1 {
        lemma_joined_front(first, rest.drop_last(), sep);
        assert(joined(all, sep) == first + sep + joined(rest, sep));
    } else {
        assert(seq![first] + rest.drop_last() == seq![first]);
        assert(joined(seq![first], sep) == first);
    }
}

/// Splitting a text at a character leaves pieces without that character, one at least,
/// and joining the pieces with it gives the text back.
pub proof fn law_split_join(s: Seq<char>, sep: char)
    ensures
        pieces(s, sep).len() > 0,
        forall|i: int, j: int|
            0 <= i < pieces(s, sep).len() && 0 <= j < pieces(s, sep)[i].len() ==> (
            #[trigger] pieces(s, sep)[i][j]) != sep,
        joined(pieces(s, sep), seq![sep]) == s,
    decreases s.len(),
{
    lemma_span(s, other_than(sep));
    let n = span(s, other_than(sep)) as int;
    if n < s.len() {
        let first = s.take(n);
        let rest = s.skip(n + 1);
        law_split_join(rest, sep);
        lemma_joined_front(first, pieces(rest, sep), seq![sep]);
        assert(first + seq![sep] + rest == s);
        assert forall|i: int, j: int|
            0 <= i < pieces(s, sep).len() && 0 <= j < pieces(s, sep)[i].len() implies (
        #[trigger] pieces(s, sep)[i][j]) != sep by {
            if i == 0 {
                assert(pieces(s, sep)[i] == first);
                assert(s[j] != sep);
            } else {
                assert(pieces(s, sep)[i] == pieces(rest, sep)[i - 1]);
            }
        }
    }
}

/// A text without a carriage return before a line feed.
pub open spec fn has_plain_lines(s: Seq<char>) -> bool {
    forall|i: int| 0 < i < s.len() && #[trigger] s[i] == '\n' ==> s[i - 1] != '\r'
}

/// Where no line feed follows a carriage return and none ends the text, joining its lines
/// with line feeds gives the text back.
pub proof fn law_lines_join(s: Seq<char>)
    requires
        has_plain_lines(s),
        s.len() > 0 ==> s.last() != '\n',
    ensures
        joined(lines(s), seq!['\n']) == s,
    decreases s.len(),
{
    lemma_span(s, other_than('\n'));
    let n = span(s, other_than('\n')) as int;
    if n < s.len() {
        let first = s.take(n);
        let rest = s.skip(n + 1);
        assert(rest.len() > 0) by {
            assert(s[n] == '\n');
        }
        assert forall|i: int| 0 < i < rest.len() && #[trigger] rest[i] == '\n' implies rest[i - 1]
            != '\r' by {
            assert(rest[i] == s[i + n + 1]);
            assert(rest[i - 1] == s[i + n]);
        }
        assert(rest.last() == s.last());
        law_lines_join(rest);
        if n > 0 {
            assert(first.last() == s[n - 1]);
        }
        assert(without_return(first) == first);
        lemma_span(rest, other_than('\n'));
        assert(lines(rest).len() > 0);
        lemma_joined_front(first, lines(rest), seq!['\n']);
        assert(first + seq!['\n'] + rest == s);
    }
}

/// A text without a line feed that is ended as a line is the first line of what it begins.
pub proof fn lemma_first_line(line: Seq<char>, rest: Seq<char>)
    requires
        !line.contains('\n'),
    ensures
        lines(line + seq!['\r', '\n'] + rest) == seq![line] + lines(rest),
{
    let s = line + seq!['\r', '\n'] + rest;
    let n = line.len() as int + 1;
    assert(s[n] == '\n');
    assert forall|i: int| 0 <= i < n implies other_than('\n')(#[trigger] s[i]) by {
        if i < line.len() {
            assert(s[i] == line[i]);
        } else {
            assert(s[i] == '\r');
        }
    }
    lemma_span_is(s, other_than('\n'), n);
    assert(s.take(n) == line.push('\r'));
    assert(line.push('\r').drop_last() == line);
    assert(s.skip(n + 1) == rest);
}

/// A text that is not empty and holds no blank.
pub open spec fn is_word(s: Seq<char>) -> bool {
    s.len() > 0 && forall|i: int| 0 <= i < s.len() ==> !blank(#[trigger] s[i])
}

/// A word before a blank is the first word of what it begins.
pub proof fn lemma_first_word(word: Seq<char>, rest: Seq<char>)
    requires
        is_word(word),
        rest.len() > 0 ==> blank(rest[0]),
    ensures
        words(word + rest) == seq![word] + words(rest),
{
    let s = word + rest;
    assert(s[0] == word[0]);
    assert(span(s, is_blank()) == 0);
    assert(s.skip(0) == s);
    assert forall|i: int| 0 <= i < word.len() implies not_blank()(#[trigger] s[i]) by {
        assert(s[i] == word[i]);
    }
    if rest.len() > 0 {
        assert(s[word.len() as int] == rest[0]);
    }
    lemma_span_is(s, not_blank(), word.len() as int);
    assert(s.take(word.len() as int) == word);
    assert(s.skip(word.len() as int) == rest);
}

/// A space before a text changes none of its words.
pub proof fn lemma_leading_space(s: Seq<char>)
    ensures
        words(seq![' '] + s) == words(s),
        trim_start(seq![' '] + s) == trim_start(s),
{
    let t = seq![' '] + s;
    assert(blank(' '));
    assert(t.skip(1) == s);
    assert(span(t, is_blank()) == 1 + span(s, is_blank()));
    lemma_span(s, is_blank());
    assert(trim_start(t) == trim_start(s));
}

/// A trimmed text has no blank at its ends, and trimming it again changes nothing.
pub proof fn law_trimmed(s: Seq<char>)
    ensures
        trimmed(s).len() > 0 ==> !blank(trimmed(s)[0]) && !blank(trimmed(s).last()),
        trimmed(trimmed(s)) == trimmed(s),
{
    lemma_span(s, is_blank());
    let t = trim_start(s);
    if t.len() > 0 {
        assert(t[0] == s[span(s, is_blank()) as int]);
    }
    lemma_trim_end(t);
    let r = trim_end(t);
    if r.len() > 0 {
        assert(r[0] == t[0]);
        assert(span(r, is_blank()) == 0);
    } else {
        assert(span(r, is_blank()) == 0);
    }
    assert(r.skip(0) == r);
}

pub proof fn lemma_trim_end(s: Seq<char>)
    ensures
        trim_end(s).len() <= s.len(),
        trim_end(s) == s.take(trim_end(s).len() as int),
        trim_end(s).len() > 0 ==> !blank(trim_end(s).last()),
        trim_end(trim_end(s)) == trim_end(s),
    decreases s.len(),
{
    if s.len() > 0 && blank(s.last()) {
        lemma_trim_end(s.drop_last());
        let n = trim_end(s).len() as int;
        assert(s.drop_last().take(n) == s.take(n));
    } else {
        assert(s.take(s.len() as int) == s);
    }
}

/// The words of a text are words.
pub proof fn law_words(s: Seq<char>)
    ensures
        forall|i: int| 0 <= i < words(s).len() ==> is_word(#[trigger] words(s)[i]),
    decreases s.len(),
{
    lemma_span(s, is_blank());
    let rest = trim_start(s);
    if rest.len() > 0 {
        lemma_span(rest, not_blank());
        let n = span(rest, not_blank()) as int;
        assert(rest[0] == s[span(s, is_blank()) as int]);
        assert(n > 0);
        law_words(rest.skip(n));
        assert forall|i: int| 0 <= i < words(s).len() implies is_word(#[trigger] words(s)[i]) by {
            if i == 0 {
                assert(words(s)[0] == rest.take(n));
                assert forall|j: int| 0 <= j < n implies !blank(#[trigger] rest.take(n)[j]) by {
                    assert(not_blank()(rest[j]));
                }
            } else {
                assert(words(s)[i] == words(rest.skip(n))[i - 1]);
            }
        }
    }
}

} // verus!
