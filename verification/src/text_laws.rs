//! How the operations on texts and maps relate to one another.

use crate::text;
use crate::text_map::TextMap;
use vstd::prelude::*;

verus! {

/// The first part is `first`, and the others are those of `rest`.
pub open spec fn first_and_rest(parts: Vec<Vec<char>>, first: Seq<char>, rest: Vec<Vec<char>>) -> bool {
    &&& parts@.len() == rest@.len() + 1
    &&& parts@[0]@ == first
    &&& forall|i: int| 0 <= i < rest@.len() ==> (#[trigger] rest@[i])@ == parts@[i + 1]@
}

/// Both hold the same parts.
pub open spec fn same_parts(a: Vec<Vec<char>>, b: Vec<Vec<char>>) -> bool {
    &&& a@.len() == b@.len()
    &&& forall|i: int| 0 <= i < a@.len() ==> (#[trigger] a@[i])@ == b@[i]@
}

/// Every character is blank.
pub open spec fn all_blank(s: Seq<char>) -> bool {
    forall|i: int| 0 <= i < s.len() ==> text::blank(#[trigger] s[i])
}

proof fn lemma_texts(parts: Vec<Vec<char>>)
    ensures
        text::texts(parts@).len() == parts@.len(),
        forall|i: int| 0 <= i < parts@.len() ==> text::texts(parts@)[i] == (#[trigger] parts@[i])@,
{
}

proof fn lemma_first_and_rest(parts: Vec<Vec<char>>, first: Seq<char>, rest: Vec<Vec<char>>)
    requires
        text::texts(parts@) == seq![first] + text::texts(rest@),
    ensures
        first_and_rest(parts, first, rest),
{
    lemma_texts(parts);
    lemma_texts(rest);
    let all = text::texts(parts@);
    assert(all[0] == first);
    assert forall|i: int| 0 <= i < rest@.len() implies (#[trigger] rest@[i])@ == parts@[i + 1]@ by {
        assert(all[i + 1] == text::texts(rest@)[i]);
    }
}

proof fn lemma_same_parts(a: Vec<Vec<char>>, b: Vec<Vec<char>>)
    requires
        text::texts(a@) == text::texts(b@),
    ensures
        same_parts(a, b),
{
    lemma_texts(a);
    lemma_texts(b);
    assert forall|i: int| 0 <= i < a@.len() implies (#[trigger] a@[i])@ == b@[i]@ by {
        assert(text::texts(a@)[i] == text::texts(b@)[i]);
    }
}

/// A text without the separator is one piece. A text that begins with `first` and the
/// separator, which `first` does not hold, has `first` as its first piece, and then the
/// pieces of what follows.
pub proof fn law_split(
    whole: Vec<char>,
    first: Seq<char>,
    rest: Vec<char>,
    sep: char,
    r: Vec<Vec<char>>,
    r_rest: Vec<Vec<char>>,
)
    requires
        !first.contains(sep),
        call_ensures(text::split, (&whole, sep), r),
        call_ensures(text::split, (&rest, sep), r_rest),
    ensures
        whole@ == first ==> r@.len() == 1 && r@[0]@ == first,
        whole@ == first + seq![sep] + rest@ ==> first_and_rest(r, first, r_rest),
{
    lemma_texts(r);
    let n = first.len() as int;
    assert forall|i: int| 0 <= i < n && i < whole@.len() && (whole@ == first || whole@ == first
        + seq![sep] + rest@) implies text::other_than(sep)(#[trigger] whole@[i]) by {
        assert(whole@[i] == first[i]);
        assert(first.contains(first[i]));
    }
    if whole@ == first {
        text::lemma_span_is(whole@, text::other_than(sep), n);
        assert(text::texts(r@)[0] == first);
    }
    if whole@ == first + seq![sep] + rest@ {
        text::lemma_span_is(whole@, text::other_than(sep), n);
        assert(whole@.take(n) == first);
        assert(whole@.skip(n + 1) == rest@);
        lemma_first_and_rest(r, first, r_rest);
    }
}

/// A text without a line feed is one line, or none where it is empty. A text that begins
/// with a line has that line, without the carriage return that may be part of its ending,
/// and then the lines of what follows.
pub proof fn law_split_lines(
    whole: Vec<char>,
    first: Seq<char>,
    rest: Vec<char>,
    r: Vec<Vec<char>>,
    r_rest: Vec<Vec<char>>,
)
    requires
        !first.contains('\n'),
        call_ensures(text::split_lines, (&whole,), r),
        call_ensures(text::split_lines, (&rest,), r_rest),
    ensures
        whole@.len() == 0 ==> r@.len() == 0,
        whole@ == first && first.len() > 0 ==> r@.len() == 1 && r@[0]@ == first,
        whole@ == first + seq!['\r', '\n'] + rest@ ==> first_and_rest(r, first, r_rest),
        whole@ == first + seq!['\n'] + rest@ && (first.len() == 0 || first.last() != '\r')
            ==> first_and_rest(r, first, r_rest),
{
    lemma_texts(r);
    let n = first.len() as int;
    if whole@ == first && n > 0 {
        assert forall|i: int| 0 <= i < n implies text::other_than('\n')(#[trigger] whole@[i]) by {
            assert(first.contains(first[i]));
        }
        text::lemma_span_is(whole@, text::other_than('\n'), n);
        assert(text::texts(r@)[0] == first);
    }
    if whole@ == first + seq!['\r', '\n'] + rest@ {
        text::lemma_first_line(first, rest@);
        lemma_first_and_rest(r, first, r_rest);
    }
    if whole@ == first + seq!['\n'] + rest@ && (first.len() == 0 || first.last() != '\r') {
        assert forall|i: int| 0 <= i < n implies text::other_than('\n')(#[trigger] whole@[i]) by {
            assert(whole@[i] == first[i]);
            assert(first.contains(first[i]));
        }
        text::lemma_span_is(whole@, text::other_than('\n'), n);
        assert(whole@.take(n) == first);
        assert(whole@.skip(n + 1) == rest@);
        lemma_first_and_rest(r, first, r_rest);
    }
}

/// A blank at the start changes none of the words.
proof fn lemma_leading_blank(c: char, s: Seq<char>)
    requires
        text::blank(c),
    ensures
        text::words(seq![c] + s) == text::words(s),
        text::trim_start(seq![c] + s) == text::trim_start(s),
{
    let t = seq![c] + s;
    assert(t.skip(1) == s);
    assert(text::span(t, text::is_blank()) == 1 + text::span(s, text::is_blank()));
    text::lemma_span(s, text::is_blank());
    assert(text::trim_start(t) == text::trim_start(s));
}

/// Blanks at the start change none of the words.
pub proof fn lemma_leading_blanks(blanks: Seq<char>, s: Seq<char>)
    requires
        all_blank(blanks),
    ensures
        text::words(blanks + s) == text::words(s),
        text::trim_start(blanks + s) == text::trim_start(s),
    decreases blanks.len(),
{
    if blanks.len() > 0 {
        let rest = blanks.skip(1);
        assert(all_blank(rest)) by {
            assert forall|i: int| 0 <= i < rest.len() implies text::blank(#[trigger] rest[i]) by {
                assert(rest[i] == blanks[i + 1]);
            }
        }
        lemma_leading_blanks(rest, s);
        assert(text::blank(blanks[0]));
        lemma_leading_blank(blanks[0], rest + s);
        assert(seq![blanks[0]] + (rest + s) == blanks + s);
    } else {
        assert(blanks + s == s);
    }
}

/// A text has no words where it is empty; a blank before it makes no difference; and a text
/// that begins with a word, which a blank or the end follows, has that word and then the
/// words of what follows.
pub proof fn law_split_words(
    whole: Vec<char>,
    first: Seq<char>,
    rest: Vec<char>,
    r: Vec<Vec<char>>,
    r_rest: Vec<Vec<char>>,
)
    requires
        call_ensures(text::split_words, (&whole,), r),
        call_ensures(text::split_words, (&rest,), r_rest),
        whole@ == first + rest@,
    ensures
        whole@.len() == 0 ==> r@.len() == 0,
        all_blank(first) ==> same_parts(r, r_rest),
        first.len() > 0 && (forall|i: int| 0 <= i < first.len() ==> !text::blank(#[trigger] first[i]))
            && (rest@.len() == 0 || text::blank(rest@[0])) ==> first_and_rest(r, first, r_rest),
{
    lemma_texts(r);
    if whole@.len() == 0 {
        assert(text::trim_start(whole@) == whole@);
    }
    if all_blank(first) {
        lemma_leading_blanks(first, rest@);
        lemma_same_parts(r, r_rest);
    }
    if first.len() > 0 && (forall|i: int| 0 <= i < first.len() ==> !text::blank(#[trigger] first[i]))
        && (rest@.len() == 0 || text::blank(rest@[0])) {
        text::lemma_first_word(first, rest@);
        lemma_first_and_rest(r, first, r_rest);
    }
}

/// Blanks at the end are trimmed.
pub proof fn lemma_trailing_blanks(s: Seq<char>, blanks: Seq<char>)
    requires
        all_blank(blanks),
        s.len() == 0 || !text::blank(s.last()),
    ensures
        text::trim_end(s + blanks) == s,
    decreases blanks.len(),
{
    let t = s + blanks;
    if blanks.len() > 0 {
        assert(t.last() == blanks[blanks.len() - 1]);
        assert(t.drop_last() == s + blanks.drop_last());
        assert(all_blank(blanks.drop_last())) by {
            assert forall|i: int| 0 <= i < blanks.drop_last().len() implies text::blank(
                #[trigger] blanks.drop_last()[i],
            ) by {
                assert(blanks.drop_last()[i] == blanks[i]);
            }
        }
        lemma_trailing_blanks(s, blanks.drop_last());
    } else {
        assert(t == s);
    }
}

/// What is left between blanks is trimmed to itself.
pub proof fn lemma_trimmed_core(before: Seq<char>, core: Seq<char>, after: Seq<char>)
    requires
        all_blank(before),
        all_blank(after),
        core.len() == 0 || (!text::blank(core[0]) && !text::blank(core.last())),
    ensures
        text::trimmed(before + core + after) == core,
{
    assert(before + core + after == before + (core + after));
    lemma_leading_blanks(before, core + after);
    if core.len() > 0 {
        let t = core + after;
        assert(t[0] == core[0]);
        assert(text::span(t, text::is_blank()) == 0);
        assert(t.skip(0) == t);
        lemma_trailing_blanks(core, after);
    } else {
        assert(core + after == after);
        lemma_leading_blanks(after, Seq::<char>::empty());
        assert(after + Seq::<char>::empty() == after);
        assert(text::trim_start(Seq::<char>::empty()) == Seq::<char>::empty());
        assert(text::trim_end(Seq::<char>::empty()) == Seq::<char>::empty());
        assert(core == Seq::<char>::empty());
    }
}

/// Trimming takes off the blanks on both sides, and nothing of what is between them.
pub proof fn law_trim(
    whole: Vec<char>,
    before: Seq<char>,
    core: Seq<char>,
    after: Seq<char>,
    r: Vec<char>,
)
    requires
        call_ensures(text::trim, (&whole,), r),
        whole@ == before + core + after,
        all_blank(before),
        all_blank(after),
        core.len() == 0 || (!text::blank(core[0]) && !text::blank(core.last())),
    ensures
        r@ == core,
{
    lemma_trimmed_core(before, core, after);
}

/// Joining no parts gives an empty text, joining one gives that part, and joining more gives
/// the first, the separator, and the others joined.
pub proof fn law_join(
    parts: Vec<Vec<char>>,
    from: usize,
    next: usize,
    sep: char,
    r: String,
    r_next: String,
)
    requires
        from <= parts@.len(),
        call_ensures(text::join, (&parts, from, sep), r),
        next <= parts@.len(),
        call_ensures(text::join, (&parts, next, sep), r_next),
    ensures
        from == parts@.len() ==> r@ == Seq::<char>::empty(),
        from + 1 == parts@.len() ==> r@ == parts@[from as int]@,
        from + 1 == next && next < parts@.len() ==> r@ == parts@[from as int]@ + seq![sep]
            + r_next@,
{
    let all = text::texts(parts@);
    lemma_texts(parts);
    if from + 1 == parts@.len() {
        assert(all.skip(from as int) == seq![parts@[from as int]@]);
    }
    if from + 1 == next && next < parts@.len() {
        assert(all.skip(from as int) == seq![parts@[from as int]@] + all.skip(next as int));
        text::lemma_joined_front(parts@[from as int]@, all.skip(next as int), seq![sep]);
    }
}

/// The number that decimal digits spell, the last counting one.
pub open spec fn value_of(digits: Seq<char>) -> nat
    decreases digits.len(),
{
    if digits.len() == 0 {
        0
    } else {
        10 * value_of(digits.drop_last()) + (digits.last() as u32 - '0' as u32) as nat
    }
}

/// Decimal digits, at least one, and no zero before others.
pub open spec fn is_decimal(digits: Seq<char>) -> bool {
    &&& digits.len() > 0
    &&& forall|i: int| 0 <= i < digits.len() ==> '0' <= #[trigger] digits[i] <= '9'
    &&& digits.len() > 1 ==> digits[0] != '0'
}

pub proof fn lemma_decimal(n: nat)
    ensures
        is_decimal(text::decimal(n)),
        value_of(text::decimal(n)) == n,
        n > 0 ==> text::decimal(n)[0] != '0',
    decreases n,
{
    if n >= 10 {
        lemma_decimal(n / 10);
        let init = text::decimal(n / 10);
        let last = text::digit(n % 10);
        assert(init.push(last).drop_last() == init);
        assert(last as u32 == 48 + n % 10);
        assert forall|i: int| 0 <= i < init.push(last).len() implies '0' <= #[trigger] init.push(
            last,
        )[i] <= '9' by {
            if i < init.len() {
                assert(init.push(last)[i] == init[i]);
            }
        }
        assert(init.push(last)[0] == init[0]);
    } else {
        let only = text::digit(n);
        assert(only as u32 == 48 + n);
        assert(seq![only].drop_last() == Seq::<char>::empty());
        assert(value_of(Seq::<char>::empty()) == 0);
        assert(seq![only].last() == only);
    }
}

/// A number is written as decimal digits that spell it, without zeros before them.
pub proof fn law_decimal_text(n: u64, r: String)
    requires
        call_ensures(text::decimal_text, (n,), r),
    ensures
        is_decimal(r@),
        value_of(r@) == n,
{
    lemma_decimal(n as nat);
}

/// The characters of a text are all of them, in order; a text made of characters is made of
/// all of them; a part is what lies between the two places; and two texts are the same where
/// they hold the same characters.
pub proof fn law_characters(
    s: &str,
    chars: Vec<char>,
    part: Vec<char>,
    from: usize,
    to: usize,
    spelled: String,
    same: bool,
)
    requires
        call_ensures(text::chars_of, (s,), chars),
        call_ensures(text::text_of, (&chars,), spelled),
        from <= to <= chars@.len(),
        call_ensures(text::slice_of, (&chars, from, to), part),
        call_ensures(text::same_chars, (&part, s), same),
    ensures
        spelled@ == s@,
        part@ == s@.subrange(from as int, to as int),
        same == (from == 0 && to == s@.len()),
{
    if same {
        assert(part@.len() == s@.len());
    }
    if from == 0 && to == s@.len() {
        assert(s@.subrange(0, s@.len() as int) == s@);
    }
}

/// A map finds the value of a key that it has, the same as at the place of the key, and none
/// for another key.
pub proof fn law_map_get(map: TextMap, key: &str, r: Option<&String>, there: bool)
    requires
        call_ensures(TextMap::get, (&map, key), r),
        call_ensures(TextMap::contains_key, (&map, key), there),
    ensures
        there == r is Some,
        r is None <==> forall|i: int| 0 <= i < map@.len() ==> (#[trigger] map@[i]).0 != key@,
        r matches Some(value) ==> exists|i: int|
            0 <= i < map@.len() && #[trigger] map@[i] == (key@, value@) && forall|j: int|
                0 <= j < i ==> (#[trigger] map@[j]).0 != key@,
{
    crate::text_map::lemma_key_position(map@, key@);
    let i = crate::text_map::key_position(map@, key@) as int;
    if r is Some {
        assert(map@[i] == (key@, r->0@));
    }
    if forall|i: int| 0 <= i < map@.len() ==> (#[trigger] map@[i]).0 != key@ {
        if i < map@.len() {
            assert(map@[i].0 != key@);
        }
    }
}

/// Giving a key a value changes the value in the place of the key, or adds the key at the
/// end where the map does not have it; nothing else changes.
pub proof fn law_map_insert(map: &mut TextMap, key: String, value: String, at: int)
    requires
        call_ensures(TextMap::insert, (map, key, value), ()),
    ensures
        (forall|i: int| 0 <= i < old(map)@.len() ==> (#[trigger] old(map)@[i]).0 != key@)
            ==> final(map)@ == old(map)@.push((key@, value@)),
        0 <= at < old(map)@.len() && old(map)@[at].0 == key@ && (forall|i: int|
            0 <= i < at ==> (#[trigger] old(map)@[i]).0 != key@) ==> final(map)@ == old(
            map,
        )@.update(at, (key@, value@)),
{
    let before = old(map)@;
    crate::text_map::lemma_key_position(before, key@);
    if forall|i: int| 0 <= i < before.len() ==> (#[trigger] before[i]).0 != key@ {
        crate::text_map::lemma_key_position_is(before, key@, before.len() as int);
    }
    if 0 <= at < before.len() && before[at].0 == key@ && (forall|i: int|
        0 <= i < at ==> (#[trigger] before[i]).0 != key@) {
        crate::text_map::lemma_key_position_is(before, key@, at);
    }
}

} // verus!
