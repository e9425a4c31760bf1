//! The walk through the headers of a tar archive, and the members in it.

use crate::actions;
use crate::text;
use vstd::prelude::*;

verus! {

/// The number of bytes in a block of an archive. Headers stand at whole blocks.
pub const BLOCK_SIZE: usize = 512;

/// The size from which on a member cannot be in any archive.
pub const VAST_SIZE: u64 = 0x8000_0000_0000_0000;

/// The number of leading bytes before the first `stop`.
pub open spec fn upto(bytes: Seq<u8>, stop: u8) -> nat
    decreases bytes.len(),
{
    if bytes.len() > 0 && bytes[0] != stop {
        1 + upto(bytes.skip(1), stop)
    } else {
        0
    }
}

/// The sum of bytes.
pub open spec fn byte_sum(bytes: Seq<u8>) -> nat
    decreases bytes.len(),
{
    if bytes.len() == 0 {
        0
    } else {
        byte_sum(bytes.drop_last()) + bytes.last() as nat
    }
}

/// Each byte as a character.
pub open spec fn byte_chars(bytes: Seq<u8>) -> Seq<char> {
    bytes.map_values(|b: u8| b as char)
}

/// A digit to the base of `radix`, which is ten at most.
pub open spec fn is_digit(c: char, radix: nat) -> bool {
    48 <= (c as u32) && (c as u32) < 48 + radix
}

/// One digit at least, and nothing else.
pub open spec fn is_digits(s: Seq<char>, radix: nat) -> bool {
    s.len() > 0 && forall|i: int| 0 <= i < s.len() ==> is_digit(#[trigger] s[i], radix)
}

/// The number that digits spell.
pub open spec fn digits_value(s: Seq<char>, radix: nat) -> nat
    decreases s.len(),
{
    if s.len() == 0 {
        0
    } else {
        digits_value(s.drop_last(), radix) * radix + (s.last() as u32 - 48) as nat
    }
}

/// `s` without a plus sign before it.
pub open spec fn without_plus(s: Seq<char>) -> Seq<char> {
    if s.len() > 0 && s[0] == '+' {
        s.skip(1)
    } else {
        s
    }
}

/// The number of 64 bits that a text spells: digits, with or without a plus sign.
pub open spec fn number(s: Seq<char>, radix: nat) -> Option<nat> {
    let digits = without_plus(s);
    if is_digits(digits, radix) && digits_value(digits, radix) <= u64::MAX {
        Some(digits_value(digits, radix))
    } else {
        None
    }
}

/// The number in a field in octal form: text up to the first zero byte, with blanks around
/// the digits.
pub open spec fn octal_field(field: Seq<u8>) -> Option<nat> {
    let content = field.take(upto(field, 0) as int);
    if vstd::utf8::valid_utf8(content) {
        number(text::trimmed(vstd::utf8::decode_utf8(content)), 8)
    } else {
        None
    }
}

/// The number that the eight bytes at `at` spell, the highest first.
pub open spec fn binary_value(data: Seq<u8>, at: int) -> nat {
    (data[at] * 0x100_0000_0000_0000 + data[at + 1] * 0x1_0000_0000_0000 + data[at + 2]
        * 0x100_0000_0000 + data[at + 3] * 0x1_0000_0000 + data[at + 4] * 0x100_0000 + data[at + 5]
        * 0x1_0000 + data[at + 6] * 0x100 + data[at + 7]) as nat
}

/// The number in the field of twelve bytes at `at`. Where its highest bit is set it is in
/// binary form, and the last eight bytes count.
pub open spec fn number_field(data: Seq<u8>, at: int) -> Option<nat> {
    if data[at] >= 0x80 {
        Some(binary_value(data, at + 4))
    } else {
        octal_field(data.subrange(at, at + 12))
    }
}

/// The key and the value of a record in an extended header. A record begins with its own
/// length, counting the line feed after it.
#[verifier::opaque]
pub open spec fn record(line: Seq<u8>) -> Option<(Seq<u8>, Seq<u8>)> {
    let space = upto(line, 0x20) as int;
    let rest = line.skip(space + 1);
    let equals = upto(rest, 0x3d) as int;
    if space < line.len() && number(byte_chars(line.take(space)), 10) == Some(line.len() + 1)
        && equals < rest.len() {
        Some((rest.take(equals), rest.skip(equals + 1)))
    } else {
        None
    }
}

/// The key of the record that gives a size.
pub open spec fn size_key() -> Seq<u8> {
    seq![0x73u8, 0x69, 0x7a, 0x65]
}

/// The size that an extended header gives the member after it, where it gives one. Records
/// are lines; an empty one, or one that is no record, ends them.
pub open spec fn given_size(content: Seq<u8>) -> Option<nat>
    decreases content.len(),
{
    let end = upto(content, 0x0a) as int;
    match record(content.take(end)) {
        Some((key, value)) => if key == size_key() {
            number(byte_chars(value), 10)
        } else if 0 <= end < content.len() {
            given_size(content.skip(end + 1))
        } else {
            None
        },
        None => None,
    }
}

/// What marks a header as one of the GNU format.
pub open spec fn gnu_magic() -> Seq<u8> {
    seq![0x75u8, 0x73, 0x74, 0x61, 0x72, 0x20, 0x20, 0x00]
}

/// What marks a header as one of the POSIX format.
pub open spec fn ustar_magic() -> Seq<u8> {
    seq![0x75u8, 0x73, 0x74, 0x61, 0x72, 0x00, 0x30, 0x30]
}

/// The header at `at` is of the GNU format.
pub open spec fn is_gnu(data: Seq<u8>, at: int) -> bool {
    data.subrange(at + 257, at + 265) == gnu_magic()
}

/// The header at `at` is of the GNU format or of the POSIX format.
pub open spec fn is_marked(data: Seq<u8>, at: int) -> bool {
    is_gnu(data, at) || data.subrange(at + 257, at + 265) == ustar_magic()
}

/// The kind of the member whose header is at `at`.
pub open spec fn kind(data: Seq<u8>, at: int) -> u8 {
    data[at + 156]
}

/// The kind of an extended header for the next member.
pub const EXTENDED_HEADER: u8 = 0x78;

/// The kind of an extended header for all members that follow.
pub const GLOBAL_HEADER: u8 = 0x67;

/// The kind of a long name for the next member.
pub const LONG_NAME: u8 = 0x4c;

/// The kind of a long link for the next member.
pub const LONG_LINK: u8 = 0x4b;

/// The kind of a sparse member.
pub const SPARSE: u8 = 0x53;

/// A kind that describes other members.
pub open spec fn describes_others(kind: u8) -> bool {
    kind == EXTENDED_HEADER || kind == GLOBAL_HEADER || kind == LONG_NAME || kind == LONG_LINK
}

/// All bytes of the block at `at` are zero, which ends an archive.
pub open spec fn is_zero_block(data: Seq<u8>, at: int) -> bool {
    forall|i: int| at <= i < at + BLOCK_SIZE ==> #[trigger] data[i] == 0
}

/// The sum that the header at `at` has to give: that of its bytes, with spaces in place of
/// the sum itself.
pub open spec fn header_sum(data: Seq<u8>, at: int) -> nat {
    byte_sum(data.subrange(at, at + 148)) + byte_sum(data.subrange(at + 156, at + BLOCK_SIZE))
        + 256
}

/// A header is read at `at`: there is a block, it is not zero, and its sum and its size can
/// be made out.
pub open spec fn is_header(data: Seq<u8>, at: int) -> bool {
    &&& 0 <= at
    &&& at + BLOCK_SIZE <= data.len()
    &&& !is_zero_block(data, at)
    &&& octal_field(data.subrange(at + 148, at + 156)) == Some(header_sum(data, at))
    &&& number_field(data, at + 124) is Some
}

/// The size of the member whose header is at `at`. An extended header before it, which
/// `given` is the content of, may give another than its own header.
pub open spec fn member_size(data: Seq<u8>, at: int, given: Option<Seq<u8>>) -> nat {
    if given is Some && given_size(given->0) is Some && !describes_others(kind(data, at)) {
        given_size(given->0)->0
    } else {
        number_field(data, at + 124)->0
    }
}

/// A size, rounded up to whole blocks.
pub open spec fn padded(size: nat) -> nat {
    if size % 512 == 0 {
        size
    } else {
        (size + 512 - size % 512) as nat
    }
}

/// The header at `at` is that of a sparse member and goes on in the blocks after it.
pub open spec fn goes_on(data: Seq<u8>, at: int) -> bool {
    kind(data, at) == SPARSE && is_gnu(data, at) && data[at + 482] == 1
}

/// The place after the blocks from `from` on in which a header goes on. Each says whether
/// another follows.
pub open spec fn after_header(data: Seq<u8>, from: int) -> Option<int>
    decreases data.len() - from,
{
    if from + BLOCK_SIZE > data.len() {
        None
    } else if data[from + 504] == 1 {
        after_header(data, from + BLOCK_SIZE)
    } else {
        Some(from + BLOCK_SIZE)
    }
}

/// The number of bytes from `at` on.
pub open spec fn bytes_after(data: Seq<u8>, at: int) -> int {
    if at <= data.len() {
        data.len() - at
    } else {
        0
    }
}

/// On the walk through the headers from `at` on there is none that goes on and whose member
/// has a vast size. `given` is the content of the extended header for the next member. The
/// walk ends where no header is read.
pub open spec fn fits_from(data: Seq<u8>, at: int, given: Option<Seq<u8>>) -> bool
    decreases bytes_after(data, at),
    via fits_from_shrinks
{
    if !is_header(data, at) {
        true
    } else {
        let size = member_size(data, at, given);
        let from = at + BLOCK_SIZE;
        let end = from + padded(size);
        if is_marked(data, at) && kind(data, at) == EXTENDED_HEADER {
            given is Some || end > data.len() || fits_from(
                data,
                end,
                Some(data.subrange(from, from + size)),
            )
        } else if is_marked(data, at) && (kind(data, at) == LONG_NAME || kind(data, at)
            == LONG_LINK) {
            fits_from(data, end, given)
        } else if goes_on(data, at) {
            size < VAST_SIZE && match after_header(data, from) {
                Some(content) => fits_from(data, content + padded(size), None),
                None => true,
            }
        } else {
            fits_from(data, end, None)
        }
    }
}

/// No header that is read in the archive goes on while its member has a vast size.
pub open spec fn sparse_members_fit(data: Seq<u8>) -> bool {
    fits_from(data, 0, None)
}

/// The blocks in which a header goes on are in the archive.
pub proof fn lemma_after_header(data: Seq<u8>, from: int)
    ensures
        after_header(data, from) matches Some(content) ==> from < content <= data.len(),
    decreases data.len() - from,
{
    if from + BLOCK_SIZE <= data.len() && data[from + 504] == 1 {
        lemma_after_header(data, from + BLOCK_SIZE);
    }
}

#[via_fn]
proof fn fits_from_shrinks(data: Seq<u8>, at: int, given: Option<Seq<u8>>) {
    lemma_after_header(data, at + BLOCK_SIZE);
}

/// The walk ends at the end of the archive.
pub proof fn lemma_past_end(data: Seq<u8>, at: int, given: Option<Seq<u8>>)
    requires
        at > data.len(),
    ensures
        fits_from(data, at, given),
{
}

pub proof fn lemma_upto(bytes: Seq<u8>, stop: u8)
    ensures
        upto(bytes, stop) <= bytes.len(),
        forall|i: int| 0 <= i < upto(bytes, stop) ==> #[trigger] bytes[i] != stop,
        upto(bytes, stop) < bytes.len() ==> bytes[upto(bytes, stop) as int] == stop,
    decreases bytes.len(),
{
    if bytes.len() > 0 && bytes[0] != stop {
        let rest = bytes.skip(1);
        lemma_upto(rest, stop);
        assert forall|i: int| 0 <= i < upto(bytes, stop) implies #[trigger] bytes[i] != stop by {
            if i > 0 {
                assert(bytes[i] == rest[i - 1]);
            }
        }
        if upto(bytes, stop) < bytes.len() {
            assert(bytes[upto(bytes, stop) as int] == rest[upto(rest, stop) as int]);
        }
    }
}

pub proof fn lemma_upto_is(bytes: Seq<u8>, stop: u8, n: int)
    requires
        0 <= n <= bytes.len(),
        forall|i: int| 0 <= i < n ==> #[trigger] bytes[i] != stop,
        n < bytes.len() ==> bytes[n] == stop,
    ensures
        upto(bytes, stop) == n,
{
    lemma_upto(bytes, stop);
    let k = upto(bytes, stop) as int;
    if k < n {
        assert(bytes[k] != stop);
    } else if n < k {
        assert(bytes[n] != stop);
    }
}

/// Further digits make no number smaller.
proof fn lemma_digits_grow(s: Seq<char>, radix: nat, n: int)
    requires
        radix >= 1,
        0 <= n <= s.len(),
    ensures
        digits_value(s.take(n), radix) <= digits_value(s, radix),
    decreases s.len(),
{
    if n < s.len() {
        let init = s.drop_last();
        lemma_digits_grow(init, radix, n);
        assert(init.take(n) == s.take(n));
        let value = digits_value(init, radix);
        assert(value <= value * radix) by (nonlinear_arith)
            requires
                radix >= 1,
        ;
    } else {
        assert(s.take(n) == s);
    }
}

/// The place of the first `stop` from `from` on and before `to`, or `to` where there is none.
fn find_byte(data: &[u8], from: usize, to: usize, stop: u8) -> (r: usize)
    requires
        from <= to <= data.len(),
    ensures
        from <= r <= to,
        r == from + upto(data@.subrange(from as int, to as int), stop),
{
    let mut i: usize = from;
    while i < to && data[i] != stop
        invariant
            from <= i <= to <= data.len(),
            forall|j: int| from <= j < i ==> #[trigger] data@[j] != stop,
        decreases to - i,
    {
        i = i + 1;
    }
    proof {
        lemma_upto_is(data@.subrange(from as int, to as int), stop, i - from);
    }
    i
}

/// Tells whether the bytes from `at` on are those of `part`.
fn part_is_at(data: &[u8], at: usize, part: &Vec<u8>) -> (r: bool)
    requires
        at + part.len() <= data.len(),
    ensures
        r == (data@.subrange(at as int, at + part@.len()) == part@),
{
    let mut i: usize = 0;
    while i < part.len()
        invariant
            i <= part.len(),
            at + part.len() <= data.len(),
            forall|j: int| 0 <= j < i ==> data@[at + j] == part@[j],
        decreases part.len() - i,
    {
        if data[at + i] != part[i] {
            assert(data@.subrange(at as int, at + part@.len())[i as int] != part@[i as int]);
            return false;
        }
        i = i + 1;
    }
    assert(data@.subrange(at as int, at + part@.len()) == part@);
    true
}

/// The bytes from `from` up to `to`, each as a character.
fn chars_at(data: &[u8], from: usize, to: usize) -> (r: Vec<char>)
    requires
        from <= to <= data.len(),
    ensures
        r@ == byte_chars(data@.subrange(from as int, to as int)),
{
    let mut r: Vec<char> = Vec::new();
    let mut i: usize = from;
    while i < to
        invariant
            from <= i <= to <= data.len(),
            r@ == byte_chars(data@.subrange(from as int, i as int)),
        decreases to - i,
    {
        r.push(data[i] as char);
        assert(data@.subrange(from as int, i + 1) == data@.subrange(from as int, i as int).push(
            data@[i as int],
        ));
        i = i + 1;
        assert(r@ == byte_chars(data@.subrange(from as int, i as int)));
    }
    r
}

/// Reads a number of 64 bits.
fn parse_number(chars: &Vec<char>, radix: u64) -> (r: Option<u64>)
    requires
        1 <= radix <= 10,
    ensures
        match r {
            Some(value) => number(chars@, radix as nat) == Some(value as nat),
            None => number(chars@, radix as nat) is None,
        },
{
    let start: usize = if chars.len() > 0 && chars[0] == '+' {
        1
    } else {
        0
    };
    let ghost digits = without_plus(chars@);
    assert(digits == chars@.skip(start as int));
    if start == chars.len() {
        return None;
    }
    let mut value: u64 = 0;
    let mut i: usize = start;
    while i < chars.len()
        invariant
            1 <= radix <= 10,
            start <= i <= chars.len(),
            digits == chars@.skip(start as int),
            digits == without_plus(chars@),
            forall|j: int|
                0 <= j < i - start ==> is_digit(#[trigger] digits[j], radix as nat),
            value == digits_value(digits.take(i - start), radix as nat),
        decreases chars.len() - i,
    {
        let code: u32 = chars[i] as u32;
        assert(digits[i - start] == chars@[i as int]);
        if code < 48 || code as u64 >= 48 + radix {
            assert(!is_digit(digits[i - start], radix as nat));
            return None;
        }
        proof {
            let done = digits.take(i - start + 1);
            assert(done.drop_last() == digits.take(i - start));
            assert(done.last() == digits[i - start]);
            lemma_digits_grow(digits, radix as nat, i - start + 1);
            assert(value * radix <= u64::MAX * 10) by (nonlinear_arith)
                requires
                    value <= u64::MAX,
                    1 <= radix <= 10,
            ;
            assert(0 <= value * radix) by (nonlinear_arith)
                requires
                    value >= 0,
                    radix >= 1,
            ;
        }
        let wide: u128 = value as u128 * radix as u128 + (code - 48) as u128;
        assert(wide == digits_value(digits.take(i - start + 1), radix as nat));
        if wide > u64::MAX as u128 {
            return None;
        }
        value = wide as u64;
        i = i + 1;
    }
    assert(digits.take(i - start) == digits);
    Some(value)
}

/// Calls `std::str::from_utf8`. The contract claims that it gives the text that the bytes
/// encode where they are valid UTF-8, and none otherwise.
#[verifier::external_body]
fn utf8_text(bytes: &[u8]) -> (r: Option<String>)
    ensures
        match r {
            Some(content) => vstd::utf8::valid_utf8(bytes@) && content@ == vstd::utf8::decode_utf8(
                bytes@,
            ),
            None => !vstd::utf8::valid_utf8(bytes@),
        },
{
    std::str::from_utf8(bytes).ok().map(str::to_owned)
}

/// Reads the field in octal form from `from` up to `to`.
fn read_octal(data: &[u8], from: usize, to: usize) -> (r: Option<u64>)
    requires
        from <= to <= data.len(),
    ensures
        match r {
            Some(value) => octal_field(data@.subrange(from as int, to as int)) == Some(
                value as nat,
            ),
            None => octal_field(data@.subrange(from as int, to as int)) is None,
        },
{
    let end: usize = find_byte(data, from, to, 0);
    let ghost field = data@.subrange(from as int, to as int);
    let content = vstd::slice::slice_subrange(data, from, end);
    assert(content@ == field.take(end - from));
    match utf8_text(content) {
        Some(found) => parse_number(&text::trim(&text::chars_of(found.as_str())), 8),
        None => None,
    }
}

/// Reads the number field of twelve bytes at `at`.
fn read_number(data: &[u8], at: usize) -> (r: Option<u64>)
    requires
        at + 12 <= data.len(),
    ensures
        match r {
            Some(value) => number_field(data@, at as int) == Some(value as nat),
            None => number_field(data@, at as int) is None,
        },
{
    if data[at] >= 0x80 {
        let high: u64 = data[at + 4] as u64 * 0x100_0000_0000_0000 + data[at + 5] as u64
            * 0x1_0000_0000_0000 + data[at + 6] as u64 * 0x100_0000_0000 + data[at + 7] as u64
            * 0x1_0000_0000;
        let low: u64 = data[at + 8] as u64 * 0x100_0000 + data[at + 9] as u64 * 0x1_0000 + data[at
            + 10] as u64 * 0x100 + data[at + 11] as u64;
        Some(high + low)
    } else {
        read_octal(data, at, at + 12)
    }
}

/// Reads the record in the line from `from` up to `to`. Returns the place of its key and
/// that of the equals sign.
fn read_record(data: &[u8], from: usize, to: usize) -> (r: Option<(usize, usize)>)
    requires
        from <= to <= data.len(),
    ensures
        match r {
            Some((key, equals)) => {
                &&& from <= key <= equals < to
                &&& record(data@.subrange(from as int, to as int)) == Some(
                    (
                        data@.subrange(key as int, equals as int),
                        data@.subrange(equals + 1, to as int),
                    ),
                )
            },
            None => record(data@.subrange(from as int, to as int)) is None,
        },
{
    let ghost line = data@.subrange(from as int, to as int);
    proof {
        reveal(record);
    }
    let space: usize = find_byte(data, from, to, 0x20);
    if space == to {
        return None;
    }
    let length = parse_number(&chars_at(data, from, space), 10);
    assert(line.take(space - from) == data@.subrange(from as int, space as int));
    let fits = match length {
        Some(length) => length > 0 && length - 1 == (to - from) as u64,
        None => false,
    };
    if !fits {
        return None;
    }
    let key: usize = space + 1;
    let equals: usize = find_byte(data, key, to, 0x3d);
    proof {
        let rest = line.skip(space - from + 1);
        assert(rest == data@.subrange(key as int, to as int));
        if equals < to {
            assert(rest.take(equals - key) == data@.subrange(key as int, equals as int));
            assert(rest.skip(equals - key + 1) == data@.subrange(equals + 1, to as int));
        }
    }
    if equals == to {
        return None;
    }
    Some((key, equals))
}

/// Reads the size that the extended header from `from` up to `to` gives.
fn read_given_size(data: &[u8], from: usize, to: usize) -> (r: Option<u64>)
    requires
        from <= to <= data.len(),
    ensures
        match r {
            Some(value) => given_size(data@.subrange(from as int, to as int)) == Some(
                value as nat,
            ),
            None => given_size(data@.subrange(from as int, to as int)) is None,
        },
{
    let mut name: Vec<u8> = Vec::new();
    name.push(0x73);
    name.push(0x69);
    name.push(0x7a);
    name.push(0x65);
    assert(name@ == size_key());
    let ghost whole = given_size(data@.subrange(from as int, to as int));
    let mut start: usize = from;
    loop
        invariant
            from <= start <= to <= data.len(),
            name@ == size_key(),
            whole == given_size(data@.subrange(from as int, to as int)),
            whole == given_size(data@.subrange(start as int, to as int)),
        decreases to - start,
    {
        let ghost content = data@.subrange(start as int, to as int);
        let end: usize = find_byte(data, start, to, 0x0a);
        assert(content.take(end - start) == data@.subrange(start as int, end as int));
        match read_record(data, start, end) {
            Some((key, equals)) => {
                if equals - key == 4 && part_is_at(data, key, &name) {
                    return parse_number(&chars_at(data, equals + 1, end), 10);
                }
                assert(data@.subrange(key as int, equals as int) != size_key());
                if end == to {
                    return None;
                }
                assert(content.skip(end - start + 1) == data@.subrange(end + 1, to as int));
                start = end + 1;
            },
            None => {
                return None;
            },
        }
    }
}

/// Adds up the bytes from `from` up to `to`.
fn sum_bytes(data: &[u8], from: usize, to: usize) -> (r: u64)
    requires
        from <= to <= data.len(),
        to - from <= BLOCK_SIZE,
    ensures
        r == byte_sum(data@.subrange(from as int, to as int)),
        r <= 255 * (to - from),
{
    let mut r: u64 = 0;
    let mut i: usize = from;
    while i < to
        invariant
            from <= i <= to <= data.len(),
            to - from <= BLOCK_SIZE,
            r == byte_sum(data@.subrange(from as int, i as int)),
            r <= 255 * (i - from),
        decreases to - i,
    {
        r = r + data[i] as u64;
        assert(data@.subrange(from as int, i + 1).drop_last() == data@.subrange(
            from as int,
            i as int,
        ));
        i = i + 1;
    }
    r
}

/// Tells whether all bytes of the block at `at` are zero.
fn block_is_zero(data: &[u8], at: usize) -> (r: bool)
    requires
        at + BLOCK_SIZE <= data.len(),
    ensures
        r == is_zero_block(data@, at as int),
{
    let mut i: usize = at;
    while i < at + BLOCK_SIZE
        invariant
            at <= i <= at + BLOCK_SIZE <= data.len(),
            forall|j: int| at <= j < i ==> #[trigger] data@[j] == 0,
        decreases at + BLOCK_SIZE - i,
    {
        if data[i] != 0 {
            assert(data@[i as int] != 0);
            return false;
        }
        i = i + 1;
    }
    true
}

/// Reads the size in the header at `at`, where a header is read there.
fn read_header(data: &[u8], at: usize) -> (r: Option<u64>)
    requires
        at <= data.len(),
    ensures
        match r {
            Some(size) => is_header(data@, at as int) && number_field(data@, at + 124) == Some(
                size as nat,
            ),
            None => !is_header(data@, at as int),
        },
{
    if data.len() - at < BLOCK_SIZE || block_is_zero(data, at) {
        return None;
    }
    let sum: u64 = sum_bytes(data, at, at + 148) + sum_bytes(data, at + 156, at + BLOCK_SIZE) + 256;
    match read_octal(data, at + 148, at + 156) {
        Some(given) => if given == sum {
            read_number(data, at + 124)
        } else {
            None
        },
        None => None,
    }
}

/// The place after the blocks from `from` on in which a header goes on.
fn skip_header(data: &[u8], from: usize) -> (r: Option<usize>)
    requires
        from <= data.len(),
    ensures
        match r {
            Some(content) => from < content <= data.len() && after_header(data@, from as int)
                == Some(content as int),
            None => after_header(data@, from as int) is None,
        },
{
    let mut at: usize = from;
    while data.len() - at >= BLOCK_SIZE
        invariant
            from <= at <= data.len(),
            after_header(data@, from as int) == after_header(data@, at as int),
        decreases data.len() - at,
    {
        if data[at + 504] != 1 {
            return Some(at + BLOCK_SIZE);
        }
        at = at + BLOCK_SIZE;
    }
    None
}

/// The place after a size, rounded up to whole blocks, from `from` on, where that is in the
/// archive.
fn skip_content(from: usize, size: u64, length: usize) -> (r: Option<usize>)
    requires
        from <= length,
    ensures
        match r {
            Some(end) => end == from + padded(size as nat) && from + size <= end <= length,
            None => from + padded(size as nat) > length,
        },
{
    let rest: usize = length - from;
    if size > rest as u64 {
        return None;
    }
    let size: usize = size as usize;
    let padding: usize = if size % BLOCK_SIZE == 0 {
        0
    } else {
        BLOCK_SIZE - size % BLOCK_SIZE
    };
    if rest - size < padding {
        return None;
    }
    Some(from + size + padding)
}

/// The content of an extended header that stands at the given places.
spec fn content_at(data: Seq<u8>, places: Option<(usize, usize)>) -> Option<Seq<u8>> {
    match places {
        Some((from, to)) => Some(data.subrange(from as int, to as int)),
        None => None,
    }
}

/// Tells whether no header that is read in the archive goes on while its member has a vast
/// size.
pub fn has_fitting_sparse_members(data: &[u8]) -> (r: bool)
    ensures
        r == sparse_members_fit(data@),
{
    let mut gnu: Vec<u8> = Vec::new();
    gnu.push(0x75);
    gnu.push(0x73);
    gnu.push(0x74);
    gnu.push(0x61);
    gnu.push(0x72);
    gnu.push(0x20);
    gnu.push(0x20);
    gnu.push(0x00);
    assert(gnu@ == gnu_magic());
    let mut ustar: Vec<u8> = Vec::new();
    ustar.push(0x75);
    ustar.push(0x73);
    ustar.push(0x74);
    ustar.push(0x61);
    ustar.push(0x72);
    ustar.push(0x00);
    ustar.push(0x30);
    ustar.push(0x30);
    assert(ustar@ == ustar_magic());
    let length: usize = data.len();
    let mut at: usize = 0;
    let mut given: Option<(usize, usize)> = None;
    loop
        invariant
            at <= length == data.len(),
            gnu@ == gnu_magic(),
            ustar@ == ustar_magic(),
            given matches Some((from, to)) ==> from <= to <= data.len(),
            fits_from(data@, 0, None) == fits_from(data@, at as int, content_at(data@, given)),
        decreases length - at,
    {
        let own_size: u64 = match read_header(data, at) {
            Some(size) => size,
            None => {
                return true;
            },
        };
        let kind: u8 = data[at + 156];
        let describes: bool = kind == EXTENDED_HEADER || kind == GLOBAL_HEADER || kind == LONG_NAME
            || kind == LONG_LINK;
        let given_size = match given {
            Some((from, to)) => read_given_size(data, from, to),
            None => None,
        };
        let size: u64 = match given_size {
            Some(size) => if describes {
                own_size
            } else {
                size
            },
            None => own_size,
        };
        assert(size == member_size(data@, at as int, content_at(data@, given)));
        let in_gnu: bool = part_is_at(data, at + 257, &gnu);
        let marked: bool = in_gnu || part_is_at(data, at + 257, &ustar);
        let mut from: usize = at + BLOCK_SIZE;
        let mut next_given: Option<(usize, usize)> = None;
        if marked && kind == EXTENDED_HEADER {
            if given.is_some() || size > (length - from) as u64 {
                return true;
            }
            next_given = Some((from, from + size as usize));
        } else if marked && (kind == LONG_NAME || kind == LONG_LINK) {
            next_given = given;
        } else if kind == SPARSE && in_gnu && data[at + 482] == 1 {
            if size >= VAST_SIZE {
                return false;
            }
            from = match skip_header(data, from) {
                Some(content) => content,
                None => {
                    return true;
                },
            };
        }
        match skip_content(from, size, length) {
            Some(end) => {
                at = end;
                given = next_given;
            },
            None => {
                proof {
                    let end = from + padded(size as nat);
                    lemma_past_end(data@, end, content_at(data@, next_given));
                }
                return true;
            },
        }
    }
}

/// The bytes from `at` on are the same in both.
pub open spec fn same_from(data: Seq<u8>, other: Seq<u8>, at: int) -> bool {
    &&& data.len() == other.len()
    &&& forall|i: int| at <= i < data.len() ==> #[trigger] data[i] == other[i]
}

proof fn lemma_same_after_header(data: Seq<u8>, other: Seq<u8>, from: int)
    requires
        0 <= from,
        same_from(data, other, from),
    ensures
        after_header(data, from) == after_header(other, from),
    decreases data.len() - from,
{
    if from + BLOCK_SIZE <= data.len() {
        assert(data[from + 504] == other[from + 504]);
        if data[from + 504] == 1 {
            lemma_same_after_header(data, other, from + BLOCK_SIZE);
        }
    }
}

/// A header is read the same where its bytes are the same.
proof fn lemma_same_header(data: Seq<u8>, other: Seq<u8>, at: int)
    requires
        0 <= at,
        at + BLOCK_SIZE <= data.len() == other.len(),
        forall|i: int| at <= i < at + BLOCK_SIZE ==> #[trigger] data[i] == other[i],
    ensures
        is_header(data, at) == is_header(other, at),
        number_field(data, at + 124) == number_field(other, at + 124),
        kind(data, at) == kind(other, at),
        is_gnu(data, at) == is_gnu(other, at),
        is_marked(data, at) == is_marked(other, at),
        goes_on(data, at) == goes_on(other, at),
{
    assert(data.subrange(at, at + 148) == other.subrange(at, at + 148));
    assert(data.subrange(at + 156, at + BLOCK_SIZE) == other.subrange(at + 156, at + BLOCK_SIZE));
    assert(data.subrange(at + 148, at + 156) == other.subrange(at + 148, at + 156));
    assert(data.subrange(at + 124, at + 136) == other.subrange(at + 124, at + 136));
    assert(data.subrange(at + 257, at + 265) == other.subrange(at + 257, at + 265));
    assert(is_zero_block(data, at) == is_zero_block(other, at)) by {
        if is_zero_block(data, at) {
            assert forall|i: int| at <= i < at + BLOCK_SIZE implies #[trigger] other[i] == 0 by {
                assert(data[i] == other[i]);
            }
        }
        if is_zero_block(other, at) {
            assert forall|i: int| at <= i < at + BLOCK_SIZE implies #[trigger] data[i] == 0 by {
                assert(data[i] == other[i]);
            }
        }
    }
}

/// The walk is the same where the bytes from its start on are the same.
proof fn lemma_same_walk(data: Seq<u8>, other: Seq<u8>, at: int, given: Option<Seq<u8>>)
    requires
        0 <= at,
        same_from(data, other, at),
    ensures
        fits_from(data, at, given) == fits_from(other, at, given),
    decreases bytes_after(data, at),
{
    if at + BLOCK_SIZE <= data.len() {
        lemma_same_header(data, other, at);
        if is_header(data, at) {
            let size = member_size(data, at, given);
            let from = at + BLOCK_SIZE;
            let end = from + padded(size);
            if is_marked(data, at) && kind(data, at) == EXTENDED_HEADER {
                if end <= data.len() {
                    let content = data.subrange(from, from + size);
                    assert(content == other.subrange(from, from + size));
                    lemma_same_walk(data, other, end, Some(content));
                }
            } else if is_marked(data, at) && (kind(data, at) == LONG_NAME || kind(data, at)
                == LONG_LINK) {
                lemma_same_walk(data, other, end, given);
            } else if goes_on(data, at) {
                lemma_after_header(data, from);
                lemma_same_after_header(data, other, from);
                if after_header(data, from) is Some {
                    lemma_same_walk(data, other, after_header(data, from)->0 + padded(size), None);
                }
            } else {
                lemma_same_walk(data, other, end, None);
            }
        }
    }
}

/// What a member holds makes no difference to the walk: where the header at `at` is that of
/// a member that is neither sparse nor describes others, two archives that differ in its
/// content alone fit or do not fit alike.
pub proof fn law_content_is_passed_over(
    data: Seq<u8>,
    other: Seq<u8>,
    at: int,
    given: Option<Seq<u8>>,
)
    requires
        is_header(data, at),
        kind(data, at) != SPARSE,
        !describes_others(kind(data, at)),
        data.len() == other.len(),
        forall|i: int|
            at <= i < at + BLOCK_SIZE || at + BLOCK_SIZE + padded(member_size(data, at, given)) <= i
                < data.len() ==> #[trigger] data[i] == other[i],
    ensures
        fits_from(data, at, given) == fits_from(other, at, given),
{
    let end = at + BLOCK_SIZE + padded(member_size(data, at, given));
    lemma_same_header(data, other, at);
    lemma_same_walk(data, other, end, None);
}

/// The members of a tar archive in their order, each with its path, where that is Unicode,
/// and its content; or why they cannot be read.
pub uninterp spec fn archive_members(data: Seq<u8>) -> Result<
    Seq<(Option<Seq<char>>, Seq<char>)>,
    Seq<char>,
>;

/// What the members of an archive say.
pub open spec fn member_views(members: Seq<(Option<String>, String)>) -> Seq<
    (Option<Seq<char>>, Seq<char>),
> {
    members.map_values(
        |member: (Option<String>, String)| (actions::optional_text(member.0), member.1@),
    )
}

/// Calls `tar::Archive::entries` on the bytes, and on each entry `tar::Entry::path_bytes`
/// and its `Read` implementation. The contract claims that the members, or the error,
/// depend on the bytes and on nothing else. It asks that no header that goes on in further
/// blocks has a vast size, since the crate adds these blocks to the place of the next header
/// without a check for overflow. The holes of a sparse member are filled when it is read,
/// for which there may be too little memory.
#[verifier::external_body]
pub(crate) fn list_archive(data: &[u8]) -> (r: Result<Vec<(Option<String>, String)>, String>)
    requires
        sparse_members_fit(data@),
    ensures
        match r {
            Ok(members) => archive_members(data@) == Ok::<
                Seq<(Option<Seq<char>>, Seq<char>)>,
                Seq<char>,
            >(member_views(members@)),
            Err(reason) => archive_members(data@) == Err::<
                Seq<(Option<Seq<char>>, Seq<char>)>,
                Seq<char>,
            >(reason@),
        },
{
    let mut members = Vec::new();
    for entry in tar::Archive::new(data).entries().map_err(|error| error.to_string())? {
        let mut entry = entry.map_err(|error| error.to_string())?;
        let path = String::from_utf8(entry.path_bytes().into_owned()).ok();
        let content = std::io::read_to_string(&mut entry).map_err(|error| error.to_string())?;
        members.push((path, content));
    }
    Ok(members)
}

} // verus!
