//! What the walk through an archive refuses, and what it passes over.

use crate::archive;
use crate::archive::{has_fitting_sparse_members, BLOCK_SIZE};
use crate::text;
use crate::text_laws;
use vstd::prelude::*;

verus! {

/// The bytes at `at` are " size=", as an extended header has them before a size, and then
/// nineteen or more that a number has.
pub open spec fn long_size_at(data: Seq<u8>, at: int) -> bool {
    &&& 0 <= at
    &&& at + 25 <= data.len()
    &&& data.subrange(at, at + 6) == seq![0x20u8, 0x73, 0x69, 0x7a, 0x65, 0x3d]
    &&& forall|i: int|
        at + 6 <= i < at + 25 ==> (#[trigger] data[i] == 0x2b || 0x30 <= data[i] <= 0x39)
}

/// The block at `at` is a header of a sparse member in the GNU format which goes on in the
/// blocks after it, and its size, or one in an extended header before it, is 2^63 or
/// more as far as its bytes tell.
pub open spec fn is_vast_header(data: Seq<u8>, at: int) -> bool {
    &&& 0 <= at
    &&& at + 512 <= data.len()
    &&& at % 512 == 0
    &&& data[at + 156] == 0x53
    &&& data.subrange(at + 257, at + 265) == seq![0x75u8, 0x73, 0x74, 0x61, 0x72, 0x20, 0x20, 0x00]
    &&& data[at + 482] == 1
    &&& (data[at + 124] >= 0x80 && data[at + 128] >= 0x80) || exists|j: int|
        j + 25 <= at && #[trigger] long_size_at(data, j)
}

/// A power of a base.
spec fn power(base: nat, n: nat) -> nat
    decreases n,
{
    if n == 0 {
        1
    } else {
        base * power(base, (n - 1) as nat)
    }
}

proof fn lemma_power_grows(base: nat, m: nat, n: nat)
    requires
        base >= 1,
        m <= n,
    ensures
        1 <= power(base, m) <= power(base, n),
    decreases n,
{
    if n > 0 {
        let k = (n - 1) as nat;
        lemma_power_grows(base, if m <= k { m } else { k }, k);
        let p = power(base, k);
        assert(p <= base * p) by (nonlinear_arith)
            requires
                base >= 1,
        ;
    }
}

/// Digits spell less than the power of the base with as many zeros.
proof fn lemma_digits_bound(s: Seq<char>, radix: nat)
    requires
        radix >= 1,
        forall|i: int| 0 <= i < s.len() ==> archive::is_digit(#[trigger] s[i], radix),
    ensures
        archive::digits_value(s, radix) < power(radix, s.len()),
    decreases s.len(),
{
    if s.len() > 0 {
        let init = s.drop_last();
        assert forall|i: int| 0 <= i < init.len() implies archive::is_digit(
            #[trigger] init[i],
            radix,
        ) by {
            assert(init[i] == s[i]);
        }
        lemma_digits_bound(init, radix);
        assert(archive::is_digit(s[s.len() - 1], radix));
        let v = archive::digits_value(init, radix);
        let p = power(radix, init.len());
        assert(v * radix + radix <= radix * p) by (nonlinear_arith)
            requires
                v < p,
                radix >= 1,
        ;
    }
}

/// A text has no more characters than its encoding has bytes.
proof fn lemma_decode_length(bytes: Seq<u8>)
    requires
        vstd::utf8::valid_utf8(bytes),
    ensures
        vstd::utf8::decode_utf8(bytes).len() <= bytes.len(),
    decreases bytes.len(),
{
    if bytes.len() > 0 {
        let rest = vstd::utf8::pop_first_scalar(bytes);
        lemma_decode_length(rest);
    }
}

proof fn lemma_trimmed_length(s: Seq<char>)
    ensures
        text::trimmed(s).len() <= s.len(),
{
    text::lemma_span(s, text::is_blank());
    lemma_trim_end_length(text::trim_start(s));
}

proof fn lemma_trim_end_length(s: Seq<char>)
    ensures
        text::trim_end(s).len() <= s.len(),
    decreases s.len(),
{
    if s.len() > 0 && text::blank(s.last()) {
        lemma_trim_end_length(s.drop_last());
    }
}

/// A field in octal form holds no vast size.
proof fn lemma_octal_is_small(field: Seq<u8>)
    requires
        field.len() == 12,
        archive::octal_field(field) is Some,
    ensures
        archive::octal_field(field)->0 < 0x8000_0000_0000_0000,
{
    archive::lemma_upto(field, 0);
    let content = field.take(archive::upto(field, 0) as int);
    let decoded = vstd::utf8::decode_utf8(content);
    lemma_decode_length(content);
    lemma_trimmed_length(decoded);
    let digits = archive::without_plus(text::trimmed(decoded));
    lemma_digits_bound(digits, 8);
    lemma_power_grows(8, digits.len(), 12);
    assert(power(8, 12) < 0x8000_0000_0000_0000) by {
        reveal_with_fuel(power, 13);
    }
}

/// A vast number has nineteen bytes or more, all of which are digits or a plus sign.
proof fn lemma_vast_number(value: Seq<u8>)
    requires
        archive::number(archive::byte_chars(value), 10) is Some,
        archive::number(archive::byte_chars(value), 10)->0 >= 0x8000_0000_0000_0000,
    ensures
        value.len() >= 19,
        forall|i: int|
            0 <= i < value.len() ==> (#[trigger] value[i] == 0x2b || 0x30 <= value[i] <= 0x39),
{
    let chars = archive::byte_chars(value);
    let digits = archive::without_plus(chars);
    lemma_digits_bound(digits, 10);
    if digits.len() < 19 {
        lemma_power_grows(10, digits.len(), 18);
        assert(power(10, 18) < 0x8000_0000_0000_0000) by {
            reveal_with_fuel(power, 19);
        }
    }
    assert forall|i: int| 0 <= i < value.len() implies (#[trigger] value[i] == 0x2b || 0x30
        <= value[i] <= 0x39) by {
        assert(chars[i] == value[i] as char);
        let k = i - (chars.len() - digits.len());
        if k >= 0 {
            assert(digits[k] == chars[i]);
            assert(archive::is_digit(digits[k], 10));
        } else {
            assert(chars[0] == '+');
        }
    }
}

/// A vast size that an extended header gives stands in it as such.
proof fn lemma_vast_given_size(content: Seq<u8>) -> (at: int)
    requires
        archive::given_size(content) is Some,
        archive::given_size(content)->0 >= 0x8000_0000_0000_0000,
    ensures
        long_size_at(content, at),
    decreases content.len(),
{
    archive::lemma_upto(content, 0x0a);
    let end = archive::upto(content, 0x0a) as int;
    let line = content.take(end);
    let (key, value) = archive::record(line)->0;
    reveal(archive::record);
    archive::lemma_upto(line, 0x20);
    let space = archive::upto(line, 0x20) as int;
    let rest = line.skip(space + 1);
    archive::lemma_upto(rest, 0x3d);
    let equals = archive::upto(rest, 0x3d) as int;
    assert(key == rest.take(equals));
    assert(value == rest.skip(equals + 1));
    if key == archive::size_key() {
        lemma_vast_number(value);
        assert(equals == 4);
        assert(content[space] == line[space]);
        assert forall|i: int| 0 <= i < 4 implies #[trigger] content[space + 1 + i] == key[i] by {
            assert(key[i] == rest[i]);
        }
        assert(content[space + 1] == key[0]);
        assert(content[space + 2] == key[1]);
        assert(content[space + 3] == key[2]);
        assert(content[space + 4] == key[3]);
        assert(content[space + 5] == rest[4]);
        assert(content.subrange(space, space + 6) == seq![0x20u8, 0x73, 0x69, 0x7a, 0x65, 0x3d]);
        assert forall|i: int| space + 6 <= i < space + 25 implies (#[trigger] content[i] == 0x2b
            || 0x30 <= content[i] <= 0x39) by {
            assert(content[i] == value[i - space - 6]);
        }
        space
    } else {
        let later = content.skip(end + 1);
        let at = lemma_vast_given_size(later);
        assert(content.subrange(end + 1 + at, end + 1 + at + 6) == later.subrange(at, at + 6));
        assert forall|i: int|
            end + 1 + at + 6 <= i < end + 1 + at + 25 implies (#[trigger] content[i] == 0x2b || 0x30
            <= content[i] <= 0x39) by {
            assert(content[i] == later[i - end - 1]);
        }
        end + 1 + at
    }
}

/// The header at which the walk from `at` on stops short.
proof fn lemma_refused(data: Seq<u8>, at: int, from: int, to: int, given: Option<Seq<u8>>) -> (r:
    int)
    requires
        !archive::fits_from(data, at, given),
        0 <= at,
        at % 512 == 0,
        given is Some ==> 0 <= from <= to <= at && to <= data.len() && given->0 == data.subrange(
            from,
            to,
        ),
    ensures
        is_vast_header(data, r),
    decreases archive::bytes_after(data, at),
{
    let size = archive::member_size(data, at, given);
    let content = at + BLOCK_SIZE;
    let end = content + archive::padded(size);
    if archive::is_marked(data, at) && archive::kind(data, at) == archive::EXTENDED_HEADER {
        lemma_refused(
            data,
            end,
            content,
            content + size,
            Some(data.subrange(content, content + size)),
        )
    } else if archive::is_marked(data, at) && (archive::kind(data, at) == archive::LONG_NAME
        || archive::kind(data, at) == archive::LONG_LINK) {
        lemma_refused(data, end, from, to, given)
    } else if archive::goes_on(data, at) {
        if size < archive::VAST_SIZE {
            archive::lemma_after_header(data, content);
            lemma_after_header_aligned(data, content);
            lemma_refused(
                data,
                archive::after_header(data, content)->0 + archive::padded(size),
                0,
                0,
                None,
            )
        } else {
            if given is Some && archive::given_size(given->0) is Some {
                let j = lemma_vast_given_size(given->0);
                let section = given->0;
                assert(data.subrange(from + j, from + j + 6) == section.subrange(j, j + 6));
                assert forall|i: int|
                    from + j + 6 <= i < from + j + 25 implies (#[trigger] data[i] == 0x2b || 0x30
                    <= data[i] <= 0x39) by {
                    assert(data[i] == section[i - from]);
                }
                assert(long_size_at(data, from + j));
            } else if data[at + 124] < 0x80 {
                lemma_octal_is_small(data.subrange(at + 124, at + 136));
            }
            at
        }
    } else {
        lemma_refused(data, end, 0, 0, None)
    }
}

proof fn lemma_after_header_aligned(data: Seq<u8>, from: int)
    requires
        from % 512 == 0,
    ensures
        archive::after_header(data, from) matches Some(content) ==> content % 512 == 0,
    decreases data.len() - from,
{
    if from + BLOCK_SIZE <= data.len() && data[from + 504] == 1 {
        lemma_after_header_aligned(data, from + BLOCK_SIZE);
    }
}

/// An archive is refused only where it has, at a whole block, the header of a sparse member
/// in the GNU format that goes on, with a size beyond any archive. Whatever other members it
/// has (files, directories, links, long names), it is not refused.
pub proof fn law_refused_only_for_vast_headers(data: &[u8], r: bool)
    requires
        call_ensures(has_fitting_sparse_members, (data,), r),
    ensures
        !r ==> exists|at: int| #[trigger] is_vast_header(data@, at),
{
    if !r {
        let at = lemma_refused(data@, 0, 0, 0, None);
        assert(is_vast_header(data@, at));
    }
}

/// The walk sees nothing before its start.
proof fn lemma_shift(data: Seq<u8>, k: int, at: int, given: Option<Seq<u8>>)
    requires
        0 <= k <= data.len(),
        0 <= at,
    ensures
        archive::fits_from(data, k + at, given) == archive::fits_from(data.skip(k), at, given),
    decreases archive::bytes_after(data, k + at),
{
    let later = data.skip(k);
    let here = k + at;
    if here + BLOCK_SIZE <= data.len() {
        lemma_shift_header(data, k, at);
        if archive::is_header(data, here) {
            let size = archive::member_size(data, here, given);
            let end = at + BLOCK_SIZE + archive::padded(size);
            if archive::is_marked(data, here) && archive::kind(data, here)
                == archive::EXTENDED_HEADER {
                let content = data.subrange(here + BLOCK_SIZE, here + BLOCK_SIZE + size);
                if k + end <= data.len() {
                    assert(content == later.subrange(at + BLOCK_SIZE, at + BLOCK_SIZE + size));
                    lemma_shift(data, k, end, Some(content));
                }
            } else if archive::is_marked(data, here) && (archive::kind(data, here)
                == archive::LONG_NAME || archive::kind(data, here) == archive::LONG_LINK) {
                lemma_shift(data, k, end, given);
            } else if archive::goes_on(data, here) {
                archive::lemma_after_header(data, here + BLOCK_SIZE);
                lemma_shift_after_header(data, k, at + BLOCK_SIZE);
                if archive::after_header(later, at + BLOCK_SIZE) is Some {
                    lemma_shift(
                        data,
                        k,
                        archive::after_header(later, at + BLOCK_SIZE)->0 + archive::padded(size),
                        None,
                    );
                }
            } else {
                lemma_shift(data, k, end, None);
            }
        }
    }
}

proof fn lemma_shift_after_header(data: Seq<u8>, k: int, from: int)
    requires
        0 <= k <= data.len(),
        0 <= from,
    ensures
        match archive::after_header(data.skip(k), from) {
            Some(content) => archive::after_header(data, k + from) == Some(k + content) && content
                > from,
            None => archive::after_header(data, k + from) is None,
        },
    decreases data.len() - k - from,
{
    let later = data.skip(k);
    if k + from + BLOCK_SIZE <= data.len() {
        assert(later[from + 504] == data[k + from + 504]);
        if later[from + 504] == 1 {
            lemma_shift_after_header(data, k, from + BLOCK_SIZE);
        }
    }
}

proof fn lemma_shift_header(data: Seq<u8>, k: int, at: int)
    requires
        0 <= k,
        0 <= at,
        k + at + BLOCK_SIZE <= data.len(),
    ensures
        ({
            let later = data.skip(k);
            let here = k + at;
            &&& archive::is_header(data, here) == archive::is_header(later, at)
            &&& archive::number_field(data, here + 124) == archive::number_field(later, at + 124)
            &&& archive::kind(data, here) == archive::kind(later, at)
            &&& archive::is_gnu(data, here) == archive::is_gnu(later, at)
            &&& archive::is_marked(data, here) == archive::is_marked(later, at)
            &&& archive::goes_on(data, here) == archive::goes_on(later, at)
        }),
{
    let later = data.skip(k);
    let here = k + at;
    assert(data.subrange(here, here + 148) == later.subrange(at, at + 148));
    assert(data.subrange(here + 156, here + BLOCK_SIZE) == later.subrange(at + 156, at
        + BLOCK_SIZE));
    assert(data.subrange(here + 148, here + 156) == later.subrange(at + 148, at + 156));
    assert(data.subrange(here + 124, here + 136) == later.subrange(at + 124, at + 136));
    assert(data.subrange(here + 257, here + 265) == later.subrange(at + 257, at + 265));
    assert(archive::is_zero_block(data, here) == archive::is_zero_block(later, at)) by {
        if archive::is_zero_block(data, here) {
            assert forall|i: int| at <= i < at + BLOCK_SIZE implies #[trigger] later[i] == 0 by {
                assert(data[i + k] == later[i]);
            }
        }
        if archive::is_zero_block(later, at) {
            assert forall|i: int| here <= i < here + BLOCK_SIZE implies #[trigger] data[i]
                == 0 by {
                assert(data[i] == later[i - k]);
            }
        }
    }
}

/// A block is a header with a right sum and the given size: it is not all zero, its bytes
/// without those of the sum, and eight spaces, add up to the sum, and the size can be made
/// out.
#[verifier::opaque]
pub open spec fn is_header_block(block: Seq<u8>, size: nat) -> bool {
    &&& block.len() == 512
    &&& exists|i: int| 0 <= i < 512 && #[trigger] block[i] != 0
    &&& archive::octal_field(block.subrange(148, 156)) == Some(
        archive::byte_sum(block.take(148)) + archive::byte_sum(block.skip(156)) + 8 * 0x20,
    )
    &&& archive::number_field(block, 124) == Some(size)
}

proof fn lemma_header_block(block: Seq<u8>, size: nat, data: Seq<u8>)
    requires
        is_header_block(block, size),
        data.len() >= 512,
        data.take(512) == block,
    ensures
        archive::is_header(data, 0),
        archive::number_field(data, 124) == Some(size),
        archive::kind(data, 0) == block[156],
        data.subrange(257, 265) == block.subrange(257, 265),
        data[482] == block[482],
{
    reveal(is_header_block);
    assert forall|i: int| 0 <= i < 512 implies #[trigger] data[i] == block[i] by {
        assert(data.take(512)[i] == data[i]);
    }
    assert(data.subrange(0, 148) == block.take(148));
    assert(data.subrange(156, 512) == block.skip(156));
    assert(data.subrange(148, 156) == block.subrange(148, 156));
    assert(data.subrange(124, 136) == block.subrange(124, 136));
    assert(data.subrange(257, 265) == block.subrange(257, 265));
    let i = choose|i: int| 0 <= i < 512 && #[trigger] block[i] != 0;
    assert(data[i] != 0);
}

proof fn lemma_padded(size: nat, padding: nat)
    requires
        padding < 512,
        (size + padding) % 512 == 0,
    ensures
        archive::padded(size) == size + padding,
{
}

proof fn lemma_parts(
    header: Seq<u8>,
    size: nat,
    content: Seq<u8>,
    padding: Seq<u8>,
    rest: Seq<u8>,
    data: Seq<u8>,
)
    requires
        is_header_block(header, size),
        data == header + content + padding + rest,
    ensures
        data.len() >= 512 + content.len() + padding.len(),
        data.take(512) == header,
        data.subrange(512, 512 + content.len() as int) == content,
        data.skip(512 + (content.len() + padding.len()) as int) == rest,
{
    reveal(is_header_block);
}

/// From a plain header at the start the walk goes on after the content.
proof fn lemma_first_member(header: Seq<u8>, size: nat, data: Seq<u8>)
    requires
        is_header_block(header, size),
        header[156] != 0x53 && header[156] != 0x78,
        data.len() >= 512,
        data.take(512) == header,
    ensures
        archive::fits_from(data, 0, None) == archive::fits_from(
            data,
            512 + archive::padded(size) as int,
            None,
        ),
{
    lemma_header_block(header, size, data);
}

/// A member before an archive, of whatever kind but those that describe others and sparse
/// ones, makes no difference: with it and without it the archive is refused or not. Its
/// content can be any bytes; they are filled up to whole blocks.
pub proof fn law_member_is_passed_over(
    header: Seq<u8>,
    content: Seq<u8>,
    padding: Seq<u8>,
    data: &[u8],
    rest: &[u8],
    r: bool,
    r_rest: bool,
)
    requires
        is_header_block(header, content.len()),
        header[156] != 0x53 && header[156] != 0x78 && header[156] != 0x4c && header[156] != 0x4b,
        padding.len() < 512,
        (content.len() + padding.len()) % 512 == 0,
        data@ == header + content + padding + rest@,
        call_ensures(has_fitting_sparse_members, (data,), r),
        call_ensures(has_fitting_sparse_members, (rest,), r_rest),
    ensures
        r == r_rest,
{
    lemma_parts(header, content.len(), content, padding, rest@, data@);
    lemma_padded(content.len(), padding.len());
    lemma_first_member(header, content.len(), data@);
    lemma_shift(data@, 512 + archive::padded(content.len()) as int, 0, None);
}

/// A long name or a long link before an archive makes no difference either.
pub proof fn law_long_name_is_passed_over(
    header: Seq<u8>,
    content: Seq<u8>,
    padding: Seq<u8>,
    data: &[u8],
    rest: &[u8],
    r: bool,
    r_rest: bool,
)
    requires
        is_header_block(header, content.len()),
        header[156] == 0x4c || header[156] == 0x4b,
        padding.len() < 512,
        (content.len() + padding.len()) % 512 == 0,
        data@ == header + content + padding + rest@,
        call_ensures(has_fitting_sparse_members, (data,), r),
        call_ensures(has_fitting_sparse_members, (rest,), r_rest),
    ensures
        r == r_rest,
{
    lemma_parts(header, content.len(), content, padding, rest@, data@);
    lemma_padded(content.len(), padding.len());
    lemma_first_member(header, content.len(), data@);
    lemma_shift(data@, 512 + archive::padded(content.len()) as int, 0, None);
}

/// A sparse member in the GNU format whose header goes on is refused where its size is 2^63
/// or more, and a sparse member whose header does not go on is passed over.
pub proof fn law_sparse_member(header: Seq<u8>, size: nat, data: &[u8], rest: &[u8], r: bool, r_rest: bool)
    requires
        is_header_block(header, size),
        header[156] == 0x53,
        header.subrange(257, 265) == seq![0x75u8, 0x73, 0x74, 0x61, 0x72, 0x20, 0x20, 0x00],
        data@.len() >= 512,
        data@.take(512) == header,
        call_ensures(has_fitting_sparse_members, (data,), r),
        call_ensures(has_fitting_sparse_members, (rest,), r_rest),
    ensures
        header[482] == 1 && size >= 0x8000_0000_0000_0000 ==> !r,
        header[482] != 1 && size % 512 == 0 && 512 + size <= data@.len() && rest@ == data@.skip(
            512 + size as int,
        ) ==> r == r_rest,
{
    lemma_header_block(header, size, data@);
    if header[482] != 1 && size % 512 == 0 && 512 + size <= data@.len() {
        lemma_shift(data@, 512 + size as int, 0, None);
    }
}

/// An archive that is shorter than a block, or begins with a block of zeros, is not refused.
pub proof fn law_end_of_archive(data: &[u8], r: bool)
    requires
        call_ensures(has_fitting_sparse_members, (data,), r),
        data@.len() < 512 || forall|i: int| 0 <= i < 512 ==> #[trigger] data@[i] == 0,
    ensures
        r,
{
}

/// The number that digits spell to a base, the last counting one.
pub open spec fn spelled(digits: Seq<u8>, base: nat) -> nat
    decreases digits.len(),
{
    if digits.len() == 0 {
        0
    } else {
        base * spelled(digits.drop_last(), base) + (digits.last() - 0x30) as nat
    }
}

/// Digits to a base, one at least.
pub open spec fn are_digits(digits: Seq<u8>, base: nat) -> bool {
    &&& digits.len() > 0
    &&& forall|i: int|
        0 <= i < digits.len() ==> 0x30 <= #[trigger] digits[i] && (digits[i] as nat) < 0x30 + base
}

/// Every byte is a space.
pub open spec fn are_spaces(bytes: Seq<u8>) -> bool {
    forall|i: int| 0 <= i < bytes.len() ==> #[trigger] bytes[i] == 0x20
}

proof fn lemma_spelled(digits: Seq<u8>, base: nat)
    requires
        base <= 10,
        forall|i: int|
            0 <= i < digits.len() ==> 0x30 <= #[trigger] digits[i] && (digits[i] as nat) < 0x30
                + base,
    ensures
        archive::digits_value(archive::byte_chars(digits), base) == spelled(digits, base),
        forall|i: int|
            0 <= i < digits.len() ==> archive::is_digit(
                #[trigger] archive::byte_chars(digits)[i],
                base,
            ),
    decreases digits.len(),
{
    let chars = archive::byte_chars(digits);
    assert forall|i: int| 0 <= i < digits.len() implies archive::is_digit(
        #[trigger] chars[i],
        base,
    ) by {
        assert(chars[i] == digits[i] as char);
        assert(0x30 <= digits[i]);
    }
    if digits.len() > 0 {
        lemma_spelled(digits.drop_last(), base);
        assert(chars.drop_last() == archive::byte_chars(digits.drop_last()));
        assert(chars.last() == digits.last() as char);
        let v = spelled(digits.drop_last(), base);
        assert(v * base == base * v) by (nonlinear_arith);
    }
}

/// Bytes of digits are the number that they spell, with or without a plus sign before them.
pub proof fn law_number(digits: Seq<u8>, base: nat)
    requires
        2 <= base <= 10,
        are_digits(digits, base),
    ensures
        spelled(digits, base) <= u64::MAX ==> {
            &&& archive::number(archive::byte_chars(digits), base) == Some(spelled(digits, base))
            &&& archive::number(archive::byte_chars(seq![0x2bu8] + digits), base) == Some(
                spelled(digits, base),
            )
        },
        spelled(digits, base) > u64::MAX ==> archive::number(archive::byte_chars(digits), base)
            is None,
{
    lemma_spelled(digits, base);
    let chars = archive::byte_chars(digits);
    assert(chars[0] == digits[0] as char);
    assert(0x30 <= digits[0]);
    assert(archive::without_plus(chars) == chars);
    let signed = archive::byte_chars(seq![0x2bu8] + digits);
    assert(signed[0] == '+');
    assert(signed.skip(1) == chars);
}

/// Bytes below 128 are the characters with these codes.
proof fn lemma_ascii(bytes: Seq<u8>)
    requires
        forall|i: int| 0 <= i < bytes.len() ==> #[trigger] bytes[i] < 0x80,
    ensures
        vstd::utf8::valid_utf8(bytes),
        vstd::utf8::decode_utf8(bytes) == archive::byte_chars(bytes),
{
    let chars = archive::byte_chars(bytes);
    assert(vstd::utf8::is_ascii_chars(chars)) by {
        assert forall|i: int| 0 <= i < chars.len() implies '\0' <= #[trigger] chars[i] <= '\u{7f}' by {
            assert(chars[i] == bytes[i] as char);
        }
    }
    vstd::utf8::is_ascii_chars_encode_utf8(chars);
    assert(vstd::utf8::encode_utf8(chars) == bytes);
    vstd::utf8::encode_utf8_valid_utf8(chars);
    vstd::utf8::encode_utf8_decode_utf8(chars);
}

/// A field in octal form holds the number that its digits spell, whatever spaces are around
/// them and whatever follows a zero byte.
pub proof fn law_octal_field(before: Seq<u8>, digits: Seq<u8>, after: Seq<u8>, tail: Seq<u8>)
    requires
        are_spaces(before) && are_spaces(after),
        are_digits(digits, 8),
        spelled(digits, 8) <= u64::MAX,
        tail.len() == 0 || tail[0] == 0,
    ensures
        archive::octal_field(before + digits + after + tail) == Some(spelled(digits, 8)),
{
    let content = before + digits + after;
    let field = content + tail;
    assert forall|i: int| 0 <= i < content.len() implies 0 < #[trigger] content[i] < 0x80 by {
        if i < before.len() {
            assert(content[i] == before[i]);
        } else if i < before.len() + digits.len() {
            assert(content[i] == digits[i - before.len()]);
        } else {
            assert(content[i] == after[i - before.len() - digits.len()]);
        }
    }
    archive::lemma_upto(field, 0);
    let n = archive::upto(field, 0) as int;
    if n < content.len() {
        assert(field[n] == content[n]);
    }
    if n > content.len() {
        assert(field[content.len() as int] == tail[0]);
    }
    assert(field.take(n) == content);
    lemma_ascii(content);
    let a = archive::byte_chars(before);
    let b = archive::byte_chars(digits);
    let c = archive::byte_chars(after);
    assert(archive::byte_chars(content) == a + b + c);
    assert(text::blank(' '));
    assert forall|i: int| 0 <= i < a.len() implies text::blank(#[trigger] a[i]) by {
        assert(before[i] == 0x20);
        assert(a[i] == ' ');
    }
    assert forall|i: int| 0 <= i < c.len() implies text::blank(#[trigger] c[i]) by {
        assert(after[i] == 0x20);
        assert(c[i] == ' ');
    }
    lemma_spelled(digits, 8);
    assert(archive::is_digit(b[0], 8));
    assert(archive::is_digit(b[b.len() - 1], 8));
    text_laws::lemma_trimmed_core(a, b, c);
    law_number(digits, 8);
}

/// A field in binary form holds the number that its last eight bytes spell to the base of
/// 256: `high` and `low` are those of the first and of the last four.
pub proof fn law_binary_field(data: Seq<u8>, at: int, high: nat, low: nat)
    requires
        0 <= at,
        at + 12 <= data.len(),
        data[at] >= 0x80,
        high == ((data[at + 4] * 256 + data[at + 5]) * 256 + data[at + 6]) * 256 + data[at + 7],
        low == ((data[at + 8] * 256 + data[at + 9]) * 256 + data[at + 10]) * 256 + data[at + 11],
    ensures
        archive::number_field(data, at) == Some(0x1_0000_0000 * high + low),
{
}

/// An extended header whose first record gives a size gives that size; where its first record
/// is another one, it gives what the records after it give. A record is its length, a space,
/// a key, an equals sign and a value; the length counts all of it and the line feed.
pub proof fn law_given_size(
    length: Seq<u8>,
    key: Seq<u8>,
    value: Seq<u8>,
    rest: Seq<u8>,
)
    requires
        are_digits(length, 10),
        spelled(length, 10) == length.len() + key.len() + value.len() + 3,
        spelled(length, 10) <= u64::MAX,
        !key.contains(0x0a) && !key.contains(0x3d) && !value.contains(0x0a),
    ensures
        ({
            let line = length + seq![0x20u8] + key + seq![0x3du8] + value;
            archive::given_size(line + seq![0x0au8] + rest) == if key == seq![
                0x73u8,
                0x69,
                0x7a,
                0x65,
            ] {
                archive::number(archive::byte_chars(value), 10)
            } else {
                archive::given_size(rest)
            }
        }),
{
    let line = length + seq![0x20u8] + key + seq![0x3du8] + value;
    let content = line + seq![0x0au8] + rest;
    let n = line.len() as int;
    let l = length.len() as int;
    assert forall|i: int| 0 <= i < n implies #[trigger] line[i] != 0x0a by {
        if i < l {
            assert(line[i] == length[i]);
        } else if l < i < l + 1 + key.len() {
            assert(line[i] == key[i - l - 1]);
            assert(key.contains(key[i - l - 1]));
        } else if i > l + 1 + key.len() {
            assert(line[i] == value[i - l - 2 - key.len()]);
            assert(value.contains(value[i - l - 2 - key.len()]));
        }
    }
    assert forall|i: int| 0 <= i < n implies #[trigger] content[i] != 0x0a by {
        assert(content[i] == line[i]);
    }
    assert(content[n] == 0x0a);
    archive::lemma_upto_is(content, 0x0a, n);
    assert(content.take(n) == line);
    assert(content.skip(n + 1) == rest);
    reveal(archive::record);
    assert forall|i: int| 0 <= i < l implies #[trigger] line[i] != 0x20 by {
        assert(line[i] == length[i]);
    }
    assert(line[l] == 0x20);
    archive::lemma_upto_is(line, 0x20, l);
    assert(line.take(l) == length);
    law_number(length, 10);
    let after = line.skip(l + 1);
    assert(after == key + seq![0x3du8] + value);
    assert forall|i: int| 0 <= i < key.len() implies #[trigger] after[i] != 0x3d by {
        assert(after[i] == key[i]);
        assert(key.contains(key[i]));
    }
    archive::lemma_upto_is(after, 0x3d, key.len() as int);
    assert(after.take(key.len() as int) == key);
    assert(after.skip(key.len() as int + 1) == value);
    assert(archive::record(line) == Some((key, value)));
}

/// An extended header and the member after it make no difference to an archive that they are
/// before, where the extended header gives the size of that member.
pub proof fn law_extended_member_is_passed_over(
    extended: Seq<u8>,
    records: Seq<u8>,
    records_padding: Seq<u8>,
    header: Seq<u8>,
    own_size: nat,
    content: Seq<u8>,
    padding: Seq<u8>,
    data: &[u8],
    rest: &[u8],
    r: bool,
    r_rest: bool,
)
    requires
        is_header_block(extended, records.len()),
        extended[156] == 0x78,
        extended.subrange(257, 265) == seq![0x75u8, 0x73, 0x74, 0x61, 0x72, 0x00, 0x30, 0x30],
        records_padding.len() < 512,
        (records.len() + records_padding.len()) % 512 == 0,
        is_header_block(header, own_size),
        header[156] != 0x53 && header[156] != 0x78 && header[156] != 0x4c && header[156] != 0x4b
            && header[156] != 0x67,
        archive::given_size(records) == Some(content.len()),
        padding.len() < 512,
        (content.len() + padding.len()) % 512 == 0,
        data@ == extended + records + records_padding + (header + content + padding + rest@),
        call_ensures(has_fitting_sparse_members, (data,), r),
        call_ensures(has_fitting_sparse_members, (rest,), r_rest),
    ensures
        r == r_rest,
{
    let later = header + content + padding + rest@;
    assert(archive::fits_from(data@, 0, None) == archive::fits_from(later, 0, Some(records))) by {
        lemma_parts(extended, records.len(), records, records_padding, later, data@);
        lemma_padded(records.len(), records_padding.len());
        lemma_extended(extended, records, data@);
        lemma_shift(data@, 512 + archive::padded(records.len()) as int, 0, Some(records));
    }
    assert(archive::fits_from(later, 0, Some(records)) == archive::fits_from(rest@, 0, None)) by {
        lemma_parts(header, own_size, content, padding, rest@, later);
        lemma_padded(content.len(), padding.len());
        lemma_given_member(header, own_size, records, content.len(), later);
        lemma_shift(later, 512 + archive::padded(content.len()) as int, 0, None);
    }
}

proof fn lemma_extended(extended: Seq<u8>, records: Seq<u8>, data: Seq<u8>)
    requires
        is_header_block(extended, records.len()),
        extended[156] == 0x78,
        extended.subrange(257, 265) == seq![0x75u8, 0x73, 0x74, 0x61, 0x72, 0x00, 0x30, 0x30],
        data.len() >= 512 + archive::padded(records.len()),
        data.take(512) == extended,
        data.subrange(512, 512 + records.len() as int) == records,
    ensures
        archive::fits_from(data, 0, None) == archive::fits_from(
            data,
            512 + archive::padded(records.len()) as int,
            Some(records),
        ),
{
    lemma_header_block(extended, records.len(), data);
}

proof fn lemma_given_member(
    header: Seq<u8>,
    own_size: nat,
    records: Seq<u8>,
    size: nat,
    data: Seq<u8>,
)
    requires
        is_header_block(header, own_size),
        header[156] != 0x53 && header[156] != 0x78 && header[156] != 0x4c && header[156] != 0x4b
            && header[156] != 0x67,
        archive::given_size(records) == Some(size),
        data.len() >= 512,
        data.take(512) == header,
    ensures
        archive::fits_from(data, 0, Some(records)) == archive::fits_from(
            data,
            512 + archive::padded(size) as int,
            None,
        ),
{
    lemma_header_block(header, own_size, data);
}

} // verus!
