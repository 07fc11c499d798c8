//! Host metrics: system memory, process memory and disk space, from what the
//! operating system reports.

use crate::text;
use crate::text::chars_of;
use vstd::prelude::*;

verus! {

/// Bytes in a megabyte.
pub const MEGABYTE: u64 = 1_048_576;

/// Bytes in a memory page.
pub const PAGE_SIZE: u64 = 4096;

/// Whether a character is white space, by the Unicode property.
pub open spec fn is_space(c: char) -> bool {
    let u = c as u32;
    ||| 0x09 <= u <= 0x0d
    ||| u == 0x20
    ||| u == 0x85
    ||| u == 0xa0
    ||| u == 0x1680
    ||| 0x2000 <= u <= 0x200a
    ||| u == 0x2028
    ||| u == 0x2029
    ||| u == 0x202f
    ||| u == 0x205f
    ||| u == 0x3000
}

fn space(c: char) -> (r: bool)
    ensures
        r == is_space(c),
{
    let u: u32 = c as u32;
    (0x09 <= u && u <= 0x0d) || u == 0x20 || u == 0x85 || u == 0xa0 || u == 0x1680 || (0x2000 <= u
        && u <= 0x200a) || u == 0x2028 || u == 0x2029 || u == 0x202f || u == 0x205f || u == 0x3000
}

/// A text without the white space at its ends.
pub open spec fn trimmed(s: Seq<char>) -> Seq<char>
    decreases s.len(),
{
    if s.len() == 0 {
        s
    } else if is_space(s[0]) {
        trimmed(s.drop_first())
    } else if is_space(s.last()) {
        trimmed(s.drop_last())
    } else {
        s
    }
}

/// The number that decimal digits write.
pub open spec fn digits_value(s: Seq<char>) -> nat
    decreases s.len(),
{
    if s.len() == 0 {
        0
    } else {
        digits_value(s.drop_last()) * 10 + (s.last() as nat - '0' as nat) as nat
    }
}

/// Whether a text consists of one or more decimal digits.
pub open spec fn is_digits(s: Seq<char>) -> bool {
    s.len() > 0 && forall|i: int| 0 <= i < s.len() ==> '0' <= #[trigger] s[i] <= '9'
}

/// The number that a text writes: decimal digits, with or without a plus sign,
/// that fit in 64 bits.
pub open spec fn number_of(s: Seq<char>) -> Option<u64> {
    let digits = if s.len() > 0 && s[0] == '+' {
        s.drop_first()
    } else {
        s
    };
    if is_digits(digits) && digits_value(digits) <= u64::MAX {
        Some(digits_value(digits) as u64)
    } else {
        None
    }
}

/// The value of digits does not decrease when more follow.
proof fn lemma_digits_grow(s: Seq<char>, i: int)
    requires
        0 <= i <= s.len(),
    ensures
        digits_value(s.take(i)) <= digits_value(s),
    decreases s.len() - i,
{
    if i < s.len() {
        lemma_digits_grow(s, i + 1);
        assert(s.take(i + 1).drop_last() =~= s.take(i));
    } else {
        assert(s.take(i) =~= s);
    }
}

/// Reads a number from part of a text.
fn parse_number(s: &Vec<char>, from: usize, to: usize) -> (r: Option<u64>)
    requires
        from <= to <= s@.len(),
    ensures
        r == number_of(s@.subrange(from as int, to as int)),
{
    let ghost all = s@.subrange(from as int, to as int);
    let start: usize = if from < to && s[from] == '+' {
        from + 1
    } else {
        from
    };
    let ghost digits = s@.subrange(start as int, to as int);
    assert(digits =~= (if all.len() > 0 && all[0] == '+' {
        all.drop_first()
    } else {
        all
    }));
    if start == to {
        return None;
    }
    let mut n: u64 = 0;
    let mut i: usize = start;
    while i < to
        invariant
            start <= i <= to <= s@.len(),
            from <= to,
            all == s@.subrange(from as int, to as int),
            digits == s@.subrange(start as int, to as int),
            n == digits_value(digits.take(i - start)),
            forall|k: int| 0 <= k < i - start ==> '0' <= #[trigger] digits[k] <= '9',
            number_of(all) == (if is_digits(digits) && digits_value(digits) <= u64::MAX {
                Some(digits_value(digits) as u64)
            } else {
                None
            }),
        decreases to - i,
    {
        let c: char = s[i];
        assert(digits[i - start] == c);
        if c < '0' || c > '9' {
            assert(!is_digits(digits));
            return None;
        }
        let d: u64 = c as u64 - '0' as u64;
        proof {
            assert(digits.take(i - start + 1).drop_last() =~= digits.take(i - start));
            lemma_digits_grow(digits, i - start + 1);
        }
        match n.checked_mul(10) {
            None => {
                return None;
            },
            Some(tens) => {
                if tens > u64::MAX - d {
                    return None;
                }
                n = tens + d;
            },
        }
        i = i + 1;
    }
    assert(digits.take(to - start) =~= digits);
    Some(n)
}

/// Where a trimmed part of a text starts and ends.
fn trim(s: &Vec<char>, from: usize, to: usize) -> (r: (usize, usize))
    requires
        from <= to <= s@.len(),
    ensures
        from <= r.0 <= r.1 <= to,
        s@.subrange(r.0 as int, r.1 as int) == trimmed(s@.subrange(from as int, to as int)),
{
    let mut a: usize = from;
    let mut b: usize = to;
    let ghost goal = trimmed(s@.subrange(from as int, to as int));
    while a < b && space(s[a])
        invariant
            from <= a <= b <= to <= s@.len(),
            trimmed(s@.subrange(a as int, b as int)) == goal,
        decreases b - a,
    {
        assert(s@.subrange(a as int, b as int).drop_first() =~= s@.subrange(a + 1, b as int));
        a = a + 1;
    }
    while a < b && space(s[b - 1])
        invariant
            from <= a <= b <= to <= s@.len(),
            a < b ==> !is_space(s@[a as int]),
            trimmed(s@.subrange(a as int, b as int)) == goal,
        decreases b - a,
    {
        assert(s@.subrange(a as int, b as int).drop_last() =~= s@.subrange(a as int, b - 1));
        b = b - 1;
    }
    assert(s@.subrange(a as int, b as int) =~= goal);
    (a, b)
}

/// Whether a text stands at a place of another.
pub open spec fn stands_at(s: Seq<char>, part: Seq<char>, i: int) -> bool {
    0 <= i && i + part.len() <= s.len() && s.subrange(i, i + part.len()) == part
}

fn standing_at(s: &Vec<char>, part: &Vec<char>, i: usize) -> (r: bool)
    ensures
        r == stands_at(s@, part@, i as int),
{
    if part.len() > s.len() || i > s.len() - part.len() {
        return false;
    }
    let end: usize = i + part.len();
    let mut k: usize = 0;
    while k < part.len()
        invariant
            k <= part@.len(),
            end == i + part@.len(),
            end <= s@.len(),
            forall|j: int| 0 <= j < k ==> s@[i + j] == #[trigger] part@[j],
        decreases part.len() - k,
    {
        if s[i + k] != part[k] {
            assert(s@.subrange(i as int, end as int)[k as int] == s@[i + k]);
            return false;
        }
        k = k + 1;
    }
    assert(s@.subrange(i as int, end as int) =~= part@);
    true
}

/// The first line of a text, without its line feed.
pub open spec fn first_line(s: Seq<char>) -> Seq<char>
    decreases s.len(),
{
    if s.len() == 0 || s[0] == '\n' {
        Seq::empty()
    } else {
        seq![s[0]] + first_line(s.drop_first())
    }
}

/// What follows the first line.
pub open spec fn other_lines(s: Seq<char>) -> Seq<char> {
    s.skip(first_line(s).len() as int + 1)
}

/// The memory that the rest of a `MemTotal:` line gives, in megabytes.
pub open spec fn total_of(rest: Seq<char>) -> Option<u64> {
    let value = trimmed(rest);
    if stands_at(value, "kB"@, value.len() - 2) {
        match number_of(trimmed(value.take(value.len() - 2))) {
            Some(kb) => Some(kb / 1024),
            None => None,
        }
    } else {
        None
    }
}

/// The total memory in megabytes that a memory report gives: that of its first
/// line that starts with `MemTotal:`.
pub open spec fn meminfo_total(report: Seq<char>) -> Option<u64>
    decreases report.len(),
{
    if report.len() == 0 {
        None
    } else {
        let line = first_line(report);
        if stands_at(line, "MemTotal:"@, 0) {
            total_of(line.skip(9))
        } else if line.len() < report.len() {
            meminfo_total(other_lines(report))
        } else {
            None
        }
    }
}

/// The first line ends at the first line feed.
proof fn lemma_first_line(s: Seq<char>, k: int)
    requires
        0 <= k <= s.len(),
        forall|j: int| 0 <= j < k ==> #[trigger] s[j] != '\n',
        k == s.len() || s[k] == '\n',
    ensures
        first_line(s) == s.take(k),
    decreases s.len(),
{
    if k > 0 {
        assert(s[0] != '\n');
        lemma_first_line(s.drop_first(), k - 1);
        assert(s.take(k) =~= seq![s[0]] + s.drop_first().take(k - 1));
    } else {
        assert(s.take(0) =~= Seq::<char>::empty());
    }
}

/// Reads the rest of a `MemTotal:` line.
fn parse_total(s: &Vec<char>, from: usize, to: usize) -> (r: Option<u64>)
    requires
        from <= to <= s@.len(),
    ensures
        r == total_of(s@.subrange(from as int, to as int)),
{
    let (a, b): (usize, usize) = trim(s, from, to);
    let ghost value = s@.subrange(a as int, b as int);
    proof {
        reveal_strlit("kB");
        assert("kB"@ =~= seq!['k', 'B']);
    }
    if b - a < 2 || s[b - 2] != 'k' || s[b - 1] != 'B' {
        proof {
            if stands_at(value, "kB"@, value.len() - 2) {
                let tail = value.subrange(value.len() - 2, value.len() as int);
                assert(tail[0] == 'k');
                assert(tail[1] == 'B');
            }
        }
        return None;
    }
    assert(value.subrange(value.len() - 2, value.len() as int) =~= "kB"@);
    let end: usize = b - 2;
    assert(value.take(value.len() - 2) =~= s@.subrange(a as int, end as int));
    let (c, d): (usize, usize) = trim(s, a, end);
    match parse_number(s, c, d) {
        Some(kb) => Some(kb / 1024),
        None => None,
    }
}

/// Reads the total memory in megabytes from a memory report.
pub fn parse_meminfo(report: &str) -> (r: Option<u64>)
    ensures
        r == meminfo_total(report@),
{
    let s: Vec<char> = chars_of(report);
    let label: Vec<char> = chars_of("MemTotal:");
    let ghost all = report@;
    let mut start: usize = 0;
    proof {
        reveal_strlit("MemTotal:");
        assert(all.skip(0) =~= all);
    }
    while start < s.len()
        invariant
            start <= s@.len(),
            s@ == all,
            all == report@,
            label@ == "MemTotal:"@,
            label@.len() == 9,
            meminfo_total(all) == meminfo_total(all.skip(start as int)),
        decreases s.len() - start,
    {
        let ghost rest = all.skip(start as int);
        let mut end: usize = start;
        while end < s.len() && s[end] != '\n'
            invariant
                start <= end <= s@.len(),
                s@ == all,
                forall|j: int| start <= j < end ==> #[trigger] s@[j] != '\n',
            decreases s.len() - end,
        {
            end = end + 1;
        }
        let ghost line = s@.subrange(start as int, end as int);
        proof {
            assert forall|j: int| 0 <= j < end - start implies #[trigger] rest[j] != '\n' by {
                assert(s@[start + j] != '\n');
            }
            lemma_first_line(rest, end - start);
            assert(rest.take(end - start) =~= line);
        }
        if standing_at(&s, &label, start) && end - start >= 9 {
            proof {
                assert(line.subrange(0, 9) =~= s@.subrange(start as int, start + 9));
                assert(stands_at(line, "MemTotal:"@, 0));
                assert(line.skip(9) =~= s@.subrange(start + 9, end as int));
            }
            return parse_total(&s, start + 9, end);
        }
        proof {
            if stands_at(line, "MemTotal:"@, 0) {
                assert(s@.subrange(start as int, start + 9) =~= line.subrange(0, 9));
                assert(stands_at(s@, "MemTotal:"@, start as int));
            }
        }
        if end == s.len() {
            return None;
        }
        proof {
            assert(other_lines(rest) =~= all.skip(end + 1));
        }
        start = end + 1;
    }
    None
}

/// A text without the white space at its start.
pub open spec fn after_spaces(s: Seq<char>) -> Seq<char>
    decreases s.len(),
{
    if s.len() > 0 && is_space(s[0]) {
        after_spaces(s.drop_first())
    } else {
        s
    }
}

/// The characters of a text before its first white space.
pub open spec fn leading_word(s: Seq<char>) -> Seq<char>
    decreases s.len(),
{
    if s.len() == 0 || is_space(s[0]) {
        Seq::empty()
    } else {
        seq![s[0]] + leading_word(s.drop_first())
    }
}

/// What follows the first word of a text, without white space at its start.
pub open spec fn after_word(s: Seq<char>) -> Seq<char> {
    let t = after_spaces(s);
    after_spaces(t.skip(leading_word(t).len() as int))
}

/// The resident pages that a process report gives: its second word.
pub open spec fn resident_pages(report: Seq<char>) -> Option<u64> {
    let rest = after_word(report);
    if rest.len() == 0 {
        None
    } else {
        number_of(leading_word(rest))
    }
}

fn skip_spaces(s: &Vec<char>, from: usize) -> (r: usize)
    requires
        from <= s@.len(),
    ensures
        from <= r <= s@.len(),
        s@.skip(r as int) == after_spaces(s@.skip(from as int)),
{
    let mut i: usize = from;
    while i < s.len() && space(s[i])
        invariant
            from <= i <= s@.len(),
            after_spaces(s@.skip(i as int)) == after_spaces(s@.skip(from as int)),
        decreases s.len() - i,
    {
        assert(s@.skip(i as int).drop_first() =~= s@.skip(i + 1));
        i = i + 1;
    }
    i
}

/// A word ends at the first white space.
proof fn lemma_leading_word(s: Seq<char>, k: int)
    requires
        0 <= k <= s.len(),
        forall|j: int| 0 <= j < k ==> !is_space(#[trigger] s[j]),
        k == s.len() || is_space(s[k]),
    ensures
        leading_word(s) == s.take(k),
    decreases s.len(),
{
    if k > 0 {
        assert(!is_space(s[0]));
        lemma_leading_word(s.drop_first(), k - 1);
        assert(s.take(k) =~= seq![s[0]] + s.drop_first().take(k - 1));
    } else {
        assert(s.take(0) =~= Seq::<char>::empty());
    }
}

fn word_end(s: &Vec<char>, from: usize) -> (r: usize)
    requires
        from <= s@.len(),
    ensures
        from <= r <= s@.len(),
        s@.subrange(from as int, r as int) == leading_word(s@.skip(from as int)),
{
    let mut i: usize = from;
    while i < s.len() && !space(s[i])
        invariant
            from <= i <= s@.len(),
            forall|j: int| from <= j < i ==> !is_space(#[trigger] s@[j]),
        decreases s.len() - i,
    {
        i = i + 1;
    }
    proof {
        let rest = s@.skip(from as int);
        assert forall|j: int| 0 <= j < i - from implies !is_space(#[trigger] rest[j]) by {
            assert(!is_space(s@[from + j]));
        }
        lemma_leading_word(rest, i - from);
        assert(rest.take(i - from) =~= s@.subrange(from as int, i as int));
    }
    i
}

/// Reads the resident pages from a process report.
pub fn parse_statm(report: &str) -> (r: Option<u64>)
    ensures
        r == resident_pages(report@),
{
    let s: Vec<char> = chars_of(report);
    assert(s@.skip(0) =~= report@);
    let first: usize = skip_spaces(&s, 0);
    let first_end: usize = word_end(&s, first);
    proof {
        let t = s@.skip(first as int);
        assert(t.skip(leading_word(t).len() as int) =~= s@.skip(first_end as int));
    }
    let second: usize = skip_spaces(&s, first_end);
    if second == s.len() {
        return None;
    }
    let second_end: usize = word_end(&s, second);
    parse_number(&s, second, second_end)
}

/// Megabytes of memory pages.
pub open spec fn pages_mb(pages: u64) -> int {
    pages * PAGE_SIZE / MEGABYTE as int
}

/// Megabytes of memory pages.
pub fn pages_to_mb(pages: u64) -> (r: u64)
    requires
        pages * PAGE_SIZE <= u64::MAX,
    ensures
        r == pages_mb(pages),
{
    pages * PAGE_SIZE / MEGABYTE
}

/// The product of two numbers, or the largest number where it does not fit.
pub open spec fn saturating_product(a: u64, b: u64) -> int {
    if a * b > u64::MAX {
        u64::MAX as int
    } else {
        a * b
    }
}

/// Megabytes of blocks of a size.
pub open spec fn blocks_mb(blocks: u64, size: u64) -> int {
    saturating_product(blocks, size) / MEGABYTE as int
}

fn blocks_to_mb(blocks: u64, size: u64) -> (r: u64)
    ensures
        r == blocks_mb(blocks, size),
{
    let bytes: u64 = match blocks.checked_mul(size) {
        Some(bytes) => bytes,
        None => u64::MAX,
    };
    bytes / MEGABYTE
}

/// The size of what a filesystem counts: that of a fragment, or of a block where there is
/// none.
pub open spec fn unit_size(fragment: u64, block: u64) -> u64 {
    if fragment > 0 {
        fragment
    } else {
        block
    }
}

/// Free and total space in megabytes of a filesystem, from its counts: blocks
/// are of the fragment size, or of the block size where there is none.
pub fn disk_space(fragment: u64, block: u64, available: u64, blocks: u64) -> (r: (u64, u64))
    ensures
        r.0 == blocks_mb(available, unit_size(fragment, block)),
        r.1 == blocks_mb(blocks, unit_size(fragment, block)),
{
    let size: u64 = if fragment > 0 {
        fragment
    } else {
        block
    };
    (blocks_to_mb(available, size), blocks_to_mb(blocks, size))
}

/// A filesystem never reports more free space than space, where it has no more
/// free blocks than blocks.
pub proof fn law_free_within_total(fragment: u64, block: u64, available: u64, blocks: u64)
    requires
        available <= blocks,
    ensures
        blocks_mb(available, if fragment > 0 {
            fragment
        } else {
            block
        }) <= blocks_mb(blocks, if fragment > 0 {
            fragment
        } else {
            block
        }),
{
    let size = if fragment > 0 {
        fragment
    } else {
        block
    };
    assert(available * size <= blocks * size) by (nonlinear_arith)
        requires
            available <= blocks,
            size >= 0,
    ;
}

/// Trimming drops white space at the ends and nothing else: what is left stands in the
/// text as it was, neither starts nor ends with white space, and only white space stands
/// around it.
pub proof fn law_trimming_drops_outer_space(s: Seq<char>) -> (from: int)
    ensures
        0 <= from <= from + trimmed(s).len() <= s.len(),
        trimmed(s) == s.subrange(from, from + trimmed(s).len()),
        trimmed(s).len() > 0 ==> !is_space(trimmed(s)[0]) && !is_space(trimmed(s).last()),
        forall|i: int| 0 <= i < from ==> is_space(#[trigger] s[i]),
        forall|i: int| from + trimmed(s).len() <= i < s.len() ==> is_space(#[trigger] s[i]),
    decreases s.len(),
{
    if s.len() == 0 {
        assert(s =~= s.subrange(0, 0));
        0
    } else if is_space(s[0]) {
        let rest = s.drop_first();
        let at = law_trimming_drops_outer_space(rest);
        assert(trimmed(s) =~= s.subrange(at + 1, at + 1 + trimmed(s).len()));
        assert forall|i: int| 0 <= i < at + 1 implies is_space(#[trigger] s[i]) by {
            if i > 0 {
                assert(is_space(rest[i - 1]));
            }
        }
        assert forall|i: int| at + 1 + trimmed(s).len() <= i < s.len() implies is_space(
            #[trigger] s[i],
        ) by {
            assert(is_space(rest[i - 1]));
        }
        at + 1
    } else if is_space(s.last()) {
        let rest = s.drop_last();
        let at = law_trimming_drops_outer_space(rest);
        assert(trimmed(s) =~= s.subrange(at, at + trimmed(s).len()));
        assert forall|i: int| 0 <= i < at implies is_space(#[trigger] s[i]) by {
            assert(is_space(rest[i]));
        }
        assert forall|i: int| at + trimmed(s).len() <= i < s.len() implies is_space(
            #[trigger] s[i],
        ) by {
            if i < rest.len() {
                assert(is_space(rest[i]));
            }
        }
        at
    } else {
        assert(s =~= s.subrange(0, s.len() as int));
        0
    }
}

proof fn lemma_same_value(s: Seq<char>)
    ensures
        is_digits(s) ==> digits_value(s) == text::number_of(s),
    decreases s.len(),
{
    if s.len() > 1 {
        let before = s.drop_last();
        lemma_same_value(before);
        if is_digits(s) {
            assert forall|i: int| 0 <= i < before.len() implies '0' <= #[trigger] before[i]
                <= '9' by {
                assert('0' <= s[i] <= '9');
            }
            assert('0' <= s[s.len() - 1] <= '9');
        }
    } else if s.len() == 1 {
        assert(digits_value(s.drop_last()) == 0);
        assert(text::number_of(s.drop_last()) == 0);
        if is_digits(s) {
            assert('0' <= s[0] <= '9');
        }
    }
}

/// A number is read as it is written in decimal, with a plus sign or without one, as long
/// as it fits.
pub proof fn law_numbers_read_back(n: nat)
    ensures
        n <= u64::MAX ==> number_of(text::decimal(n)) == Some(n as u64),
        n <= u64::MAX ==> number_of(seq!['+'] + text::decimal(n)) == Some(n as u64),
        n > u64::MAX ==> number_of(text::decimal(n)) is None,
        number_of(seq!['-'] + text::decimal(n)) is None,
        number_of(Seq::empty()) is None,
{
    let digits = text::decimal(n);
    text::law_decimals_read_back(n);
    lemma_same_value(digits);
    assert('0' <= digits[0] <= '9');
    assert((seq!['+'] + digits).drop_first() =~= digits);
    assert((seq!['+'] + digits)[0] == '+');
    assert((seq!['-'] + digits)[0] == '-');
}

proof fn lemma_trimmed_clean(s: Seq<char>)
    requires
        s.len() > 0 ==> !is_space(s[0]) && !is_space(s.last()),
    ensures
        trimmed(s) == s,
{
}

proof fn lemma_total_of_decimal(kb: nat)
    requires
        kb <= u64::MAX,
    ensures
        total_of(seq![' '] + text::decimal(kb) + seq![' ', 'k', 'B']) == Some((kb / 1024) as u64),
{
    reveal_strlit("kB");
    assert("kB"@ =~= seq!['k', 'B']);
    let digits = text::decimal(kb);
    text::law_decimals_read_back(kb);
    law_numbers_read_back(kb);
    let n = digits.len() as int;
    let value = digits + seq![' ', 'k', 'B'];
    let rest = seq![' '] + digits + seq![' ', 'k', 'B'];
    assert('0' <= digits[0] <= '9');
    assert('0' <= digits[n - 1] <= '9');
    assert(rest.drop_first() =~= value);
    assert(rest[0] == ' ');
    assert(value[0] == digits[0]);
    assert(value[n + 2] == 'B');
    lemma_trimmed_clean(value);
    assert(trimmed(rest) == value);
    assert(value.subrange(value.len() - 2, value.len() as int) =~= "kB"@);
    let head = value.take(value.len() - 2);
    assert(head =~= digits.push(' '));
    assert(head[0] == digits[0]);
    assert(head.last() == ' ');
    assert(head.drop_last() =~= digits);
    lemma_trimmed_clean(digits);
    assert(trimmed(head) == digits);
}

/// The total of a memory report is that of its `MemTotal:` line: kilobytes in decimal
/// become whole megabytes.
pub proof fn law_meminfo_gives_the_total(kb: nat)
    requires
        kb <= u64::MAX,
    ensures
        meminfo_total("MemTotal:"@ + (seq![' '] + text::decimal(kb) + seq![' ', 'k', 'B']))
            == Some((kb / 1024) as u64),
{
    reveal_strlit("MemTotal:");
    let digits = text::decimal(kb);
    let n = digits.len() as int;
    text::law_decimals_read_back(kb);
    lemma_total_of_decimal(kb);
    let rest = seq![' '] + digits + seq![' ', 'k', 'B'];
    let line = "MemTotal:"@ + rest;
    assert("MemTotal:"@.len() == 9);
    assert forall|j: int| 0 <= j < line.len() implies #[trigger] line[j] != '\n' by {
        if 10 <= j < 10 + n {
            assert(line[j] == digits[j - 10]);
            assert('0' <= digits[j - 10] <= '9');
        }
    }
    lemma_first_line(line, line.len() as int);
    assert(line.take(line.len() as int) =~= line);
    assert(line.subrange(0, 9) =~= "MemTotal:"@);
    assert(line.skip(9) =~= rest);
}

/// Lines before the `MemTotal:` line do not matter, and lines after it do not either.
pub proof fn law_meminfo_skips_other_lines(line: Seq<char>, rest: Seq<char>)
    requires
        forall|j: int| 0 <= j < line.len() ==> #[trigger] line[j] != '\n',
    ensures
        !stands_at(line, "MemTotal:"@, 0) ==> meminfo_total(line + seq!['\n'] + rest)
            == meminfo_total(rest),
        stands_at(line, "MemTotal:"@, 0) ==> meminfo_total(line + seq!['\n'] + rest)
            == meminfo_total(line),
{
    let report = line + seq!['\n'] + rest;
    assert forall|j: int| 0 <= j < line.len() implies #[trigger] report[j] != '\n' by {
        assert(line[j] != '\n');
    }
    lemma_first_line(report, line.len() as int);
    assert(report.take(line.len() as int) =~= line);
    assert(other_lines(report) =~= rest);
    lemma_first_line(line, line.len() as int);
    assert(line.take(line.len() as int) =~= line);
    if stands_at(line, "MemTotal:"@, 0) {
        reveal_strlit("MemTotal:");
        assert(line.len() > 0);
    }
}

proof fn lemma_one_space(tail: Seq<char>)
    requires
        tail.len() > 0,
        !is_space(tail[0]),
    ensures
        after_spaces(tail) == tail,
        after_spaces(seq![' '] + tail) == tail,
{
    let spaced = seq![' '] + tail;
    assert(is_space(' '));
    assert(spaced[0] == ' ');
    assert(spaced.drop_first() =~= tail);
}

/// The resident pages of a process report are its second word: what follows the first one,
/// up to the next white space.
pub proof fn law_second_word_is_resident(first: Seq<char>, pages: nat, rest: Seq<char>)
    requires
        first.len() > 0,
        forall|j: int| 0 <= j < first.len() ==> !is_space(#[trigger] first[j]),
        pages <= u64::MAX,
        rest.len() > 0 ==> is_space(rest[0]),
    ensures
        resident_pages(first + (seq![' '] + (text::decimal(pages) + rest))) == Some(pages as u64),
{
    let digits = text::decimal(pages);
    text::law_decimals_read_back(pages);
    law_numbers_read_back(pages);
    let tail = digits + rest;
    let spaced = seq![' '] + tail;
    let report = first + spaced;
    let n = first.len() as int;
    assert forall|j: int| 0 <= j < n implies !is_space(#[trigger] report[j]) by {
        assert(report[j] == first[j]);
        assert(!is_space(first[j]));
    }
    assert(!is_space(report[0]));
    assert(after_spaces(report) == report);
    assert(report[n] == spaced[0]);
    assert(is_space(report[n]));
    lemma_leading_word(report, n);
    assert(leading_word(report).len() == n);
    assert(report.skip(n) =~= spaced);
    assert forall|j: int| 0 <= j < digits.len() implies !is_space(#[trigger] tail[j]) by {
        assert(tail[j] == digits[j]);
        assert('0' <= digits[j] <= '9');
    }
    assert(!is_space(tail[0]));
    lemma_one_space(tail);
    assert(after_word(report) == tail);
    lemma_leading_word(tail, digits.len() as int);
    assert(tail.take(digits.len() as int) =~= digits);
}

/// Megabytes are whole ones: what is reported of blocks is no more than they hold, and less
/// than a megabyte short of it.
pub proof fn law_megabytes_are_whole(blocks: u64, size: u64)
    requires
        blocks * size <= u64::MAX,
    ensures
        blocks_mb(blocks, size) * 1_048_576 <= blocks * size < (blocks_mb(blocks, size) + 1)
            * 1_048_576,
{
    assert(0 <= blocks * size) by (nonlinear_arith);
}

/// Four kilobytes to the page: a megabyte is 256 pages.
pub proof fn law_pages_are_four_kilobytes(pages: u64)
    ensures
        pages_mb(pages) * 256 <= pages < (pages_mb(pages) + 1) * 256,
{
}

/// A filesystem counts in fragments where it has them, and in blocks otherwise.
pub proof fn law_fragments_are_counted_first(fragment: u64, block: u64)
    ensures
        fragment > 0 ==> unit_size(fragment, block) == fragment,
        fragment == 0 ==> unit_size(fragment, block) == block,
{
}

} // verus!
