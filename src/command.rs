use vstd::prelude::*;

verus! {

/// One-byte whitespace: tab, line feed, vertical tab, form feed, carriage
/// return, space.
pub open spec fn is_space(b: u8) -> bool {
    b == 0x20 || (0x09 <= b && b <= 0x0d)
}

/// The UTF-8 encoding of a two-byte whitespace character: U+0085, U+00A0.
pub open spec fn is_space2(a: u8, b: u8) -> bool {
    a == 0xc2 && (b == 0x85 || b == 0xa0)
}

/// The UTF-8 encoding of a three-byte whitespace character: U+1680,
/// U+2000 to U+200A, U+2028, U+2029, U+202F, U+205F, U+3000.
pub open spec fn is_space3(a: u8, b: u8, c: u8) -> bool {
    ||| a == 0xe1 && b == 0x9a && c == 0x80
    ||| a == 0xe2 && b == 0x80 && ((0x80 <= c && c <= 0x8a) || c == 0xa8 || c == 0xa9 || c == 0xaf)
    ||| a == 0xe2 && b == 0x81 && c == 0x9f
    ||| a == 0xe3 && b == 0x80 && c == 0x80
}

pub open spec fn is_digit(b: u8) -> bool {
    0x30 <= b && b <= 0x39
}

pub open spec fn all_digits(s: Seq<u8>) -> bool {
    forall|i: int| 0 <= i < s.len() ==> is_digit(#[trigger] s[i])
}

/// Length in bytes of the whitespace character that `s` starts with, or 0.
pub open spec fn leading_space_len(s: Seq<u8>) -> int {
    if s.len() >= 1 && is_space(s[0]) {
        1
    } else if s.len() >= 2 && is_space2(s[0], s[1]) {
        2
    } else if s.len() >= 3 && is_space3(s[0], s[1], s[2]) {
        3
    } else {
        0
    }
}

/// Length in bytes of the whitespace character that `s` ends with, or 0.
pub open spec fn trailing_space_len(s: Seq<u8>) -> int {
    let n = s.len() as int;
    if n >= 1 && is_space(s[n - 1]) {
        1
    } else if n >= 2 && is_space2(s[n - 2], s[n - 1]) {
        2
    } else if n >= 3 && is_space3(s[n - 3], s[n - 2], s[n - 1]) {
        3
    } else {
        0
    }
}

/// `s` without its leading whitespace.
pub open spec fn trim_start(s: Seq<u8>) -> Seq<u8>
    decreases s.len(),
{
    if leading_space_len(s) > 0 {
        trim_start(s.subrange(leading_space_len(s), s.len() as int))
    } else {
        s
    }
}

/// `s` without its trailing whitespace.
pub open spec fn trim_end(s: Seq<u8>) -> Seq<u8>
    decreases s.len(),
{
    if trailing_space_len(s) > 0 {
        trim_end(s.subrange(0, s.len() - trailing_space_len(s)))
    } else {
        s
    }
}

/// `s` without whitespace at either end.
pub open spec fn trimmed(s: Seq<u8>) -> Seq<u8> {
    trim_end(trim_start(s))
}

/// The number that a string of decimal digits writes.
pub open spec fn digits_value(s: Seq<u8>) -> nat
    decreases s.len(),
{
    if s.len() == 0 {
        0
    } else {
        digits_value(s.drop_last()) * 10 + (s.last() - 0x30) as nat
    }
}

/// The integer that `t` writes: an optional `+` or `-` followed by one or
/// more decimal digits, and nothing else.
pub open spec fn signed_value(t: Seq<u8>) -> Option<int> {
    if t.len() > 0 && (t[0] == 0x2d || t[0] == 0x2b) {
        let body = t.drop_first();
        if body.len() > 0 && all_digits(body) {
            if t[0] == 0x2d {
                Some(-digits_value(body))
            } else {
                Some(digits_value(body) as int)
            }
        } else {
            None
        }
    } else if t.len() > 0 && all_digits(t) {
        Some(digits_value(t) as int)
    } else {
        None
    }
}

/// The delay in seconds that a command line carries: the line, trimmed of
/// whitespace, is a signed decimal integer that fits in an `i32`.
pub open spec fn parsed_seconds(line: Seq<u8>) -> Option<i32> {
    match signed_value(trimmed(line)) {
        Some(v) => if i32::MIN <= v <= i32::MAX {
            Some(v as i32)
        } else {
            None
        },
        None => None,
    }
}

proof fn lemma_prefix_value_le(s: Seq<u8>, j: int)
    requires
        all_digits(s),
        0 <= j <= s.len(),
    ensures
        digits_value(s.subrange(0, j)) <= digits_value(s),
    decreases s.len(),
{
    if j < s.len() {
        let init = s.drop_last();
        assert(init.subrange(0, j) =~= s.subrange(0, j));
        lemma_prefix_value_le(init, j);
    } else {
        assert(s.subrange(0, j) =~= s);
    }
}

/// Reads a command line, given as UTF-8 bytes: the signed decimal integer it
/// holds once trimmed of Unicode whitespace at both ends, or `None` when it
/// holds anything else or the value does not fit in an `i32`.
pub fn parse_seconds(line: &[u8]) -> (r: Option<i32>)
    ensures
        r == parsed_seconds(line@),
{
    let n = line.len();
    let mut start: usize = 0;
    assert(line@.subrange(0, n as int) =~= line@);
    loop
        invariant
            start <= n,
            n == line@.len(),
            trim_start(line@) == trim_start(line@.subrange(start as int, n as int)),
        ensures
            start <= n,
            trim_start(line@) == line@.subrange(start as int, n as int),
        decreases n - start,
    {
        let k = leading_space(line, start, n);
        if k == 0 {
            break;
        }
        assert(line@.subrange(start as int, n as int).subrange(k as int, n - start) =~= line@.subrange(
            start + k,
            n as int,
        ));
        start = start + k;
    }
    assert(trim_start(line@) == line@.subrange(start as int, n as int));
    let mut end: usize = n;
    loop
        invariant
            start <= end <= n,
            n == line@.len(),
            trimmed(line@) == trim_end(line@.subrange(start as int, end as int)),
        ensures
            start <= end <= n,
            trimmed(line@) == line@.subrange(start as int, end as int),
        decreases end,
    {
        let k = trailing_space(line, start, end);
        if k == 0 {
            break;
        }
        assert(line@.subrange(start as int, end as int).subrange(0, end - start - k) =~= line@.subrange(
            start as int,
            end - k,
        ));
        end = end - k;
    }
    let ghost t = line@.subrange(start as int, end as int);
    assert(trimmed(line@) == t);
    if start == end {
        return None;
    }
    let negative = line[start] == 0x2d;
    let signed = negative || line[start] == 0x2b;
    let first: usize = if signed { start + 1 } else { start };
    let ghost body = line@.subrange(first as int, end as int);
    assert(signed ==> body =~= t.drop_first());
    assert(!signed ==> body =~= t);
    assert(t[0] == line@[start as int]);
    if first == end {
        return None;
    }
    let mut acc: u64 = 0;
    let mut k: usize = first;
    while k < end
        invariant
            first <= k <= end <= n,
            n == line@.len(),
            body == line@.subrange(first as int, end as int),
            trimmed(line@) == t,
            t.len() > 0,
            signed == (t[0] == 0x2d || t[0] == 0x2b),
            negative == (t[0] == 0x2d),
            signed ==> body == t.drop_first(),
            !signed ==> body == t,
            all_digits(line@.subrange(first as int, k as int)),
            acc == digits_value(line@.subrange(first as int, k as int)),
            acc <= 2147483648,
        decreases end - k,
    {
        let b = line[k];
        if !(0x30 <= b && b <= 0x39) {
            assert(body[k - first] == line@[k as int]);
            assert(!is_digit(body[k - first]));
            assert(!all_digits(body));
            return None;
        }
        let ghost next = line@.subrange(first as int, k + 1);
        assert(next.drop_last() =~= line@.subrange(first as int, k as int));
        acc = acc * 10 + (b - 0x30) as u64;
        k = k + 1;
        if acc > 2147483648 {
            proof {
                if all_digits(body) {
                    lemma_prefix_value_le(body, k - first);
                    assert(body.subrange(0, k - first) =~= next);
                    assert(digits_value(body) > 2147483648);
                    assert(signed_value(t) is Some);
                    assert(parsed_seconds(line@) is None);
                }
            }
            return None;
        }
    }
    assert(line@.subrange(first as int, k as int) =~= body);
    if negative {
        Some((0 - acc as i64) as i32)
    } else if acc <= 2147483647 {
        Some(acc as i32)
    } else {
        None
    }
}

fn space1(b: u8) -> (r: bool)
    ensures
        r == is_space(b),
{
    b == 0x20 || (0x09 <= b && b <= 0x0d)
}

fn space2(a: u8, b: u8) -> (r: bool)
    ensures
        r == is_space2(a, b),
{
    a == 0xc2 && (b == 0x85 || b == 0xa0)
}

fn space3(a: u8, b: u8, c: u8) -> (r: bool)
    ensures
        r == is_space3(a, b, c),
{
    (a == 0xe1 && b == 0x9a && c == 0x80) || (a == 0xe2 && b == 0x80 && ((0x80 <= c && c <= 0x8a)
        || c == 0xa8 || c == 0xa9 || c == 0xaf)) || (a == 0xe2 && b == 0x81 && c == 0x9f) || (a
        == 0xe3 && b == 0x80 && c == 0x80)
}

/// Length of the whitespace character at the front of `line[lo..hi]`, or 0.
fn leading_space(line: &[u8], lo: usize, hi: usize) -> (r: usize)
    requires
        lo <= hi <= line@.len(),
    ensures
        r == leading_space_len(line@.subrange(lo as int, hi as int)),
{
    let len = hi - lo;
    if len >= 1 && space1(line[lo]) {
        1
    } else if len >= 2 && space2(line[lo], line[lo + 1]) {
        2
    } else if len >= 3 && space3(line[lo], line[lo + 1], line[lo + 2]) {
        3
    } else {
        0
    }
}

/// Length of the whitespace character at the back of `line[lo..hi]`, or 0.
fn trailing_space(line: &[u8], lo: usize, hi: usize) -> (r: usize)
    requires
        lo <= hi <= line@.len(),
    ensures
        r == trailing_space_len(line@.subrange(lo as int, hi as int)),
{
    let len = hi - lo;
    if len >= 1 && space1(line[hi - 1]) {
        1
    } else if len >= 2 && space2(line[hi - 2], line[hi - 1]) {
        2
    } else if len >= 3 && space3(line[hi - 3], line[hi - 2], line[hi - 1]) {
        3
    } else {
        0
    }
}

} // verus!
