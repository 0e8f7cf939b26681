//! The header block of a framed message: `Key: value` lines separated by
//! CRLF, of which only `Content-Length` matters.

use vstd::prelude::*;
use crate::bytes::copy_range;
use crate::decimal::{all_digits, digits_value, parse_decimal};

verus! {

/// Space or horizontal tab.
pub open spec fn is_blank(b: u8) -> bool {
    b == 32 || b == 9
}

/// ASCII lower-casing of one byte.
pub open spec fn ascii_lower(b: u8) -> u8 {
    if 65 <= b && b <= 90 {
        (b + 32) as u8
    } else {
        b
    }
}

/// The bytes of `content-length`, lower case.
pub open spec fn content_length_key() -> Seq<u8> {
    seq![99u8, 111, 110, 116, 101, 110, 116, 45, 108, 101, 110, 103, 116, 104]
}

/// Whether `k` spells `Content-Length` in any mix of cases.
pub open spec fn is_content_length_key(k: Seq<u8>) -> bool {
    k.len() == 14 && forall|i: int| 0 <= i < 14 ==> ascii_lower(#[trigger] k[i])
        == content_length_key()[i]
}

/// `v` without its leading blanks.
pub open spec fn trim_start(v: Seq<u8>) -> Seq<u8>
    decreases v.len(),
{
    if v.len() > 0 && is_blank(v[0]) {
        trim_start(v.drop_first())
    } else {
        v
    }
}

/// `v` without its trailing blanks.
pub open spec fn trim_end(v: Seq<u8>) -> Seq<u8>
    decreases v.len(),
{
    if v.len() > 0 && is_blank(v.last()) {
        trim_end(v.drop_last())
    } else {
        v
    }
}

/// Index of the first `:` at or after `i`, or the length when there is none.
pub open spec fn colon_from(line: Seq<u8>, i: int) -> int
    decreases line.len() - i,
{
    if i < 0 || i >= line.len() {
        line.len() as int
    } else if line[i] == 58 {
        i
    } else {
        colon_from(line, i + 1)
    }
}

/// Index of the first CRLF at or after `i`, or the length when there is none.
pub open spec fn line_end_from(s: Seq<u8>, i: int) -> int
    decreases s.len() - i,
{
    if i < 0 || i >= s.len() {
        s.len() as int
    } else if i + 1 < s.len() && s[i] == 13 && s[i + 1] == 10 {
        i
    } else {
        line_end_from(s, i + 1)
    }
}

/// The trimmed value of a header line whose key is `Content-Length`.
pub open spec fn content_length_value(line: Seq<u8>) -> Option<Seq<u8>> {
    let c = colon_from(line, 0);
    if c < line.len() && is_content_length_key(line.take(c)) {
        Some(trim_end(trim_start(line.skip(c + 1))))
    } else {
        None
    }
}

/// A non-negative decimal integer that fits in `usize`.
pub open spec fn parse_length(v: Seq<u8>) -> Option<usize> {
    if v.len() > 0 && all_digits(v) && digits_value(v) <= usize::MAX {
        Some(digits_value(v) as usize)
    } else {
        None
    }
}

/// Walks the lines of a header block; `found` records the parse of the
/// latest `Content-Length` line seen so far, if any.
pub open spec fn length_from_lines(h: Seq<u8>, found: Option<Option<usize>>) -> Option<
    Option<usize>,
>
    decreases h.len(),
{
    let e = line_end_from(h, 0);
    let found2 = match content_length_value(h.take(e)) {
        Some(v) => Some(parse_length(v)),
        None => found,
    };
    if 0 <= e && e + 2 <= h.len() {
        length_from_lines(h.skip(e + 2), found2)
    } else {
        found2
    }
}

/// The body length that a header block declares: the value of its last
/// `Content-Length` line, when that parses.
pub open spec fn declared_length(h: Seq<u8>) -> Option<usize> {
    match length_from_lines(h, None) {
        Some(Some(n)) => Some(n),
        _ => None,
    }
}

pub proof fn lemma_line_end_bounds(s: Seq<u8>, i: int)
    requires
        0 <= i <= s.len(),
    ensures
        i <= line_end_from(s, i) <= s.len(),
        line_end_from(s, i) + 2 <= s.len() ==> s[line_end_from(s, i)] == 13 && s[line_end_from(s, i) + 1] == 10,
    decreases s.len() - i,
{
    if i < s.len() && !(i + 1 < s.len() && s[i] == 13 && s[i + 1] == 10) {
        lemma_line_end_bounds(s, i + 1);
    }
}

pub proof fn lemma_colon_bounds(s: Seq<u8>, i: int)
    requires
        0 <= i <= s.len(),
    ensures
        i <= colon_from(s, i) <= s.len(),
    decreases s.len() - i,
{
    if i < s.len() && s[i] != 58 {
        lemma_colon_bounds(s, i + 1);
    }
}

pub(crate) fn key_byte(i: usize) -> (b: u8)
    requires
        i < 14,
    ensures
        b == content_length_key()[i as int],
{
    match i {
        0 => 99,
        1 => 111,
        2 => 110,
        3 => 116,
        4 => 101,
        5 => 110,
        6 => 116,
        7 => 45,
        8 => 108,
        9 => 101,
        10 => 110,
        11 => 103,
        12 => 116,
        _ => 104,
    }
}

pub(crate) fn lower(b: u8) -> (r: u8)
    ensures
        r == ascii_lower(b),
{
    if 65 <= b && b <= 90 {
        b + 32
    } else {
        b
    }
}

fn is_key(k: &[u8]) -> (r: bool)
    ensures
        r == is_content_length_key(k@),
{
    if k.len() != 14 {
        return false;
    }
    let mut i: usize = 0;
    while i < 14
        invariant
            k@.len() == 14,
            0 <= i <= 14,
            forall|j: int| 0 <= j < i ==> ascii_lower(#[trigger] k@[j]) == content_length_key()[j],
        decreases 14 - i,
    {
        if lower(k[i]) != key_byte(i) {
            return false;
        }
        i = i + 1;
    }
    true
}

fn colon_index(line: &[u8]) -> (r: usize)
    ensures
        r as int == colon_from(line@, 0),
{
    let mut i: usize = 0;
    while i < line.len()
        invariant
            0 <= i <= line@.len(),
            colon_from(line@, i as int) == colon_from(line@, 0),
        decreases line@.len() - i,
    {
        if line[i] == 58 {
            return i;
        }
        i = i + 1;
    }
    i
}

/// Index of the first CRLF in `s`, or its length.
pub fn line_end(s: &[u8]) -> (r: usize)
    ensures
        r as int == line_end_from(s@, 0),
{
    let mut i: usize = 0;
    while i < s.len()
        invariant
            0 <= i <= s@.len(),
            line_end_from(s@, i as int) == line_end_from(s@, 0),
        decreases s@.len() - i,
    {
        if i + 1 < s.len() && s[i] == 13 && s[i + 1] == 10 {
            return i;
        }
        i = i + 1;
    }
    i
}

fn trim(v: &[u8]) -> (r: Vec<u8>)
    ensures
        r@ == trim_end(trim_start(v@)),
{
    let mut a: usize = 0;
    assert(v@.skip(0) =~= v@);
    while a < v.len() && (v[a] == 32 || v[a] == 9)
        invariant
            0 <= a <= v@.len(),
            trim_start(v@.skip(a as int)) == trim_start(v@),
        decreases v@.len() - a,
    {
        assert(v@.skip(a as int).drop_first() =~= v@.skip(a + 1));
        a = a + 1;
    }
    let ghost t = v@.skip(a as int);
    assert(trim_start(t) == t);
    let mut b: usize = v.len();
    while b > a && (v[b - 1] == 32 || v[b - 1] == 9)
        invariant
            a <= b <= v@.len(),
            trim_end(v@.subrange(a as int, b as int)) == trim_end(t),
        decreases b,
    {
        assert(v@.subrange(a as int, b as int).drop_last() =~= v@.subrange(a as int, b - 1));
        b = b - 1;
    }
    assert(t =~= v@.subrange(a as int, v@.len() as int));
    copy_range(v, a, b)
}

fn header_value(line: &[u8]) -> (r: Option<Vec<u8>>)
    ensures
        match r {
            Some(v) => content_length_value(line@) == Some(v@),
            None => content_length_value(line@) is None,
        },
{
    let c = colon_index(line);
    proof {
        lemma_colon_bounds(line@, 0);
    }
    if c < line.len() {
        let key = copy_range(line, 0, c);
        assert(key@ =~= line@.take(c as int));
        if is_key(key.as_slice()) {
            let rest = copy_range(line, c + 1, line.len());
            assert(rest@ =~= line@.skip(c + 1));
            return Some(trim(rest.as_slice()));
        }
    }
    None
}

/// The body length that the header block `h` declares.
pub fn declared_length_of(h: &[u8]) -> (r: Option<usize>)
    ensures
        r == declared_length(h@),
{
    let mut rest = copy_range(h, 0, h.len());
    assert(rest@ =~= h@);
    let mut found: Option<Option<usize>> = None;
    loop
        invariant
            length_from_lines(rest@, found) == length_from_lines(h@, None),
        ensures
            found == length_from_lines(h@, None),
        decreases rest@.len(),
    {
        let e = line_end(rest.as_slice());
        proof {
            lemma_line_end_bounds(rest@, 0);
        }
        let ghost f0 = found;
        let line = copy_range(rest.as_slice(), 0, e);
        assert(line@ =~= rest@.take(e as int));
        match header_value(line.as_slice()) {
            Some(v) => {
                let n = parse_decimal(v.as_slice());
                assert(n == parse_length(v@));
                found = Some(n);
            },
            None => {},
        }
        assert(length_from_lines(rest@, f0) == if e + 2 <= rest@.len() {
            length_from_lines(rest@.skip(e + 2), found)
        } else {
            found
        });
        if e < rest.len() && 2 <= rest.len() - e {
            let next = copy_range(rest.as_slice(), e + 2, rest.len());
            assert(next@ =~= rest@.skip(e + 2));
            rest = next;
        } else {
            assert(found == length_from_lines(h@, None));
            break;
        }
    }
    match found {
        Some(Some(n)) => Some(n),
        _ => None,
    }
}

} // verus!
