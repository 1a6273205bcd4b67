//! Byte ranges: what a range header asks for, and which inclusive
//! ranges of a resource of known length answer it.

use std::ops::RangeInclusive;
use vstd::prelude::*;

verus! {

/// Where a requested range begins.
#[derive(Debug, Clone, Copy, PartialEq, Eq)]
pub enum RangeStart {
    /// At this offset.
    Index(u64),
    /// This many bytes before the end of the resource.
    FromLast(u64),
}

/// Where a requested range ends.
#[derive(Debug, Clone, Copy, PartialEq, Eq)]
pub enum RangeEnd {
    /// At this offset, inclusive.
    Index(u64),
    /// At the last byte of the resource.
    LastByte,
}

/// One range of a range header, before the length of the resource is known.
#[derive(Debug, Clone, Copy, PartialEq, Eq)]
pub struct RequestedRange {
    pub start: RangeStart,
    pub end: RangeEnd,
}

/// `http_range_header::RangeUnsatisfiableError`, the parser's reason for
/// refusing a text. It is carried to the caller as it is.
#[verifier::external_type_specification]
#[verifier::external_body]
pub struct ExRangeUnsatisfiableError(http_range_header::RangeUnsatisfiableError);

/// Why a range header yields no ranges.
#[derive(Debug, Clone, Copy, PartialEq, Eq)]
pub enum RangeError {
    /// The text is no range header; the parser's reason is inside.
    Malformed(http_range_header::RangeUnsatisfiableError),
    /// The text is a range header, but the resource cannot satisfy it.
    Unsatisfiable,
}

impl RangeStart {
    /// The offset of the first byte in a resource of `length` bytes, unless
    /// the range reaches back beyond the start of the resource.
    pub open spec fn offset(self, length: u64) -> Option<int> {
        match self {
            RangeStart::Index(index) => Some(index as int),
            RangeStart::FromLast(count) => if count <= length {
                Some(length - count)
            } else {
                None
            },
        }
    }
}

impl RangeEnd {
    /// The offset of the last byte in a resource of `length` bytes, unless
    /// the resource is empty and so has no last byte.
    pub open spec fn offset(self, length: u64) -> Option<int> {
        match self {
            RangeEnd::Index(index) => Some(index as int),
            RangeEnd::LastByte => if length >= 1 {
                Some(length - 1)
            } else {
                None
            },
        }
    }
}

impl RequestedRange {
    /// The inclusive range of a resource of `length` bytes that the
    /// range selects: both ends exist, the first byte does not come
    /// after the last, and the last byte lies inside the resource.
    pub open spec fn resolved(self, length: u64) -> Option<(u64, u64)> {
        match (self.start.offset(length), self.end.offset(length)) {
            (Some(first), Some(last)) => if first <= last < length {
                Some((first as u64, last as u64))
            } else {
                None
            },
            _ => None,
        }
    }
}

/// Two inclusive ranges share a byte.
pub open spec fn overlapping(a: (u64, u64), b: (u64, u64)) -> bool {
    a.0 <= b.1 && b.0 <= a.1
}

/// A resource of `length` bytes satisfies the ranges of a header: there is at
/// least one range, each selects bytes of the resource, and no two share a
/// byte.
pub open spec fn satisfiable(ranges: Seq<RequestedRange>, length: u64) -> bool {
    &&& ranges.len() > 0
    &&& forall|i: int| 0 <= i < ranges.len() ==> (#[trigger] ranges[i]).resolved(length) is Some
    &&& forall|i: int, j: int|
        0 <= i < j < ranges.len() ==> !overlapping(
            (#[trigger] ranges[i]).resolved(length).unwrap(),
            (#[trigger] ranges[j]).resolved(length).unwrap(),
        )
}

/// The ranges that answer a satisfiable header, in its order.
pub open spec fn selected(ranges: Seq<RequestedRange>, length: u64) -> Seq<(u64, u64)> {
    Seq::new(ranges.len(), |i: int| ranges[i].resolved(length).unwrap())
}

/// What a list of inclusive ranges holds, as pairs of their bounds.
pub open spec fn bounds_of(ranges: Seq<RangeInclusive<u64>>) -> Seq<(u64, u64)> {
    Seq::new(ranges.len(), |i: int| (ranges[i]@.start, ranges[i]@.end))
}

/// Every range of the list is in order and ends inside a resource of `length`
/// bytes.
pub open spec fn all_inside(ranges: Seq<RangeInclusive<u64>>, length: u64) -> bool {
    forall|i: int|
        0 <= i < ranges.len() ==> (#[trigger] ranges[i])@.start <= ranges[i]@.end < length
}

/// No range of the list has been iterated.
pub open spec fn all_fresh(ranges: Seq<RangeInclusive<u64>>) -> bool {
    forall|i: int| 0 <= i < ranges.len() ==> !(#[trigger] ranges[i])@.exhausted
}

impl RequestedRange {
    /// The range of a resource of `length` bytes that the range
    /// selects, if it selects one.
    pub fn resolve(&self, length: u64) -> (bounds: Option<(u64, u64)>)
        ensures
            bounds == self.resolved(length),
    {
        let first = match self.start {
            RangeStart::Index(index) => index,
            RangeStart::FromLast(count) => {
                if count > length {
                    return None;
                }
                length - count
            },
        };
        let last = match self.end {
            RangeEnd::Index(index) => index,
            RangeEnd::LastByte => {
                if length == 0 {
                    return None;
                }
                length - 1
            },
        };
        if first <= last && last < length {
            Some((first, last))
        } else {
            None
        }
    }
}

/// Holds each range of a header against the length of the resource.
/// All of them must select bytes of the resource and no two may share a
/// byte; then the selected ranges come back in the order of the
/// header.
pub fn validate(ranges: &Vec<RequestedRange>, length: u64) -> (outcome: Result<
    Vec<RangeInclusive<u64>>,
    RangeError,
>)
    ensures
        match outcome {
            Ok(found) => {
                &&& satisfiable(ranges@, length)
                &&& found@.len() == ranges@.len()
                &&& bounds_of(found@) == selected(ranges@, length)
                &&& all_fresh(found@)
                &&& all_inside(found@, length)
            },
            Err(error) => error is Unsatisfiable && !satisfiable(ranges@, length),
        },
{
    let count = ranges.len();
    if count == 0 {
        return Err(RangeError::Unsatisfiable);
    }
    let mut bounds: Vec<(u64, u64)> = Vec::new();
    let mut found: Vec<RangeInclusive<u64>> = Vec::new();
    let mut i: usize = 0;
    while i < count
        invariant
            count == ranges.len(),
            i <= count,
            bounds.len() == i,
            found.len() == i,
            forall|k: int|
                0 <= k < i ==> (#[trigger] ranges[k]).resolved(length) == Some(bounds[k]),
            bounds_of(found@) == bounds@,
            all_fresh(found@),
        decreases count - i,
    {
        match ranges[i].resolve(length) {
            Some((first, last)) => {
                let ghost before = found@;
                bounds.push((first, last));
                found.push(RangeInclusive::new(first, last));
                assert(found@.len() == before.len() + 1);
                assert forall|k: int|
                    0 <= k < found@.len() implies !(#[trigger] found@[k])@.exhausted by {
                    if k < before.len() {
                        assert(found@[k] == before[k]);
                    }
                }
                assert(bounds_of(found@) =~= bounds@) by {
                    assert forall|k: int| 0 <= k < found@.len() implies bounds_of(found@)[k]
                        == bounds@[k] by {
                        if k < before.len() {
                            assert(found@[k] == before[k]);
                            assert(bounds_of(before)[k] == bounds@[k]);
                        }
                    }
                }
            },
            None => {
                assert(ranges@[i as int].resolved(length) is None);
                return Err(RangeError::Unsatisfiable);
            },
        }
        i += 1;
    }
    let mut a: usize = 0;
    while a < count
        invariant
            count == ranges.len(),
            bounds.len() == count,
            a <= count,
            forall|k: int|
                0 <= k < count ==> (#[trigger] ranges[k]).resolved(length) == Some(bounds[k]),
            forall|p: int, q: int|
                0 <= p < a && p < q < count ==> !overlapping(
                    #[trigger] bounds[p],
                    #[trigger] bounds[q],
                ),
        decreases count - a,
    {
        let mut b: usize = a + 1;
        while b < count
            invariant
                count == ranges.len(),
                bounds.len() == count,
                a < b <= count,
                forall|k: int|
                    0 <= k < count ==> (#[trigger] ranges[k]).resolved(length) == Some(
                        bounds[k],
                    ),
                forall|q: int| a < q < b ==> !overlapping(bounds[a as int], #[trigger] bounds[q]),
            decreases count - b,
        {
            if bounds[a].0 <= bounds[b].1 && bounds[b].0 <= bounds[a].1 {
                assert(overlapping(
                    ranges@[a as int].resolved(length).unwrap(),
                    ranges@[b as int].resolved(length).unwrap(),
                ));
                return Err(RangeError::Unsatisfiable);
            }
            b += 1;
        }
        a += 1;
    }
    assert(satisfiable(ranges@, length));
    assert(selected(ranges@, length) =~= bounds@);
    assert forall|k: int| 0 <= k < found@.len() implies (#[trigger] found@[k])@.start
        <= found@[k]@.end < length by {
        assert(bounds_of(found@)[k] == ranges@[k].resolved(length).unwrap());
    }
    Ok(found)
}

/// The ranges that answer a satisfiable header are in order, end
/// inside the resource, and share no byte with each other.
pub proof fn lemma_selected_ranges_fit(ranges: Seq<RequestedRange>, length: u64)
    requires
        satisfiable(ranges, length),
    ensures
        selected(ranges, length).len() == ranges.len(),
        forall|i: int|
            0 <= i < ranges.len() ==> (#[trigger] selected(ranges, length)[i]).0 <= selected(
                ranges,
                length,
            )[i].1 < length,
        forall|i: int, j: int|
            0 <= i < j < ranges.len() ==> !overlapping(
                #[trigger] selected(ranges, length)[i],
                #[trigger] selected(ranges, length)[j],
            ),
{
    assert forall|i: int| 0 <= i < ranges.len() implies (#[trigger] selected(ranges, length)[i]).0
        <= selected(ranges, length)[i].1 < length by {
        assert(ranges[i].resolved(length) is Some);
    }
}

/// The decimal digit that stands for a number below ten.
pub open spec fn decimal_digit(value: nat) -> char {
    if value == 0 {
        '0'
    } else if value == 1 {
        '1'
    } else if value == 2 {
        '2'
    } else if value == 3 {
        '3'
    } else if value == 4 {
        '4'
    } else if value == 5 {
        '5'
    } else if value == 6 {
        '6'
    } else if value == 7 {
        '7'
    } else if value == 8 {
        '8'
    } else {
        '9'
    }
}

/// A number in decimal, without sign or leading zeros.
pub open spec fn decimal(value: nat) -> Seq<char>
    decreases value,
{
    if value < 10 {
        seq![decimal_digit(value)]
    } else {
        decimal(value / 10).push(decimal_digit(value % 10))
    }
}

/// The header `bytes=first-last`, both numbers in decimal.
pub open spec fn bounded_range_text(first: u64, last: u64) -> Seq<char> {
    seq!['b', 'y', 't', 'e', 's', '='] + decimal(first as nat) + seq!['-'] + decimal(last as nat)
}

/// The header `bytes=first-`, the number in decimal.
pub open spec fn open_range_text(first: u64) -> Seq<char> {
    seq!['b', 'y', 't', 'e', 's', '='] + decimal(first as nat) + seq!['-']
}

/// The header `bytes=-count`, the number in decimal.
pub open spec fn suffix_range_text(count: u64) -> Seq<char> {
    seq!['b', 'y', 't', 'e', 's', '=', '-'] + decimal(count as nat)
}

/// The ranges that `http_range_header::parse_range_header` reads from a
/// header value, in the order of the text; `None` where it refuses the text.
pub uninterp spec fn range_header_syntax(header: Seq<char>) -> Option<Seq<RequestedRange>>;

/// The ranges that a parse handed back, as the contracts see them.
pub open spec fn syntax_of(
    parsed: Result<Vec<RequestedRange>, http_range_header::RangeUnsatisfiableError>,
) -> Option<Seq<RequestedRange>> {
    match parsed {
        Ok(ranges) => Some(ranges@),
        Err(_) => None,
    }
}

/// Where `header` is `bytes=first-last` with both numbers in plain decimal,
/// `syntax` is the single range from `first` to `last`.
pub open spec fn reads_bounded_range(
    header: Seq<char>,
    syntax: Option<Seq<RequestedRange>>,
) -> bool {
    forall|first: u64, last: u64|
        header == #[trigger] bounded_range_text(first, last) ==> syntax == Some(
            seq![RequestedRange { start: RangeStart::Index(first), end: RangeEnd::Index(last) }],
        )
}

/// Where `header` is `bytes=first-` with the number in plain decimal,
/// `syntax` is the single range from `first` to the last byte.
pub open spec fn reads_open_range(
    header: Seq<char>,
    syntax: Option<Seq<RequestedRange>>,
) -> bool {
    forall|first: u64|
        header == #[trigger] open_range_text(first) ==> syntax == Some(
            seq![RequestedRange { start: RangeStart::Index(first), end: RangeEnd::LastByte }],
        )
}

/// Where `header` is `bytes=-count` with the number in plain decimal and not
/// zero, `syntax` is the single range of the last `count` bytes.
pub open spec fn reads_suffix_range(
    header: Seq<char>,
    syntax: Option<Seq<RequestedRange>>,
) -> bool {
    forall|count: u64|
        count >= 1 && header == #[trigger] suffix_range_text(count) ==> syntax == Some(
            seq![RequestedRange { start: RangeStart::FromLast(count), end: RangeEnd::LastByte }],
        )
}

/// Calls `http_range_header::parse_range_header`, which reads a range
/// header without knowing the length of the resource, and hands its
/// ranges back one for one. The contract names what the parser returns and
/// states three facts of it, one for each form of a single range, with the
/// numbers in plain decimal: `bytes=first-last` is read as the range from
/// `first` to `last`, `bytes=first-` as the range from `first` to the last
/// byte, and `bytes=-count`, where `count` is not zero, as the range of the
/// last `count` bytes.
#[verifier::external_body]
pub(crate) fn parse_syntax(header: &str) -> (parsed: Result<
    Vec<RequestedRange>,
    http_range_header::RangeUnsatisfiableError,
>)
    ensures
        syntax_of(parsed) == range_header_syntax(header@),
        reads_bounded_range(header@, syntax_of(parsed)),
        reads_open_range(header@, syntax_of(parsed)),
        reads_suffix_range(header@, syntax_of(parsed)),
{
    let parsed = http_range_header::parse_range_header(header)?;
    Ok(parsed.ranges.iter().map(|range| RequestedRange {
        start: match range.start {
            http_range_header::StartPosition::Index(index) => RangeStart::Index(index),
            http_range_header::StartPosition::FromLast(count) => RangeStart::FromLast(count),
        },
        end: match range.end {
            http_range_header::EndPosition::Index(index) => RangeEnd::Index(index),
            http_range_header::EndPosition::LastByte => RangeEnd::LastByte,
        },
    }).collect())
}

} // verus!
