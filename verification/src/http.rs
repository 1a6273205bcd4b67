//! What a request names: the path of a file, and the byte range of it that is
//! wanted.

use crate::path::laws::lemma_built_path_is_plain;
use crate::path::{
    chars_of, components, count_leading_slashes, escapes, has_disallowed, joined_names,
    lemma_leading_slashes_bounds, names_of, parse, segment_components, without_root,
    SegmentKind,
};
use crate::percent::{percent_decode_utf8, percent_decoded};
use crate::range::{
    all_fresh, all_inside, bounded_range_text, bounds_of, open_range_text, parse_syntax,
    range_header_syntax, satisfiable, selected, suffix_range_text, validate, RangeError,
    RequestedRange,
};
use std::ops::RangeInclusive;
use vstd::prelude::*;
use vstd::utf8::{decode_utf8, encode_utf8, valid_utf8};

verus! {

/// Reads a range header and holds it against the length of the resource.
///
/// The text is refused as `Malformed` where the parser takes it for no range
/// header. Otherwise every range in it must select bytes of the
/// resource, and no two may share a byte: then the inclusive ranges come back
/// in the order of the text, else the header is `Unsatisfiable`.
///
/// For a header of one range, with its numbers in plain decimal, that is:
/// - `bytes=first-last` yields the range from `first` to `last` where
///   `first <= last` and `last` lies inside the resource;
/// - `bytes=first-` yields the range from `first` to the last byte where
///   `first` lies inside the resource;
/// - `bytes=-count`, with `count` not zero, yields the last `count` bytes
///   where the resource holds that many;
/// and each of the three is unsatisfiable otherwise.
pub fn try_parse_range(header_value: &str, file_size: u64) -> (outcome: Result<
    Vec<RangeInclusive<u64>>,
    RangeError,
>)
    ensures
        match outcome {
            Ok(ranges) => {
                &&& range_header_syntax(header_value@) matches Some(syntax)
                &&& satisfiable(syntax, file_size)
                &&& ranges@.len() == syntax.len()
                &&& bounds_of(ranges@) == selected(syntax, file_size)
                &&& all_fresh(ranges@)
                &&& all_inside(ranges@, file_size)
            },
            Err(RangeError::Malformed(_)) => range_header_syntax(header_value@) is None,
            Err(RangeError::Unsatisfiable) => {
                &&& range_header_syntax(header_value@) matches Some(syntax)
                &&& !satisfiable(syntax, file_size)
            },
        },
        forall|first: u64, last: u64|
            header_value@ == #[trigger] bounded_range_text(first, last) ==> yields(
                outcome,
                if first <= last < file_size {
                    Some((first, last))
                } else {
                    None
                },
            ),
        forall|first: u64|
            header_value@ == #[trigger] open_range_text(first) ==> yields(
                outcome,
                if first < file_size {
                    Some((first, (file_size - 1) as u64))
                } else {
                    None
                },
            ),
        forall|count: u64|
            count >= 1 && header_value@ == #[trigger] suffix_range_text(count) ==> yields(
                outcome,
                if count <= file_size {
                    Some(((file_size - count) as u64, (file_size - 1) as u64))
                } else {
                    None
                },
            ),
{
    match parse_syntax(header_value) {
        Ok(syntax) => {
            let outcome = validate(&syntax, file_size);
            proof {
                lemma_single_range_yields(syntax@, file_size, outcome);
            }
            outcome
        },
        Err(reason) => Err(RangeError::Malformed(reason)),
    }
}

/// The outcome is the one range with these bounds, or, where there are no
/// bounds, it is `Unsatisfiable`.
pub open spec fn yields(
    outcome: Result<Vec<RangeInclusive<u64>>, RangeError>,
    bounds: Option<(u64, u64)>,
) -> bool {
    match bounds {
        Some(pair) => {
            &&& outcome matches Ok(ranges)
            &&& ranges@.len() == 1
            &&& bounds_of(ranges@) == seq![pair]
        },
        None => outcome matches Err(RangeError::Unsatisfiable),
    }
}

/// A header of one range is answered by the range that it selects, and is
/// unsatisfiable where it selects none.
proof fn lemma_single_range_yields(
    syntax: Seq<RequestedRange>,
    file_size: u64,
    outcome: Result<Vec<RangeInclusive<u64>>, RangeError>,
)
    requires
        match outcome {
            Ok(ranges) => {
                &&& satisfiable(syntax, file_size)
                &&& ranges@.len() == syntax.len()
                &&& bounds_of(ranges@) == selected(syntax, file_size)
            },
            Err(error) => error is Unsatisfiable && !satisfiable(syntax, file_size),
        },
    ensures
        syntax.len() == 1 ==> yields(outcome, syntax[0].resolved(file_size)),
{
    if syntax.len() == 1 {
        assert(satisfiable(syntax, file_size) <==> syntax[0].resolved(file_size) is Some);
        if satisfiable(syntax, file_size) {
            assert(selected(syntax, file_size) == seq![syntax[0].resolved(file_size).unwrap()]);
        }
    }
}

/// Why a requested path is refused.
#[derive(Debug, Clone, Copy, PartialEq, Eq)]
pub enum PathError {
    /// A sub-component of the path was not normal. No slash-separated path
    /// gives this error: a piece between two slashes holds no component but
    /// itself.
    SubComponentNotNormal,
    /// A component of the path was not of the allowed types.
    ComponentNotAllowed,
    /// The path is not valid UTF-8.
    Utf8(std::str::Utf8Error),
}

impl PathError {
    /// The error in words.
    pub fn message(&self) -> (text: String)
        ensures
            text@ == match *self {
                PathError::SubComponentNotNormal => {
                    "A sub-component of the path was not normal"@
                },
                PathError::ComponentNotAllowed => {
                    "A component of the path was not of the allowed types"@
                },
                PathError::Utf8(_) => "Path not valid utf-8"@,
            },
    {
        match self {
            PathError::SubComponentNotNormal => String::from_str(
                "A sub-component of the path was not normal",
            ),
            PathError::ComponentNotAllowed => String::from_str(
                "A component of the path was not of the allowed types",
            ),
            PathError::Utf8(_) => String::from_str("Path not valid utf-8"),
        }
    }
}

/// The bytes that a requested path stands for: the slashes that open it are
/// dropped, then every escape is decoded.
pub open spec fn requested_bytes(requested_path: Seq<char>) -> Seq<u8> {
    percent_decoded(encode_utf8(without_root(requested_path)))
}

/// Builds a relative path of plain names from decoded text: `.` pieces and
/// repeated slashes vanish, and the names are joined with single slashes.
/// Text that holds the root marker or a `..` piece is refused. The path
/// that comes back has the names of the text as its components, and no
/// other component.
pub fn plain_path(decoded: &str) -> (outcome: Result<String, PathError>)
    ensures
        match outcome {
            Ok(path) => {
                &&& !has_disallowed(components(decoded@))
                &&& path@ == joined_names(components(decoded@))
                &&& components(path@) == names_of(components(decoded@))
            },
            Err(error) => error is ComponentNotAllowed && has_disallowed(components(decoded@)),
        },
{
    let chars = chars_of(decoded);
    let segments = parse(&chars);
    let ghost list = components(decoded@);
    let mut path = String::new();
    let mut empty = true;
    let mut i: usize = 0;
    assert(list.take(0) == Seq::<crate::path::Component>::empty());
    while i < segments.len()
        invariant
            chars@ == decoded@,
            list == components(decoded@),
            list == segment_components(segments@, decoded@),
            forall|k: int| 0 <= k < segments.len() ==> (#[trigger] segments[k]).fits(decoded@),
            i <= segments.len(),
            forall|k: int| 0 <= k < i ==> !escapes(#[trigger] list[k]),
            path@ == joined_names(list.take(i as int)),
            empty == (path@.len() == 0),
        decreases segments.len() - i,
    {
        let segment = segments[i];
        assert(list[i as int] == segment.component(decoded@));
        match segment.kind {
            SegmentKind::RootDir | SegmentKind::ParentDir => {
                assert(escapes(list[i as int]));
                return Err(PathError::ComponentNotAllowed);
            },
            SegmentKind::CurDir => {},
            SegmentKind::Normal => {
                let name = decoded.substring_char(segment.start, segment.end);
                if !empty {
                    proof {
                        reveal_strlit("/");
                    }
                    path.append("/");
                    assert(path@ == joined_names(list.take(i as int)) + seq!['/']);
                }
                path.append(name);
                empty = false;
            },
        }
        proof {
            assert(list.take(i + 1).drop_last() == list.take(i as int));
            assert(list.take(i + 1).last() == list[i as int]);
        }
        i += 1;
    }
    assert(list.take(i as int) == list);
    proof {
        lemma_built_path_is_plain(decoded@);
    }
    Ok(path)
}

/// Builds a path from a given request string.
///
/// The slashes that open the request are dropped and its percent-escapes
/// decoded. The request is refused where the decoded bytes are not UTF-8, and
/// where the decoded text holds the root marker or a `..` piece. Otherwise
/// the plain names of the text come back, joined with single slashes: a
/// relative path whose every component is a plain name.
pub fn build_and_validate_path(requested_path: &str) -> (outcome: Result<String, PathError>)
    ensures
        match outcome {
            Ok(path) => {
                &&& valid_utf8(requested_bytes(requested_path@))
                &&& !has_disallowed(components(decode_utf8(requested_bytes(requested_path@))))
                &&& path@ == joined_names(
                    components(decode_utf8(requested_bytes(requested_path@))),
                )
                &&& components(path@) == names_of(
                    components(decode_utf8(requested_bytes(requested_path@))),
                )
            },
            Err(PathError::Utf8(_)) => !valid_utf8(requested_bytes(requested_path@)),
            Err(PathError::ComponentNotAllowed) => {
                &&& valid_utf8(requested_bytes(requested_path@))
                &&& has_disallowed(components(decode_utf8(requested_bytes(requested_path@))))
            },
            Err(PathError::SubComponentNotNormal) => false,
        },
{
    let chars = chars_of(requested_path);
    let skipped = count_leading_slashes(&chars);
    proof {
        lemma_leading_slashes_bounds(requested_path@);
    }
    let relative = requested_path.substring_char(skipped, chars.len());
    assert(relative@ == without_root(requested_path@));
    match percent_decode_utf8(relative.as_bytes()) {
        Ok(decoded) => plain_path(decoded.as_str()),
        Err(error) => Err(PathError::Utf8(error)),
    }
}

/// `RangeInclusive::into_inner` takes an inclusive range apart: the contract
/// claims that it returns the lower and the upper bound of the range.
pub assume_specification<Idx>[ RangeInclusive::<Idx>::into_inner ](
    range: RangeInclusive<Idx>,
) -> (bounds: (Idx, Idx))
    ensures
        bounds.0 == range@.start,
        bounds.1 == range@.end,
;

/// What the driver of a body does next.
#[derive(Debug, Clone, Copy, PartialEq, Eq, Structural)]
pub enum Step {
    /// Move the source to this offset, then report `seeked`.
    Seek(u64),
    /// Read at most this many bytes from the source, hand them on as one
    /// chunk, and report their number with `advance`.
    Read(usize),
    /// Nothing: the body is complete.
    Done,
}

/// The state of one body transmission.
pub struct Session {
    /// The most that one chunk holds.
    pub capacity: usize,
    /// The offset that the source has yet to be moved to.
    pub seek: Option<u64>,
    /// The bytes that are still to be delivered; `None` where the body is
    /// the whole source.
    pub remaining: Option<nat>,
    /// The source has ended or failed.
    pub ended: bool,
}

/// The number of bytes from `first` to `last`, both included.
pub open spec fn span(first: u64, last: u64) -> nat {
    if first <= last {
        (last - first + 1) as nat
    } else {
        0
    }
}

/// The sum of the sizes of a sequence of chunks.
pub open spec fn total(reads: Seq<usize>) -> nat
    decreases reads.len(),
{
    if reads.len() == 0 {
        0
    } else {
        reads[0] as nat + total(reads.skip(1))
    }
}

/// The bytes that go out as chunks when a source is read from `position` on
/// and answers with reads of these sizes, one after the other.
pub open spec fn delivered(source: Seq<u8>, position: int, reads: Seq<usize>) -> Seq<u8>
    decreases reads.len(),
{
    if reads.len() == 0 {
        Seq::empty()
    } else {
        source.subrange(position, position + reads[0]) + delivered(
            source,
            position + reads[0],
            reads.skip(1),
        )
    }
}

impl Session {
    /// A session over the whole source, from where it stands.
    pub open spec fn whole(capacity: usize) -> Session {
        Session { capacity, seek: None, remaining: None, ended: false }
    }

    /// A session over the bytes from `first` to `last`.
    pub open spec fn ranged(capacity: usize, first: u64, last: u64) -> Session {
        Session { capacity, seek: Some(first), remaining: Some(span(first, last)), ended: false }
    }

    /// The size of the next read: the capacity, or what remains where that
    /// is less.
    pub open spec fn demand(self) -> nat {
        match self.remaining {
            Some(left) if left < self.capacity => left,
            _ => self.capacity as nat,
        }
    }

    /// What the driver does next.
    pub open spec fn next(self) -> Step {
        if self.ended {
            Step::Done
        } else if let Some(offset) = self.seek {
            Step::Seek(offset)
        } else if self.demand() == 0 {
            Step::Done
        } else {
            Step::Read(self.demand() as usize)
        }
    }

    /// The session once the source stands at the offset asked for.
    pub open spec fn seeked(self) -> Session {
        Session { seek: None, ..self }
    }

    /// The session once the source has failed.
    pub open spec fn failed(self) -> Session {
        Session { ended: true, ..self }
    }

    /// The session once a read has brought `count` bytes. A read that
    /// brings nothing is the end of the source.
    pub open spec fn advanced(self, count: usize) -> Session {
        if count == 0 {
            Session { ended: true, ..self }
        } else {
            match self.remaining {
                Some(left) => Session { remaining: Some((left - count) as nat), ..self },
                None => self,
            }
        }
    }

    /// Each read of the sequence, in turn, answers a demand of the session
    /// with at least one byte and no more than were asked for.
    pub open spec fn accepts(self, reads: Seq<usize>) -> bool
        decreases reads.len(),
    {
        reads.len() == 0 || (self.next() matches Step::Read(limit) && 1 <= reads[0] <= limit
            && self.advanced(reads[0]).accepts(reads.skip(1)))
    }

    /// The session after a sequence of reads.
    pub open spec fn after(self, reads: Seq<usize>) -> Session
        decreases reads.len(),
    {
        if reads.len() == 0 {
            self
        } else {
            self.advanced(reads[0]).after(reads.skip(1))
        }
    }
}

/// The bookkeeping of a streamed body: which part of a source is sent, in
/// chunks of which size, and how much of it is still to come. The driver
/// owns the source; it asks `poll_data` what to do and reports what happened.
#[derive(Debug)]
pub struct AsyncReadBody {
    capacity: usize,
    seek: Option<u64>,
    remaining: Option<u128>,
    ended: bool,
}

impl View for AsyncReadBody {
    type V = Session;

    closed spec fn view(&self) -> Session {
        Session {
            capacity: self.capacity,
            seek: self.seek,
            remaining: match self.remaining {
                Some(left) => Some(left as nat),
                None => None,
            },
            ended: self.ended,
        }
    }
}

impl AsyncReadBody {
    /// A body over the whole source from its current position, in chunks of
    /// at most `capacity` bytes.
    pub fn with_capacity(capacity: usize) -> (body: AsyncReadBody)
        ensures
            body@ == Session::whole(capacity),
    {
        AsyncReadBody { capacity, seek: None, remaining: None, ended: false }
    }

    /// A body over the bytes of `range`, both ends included, in chunks of at
    /// most `capacity` bytes. The source has first to be moved to the start
    /// of the range.
    pub fn with_range(capacity: usize, range: RangeInclusive<u64>) -> (body: AsyncReadBody)
        ensures
            body@ == Session::ranged(capacity, range@.start, range@.end),
    {
        let (first, last) = range.into_inner();
        let remaining: u128 = if first <= last {
            (last - first) as u128 + 1
        } else {
            0
        };
        AsyncReadBody { capacity, seek: Some(first), remaining: Some(remaining), ended: false }
    }

    /// What the driver does next.
    pub fn poll_data(&self) -> (step: Step)
        ensures
            step == self@.next(),
    {
        if self.ended {
            return Step::Done;
        }
        if let Some(offset) = self.seek {
            return Step::Seek(offset);
        }
        let demand = match self.remaining {
            Some(left) => if left < self.capacity as u128 {
                left as usize
            } else {
                self.capacity
            },
            None => self.capacity,
        };
        if demand == 0 {
            Step::Done
        } else {
            Step::Read(demand)
        }
    }

    /// The source stands at the offset that was asked for.
    pub fn seeked(&mut self)
        ensures
            final(self)@ == old(self)@.seeked(),
    {
        self.seek = None;
    }

    /// The source has failed. The failure ends the body: what was delivered
    /// before it stays delivered, and nothing follows.
    pub fn failed(&mut self)
        ensures
            final(self)@ == old(self)@.failed(),
    {
        self.ended = true;
    }

    /// A read has brought `count` bytes, which go out as one chunk. A read
    /// that brought nothing is the end of the source, and of the body.
    pub fn advance(&mut self, count: usize)
        requires
            old(self)@.next() matches Step::Read(limit) && count <= limit,
        ensures
            final(self)@ == old(self)@.advanced(count),
    {
        if count == 0 {
            self.ended = true;
        } else if let Some(left) = self.remaining {
            self.remaining = Some(left - count as u128);
        }
    }
}

/// While a session accepts reads it neither ends nor seeks, and the reads
/// come off what remains.
pub proof fn lemma_reads_come_off_remaining(session: Session, reads: Seq<usize>)
    requires
        session.accepts(reads),
        session.seek is None,
        !session.ended,
    ensures
        session.after(reads).capacity == session.capacity,
        session.after(reads).seek is None,
        !session.after(reads).ended,
        forall|i: int| 0 <= i < reads.len() ==> 1 <= #[trigger] reads[i] <= session.capacity,
        reads.len() <= total(reads),
        match session.remaining {
            Some(left) => total(reads) <= left && session.after(reads).remaining == Some(
                (left - total(reads)) as nat,
            ),
            None => session.after(reads).remaining is None,
        },
    decreases reads.len(),
{
    if reads.len() > 0 {
        let rest = reads.skip(1);
        lemma_reads_come_off_remaining(session.advanced(reads[0]), rest);
        assert forall|i: int| 0 <= i < reads.len() implies 1 <= #[trigger] reads[i]
            <= session.capacity by {
            if i > 0 {
                assert(reads[i] == rest[i - 1]);
            }
        }
    }
}

/// The chunks of a ranged body add up to the range. Take any capacity of at
/// least one byte and any range from `first` to `last`. Once the source
/// stands at `first`, let it answer every read with at least one byte: when
/// the body is complete, the chunks hold `last - first + 1` bytes in all,
/// none holds more than `capacity`, and there are no more chunks than bytes.
pub proof fn lemma_chunks_sum_to_range(capacity: usize, first: u64, last: u64, reads: Seq<usize>)
    requires
        capacity >= 1,
        first <= last,
        Session::ranged(capacity, first, last).seeked().accepts(reads),
        Session::ranged(capacity, first, last).seeked().after(reads).next() == Step::Done,
    ensures
        total(reads) == last - first + 1,
        reads.len() <= last - first + 1,
        forall|i: int| 0 <= i < reads.len() ==> 1 <= #[trigger] reads[i] <= capacity,
{
    lemma_reads_come_off_remaining(Session::ranged(capacity, first, last).seeked(), reads);
}

/// Reads that follow one another deliver one stretch of the source.
pub proof fn lemma_delivered_is_one_stretch(source: Seq<u8>, position: int, reads: Seq<usize>)
    requires
        0 <= position,
        position + total(reads) <= source.len(),
    ensures
        delivered(source, position, reads) == source.subrange(
            position,
            position + total(reads),
        ),
    decreases reads.len(),
{
    if reads.len() > 0 {
        lemma_delivered_is_one_stretch(source, position + reads[0], reads.skip(1));
    }
}

/// The chunks of a ranged body are the bytes of the range. Take a source
/// that holds the range from `first` to `last`, and let it stand at `first`
/// as the body asks. When the body is complete, the chunks, put together,
/// are the bytes of the source from `first` to `last`, both included.
pub proof fn lemma_chunks_are_the_range(
    source: Seq<u8>,
    capacity: usize,
    first: u64,
    last: u64,
    reads: Seq<usize>,
)
    requires
        capacity >= 1,
        first <= last < source.len(),
        Session::ranged(capacity, first, last).seeked().accepts(reads),
        Session::ranged(capacity, first, last).seeked().after(reads).next() == Step::Done,
    ensures
        Session::ranged(capacity, first, last).next() == Step::Seek(first),
        delivered(source, first as int, reads) == source.subrange(first as int, last + 1),
{
    lemma_chunks_sum_to_range(capacity, first, last, reads);
    lemma_delivered_is_one_stretch(source, first as int, reads);
}

/// A ranged body asks for data until its range is delivered: with a capacity
/// of at least one byte, and unless the source ends or fails, the body is
/// complete exactly when nothing remains, and every read before that asks
/// for at least one byte and for no more than the capacity or what remains.
pub proof fn lemma_body_asks_until_delivered(session: Session)
    requires
        session.capacity >= 1,
        session.seek is None,
        !session.ended,
        session.remaining is Some,
    ensures
        session.next() == Step::Done <==> session.remaining == Some(0nat),
        session.next() matches Step::Read(limit) ==> 1 <= limit <= session.capacity && limit
            <= session.remaining->0,
        !(session.next() is Seek),
{
}

/// A body that is complete stays complete: no report of the driver makes it
/// ask for data again.
pub proof fn lemma_done_is_final(session: Session)
    requires
        session.next() == Step::Done,
    ensures
        session.seeked().next() == Step::Done,
        session.failed().next() == Step::Done,
        forall|reads: Seq<usize>| #[trigger] session.accepts(reads) ==> reads.len() == 0,
{
}

} // verus!
