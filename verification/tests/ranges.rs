use confined_fs::http::try_parse_range;
use confined_fs::range::{validate, RangeEnd, RangeError, RequestedRange, RangeStart};
use http_range_header::RangeUnsatisfiableError;

fn malformed(header_value: &str, file_size: u64) -> bool {
    matches!(
        try_parse_range(header_value, file_size),
        Err(RangeError::Malformed(_))
    )
}

#[test]
fn bounded_range_inside_the_resource() {
    assert_eq!(try_parse_range("bytes=10-19", 100), Ok(vec![10..=19]));
}

#[test]
fn bounded_range_past_the_end_is_unsatisfiable() {
    assert_eq!(
        try_parse_range("bytes=95-150", 100),
        Err(RangeError::Unsatisfiable)
    );
}

#[test]
fn last_byte_is_the_limit() {
    assert_eq!(try_parse_range("bytes=0-99", 100), Ok(vec![0..=99]));
    assert_eq!(
        try_parse_range("bytes=0-100", 100),
        Err(RangeError::Unsatisfiable)
    );
    assert_eq!(try_parse_range("bytes=99-99", 100), Ok(vec![99..=99]));
    assert_eq!(
        try_parse_range("bytes=100-100", 100),
        Err(RangeError::Unsatisfiable)
    );
}

#[test]
fn single_byte_resource() {
    assert_eq!(try_parse_range("bytes=0-0", 1), Ok(vec![0..=0]));
    assert_eq!(try_parse_range("bytes=0-", 1), Ok(vec![0..=0]));
    assert_eq!(try_parse_range("bytes=-1", 1), Ok(vec![0..=0]));
}

#[test]
fn open_ended_range_runs_to_the_last_byte() {
    assert_eq!(try_parse_range("bytes=5-", 10), Ok(vec![5..=9]));
    assert_eq!(try_parse_range("bytes=0-", 10), Ok(vec![0..=9]));
}

#[test]
fn open_ended_range_from_the_end_is_unsatisfiable() {
    assert_eq!(
        try_parse_range("bytes=10-", 10),
        Err(RangeError::Unsatisfiable)
    );
    assert_eq!(
        try_parse_range("bytes=11-", 10),
        Err(RangeError::Unsatisfiable)
    );
}

#[test]
fn suffix_range_counts_back_from_the_end() {
    assert_eq!(try_parse_range("bytes=-3", 10), Ok(vec![7..=9]));
    assert_eq!(try_parse_range("bytes=-10", 10), Ok(vec![0..=9]));
}

#[test]
fn suffix_longer_than_the_resource_is_unsatisfiable() {
    assert_eq!(
        try_parse_range("bytes=-30", 10),
        Err(RangeError::Unsatisfiable)
    );
}

#[test]
fn reversed_range_is_unsatisfiable() {
    assert_eq!(
        try_parse_range("bytes=5-2", 10),
        Err(RangeError::Unsatisfiable)
    );
}

#[test]
fn empty_resource_satisfies_nothing() {
    assert_eq!(
        try_parse_range("bytes=0-5", 0),
        Err(RangeError::Unsatisfiable)
    );
    assert_eq!(try_parse_range("bytes=0-", 0), Err(RangeError::Unsatisfiable));
    assert_eq!(try_parse_range("bytes=-1", 0), Err(RangeError::Unsatisfiable));
}

#[test]
fn malformed_headers() {
    assert!(malformed("", 100));
    assert!(malformed("bytes=", 100));
    assert!(malformed("bytes=a-b", 100));
    assert!(malformed("bytes=-0", 100));
    assert!(malformed("bytes=1", 100));
    assert!(malformed("items=0-5", 100));
    assert!(malformed("bytes=00-5", 100));
    assert!(malformed("bytes=+0-5", 100));
    assert!(malformed("bytes=0-5 ", 100));
    assert!(malformed(" bytes=0-5", 100));
    assert!(malformed("bytes=0-5, 10-15, abc", 100));
}

#[test]
fn malformed_is_told_apart_from_unsatisfiable() {
    assert!(malformed("bytes=x-5", 3));
    assert_eq!(try_parse_range("bytes=4-5", 3), Err(RangeError::Unsatisfiable));
}

#[test]
fn several_ranges_come_back_in_textual_order() {
    assert_eq!(
        try_parse_range("bytes=0-5,10-15", 100),
        Ok(vec![0..=5, 10..=15])
    );
    assert_eq!(
        try_parse_range("bytes=20-30, 0-15", 100),
        Ok(vec![20..=30, 0..=15])
    );
    assert_eq!(
        try_parse_range("bytes=0-4, 90-, -5", 100),
        Err(RangeError::Unsatisfiable)
    );
    assert_eq!(
        try_parse_range("bytes=0-4, 50-, -5", 100),
        Err(RangeError::Unsatisfiable)
    );
    assert_eq!(
        try_parse_range("bytes=0-4, 10-20, -5", 100),
        Ok(vec![0..=4, 10..=20, 95..=99])
    );
}

#[test]
fn overlapping_ranges_are_unsatisfiable() {
    assert_eq!(
        try_parse_range("bytes=0-10,5-15", 100),
        Err(RangeError::Unsatisfiable)
    );
    assert_eq!(
        try_parse_range("bytes=0-10,10-15", 100),
        Err(RangeError::Unsatisfiable)
    );
    assert_eq!(
        try_parse_range("bytes=0-15, 10-20, 30-50", 512),
        Err(RangeError::Unsatisfiable)
    );
}

#[test]
fn one_unsatisfiable_range_spoils_the_header() {
    assert_eq!(
        try_parse_range("bytes=0-5,200-300", 100),
        Err(RangeError::Unsatisfiable)
    );
}

#[test]
fn largest_offsets() {
    let top = u64::MAX;
    let text = format!("bytes=0-{}", top - 1);
    assert_eq!(try_parse_range(&text, top), Ok(vec![0..=top - 1]));
    let text = format!("bytes=0-{}", top);
    assert_eq!(try_parse_range(&text, top), Err(RangeError::Unsatisfiable));
    let text = format!("bytes={}-{}", top - 1, top - 1);
    assert_eq!(try_parse_range(&text, top), Ok(vec![top - 1..=top - 1]));
    assert!(malformed("bytes=0-18446744073709551616", top));
}

#[test]
fn bounded_ranges_over_small_lengths() {
    for length in 0..12u64 {
        for first in 0..12u64 {
            for last in 0..12u64 {
                let text = format!("bytes={}-{}", first, last);
                let expected = if first <= last && last < length {
                    Ok(vec![first..=last])
                } else {
                    Err(RangeError::Unsatisfiable)
                };
                assert_eq!(try_parse_range(&text, length), expected);
            }
        }
    }
}

#[test]
fn resolve_each_form() {
    let bounded = RequestedRange {
        start: RangeStart::Index(2),
        end: RangeEnd::Index(4),
    };
    assert_eq!(bounded.resolve(5), Some((2, 4)));
    assert_eq!(bounded.resolve(4), None);
    let open = RequestedRange {
        start: RangeStart::Index(2),
        end: RangeEnd::LastByte,
    };
    assert_eq!(open.resolve(5), Some((2, 4)));
    assert_eq!(open.resolve(3), Some((2, 2)));
    assert_eq!(open.resolve(2), None);
    let suffix = RequestedRange {
        start: RangeStart::FromLast(2),
        end: RangeEnd::LastByte,
    };
    assert_eq!(suffix.resolve(5), Some((3, 4)));
    assert_eq!(suffix.resolve(2), Some((0, 1)));
    assert_eq!(suffix.resolve(1), None);
    let mixed = RequestedRange {
        start: RangeStart::FromLast(4),
        end: RangeEnd::Index(7),
    };
    assert_eq!(mixed.resolve(10), Some((6, 7)));
    assert_eq!(mixed.resolve(7), None);
    assert_eq!(mixed.resolve(12), None);
    let nothing = RequestedRange {
        start: RangeStart::FromLast(0),
        end: RangeEnd::LastByte,
    };
    assert_eq!(nothing.resolve(10), None);
}

#[test]
fn validate_takes_parsed_ranges() {
    let ranges = vec![
        RequestedRange {
            start: RangeStart::Index(0),
            end: RangeEnd::Index(4),
        },
        RequestedRange {
            start: RangeStart::FromLast(5),
            end: RangeEnd::LastByte,
        },
    ];
    assert_eq!(validate(&ranges, 100), Ok(vec![0..=4, 95..=99]));
    assert_eq!(validate(&ranges, 10), Ok(vec![0..=4, 5..=9]));
    assert_eq!(validate(&ranges, 9), Err(RangeError::Unsatisfiable));
    assert_eq!(validate(&ranges, 4), Err(RangeError::Unsatisfiable));
}

#[test]
fn validate_refuses_an_empty_header() {
    assert_eq!(validate(&Vec::new(), 100), Err(RangeError::Unsatisfiable));
}

#[test]
fn malformed_carries_the_reason() {
    assert_eq!(
        try_parse_range("bytes=-0", 100),
        Err(RangeError::Malformed(RangeUnsatisfiableError::ZeroSuffix))
    );
    assert_eq!(
        try_parse_range("items=0-5", 100),
        Err(RangeError::Malformed(
            RangeUnsatisfiableError::DoesNotStartWithToken
        ))
    );
    assert_eq!(
        try_parse_range("bytes=0-5 ", 100),
        Err(RangeError::Malformed(RangeUnsatisfiableError::IllegalWhitespace))
    );
    assert_eq!(
        try_parse_range("bytes=x-5", 100),
        Err(RangeError::Malformed(RangeUnsatisfiableError::BadStartOfRange))
    );
}

#[test]
fn reversed_range_inside_the_resource_is_unsatisfiable() {
    assert_eq!(try_parse_range("bytes=5-2", 10), Err(RangeError::Unsatisfiable));
    assert_eq!(try_parse_range("bytes=1-0", 10), Err(RangeError::Unsatisfiable));
    assert_eq!(try_parse_range("bytes=9-8", 10), Err(RangeError::Unsatisfiable));
}

#[test]
fn open_ended_ranges_over_small_lengths() {
    for length in 0..12u64 {
        for first in 0..14u64 {
            let text = format!("bytes={}-", first);
            let expected = if first < length {
                Ok(vec![first..=length - 1])
            } else {
                Err(RangeError::Unsatisfiable)
            };
            assert_eq!(try_parse_range(&text, length), expected);
        }
    }
}

#[test]
fn suffix_ranges_over_small_lengths() {
    for length in 0..12u64 {
        for count in 1..14u64 {
            let text = format!("bytes=-{}", count);
            let expected = if count <= length {
                Ok(vec![length - count..=length - 1])
            } else {
                Err(RangeError::Unsatisfiable)
            };
            assert_eq!(try_parse_range(&text, length), expected);
        }
    }
}

#[test]
fn open_forms_at_the_largest_offsets() {
    let top = u64::MAX;
    let text = format!("bytes={}-", top - 1);
    assert_eq!(try_parse_range(&text, top), Ok(vec![top - 1..=top - 1]));
    let text = format!("bytes={}-", top);
    assert_eq!(try_parse_range(&text, top), Err(RangeError::Unsatisfiable));
    let text = format!("bytes=-{}", top);
    assert_eq!(try_parse_range(&text, top), Ok(vec![0..=top - 1]));
    assert_eq!(try_parse_range(&text, top - 1), Err(RangeError::Unsatisfiable));
}
