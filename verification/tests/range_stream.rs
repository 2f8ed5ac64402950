//! Range parsing and stream planning.

use freya::range::RangeHeader;
use freya::stream::{plan_send, plan_stream, StreamPlan};

#[test]
fn parse_bounded_range() {
    let r = RangeHeader::parse("bytes=0-499").unwrap();
    assert_eq!(r.start, 0);
    assert_eq!(r.end, Some(499));
}

#[test]
fn parse_open_range() {
    let r = RangeHeader::parse("bytes=9500-").unwrap();
    assert_eq!(r.start, 9500);
    assert_eq!(r.end, None);
}

#[test]
fn parse_rejects_garbage() {
    assert!(RangeHeader::parse("bytes=abc").is_none());
    assert!(RangeHeader::parse("").is_none());
    assert!(RangeHeader::parse("bytes=").is_none());
    assert!(RangeHeader::parse("bytes=-5").is_none());
    assert!(RangeHeader::parse("octets=0-1").is_none());
    assert!(RangeHeader::parse("bytes=1-2-3").is_none());
}

#[test]
fn parse_rejects_multi_range() {
    assert!(RangeHeader::parse("bytes=0-499,600-699").is_none());
}

#[test]
fn parse_start_overflow_is_invalid() {
    assert!(RangeHeader::parse("bytes=99999999999999999999-").is_none());
}

#[test]
fn parse_end_overflow_means_open_ended() {
    let r = RangeHeader::parse("bytes=1-99999999999999999999").unwrap();
    assert_eq!(r.start, 1);
    assert_eq!(r.end, None);
}

#[test]
fn valid_range_yields_partial_content() {
    // For bytes=a-b with a <= b < fileSize: status 206 and
    // Content-Length b-a+1.
    let plan = plan_stream(1000, Some("bytes=200-499"));
    assert_eq!(plan.status_code(), 206);
    assert_eq!(plan.content_length(), 300);
    assert_eq!(
        plan.content_range().unwrap(),
        "bytes 200-499/1000".to_string()
    );
    match plan {
        StreamPlan::Partial {
            start,
            end,
            file_size,
        } => {
            assert_eq!(start, 200);
            assert_eq!(end, 499);
            assert_eq!(file_size, 1000);
        }
        _ => panic!("expected a partial plan"),
    }
}

#[test]
fn open_range_covers_to_end_of_file() {
    // For bytes=a- the response covers [a, fileSize - 1].
    let plan = plan_stream(1000, Some("bytes=400-"));
    assert_eq!(plan.status_code(), 206);
    assert_eq!(plan.content_length(), 600);
    assert_eq!(
        plan.content_range().unwrap(),
        "bytes 400-999/1000".to_string()
    );
}

#[test]
fn malformed_range_degrades_to_full_content() {
    // Malformed headers (garbage, multi-range, reversed bounds) give 200,
    // never a 4xx.
    for header in ["bytes=abc", "bytes=0-499,600-699", "bytes=500-100"] {
        let plan = plan_stream(1000, Some(header));
        assert_eq!(plan.status_code(), 200);
        assert_eq!(plan.content_length(), 1000);
        assert!(plan.content_range().is_none());
    }
}

#[test]
fn absent_range_is_full_content() {
    let plan = plan_stream(1000, None);
    assert_eq!(plan.status_code(), 200);
    assert_eq!(plan.content_length(), 1000);
}

#[test]
fn unsatisfiable_range_degrades_to_full_content() {
    // Start beyond the file, or an end beyond the file.
    assert_eq!(plan_stream(100, Some("bytes=100-")).status_code(), 200);
    assert_eq!(plan_stream(100, Some("bytes=0-100")).status_code(), 200);
    assert_eq!(plan_stream(0, Some("bytes=0-")).status_code(), 200);
}

#[test]
fn single_byte_range() {
    let plan = plan_stream(1, Some("bytes=0-0"));
    assert_eq!(plan.status_code(), 206);
    assert_eq!(plan.content_length(), 1);
    assert_eq!(plan.content_range().unwrap(), "bytes 0-0/1".to_string());
}

#[test]
fn missing_file_plans_not_found() {
    let plan = plan_send(false, 0, Some("bytes=0-1"));
    assert_eq!(plan.status_code(), 404);
    assert_eq!(plan.content_length(), 0);
    let plan = plan_send(true, 10, None);
    assert_eq!(plan.status_code(), 200);
}
