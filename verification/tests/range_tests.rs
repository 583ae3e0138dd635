use fastfiles::range::{parse_range_header, HttpRange};

fn ranges(header: &str, size: u64) -> Option<Vec<(u64, u64)>> {
    parse_range_header(header, size).map(|r| r.ranges.iter().map(|h| (h.start, h.end)).collect())
}

#[test]
fn explicit_range() {
    assert_eq!(ranges("bytes=0-499", 1000), Some(vec![(0, 499)]));
}

#[test]
fn open_ended_range_resumes_to_the_end() {
    assert_eq!(ranges("bytes=500-", 1000), Some(vec![(500, 999)]));
}

#[test]
fn suffix_range_gives_last_bytes() {
    assert_eq!(ranges("bytes=-200", 1000), Some(vec![(800, 999)]));
    assert_eq!(ranges("bytes=-2000", 1000), Some(vec![(0, 999)]));
}

#[test]
fn end_is_cut_at_the_last_byte() {
    assert_eq!(ranges("bytes=900-2000", 1000), Some(vec![(900, 999)]));
}

#[test]
fn several_ranges_keep_their_order_and_are_trimmed() {
    assert_eq!(ranges("bytes=0-0, -1 ,\t10-19", 1000), Some(vec![(0, 0), (999, 999), (10, 19)]));
}

#[test]
fn plus_sign_is_accepted_like_str_parse() {
    assert_eq!(ranges("bytes=+5-+9", 1000), Some(vec![(5, 9)]));
    assert_eq!(ranges("bytes=-+3", 1000), Some(vec![(997, 999)]));
}

#[test]
fn refused_headers() {
    for h in [
        "items=0-1",
        "Bytes=0-1",
        "bytes=",
        "bytes=5",
        "bytes=10-5",
        "bytes=1000-",
        "bytes=-0",
        "bytes=a-b",
        "bytes=0-1,",
        "bytes=,0-1",
        "bytes=0 -1x",
        "bytes=18446744073709551616-",
        "bytes=-+",
        "bytes=--5",
    ] {
        assert_eq!(ranges(h, 1000), None, "{h}");
    }
}

#[test]
fn empty_file() {
    assert_eq!(ranges("bytes=0-", 0), None);
    assert_eq!(ranges("bytes=-5", 0), Some(vec![(0, 0)]));
}

#[test]
fn largest_numbers() {
    assert_eq!(
        ranges("bytes=18446744073709551614-18446744073709551615", u64::MAX),
        Some(vec![(u64::MAX - 1, u64::MAX - 1)])
    );
}

#[test]
fn range_struct_fields() {
    let r = parse_range_header("bytes=1-2", 10).unwrap();
    assert_eq!(r.ranges, vec![HttpRange { start: 1, end: 2 }]);
}

#[test]
fn accepted_ranges_lie_within_the_file() {
    let sizes = [0u64, 1, 2, 10, 1000, u64::MAX];
    let parts = ["0-0", "0-", "-1", "-5", "3-7", "5-", "999-", "0-18446744073709551615", "-18446744073709551615", "2-1"];
    for &size in &sizes {
        for a in parts {
            for b in parts {
                let h = format!("bytes={a},{b}");
                if let Some(req) = parse_range_header(&h, size) {
                    assert!(!req.ranges.is_empty());
                    for r in &req.ranges {
                        assert!(r.start <= r.end, "{h} {size}");
                        if size > 0 {
                            assert!(r.end < size, "{h} {size}");
                        }
                    }
                }
            }
        }
    }
}

#[test]
fn offsets_written_in_decimal_read_back() {
    for start in [0u64, 7, 10, 99, 100, 123456789, u64::MAX - 1] {
        assert_eq!(ranges(&format!("bytes={start}-"), u64::MAX), Some(vec![(start, u64::MAX - 1)]));
    }
}
