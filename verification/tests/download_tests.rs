use fastfiles::download::{
    content_disposition_value, content_range_value, download_plan, multipart_body,
    multipart_boundary, multipart_content_type, after_read, boundary_from, boundary_for_bytes, next_chunk_end, next_read_len, read_buffer_len,
    DownloadPlan, CHUNK_SIZE,
};
use fastfiles::range::HttpRange;

#[test]
fn plans() {
    assert!(matches!(download_plan(None, 100), DownloadPlan::Whole));
    assert!(matches!(download_plan(Some("nonsense"), 100), DownloadPlan::Whole));
    assert!(matches!(download_plan(Some("bytes=200-"), 100), DownloadPlan::Whole));
    match download_plan(Some("bytes=10-19"), 100) {
        DownloadPlan::Single { start, end, length } => assert_eq!((start, end, length), (10, 19, 10)),
        _ => panic!("expected one range"),
    }
    match download_plan(Some("bytes=0-1,-2"), 100) {
        DownloadPlan::Multiple { ranges } => assert_eq!(
            ranges,
            vec![HttpRange { start: 0, end: 1 }, HttpRange { start: 98, end: 99 }]
        ),
        _ => panic!("expected several ranges"),
    }
}

#[test]
fn header_values() {
    assert_eq!(content_range_value(0, 9, 100), "bytes 0-9/100");
    assert_eq!(content_range_value(18446744073709551614, 18446744073709551614, u64::MAX),
        "bytes 18446744073709551614-18446744073709551614/18446744073709551615");
    assert_eq!(content_disposition_value("a b.txt"), "attachment; filename=\"a b.txt\"");
    assert_eq!(multipart_content_type("xyz"), "multipart/byteranges; boundary=xyz");
}

#[test]
fn boundaries_are_fresh_uuids() {
    let a = multipart_boundary().unwrap();
    let b = multipart_boundary().unwrap();
    assert_ne!(a, b);
    assert!(a.starts_with("fastfiles_boundary_"));
    let id: Vec<char> = a["fastfiles_boundary_".len()..].chars().collect();
    assert_eq!(id.len(), 36);
    assert_eq!(id[14], '4');
    assert!(['8', '9', 'a', 'b'].contains(&id[19]));
    for (i, c) in id.iter().enumerate() {
        if [8, 13, 18, 23].contains(&i) {
            assert_eq!(*c, '-');
        } else {
            assert!(c.is_ascii_hexdigit() && !c.is_ascii_uppercase());
        }
    }
}

#[test]
fn multipart_layout() {
    let ranges = vec![HttpRange { start: 0, end: 1 }, HttpRange { start: 5, end: 5 }];
    let data = vec![b"ab".to_vec(), b"f".to_vec()];
    let body = multipart_body("B", &ranges, &data, 6);
    let expected = "--B\r\nContent-Type: application/octet-stream\r\nContent-Range: bytes 0-1/6\r\n\r\nab\r\n\
--B\r\nContent-Type: application/octet-stream\r\nContent-Range: bytes 5-5/6\r\n\r\nf\r\n--B--\r\n";
    assert_eq!(body, expected.as_bytes());
}

#[test]
fn chunking() {
    assert_eq!(next_chunk_end(0, 10), 10);
    assert_eq!(next_chunk_end(0, CHUNK_SIZE * 2 + 5), CHUNK_SIZE);
    assert_eq!(next_chunk_end(CHUNK_SIZE * 2, CHUNK_SIZE * 2 + 5), CHUNK_SIZE * 2 + 5);
    assert_eq!(read_buffer_len(0), 1);
    assert_eq!(read_buffer_len(100), 100);
    assert_eq!(read_buffer_len(1 << 40), CHUNK_SIZE);
    assert_eq!(next_read_len(100, 30), 30);
    assert_eq!(next_read_len(100, 300), 100);
}

#[test]
fn boundary_text() {
    assert_eq!(boundary_from("abc"), "fastfiles_boundary_abc");
}

#[test]
fn reads_count_down() {
    assert_eq!(after_read(10, 0), None);
    assert_eq!(after_read(10, 4), Some(6));
    assert_eq!(after_read(10, 10), Some(0));
}

#[test]
fn chunks_tile_the_range() {
    for (start, end) in [(0usize, 1usize), (5, CHUNK_SIZE * 3 + 7), (CHUNK_SIZE, CHUNK_SIZE * 2)] {
        let mut offset = start;
        let mut pieces = 0;
        while offset < end {
            let e = next_chunk_end(offset, end);
            assert!(e > offset && e - offset <= CHUNK_SIZE);
            offset = e;
            pieces += 1;
        }
        assert_eq!(offset, end);
        assert_eq!(pieces, (end - start + CHUNK_SIZE - 1) / CHUNK_SIZE);
    }
}

#[test]
fn boundary_of_given_bytes() {
    let bytes = [0x00u8, 0x11, 0x22, 0x33, 0x44, 0x55, 0x66, 0x77, 0x88, 0x99, 0xaa, 0xbb, 0xcc, 0xdd, 0xee, 0xff];
    assert_eq!(boundary_for_bytes(bytes), "fastfiles_boundary_00112233-4455-4677-8899-aabbccddeeff");
    assert_eq!(boundary_for_bytes([0xffu8; 16]), "fastfiles_boundary_ffffffff-ffff-4fff-bfff-ffffffffffff");
}
