use fastfiles::size_format::format_file_size;

fn float_reference(size: u64) -> String {
    const KB: u64 = 1024;
    const MB: u64 = 1024 * 1024;
    const GB: u64 = 1024 * 1024 * 1024;
    if size >= GB {
        format!("{:.2} GB", size as f64 / GB as f64)
    } else if size >= MB {
        format!("{:.2} MB", size as f64 / MB as f64)
    } else if size >= KB {
        format!("{:.1} KB", size as f64 / KB as f64)
    } else {
        format!("{} B", size)
    }
}

#[test]
fn exact_values() {
    assert_eq!(format_file_size(0), "0 B");
    assert_eq!(format_file_size(1023), "1023 B");
    assert_eq!(format_file_size(1024), "1.0 KB");
    assert_eq!(format_file_size(1536), "1.5 KB");
    assert_eq!(format_file_size(1048575), "1024.0 KB");
    assert_eq!(format_file_size(1048576), "1.00 MB");
    assert_eq!(format_file_size(1073741824), "1.00 GB");
    assert_eq!(format_file_size(1610612736), "1.50 GB");
}

#[test]
fn ties_round_to_even() {
    // 1.25 KB and 1.75 KB are exact halves at one decimal.
    assert_eq!(format_file_size(1280), "1.2 KB");
    assert_eq!(format_file_size(1792), "1.8 KB");
    // 1.125 MB and 1.375 MB at two decimals.
    assert_eq!(format_file_size(1179648), "1.12 MB");
    assert_eq!(format_file_size(1441792), "1.38 MB");
}

#[test]
fn agrees_with_float_formatting() {
    let mut samples: Vec<u64> = vec![u64::MAX, u64::MAX - 1, 1 << 53, (1 << 53) + 1, (1 << 54) + 3];
    let mut x: u64 = 1;
    for _ in 0..2000 {
        x = x.wrapping_mul(6364136223846793005).wrapping_add(1442695040888963407);
        samples.push(x);
        samples.push(x >> 20);
        samples.push(x >> 34);
        samples.push(x >> 44);
        samples.push(x >> 54);
    }
    for k in 0..64u32 {
        samples.push(1u64 << k);
        samples.push((1u64 << k).wrapping_sub(1));
    }
    for n in 0..5000u64 {
        samples.push(n * 128);
        samples.push(n * 1024 * 10);
        samples.push(1073741824 + n * 5368709);
    }
    for s in samples {
        assert_eq!(format_file_size(s), float_reference(s), "size {s}");
    }
}
