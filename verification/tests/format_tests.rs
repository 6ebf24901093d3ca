use pdf_slim::utils::format_size;

fn reference(bytes: u64) -> String {
    if bytes >= 1_073_741_824 {
        format!("{:.2} GB", bytes as f64 / 1_073_741_824.0)
    } else if bytes >= 1_048_576 {
        format!("{:.2} MB", bytes as f64 / 1_048_576.0)
    } else if bytes >= 1024 {
        format!("{:.2} KB", bytes as f64 / 1024.0)
    } else {
        format!("{} B", bytes)
    }
}

#[test]
fn format_size_bytes() {
    assert_eq!(format_size(0), "0 B");
    assert_eq!(format_size(1), "1 B");
    assert_eq!(format_size(1023), "1023 B");
}

#[test]
fn format_size_units() {
    assert_eq!(format_size(1024), "1.00 KB");
    assert_eq!(format_size(1536), "1.50 KB");
    assert_eq!(format_size(1_048_576), "1.00 MB");
    assert_eq!(format_size(1_073_741_824), "1.00 GB");
    assert_eq!(format_size(45 * 1_048_576), "45.00 MB");
}

#[test]
fn format_size_ties_match_f64_formatting() {
    // 1152 bytes is exactly 1.125 KB: a tie at two decimal places.
    for bytes in [1152u64, 1024 + 128 * 3, 1024 * 7 + 640, 1_048_576 + 131_072, 1_073_741_824 + 134_217_728 * 3] {
        assert_eq!(format_size(bytes), reference(bytes), "bytes = {}", bytes);
    }
}

#[test]
fn format_size_matches_f64_formatting_on_a_sweep() {
    let mut b: u64 = 0;
    while b < 5_000_000 {
        assert_eq!(format_size(b), reference(b), "bytes = {}", b);
        b += 37;
    }
    let mut x: u64 = 1;
    for _ in 0..64 {
        for d in [0u64, 1, 3, 511, 513, 1023, 1025] {
            let v = x.wrapping_add(d);
            assert_eq!(format_size(v), reference(v), "bytes = {}", v);
            let w = x.wrapping_sub(d);
            assert_eq!(format_size(w), reference(w), "bytes = {}", w);
        }
        x = x.wrapping_mul(2);
    }
    for v in [u64::MAX, u64::MAX - 1, (1u64 << 53) + 1, (1u64 << 54) + 2, (1u64 << 54) + 6, 0x8000_0000_0000_0c00, 123_456_789_012_345_678] {
        assert_eq!(format_size(v), reference(v), "bytes = {}", v);
    }
}
