use mdcode2txt::display::{format_filename, format_size};

#[test]
fn sizes_below_a_kilobyte_are_in_bytes() {
    assert_eq!(format_size(0), "0 B".to_string());
    assert_eq!(format_size(7), "7 B".to_string());
    assert_eq!(format_size(1023), "1023 B".to_string());
}

#[test]
fn larger_sizes_have_two_decimals() {
    assert_eq!(format_size(1024), "1.00 KB".to_string());
    assert_eq!(format_size(1536), "1.50 KB".to_string());
    assert_eq!(format_size(1048575), "1024.00 KB".to_string());
    assert_eq!(format_size(1048576), "1.00 MB".to_string());
    assert_eq!(format_size(5 * 1048576 + 262144), "5.25 MB".to_string());
    assert_eq!(format_size(1073741824), "1.00 GB".to_string());
    assert_eq!(format_size(u64::MAX), "17179869184.00 GB".to_string());
}

#[test]
fn size_ties_round_to_even() {
    // 1152 bytes are 1.125 KB exactly.
    assert_eq!(format_size(1152), "1.12 KB".to_string());
    assert_eq!(format_size(1152), format!("{:.2} KB", 1152.0_f64 / 1024.0));
    // 1408 bytes are 1.375 KB exactly.
    assert_eq!(format_size(1408), "1.38 KB".to_string());
    assert_eq!(format_size(1408), format!("{:.2} KB", 1408.0_f64 / 1024.0));
}

#[test]
fn short_names_are_padded_on_the_left() {
    assert_eq!(format_filename("main.rs", 10), "   main.rs".to_string());
    assert_eq!(format_filename("0123456789", 10), "0123456789".to_string());
    assert_eq!(format_filename("é.c", 5), "  é.c".to_string());
}

#[test]
fn long_names_keep_their_end() {
    let name = "some/very/long/directory/tree/source.rs";
    assert_eq!(format_filename(name, 30), "...ng/directory/tree/source.rs".to_string());
    assert_eq!(format_filename("abcdef", 3), "...".to_string());
}

fn float_size(bytes: u64) -> String {
    if bytes < 1024 {
        format!("{} B", bytes)
    } else if bytes < 1024 * 1024 {
        format!("{:.2} KB", bytes as f64 / 1024.0)
    } else if bytes < 1024 * 1024 * 1024 {
        format!("{:.2} MB", bytes as f64 / (1024.0 * 1024.0))
    } else {
        format!("{:.2} GB", bytes as f64 / (1024.0 * 1024.0 * 1024.0))
    }
}

#[test]
fn sizes_agree_with_float_formatting() {
    for b in 0..300_000u64 {
        assert_eq!(format_size(b), float_size(b), "at {}", b);
    }
    let mut b: u64 = 1_000_000;
    while b < 5_000_000_000 {
        assert_eq!(format_size(b), float_size(b), "at {}", b);
        b += 997;
    }
}

#[test]
fn huge_sizes_round_as_a_double_does() {
    let samples = [
        (1u64 << 53) - 1,
        1u64 << 53,
        (1u64 << 53) + 1,
        (1u64 << 60) + 12345,
        123_456_789_012_345_678,
        u64::MAX - 5000,
        u64::MAX - 1024,
        u64::MAX,
    ];
    for &b in samples.iter() {
        assert_eq!(format_size(b), float_size(b), "at {}", b);
    }
    // Above 2^63 neighbouring doubles lie 2048 apart.
    let mut b: u64 = (1u64 << 63) + 5_368_709_120;
    for _ in 0..5000 {
        assert_eq!(format_size(b), float_size(b), "at {}", b);
        b += 1_048_575;
    }
}
