use asset_optimizer::report::{
    format_bytes, nearest_double_of, rounded_quotient, savings_report, spacing_of,
};

/// The size written by way of floating-point arithmetic.
fn by_floating_point(bytes: u64) -> String {
    let units = ["B", "KB", "MB", "GB", "TB"];
    let mut size = bytes as f64;
    let mut unit = 0;
    while size >= 1024.0 && unit < units.len() - 1 {
        size /= 1024.0;
        unit += 1;
    }
    if unit == 0 {
        format!("{} {}", bytes, units[unit])
    } else {
        format!("{:.1} {}", size, units[unit])
    }
}

#[test]
fn small_sizes_are_written_in_bytes() {
    assert_eq!(format_bytes(0), "0 B");
    assert_eq!(format_bytes(1), "1 B");
    assert_eq!(format_bytes(512), "512 B");
    assert_eq!(format_bytes(1023), "1023 B");
}

#[test]
fn larger_sizes_are_written_in_their_unit() {
    assert_eq!(format_bytes(1024), "1.0 KB");
    assert_eq!(format_bytes(1536), "1.5 KB");
    assert_eq!(format_bytes(10 * 1024), "10.0 KB");
    assert_eq!(format_bytes(1024 * 1024), "1.0 MB");
    assert_eq!(format_bytes(5 * 1024 * 1024 + 300 * 1024), "5.3 MB");
    assert_eq!(format_bytes(1 << 30), "1.0 GB");
    assert_eq!(format_bytes(1 << 40), "1.0 TB");
    assert_eq!(format_bytes(1 << 50), "1024.0 TB");
    assert_eq!(format_bytes(u64::MAX), "16777216.0 TB");
}

#[test]
fn a_size_just_below_a_unit_rounds_up_within_the_smaller_unit() {
    assert_eq!(format_bytes(1024 * 1024 - 1), "1024.0 KB");
    assert_eq!(format_bytes((1 << 30) - 1), "1024.0 MB");
    assert_eq!(format_bytes((1 << 40) - 1), "1024.0 GB");
}

#[test]
fn halves_round_to_the_even_digit() {
    assert_eq!(format_bytes(1024 + 256), "1.2 KB");
    assert_eq!(format_bytes(1024 + 768), "1.8 KB");
    assert_eq!(format_bytes(1024 + 255), "1.2 KB");
    assert_eq!(format_bytes(1024 + 257), "1.3 KB");
    assert_eq!(format_bytes(9 * 1024 + 768 + 256), "10.0 KB");
    assert_eq!(format_bytes((1 << 20) + (1 << 18)), "1.2 MB");
    assert_eq!(format_bytes((1 << 40) + 3 * (1 << 38)), "1.8 TB");
}

#[test]
fn writing_agrees_with_floating_point_at_the_edges() {
    let mut edges: Vec<u64> = Vec::new();
    for shift in 0..64 {
        let p = 1u64 << shift;
        for d in 0..40 {
            edges.push(p.wrapping_sub(d));
            edges.push(p.wrapping_add(d));
            edges.push((p / 10).wrapping_mul(d));
            edges.push(p.wrapping_add(p / 4 * (d % 4)).wrapping_add(d / 4));
        }
    }
    for bytes in edges {
        assert_eq!(format_bytes(bytes), by_floating_point(bytes), "{bytes}");
    }
}

#[test]
fn writing_agrees_with_floating_point_on_many_sizes() {
    let mut state: u64 = 0x9e37_79b9_7f4a_7c15;
    for _ in 0..200_000 {
        state = state.wrapping_mul(6364136223846793005).wrapping_add(1442695040888963407);
        let bytes = state >> (state >> 58);
        assert_eq!(format_bytes(bytes), by_floating_point(bytes), "{bytes}");
    }
}

#[test]
fn writing_agrees_with_floating_point_near_every_tenth() {
    for unit in [1u64 << 10, 1 << 20, 1 << 30, 1 << 40] {
        for twentieth in 20..2000u64 {
            let middle = unit / 20 * twentieth;
            for bytes in [middle - 1, middle, middle + 1, middle + unit / 40] {
                assert_eq!(format_bytes(bytes), by_floating_point(bytes), "{bytes}");
            }
        }
    }
}

#[test]
fn sizes_are_rounded_as_doubles_are() {
    let limit = 1u64 << 53;
    for n in [0, 1, 1023, limit - 1, limit, limit + 1, limit + 2, limit + 3, u64::MAX - 1024, u64::MAX] {
        assert_eq!(nearest_double_of(n), (n as f64) as u128, "{n}");
    }
    let mut state: u64 = 12345;
    for _ in 0..100_000 {
        state = state.wrapping_mul(6364136223846793005).wrapping_add(1442695040888963407);
        let n = state | (1 << 63) >> (state % 12);
        assert_eq!(nearest_double_of(n), (n as f64) as u128, "{n}");
    }
}

#[test]
fn spacing_doubles_from_two_to_the_53() {
    assert_eq!(spacing_of(0), 1);
    assert_eq!(spacing_of((1 << 53) - 1), 1);
    assert_eq!(spacing_of(1 << 53), 2);
    assert_eq!(spacing_of((1 << 54) - 1), 2);
    assert_eq!(spacing_of(1 << 54), 4);
    assert_eq!(spacing_of((1 << 63) - 1), 1024);
    assert_eq!(spacing_of(1 << 63), 2048);
    assert_eq!(spacing_of(u64::MAX), 2048);
}

#[test]
fn quotients_round_to_nearest_and_to_even_on_a_tie() {
    assert_eq!(rounded_quotient(0, 4), 0);
    assert_eq!(rounded_quotient(1, 4), 0);
    assert_eq!(rounded_quotient(2, 4), 0);
    assert_eq!(rounded_quotient(3, 4), 1);
    assert_eq!(rounded_quotient(6, 4), 2);
    assert_eq!(rounded_quotient(10, 4), 2);
    assert_eq!(rounded_quotient(14, 4), 4);
    assert_eq!(rounded_quotient(7, 1), 7);
    assert_eq!(rounded_quotient(7, 3), 2);
    assert_eq!(rounded_quotient(8, 3), 3);
}

#[test]
fn savings_are_reported_for_a_nonempty_input() {
    let report = savings_report(10 * 1024 * 1024, 4 * 1024 * 1024).unwrap();
    assert_eq!(report.original, "10.0 MB");
    assert_eq!(report.optimized, "4.0 MB");
    assert_eq!(report.savings, "6.0 MB");
    assert_eq!(report.saved_bytes, 6 * 1024 * 1024);
    let report = savings_report(100, 100).unwrap();
    assert_eq!(report.savings, "0 B");
}

#[test]
fn nothing_is_reported_for_an_empty_input() {
    assert_eq!(savings_report(0, 0), None);
}
