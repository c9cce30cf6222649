use deskframe::ram_monitor::RamUsage;

/// The rendering of the size as computed with `f64`, as the dashboard shows it.
fn float_rendering(bytes: u64) -> String {
    const KB: u64 = 1024;
    const MB: u64 = 1024 * 1024;
    const GB: u64 = 1024 * 1024 * 1024;
    if bytes >= GB {
        format!("{:.1} GB", bytes as f64 / GB as f64)
    } else if bytes >= MB {
        format!("{:.1} MB", bytes as f64 / MB as f64)
    } else if bytes >= KB {
        format!("{:.1} KB", bytes as f64 / KB as f64)
    } else {
        format!("{} B", bytes)
    }
}

#[test]
fn test_format_bytes() {
    assert_eq!(RamUsage::format_bytes(1024), "1.0 KB");
    assert_eq!(RamUsage::format_bytes(1048576), "1.0 MB");
    assert_eq!(RamUsage::format_bytes(1073741824), "1.0 GB");
}

#[test]
fn format_bytes_below_one_kib_is_whole_bytes() {
    assert_eq!(RamUsage::format_bytes(0), "0 B");
    assert_eq!(RamUsage::format_bytes(7), "7 B");
    assert_eq!(RamUsage::format_bytes(1023), "1023 B");
}

#[test]
fn format_bytes_one_decimal_values() {
    assert_eq!(RamUsage::format_bytes(1536), "1.5 KB");
    assert_eq!(RamUsage::format_bytes(1610612736), "1.5 GB");
    assert_eq!(RamUsage::format_bytes(5 * 1048576 + 104858), "5.1 MB");
    // just below a unit the figure rounds up to 1024.0 of the smaller unit
    assert_eq!(RamUsage::format_bytes(1048575), "1024.0 KB");
    assert_eq!(RamUsage::format_bytes(1073741823), "1024.0 MB");
}

#[test]
fn format_bytes_ties_round_to_even() {
    // 1.25 KB and 1.75 KB are exact binary values: ties go to the even tenth
    assert_eq!(RamUsage::format_bytes(1280), "1.2 KB");
    assert_eq!(RamUsage::format_bytes(1792), "1.8 KB");
    assert_eq!(RamUsage::format_bytes(1280), float_rendering(1280));
    assert_eq!(RamUsage::format_bytes(1792), float_rendering(1792));
}

#[test]
fn format_bytes_matches_float_rendering_small() {
    for b in 0u64..300_000 {
        assert_eq!(RamUsage::format_bytes(b), float_rendering(b), "bytes = {}", b);
    }
}

#[test]
fn format_bytes_matches_float_rendering_sampled() {
    let mut b: u64 = 1;
    let mut step: u64 = 1;
    while b < u64::MAX / 2 {
        for d in [0u64, 1, 2, 511, 512, 513] {
            let x = b.wrapping_add(d);
            assert_eq!(RamUsage::format_bytes(x), float_rendering(x), "bytes = {}", x);
        }
        b = b.saturating_add(step);
        step = step.saturating_mul(3) / 2 + 7;
    }
}

#[test]
fn format_bytes_matches_float_rendering_huge() {
    let limit: u64 = 1 << 53;
    let cases = [
        limit - 1,
        limit,
        limit + 1,
        limit + 2,
        limit + 3,
        (1u64 << 60) + (1 << 7),
        (1u64 << 60) + (1 << 7) + 1,
        (1u64 << 60) + (3 << 7),
        u64::MAX - 2048,
        u64::MAX - 1024,
        u64::MAX - 1,
        u64::MAX,
    ];
    for x in cases {
        assert_eq!(RamUsage::format_bytes(x), float_rendering(x), "bytes = {}", x);
    }
    assert_eq!(RamUsage::format_bytes(u64::MAX), "17179869184.0 GB");
}

#[test]
fn format_bytes_figure_is_within_half_a_tenth() {
    // 1000 bytes over 1 KiB: 1.9765625 KB is shown as 2.0
    let b: u64 = 1024 + 1000;
    assert_eq!(RamUsage::format_bytes(b), "2.0 KB");
    let shown_tenths: i128 = 20;
    assert!(2 * (shown_tenths * 1024 - 10 * b as i128).abs() <= 1024);
}

#[test]
fn from_readings_takes_process_memory_or_zero() {
    let r = RamUsage::from_readings(16_000_000, Some(52_000));
    assert_eq!(r.total_kb, 16_000_000);
    assert_eq!(r.used_kb, 52_000);
    assert_eq!(r.available_kb, 0);
    let r = RamUsage::from_readings(8_000, None);
    assert_eq!(r.total_kb, 8_000);
    assert_eq!(r.used_kb, 0);
    assert_eq!(r.available_kb, 0);
}

#[test]
fn used_label_renders_both_figures() {
    let r = RamUsage { total_kb: 1073741824, available_kb: 0, used_kb: 2048 };
    assert_eq!(r.used_label(), "Used: 2.0 KB / 1.0 GB");
    let r = RamUsage { total_kb: 0, available_kb: 0, used_kb: 0 };
    assert_eq!(r.used_label(), "Used: 0 B / 0 B");
}

#[test]
fn format_bytes_figure_grows_within_a_unit() {
    fn figure(s: &str) -> (f64, String) {
        let (n, u) = s.split_once(' ').unwrap();
        (n.parse().unwrap(), u.to_string())
    }
    let mut prev = figure(&RamUsage::format_bytes(0));
    for b in (0u64..3_000_000).step_by(97) {
        let cur = figure(&RamUsage::format_bytes(b));
        if cur.1 == prev.1 {
            assert!(prev.0 <= cur.0, "bytes = {}", b);
        }
        prev = cur;
    }
    let huge = [(1u64 << 60) - 1, 1 << 60, (1 << 60) + 1, u64::MAX - 1, u64::MAX];
    for w in huge.windows(2) {
        let (x, y) = (figure(&RamUsage::format_bytes(w[0])), figure(&RamUsage::format_bytes(w[1])));
        assert!(x.0 <= y.0);
    }
}
