use ghfetch::system::{format_bytes, format_uptime, SystemInfo};

fn float_reference(bytes: u64) -> String {
    let units = ["B", "KiB", "MiB", "GiB", "TiB"];
    let mut size = bytes as f64;
    let mut unit_idx = 0;
    while size >= 1024.0 && unit_idx < units.len() - 1 {
        size /= 1024.0;
        unit_idx += 1;
    }
    let number = format!("{:.1}", size);
    let number = number.strip_suffix(".0").unwrap_or(&number);
    format!("{} {}", number, units[unit_idx])
}

#[test]
fn format_bytes_examples() {
    assert_eq!(format_bytes(0), "0 B");
    assert_eq!(format_bytes(1023), "1023 B");
    assert_eq!(format_bytes(1024), "1 KiB");
    assert_eq!(format_bytes(1536), "1.5 KiB");
    assert_eq!(format_bytes(16 * 1024 * 1024 * 1024), "16 GiB");
    assert_eq!(format_bytes(8_804_682_752), "8.2 GiB");
    assert_eq!(format_bytes(u64::MAX), "16777216 TiB");
}

#[test]
fn format_bytes_ties_round_to_even() {
    // 1280 bytes are exactly 1.25 KiB; 1.35 KiB and such are not exact.
    assert_eq!(format_bytes(1280), float_reference(1280));
    assert_eq!(format_bytes(1280), "1.2 KiB");
    assert_eq!(format_bytes(1024 + 384), float_reference(1024 + 384));
}

#[test]
fn format_bytes_matches_float_computation() {
    let mut samples: Vec<u64> = Vec::new();
    for b in 0..5000u64 {
        samples.push(b);
    }
    let mut x: u64 = 1;
    for _ in 0..64 {
        for d in [0u64, 1, 2, 51, 52, 511, 512, 513, 1023] {
            samples.push(x.wrapping_add(d));
            samples.push(x.wrapping_sub(d));
            samples.push(x.wrapping_mul(3).wrapping_add(d));
            samples.push(x.wrapping_mul(5) / 4);
        }
        x = x.wrapping_mul(2);
    }
    let mut seed: u64 = 0x9e37_79b9_7f4a_7c15;
    for _ in 0..20000 {
        seed ^= seed << 13;
        seed ^= seed >> 7;
        seed ^= seed << 17;
        samples.push(seed >> (seed % 64));
        samples.push(seed);
    }
    for b in samples {
        assert_eq!(format_bytes(b), float_reference(b), "bytes = {}", b);
    }
}

#[test]
fn format_uptime_examples() {
    assert_eq!(format_uptime(0), "0m");
    assert_eq!(format_uptime(59), "0m");
    assert_eq!(format_uptime(3 * 3600 + 42 * 60 + 7), "3h 42m");
    assert_eq!(format_uptime(86400), "1d 0h 0m");
    assert_eq!(format_uptime(2 * 86400 + 3600 + 61), "2d 1h 1m");
}

#[test]
fn system_info_usage_strings() {
    let mut s = SystemInfo::default();
    s.ram_used = 8 * 1024 * 1024 * 1024;
    s.ram_total = 16 * 1024 * 1024 * 1024;
    s.disk_used = 120 * 1024 * 1024 * 1024;
    s.disk_total = 445 * 1024 * 1024 * 1024;
    assert_eq!(s.ram_used_str(), "8 GiB");
    assert_eq!(s.ram_total_str(), "16 GiB");
    assert_eq!(s.disk_used_str(), "120 GiB");
    assert_eq!(s.disk_total_str(), "445 GiB");
}
