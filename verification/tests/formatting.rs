use karton::youtil::{format_size, format_uptime};

fn float_size(bytes: u64) -> String {
    const UNITS: &[&str] = &["B", "KB", "MB", "GB", "TB"];
    let mut size = bytes as f64;
    let mut unit_index = 0;
    while size >= 1024.0 && unit_index < UNITS.len() - 1 {
        size /= 1024.0;
        unit_index += 1;
    }
    format!("{:.1} {}", size, UNITS[unit_index])
}

#[test]
fn uptime_examples() {
    assert_eq!(format_uptime(0), "0d 0h 0m");
    assert_eq!(format_uptime(59), "0d 0h 0m");
    assert_eq!(format_uptime(60), "0d 0h 1m");
    assert_eq!(format_uptime(3661), "0d 1h 1m");
    assert_eq!(format_uptime(90061), "1d 1h 1m");
    assert_eq!(format_uptime(86399), "0d 23h 59m");
    assert_eq!(format_uptime(u64::MAX), "213503982334601d 7h 0m");
}

#[test]
fn uptime_parts_account_for_the_seconds() {
    for s in [0u64, 1, 59, 60, 3599, 3600, 86399, 86400, 123456789] {
        let text = format_uptime(s);
        let parts: Vec<u64> = text
            .split(' ')
            .map(|p| p[..p.len() - 1].parse().unwrap())
            .collect();
        let (d, h, m) = (parts[0], parts[1], parts[2]);
        assert!(h < 24 && m < 60);
        let whole = d * 86400 + h * 3600 + m * 60;
        assert!(whole <= s && s < whole + 60);
    }
}

#[test]
fn size_examples() {
    assert_eq!(format_size(0), "0.0 B");
    assert_eq!(format_size(1023), "1023.0 B");
    assert_eq!(format_size(1024), "1.0 KB");
    assert_eq!(format_size(1536), "1.5 KB");
    assert_eq!(format_size(1048576), "1.0 MB");
    assert_eq!(format_size(5 * 1073741824), "5.0 GB");
    assert_eq!(format_size(1099511627776 * 2048), "2048.0 TB");
}

#[test]
fn size_matches_float_formatting() {
    let mut values: Vec<u64> = vec![
        0, 1, 1023, 1024, 1025, 1126, 1127, 1177, 1178, 10239, 10240, 10291, 10292,
        1048575, 1048576, 1073741823, 1099511627775, 1099511627776,
        9007199254740991, 9007199254740992, 9007199254740993, 9007199254740995,
        18014398509481983, 18014398509481985, u64::MAX, u64::MAX - 1, u64::MAX / 2,
    ];
    // Sizes exactly half-way between two tenths of a unit.
    for k in 0..2000u64 {
        values.push(k * 512 + 51);
        values.push(k * 1024 + 51);
        values.push(k * 1024 + 52);
        values.push(k * 1024 * 1024 + 1024 * 512 / 10);
        values.push(k * 102 + k);
    }
    let mut x: u64 = 0x9E37_79B9_7F4A_7C15;
    for _ in 0..20000 {
        x ^= x << 13;
        x ^= x >> 7;
        x ^= x << 17;
        values.push(x >> (x % 64));
    }
    for v in values {
        assert_eq!(format_size(v), float_size(v), "format_size({})", v);
    }
}
