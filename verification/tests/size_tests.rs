use px::size::human_size;

fn reference(bytes: u64) -> String {
    const GB: u64 = 1024 * 1024 * 1024;
    const MB: u64 = 1024 * 1024;
    const KB: u64 = 1024;
    if bytes >= GB {
        format!("{:.1} GB", bytes as f64 / GB as f64)
    } else if bytes >= MB {
        format!("{:.1} MB", bytes as f64 / MB as f64)
    } else if bytes >= KB {
        format!("{:.1} KB", bytes as f64 / KB as f64)
    } else {
        format!("{} B", bytes)
    }
}

#[test]
fn human_size_small_values() {
    assert_eq!(human_size(0), "0 B");
    assert_eq!(human_size(1023), "1023 B");
    assert_eq!(human_size(1024), "1.0 KB");
    assert_eq!(human_size(1536), "1.5 KB");
    assert_eq!(human_size(1024 * 1024), "1.0 MB");
    assert_eq!(human_size(5 * 1024 * 1024 * 1024), "5.0 GB");
}

#[test]
fn human_size_matches_float_formatting() {
    let mut probes: Vec<u64> = Vec::new();
    for b in 0..5000u64 {
        probes.push(b);
    }
    // ties at one decimal: x.x5 of a unit
    for k in 0..200u64 {
        probes.push(1024 * k + 512 / 10 * 10);
        probes.push(1024 * 1024 * k + 1024 * 1024 / 20);
        probes.push(1024 * 1024 * 1024 * k + 1024 * 1024 * 1024 / 20);
        probes.push(1024 * 1024 * 1024 * k + 3 * 1024 * 1024 * 1024 / 20);
        probes.push(1280 * k);
        probes.push(1024 * k + 1280 / 5);
    }
    let mut x: u64 = 0x9E37_79B9_7F4A_7C15;
    for _ in 0..20000 {
        x ^= x << 13;
        x ^= x >> 7;
        x ^= x << 17;
        probes.push(x);
        probes.push(x >> (x % 64));
    }
    probes.push(u64::MAX);
    probes.push(u64::MAX - 1);
    probes.push(1u64 << 53);
    probes.push((1u64 << 53) + 1);
    probes.push((1u64 << 54) + 2);
    probes.push((1u64 << 54) + 6);
    for b in probes {
        assert_eq!(human_size(b), reference(b), "bytes = {}", b);
    }
}
