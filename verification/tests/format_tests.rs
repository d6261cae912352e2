use rustdu::format::format_size;
use rustdu::percent::percent_text_exec;

fn reference_size(size: u64) -> String {
    const KB: u64 = 1024;
    const MB: u64 = KB * 1024;
    const GB: u64 = MB * 1024;
    if size >= GB {
        format!("{:.1}G", size as f64 / GB as f64)
    } else if size >= MB {
        format!("{:.1}M", size as f64 / MB as f64)
    } else if size >= KB {
        format!("{:.1}K", size as f64 / KB as f64)
    } else {
        format!("{}B", size)
    }
}

fn reference_percent(size: u64, total: u64) -> String {
    let percent = if total > 0 { (size as f64 / total as f64) * 100.0 } else { 0.0 };
    format!("{:>5.1}", percent)
}

struct Lcg(u64);

impl Lcg {
    fn next(&mut self) -> u64 {
        self.0 = self.0.wrapping_mul(6364136223846793005).wrapping_add(1442695040888963407);
        let x = self.0;
        x ^ (x >> 29)
    }
}

#[test]
fn format_size_bytes() {
    assert_eq!(format_size(0), "0B");
    assert_eq!(format_size(1), "1B");
    assert_eq!(format_size(512), "512B");
    assert_eq!(format_size(1023), "1023B");
}

#[test]
fn format_size_units() {
    assert_eq!(format_size(1024), "1.0K");
    assert_eq!(format_size(1536), "1.5K");
    assert_eq!(format_size(1048576), "1.0M");
    assert_eq!(format_size(5 * 1048576 + 524288), "5.5M");
    assert_eq!(format_size(1073741824), "1.0G");
    assert_eq!(format_size(3 * 1073741824), "3.0G");
}

#[test]
fn format_size_rounds_half_to_even() {
    // 1.25K and 1.75K are exact halves of a tenth.
    assert_eq!(format_size(1280), reference_size(1280));
    assert_eq!(format_size(1792), reference_size(1792));
    assert_eq!(format_size(1280), "1.2K");
    assert_eq!(format_size(1792), "1.8K");
}

#[test]
fn format_size_matches_float_formatting_at_edges() {
    let mut edges: Vec<u64> = vec![
        1023, 1024, 1025, 1048575, 1048576, 1048577, 1073741823, 1073741824, 1073741825,
        u64::MAX, u64::MAX - 1, 1 << 53, (1 << 53) + 1, (1 << 53) - 1, (1 << 54) + 2,
        (1 << 54) + 6, (1 << 63) + 1023, (1 << 63) + 1024, (1 << 63) + 3072,
    ];
    for k in 0..64u32 {
        let p = 1u64 << k;
        edges.push(p);
        edges.push(p.wrapping_sub(1));
        edges.push(p.wrapping_add(1));
        edges.push(p.wrapping_mul(3) / 2);
    }
    for s in edges {
        assert_eq!(format_size(s), reference_size(s), "size {}", s);
    }
}

#[test]
fn format_size_matches_float_formatting_on_many_values() {
    let mut rng = Lcg(7);
    for i in 0..200000u64 {
        let r = rng.next();
        let s = match i % 4 {
            0 => r,
            1 => r >> (r % 64),
            2 => r % (1 << 40),
            _ => (r % 100000) * 1024 + (r % 3) * 512,
        };
        assert_eq!(format_size(s), reference_size(s), "size {}", s);
    }
}

#[test]
fn percent_text_examples() {
    assert_eq!(percent_text_exec(0, 0), "  0.0");
    assert_eq!(percent_text_exec(5, 0), "  0.0");
    assert_eq!(percent_text_exec(0, 10), "  0.0");
    assert_eq!(percent_text_exec(10, 10), "100.0");
    assert_eq!(percent_text_exec(1, 2), " 50.0");
    assert_eq!(percent_text_exec(1, 3), " 33.3");
    assert_eq!(percent_text_exec(2, 3), " 66.7");
    assert_eq!(percent_text_exec(30, 10), "300.0");
}

#[test]
fn percent_text_matches_float_formatting_at_edges() {
    let vals: Vec<u64> = vec![
        0, 1, 2, 3, 7, 10, 999, 1000, 1001, 1 << 52, 1 << 53, (1 << 53) + 1, u64::MAX,
        u64::MAX - 1, 1 << 63, 12345678901234567, 98765432109876543,
    ];
    for &s in &vals {
        for &t in &vals {
            assert_eq!(percent_text_exec(s, t), reference_percent(s, t), "{} of {}", s, t);
        }
    }
    for t in 1..2000u64 {
        for s in [0, 1, t / 3, t / 2, t - 1, t, t + 1, 2 * t, t * 1000] {
            assert_eq!(percent_text_exec(s, t), reference_percent(s, t), "{} of {}", s, t);
        }
    }
}

#[test]
fn percent_text_matches_float_formatting_on_many_values() {
    let mut rng = Lcg(11);
    for i in 0..200000u64 {
        let a = rng.next();
        let b = rng.next();
        let (s, t) = match i % 4 {
            0 => (a, b),
            1 => (a % (b | 1), b),
            2 => (a >> (a % 64), b >> (b % 64)),
            _ => (a % 100000, (a % 100000) + b % 1000000),
        };
        assert_eq!(percent_text_exec(s, t), reference_percent(s, t), "{} of {}", s, t);
    }
}
