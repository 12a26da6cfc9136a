use tg_s3_bot::amount::{hours_text, human_bytes};

fn reference_bytes(n: i64) -> String {
    let units = ["B", "KiB", "MiB", "GiB", "TiB"];
    let mut v = n as f64;
    let mut u = 0;
    while v >= 1024.0 && u < 4 {
        v /= 1024.0;
        u += 1;
    }
    if u == 0 {
        format!("{} B", n)
    } else {
        format!("{:.2} {}", v, units[u])
    }
}

fn reference_hours(s: u64) -> String {
    format!("{:.1}", s as f64 / 3600.0)
}

/// A fixed sequence of well mixed numbers.
fn mixed(seed: u64, count: usize) -> Vec<u64> {
    let mut x = seed;
    let mut out = Vec::new();
    for _ in 0..count {
        x ^= x << 13;
        x ^= x >> 7;
        x ^= x << 17;
        out.push(x);
    }
    out
}

#[test]
fn exact_byte_counts() {
    assert_eq!(human_bytes(0), "0 B");
    assert_eq!(human_bytes(1023), "1023 B");
    assert_eq!(human_bytes(1024), "1.00 KiB");
    assert_eq!(human_bytes(1536), "1.50 KiB");
    assert_eq!(human_bytes(-5), "-5 B");
    assert_eq!(human_bytes(18 * 1024 * 1024), "18.00 MiB");
    assert_eq!(human_bytes(1 << 50), "1024.00 TiB");
    assert_eq!(human_bytes(i64::MAX), "8388608.00 TiB");
    assert_eq!(human_bytes(i64::MIN), "-9223372036854775808 B");
}

#[test]
fn byte_ties_go_to_the_even_digit() {
    assert_eq!(human_bytes(1152), "1.12 KiB");
    assert_eq!(human_bytes(1408), "1.38 KiB");
}

#[test]
fn byte_counts_match_double_precision() {
    for n in -2000i64..200_000 {
        assert_eq!(human_bytes(n), reference_bytes(n));
    }
    for k in 0..63 {
        for d in -70i64..70 {
            let n = (1i64 << k).wrapping_add(d);
            assert_eq!(human_bytes(n), reference_bytes(n), "{}", n);
        }
    }
    for x in mixed(0x9e3779b97f4a7c15, 200_000) {
        for n in [x as i64, (x >> 5) as i64, (x >> 10) as i64, (x >> 20) as i64, (x >> 33) as i64] {
            assert_eq!(human_bytes(n), reference_bytes(n), "{}", n);
        }
    }
}

#[test]
fn exact_hours() {
    assert_eq!(hours_text(21600), "6.0");
    assert_eq!(hours_text(1), "0.0");
    assert_eq!(hours_text(180), "0.1");
    assert_eq!(hours_text(900), "0.2");
    assert_eq!(hours_text(2700), "0.8");
}

#[test]
fn hours_match_double_precision() {
    for s in 1u64..100_000 {
        assert_eq!(hours_text(s), reference_hours(s), "{}", s);
    }
    for k in 0..64 {
        for d in 0u64..50 {
            for s in [(1u64 << k).wrapping_add(d), (1u64 << k).wrapping_sub(d)] {
                assert_eq!(hours_text(s), reference_hours(s), "{}", s);
            }
        }
    }
    assert_eq!(hours_text(u64::MAX), reference_hours(u64::MAX));
    for x in mixed(0x1234567, 100_000) {
        for s in [x, x >> 7, x >> 15, x >> 30, x >> 44] {
            assert_eq!(hours_text(s), reference_hours(s), "{}", s);
        }
    }
}
