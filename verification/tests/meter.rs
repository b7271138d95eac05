use echochamber::meter::{format_bytes, ByteCounter, Window};

#[test]
fn add_and_set() {
    let mut c = ByteCounter::new();
    c.add(100, 0);
    c.add(50, 0);
    assert_eq!(c.total(), 150);
    c.set(1000, 0);
    assert_eq!(c.total(), 1000);
    c.reset();
    assert_eq!(c.total(), 0);
}

#[test]
fn window_measures_from_the_sample_a_second_back() {
    let mut c = ByteCounter::new();
    c.tick(0);
    for k in 1..=5u64 {
        c.add(1_000, k * 50);
        c.tick(k * 50);
    }
    let w = c.snapshot(250);
    assert_eq!(w.bytes, 5_000);
    assert_eq!(w.delta_bytes, 5_000);
    assert_eq!(w.window_ms, 250);
    assert_eq!(w.active_ms, Some(200));
    let later = c.snapshot(1_200);
    assert_eq!(later.delta_bytes, 1_000);
    assert_eq!(later.window_ms, 1_000);
}

#[test]
fn empty_counter_has_an_empty_window() {
    let c = ByteCounter::new();
    assert_eq!(
        c.snapshot(10),
        Window { bytes: 0, delta_bytes: 0, window_ms: 0, active_ms: None }
    );
}

#[test]
fn old_samples_are_pruned_but_the_newest_stays() {
    let mut c = ByteCounter::new();
    c.tick(0);
    c.tick(1_000);
    c.add(7, 1_500);
    c.tick(3_000);
    // the sample at 0 is more than 2.5 s old and went; the one at 1 s stays
    let w = c.snapshot(5_000);
    assert_eq!(w.window_ms, 4_000);
    assert_eq!(w.delta_bytes, 7);
    c.tick(10_000);
    let w = c.snapshot(10_000);
    assert_eq!(w.window_ms, 0);
    assert_eq!(w.delta_bytes, 0);
}

#[test]
fn adding_nothing_does_not_start_the_clock() {
    let mut c = ByteCounter::new();
    c.add(0, 5);
    assert_eq!(c.snapshot(100).active_ms, None);
    c.add(u64::MAX, 7);
    c.add(2, 8);
    assert_eq!(c.total(), 1);
    assert_eq!(c.snapshot(100).active_ms, Some(93));
}

fn float_reference(n: u64) -> String {
    const MIB: f64 = 1024.0 * 1024.0;
    const KIB: f64 = 1024.0;
    let x = n as f64;
    if x >= MIB {
        format!("{:.2} MiB", x / MIB)
    } else if x >= KIB {
        format!("{:.1} KiB", x / KIB)
    } else {
        format!("{n} B")
    }
}

#[test]
fn byte_sizes_read_like_float_formatting() {
    assert!(format_bytes(3 * 1024 * 1024).contains("MiB"));
    assert_eq!(format_bytes(3 * 1024 * 1024), "3.00 MiB");
    assert_eq!(format_bytes(1536), "1.5 KiB");
    assert_eq!(format_bytes(1023), "1023 B");
    assert_eq!(format_bytes(0), "0 B");
    let mut values: Vec<u64> = (0..5000).collect();
    for shift in 0..64 {
        let p = 1u64 << shift;
        for d in [0u64, 1, 2, 3, 511, 512, 513, 1023, 1024, 1025] {
            values.push(p.wrapping_add(d));
            values.push(p.wrapping_sub(d));
        }
    }
    let mut seed: u64 = 0x2545_F491_4F6C_DD1D;
    for _ in 0..20000 {
        seed ^= seed << 13;
        seed ^= seed >> 7;
        seed ^= seed << 17;
        values.push(seed);
        values.push(seed >> (seed % 64));
    }
    // exact halves at both precisions
    let mut x = 1024u64;
    let mut ties = 0;
    while ties < 50 && x < 1 << 40 {
        if (x * 10) % 1024 == 512 || (x * 100) % (1 << 20) == 1 << 19 {
            values.push(x);
            ties += 1;
        }
        x += 1;
    }
    values.push(u64::MAX);
    values.push(u64::MAX - 1024);
    values.push((1u64 << 53) + 1);
    values.push((1u64 << 53) + 3);
    for n in values {
        assert_eq!(format_bytes(n), float_reference(n), "{n}");
    }
}

#[test]
fn bps_from_ticks() {
    let mut c = ByteCounter::new();
    c.tick(0);
    let mut now = 0;
    for _ in 0..5 {
        now += 50;
        c.add(1_000, now); // 1000 bytes / 50ms ≈ 160 kbps
        c.tick(now);
    }
    let w = c.snapshot(now);
    assert!(w.bytes >= 5_000);
    // The baseline is the first tick: 5 000 bytes over the last 250 ms, and
    // the first byte came 200 ms ago.
    assert_eq!(w.bytes, 5_000);
    assert_eq!(w.delta_bytes, 5_000);
    assert_eq!(w.window_ms, 250);
    assert_eq!(w.active_ms, Some(200));
    // 40 000 bits in 0.25 s is 160 kbps, inside the bounds the relay expects.
    assert!(w.window_ms >= 50);
    assert!(w.delta_bytes * 8 * 1000 > 20_000 * w.window_ms);
    assert!(w.delta_bytes * 8 * 1000 < 2_000_000 * w.window_ms);
}
