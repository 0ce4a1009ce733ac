//! Derived metrics: the clock divisor, the CPU share, and human-readable
//! byte sizes.

use rustps::clock::clock_divisor;
use rustps::usage::{centipercent_digits, cpu_centipercent, human_readable_size};

#[test]
fn cpu_share_of_stime_over_divisor() {
    // divisor 1000 and stime 250 give 25.0 percent, carried as 2500 hundredths.
    let centi = cpu_centipercent(250, 1000);
    assert_eq!(centi, 2500);
    assert_eq!(centi as f64 / 100.0, 25.0);
    assert_eq!(centipercent_digits(centi), b"25.00".to_vec());
}

#[test]
fn cpu_share_truncates() {
    assert_eq!(cpu_centipercent(1, 3), 3333);
    assert_eq!(centipercent_digits(3333), b"33.33".to_vec());
    assert_eq!(cpu_centipercent(0, 1000), 0);
    assert_eq!(centipercent_digits(0), b"0.00".to_vec());
}

#[test]
fn human_readable_thresholds() {
    assert_eq!(human_readable_size(500), b"500 B".to_vec());
    assert_eq!(human_readable_size(2048), b"2.00 KB".to_vec());
    assert_eq!(human_readable_size(5 * 1024 * 1024), b"5.00 MB".to_vec());
}

#[test]
fn human_readable_boundaries() {
    assert_eq!(human_readable_size(0), b"0 B".to_vec());
    assert_eq!(human_readable_size(1023), b"1023 B".to_vec());
    assert_eq!(human_readable_size(1024), b"1.00 KB".to_vec());
    assert_eq!(human_readable_size(1536), b"1.50 KB".to_vec());
    assert_eq!(human_readable_size(1048575), b"1023.99 KB".to_vec());
    assert_eq!(human_readable_size(1048576), b"1.00 MB".to_vec());
    assert_eq!(human_readable_size(3 * 1024 * 1024 * 1024), b"3.00 GB".to_vec());
    assert_eq!(human_readable_size(1024 * 1024 * 1024 - 1), b"1023.99 MB".to_vec());
    assert_eq!(human_readable_size(1024 * 1024 * 1024), b"1.00 GB".to_vec());
}

#[test]
fn clock_divisor_takes_text_after_the_last_colon() {
    let cpuinfo = b"note\t: cpu MHz: raw: 1200.5\n";
    assert_eq!(clock_divisor(cpuinfo), Some(12_005_000));
}

#[test]
fn clock_divisor_from_frequency_listing() {
    let cpuinfo = b"processor\t: 0\nvendor_id\t: Xyz\nmodel name\t: Xyz 9 Core\n\
cpu MHz\t\t: 2400.000\ncache size\t: 512 KB\ncpu MHz\t\t: 1800.000\n";
    // 2400 MHz in Hz, scaled down by two orders of magnitude; first line wins.
    assert_eq!(clock_divisor(cpuinfo), Some(24_000_000));
}

#[test]
fn clock_divisor_fraction_handling() {
    assert_eq!(clock_divisor(b"cpu MHz : 1.5\n"), Some(15_000));
    assert_eq!(clock_divisor(b"cpu MHz : .5\n"), Some(5_000));
    assert_eq!(clock_divisor(b"cpu MHz : 1.23456\n"), Some(12_345));
    assert_eq!(clock_divisor(b"cpu MHz : 800\n"), Some(8_000_000));
}

#[test]
fn clock_divisor_failures_are_fatal_signals() {
    // No cpu MHz line at all.
    assert_eq!(clock_divisor(b"processor\t: 0\nbogomips\t: 4800.00\n"), None);
    // A line that does not parse as a numeral.
    assert_eq!(clock_divisor(b"cpu MHz\t\t: unknown\n"), None);
    // A zero frequency cannot divide anything.
    assert_eq!(clock_divisor(b"cpu MHz\t\t: 0.000\n"), None);
    // Empty input.
    assert_eq!(clock_divisor(b""), None);
}
