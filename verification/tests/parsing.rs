//! Parsing of the three per-process sources: the positional stat line,
//! the labeled status block, and the null-separated cmdline blob.

use rustps::stat::stat_times;
use rustps::status::{ppid_of, rgid_of, rss_of, ruid_of, state_of, vmpeak_of, vsize_of};
use rustps::cmdline::command_of;
use rustps::text::{parse_u64, trim_bytes};
use rustps::record::parse_pid;

#[test]
fn stat_positions_13_to_16() {
    // Tokens by zero-based position: 13 -> 100, 14 -> 200, 15 -> 300, 16 -> 400.
    let line = b"7 (cmd) S 4 5 6 7 8 9 10 11 12 13 100 200 300 400 500";
    let (utime, stime, cutime, cstime) = stat_times(line);
    assert_eq!(utime, 100);
    assert_eq!(stime, 200);
    assert_eq!(cutime, 300);
    assert_eq!(cstime, 400);
}

#[test]
fn stat_extra_whitespace_is_ignored() {
    let line = b"  7   (cmd)  S 4 5 6 7 8 9 10 11 12 13\t100  200\t\t300 400   500  ";
    let (utime, stime, cutime, cstime) = stat_times(line);
    assert_eq!((utime, stime, cutime, cstime), (100, 200, 300, 400));
}

#[test]
fn stat_short_line_defaults_to_zero() {
    let (utime, stime, cutime, cstime) = stat_times(b"1 2 3");
    assert_eq!((utime, stime, cutime, cstime), (0, 0, 0, 0));
}

#[test]
fn stat_non_numeric_token_defaults_to_zero() {
    let line = b"7 (cmd) S 4 5 6 7 8 9 10 11 12 13 abc 200 300 400";
    let (utime, stime, cutime, cstime) = stat_times(line);
    assert_eq!((utime, stime, cutime, cstime), (0, 200, 300, 400));
}

#[test]
fn status_fields_found_by_label() {
    let block = b"Name:\tbash\nState:\tS (sleeping)\nPPid:\t41\nUid:\t1000\t1001\t1002\t1003\n\
Gid:\t100\t101\t102\t103\nVmPeak:\t  9000 kB\nVmSize:\t8000 kB\nVmRSS:\t 700 kB\n";
    assert_eq!(state_of(block), Some(b"S (sleeping)".to_vec()));
    assert_eq!(ppid_of(block), Some(b"41".to_vec()));
    assert_eq!(ruid_of(block), Some(b"1000".to_vec()));
    assert_eq!(rgid_of(block), Some(b"100".to_vec()));
    assert_eq!(vmpeak_of(block), Some(b"9000 kB".to_vec()));
    assert_eq!(vsize_of(block), Some(b"8000 kB".to_vec()));
    assert_eq!(rss_of(block), Some(b"700 kB".to_vec()));
}

#[test]
fn status_lookup_is_order_independent() {
    // The same lines in two very different orders parse identically.
    let a = b"State:\tR (running)\nPPid:\t1\nUid:\t0\t0\t0\t0\nGid:\t0\t0\t0\t0\n\
VmRSS:\t512 kB\nVmPeak:\t2048 kB\nVmSize:\t1024 kB\n";
    let b = b"VmSize:\t1024 kB\nGid:\t0\t0\t0\t0\nVmPeak:\t2048 kB\nState:\tR (running)\n\
Uid:\t0\t0\t0\t0\nVmRSS:\t512 kB\nPPid:\t1\n";
    assert_eq!(state_of(a), state_of(b));
    assert_eq!(ppid_of(a), ppid_of(b));
    assert_eq!(ruid_of(a), ruid_of(b));
    assert_eq!(rgid_of(a), rgid_of(b));
    assert_eq!(rss_of(a), rss_of(b));
    assert_eq!(vmpeak_of(a), vmpeak_of(b));
    assert_eq!(vsize_of(a), vsize_of(b));
    assert_eq!(state_of(a), Some(b"R (running)".to_vec()));
}

#[test]
fn status_missing_label_gives_absent_field() {
    let block = b"Name:\tbash\nState:\tS (sleeping)\n";
    assert_eq!(ppid_of(block), None);
    assert_eq!(rss_of(block), None);
    assert_eq!(ruid_of(block), None);
}

#[test]
fn first_labeled_line_wins() {
    let block = b"State:\tS (sleeping)\nState:\tR (running)\n";
    assert_eq!(state_of(block), Some(b"S (sleeping)".to_vec()));
}

#[test]
fn label_matches_only_at_line_start() {
    // TracerPid: must not be mistaken for PPid:, nor SigIgn: for anything.
    let block = b"TracerPid:\t0\nSigIgn:\t0000000000000000\nPPid:\t41\n";
    assert_eq!(ppid_of(block), Some(b"41".to_vec()));
    let without = b"TracerPid:\t9\n";
    assert_eq!(ppid_of(without), None);
}

#[test]
fn vmrss_sentinel_yields_absent_rss() {
    let block = b"VmRSS:\tsigign\n";
    assert_eq!(rss_of(block), None);
}

#[test]
fn vmpeak_sentinel_yields_absent_vmpeak() {
    let block = b"VmPeak:\tfffffffff\nVmRSS:\t12 kB\n";
    assert_eq!(vmpeak_of(block), None);
    assert_eq!(rss_of(block), Some(b"12 kB".to_vec()));
}

#[test]
fn cmdline_nulls_become_spaces_and_trailing_null_drops() {
    assert_eq!(command_of(b"ls\0-la\0"), Some(b"ls -la".to_vec()));
}

#[test]
fn cmdline_inner_nulls_map_one_for_one() {
    assert_eq!(command_of(b"a\0\0b\0"), Some(b"a  b".to_vec()));
    assert_eq!(command_of(b"solo"), Some(b"solo".to_vec()));
}

#[test]
fn cmdline_empty_read_is_absent() {
    assert_eq!(command_of(b""), None);
}

#[test]
fn cmdline_only_nulls_is_empty_command() {
    assert_eq!(command_of(b"\0\0"), Some(b"".to_vec()));
}

#[test]
fn pid_names_parse_fully_and_positively() {
    assert_eq!(parse_pid(b"1"), Some(1));
    assert_eq!(parse_pid(b"4194304"), Some(4194304));
    assert_eq!(parse_pid(b"2147483647"), Some(2147483647));
    assert_eq!(parse_pid(b"0"), None);
    assert_eq!(parse_pid(b"2147483648"), None);
    assert_eq!(parse_pid(b"99999999999999999999999"), None);
    assert_eq!(parse_pid(b"cpuinfo"), None);
    assert_eq!(parse_pid(b"12x"), None);
    assert_eq!(parse_pid(b""), None);
}

#[test]
fn u64_parse_limits() {
    assert_eq!(parse_u64(b"18446744073709551615"), Some(u64::MAX));
    assert_eq!(parse_u64(b"18446744073709551616"), None);
    assert_eq!(parse_u64(b"007"), Some(7));
    assert_eq!(parse_u64(b""), None);
}

#[test]
fn trim_removes_surrounding_whitespace_only() {
    assert_eq!(trim_bytes(b"  1234 kB\t"), b"1234 kB".to_vec());
    assert_eq!(trim_bytes(b" \t \n"), Vec::<u8>::new());
}
