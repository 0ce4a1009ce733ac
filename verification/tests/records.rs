//! Building whole process records, including the skip policy for
//! processes that vanish mid-scan.

use rustps::record::ProcessStat;

fn stat_line() -> Vec<u8> {
    b"7 (cmd) S 4 5 6 7 8 9 10 11 12 13 100 250 300 400 500".to_vec()
}

fn status_block() -> Vec<u8> {
    b"Name:\tbash\nState:\tS (sleeping)\nPPid:\t41\nUid:\t1000\t1001\t1002\t1003\n\
Gid:\t100\t101\t102\t103\nVmPeak:\t9000 kB\nVmSize:\t8000 kB\nVmRSS:\t700 kB\n"
        .to_vec()
}

fn cmdline_blob() -> Vec<u8> {
    b"bash\0-l\0".to_vec()
}

#[test]
fn record_from_readable_sources() {
    let stat = stat_line();
    let status = status_block();
    let cmdline = cmdline_blob();
    let rec = ProcessStat::from_sources(7, 1000, Some(&stat), Some(&status), Some(&cmdline))
        .expect("all three sources were readable");
    assert_eq!(rec.pid, Some(7));
    assert_eq!(rec.utime, Some(100));
    assert_eq!(rec.stime, Some(250));
    assert_eq!(rec.cutime, Some(300));
    assert_eq!(rec.cstime, Some(400));
    // 100 * 250 / 1000 = 25.00 percent, in hundredths.
    assert_eq!(rec.cpu_centi, Some(2500));
    assert_eq!(rec.state, Some(b"S (sleeping)".to_vec()));
    assert_eq!(rec.ppid, Some(b"41".to_vec()));
    assert_eq!(rec.ruid, Some(b"1000".to_vec()));
    assert_eq!(rec.rgid, Some(b"100".to_vec()));
    assert_eq!(rec.rss, Some(b"700 kB".to_vec()));
    assert_eq!(rec.vmpeak, Some(b"9000 kB".to_vec()));
    assert_eq!(rec.vsize, Some(b"8000 kB".to_vec()));
    assert_eq!(rec.cmd, Some(b"bash -l".to_vec()));
}

#[test]
fn vanished_status_drops_the_whole_pid() {
    // The builder is strict: one unreadable source skips the pid entirely,
    // even though stat and cmdline were readable.
    let stat = stat_line();
    let cmdline = cmdline_blob();
    assert!(ProcessStat::from_sources(7, 1000, Some(&stat), None, Some(&cmdline)).is_none());
}

#[test]
fn any_vanished_source_drops_the_pid() {
    let stat = stat_line();
    let status = status_block();
    let cmdline = cmdline_blob();
    assert!(ProcessStat::from_sources(7, 1000, None, Some(&status), Some(&cmdline)).is_none());
    assert!(ProcessStat::from_sources(7, 1000, Some(&stat), Some(&status), None).is_none());
    assert!(ProcessStat::from_sources(7, 1000, None, None, None).is_none());
}

#[test]
fn partial_status_degrades_fields_not_the_record() {
    let stat = stat_line();
    let status = b"State:\tZ (zombie)\n".to_vec();
    let cmdline = cmdline_blob();
    let rec = ProcessStat::from_sources(9, 1000, Some(&stat), Some(&status), Some(&cmdline))
        .expect("sources readable");
    assert_eq!(rec.pid, Some(9));
    assert_eq!(rec.state, Some(b"Z (zombie)".to_vec()));
    assert_eq!(rec.ppid, None);
    assert_eq!(rec.rss, None);
    assert_eq!(rec.vmpeak, None);
    assert_eq!(rec.vsize, None);
    assert_eq!(rec.ruid, None);
    assert_eq!(rec.rgid, None);
}

#[test]
fn new_and_default_records_are_empty() {
    let a = ProcessStat::new();
    let b = ProcessStat::default();
    for rec in [&a, &b] {
        assert_eq!(rec.pid, None);
        assert_eq!(rec.rss, None);
        assert_eq!(rec.cmd, None);
        assert_eq!(rec.state, None);
        assert_eq!(rec.ppid, None);
        assert_eq!(rec.cstime, None);
        assert_eq!(rec.cutime, None);
        assert_eq!(rec.vsize, None);
        assert_eq!(rec.cpu_centi, None);
        assert_eq!(rec.utime, None);
        assert_eq!(rec.stime, None);
        assert_eq!(rec.vmpeak, None);
        assert_eq!(rec.ruid, None);
        assert_eq!(rec.rgid, None);
    }
}
