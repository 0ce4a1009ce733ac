//! One process record per live pid: the structured result of reading the
//! three per-process sources, plus the derived CPU share.
//!
//! Building is best-effort over a moving target: a process may exit
//! between enumeration and the reads, so a record is built only when all
//! three sources were readable, and an unreadable source skips the pid
//! rather than failing the snapshot.  Within a readable source, a missing
//! label or a malformed number degrades only that field.

use vstd::prelude::*;

use crate::text::{all_digits, dec_val, parse_u64};
use crate::stat::{spec_tick_at, stat_times};
use crate::status::{
    spec_status_field, spec_mem_field, spec_id_field,
    state_label, ppid_label, vm_rss_label, vm_peak_label, vm_size_label, uid_label, gid_label,
    rss_sentinel, vm_peak_sentinel,
    state_of, ppid_of, rss_of, vmpeak_of, vsize_of, ruid_of, rgid_of,
};
use crate::cmdline::{spec_command, command_of};
use crate::usage::{spec_cpu_centipercent, cpu_centipercent};

verus! {

/// View of an optional byte string field.
pub open spec fn opt_bytes_view(v: Option<Vec<u8>>) -> Option<Seq<u8>> {
    match v {
        Option::Some(x) => Option::Some(x@),
        Option::None => Option::None,
    }
}

/// A snapshot record for one process.  Optional fields stay absent when
/// their source line is missing or unusable; rendering of placeholders
/// for absent fields belongs to the presentation layer, never in here.
pub struct ProcessStat {
    /// Process identifier.
    pub pid: Option<i32>,
    /// Resident set size text from `VmRSS:`.
    pub rss: Option<Vec<u8>>,
    /// Printable command line.
    pub cmd: Option<Vec<u8>>,
    /// Process state text from `State:`.
    pub state: Option<Vec<u8>>,
    /// Parent pid text from `PPid:`.
    pub ppid: Option<Vec<u8>>,
    /// Ticks spent in kernel mode by waited-for children (stat position 16).
    pub cstime: Option<u64>,
    /// Ticks spent in user mode by waited-for children (stat position 15).
    pub cutime: Option<u64>,
    /// Virtual memory size text from `VmSize:`.
    pub vsize: Option<Vec<u8>>,
    /// CPU share in hundredths of a percentage point.
    pub cpu_centi: Option<u64>,
    /// Ticks spent in user mode (stat position 13).
    pub utime: Option<u64>,
    /// Ticks spent in kernel mode (stat position 14).
    pub stime: Option<u64>,
    /// Peak virtual memory size text from `VmPeak:`.
    pub vmpeak: Option<Vec<u8>>,
    /// Real user id: first token of `Uid:`.
    pub ruid: Option<Vec<u8>>,
    /// Real group id: first token of `Gid:`.
    pub rgid: Option<Vec<u8>>,
}

/// Every field of the record is absent.
pub open spec fn all_absent(r: ProcessStat) -> bool {
    &&& r.pid is None
    &&& r.rss is None
    &&& r.cmd is None
    &&& r.state is None
    &&& r.ppid is None
    &&& r.cstime is None
    &&& r.cutime is None
    &&& r.vsize is None
    &&& r.cpu_centi is None
    &&& r.utime is None
    &&& r.stime is None
    &&& r.vmpeak is None
    &&& r.ruid is None
    &&& r.rgid is None
}

impl ProcessStat {
    /// A record with every field absent.
    pub fn new() -> (r: ProcessStat)
        ensures
            all_absent(r),
    {
        ProcessStat {
            pid: None,
            rss: None,
            cmd: None,
            state: None,
            ppid: None,
            cstime: None,
            cutime: None,
            vsize: None,
            cpu_centi: None,
            utime: None,
            stime: None,
            vmpeak: None,
            ruid: None,
            rgid: None,
        }
    }

    /// Build the record for `pid` from the contents of its three sources,
    /// or skip the pid when any of them could not be read.
    ///
    /// `divisor` is the whole-run clock divisor; probing it is a
    /// precondition of the whole snapshot, so it is always at hand and
    /// positive here.
    pub fn from_sources(
        pid: i32,
        divisor: u64,
        stat: Option<&Vec<u8>>,
        status: Option<&Vec<u8>>,
        cmdline: Option<&Vec<u8>>,
    ) -> (r: Option<ProcessStat>)
        requires
            divisor > 0,
        ensures
            r is Some <==> (stat is Some && status is Some && cmdline is Some),
            r matches Some(rec) ==> rec.pid == Some(pid),
            r matches Some(rec) ==> stat matches Some(st) ==> {
                &&& rec.utime == Some(spec_tick_at(st@, 13) as u64)
                &&& rec.stime == Some(spec_tick_at(st@, 14) as u64)
                &&& rec.cutime == Some(spec_tick_at(st@, 15) as u64)
                &&& rec.cstime == Some(spec_tick_at(st@, 16) as u64)
                &&& rec.cpu_centi == Some(
                    spec_cpu_centipercent(spec_tick_at(st@, 14) as u64, divisor) as u64,
                )
            },
            r matches Some(rec) ==> status matches Some(su) ==> {
                &&& opt_bytes_view(rec.state) == spec_status_field(su@, state_label())
                &&& opt_bytes_view(rec.ppid) == spec_status_field(su@, ppid_label())
                &&& opt_bytes_view(rec.rss) == spec_mem_field(su@, vm_rss_label(), rss_sentinel())
                &&& opt_bytes_view(rec.vmpeak) == spec_mem_field(su@, vm_peak_label(),
                    vm_peak_sentinel())
                &&& opt_bytes_view(rec.vsize) == spec_status_field(su@, vm_size_label())
                &&& opt_bytes_view(rec.ruid) == spec_id_field(su@, uid_label())
                &&& opt_bytes_view(rec.rgid) == spec_id_field(su@, gid_label())
            },
            r matches Some(rec) ==> cmdline matches Some(cm) ==> opt_bytes_view(rec.cmd)
                == spec_command(cm@),
    {
        let st = match stat {
            Some(st) => st,
            None => {
                return None;
            },
        };
        let su = match status {
            Some(su) => su,
            None => {
                return None;
            },
        };
        let cm = match cmdline {
            Some(cm) => cm,
            None => {
                return None;
            },
        };
        let (utime, stime, cutime, cstime) = stat_times(st.as_slice());
        let cpu_centi = cpu_centipercent(stime, divisor);
        Some(ProcessStat {
            pid: Some(pid),
            rss: rss_of(su.as_slice()),
            cmd: command_of(cm.as_slice()),
            state: state_of(su.as_slice()),
            ppid: ppid_of(su.as_slice()),
            cstime: Some(cstime),
            cutime: Some(cutime),
            vsize: vsize_of(su.as_slice()),
            cpu_centi: Some(cpu_centi),
            utime: Some(utime),
            stime: Some(stime),
            vmpeak: vmpeak_of(su.as_slice()),
            ruid: ruid_of(su.as_slice()),
            rgid: rgid_of(su.as_slice()),
        })
    }
}

impl Default for ProcessStat {
    /// Same as [`ProcessStat::new`]: a record with every field absent.
    fn default() -> (r: ProcessStat)
        ensures
            all_absent(r),
    {
        ProcessStat::new()
    }
}

/// The pid named by a directory entry of the process-information root:
/// present exactly when the whole name is a decimal numeral with a
/// positive value in `i32` range.  Non-numeric entries (kernel
/// pseudo-files) are skipped silently.
pub open spec fn spec_parse_pid(name: Seq<u8>) -> Option<int> {
    if name.len() > 0 && all_digits(name) && 0 < dec_val(name) <= i32::MAX {
        Some(dec_val(name))
    } else {
        None
    }
}

/// Parse a candidate directory entry name, per [`spec_parse_pid`].
pub fn parse_pid(name: &[u8]) -> (r: Option<i32>)
    ensures
        r is Some <==> spec_parse_pid(name@) is Some,
        r matches Some(p) ==> Some(p as int) == spec_parse_pid(name@),
{
    match parse_u64(name) {
        Some(v) => {
            if v == 0 || v > 2147483647 {
                None
            } else {
                Some(v as i32)
            }
        },
        None => None,
    }
}

} // verus!
