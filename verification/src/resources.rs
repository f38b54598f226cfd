//! Resource aggregation: summing CPU and memory usage over the OS processes
//! whose name contains a group's name as a substring.
//!
//! A process entry is a plain sample (name bytes, CPU in hundredths of a
//! percent, resident memory in bytes) taken by the caller from the live
//! process table; entries that could not be read are expected to be skipped
//! before they reach this module. An empty match set yields the zero report;
//! sums that would not fit saturate at the maximum representable value.

use vstd::prelude::*;

use crate::models::{ProcessReport, ProcessesReport};

verus! {

/// One observed OS process: its reported name and its usage at sampling time.
pub struct ProcSample {
    /// Process name, as raw bytes.
    pub name: Vec<u8>,
    /// CPU usage in hundredths of a percent.
    pub cpu: u64,
    /// Resident memory in bytes.
    pub mem: u64,
}

/// Whether `needle` occurs somewhere in `hay` as a contiguous run.
pub open spec fn contains_sub(hay: Seq<u8>, needle: Seq<u8>) -> bool {
    exists|i: int|
        0 <= i <= hay.len() - needle.len() && #[trigger] hay.subrange(i, i + needle.len() as int)
            == needle
}

/// Whether the bytes of `needle` stand in `hay` starting at index `at`.
fn match_at(hay: &[u8], needle: &[u8], at: usize) -> (r: bool)
    requires
        at + needle@.len() <= hay@.len(),
    ensures
        r == (hay@.subrange(at as int, at as int + needle@.len() as int) == needle@),
{
    let nlen = needle.len();
    let hlen = hay.len();
    let mut k: usize = 0;
    while k < nlen
        invariant
            nlen == needle@.len(),
            hlen == hay@.len(),
            at + nlen <= hlen,
            k <= nlen,
            forall|j: int| 0 <= j < k ==> hay@[at + j] == needle@[j],
        decreases nlen - k,
    {
        if hay[at + k] != needle[k] {
            proof {
                assert(hay@.subrange(at as int, at as int + needle@.len() as int)[k as int]
                    != needle@[k as int]);
            }
            return false;
        }
        k += 1;
    }
    proof {
        assert(hay@.subrange(at as int, at as int + needle@.len() as int) =~= needle@);
    }
    true
}

/// Substring search over raw bytes.
pub fn contains_subslice(hay: &[u8], needle: &[u8]) -> (r: bool)
    ensures
        r == contains_sub(hay@, needle@),
{
    if needle.len() == 0 {
        proof {
            assert(hay@.subrange(0, 0 + needle@.len() as int) =~= needle@);
        }
        return true;
    }
    if needle.len() > hay.len() {
        return false;
    }
    let bound = hay.len() - needle.len();
    let mut i: usize = 0;
    while i <= bound
        invariant
            needle@.len() <= hay@.len(),
            bound == hay@.len() - needle@.len(),
            i <= bound + 1,
            bound <= usize::MAX - 1,
            needle@.len() >= 1,
            forall|j: int|
                0 <= j < i ==> #[trigger] hay@.subrange(j, j + needle@.len() as int) != needle@,
        decreases bound + 1 - i,
    {
        if match_at(hay, needle, i) {
            return true;
        }
        i += 1;
    }
    false
}

/// Total CPU usage, in hundredths of a percent, of the processes whose name
/// contains `needle`.
pub open spec fn group_cpu(procs: Seq<ProcSample>, needle: Seq<u8>) -> int
    decreases procs.len(),
{
    if procs.len() == 0 {
        0
    } else {
        group_cpu(procs.drop_last(), needle) + if contains_sub(procs.last().name@, needle) {
            procs.last().cpu as int
        } else {
            0
        }
    }
}

/// Total resident memory, in bytes, of the processes whose name contains
/// `needle`.
pub open spec fn group_mem(procs: Seq<ProcSample>, needle: Seq<u8>) -> int
    decreases procs.len(),
{
    if procs.len() == 0 {
        0
    } else {
        group_mem(procs.drop_last(), needle) + if contains_sub(procs.last().name@, needle) {
            procs.last().mem as int
        } else {
            0
        }
    }
}

/// A sum held in a 64-bit counter: exact while it fits, the maximum after.
pub open spec fn cap_u64(x: int) -> int {
    if x <= u64::MAX {
        x
    } else {
        u64::MAX as int
    }
}

/// Aggregate usage of one process group: the sums of CPU and memory over
/// every sample whose name contains `needle`. No match yields the zero
/// report.
pub fn proc_stats(procs: &Vec<ProcSample>, needle: &[u8]) -> (r: ProcessReport)
    ensures
        r.cpu == cap_u64(group_cpu(procs@, needle@)),
        r.mem == cap_u64(group_mem(procs@, needle@)),
{
    let mut cpu: u64 = 0;
    let mut mem: u64 = 0;
    let mut i: usize = 0;
    while i < procs.len()
        invariant
            i <= procs@.len(),
            cpu == cap_u64(group_cpu(procs@.subrange(0, i as int), needle@)),
            mem == cap_u64(group_mem(procs@.subrange(0, i as int), needle@)),
            group_cpu(procs@.subrange(0, i as int), needle@) >= 0,
            group_mem(procs@.subrange(0, i as int), needle@) >= 0,
        decreases procs@.len() - i,
    {
        proof {
            assert(procs@.subrange(0, i + 1).drop_last() =~= procs@.subrange(0, i as int));
            assert(procs@.subrange(0, i + 1).last() == procs@[i as int]);
        }
        if contains_subslice(procs[i].name.as_slice(), needle) {
            let c = procs[i].cpu;
            let m = procs[i].mem;
            cpu = if cpu > u64::MAX - c {
                u64::MAX
            } else {
                cpu + c
            };
            mem = if mem > u64::MAX - m {
                u64::MAX
            } else {
                mem + m
            };
        }
        i += 1;
    }
    proof {
        assert(procs@.subrange(0, procs@.len() as int) =~= procs@);
    }
    ProcessReport { cpu, mem }
}

/// The name of the database process group.
pub open spec fn postgres_name() -> Seq<u8> {
    seq![112u8, 111u8, 115u8, 116u8, 103u8, 114u8, 101u8, 115u8]
}

/// The process-name substring of the first backend.
pub open spec fn node_name() -> Seq<u8> {
    seq![110u8, 111u8, 100u8, 101u8]
}

/// The process-name substring of the second backend.
pub open spec fn actix_name() -> Seq<u8> {
    seq![97u8, 99u8, 116u8, 105u8, 120u8]
}

fn postgres_needle() -> (v: Vec<u8>)
    ensures
        v@ == postgres_name(),
{
    let mut v: Vec<u8> = Vec::new();
    v.push(112);
    v.push(111);
    v.push(115);
    v.push(116);
    v.push(103);
    v.push(114);
    v.push(101);
    v.push(115);
    proof {
        assert(v@ =~= postgres_name());
    }
    v
}

fn node_needle() -> (v: Vec<u8>)
    ensures
        v@ == node_name(),
{
    let mut v: Vec<u8> = Vec::new();
    v.push(110);
    v.push(111);
    v.push(100);
    v.push(101);
    proof {
        assert(v@ =~= node_name());
    }
    v
}

fn actix_needle() -> (v: Vec<u8>)
    ensures
        v@ == actix_name(),
{
    let mut v: Vec<u8> = Vec::new();
    v.push(97);
    v.push(99);
    v.push(116);
    v.push(105);
    v.push(120);
    proof {
        assert(v@ =~= actix_name());
    }
    v
}

/// Aggregates one snapshot of the process table into the three monitored
/// groups: the database, and the two backends by their process names.
pub fn monitor_processes(procs: &Vec<ProcSample>) -> (r: ProcessesReport)
    ensures
        r.postgres.cpu == cap_u64(group_cpu(procs@, postgres_name())),
        r.postgres.mem == cap_u64(group_mem(procs@, postgres_name())),
        r.node.cpu == cap_u64(group_cpu(procs@, node_name())),
        r.node.mem == cap_u64(group_mem(procs@, node_name())),
        r.actix.cpu == cap_u64(group_cpu(procs@, actix_name())),
        r.actix.mem == cap_u64(group_mem(procs@, actix_name())),
{
    let pg = postgres_needle();
    let nd = node_needle();
    let ax = actix_needle();
    ProcessesReport {
        postgres: proc_stats(procs, pg.as_slice()),
        node: proc_stats(procs, nd.as_slice()),
        actix: proc_stats(procs, ax.as_slice()),
    }
}

} // verus!
