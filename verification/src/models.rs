//! Plain data carried through the harness: the sweep configuration, one run's
//! parsed measurement, per-group resource usage, and one completed run's row.
//!
//! Measured quantities are held as integers: latency in nanoseconds and CPU
//! usage in hundredths of a percent, so that every computation over them can
//! be stated and checked exactly. Callers that display the values convert at
//! the edge.

use vstd::prelude::*;

verus! {

/// The sweep parameters, produced once from startup input and read-only
/// thereafter.
pub struct Config {
    /// Target host, as the textual IP address the URLs are built from.
    pub host: String,
    /// Exclusive ceiling for the concurrency sweep: a level equal to it is
    /// never tested.
    pub max_concurrency: u16,
    /// Port of the first backend under test.
    pub node_port: u16,
    /// Port of the second backend under test.
    pub actix_port: u16,
    /// Whether host process resource usage is sampled during each run.
    pub monitor: bool,
    /// Duration of one load-generation run, in seconds.
    pub time: u16,
}

/// Aggregate resource usage of one named group of OS processes.
pub struct ProcessReport {
    /// Summed CPU usage, in hundredths of a percent.
    pub cpu: u64,
    /// Summed resident memory, in bytes.
    pub mem: u64,
}

/// Resource usage of the three monitored process groups. All-zero when
/// monitoring is disabled.
pub struct ProcessesReport {
    pub postgres: ProcessReport,
    pub node: ProcessReport,
    pub actix: ProcessReport,
}

/// One run's measurement, parsed from the load generator's report. The zero
/// value means no measurement line was found.
#[derive(Debug)]
pub struct WrkStats {
    /// Latency normalized to nanoseconds.
    pub latency_ns: u64,
    /// Requests per second, integer part only.
    pub rps: usize,
}

/// The outcome of one run: which scenario and backend at which concurrency,
/// with the sampled resources and the parsed measurement.
pub struct Results {
    /// Scenario: the query-string suffix appended to the endpoint path.
    pub test: String,
    /// Backend name, used as the chart label.
    pub name: String,
    /// Concurrency level of this run.
    pub concurrency: u16,
    pub proc_stats: ProcessesReport,
    pub wrk_stats: WrkStats,
}

impl ProcessReport {
    /// True of a report holding no usage at all.
    pub open spec fn is_zero(self) -> bool {
        self.cpu == 0 && self.mem == 0
    }
}

impl ProcessesReport {
    /// True of a report holding no usage for any group.
    pub open spec fn is_zero(self) -> bool {
        self.postgres.is_zero() && self.node.is_zero() && self.actix.is_zero()
    }
}

impl Default for ProcessReport {
    /// The zero report: the aggregate over an empty set of processes.
    fn default() -> (r: Self)
        ensures
            r.is_zero(),
    {
        ProcessReport { cpu: 0, mem: 0 }
    }
}

impl Default for ProcessesReport {
    /// The all-zero report, substituted when monitoring is disabled.
    fn default() -> (r: Self)
        ensures
            r.is_zero(),
    {
        ProcessesReport {
            postgres: ProcessReport { cpu: 0, mem: 0 },
            node: ProcessReport { cpu: 0, mem: 0 },
            actix: ProcessReport { cpu: 0, mem: 0 },
        }
    }
}

impl Default for WrkStats {
    /// The zero measurement, reported when no line of the report matched.
    fn default() -> (r: Self)
        ensures
            r.latency_ns == 0 && r.rps == 0,
    {
        WrkStats { latency_ns: 0, rps: 0 }
    }
}

impl Results {
    /// Builds the row for one completed run.
    pub fn new(
        test: String,
        name: String,
        concurrency: u16,
        proc_stats: ProcessesReport,
        wrk_stats: WrkStats,
    ) -> (r: Results)
        ensures
            r.test == test,
            r.name == name,
            r.concurrency == concurrency,
            r.proc_stats == proc_stats,
            r.wrk_stats == wrk_stats,
    {
        Results { test, name, concurrency, proc_stats, wrk_stats }
    }
}

/// Memory in whole mebibytes, as the table column shows it.
pub fn mem_mib(bytes: u64) -> (r: u64)
    ensures
        r == bytes / 0x100000,
{
    bytes / 1024 / 1024
}

/// One record of the backends' task table; the harness only needs its shape,
/// the response body is never inspected.
pub struct Task {
    pub id: i32,
    pub summary: String,
    pub description: Option<String>,
    pub assignee_id: i32,
    pub assignee_name: String,
}

/// The filter parameters a backend's task-listing endpoint accepts.
pub struct GetTasks {
    pub summary: Option<String>,
    pub assignee_name: Option<String>,
}

} // verus!
