use benchit::invoke::{dec_string, wrk_args};
use benchit::charts::{bar_len, bars, chart_groups, latency_chart, rps_chart, scale_bounds};
use benchit::models::{Config, ProcessReport, ProcessesReport, Results, WrkStats, mem_mib};
use benchit::parser::{process_wrk, ParseError};
use benchit::resources::{contains_subslice, monitor_processes, proc_stats, ProcSample};
use benchit::sweep::{concurrency_levels, plan_scenario, scenarios};

fn run_result(test: &str, name: &str, concurrency: u16, lat: u64, rps: usize) -> Results {
    Results::new(
        test.to_string(),
        name.to_string(),
        concurrency,
        ProcessesReport::default(),
        WrkStats { latency_ns: lat, rps },
    )
}

#[test]
fn latency_millisecond_line() {
    let st = process_wrk(b"    Latency   12.34ms   40.1ms ...\n").unwrap();
    assert_eq!(st.latency_ns, 12_340_000); // 12.34 ms
    assert_eq!(st.rps, 0);
}

#[test]
fn latency_second_line() {
    let st = process_wrk(b"Latency 1.200s\n").unwrap();
    assert_eq!(st.latency_ns, 1_200_000_000); // 1200.0 ms
}

#[test]
fn latency_microsecond_line() {
    let st = process_wrk(b"Latency 300us\n").unwrap();
    assert_eq!(st.latency_ns, 300_000); // 0.3 ms
}

#[test]
fn latency_unknown_unit_is_milliseconds() {
    let st = process_wrk(b"Latency 5.5qq\n").unwrap();
    assert_eq!(st.latency_ns, 5_500_000);
}

#[test]
fn requests_per_second_integer_capture() {
    let st = process_wrk(b"Requests/sec:   1234.56\n").unwrap();
    assert_eq!(st.rps, 1234);
    assert_eq!(st.latency_ns, 0);
}

#[test]
fn full_report_both_lines() {
    let out = b"Running 10s test\n  Latency    80.45ms\nRequests/sec:  950\nTransfer/sec: 1MB\n";
    let st = process_wrk(out).unwrap();
    assert_eq!(st.latency_ns, 80_450_000);
    assert_eq!(st.rps, 950);
}

#[test]
fn last_matching_line_wins() {
    let out = b"Latency 1.00ms\nLatency 2.00ms\nRequests/sec: 5\nRequests/sec: 7\n";
    let st = process_wrk(out).unwrap();
    assert_eq!(st.latency_ns, 2_000_000);
    assert_eq!(st.rps, 7);
}

#[test]
fn no_match_gives_zero_measurement() {
    let st = process_wrk(b"nothing of note\nat all\n").unwrap();
    assert_eq!(st.latency_ns, 0);
    assert_eq!(st.rps, 0);
    let st = process_wrk(b"").unwrap();
    assert_eq!(st.latency_ns, 0);
    assert_eq!(st.rps, 0);
}

#[test]
fn oversized_rps_is_fatal() {
    let r = process_wrk(b"Requests/sec: 99999999999999999999999999\n");
    assert_eq!(r.unwrap_err(), ParseError::NumberOutOfRange);
}

#[test]
fn oversized_latency_is_fatal() {
    let r = process_wrk(b"Latency 99999999999999999999s\n");
    assert_eq!(r.unwrap_err(), ParseError::NumberOutOfRange);
}

#[test]
fn sweep_ceiling_128() {
    assert_eq!(concurrency_levels(128), vec![1, 2, 4, 8, 16, 32, 64]);
}

#[test]
fn sweep_ceiling_one_tests_nothing() {
    assert_eq!(concurrency_levels(1), Vec::<u16>::new());
}

#[test]
fn sweep_ceiling_not_power_of_two() {
    assert_eq!(concurrency_levels(100), vec![1, 2, 4, 8, 16, 32, 64]);
}

#[test]
fn bar_of_maximum_value_fills_width_plus_one() {
    assert_eq!(bar_len(500, 500, 100), 101);
}

#[test]
fn bar_of_zero_value_is_one() {
    assert_eq!(bar_len(0, 500, 100), 1);
    // an all-zero list has maximum 0; still one visible character
    assert_eq!(bar_len(0, 0, 100), 1);
}

#[test]
fn bars_are_stars() {
    assert_eq!(bars(3), "***");
    assert_eq!(bars(0), "");
}

#[test]
fn grouping_pairs_in_sweep_order() {
    let data = vec![
        run_result("s1", "node", 1, 10, 100),
        run_result("s1", "actix", 1, 20, 200),
        run_result("s1", "node", 2, 30, 300),
        run_result("s1", "actix", 2, 40, 400),
    ];
    assert_eq!(chart_groups(&data), vec![(0, 2), (2, 4)]);
}

#[test]
fn grouping_splits_on_scenario_change() {
    let data = vec![
        run_result("s1", "node", 1, 10, 100),
        run_result("s2", "node", 1, 20, 200),
    ];
    assert_eq!(chart_groups(&data), vec![(0, 1), (1, 2)]);
    assert_eq!(chart_groups(&Vec::new()), Vec::<(usize, usize)>::new());
}

#[test]
fn chart_sizes_share_the_global_scale() {
    let data = vec![
        run_result("s1", "node", 1, 50, 10),
        run_result("s1", "actix", 1, 100, 40),
        run_result("s1", "node", 2, 0, 20),
    ];
    let (ml, mr) = scale_bounds(&data);
    assert_eq!((ml, mr), (100, 40));
    assert_eq!(latency_chart(&data, 100), vec![51, 101, 1]);
    assert_eq!(rps_chart(&data, 100), vec![26, 101, 51]);
}

#[test]
fn resource_aggregation_by_substring() {
    let procs = vec![
        ProcSample { name: b"node-worker-1".to_vec(), cpu: 1050, mem: 1000 },
        ProcSample { name: b"node-worker-2".to_vec(), cpu: 250, mem: 2000 },
        ProcSample { name: b"postgres-main".to_vec(), cpu: 75, mem: 4096 },
    ];
    let node = proc_stats(&procs, b"node");
    assert_eq!((node.cpu, node.mem), (1300, 3000));
    let pg = proc_stats(&procs, b"postgres");
    assert_eq!((pg.cpu, pg.mem), (75, 4096));
    let report = monitor_processes(&procs);
    assert_eq!((report.node.cpu, report.node.mem), (1300, 3000));
    assert_eq!((report.postgres.cpu, report.postgres.mem), (75, 4096));
    assert_eq!((report.actix.cpu, report.actix.mem), (0, 0));
}

#[test]
fn substring_search() {
    assert!(contains_subslice(b"hello", b"ell"));
    assert!(contains_subslice(b"hello", b""));
    assert!(!contains_subslice(b"hello", b"elx"));
    assert!(!contains_subslice(b"he", b"hello"));
}

#[test]
fn zero_reports_when_monitoring_disabled() {
    let r = ProcessesReport::default();
    assert_eq!((r.postgres.cpu, r.postgres.mem), (0, 0));
    assert_eq!((r.node.cpu, r.node.mem), (0, 0));
    assert_eq!((r.actix.cpu, r.actix.mem), (0, 0));
    let p = ProcessReport::default();
    assert_eq!((p.cpu, p.mem), (0, 0));
}

#[test]
fn memory_column_in_mebibytes() {
    assert_eq!(mem_mib(3 * 1024 * 1024 + 5), 3);
    assert_eq!(mem_mib(0), 0);
}

#[test]
fn end_to_end_plan_monitoring_disabled() {
    let config = Config {
        host: "127.0.0.1".to_string(),
        max_concurrency: 4,
        node_port: 3000,
        actix_port: 3002,
        monitor: false,
        time: 1,
    };
    let mock_output: &[u8] = b"Latency 2.00ms\nRequests/sec: 40\n";
    let tests = scenarios();
    assert_eq!(tests.len(), 2);
    for test in &tests {
        let specs = plan_scenario(test, &config);
        // levels 1 and 2, two backends each
        assert_eq!(specs.len(), 4);
        let mut results: Vec<Results> = Vec::new();
        for spec in &specs {
            let stats = process_wrk(mock_output).unwrap();
            let resources = ProcessesReport::default();
            results.push(Results::new(
                spec.test.clone(),
                spec.name.clone(),
                spec.concurrency,
                resources,
                stats,
            ));
        }
        assert_eq!(results.len(), 4);
        let levels: Vec<u16> = results.iter().map(|r| r.concurrency).collect();
        assert_eq!(levels, vec![1, 1, 2, 2]);
        let names: Vec<&str> = results.iter().map(|r| r.name.as_str()).collect();
        assert_eq!(names, vec!["node", "actix", "node", "actix"]);
        for r in &results {
            assert_eq!((r.proc_stats.postgres.cpu, r.proc_stats.postgres.mem), (0, 0));
            assert_eq!((r.proc_stats.node.cpu, r.proc_stats.node.mem), (0, 0));
            assert_eq!((r.proc_stats.actix.cpu, r.proc_stats.actix.mem), (0, 0));
            assert_eq!(r.wrk_stats.latency_ns, 2_000_000);
            assert_eq!(r.wrk_stats.rps, 40);
            assert_eq!(r.test, *test);
        }
        assert_eq!(chart_groups(&results), vec![(0, 2), (2, 4)]);
    }
}

#[test]
fn thread_hint_is_tenth_plus_one() {
    let config = Config {
        host: "127.0.0.1".to_string(),
        max_concurrency: 128,
        node_port: 3000,
        actix_port: 3002,
        monitor: false,
        time: 60,
    };
    let empty = String::new();
    let specs = plan_scenario(&empty, &config);
    assert_eq!(specs.len(), 14);
    for spec in &specs {
        assert_eq!(spec.threads, spec.concurrency / 10 + 1);
        assert!(spec.threads >= 1);
    }
    assert_eq!(specs[12].concurrency, 64);
    assert_eq!(specs[12].threads, 7);
    assert_eq!(specs[12].port, 3000);
    assert_eq!(specs[13].port, 3002);
    assert_eq!(specs[13].duration, 60);
}

#[test]
fn label_without_whitespace_does_not_match() {
    let st = process_wrk(b"Latency5ms\nRequests/sec:7\n").unwrap();
    assert_eq!(st.latency_ns, 0);
    assert_eq!(st.rps, 0);
}

#[test]
fn carriage_return_line_endings() {
    let st = process_wrk(b"Latency 1.00ms\r\nRequests/sec: 3\r\n").unwrap();
    assert_eq!(st.latency_ns, 1_000_000);
    assert_eq!(st.rps, 3);
}

#[test]
fn integer_latency_without_fraction() {
    let st = process_wrk(b"Latency 7ms\n").unwrap();
    assert_eq!(st.latency_ns, 7_000_000);
}

#[test]
fn invalid_utf8_is_a_decode_failure() {
    assert_eq!(process_wrk(b"\xff").unwrap_err(), ParseError::InvalidUtf8);
    // overlong encoding
    assert_eq!(process_wrk(b"\xc0\x80").unwrap_err(), ParseError::InvalidUtf8);
    // surrogate range
    assert_eq!(process_wrk(b"\xed\xa0\x80").unwrap_err(), ParseError::InvalidUtf8);
    // truncated multi-byte sequence
    assert_eq!(process_wrk(b"Latency 1.00ms\n\xe2\x82").unwrap_err(), ParseError::InvalidUtf8);
}

#[test]
fn valid_multibyte_text_parses() {
    // two-, three- and four-byte sequences around a matching line
    let st = process_wrk("é € 😀\nLatency 1.00ms\n".as_bytes()).unwrap();
    assert_eq!(st.latency_ns, 1_000_000);
}

#[test]
fn utf8_acceptance_matches_std() {
    let samples: Vec<&[u8]> = vec![
        b"plain ascii",
        b"\xff",
        b"\xc0\x80",
        b"\xc3\xa9",
        b"\xed\xa0\x80",
        b"\xed\x9f\xbf",
        b"\xe2\x82\xac",
        b"\xf0\x90\x80\x80",
        b"\xf4\x90\x80\x80",
        b"\xf4\x8f\xbf\xbf",
        b"\xe2\x82",
        b"\x80",
    ];
    for s in samples {
        assert_eq!(
            process_wrk(s).is_ok(),
            std::str::from_utf8(s).is_ok(),
            "disagreement on {:?}",
            s
        );
    }
}

#[test]
fn run_arguments_match_the_invocation_contract() {
    let config = Config {
        host: "127.0.0.1".to_string(),
        max_concurrency: 128,
        node_port: 3000,
        actix_port: 3002,
        monitor: false,
        time: 60,
    };
    let query = "?summary=wherever&full=true&limit=10".to_string();
    let specs = plan_scenario(&query, &config);
    let args = wrk_args(&specs[12], &config.host);
    assert_eq!(
        args,
        vec![
            "-t 7".to_string(),
            "-c 64".to_string(),
            "-d60s".to_string(),
            "http://127.0.0.1:3000/tasks?summary=wherever&full=true&limit=10".to_string(),
        ]
    );
    let args = wrk_args(&specs[1], &config.host);
    assert_eq!(
        args,
        vec![
            "-t 1".to_string(),
            "-c 1".to_string(),
            "-d60s".to_string(),
            "http://127.0.0.1:3002/tasks?summary=wherever&full=true&limit=10".to_string(),
        ]
    );
}

#[test]
fn decimal_rendering() {
    assert_eq!(dec_string(0), "0");
    assert_eq!(dec_string(7), "7");
    assert_eq!(dec_string(65535), "65535");
    assert_eq!(dec_string(1000), "1000");
}
