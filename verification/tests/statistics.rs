use loadbench::record::ResultRecord;
use loadbench::report::{no_data_message, style};
use loadbench::stats::{
    bucket_index, build_report, compute, count_bucket, count_errors, count_status_200,
    count_status_4xx, count_status_5xx, bytes_total, elapsed_sq_total, elapsed_total, max_elapsed,
    min_elapsed,
};

fn ok_rec(start_ms: u64, status: u16, elapsed_ms: u64, bytes: u64) -> ResultRecord {
    ResultRecord {
        start_ms,
        status_code: Some(status),
        elapsed_ms,
        bytes_transferred: bytes,
        is_error: false,
    }
}

fn err_rec(start_ms: u64, elapsed_ms: u64) -> ResultRecord {
    ResultRecord { start_ms, status_code: None, elapsed_ms, bytes_transferred: 0, is_error: true }
}

#[test]
fn status_buckets_are_exclusive_and_bounded() {
    let records = vec![
        ok_rec(0, 200, 5, 10),
        ok_rec(1, 404, 15, 20),
        ok_rec(2, 500, 25, 30),
        ok_rec(3, 301, 35, 40),
        err_rec(4, 45),
    ];
    let c200 = count_status_200(&records);
    let c4xx = count_status_4xx(&records);
    let c5xx = count_status_5xx(&records);
    let errors = count_errors(&records);
    assert_eq!(c200, 1);
    assert_eq!(c4xx, 1);
    assert_eq!(c5xx, 1);
    assert_eq!(errors, 1);
    // Strictly below total - errors: the 301 lands in no bucket.
    assert!(c200 + c4xx + c5xx < records.len() - errors);
    assert_eq!(c200 + c4xx + c5xx, 3);
}

#[test]
fn histogram_boundaries_land_in_lower_bound_bucket() {
    assert_eq!(bucket_index(0), 0);
    assert_eq!(bucket_index(9), 0);
    assert_eq!(bucket_index(10), 1);
    assert_eq!(bucket_index(99), 1);
    assert_eq!(bucket_index(100), 2);
    assert_eq!(bucket_index(199), 2);
    assert_eq!(bucket_index(200), 3);
    assert_eq!(bucket_index(499), 3);
    assert_eq!(bucket_index(500), 4);
    assert_eq!(bucket_index(999), 4);
    assert_eq!(bucket_index(1000), 5);
    assert_eq!(bucket_index(9999), 5);
    assert_eq!(bucket_index(10000), 6);
    assert_eq!(bucket_index(u64::MAX), 6);
}

#[test]
fn histogram_counts_sum_to_total() {
    let elapsed = [0u64, 9, 10, 99, 100, 199, 200, 499, 500, 999, 1000, 9999, 10000, 20000, 42];
    let records: Vec<ResultRecord> =
        elapsed.iter().map(|&e| ok_rec(0, 200, e, 0)).collect();
    let mut sum = 0usize;
    for k in 0..7usize {
        sum += count_bucket(&records, k);
    }
    assert_eq!(sum, records.len());
    assert_eq!(count_bucket(&records, 0), 2);
    assert_eq!(count_bucket(&records, 1), 3);
    assert_eq!(count_bucket(&records, 6), 2);
}

#[test]
fn population_mean_and_std_dev() {
    let records = vec![ok_rec(0, 200, 10, 0), ok_rec(0, 200, 20, 0), ok_rec(0, 200, 30, 0)];
    let n = records.len() as f64;
    let sum = elapsed_total(&records);
    let sq_sum = elapsed_sq_total(&records).unwrap();
    assert_eq!(sum, 60);
    assert_eq!(sq_sum, 100 + 400 + 900);
    let mean = sum as f64 / n;
    assert_eq!(mean, 20.0);
    // Population variance: E[x^2] - (E[x])^2, dividing by N, not N-1.
    let variance = sq_sum as f64 / n - mean * mean;
    let std_dev = variance.sqrt();
    assert!((std_dev - 8.16).abs() < 0.01, "std dev was {}", std_dev);
}

#[test]
fn squared_sum_reports_overflow() {
    // One maximal term still fits the 128-bit word; two cannot.
    let one = vec![ok_rec(0, 200, u64::MAX, 0)];
    assert_eq!(elapsed_sq_total(&one), Some((u64::MAX as u128) * (u64::MAX as u128)));
    let two = vec![ok_rec(0, 200, u64::MAX, 0), ok_rec(0, 200, u64::MAX, 0)];
    assert_eq!(elapsed_sq_total(&two), None);
}

#[test]
fn empty_run_yields_no_report() {
    let records: Vec<ResultRecord> = Vec::new();
    assert!(build_report(&records, 1000).is_none());
    assert_eq!(no_data_message(), "No timing data available.");
}

#[test]
fn requests_per_second_known_value() {
    // 100 requests, all started at time 0, observed 1000 ms later.
    let records: Vec<ResultRecord> = (0..100).map(|_| ok_rec(0, 200, 10, 0)).collect();
    let report = compute(&records, 1000);
    assert_eq!(report.total_requests, 100);
    assert_eq!(report.total_wall_time_ms, 1000);
    let (num, den) = report.requests_per_second_ratio();
    assert_eq!(num, 100_000);
    assert_eq!(den, 1000);
    let rps = num as f64 / den as f64;
    assert_eq!(rps, 100.0);
}

#[test]
fn bandwidth_ratio_matches_formula() {
    let records =
        vec![ok_rec(0, 200, 10, 600_000), ok_rec(0, 200, 10, 400_000)];
    let report = compute(&records, 8);
    assert_eq!(report.total_bytes, 1_000_000);
    assert_eq!(report.total_wall_time_ms, 8);
    let (num, den) = report.bandwidth_ratio();
    let mbps = num as f64 / den as f64;
    let original_formula = (report.total_bytes as f64 * 8.0)
        / (report.total_wall_time_ms as f64 * 1_000_000.0);
    assert!((mbps - original_formula).abs() < 1e-12);
    assert_eq!(mbps, 1.0);
}

#[test]
fn full_report_fields() {
    let records = vec![
        ok_rec(40, 200, 12, 100),
        ok_rec(25, 404, 250, 50),
        err_rec(30, 5000),
    ];
    let report = compute(&records, 1025);
    assert_eq!(report.total_requests, 3);
    assert_eq!(report.earliest_start_ms, 25);
    assert_eq!(report.total_wall_time_ms, 1000);
    assert_eq!(report.total_bytes, 150);
    assert_eq!(report.elapsed_sum_ms, 12 + 250 + 5000);
    assert_eq!(report.min_elapsed_ms, 12);
    assert_eq!(report.max_elapsed_ms, 5000);
    assert_eq!(report.error_count, 1);
    assert_eq!(report.status_200_count, 1);
    assert_eq!(report.status_4xx_count, 1);
    assert_eq!(report.status_5xx_count, 0);
    assert_eq!(report.hist_10_to_100, 1);
    assert_eq!(report.hist_200_to_500, 1);
    assert_eq!(report.hist_1000_to_10000, 1);
    assert_eq!(report.hist_under_10, 0);
}

#[test]
fn aggregate_helpers_match_direct_computation() {
    let records = vec![ok_rec(3, 200, 7, 11), ok_rec(1, 200, 4, 13), err_rec(2, 9)];
    assert_eq!(bytes_total(&records), 24);
    assert_eq!(elapsed_total(&records), 20);
    assert_eq!(min_elapsed(&records), 4);
    assert_eq!(max_elapsed(&records), 9);
}

#[test]
fn report_ignores_record_order() {
    let a = ok_rec(40, 200, 12, 100);
    let b = ok_rec(25, 404, 250, 50);
    let c = err_rec(30, 5000);
    let one = vec![a, b, c];
    let other = vec![c, a, b];
    assert_eq!(compute(&one, 2000), compute(&other, 2000));
}

#[test]
fn style_wraps_in_escape_codes() {
    assert_eq!(style("42"), "\x1b[1;32m42\x1b[0m");
    assert_eq!(style(""), "\x1b[1;32m\x1b[0m");
}
