//! The statistics engine.
//!
//! A pure reduction of a completed result dataset into aggregate
//! statistics: totals, earliest start, latency min/max and sums, error
//! count, status-code buckets and the fixed-boundary latency histogram.
//! Every aggregate is order-independent, so the unspecified interleaving
//! of the workers cannot influence the report. The ratio outputs
//! (requests per second, bandwidth) are exact numerator/denominator
//! pairs; turning them into decimal text is left to the caller.

use vstd::prelude::*;
use crate::record::ResultRecord;

verus! {

/// The sum of the elapsed times of all records.
pub open spec fn elapsed_sum(s: Seq<ResultRecord>) -> nat
    decreases s.len(),
{
    if s.len() == 0 {
        0
    } else {
        elapsed_sum(s.drop_last()) + s.last().elapsed_ms as nat
    }
}

/// The sum of the squared elapsed times of all records.
pub open spec fn elapsed_sq_sum(s: Seq<ResultRecord>) -> nat
    decreases s.len(),
{
    if s.len() == 0 {
        0
    } else {
        elapsed_sq_sum(s.drop_last()) + (s.last().elapsed_ms * s.last().elapsed_ms) as nat
    }
}

/// The sum of the transferred bytes of all records.
pub open spec fn bytes_sum(s: Seq<ResultRecord>) -> nat
    decreases s.len(),
{
    if s.len() == 0 {
        0
    } else {
        bytes_sum(s.drop_last()) + s.last().bytes_transferred as nat
    }
}

/// How many records are transport failures.
pub open spec fn num_errors(s: Seq<ResultRecord>) -> nat
    decreases s.len(),
{
    if s.len() == 0 {
        0
    } else {
        num_errors(s.drop_last()) + if s.last().is_error {
            1nat
        } else {
            0nat
        }
    }
}

/// Whether a record carries status code 200.
pub open spec fn is_status_200(r: ResultRecord) -> bool {
    r.status_code == Some(200u16)
}

/// Whether a record carries a status code in [400, 500).
pub open spec fn is_status_4xx(r: ResultRecord) -> bool {
    match r.status_code {
        Some(c) => 400 <= c < 500,
        None => false,
    }
}

/// Whether a record carries a status code of 500 or above.
pub open spec fn is_status_5xx(r: ResultRecord) -> bool {
    match r.status_code {
        Some(c) => c >= 500,
        None => false,
    }
}

/// How many records carry status code 200.
pub open spec fn num_status_200(s: Seq<ResultRecord>) -> nat
    decreases s.len(),
{
    if s.len() == 0 {
        0
    } else {
        num_status_200(s.drop_last()) + if is_status_200(s.last()) {
            1nat
        } else {
            0nat
        }
    }
}

/// How many records carry a status code in [400, 500).
pub open spec fn num_status_4xx(s: Seq<ResultRecord>) -> nat
    decreases s.len(),
{
    if s.len() == 0 {
        0
    } else {
        num_status_4xx(s.drop_last()) + if is_status_4xx(s.last()) {
            1nat
        } else {
            0nat
        }
    }
}

/// How many records carry a status code of 500 or above.
pub open spec fn num_status_5xx(s: Seq<ResultRecord>) -> nat
    decreases s.len(),
{
    if s.len() == 0 {
        0
    } else {
        num_status_5xx(s.drop_last()) + if is_status_5xx(s.last()) {
            1nat
        } else {
            0nat
        }
    }
}

/// The latency histogram bucket an elapsed time falls into. The
/// boundaries are half open: a boundary value lands in the bucket whose
/// lower bound equals it.
pub open spec fn bucket_of(elapsed_ms: nat) -> int {
    if elapsed_ms < 10 {
        0
    } else if elapsed_ms < 100 {
        1
    } else if elapsed_ms < 200 {
        2
    } else if elapsed_ms < 500 {
        3
    } else if elapsed_ms < 1000 {
        4
    } else if elapsed_ms < 10000 {
        5
    } else {
        6
    }
}

/// How many records fall into histogram bucket `k`.
pub open spec fn num_in_bucket(s: Seq<ResultRecord>, k: int) -> nat
    decreases s.len(),
{
    if s.len() == 0 {
        0
    } else {
        num_in_bucket(s.drop_last(), k) + if bucket_of(s.last().elapsed_ms as nat) == k {
            1nat
        } else {
            0nat
        }
    }
}

/// The earliest start timestamp of a non-empty dataset.
pub open spec fn start_min(s: Seq<ResultRecord>) -> nat
    decreases s.len(),
{
    if s.len() <= 1 {
        if s.len() == 0 {
            0
        } else {
            s[0].start_ms as nat
        }
    } else if s.last().start_ms < start_min(s.drop_last()) {
        s.last().start_ms as nat
    } else {
        start_min(s.drop_last())
    }
}

/// The smallest elapsed time of a non-empty dataset.
pub open spec fn elapsed_min(s: Seq<ResultRecord>) -> nat
    decreases s.len(),
{
    if s.len() <= 1 {
        if s.len() == 0 {
            0
        } else {
            s[0].elapsed_ms as nat
        }
    } else if s.last().elapsed_ms < elapsed_min(s.drop_last()) {
        s.last().elapsed_ms as nat
    } else {
        elapsed_min(s.drop_last())
    }
}

/// The largest elapsed time of a non-empty dataset.
pub open spec fn elapsed_max(s: Seq<ResultRecord>) -> nat
    decreases s.len(),
{
    if s.len() <= 1 {
        if s.len() == 0 {
            0
        } else {
            s[0].elapsed_ms as nat
        }
    } else if s.last().elapsed_ms > elapsed_max(s.drop_last()) {
        s.last().elapsed_ms as nat
    } else {
        elapsed_max(s.drop_last())
    }
}

/// The wall time of the run: now minus the earliest start, and zero if
/// the clock value given is older than every start.
pub open spec fn wall_time_of(s: Seq<ResultRecord>, now_ms: u64) -> nat {
    if now_ms >= start_min(s) {
        (now_ms - start_min(s)) as nat
    } else {
        0
    }
}

/// The aggregate statistics of one run.
#[derive(Clone, Copy, PartialEq, Eq, Structural, Debug)]
pub struct StatsReport {
    /// How many requests were attempted.
    pub total_requests: usize,
    /// The earliest start timestamp across all records, in milliseconds.
    pub earliest_start_ms: u64,
    /// Clock reading after the join barrier minus the earliest start.
    pub total_wall_time_ms: u64,
    /// The sum of all transferred bytes.
    pub total_bytes: u128,
    /// The sum of all elapsed times, in milliseconds.
    pub elapsed_sum_ms: u128,
    /// The smallest elapsed time.
    pub min_elapsed_ms: u64,
    /// The largest elapsed time.
    pub max_elapsed_ms: u64,
    /// How many attempts were transport failures.
    pub error_count: usize,
    /// How many responses carried status 200.
    pub status_200_count: usize,
    /// How many responses carried a status in [400, 500).
    pub status_4xx_count: usize,
    /// How many responses carried a status of 500 or above.
    pub status_5xx_count: usize,
    /// Latency bucket [0, 10) ms.
    pub hist_under_10: usize,
    /// Latency bucket [10, 100) ms.
    pub hist_10_to_100: usize,
    /// Latency bucket [100, 200) ms.
    pub hist_100_to_200: usize,
    /// Latency bucket [200, 500) ms.
    pub hist_200_to_500: usize,
    /// Latency bucket [500, 1000) ms.
    pub hist_500_to_1000: usize,
    /// Latency bucket [1000, 10000) ms.
    pub hist_1000_to_10000: usize,
    /// Latency bucket [10000, ∞) ms.
    pub hist_10000_up: usize,
}

/// The report a dataset reduces to, field by field.
pub open spec fn report_of(s: Seq<ResultRecord>, now_ms: u64) -> StatsReport {
    StatsReport {
        total_requests: s.len() as usize,
        earliest_start_ms: start_min(s) as u64,
        total_wall_time_ms: wall_time_of(s, now_ms) as u64,
        total_bytes: bytes_sum(s) as u128,
        elapsed_sum_ms: elapsed_sum(s) as u128,
        min_elapsed_ms: elapsed_min(s) as u64,
        max_elapsed_ms: elapsed_max(s) as u64,
        error_count: num_errors(s) as usize,
        status_200_count: num_status_200(s) as usize,
        status_4xx_count: num_status_4xx(s) as usize,
        status_5xx_count: num_status_5xx(s) as usize,
        hist_under_10: num_in_bucket(s, 0) as usize,
        hist_10_to_100: num_in_bucket(s, 1) as usize,
        hist_100_to_200: num_in_bucket(s, 2) as usize,
        hist_200_to_500: num_in_bucket(s, 3) as usize,
        hist_500_to_1000: num_in_bucket(s, 4) as usize,
        hist_1000_to_10000: num_in_bucket(s, 5) as usize,
        hist_10000_up: num_in_bucket(s, 6) as usize,
    }
}

/// Taking one more record splits a prefix into the shorter prefix and
/// that record.
proof fn lemma_take_step(s: Seq<ResultRecord>, i: int)
    requires
        0 <= i < s.len(),
    ensures
        s.take(i + 1).drop_last() == s.take(i),
        s.take(i + 1).last() == s[i],
        s.take(i + 1).len() == i + 1,
{
    assert(s.take(i + 1).drop_last() =~= s.take(i));
}

/// The sum of the elapsed times of all records.
pub fn elapsed_total(records: &Vec<ResultRecord>) -> (t: u128)
    ensures
        t == elapsed_sum(records@),
{
    let ghost s = records@;
    let n = records.len();
    let mut acc: u128 = 0;
    let mut i: usize = 0;
    proof {
        assert(s.take(0) =~= Seq::<ResultRecord>::empty());
    }
    while i < n
        invariant
            s == records@,
            n == s.len(),
            i <= n,
            acc == elapsed_sum(s.take(i as int)),
            acc <= i * 0xFFFF_FFFF_FFFF_FFFFu128,
        decreases n - i,
    {
        proof {
            lemma_take_step(s, i as int);
        }
        acc = acc + (records[i].elapsed_ms as u128);
        i = i + 1;
    }
    proof {
        assert(s.take(n as int) =~= s);
    }
    acc
}

/// The sum of the transferred bytes of all records.
pub fn bytes_total(records: &Vec<ResultRecord>) -> (t: u128)
    ensures
        t == bytes_sum(records@),
{
    let ghost s = records@;
    let n = records.len();
    let mut acc: u128 = 0;
    let mut i: usize = 0;
    proof {
        assert(s.take(0) =~= Seq::<ResultRecord>::empty());
    }
    while i < n
        invariant
            s == records@,
            n == s.len(),
            i <= n,
            acc == bytes_sum(s.take(i as int)),
            acc <= i * 0xFFFF_FFFF_FFFF_FFFFu128,
        decreases n - i,
    {
        proof {
            lemma_take_step(s, i as int);
        }
        acc = acc + (records[i].bytes_transferred as u128);
        i = i + 1;
    }
    proof {
        assert(s.take(n as int) =~= s);
    }
    acc
}

/// A prefix never has a larger squared sum than the whole dataset.
proof fn lemma_sq_sum_prefix_le(s: Seq<ResultRecord>, i: int)
    requires
        0 <= i <= s.len(),
    ensures
        elapsed_sq_sum(s.take(i)) <= elapsed_sq_sum(s),
    decreases s.len(),
{
    if i == s.len() {
        assert(s.take(i) =~= s);
    } else {
        assert(s.take(i) =~= s.drop_last().take(i));
        lemma_sq_sum_prefix_le(s.drop_last(), i);
    }
}

/// The sum of the squared elapsed times, or nothing where that sum does
/// not fit the machine word.
pub fn elapsed_sq_total(records: &Vec<ResultRecord>) -> (t: Option<u128>)
    ensures
        t == if elapsed_sq_sum(records@) > u128::MAX {
            Option::<u128>::None
        } else {
            Some(elapsed_sq_sum(records@) as u128)
        },
{
    let ghost s = records@;
    let n = records.len();
    let mut acc: u128 = 0;
    let mut i: usize = 0;
    proof {
        assert(s.take(0) =~= Seq::<ResultRecord>::empty());
    }
    while i < n
        invariant
            s == records@,
            n == s.len(),
            i <= n,
            acc == elapsed_sq_sum(s.take(i as int)),
        decreases n - i,
    {
        proof {
            lemma_take_step(s, i as int);
        }
        let e = records[i].elapsed_ms;
        proof {
            assert((e as u128) * (e as u128) <= 0xFFFF_FFFF_FFFF_FFFFu128
                * 0xFFFF_FFFF_FFFF_FFFFu128) by (nonlinear_arith)
                requires
                    e <= 0xFFFF_FFFF_FFFF_FFFFu64,
            ;
        }
        let term: u128 = (e as u128) * (e as u128);
        if acc > u128::MAX - term {
            proof {
                lemma_sq_sum_prefix_le(s, i + 1);
            }
            return None;
        }
        acc = acc + term;
        i = i + 1;
    }
    proof {
        assert(s.take(n as int) =~= s);
    }
    Some(acc)
}

/// How many records are transport failures.
pub fn count_errors(records: &Vec<ResultRecord>) -> (c: usize)
    ensures
        c == num_errors(records@),
{
    let ghost s = records@;
    let n = records.len();
    let mut cnt: usize = 0;
    let mut i: usize = 0;
    proof {
        assert(s.take(0) =~= Seq::<ResultRecord>::empty());
    }
    while i < n
        invariant
            s == records@,
            n == s.len(),
            i <= n,
            cnt <= i,
            cnt == num_errors(s.take(i as int)),
        decreases n - i,
    {
        proof {
            lemma_take_step(s, i as int);
        }
        if records[i].is_error {
            cnt = cnt + 1;
        }
        i = i + 1;
    }
    proof {
        assert(s.take(n as int) =~= s);
    }
    cnt
}

/// How many records carry status code 200.
pub fn count_status_200(records: &Vec<ResultRecord>) -> (c: usize)
    ensures
        c == num_status_200(records@),
{
    let ghost s = records@;
    let n = records.len();
    let mut cnt: usize = 0;
    let mut i: usize = 0;
    proof {
        assert(s.take(0) =~= Seq::<ResultRecord>::empty());
    }
    while i < n
        invariant
            s == records@,
            n == s.len(),
            i <= n,
            cnt <= i,
            cnt == num_status_200(s.take(i as int)),
        decreases n - i,
    {
        proof {
            lemma_take_step(s, i as int);
        }
        let hit = match records[i].status_code {
            Some(code) => code == 200,
            None => false,
        };
        if hit {
            cnt = cnt + 1;
        }
        i = i + 1;
    }
    proof {
        assert(s.take(n as int) =~= s);
    }
    cnt
}

/// How many records carry a status code in [400, 500).
pub fn count_status_4xx(records: &Vec<ResultRecord>) -> (c: usize)
    ensures
        c == num_status_4xx(records@),
{
    let ghost s = records@;
    let n = records.len();
    let mut cnt: usize = 0;
    let mut i: usize = 0;
    proof {
        assert(s.take(0) =~= Seq::<ResultRecord>::empty());
    }
    while i < n
        invariant
            s == records@,
            n == s.len(),
            i <= n,
            cnt <= i,
            cnt == num_status_4xx(s.take(i as int)),
        decreases n - i,
    {
        proof {
            lemma_take_step(s, i as int);
        }
        let hit = match records[i].status_code {
            Some(code) => 400 <= code && code < 500,
            None => false,
        };
        if hit {
            cnt = cnt + 1;
        }
        i = i + 1;
    }
    proof {
        assert(s.take(n as int) =~= s);
    }
    cnt
}

/// How many records carry a status code of 500 or above.
pub fn count_status_5xx(records: &Vec<ResultRecord>) -> (c: usize)
    ensures
        c == num_status_5xx(records@),
{
    let ghost s = records@;
    let n = records.len();
    let mut cnt: usize = 0;
    let mut i: usize = 0;
    proof {
        assert(s.take(0) =~= Seq::<ResultRecord>::empty());
    }
    while i < n
        invariant
            s == records@,
            n == s.len(),
            i <= n,
            cnt <= i,
            cnt == num_status_5xx(s.take(i as int)),
        decreases n - i,
    {
        proof {
            lemma_take_step(s, i as int);
        }
        let hit = match records[i].status_code {
            Some(code) => code >= 500,
            None => false,
        };
        if hit {
            cnt = cnt + 1;
        }
        i = i + 1;
    }
    proof {
        assert(s.take(n as int) =~= s);
    }
    cnt
}

/// The histogram bucket an elapsed time falls into.
pub fn bucket_index(elapsed_ms: u64) -> (k: usize)
    ensures
        k == bucket_of(elapsed_ms as nat),
{
    if elapsed_ms < 10 {
        0
    } else if elapsed_ms < 100 {
        1
    } else if elapsed_ms < 200 {
        2
    } else if elapsed_ms < 500 {
        3
    } else if elapsed_ms < 1000 {
        4
    } else if elapsed_ms < 10000 {
        5
    } else {
        6
    }
}

/// How many records fall into histogram bucket `k`.
pub fn count_bucket(records: &Vec<ResultRecord>, k: usize) -> (c: usize)
    ensures
        c == num_in_bucket(records@, k as int),
{
    let ghost s = records@;
    let n = records.len();
    let mut cnt: usize = 0;
    let mut i: usize = 0;
    proof {
        assert(s.take(0) =~= Seq::<ResultRecord>::empty());
    }
    while i < n
        invariant
            s == records@,
            n == s.len(),
            i <= n,
            cnt <= i,
            cnt == num_in_bucket(s.take(i as int), k as int),
        decreases n - i,
    {
        proof {
            lemma_take_step(s, i as int);
        }
        if bucket_index(records[i].elapsed_ms) == k {
            cnt = cnt + 1;
        }
        i = i + 1;
    }
    proof {
        assert(s.take(n as int) =~= s);
    }
    cnt
}

/// The earliest start timestamp of a non-empty dataset.
pub fn earliest_start(records: &Vec<ResultRecord>) -> (m: u64)
    requires
        records@.len() >= 1,
    ensures
        m == start_min(records@),
{
    let ghost s = records@;
    let n = records.len();
    let mut m = records[0].start_ms;
    let mut i: usize = 1;
    proof {
        assert(s.take(1).len() == 1);
        assert(s.take(1)[0] == s[0]);
    }
    while i < n
        invariant
            s == records@,
            n == s.len(),
            1 <= i <= n,
            m == start_min(s.take(i as int)),
        decreases n - i,
    {
        proof {
            lemma_take_step(s, i as int);
        }
        let v = records[i].start_ms;
        if v < m {
            m = v;
        }
        i = i + 1;
    }
    proof {
        assert(s.take(n as int) =~= s);
    }
    m
}

/// The smallest elapsed time of a non-empty dataset.
pub fn min_elapsed(records: &Vec<ResultRecord>) -> (m: u64)
    requires
        records@.len() >= 1,
    ensures
        m == elapsed_min(records@),
{
    let ghost s = records@;
    let n = records.len();
    let mut m = records[0].elapsed_ms;
    let mut i: usize = 1;
    proof {
        assert(s.take(1).len() == 1);
        assert(s.take(1)[0] == s[0]);
    }
    while i < n
        invariant
            s == records@,
            n == s.len(),
            1 <= i <= n,
            m == elapsed_min(s.take(i as int)),
        decreases n - i,
    {
        proof {
            lemma_take_step(s, i as int);
        }
        let v = records[i].elapsed_ms;
        if v < m {
            m = v;
        }
        i = i + 1;
    }
    proof {
        assert(s.take(n as int) =~= s);
    }
    m
}

/// The largest elapsed time of a non-empty dataset.
pub fn max_elapsed(records: &Vec<ResultRecord>) -> (m: u64)
    requires
        records@.len() >= 1,
    ensures
        m == elapsed_max(records@),
{
    let ghost s = records@;
    let n = records.len();
    let mut m = records[0].elapsed_ms;
    let mut i: usize = 1;
    proof {
        assert(s.take(1).len() == 1);
        assert(s.take(1)[0] == s[0]);
    }
    while i < n
        invariant
            s == records@,
            n == s.len(),
            1 <= i <= n,
            m == elapsed_max(s.take(i as int)),
        decreases n - i,
    {
        proof {
            lemma_take_step(s, i as int);
        }
        let v = records[i].elapsed_ms;
        if v > m {
            m = v;
        }
        i = i + 1;
    }
    proof {
        assert(s.take(n as int) =~= s);
    }
    m
}

/// Reduces a non-empty dataset to its report. `now_ms` is the clock
/// reading taken once, after every worker has finished.
pub fn compute(records: &Vec<ResultRecord>, now_ms: u64) -> (rep: StatsReport)
    requires
        records@.len() >= 1,
    ensures
        rep == report_of(records@, now_ms),
{
    let earliest = earliest_start(records);
    let wall: u64 = if now_ms >= earliest {
        now_ms - earliest
    } else {
        0
    };
    StatsReport {
        total_requests: records.len(),
        earliest_start_ms: earliest,
        total_wall_time_ms: wall,
        total_bytes: bytes_total(records),
        elapsed_sum_ms: elapsed_total(records),
        min_elapsed_ms: min_elapsed(records),
        max_elapsed_ms: max_elapsed(records),
        error_count: count_errors(records),
        status_200_count: count_status_200(records),
        status_4xx_count: count_status_4xx(records),
        status_5xx_count: count_status_5xx(records),
        hist_under_10: count_bucket(records, 0),
        hist_10_to_100: count_bucket(records, 1),
        hist_100_to_200: count_bucket(records, 2),
        hist_200_to_500: count_bucket(records, 3),
        hist_500_to_1000: count_bucket(records, 4),
        hist_1000_to_10000: count_bucket(records, 5),
        hist_10000_up: count_bucket(records, 6),
    }
}

/// The statistics stage: a report for a run with data, nothing for a run
/// without, so that no aggregate is ever divided out of an empty
/// dataset.
pub fn build_report(records: &Vec<ResultRecord>, now_ms: u64) -> (r: Option<StatsReport>)
    ensures
        r == if records@.len() == 0 {
            Option::<StatsReport>::None
        } else {
            Some(report_of(records@, now_ms))
        },
{
    if records.len() == 0 {
        None
    } else {
        Some(compute(records, now_ms))
    }
}

impl StatsReport {
    /// The throughput `total_requests / total_wall_time_ms * 1000` as an
    /// exact ratio: the numerator is the request count scaled to
    /// per-second, the denominator the wall time in milliseconds.
    pub fn requests_per_second_ratio(&self) -> (r: (u128, u64))
        ensures
            r.0 == self.total_requests * 1000,
            r.1 == self.total_wall_time_ms,
    {
        ((self.total_requests as u128) * 1000, self.total_wall_time_ms)
    }

    /// The bandwidth `total_bytes * 8 / (total_wall_time_ms * 1_000_000)`
    /// as an exact ratio, with the factor 8/1_000_000 reduced to
    /// 1/125_000 so that neither side can overflow.
    pub fn bandwidth_ratio(&self) -> (r: (u128, u128))
        ensures
            r.0 == self.total_bytes,
            r.1 == self.total_wall_time_ms * 125000,
    {
        (self.total_bytes, (self.total_wall_time_ms as u128) * 125000)
    }
}

/// Status buckets are mutually exclusive, a transport failure falls in
/// none of them, and their counts never exceed the requests that did not
/// fail: `status_200 + status_4xx + status_5xx <= total - errors`.
pub proof fn lemma_status_buckets(s: Seq<ResultRecord>)
    requires
        forall|i: int| 0 <= i < s.len() ==> (#[trigger] s[i]).wf(),
    ensures
        num_errors(s) <= s.len(),
        num_status_200(s) + num_status_4xx(s) + num_status_5xx(s) <= s.len() - num_errors(s),
        forall|r: ResultRecord| !(is_status_200(r) && is_status_4xx(r)),
        forall|r: ResultRecord| !(is_status_200(r) && is_status_5xx(r)),
        forall|r: ResultRecord| !(is_status_4xx(r) && is_status_5xx(r)),
    decreases s.len(),
{
    if s.len() > 0 {
        let rest = s.drop_last();
        assert(forall|i: int| 0 <= i < rest.len() ==> (#[trigger] rest[i]).wf()) by {
            assert(forall|i: int| 0 <= i < rest.len() ==> rest[i] == s[i]);
        }
        lemma_status_buckets(rest);
        let last = s.last();
        assert(last.wf());
        if last.is_error {
            assert(!is_status_200(last) && !is_status_4xx(last) && !is_status_5xx(last));
        }
    }
}

/// A weighted sum over the records, last record first.
spec fn sum_by(s: Seq<ResultRecord>, f: spec_fn(ResultRecord) -> nat) -> nat
    decreases s.len(),
{
    if s.len() == 0 {
        0
    } else {
        sum_by(s.drop_last(), f) + f(s.last())
    }
}

/// Removing one record takes exactly its weight out of the sum.
proof fn lemma_sum_by_remove(s: Seq<ResultRecord>, j: int, f: spec_fn(ResultRecord) -> nat)
    requires
        0 <= j < s.len(),
    ensures
        sum_by(s, f) == sum_by(s.remove(j), f) + f(s[j]),
    decreases s.len(),
{
    if j == s.len() - 1 {
        assert(s.remove(j) =~= s.drop_last());
    } else {
        assert(s.remove(j).drop_last() =~= s.drop_last().remove(j));
        assert(s.remove(j).last() == s.last());
        lemma_sum_by_remove(s.drop_last(), j, f);
    }
}

/// A weighted sum depends only on which records occur how often, not on
/// their order.
proof fn lemma_sum_by_permutation(
    s1: Seq<ResultRecord>,
    s2: Seq<ResultRecord>,
    f: spec_fn(ResultRecord) -> nat,
)
    requires
        s1.to_multiset() == s2.to_multiset(),
    ensures
        sum_by(s1, f) == sum_by(s2, f),
    decreases s1.len(),
{
    broadcast use vstd::seq_lib::group_to_multiset_ensures;

    assert(s1.len() == s1.to_multiset().len());
    assert(s2.len() == s2.to_multiset().len());
    if s1.len() > 0 {
        let x = s1.last();
        let j1 = s1.len() - 1;
        assert(s1[j1] == x);
        assert(s1.contains(x));
        assert(s2.to_multiset().count(x) > 0);
        assert(s2.contains(x));
        let j = choose|j: int| 0 <= j < s2.len() && s2[j] == x;
        assert(s1.remove(j1).to_multiset() =~= s1.to_multiset().remove(x));
        assert(s2.remove(j).to_multiset() =~= s2.to_multiset().remove(x));
        assert(s1.remove(j1) =~= s1.drop_last());
        lemma_sum_by_permutation(s1.drop_last(), s2.remove(j), f);
        lemma_sum_by_remove(s2, j, f);
    }
}

/// The elapsed sum written as a weighted sum.
proof fn lemma_elapsed_sum_as_sum_by(s: Seq<ResultRecord>)
    ensures
        elapsed_sum(s) == sum_by(s, |r: ResultRecord| r.elapsed_ms as nat),
    decreases s.len(),
{
    if s.len() > 0 {
        lemma_elapsed_sum_as_sum_by(s.drop_last());
    }
}

/// The squared elapsed sum written as a weighted sum.
proof fn lemma_elapsed_sq_sum_as_sum_by(s: Seq<ResultRecord>)
    ensures
        elapsed_sq_sum(s) == sum_by(s, |r: ResultRecord| (r.elapsed_ms * r.elapsed_ms) as nat),
    decreases s.len(),
{
    if s.len() > 0 {
        lemma_elapsed_sq_sum_as_sum_by(s.drop_last());
    }
}

/// The byte sum written as a weighted sum.
proof fn lemma_bytes_sum_as_sum_by(s: Seq<ResultRecord>)
    ensures
        bytes_sum(s) == sum_by(s, |r: ResultRecord| r.bytes_transferred as nat),
    decreases s.len(),
{
    if s.len() > 0 {
        lemma_bytes_sum_as_sum_by(s.drop_last());
    }
}

/// The error count written as a weighted sum.
proof fn lemma_num_errors_as_sum_by(s: Seq<ResultRecord>)
    ensures
        num_errors(s) == sum_by(
            s,
            |r: ResultRecord|
                if r.is_error {
                    1nat
                } else {
                    0nat
                },
        ),
    decreases s.len(),
{
    if s.len() > 0 {
        lemma_num_errors_as_sum_by(s.drop_last());
    }
}

/// The status-200 count written as a weighted sum.
proof fn lemma_num_status_200_as_sum_by(s: Seq<ResultRecord>)
    ensures
        num_status_200(s) == sum_by(
            s,
            |r: ResultRecord|
                if is_status_200(r) {
                    1nat
                } else {
                    0nat
                },
        ),
    decreases s.len(),
{
    if s.len() > 0 {
        lemma_num_status_200_as_sum_by(s.drop_last());
    }
}

/// The status-4xx count written as a weighted sum.
proof fn lemma_num_status_4xx_as_sum_by(s: Seq<ResultRecord>)
    ensures
        num_status_4xx(s) == sum_by(
            s,
            |r: ResultRecord|
                if is_status_4xx(r) {
                    1nat
                } else {
                    0nat
                },
        ),
    decreases s.len(),
{
    if s.len() > 0 {
        lemma_num_status_4xx_as_sum_by(s.drop_last());
    }
}

/// The status-5xx count written as a weighted sum.
proof fn lemma_num_status_5xx_as_sum_by(s: Seq<ResultRecord>)
    ensures
        num_status_5xx(s) == sum_by(
            s,
            |r: ResultRecord|
                if is_status_5xx(r) {
                    1nat
                } else {
                    0nat
                },
        ),
    decreases s.len(),
{
    if s.len() > 0 {
        lemma_num_status_5xx_as_sum_by(s.drop_last());
    }
}

/// A bucket count written as a weighted sum.
proof fn lemma_num_in_bucket_as_sum_by(s: Seq<ResultRecord>, k: int)
    ensures
        num_in_bucket(s, k) == sum_by(
            s,
            |r: ResultRecord|
                if bucket_of(r.elapsed_ms as nat) == k {
                    1nat
                } else {
                    0nat
                },
        ),
    decreases s.len(),
{
    if s.len() > 0 {
        lemma_num_in_bucket_as_sum_by(s.drop_last(), k);
    }
}

/// A bucket count is order-independent.
proof fn lemma_num_in_bucket_permutation(s1: Seq<ResultRecord>, s2: Seq<ResultRecord>, k: int)
    requires
        s1.to_multiset() == s2.to_multiset(),
    ensures
        num_in_bucket(s1, k) == num_in_bucket(s2, k),
{
    lemma_num_in_bucket_as_sum_by(s1, k);
    lemma_num_in_bucket_as_sum_by(s2, k);
    lemma_sum_by_permutation(
        s1,
        s2,
        |r: ResultRecord|
            if bucket_of(r.elapsed_ms as nat) == k {
                1nat
            } else {
                0nat
            },
    );
}

/// The smallest elapsed time is attained by some record and bounds all
/// of them.
proof fn lemma_elapsed_min_bounds(s: Seq<ResultRecord>)
    requires
        s.len() > 0,
    ensures
        exists|i: int| 0 <= i < s.len() && (#[trigger] s[i]).elapsed_ms == elapsed_min(s),
        forall|i: int| 0 <= i < s.len() ==> (#[trigger] s[i]).elapsed_ms >= elapsed_min(s),
    decreases s.len(),
{
    if s.len() == 1 {
        assert(s[0].elapsed_ms == elapsed_min(s));
    } else {
        lemma_elapsed_min_bounds(s.drop_last());
        if s.last().elapsed_ms < elapsed_min(s.drop_last()) {
            assert(s[s.len() - 1].elapsed_ms == elapsed_min(s));
        } else {
            let i = choose|i: int|
                0 <= i < s.drop_last().len() && (#[trigger] s.drop_last()[i]).elapsed_ms
                    == elapsed_min(s.drop_last());
            assert(s[i] == s.drop_last()[i]);
            assert(s[i].elapsed_ms == elapsed_min(s));
        }
        assert(forall|i: int| 0 <= i < s.len() - 1 ==> s[i] == s.drop_last()[i]);
    }
}

/// The largest elapsed time is attained by some record and bounds all of
/// them.
proof fn lemma_elapsed_max_bounds(s: Seq<ResultRecord>)
    requires
        s.len() > 0,
    ensures
        exists|i: int| 0 <= i < s.len() && (#[trigger] s[i]).elapsed_ms == elapsed_max(s),
        forall|i: int| 0 <= i < s.len() ==> (#[trigger] s[i]).elapsed_ms <= elapsed_max(s),
    decreases s.len(),
{
    if s.len() == 1 {
        assert(s[0].elapsed_ms == elapsed_max(s));
    } else {
        lemma_elapsed_max_bounds(s.drop_last());
        if s.last().elapsed_ms > elapsed_max(s.drop_last()) {
            assert(s[s.len() - 1].elapsed_ms == elapsed_max(s));
        } else {
            let i = choose|i: int|
                0 <= i < s.drop_last().len() && (#[trigger] s.drop_last()[i]).elapsed_ms
                    == elapsed_max(s.drop_last());
            assert(s[i] == s.drop_last()[i]);
            assert(s[i].elapsed_ms == elapsed_max(s));
        }
        assert(forall|i: int| 0 <= i < s.len() - 1 ==> s[i] == s.drop_last()[i]);
    }
}

/// The earliest start is attained by some record and bounds all of them.
proof fn lemma_start_min_bounds(s: Seq<ResultRecord>)
    requires
        s.len() > 0,
    ensures
        exists|i: int| 0 <= i < s.len() && (#[trigger] s[i]).start_ms == start_min(s),
        forall|i: int| 0 <= i < s.len() ==> (#[trigger] s[i]).start_ms >= start_min(s),
    decreases s.len(),
{
    if s.len() == 1 {
        assert(s[0].start_ms == start_min(s));
    } else {
        lemma_start_min_bounds(s.drop_last());
        if s.last().start_ms < start_min(s.drop_last()) {
            assert(s[s.len() - 1].start_ms == start_min(s));
        } else {
            let i = choose|i: int|
                0 <= i < s.drop_last().len() && (#[trigger] s.drop_last()[i]).start_ms == start_min(
                    s.drop_last(),
                );
            assert(s[i] == s.drop_last()[i]);
            assert(s[i].start_ms == start_min(s));
        }
        assert(forall|i: int| 0 <= i < s.len() - 1 ==> s[i] == s.drop_last()[i]);
    }
}

/// If one dataset holds a record, so does any rearrangement of it.
proof fn lemma_permutation_contains(s1: Seq<ResultRecord>, s2: Seq<ResultRecord>, i: int)
    requires
        s1.to_multiset() == s2.to_multiset(),
        0 <= i < s1.len(),
    ensures
        exists|j: int| 0 <= j < s2.len() && s2[j] == s1[i],
{
    broadcast use vstd::seq_lib::group_to_multiset_ensures;

    assert(s1.contains(s1[i]));
    assert(s2.to_multiset().count(s1[i]) > 0);
    assert(s2.contains(s1[i]));
}

/// The report is order-independent: two datasets holding the same
/// records equally often — however the workers' appends interleaved —
/// reduce to the same report.
pub proof fn lemma_report_order_independent(
    s1: Seq<ResultRecord>,
    s2: Seq<ResultRecord>,
    now_ms: u64,
)
    requires
        s1.to_multiset() == s2.to_multiset(),
    ensures
        report_of(s1, now_ms) == report_of(s2, now_ms),
{
    broadcast use vstd::seq_lib::group_to_multiset_ensures;

    assert(s1.len() == s1.to_multiset().len());
    assert(s2.len() == s2.to_multiset().len());
    lemma_elapsed_sum_as_sum_by(s1);
    lemma_elapsed_sum_as_sum_by(s2);
    lemma_sum_by_permutation(s1, s2, |r: ResultRecord| r.elapsed_ms as nat);
    lemma_bytes_sum_as_sum_by(s1);
    lemma_bytes_sum_as_sum_by(s2);
    lemma_sum_by_permutation(s1, s2, |r: ResultRecord| r.bytes_transferred as nat);
    lemma_num_errors_as_sum_by(s1);
    lemma_num_errors_as_sum_by(s2);
    lemma_sum_by_permutation(
        s1,
        s2,
        |r: ResultRecord|
            if r.is_error {
                1nat
            } else {
                0nat
            },
    );
    lemma_num_status_200_as_sum_by(s1);
    lemma_num_status_200_as_sum_by(s2);
    lemma_sum_by_permutation(
        s1,
        s2,
        |r: ResultRecord|
            if is_status_200(r) {
                1nat
            } else {
                0nat
            },
    );
    lemma_num_status_4xx_as_sum_by(s1);
    lemma_num_status_4xx_as_sum_by(s2);
    lemma_sum_by_permutation(
        s1,
        s2,
        |r: ResultRecord|
            if is_status_4xx(r) {
                1nat
            } else {
                0nat
            },
    );
    lemma_num_status_5xx_as_sum_by(s1);
    lemma_num_status_5xx_as_sum_by(s2);
    lemma_sum_by_permutation(
        s1,
        s2,
        |r: ResultRecord|
            if is_status_5xx(r) {
                1nat
            } else {
                0nat
            },
    );
    lemma_num_in_bucket_permutation(s1, s2, 0);
    lemma_num_in_bucket_permutation(s1, s2, 1);
    lemma_num_in_bucket_permutation(s1, s2, 2);
    lemma_num_in_bucket_permutation(s1, s2, 3);
    lemma_num_in_bucket_permutation(s1, s2, 4);
    lemma_num_in_bucket_permutation(s1, s2, 5);
    lemma_num_in_bucket_permutation(s1, s2, 6);
    if s1.len() == 0 {
        assert(s1 =~= s2);
    } else {
        lemma_elapsed_min_bounds(s1);
        lemma_elapsed_min_bounds(s2);
        lemma_elapsed_max_bounds(s1);
        lemma_elapsed_max_bounds(s2);
        lemma_start_min_bounds(s1);
        lemma_start_min_bounds(s2);
        let i1 = choose|i: int| 0 <= i < s1.len() && (#[trigger] s1[i]).elapsed_ms == elapsed_min(s1);
        lemma_permutation_contains(s1, s2, i1);
        let i2 = choose|i: int| 0 <= i < s2.len() && (#[trigger] s2[i]).elapsed_ms == elapsed_min(s2);
        lemma_permutation_contains(s2, s1, i2);
        assert(elapsed_min(s1) == elapsed_min(s2));
        let a1 = choose|i: int| 0 <= i < s1.len() && (#[trigger] s1[i]).elapsed_ms == elapsed_max(s1);
        lemma_permutation_contains(s1, s2, a1);
        let a2 = choose|i: int| 0 <= i < s2.len() && (#[trigger] s2[i]).elapsed_ms == elapsed_max(s2);
        lemma_permutation_contains(s2, s1, a2);
        assert(elapsed_max(s1) == elapsed_max(s2));
        let b1 = choose|i: int| 0 <= i < s1.len() && (#[trigger] s1[i]).start_ms == start_min(s1);
        lemma_permutation_contains(s1, s2, b1);
        let b2 = choose|i: int| 0 <= i < s2.len() && (#[trigger] s2[i]).start_ms == start_min(s2);
        lemma_permutation_contains(s2, s1, b2);
        assert(start_min(s1) == start_min(s2));
    }
}

/// The histogram is a partition: every elapsed time falls into exactly
/// one of the seven buckets, and the bucket counts sum to the record
/// count.
pub proof fn lemma_histogram_partition(s: Seq<ResultRecord>)
    ensures
        num_in_bucket(s, 0) + num_in_bucket(s, 1) + num_in_bucket(s, 2) + num_in_bucket(s, 3)
            + num_in_bucket(s, 4) + num_in_bucket(s, 5) + num_in_bucket(s, 6) == s.len(),
        forall|e: nat| 0 <= #[trigger] bucket_of(e) <= 6,
    decreases s.len(),
{
    if s.len() > 0 {
        lemma_histogram_partition(s.drop_last());
    }
}

} // verus!
