use vstd::prelude::*;

verus! {

/// One proxied request, as the usage log records it. `created_at` is a Unix
/// timestamp in seconds.
pub struct RequestLog {
    pub request_id: String,
    pub provider_id: String,
    pub app_type: String,
    pub model: String,
    pub input_tokens: u64,
    pub output_tokens: u64,
    pub cache_read_tokens: u64,
    pub cache_creation_tokens: u64,
    pub status_code: u16,
    pub created_at: i64,
}

/// The mathematical value of a [`RequestLog`].
pub struct LogView {
    pub request_id: Seq<char>,
    pub provider_id: Seq<char>,
    pub app_type: Seq<char>,
    pub model: Seq<char>,
    pub input_tokens: nat,
    pub output_tokens: nat,
    pub cache_read_tokens: nat,
    pub cache_creation_tokens: nat,
    pub status_code: int,
    pub created_at: int,
}

impl View for RequestLog {
    type V = LogView;

    open spec fn view(&self) -> LogView {
        LogView {
            request_id: self.request_id@,
            provider_id: self.provider_id@,
            app_type: self.app_type@,
            model: self.model@,
            input_tokens: self.input_tokens as nat,
            output_tokens: self.output_tokens as nat,
            cache_read_tokens: self.cache_read_tokens as nat,
            cache_creation_tokens: self.cache_creation_tokens as nat,
            status_code: self.status_code as int,
            created_at: self.created_at as int,
        }
    }
}

/// Totals over the requests of a time window.
pub struct UsageSummary {
    pub total_requests: u64,
    pub successful_requests: u64,
    pub total_input_tokens: u128,
    pub total_output_tokens: u128,
    pub total_cache_read_tokens: u128,
    pub total_cache_creation_tokens: u128,
}

/// The mathematical value of a [`UsageSummary`].
pub struct SummaryView {
    pub requests: nat,
    pub successful: nat,
    pub input_tokens: nat,
    pub output_tokens: nat,
    pub cache_read_tokens: nat,
    pub cache_creation_tokens: nat,
}

impl View for UsageSummary {
    type V = SummaryView;

    open spec fn view(&self) -> SummaryView {
        SummaryView {
            requests: self.total_requests as nat,
            successful: self.successful_requests as nat,
            input_tokens: self.total_input_tokens as nat,
            output_tokens: self.total_output_tokens as nat,
            cache_read_tokens: self.total_cache_read_tokens as nat,
            cache_creation_tokens: self.total_cache_creation_tokens as nat,
        }
    }
}

/// The views of a sequence of request logs.
pub open spec fn logs_view(ls: Seq<RequestLog>) -> Seq<LogView> {
    ls.map_values(|l: RequestLog| l@)
}

/// Whether a request was made inside the window: at or after `start` and at
/// or before `end`, a missing bound leaving that side open.
pub open spec fn in_window(l: LogView, start: Option<i64>, end: Option<i64>) -> bool {
    &&& match start {
        Some(s) => l.created_at >= s,
        None => true,
    }
    &&& match end {
        Some(e) => l.created_at <= e,
        None => true,
    }
}

/// Whether a request succeeded: its status code is in the 2xx range.
pub open spec fn is_success(l: LogView) -> bool {
    200 <= l.status_code < 300
}

/// The summary with nothing counted.
pub open spec fn empty_summary() -> SummaryView {
    SummaryView {
        requests: 0,
        successful: 0,
        input_tokens: 0,
        output_tokens: 0,
        cache_read_tokens: 0,
        cache_creation_tokens: 0,
    }
}

/// Summary `s` with request `l` counted in.
pub open spec fn count_in(s: SummaryView, l: LogView) -> SummaryView {
    SummaryView {
        requests: s.requests + 1,
        successful: if is_success(l) {
            s.successful + 1
        } else {
            s.successful
        },
        input_tokens: s.input_tokens + l.input_tokens,
        output_tokens: s.output_tokens + l.output_tokens,
        cache_read_tokens: s.cache_read_tokens + l.cache_read_tokens,
        cache_creation_tokens: s.cache_creation_tokens + l.cache_creation_tokens,
    }
}

/// The totals over the requests of `ls` that fall inside the window.
pub open spec fn summary_of(ls: Seq<LogView>, start: Option<i64>, end: Option<i64>) -> SummaryView
    decreases ls.len(),
{
    if ls.len() == 0 {
        empty_summary()
    } else if in_window(ls.last(), start, end) {
        count_in(summary_of(ls.drop_last(), start, end), ls.last())
    } else {
        summary_of(ls.drop_last(), start, end)
    }
}

/// Over `n` requests whose token counts each fit in a `u64`, each token total
/// of a summary is at most `n` times `u64::MAX`.
pub proof fn lemma_summary_bounds(ls: Seq<LogView>, start: Option<i64>, end: Option<i64>)
    requires
        forall|i: int|
            0 <= i < ls.len() ==> {
                &&& #[trigger] ls[i].input_tokens <= u64::MAX
                &&& ls[i].output_tokens <= u64::MAX
                &&& ls[i].cache_read_tokens <= u64::MAX
                &&& ls[i].cache_creation_tokens <= u64::MAX
            },
    ensures
        summary_of(ls, start, end).input_tokens <= ls.len() * u64::MAX,
        summary_of(ls, start, end).output_tokens <= ls.len() * u64::MAX,
        summary_of(ls, start, end).cache_read_tokens <= ls.len() * u64::MAX,
        summary_of(ls, start, end).cache_creation_tokens <= ls.len() * u64::MAX,
    decreases ls.len(),
{
    if ls.len() > 0 {
        let prefix = ls.drop_last();
        assert forall|i: int| 0 <= i < prefix.len() implies #[trigger] prefix[i].input_tokens
            <= u64::MAX && prefix[i].output_tokens <= u64::MAX && prefix[i].cache_read_tokens
            <= u64::MAX && prefix[i].cache_creation_tokens <= u64::MAX by {
            assert(prefix[i] == ls[i]);
        }
        lemma_summary_bounds(prefix, start, end);
        let l = ls.last();
        assert(l == ls[ls.len() - 1]);
        assert(ls.len() * u64::MAX == prefix.len() * u64::MAX + u64::MAX) by (nonlinear_arith)
            requires
                ls.len() == prefix.len() + 1,
        ;
    }
}

/// Totals the requests of `logs` that fall inside the window from `start` to
/// `end` (inclusive on both sides; a missing bound leaves that side open).
pub fn summarize(logs: &Vec<RequestLog>, start: Option<i64>, end: Option<i64>) -> (s: UsageSummary)
    ensures
        s@ == summary_of(logs_view(logs@), start, end),
{
    let ghost ls = logs_view(logs@);
    let mut total_requests: u64 = 0;
    let mut successful_requests: u64 = 0;
    let mut total_input_tokens: u128 = 0;
    let mut total_output_tokens: u128 = 0;
    let mut total_cache_read_tokens: u128 = 0;
    let mut total_cache_creation_tokens: u128 = 0;
    let mut i: usize = 0;
    while i < logs.len()
        invariant
            i <= logs.len(),
            ls == logs_view(logs@),
            (UsageSummary {
                total_requests,
                successful_requests,
                total_input_tokens,
                total_output_tokens,
                total_cache_read_tokens,
                total_cache_creation_tokens,
            })@ == summary_of(ls.take(i as int), start, end),
        decreases logs.len() - i,
    {
        let ghost prefix = ls.take(i as int);
        let ghost next = ls.take(i + 1);
        proof {
            assert(next.drop_last() =~= prefix);
            assert(next.last() == logs@[i as int]@);
            assert forall|k: int| 0 <= k < next.len() implies #[trigger] next[k].input_tokens
                <= u64::MAX && next[k].output_tokens <= u64::MAX && next[k].cache_read_tokens
                <= u64::MAX && next[k].cache_creation_tokens <= u64::MAX by {
                assert(next[k] == logs@[k]@);
            }
            lemma_summary_bounds(next, start, end);
            law_summary_counts(next, start, end);
            assert(next.len() <= usize::MAX);
            assert(next.len() * u64::MAX <= usize::MAX * u64::MAX) by (nonlinear_arith)
                requires
                    next.len() <= usize::MAX,
            ;
            assert(usize::MAX * u64::MAX < u128::MAX) by (nonlinear_arith)
                requires
                    usize::MAX <= u64::MAX,
            ;
        }
        let log = &logs[i];
        let after_start = match start {
            Some(s) => log.created_at >= s,
            None => true,
        };
        let before_end = match end {
            Some(e) => log.created_at <= e,
            None => true,
        };
        if after_start && before_end {
            total_requests = total_requests + 1;
            if 200 <= log.status_code && log.status_code < 300 {
                successful_requests = successful_requests + 1;
            }
            total_input_tokens = total_input_tokens + log.input_tokens as u128;
            total_output_tokens = total_output_tokens + log.output_tokens as u128;
            total_cache_read_tokens = total_cache_read_tokens + log.cache_read_tokens as u128;
            total_cache_creation_tokens = total_cache_creation_tokens
                + log.cache_creation_tokens as u128;
        }
        i = i + 1;
    }
    proof {
        assert(ls.take(i as int) =~= ls);
    }
    UsageSummary {
        total_requests,
        successful_requests,
        total_input_tokens,
        total_output_tokens,
        total_cache_read_tokens,
        total_cache_creation_tokens,
    }
}

/// A summary counts no more successful requests than requests, and no more
/// requests than were logged.
pub proof fn law_summary_counts(ls: Seq<LogView>, start: Option<i64>, end: Option<i64>)
    ensures
        summary_of(ls, start, end).successful <= summary_of(ls, start, end).requests <= ls.len(),
    decreases ls.len(),
{
    if ls.len() > 0 {
        law_summary_counts(ls.drop_last(), start, end);
    }
}

/// Logging one more request changes the summary of a window only when the
/// request falls inside it, and then counts exactly that request in.
pub proof fn law_summary_after_log(ls: Seq<LogView>, l: LogView, start: Option<i64>, end: Option<i64>)
    ensures
        summary_of(ls.push(l), start, end) == if in_window(l, start, end) {
            count_in(summary_of(ls, start, end), l)
        } else {
            summary_of(ls, start, end)
        },
{
    assert(ls.push(l).drop_last() =~= ls);
}

/// A window without bounds counts every logged request.
pub proof fn law_unbounded_window_counts_all(ls: Seq<LogView>)
    ensures
        summary_of(ls, None, None).requests == ls.len(),
    decreases ls.len(),
{
    if ls.len() > 0 {
        law_unbounded_window_counts_all(ls.drop_last());
    }
}

/// A logged request whose status code is outside 200..=299 never adds to the
/// successful count; one inside that range, made inside the window, adds one.
pub proof fn law_only_2xx_successful(ls: Seq<LogView>, l: LogView, start: Option<i64>, end: Option<i64>)
    ensures
        !(200 <= l.status_code <= 299) ==> summary_of(ls.push(l), start, end).successful
            == summary_of(ls, start, end).successful,
        (200 <= l.status_code <= 299 && (start matches Some(s) ==> l.created_at >= s) && (
        end matches Some(e) ==> l.created_at <= e)) ==> summary_of(ls.push(l), start, end).successful
            == summary_of(ls, start, end).successful + 1,
{
    assert(ls.push(l).drop_last() =~= ls);
}

/// A request made before the start of the window is never counted, whatever the end.
pub proof fn law_before_start_not_counted(ls: Seq<LogView>, l: LogView, s: i64, end: Option<i64>)
    requires
        l.created_at < s,
    ensures
        summary_of(ls.push(l), Some(s), end) == summary_of(ls, Some(s), end),
{
    assert(ls.push(l).drop_last() =~= ls);
}

/// A request made after the end of the window is never counted, whatever the start.
pub proof fn law_after_end_not_counted(ls: Seq<LogView>, l: LogView, start: Option<i64>, e: i64)
    requires
        l.created_at > e,
    ensures
        summary_of(ls.push(l), start, Some(e)) == summary_of(ls, start, Some(e)),
{
    assert(ls.push(l).drop_last() =~= ls);
}

/// A request made inside the window (at or after a given start, at or before a
/// given end) is counted once, with all its tokens.
pub proof fn law_in_window_counted(ls: Seq<LogView>, l: LogView, start: Option<i64>, end: Option<i64>)
    requires
        start matches Some(s) ==> l.created_at >= s,
        end matches Some(e) ==> l.created_at <= e,
    ensures
        summary_of(ls.push(l), start, end).requests == summary_of(ls, start, end).requests + 1,
        summary_of(ls.push(l), start, end).input_tokens == summary_of(ls, start, end).input_tokens
            + l.input_tokens,
        summary_of(ls.push(l), start, end).output_tokens == summary_of(ls, start, end).output_tokens
            + l.output_tokens,
        summary_of(ls.push(l), start, end).cache_read_tokens == summary_of(
            ls,
            start,
            end,
        ).cache_read_tokens + l.cache_read_tokens,
        summary_of(ls.push(l), start, end).cache_creation_tokens == summary_of(
            ls,
            start,
            end,
        ).cache_creation_tokens + l.cache_creation_tokens,
{
    assert(ls.push(l).drop_last() =~= ls);
}

} // verus!
