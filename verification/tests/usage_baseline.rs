use cc_switch_omo::database::Database;
use cc_switch_omo::omo::AppState;
use cc_switch_omo::usage::{RequestLog, UsageSummary};

fn create_empty_state() -> AppState {
    AppState::new(Database::new())
}

fn seed_usage_log(state: &mut AppState, request_id: &str, created_at_secs: i64) {
    state.db.insert_request_log(RequestLog {
        request_id: request_id.to_string(),
        provider_id: "provider-a".to_string(),
        app_type: "codex".to_string(),
        model: "haiku-4-5-20251001".to_string(),
        input_tokens: 120,
        output_tokens: 80,
        cache_read_tokens: 10,
        cache_creation_tokens: 5,
        status_code: 200,
        created_at: created_at_secs,
    });
}

fn success_rate(summary: &UsageSummary) -> f64 {
    if summary.total_requests == 0 {
        0.0
    } else {
        summary.successful_requests as f64 / summary.total_requests as f64 * 100.0
    }
}

#[test]
fn usage_baseline_summary_handles_seconds_window() {
    let mut state = create_empty_state();
    seed_usage_log(&mut state, "req-usage-baseline", 1_710_000_000);

    let summary = state
        .db
        .get_usage_summary(Some(1_709_999_000), Some(1_710_001_000));

    assert_eq!(summary.total_requests, 1, "usage summary");
    assert_eq!(summary.total_input_tokens, 120);
    assert_eq!(summary.total_output_tokens, 80);
    assert_eq!(summary.total_cache_read_tokens, 10);
    assert_eq!(summary.total_cache_creation_tokens, 5);
    assert_eq!(summary.successful_requests, 1);
    assert_eq!(success_rate(&summary), 100.0);
}

#[test]
fn usage_summary_excludes_requests_outside_the_window() {
    let mut state = create_empty_state();
    seed_usage_log(&mut state, "before", 1_709_998_999);
    seed_usage_log(&mut state, "at-start", 1_709_999_000);
    seed_usage_log(&mut state, "at-end", 1_710_001_000);
    seed_usage_log(&mut state, "after", 1_710_001_001);
    let summary = state
        .db
        .get_usage_summary(Some(1_709_999_000), Some(1_710_001_000));
    assert_eq!(summary.total_requests, 2);
    assert_eq!(summary.total_input_tokens, 240);
    assert_eq!(summary.total_cache_creation_tokens, 10);
    let open_ended = state.db.get_usage_summary(None, Some(1_710_001_000));
    assert_eq!(open_ended.total_requests, 3);
    let everything = state.db.get_usage_summary(None, None);
    assert_eq!(everything.total_requests, 4);
    assert_eq!(everything.total_output_tokens, 320);
}

#[test]
fn usage_summary_counts_only_2xx_as_successful() {
    let mut state = create_empty_state();
    seed_usage_log(&mut state, "ok", 100);
    state.db.insert_request_log(RequestLog {
        request_id: "failed".to_string(),
        provider_id: "provider-a".to_string(),
        app_type: "codex".to_string(),
        model: "m".to_string(),
        input_tokens: 1,
        output_tokens: 0,
        cache_read_tokens: 0,
        cache_creation_tokens: 0,
        status_code: 502,
        created_at: 101,
    });
    let summary = state.db.get_usage_summary(Some(0), Some(1_000));
    assert_eq!(summary.total_requests, 2);
    assert_eq!(summary.successful_requests, 1);
    assert_eq!(summary.total_input_tokens, 121);
    assert_eq!(success_rate(&summary), 50.0);
}

#[test]
fn usage_summary_of_empty_log_is_zero() {
    let state = create_empty_state();
    let summary = state.db.get_usage_summary(None, None);
    assert_eq!(summary.total_requests, 0);
    assert_eq!(summary.successful_requests, 0);
    assert_eq!(summary.total_input_tokens, 0);
}
