use codex_console::billing::{build_quota_from_api_key_billing, BillingAmounts};
use codex_console::errors::{
    api_error_message, build_usage_error, extract_detail_code_from_body,
    extract_error_code_from_message, read_service_reply, read_status_reply,
    should_force_refresh_token,
};
use codex_console::json::Json;
use codex_console::json_text::parse_json;
use codex_console::quota::{
    account_id_header, authorization_header, fetch_quota, fetch_quota_at, normalize_remaining_percentage,
    normalize_reset_time, normalize_window_minutes, parse_quota_from_usage, quota_from_usage_at,
    reset_time_at, should_refresh_account_in_batch, sync_plan_type_from_token, write_quota_error,
    write_quota_error_at, CodexAccount, CodexQuota, CodexTokens, FetchQuotaResult, RateLimitInfo,
    UsageResponse, WindowInfo,
};
use codex_console::refresh::{
    accounts_to_refresh, after_save, refresh_all_quotas, refresh_api_key_account_quota, AfterSave,
    QuotaRefresh, RefreshPhase, RefreshStep,
};

fn window(used: Option<i32>, seconds: Option<i64>, after: Option<i64>, at: Option<i64>) -> WindowInfo {
    WindowInfo {
        used_percent: used,
        limit_window_seconds: seconds,
        reset_after_seconds: after,
        reset_at: at,
    }
}

fn usage(primary: Option<WindowInfo>, secondary: Option<WindowInfo>) -> UsageResponse {
    UsageResponse {
        plan_type: Some("plus".to_string()),
        rate_limit: Some(RateLimitInfo {
            allowed: Some(true),
            limit_reached: None,
            primary_window: primary,
            secondary_window: secondary,
        }),
        code_review_rate_limit: None,
    }
}

fn account() -> CodexAccount {
    CodexAccount {
        id: "a".to_string(),
        email: "e".to_string(),
        api_key_auth: false,
        plan_type: None,
        account_id: None,
        tokens: CodexTokens {
            id_token: "id".to_string(),
            access_token: "access".to_string(),
            refresh_token: Some("refresh".to_string()),
        },
        openai_api_key: None,
        api_base_url: None,
        api_console_token: None,
        quota: None,
        quota_error: None,
        usage_updated_at: None,
    }
}

fn quota() -> CodexQuota {
    quota_from_usage_at(&usage(None, None), "{}", 0)
}

fn fetched(plan: Option<&str>) -> FetchQuotaResult {
    FetchQuotaResult { quota: quota(), plan_type: plan.map(str::to_string) }
}

fn tokens() -> CodexTokens {
    CodexTokens {
        id_token: "new id".to_string(),
        access_token: "new access".to_string(),
        refresh_token: None,
    }
}

// Errors

#[test]
fn error_codes_are_found_in_replies() {
    let code = |body: &str| extract_detail_code_from_body(body);
    assert_eq!(code("{\"detail\":{\"code\":\"d\"},\"error\":{\"code\":\"e\"},\"code\":\"c\"}"), Some("d".to_string()));
    assert_eq!(code("{\"detail\":{},\"error\":{\"code\":\"e\"},\"code\":\"c\"}"), Some("e".to_string()));
    assert_eq!(code("{\"error\":\"x\",\"code\":\"c\"}"), Some("c".to_string()));
    assert_eq!(code("{\"code\":1}"), None);
    assert_eq!(code("no json"), None);
}

#[test]
fn error_codes_are_found_in_messages() {
    let code = |message: &str| extract_error_code_from_message(message);
    assert_eq!(code("x [error_code:abc] y]"), Some("abc".to_string()));
    assert_eq!(code("[error_code:][error_code:b]"), Some("".to_string()));
    assert_eq!(code("[error_code:abc"), None);
    assert_eq!(code("错误 [error_code:码]"), Some("码".to_string()));
    assert_eq!(code("plain"), None);
}

#[test]
fn codes_in_replies_are_found_in_the_message_about_them() {
    let message = build_usage_error("401 Unauthorized", "{\"detail\":{\"code\":\"token_invalidated\"}}");
    assert_eq!(
        message,
        "API 返回错误 401 Unauthorized [error_code:token_invalidated] [body_len:39]"
    );
    assert_eq!(extract_error_code_from_message(&message), Some("token_invalidated".to_string()));
    assert_eq!(build_usage_error("500", "é"), "API 返回错误 500 [body_len:2]");
}

#[test]
fn refused_tokens_are_recognised() {
    assert!(should_force_refresh_token("... Token_Invalidated ..."));
    assert!(should_force_refresh_token("YOUR authentication token has been INVALIDATED"));
    assert!(should_force_refresh_token("API 返回错误 401 UNAUTHORIZED"));
    assert!(!should_force_refresh_token("401"));
    assert!(!should_force_refresh_token(""));
}

#[test]
fn errors_are_told_by_replies() {
    let told = |text: &str| api_error_message(&parse_json(text).unwrap());
    assert_eq!(told("{\"error\":{\"message\":\"m\"}}"), Some("m".to_string()));
    assert_eq!(told("{\"error\":\"t\"}"), Some("t".to_string()));
    assert_eq!(told("{\"error\":{\"b\":1,\"a\":[true]}}"), Some("{\"a\":[true],\"b\":1}".to_string()));
    assert_eq!(told("{\"error\":false}"), Some("false".to_string()));
    assert_eq!(told("{\"error\":null}"), None);
    assert_eq!(told("{}"), None);
    assert_eq!(told("[]"), None);
}

#[test]
fn replies_of_services_are_read() {
    assert_eq!(read_service_reply("u", true, "200 OK", "{\"a\":1}"), Ok(parse_json("{\"a\":1}").unwrap()));
    assert_eq!(
        read_service_reply("u", false, "404 Not Found", "abc"),
        Err("u 返回 404 Not Found [body_len:3]".to_string())
    );
    assert_eq!(
        read_service_reply("u", true, "200 OK", "x"),
        Err("解析 JSON 失败: expected value at line 1 column 1".to_string())
    );
    assert_eq!(
        read_service_reply("u", true, "200 OK", "{\"error\":\"no\"}"),
        Err("u 返回错误: no".to_string())
    );
}

#[test]
fn replies_of_status_pages_are_read() {
    assert_eq!(read_status_reply("u", true, "200 OK", "{}"), Ok(parse_json("{}").unwrap()));
    assert_eq!(
        read_status_reply("u", false, "500", ""),
        Err("u 杩斿洖 500 [body_len:0]".to_string())
    );
    assert_eq!(
        read_status_reply("u", true, "200", "x"),
        Err("瑙ｆ瀽 JSON 澶辫触: expected value at line 1 column 1".to_string())
    );
    assert_eq!(
        read_status_reply("u", true, "200", "{\"error\":\"no\"}"),
        Err("u 杩斿洖閿欒: no".to_string())
    );
}

// Windows

#[test]
fn percentages_stay_between_nothing_and_all() {
    let left = |used: Option<i32>| normalize_remaining_percentage(&window(used, None, None, None));
    assert_eq!(left(None), 100);
    assert_eq!(left(Some(0)), 100);
    assert_eq!(left(Some(30)), 70);
    assert_eq!(left(Some(100)), 0);
    assert_eq!(left(Some(i32::MAX)), 0);
    assert_eq!(left(Some(i32::MIN)), 100);
}

#[test]
fn minutes_are_rounded_up() {
    let minutes = |seconds: Option<i64>| normalize_window_minutes(&window(None, seconds, None, None));
    assert_eq!(minutes(None), None);
    assert_eq!(minutes(Some(0)), None);
    assert_eq!(minutes(Some(-60)), None);
    assert_eq!(minutes(Some(1)), Some(1));
    assert_eq!(minutes(Some(60)), Some(1));
    assert_eq!(minutes(Some(61)), Some(2));
    assert_eq!(minutes(Some(18000)), Some(300));
    assert_eq!(minutes(Some(i64::MAX - 59)), Some(i64::MAX / 60));
}

#[test]
fn windows_begin_anew() {
    assert_eq!(reset_time_at(&window(None, None, Some(7), Some(5)), 100), Some(5));
    assert_eq!(reset_time_at(&window(None, None, Some(7), None), 100), Some(107));
    assert_eq!(reset_time_at(&window(None, None, Some(0), None), 100), Some(100));
    assert_eq!(reset_time_at(&window(None, None, Some(-1), None), 100), None);
    assert_eq!(reset_time_at(&window(None, None, None, None), 100), None);
    assert_eq!(normalize_reset_time(&window(None, None, None, Some(-3))), Some(-3));
    assert!(normalize_reset_time(&window(None, None, Some(10), None)).unwrap() > 1_600_000_000);
}

#[test]
fn quotas_are_read_from_replies() {
    let u = usage(
        Some(window(Some(25), Some(18000), Some(60), None)),
        Some(window(Some(140), None, None, Some(9))),
    );
    let q = quota_from_usage_at(&u, "{\"x\":1}", 1000);
    assert_eq!((q.hourly_percentage, q.weekly_percentage), (75, 0));
    assert_eq!((q.hourly_reset_time, q.weekly_reset_time), (Some(1060), Some(9)));
    assert_eq!((q.hourly_window_minutes, q.weekly_window_minutes), (Some(300), None));
    assert_eq!((q.hourly_window_present, q.weekly_window_present), (Some(true), Some(true)));
    assert_eq!(q.raw_data, Some(parse_json("{\"x\":1}").unwrap()));
}

#[test]
fn windows_that_are_missing_are_whole() {
    let none = UsageResponse { plan_type: None, rate_limit: None, code_review_rate_limit: None };
    let q = parse_quota_from_usage(&none, "no json");
    assert_eq!((q.hourly_percentage, q.weekly_percentage), (100, 100));
    assert_eq!((q.hourly_window_present, q.weekly_window_present), (Some(false), Some(false)));
    assert_eq!((q.hourly_reset_time, q.hourly_window_minutes), (None, None));
    assert_eq!(q.raw_data, None);
}

#[test]
fn quotas_are_fetched() {
    let r = fetch_quota_at(true, "200 OK", "{}", Ok(usage(None, None)), 5).unwrap();
    assert_eq!(r.plan_type, Some("plus".to_string()));
    assert_eq!(r.quota, quota());
    assert_eq!(fetch_quota(true, "200 OK", "{}", Ok(usage(None, None))), Ok(r));
    assert_eq!(
        fetch_quota(true, "200 OK", "", Err("why".to_string())),
        Err("解析 JSON 失败: why".to_string())
    );
    assert_eq!(
        fetch_quota(false, "403 Forbidden", "{\"code\":\"c\"}", Ok(usage(None, None))),
        Err("API 返回错误 403 Forbidden [error_code:c] [body_len:12]".to_string())
    );
}

#[test]
fn requests_name_the_account() {
    assert_eq!(account_id_header(Some("k"), Some("t")), Some("k".to_string()));
    assert_eq!(account_id_header(None, Some("t")), Some("t".to_string()));
    assert_eq!(account_id_header(Some(""), Some("t")), None);
    assert_eq!(account_id_header(None, None), None);
    assert_eq!(authorization_header("x"), "Bearer x");
}

// Accounts

#[test]
fn errors_are_noted_down() {
    let mut a = account();
    write_quota_error_at(&mut a, "m [error_code:c]".to_string(), 7);
    let info = a.quota_error.as_ref().unwrap();
    assert_eq!(info.code, Some("c".to_string()));
    assert_eq!(info.message, "m [error_code:c]");
    assert_eq!(info.timestamp, 7);
    write_quota_error(&mut a, "n".to_string());
    let info = a.quota_error.as_ref().unwrap();
    assert_eq!(info.code, None);
    assert!(info.timestamp > 1_600_000_000);
}

#[test]
fn plans_are_taken_over() {
    let mut a = account();
    assert!(!sync_plan_type_from_token(&mut a, None));
    assert_eq!(a, account());
    assert!(sync_plan_type_from_token(&mut a, Some("p".to_string())));
    assert_eq!(a.plan_type, Some("p".to_string()));
    assert!(!sync_plan_type_from_token(&mut a, Some("p".to_string())));
    assert!(!sync_plan_type_from_token(&mut a, None));
    assert_eq!(a.plan_type, Some("p".to_string()));
}

#[test]
fn keys_are_not_asked_too_often() {
    let mut a = account();
    assert!(should_refresh_account_in_batch(&a, 0));
    a.api_key_auth = true;
    assert!(!should_refresh_account_in_batch(&a, 0));
    a.api_base_url = Some(" ".to_string());
    assert!(!should_refresh_account_in_batch(&a, 0));
    a.api_base_url = Some("u".to_string());
    assert!(should_refresh_account_in_batch(&a, 0));
    a.usage_updated_at = Some(100);
    assert!(!should_refresh_account_in_batch(&a, 999));
    assert!(should_refresh_account_in_batch(&a, 1000));
    a.usage_updated_at = Some(i64::MIN);
    assert!(should_refresh_account_in_batch(&a, i64::MAX));
    a.usage_updated_at = Some(i64::MAX);
    assert!(!should_refresh_account_in_batch(&a, i64::MIN));
}

// Refreshes

#[test]
fn unknown_accounts_are_refused() {
    assert_eq!(QuotaRefresh::begin("x", None, false, 1), Err("账号不存在: x".to_string()));
}

#[test]
fn quotas_are_asked_for_at_once() {
    let (mut run, step) = QuotaRefresh::begin("a", Some(account()), false, 1).unwrap();
    assert_eq!(step, RefreshStep::Fetch);
    let step = run.on_quota(Ok(fetched(Some("plus"))), 50);
    assert_eq!(step, RefreshStep::SaveThenSucceed { quota: quota(), plan_changed: true });
    assert_eq!(run.account.quota, Some(quota()));
    assert_eq!(run.account.quota_error, None);
    assert_eq!(run.account.usage_updated_at, Some(50));
    assert_eq!(run.account.plan_type, Some("plus".to_string()));
}

#[test]
fn keys_are_asked_elsewhere() {
    let mut a = account();
    a.api_key_auth = true;
    let (run, step) = QuotaRefresh::begin("a", Some(a), true, 1).unwrap();
    assert_eq!(step, RefreshStep::AskApiKey);
    assert_eq!(run.phase, RefreshPhase::First);
}

#[test]
fn tokens_that_ran_out_are_renewed_first() {
    let (mut run, step) = QuotaRefresh::begin("a", Some(account()), true, 1).unwrap();
    assert_eq!(
        step,
        RefreshStep::RefreshTokens {
            refresh_token: "refresh".to_string(),
            id_token: "id".to_string(),
            reason: "Token 已过期".to_string(),
        }
    );
    let step = run.on_tokens(Ok(tokens()), Some(Some("pro".to_string())), 2);
    assert_eq!(step, RefreshStep::SaveThenFetch { plan_changed: true });
    assert_eq!(run.account.tokens, tokens());
    assert_eq!(run.phase, RefreshPhase::First);
    let step = run.on_quota(Err("401 Unauthorized".to_string()), 3);
    assert_eq!(run.phase, RefreshPhase::Forced);
    let message = "配额接口返回 Token 失效，且账号缺少 refresh_token";
    assert_eq!(step, RefreshStep::SaveThenFail { message: message.to_string() });
    assert_eq!(run.account.quota_error.unwrap().message, message);
}

#[test]
fn accounts_without_a_refresh_token_fail() {
    let mut a = account();
    a.tokens.refresh_token = None;
    let (run, step) = QuotaRefresh::begin("a", Some(a), true, 9).unwrap();
    let message = "Token 已过期，且账号缺少 refresh_token";
    assert_eq!(step, RefreshStep::SaveThenFail { message: message.to_string() });
    assert_eq!(run.account.quota_error.unwrap().timestamp, 9);
}

#[test]
fn tokens_that_cannot_be_renewed_are_an_error() {
    let (mut run, _) = QuotaRefresh::begin("a", Some(account()), true, 1).unwrap();
    let step = run.on_tokens(Err("why".to_string()), None, 2);
    let message = "Token 已过期，刷新 Token 失败: why";
    assert_eq!(step, RefreshStep::SaveThenFail { message: message.to_string() });
    assert_eq!(run.account.quota_error.unwrap().message, message);
    assert_eq!(run.account.tokens, account().tokens);
}

#[test]
fn refused_tokens_are_renewed_once() {
    let (mut run, _) = QuotaRefresh::begin("a", Some(account()), false, 1).unwrap();
    let step = run.on_quota(Err("token_invalidated".to_string()), 2);
    assert!(matches!(step, RefreshStep::RefreshTokens { .. }));
    let mut renewed = tokens();
    renewed.refresh_token = Some("again".to_string());
    let step = run.on_tokens(Ok(renewed), None, 3);
    assert_eq!(step, RefreshStep::SaveThenFetch { plan_changed: false });
    assert_eq!(run.phase, RefreshPhase::Retry);
    let step = run.on_quota(Err("token_invalidated".to_string()), 4);
    assert_eq!(step, RefreshStep::SaveThenFail { message: "token_invalidated".to_string() });
    assert_eq!(run.account.quota_error.unwrap().timestamp, 4);
}

#[test]
fn renewals_after_a_refusal_can_fail() {
    let (mut run, _) = QuotaRefresh::begin("a", Some(account()), false, 1).unwrap();
    run.on_quota(Err("401 unauthorized".to_string()), 2);
    let step = run.on_tokens(Err("why".to_string()), None, 3);
    let message = "配额接口返回 Token 失效，刷新 Token 失败: why".to_string();
    assert_eq!(step, RefreshStep::SaveThenFail { message });
}

#[test]
fn other_errors_end_a_refresh() {
    let mut a = account();
    a.quota = Some(quota());
    let (mut run, _) = QuotaRefresh::begin("a", Some(a), false, 1).unwrap();
    let step = run.on_quota(Err("boom".to_string()), 2);
    assert_eq!(step, RefreshStep::SaveThenFail { message: "boom".to_string() });
    assert_eq!(run.account.quota, Some(quota()));
    assert_eq!(run.account.usage_updated_at, None);
}

#[test]
fn quotas_of_keys_are_noted_down() {
    let mut a = account();
    write_quota_error_at(&mut a, "old".to_string(), 1);
    let step = refresh_api_key_account_quota(&mut a, Ok(quota()), 5);
    assert_eq!(step, RefreshStep::SaveThenSucceed { quota: quota(), plan_changed: false });
    assert_eq!((a.quota_error.is_none(), a.usage_updated_at), (true, Some(5)));
    let step = refresh_api_key_account_quota(&mut a, Err("boom".to_string()), 6);
    assert_eq!(step, RefreshStep::SaveThenFail { message: "boom".to_string() });
    assert_eq!(a.quota, Some(quota()));
    assert_eq!(a.quota_error.as_ref().unwrap().message, "boom");
    assert_eq!(a.usage_updated_at, Some(6));
    refresh_api_key_account_quota(&mut a, Err("是无限 Key 额度，".to_string()), 7);
    assert_eq!(a.quota, None);
}

#[test]
fn refreshes_end_once_their_account_was_saved() {
    let failed = || RefreshStep::SaveThenFail { message: "m".to_string() };
    assert_eq!(after_save(failed(), Ok(())), AfterSave::End(Err("m".to_string())));
    assert_eq!(after_save(failed(), Err("s".to_string())), AfterSave::End(Err("m".to_string())));
    let done = || RefreshStep::SaveThenSucceed { quota: quota(), plan_changed: false };
    assert_eq!(after_save(done(), Ok(())), AfterSave::End(Ok(quota())));
    assert_eq!(after_save(done(), Err("s".to_string())), AfterSave::End(Err("s".to_string())));
    let renewed = || RefreshStep::SaveThenFetch { plan_changed: false };
    assert_eq!(after_save(renewed(), Ok(())), AfterSave::GoOn(RefreshStep::Fetch));
    assert_eq!(after_save(RefreshStep::AskApiKey, Ok(())), AfterSave::GoOn(RefreshStep::AskApiKey));
    assert_eq!(after_save(renewed(), Err("s".to_string())), AfterSave::End(Err("s".to_string())));
}

#[test]
fn batches_take_the_accounts_in_order() {
    let mut key = account();
    key.id = "key".to_string();
    key.api_key_auth = true;
    let mut other = account();
    other.id = "b".to_string();
    assert_eq!(accounts_to_refresh(&vec![account(), key, other], 0), vec!["a", "b"]);
}

#[test]
fn batches_keep_their_results() {
    let results = || {
        vec![
            Ok(("a".to_string(), Ok(quota()))),
            Ok(("b".to_string(), Err("boom".to_string()))),
        ]
    };
    let done = refresh_all_quotas(results()).unwrap();
    assert_eq!(done.len(), 2);
    assert_eq!(done[1], ("b".to_string(), Err("boom".to_string())));
    let mut with_error = results();
    with_error.push(Err("first".to_string()));
    with_error.push(Err("second".to_string()));
    assert_eq!(refresh_all_quotas(with_error), Err("first".to_string()));
}

#[test]
fn unlimited_keys_lose_the_quota_they_had() {
    let amounts = BillingAmounts {
        accepted: false,
        remaining: Json::Null,
        used: Json::Null,
        total: Json::Null,
        remaining_percentage: 100,
    };
    let outcome = build_quota_from_api_key_billing("b", "s", "u", Json::Null, Json::Null, amounts);
    let mut a = account();
    a.quota = Some(quota());
    refresh_api_key_account_quota(&mut a, outcome, 3);
    assert_eq!(a.quota, None);
    assert!(a.quota_error.is_some());
}

#[test]
fn refusals_lead_to_new_tokens() {
    for (status, body) in [
        ("401 Unauthorized", ""),
        ("403 Forbidden", "{\"error\":{\"code\":\"token_invalidated\"}}"),
    ] {
        let refused = fetch_quota(false, status, body, Err(String::new()));
        let (mut run, _) = QuotaRefresh::begin("a", Some(account()), false, 1).unwrap();
        let step = run.on_quota(refused, 2);
        assert!(matches!(step, RefreshStep::RefreshTokens { .. }));
    }
    let refused = fetch_quota(false, "500 Internal Server Error", "", Err(String::new()));
    let (mut run, _) = QuotaRefresh::begin("a", Some(account()), false, 1).unwrap();
    assert!(matches!(run.on_quota(refused, 2), RefreshStep::SaveThenFail { .. }));
}
