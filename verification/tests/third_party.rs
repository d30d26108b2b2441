use codex_console::billing::{
    build_quota_from_api_key_billing, build_quota_from_subscription_console, json_i64, json_path,
    json_string_path, list_subscriptions, quota_display, says_success, select_subscriptions,
    subscription_is_active, BillingAmounts,
};
use codex_console::console::{
    build_api_key_billing_url_candidates, build_console_root_candidates,
    derive_console_root_from_endpoint_url, normalize_console_session_cookie, parse_console_auth,
    UrlParts,
};
use codex_console::fetching::{
    after_console, AfterConsole, ConsoleFetch, ConsoleStep, KeyFetch, KeyStep,
};
use codex_console::json::Json;
use codex_console::json_text::{json_from_i64, parse_json, write_line};
use codex_console::quota::{CodexAccount, CodexTokens};

fn json(text: &str) -> Json {
    parse_json(text).unwrap()
}

fn texts(items: &[&str]) -> Vec<String> {
    items.iter().map(|item| item.to_string()).collect()
}

fn url(host: Option<&str>, port: Option<u16>, path: &str) -> UrlParts {
    UrlParts {
        scheme: "https".to_string(),
        host: host.map(str::to_string),
        port,
        path: path.to_string(),
    }
}

fn account(key: Option<&str>, base: Option<&str>, console: Option<&str>) -> CodexAccount {
    CodexAccount {
        id: "a".to_string(),
        email: "e".to_string(),
        api_key_auth: true,
        plan_type: None,
        account_id: None,
        tokens: CodexTokens {
            id_token: String::new(),
            access_token: String::new(),
            refresh_token: None,
        },
        openai_api_key: key.map(str::to_string),
        api_base_url: base.map(str::to_string),
        api_console_token: console.map(str::to_string),
        quota: None,
        quota_error: None,
        usage_updated_at: None,
    }
}

fn amounts(accepted: bool) -> BillingAmounts {
    BillingAmounts {
        accepted,
        remaining: json("1.5"),
        used: json("0.5"),
        total: json("2.0"),
        remaining_percentage: 75,
    }
}

// How to be let in

#[test]
fn cookies_are_taken_without_their_name() {
    let value = |raw: &str| normalize_console_session_cookie(raw);
    assert_eq!(value(" session=abc; Path=/ "), Some("abc".to_string()));
    assert_eq!(value("abc"), Some("abc".to_string()));
    assert_eq!(value("Session=abc"), Some("Session=abc".to_string()));
    assert_eq!(value("session= ;x"), None);
    assert_eq!(value(" "), None);
}

#[test]
fn consoles_are_entered_with_what_was_configured() {
    let auth = parse_console_auth(Some(
        " {\"token\":\" t \",\"session\":\"session=s\",\"user_id\":7} ",
    ));
    assert_eq!(auth.bearer_token, Some("t".to_string()));
    assert_eq!(auth.session_cookie, Some("s".to_string()));
    assert_eq!(auth.user_id, Some("7".to_string()));
    let auth = parse_console_auth(Some(
        "{\"access_token\":\"t\",\"session_cookie\":\"s\",\"cookie\":\"c\",\"id\":\" u \"}",
    ));
    assert_eq!(auth.bearer_token, Some("t".to_string()));
    assert_eq!(auth.session_cookie, Some("s".to_string()));
    assert_eq!(auth.user_id, Some("u".to_string()));
    let auth = parse_console_auth(Some("{\"token\":1,\"access_token\":\"t\",\"cookie\":\"c\",\"user_id\":\" \"}"));
    assert_eq!(auth.bearer_token, None);
    assert_eq!(auth.session_cookie, Some("c".to_string()));
    assert_eq!(auth.user_id, None);
}

#[test]
fn tokens_are_taken_as_they_are() {
    let token = |raw: &str| parse_console_auth(Some(raw)).bearer_token;
    assert_eq!(token(" sk-abc "), Some("sk-abc".to_string()));
    assert_eq!(token("Bearer  sk"), Some("sk".to_string()));
    assert_eq!(token("bearer sk"), Some("sk".to_string()));
    assert_eq!(token("BEARER sk"), Some("BEARER sk".to_string()));
    assert_eq!(token("  "), None);
    assert_eq!(token("123"), None);
    assert_eq!(parse_console_auth(None).bearer_token, None);
}

// Where to ask

#[test]
fn consoles_are_looked_for_at_several_addresses() {
    assert_eq!(
        build_console_root_candidates(" https://a.b/V1// "),
        texts(&["https://a.b", "https://a.b/V1"])
    );
    assert_eq!(
        build_console_root_candidates("https://a.b"),
        texts(&["https://a.b", "https://a.b/v1"])
    );
    assert_eq!(
        build_console_root_candidates("https://API.llmskill.CN/v1"),
        texts(&[
            "https://www.tokenforus.org",
            "https://tokenforus.org",
            "https://API.llmskill.CN",
            "https://API.llmskill.CN/v1",
        ])
    );
    assert_eq!(build_console_root_candidates("/v1"), texts(&["/v1"]));
    assert!(build_console_root_candidates(" // ").is_empty());
}

#[test]
fn billing_is_looked_for_at_two_addresses() {
    let pair = |root: &str| {
        (
            format!("{}/dashboard/billing/subscription", root),
            format!("{}/dashboard/billing/usage", root),
        )
    };
    assert_eq!(
        build_api_key_billing_url_candidates("https://a.b/v1/"),
        vec![pair("https://a.b/v1"), pair("https://a.b")]
    );
    assert_eq!(
        build_api_key_billing_url_candidates("https://a.b"),
        vec![pair("https://a.b/v1"), pair("https://a.b")]
    );
    assert!(build_api_key_billing_url_candidates("").is_empty());
}

#[test]
fn addresses_are_cleaned_before_they_are_compared() {
    assert_eq!(
        build_console_root_candidates("https://a.b//v1"),
        texts(&["https://a.b", "https://a.b//v1"])
    );
}

#[test]
fn roots_are_found_behind_endpoints() {
    let root = |u: UrlParts| derive_console_root_from_endpoint_url(&u, "/api/status");
    assert_eq!(root(url(Some("h"), None, "/api/status")), Some("https://h".to_string()));
    assert_eq!(root(url(Some("h"), Some(8080), "/x//api/status")), Some("https://h:8080/x".to_string()));
    assert_eq!(root(url(Some("h"), None, "/api/other")), None);
    assert_eq!(root(url(None, None, "/api/status")), None);
}

// Replies

#[test]
fn values_are_found_at_the_end_of_paths() {
    let j = json("{\"a\":{\"b\":\" x \",\"c\":\" \",\"n\":1}}");
    assert_eq!(json_path(&j, &["a", "n"]), Some(&json("1")));
    assert_eq!(json_path(&j, &[]), Some(&j));
    assert_eq!(json_path(&j, &["a", "b", "c"]), None);
    assert_eq!(json_string_path(&j, &["a", "b"]), Some("x".to_string()));
    assert_eq!(json_string_path(&j, &["a", "c"]), None);
    assert_eq!(json_string_path(&j, &["a", "n"]), None);
}

#[test]
fn whole_numbers_are_found_in_fields() {
    let j = json("{\"n\":-5,\"s\":\" 12 \",\"f\":1.5,\"t\":\"1.5\"}");
    assert_eq!(json_i64(&j, "n"), Some(-5));
    assert_eq!(json_i64(&j, "s"), Some(12));
    assert_eq!(json_i64(&j, "f"), None);
    assert_eq!(json_i64(&j, "t"), None);
    assert_eq!(json_i64(&j, "x"), None);
}

#[test]
fn successes_are_said() {
    assert!(says_success(&json("{\"success\":true}")));
    assert!(!says_success(&json("{\"success\":false}")));
    assert!(!says_success(&json("{\"success\":\"true\"}")));
    assert!(!says_success(&json("{}")));
}

#[test]
fn amounts_are_shown_in_a_currency() {
    let shown = |text: &str| {
        let d = quota_display(&json(text));
        (d.symbol, d.rate_field)
    };
    assert_eq!(shown("{}"), ("$".to_string(), None));
    assert_eq!(shown("{\"quota_display_type\":1}"), ("$".to_string(), None));
    assert_eq!(
        shown("{\"quota_display_type\":\"cny\"}"),
        ("¥".to_string(), Some("usd_exchange_rate".to_string()))
    );
    let rate = Some("custom_currency_exchange_rate".to_string());
    assert_eq!(shown("{\"quota_display_type\":\"Custom\"}"), ("¤".to_string(), rate.clone()));
    assert_eq!(
        shown("{\"quota_display_type\":\"CUSTOM\",\"custom_currency_symbol\":\"X\"}"),
        ("X".to_string(), rate)
    );
    assert_eq!(shown("{\"quota_display_type\":\"tokens\"}"), (String::new(), None));
}

#[test]
fn subscriptions_are_active_until_they_end() {
    let inner = json("{\"subscription\":{\"status\":\" active \"},\"status\":\"no\"}");
    assert!(subscription_is_active(&inner, None, 100));
    assert!(subscription_is_active(&inner, Some(0), 100));
    assert!(subscription_is_active(&inner, Some(101), 100));
    assert!(!subscription_is_active(&inner, Some(100), 100));
    assert!(subscription_is_active(&json("{\"status\":\"active\"}"), None, 100));
    assert!(!subscription_is_active(&json("{\"status\":\"Active\"}"), None, 100));
    assert!(!subscription_is_active(&json("{}"), None, 100));
}

#[test]
fn subscriptions_are_listed() {
    let first = json("{\"data\":{\"subscriptions\":[1],\"all_subscriptions\":[2,3]}}");
    assert_eq!(list_subscriptions(&first), Ok(&vec![json("1")]));
    let second = json("{\"data\":{\"subscriptions\":null,\"all_subscriptions\":[2,3]}}");
    assert_eq!(list_subscriptions(&second).unwrap().len(), 2);
    assert_eq!(list_subscriptions(&json("{}")), Err("订阅接口缺少 data 字段".to_string()));
    assert_eq!(list_subscriptions(&json("{\"data\":{}}")), Err("订阅接口没有返回套餐列表".to_string()));
}

#[test]
fn active_subscriptions_go_before_others() {
    let items = vec![
        json("{\"status\":\"expired\"}"),
        json("{\"status\":\"active\"}"),
        json("{\"status\":\"active\"}"),
    ];
    assert_eq!(select_subscriptions(&items, &vec![None, Some(5), None], 10), vec![2]);
    assert_eq!(select_subscriptions(&items, &vec![None, Some(50), None], 10), vec![1, 2]);
    assert_eq!(select_subscriptions(&items, &vec![None, Some(5), Some(6)], 10), vec![0, 1, 2]);
    assert!(select_subscriptions(&Vec::new(), &Vec::new(), 10).is_empty());
}

#[test]
fn quotas_are_made_of_subscriptions() {
    let payload = json(
        "{\"data\":{\"subscriptions\":[{\"status\":\"active\"},\
         {\"status\":\"active\",\"subscription\":{\"plan\":{\"title\":\" Pro \"}}},\
         {\"status\":\"gone\",\"plan\":{\"title\":\"Old\"}}]}}",
    );
    let ends = vec![Some(-1), Some(90), Some(7)];
    let quota = build_quota_from_subscription_console(
        "b", "s", json("{\"quota_display_type\":\"CNY\"}"), payload.clone(), &ends, amounts(true), 10,
    )
    .unwrap();
    assert_eq!((quota.hourly_percentage, quota.weekly_percentage), (75, 75));
    assert_eq!((quota.hourly_reset_time, quota.weekly_reset_time), (None, Some(90)));
    assert_eq!((quota.hourly_window_present, quota.weekly_window_present), (Some(false), Some(false)));
    let raw = quota.raw_data.unwrap();
    let details = raw.get("api_key_billing").unwrap();
    assert_eq!(details.get("source").unwrap().as_str(), Some("subscription_console"));
    assert_eq!(details.get("base_url").unwrap().as_str(), Some("b"));
    assert_eq!(details.get("subscription_url").unwrap().as_str(), Some("s"));
    assert_eq!(details.get("title").unwrap().as_str(), Some("Pro"));
    assert_eq!(details.get("currency_symbol").unwrap().as_str(), Some("¥"));
    assert_eq!(details.get("access_until"), Some(&json_from_i64(90)));
    assert_eq!(details.get("remaining_percentage"), Some(&json_from_i64(75)));
    assert_eq!(details.get("remaining_amount"), Some(&json("1.5")));
    assert_eq!(details.get("used_amount"), Some(&json("0.5")));
    assert_eq!(details.get("total_amount"), Some(&json("2.0")));
    assert_eq!(details.get("subscription"), Some(&payload));
    assert_eq!(details.get("status"), Some(&json("{\"quota_display_type\":\"CNY\"}")));
    assert_eq!(details.as_object().unwrap().fields.len(), 12);
}

#[test]
fn quotas_need_subscriptions_with_a_total() {
    let none = build_quota_from_subscription_console(
        "b", "s", Json::Null, json("{}"), &Vec::new(), amounts(true), 0,
    );
    assert_eq!(none, Err("订阅接口缺少 data 字段".to_string()));
    let empty = build_quota_from_subscription_console(
        "b", "s", Json::Null, json("{\"data\":{\"subscriptions\":[]}}"), &Vec::new(), amounts(false), 0,
    );
    assert_eq!(empty, Err("订阅接口没有返回有效总额度".to_string()));
}

#[test]
fn quotas_are_made_of_billing() {
    let quota = build_quota_from_api_key_billing(
        "b", "s", "u", json("{\"access_until\":\"90\"}"), json("{\"x\":1}"), amounts(true),
    )
    .unwrap();
    assert_eq!(quota.weekly_reset_time, Some(90));
    assert_eq!(
        write_line(&quota.raw_data.unwrap()),
        Ok("{\"api_key_billing\":{\"access_until\":90,\"base_url\":\"b\",\"remaining_amount\":1.5,\
            \"remaining_percentage\":75,\"source\":\"openai_compatible_billing\",\
            \"subscription\":{\"access_until\":\"90\"},\"subscription_url\":\"s\",\"total_amount\":2.0,\
            \"usage\":{\"x\":1},\"usage_url\":\"u\",\"used_amount\":0.5}}"
            .to_string())
    );
    let quota = build_quota_from_api_key_billing(
        "b", "s", "u", json("{\"access_until\":0}"), json("{}"), amounts(true),
    )
    .unwrap();
    assert_eq!(quota.weekly_reset_time, None);
    let raw = quota.raw_data.unwrap();
    assert_eq!(raw.get("api_key_billing").unwrap().get("access_until"), Some(&json_from_i64(0)));
}

#[test]
fn unlimited_keys_have_no_quota() {
    let r = build_quota_from_api_key_billing("b", "s", "u", json("{}"), json("{}"), amounts(false));
    let message = r.unwrap_err();
    assert!(message.contains("无限 Key 额度"));
    assert!(message.starts_with("第三方 API Key 接口返回的是"));
}

// Fetches

#[test]
fn consoles_are_asked_only_where_they_are_configured() {
    let (_, step) = ConsoleFetch::begin(&account(None, Some("https://a.b"), None));
    assert_eq!(step, ConsoleStep::NotConfigured);
    let (_, step) = ConsoleFetch::begin(&account(None, Some("https://a.b"), Some("{\"session\":\"s\"}")));
    assert_eq!(step, ConsoleStep::NotConfigured);
    let (_, step) = ConsoleFetch::begin(&account(None, Some(" "), Some("token")));
    assert_eq!(step, ConsoleStep::Failed { message: "控制台额度需要第三方 Base URL".to_string() });
}

#[test]
fn consoles_are_asked_step_by_step() {
    let console = "{\"token\":\"t\",\"session\":\"s\",\"user_id\":1}";
    let (mut fetch, step) = ConsoleFetch::begin(&account(None, Some("https://a.b"), Some(console)));
    assert_eq!(step, ConsoleStep::FetchStatus { url: "https://a.b/api/status".to_string() });
    let step = fetch.on_status(Err("e1".to_string()));
    assert_eq!(step, ConsoleStep::FetchStatus { url: "https://a.b/v1/api/status".to_string() });
    let reply = (json("{\"data\":{\"k\":1}}"), url(Some("c.d"), None, "/p/api/status"));
    let step = fetch.on_status(Ok(reply));
    let address = "https://c.d/p/api/subscription/self".to_string();
    assert_eq!(
        step,
        ConsoleStep::FetchWithSession {
            url: address.clone(),
            session_cookie: "s".to_string(),
            user_id: "1".to_string(),
        }
    );
    let step = fetch.on_session(Ok(json("{\"message\":\"m\"}")));
    assert_eq!(step, ConsoleStep::FetchWithToken { url: address.clone(), token: "t".to_string() });
    let mut other = ConsoleFetch {
        auth: fetch.auth.clone(),
        base_url: fetch.base_url.clone(),
        roots: fetch.roots.clone(),
        at: fetch.at,
        errors: fetch.errors.clone(),
        status: fetch.status.clone(),
        subscription_url: fetch.subscription_url.clone(),
    };
    let step = fetch.on_token(Err("e2".to_string()));
    assert_eq!(
        step,
        ConsoleStep::Failed {
            message: format!("第三方控制台订阅额度读取失败: e1; {} 返回错误: m; e2", address),
        }
    );
    let step = other.on_token(Ok(json("{\"success\":true}")));
    assert_eq!(
        step,
        ConsoleStep::BuildQuota {
            base_url: "https://a.b".to_string(),
            subscription_url: address,
            status: json("{\"k\":1}"),
            subscription: json("{\"success\":true}"),
        }
    );
}

#[test]
fn consoles_without_a_session_are_asked_with_a_token() {
    let (mut fetch, _) = ConsoleFetch::begin(&account(None, Some("https://a.b/v1"), Some("t")));
    let step = fetch.on_status(Ok((json("{\"k\":1}"), url(None, None, "/"))));
    assert_eq!(
        step,
        ConsoleStep::FetchWithToken {
            url: "https://a.b/api/subscription/self".to_string(),
            token: "t".to_string(),
        }
    );
    assert_eq!(fetch.status, json("{\"k\":1}"));
}

#[test]
fn silent_failures_are_told_as_such() {
    let console = "{\"session\":\"s\",\"user_id\":1}";
    let (mut fetch, _) = ConsoleFetch::begin(&account(None, Some("https://a.b"), Some(console)));
    for _ in 0..2 {
        fetch.on_status(Ok((json("{}"), url(None, None, "/"))));
        fetch.on_session(Ok(json("{}")));
    }
    let step = fetch.on_session(Ok(json("{}")));
    assert_eq!(
        step,
        ConsoleStep::Failed { message: "第三方控制台订阅额度读取失败: 没有可用的订阅接口".to_string() }
    );
}

#[test]
fn keys_need_a_key_and_an_address() {
    let failed = |key, base| match KeyFetch::begin(&account(key, base, None)).1 {
        KeyStep::Failed { message } => message,
        other => panic!("{:?}", other),
    };
    assert_eq!(failed(None, Some("u")), "API Key 账号缺少 API Key");
    assert_eq!(failed(Some(" "), Some("u")), "API Key 账号缺少 API Key");
    assert_eq!(failed(Some("k"), None), "API Key 账号缺少第三方 Base URL，无法读取第三方额度");
    assert_eq!(failed(Some("k"), Some("//")), "第三方 Base URL 为空，无法读取额度");
}

#[test]
fn keys_are_asked_step_by_step() {
    let (mut fetch, step) = KeyFetch::begin(&account(Some(" k "), Some("https://a.b"), None));
    let ask = |path: &str| (format!("https://a.b{}", path), "k".to_string());
    let (url, api_key) = ask("/v1/dashboard/billing/subscription");
    assert_eq!(step, KeyStep::FetchSubscription { url, api_key });
    let step = fetch.on_subscription(Ok(json("1")));
    let (url, api_key) = ask("/v1/dashboard/billing/usage");
    assert_eq!(step, KeyStep::FetchUsage { url, api_key });
    let step = fetch.on_usage(Err("e1".to_string()));
    let (url, api_key) = ask("/dashboard/billing/subscription");
    assert_eq!(step, KeyStep::FetchSubscription { url, api_key });
    fetch.on_subscription(Ok(json("2")));
    let step = fetch.on_usage(Ok(json("3")));
    assert_eq!(
        step,
        KeyStep::BuildQuota {
            base_url: "https://a.b".to_string(),
            subscription_url: "https://a.b/dashboard/billing/subscription".to_string(),
            usage_url: "https://a.b/dashboard/billing/usage".to_string(),
            subscription: json("2"),
            usage: json("3"),
        }
    );
}

#[test]
fn keys_fail_once_all_addresses_were_tried() {
    let (mut fetch, _) = KeyFetch::begin(&account(Some("k"), Some("https://a.b"), None));
    fetch.on_subscription(Err("e1".to_string()));
    let step = fetch.on_subscription(Err("e2".to_string()));
    assert_eq!(
        step,
        KeyStep::Failed { message: "第三方 API Key 额度接口不可用: e1; e2".to_string() }
    );
}

#[test]
fn consoles_go_before_billing() {
    let a = account(Some("k"), Some("https://x"), None);
    let quota = || {
        build_quota_from_api_key_billing("b", "s", "u", Json::Null, Json::Null, amounts(true))
            .unwrap()
    };
    assert_eq!(after_console(Ok(Some(quota())), &a), AfterConsole::End(Ok(quota())));
    assert_eq!(
        after_console(Err("e".to_string()), &a),
        AfterConsole::End(Err("e".to_string()))
    );
    let (fetch, step) = KeyFetch::begin(&a);
    assert!(matches!(step, KeyStep::FetchSubscription { .. }));
    assert_eq!(after_console(Ok(None), &a), AfterConsole::Start(fetch, step));
}
