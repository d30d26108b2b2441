//! Quotas of third parties: what their replies say of subscriptions and amounts.
//!
//! Amounts are floating-point numbers; they are handed in as JSON numbers, together with what their
//! comparison says.
use vstd::prelude::*;

use crate::console::short_text;
use crate::decimal::{parse_i64, read_i64};
use crate::errors::says_within;
use crate::json::{as_text, json_get, says, tells_or, Json, JsonModel, JsonObject};
use crate::json_text::{
    as_int, int_number, json_as_i64, json_from_i64, json_from_str, number_int,
};
use crate::quota::{CodexQuota, QuotaModel};
use crate::search::{ascii_uppercased, to_ascii_uppercase};
use crate::text::{is_blank, same_text, trim, trimmed};

verus! {

// ---------------------------------------------------------------------------------------------
// Values inside replies
// ---------------------------------------------------------------------------------------------
/// The value at the end of a path of names.
pub open spec fn path_get(j: JsonModel, path: Seq<Seq<char>>) -> Option<JsonModel>
    decreases path.len(),
{
    if path.len() == 0 {
        Some(j)
    } else {
        match json_get(j, path[0]) {
            Some(inner) => path_get(inner, path.drop_first()),
            None => None,
        }
    }
}

/// The value at the end of a path of names.
pub fn json_path<'a>(value: &'a Json, path: &[&str]) -> (r: Option<&'a Json>)
    ensures
        match r {
            Some(found) => path_get(value@, path.deep_view()) == Some(found@),
            None => path_get(value@, path.deep_view()) is None,
        },
{
    let ghost all = path.deep_view();
    let mut current: &'a Json = value;
    let mut i: usize = 0;
    proof {
        assert(all.skip(0) =~= all);
    }
    while i < path.len()
        invariant
            all == path.deep_view(),
            i <= path@.len(),
            path_get(value@, all) == path_get(current@, all.skip(i as int)),
        decreases path@.len() - i,
    {
        proof {
            assert(all.skip(i as int).drop_first() =~= all.skip(i + 1));
            assert(all.skip(i as int)[0] == path@[i as int]@);
        }
        match current.get(path[i]) {
            Some(inner) => {
                current = inner;
            },
            None => {
                return None;
            },
        }
        i += 1;
    }
    Some(current)
}

/// The text at the end of a path of names, without white space at its ends, unless it is empty.
pub fn json_string_path(value: &Json, path: &[&str]) -> (r: Option<String>)
    ensures
        r.deep_view() == short_text(path_get(value@, path.deep_view())),
{
    match json_path(value, path) {
        Some(found) => match found.as_str() {
            Some(s) => {
                let short = trim(s);
                if short.is_empty() {
                    None
                } else {
                    Some(short.to_owned())
                }
            },
            None => None,
        },
        None => None,
    }
}

/// The whole number in a field: a number, or a text that denotes one.
pub open spec fn field_int(j: JsonModel, name: Seq<char>) -> Option<i64> {
    match json_get(j, name) {
        Some(value) => match (as_int(value), as_text(Some(value))) {
            (Some(n), _) => Some(n),
            (None, Some(s)) => read_i64(trimmed(s)),
            (None, None) => None,
        },
        None => None,
    }
}

/// The whole number in a field: a number, or a text that denotes one.
pub fn json_i64(value: &Json, key: &str) -> (r: Option<i64>)
    ensures
        r == field_int(value@, key@),
{
    let item = match value.get(key) {
        Some(item) => item,
        None => {
            return None;
        },
    };
    if let Some(n) = json_as_i64(item) {
        return Some(n);
    }
    match item.as_str() {
        Some(s) => parse_i64(trim(s)),
        None => None,
    }
}

/// Whether a reply says that it is a success.
pub open spec fn is_success(j: JsonModel) -> bool {
    json_get(j, "success"@) == Some(JsonModel::Bool(true))
}

/// Whether a reply says that it is a success.
pub fn says_success(value: &Json) -> (r: bool)
    ensures
        r == is_success(value@),
{
    match value.get("success") {
        Some(Json::Bool(b)) => *b,
        _ => false,
    }
}

// ---------------------------------------------------------------------------------------------
// How amounts are shown
// ---------------------------------------------------------------------------------------------
/// How amounts are shown: the symbol in front of them, and the field with the rate at which they are
/// exchanged, where they are.
#[derive(Debug, Clone, PartialEq, Eq)]
pub struct QuotaDisplay {
    pub symbol: String,
    pub rate_field: Option<String>,
}

/// The unit in which amounts are shown, in upper case.
pub open spec fn display_type(status: JsonModel) -> Seq<char> {
    ascii_uppercased(
        match as_text(json_get(status, "quota_display_type"@)) {
            Some(s) => s,
            None => "USD"@,
        },
    )
}

/// The symbol in front of amounts.
pub open spec fn display_symbol(status: JsonModel) -> Seq<char> {
    if display_type(status) == "CNY"@ {
        "¥"@
    } else if display_type(status) == "CUSTOM"@ {
        match as_text(json_get(status, "custom_currency_symbol"@)) {
            Some(s) => s,
            None => "¤"@,
        }
    } else if display_type(status) == "TOKENS"@ {
        Seq::empty()
    } else {
        "$"@
    }
}

/// The field with the rate at which amounts are exchanged.
pub open spec fn rate_field(status: JsonModel) -> Option<Seq<char>> {
    if display_type(status) == "CNY"@ {
        Some("usd_exchange_rate"@)
    } else if display_type(status) == "CUSTOM"@ {
        Some("custom_currency_exchange_rate"@)
    } else {
        None
    }
}

/// How amounts are shown.
pub fn quota_display(status: &Json) -> (r: QuotaDisplay)
    ensures
        r.symbol@ == display_symbol(status@),
        r.rate_field.deep_view() == rate_field(status@),
{
    let shown = match status.get("quota_display_type") {
        Some(value) => match value.as_str() {
            Some(s) => to_ascii_uppercase(s),
            None => to_ascii_uppercase("USD"),
        },
        None => to_ascii_uppercase("USD"),
    };
    if same_text(shown.as_str(), "CNY") {
        QuotaDisplay {
            symbol: "¥".to_owned(),
            rate_field: Some("usd_exchange_rate".to_owned()),
        }
    } else if same_text(shown.as_str(), "CUSTOM") {
        let symbol = match status.get("custom_currency_symbol") {
            Some(value) => match value.as_str() {
                Some(s) => s.to_owned(),
                None => "¤".to_owned(),
            },
            None => "¤".to_owned(),
        };
        QuotaDisplay { symbol, rate_field: Some("custom_currency_exchange_rate".to_owned()) }
    } else if same_text(shown.as_str(), "TOKENS") {
        QuotaDisplay { symbol: String::new(), rate_field: None }
    } else {
        QuotaDisplay { symbol: "$".to_owned(), rate_field: None }
    }
}

// ---------------------------------------------------------------------------------------------
// Subscriptions
// ---------------------------------------------------------------------------------------------
/// The status of a subscription; empty where it has none.
pub open spec fn subscription_status(item: JsonModel) -> Seq<char> {
    match (
        short_text(path_get(item, seq!["subscription"@, "status"@])),
        short_text(path_get(item, seq!["status"@])),
    ) {
        (Some(s), _) => s,
        (None, Some(s)) => s,
        (None, None) => Seq::empty(),
    }
}

/// Whether a subscription that ends at a time is active. One that ends at no time, or before 1970,
/// does not end.
pub open spec fn is_active(item: JsonModel, end_time: Option<i64>, now: i64) -> bool {
    &&& subscription_status(item) == "active"@
    &&& match end_time {
        Some(t) => t <= 0 || t > now,
        None => true,
    }
}

/// Whether a subscription is active. `end_time` is when it ends, where it says so.
pub fn subscription_is_active(item: &Json, end_time: Option<i64>, now: i64) -> (r: bool)
    ensures
        r == is_active(item@, end_time, now),
{
    let inner: [&str; 2] = ["subscription", "status"];
    let outer: [&str; 1] = ["status"];
    proof {
        assert(inner.deep_view() =~= seq!["subscription"@, "status"@]);
        assert(outer.deep_view() =~= seq!["status"@]);
    }
    let status = match json_string_path(item, &inner) {
        Some(s) => s,
        None => match json_string_path(item, &outer) {
            Some(s) => s,
            None => String::new(),
        },
    };
    let running = match end_time {
        Some(t) => t <= 0 || t > now,
        None => true,
    };
    running && same_text(status.as_str(), "active")
}

/// The subscriptions in a reply.
pub open spec fn subscriptions_in(payload: JsonModel) -> Result<Seq<JsonModel>, Seq<char>> {
    match json_get(payload, "data"@) {
        None => Err("订阅接口缺少 data 字段"@),
        Some(data) => match (
            json_get(data, "subscriptions"@),
            json_get(data, "all_subscriptions"@),
        ) {
            (Some(JsonModel::Array(items)), _) => Ok(items),
            (_, Some(JsonModel::Array(items))) => Ok(items),
            _ => Err("订阅接口没有返回套餐列表"@),
        },
    }
}

/// The subscriptions in a reply.
pub fn list_subscriptions(payload: &Json) -> (r: Result<&Vec<Json>, String>)
    ensures
        match (subscriptions_in(payload@), r) {
            (Ok(items), Ok(list)) => list.deep_view() == items,
            (Err(e), Err(message)) => message@ == e,
            _ => false,
        },
{
    let data = match payload.get("data") {
        Some(data) => data,
        None => {
            return Err("订阅接口缺少 data 字段".to_owned());
        },
    };
    if let Some(value) = data.get("subscriptions") {
        if let Some(items) = value.as_array() {
            return Ok(items);
        }
    }
    if let Some(value) = data.get("all_subscriptions") {
        if let Some(items) = value.as_array() {
            return Ok(items);
        }
    }
    Err("订阅接口没有返回套餐列表".to_owned())
}

/// When the subscription at a place ends, where it says so.
pub open spec fn end_at(end_times: Seq<Option<i64>>, i: int) -> Option<i64> {
    if 0 <= i < end_times.len() {
        end_times[i]
    } else {
        None
    }
}

/// The places of the active ones among the first `n` subscriptions.
pub open spec fn active_places(
    items: Seq<JsonModel>,
    end_times: Seq<Option<i64>>,
    now: i64,
    n: nat,
) -> Seq<int>
    decreases n,
{
    if n == 0 {
        Seq::empty()
    } else {
        let before = active_places(items, end_times, now, (n - 1) as nat);
        if is_active(items[n - 1], end_at(end_times, n - 1), now) {
            before.push(n - 1)
        } else {
            before
        }
    }
}

/// The places of the subscriptions that count: the active ones, or all where none is active.
pub open spec fn counting_places(
    items: Seq<JsonModel>,
    end_times: Seq<Option<i64>>,
    now: i64,
) -> Seq<int> {
    let active = active_places(items, end_times, now, items.len());
    if active.len() == 0 {
        Seq::new(items.len(), |i: int| i)
    } else {
        active
    }
}

/// What a list of places stands for.
pub open spec fn places_model(places: Seq<usize>) -> Seq<int> {
    places.map_values(|i: usize| i as int)
}

fn end_time_at(end_times: &Vec<Option<i64>>, i: usize) -> (r: Option<i64>)
    ensures
        r == end_at(end_times@, i as int),
{
    if i < end_times.len() {
        end_times[i]
    } else {
        None
    }
}

/// The places of the subscriptions that count: the active ones, or all where none is active.
/// `end_times` says when each of them ends, where it says so.
pub fn select_subscriptions(items: &Vec<Json>, end_times: &Vec<Option<i64>>, now: i64) -> (r: Vec<
    usize,
>)
    ensures
        places_model(r@) == counting_places(items.deep_view(), end_times@, now),
        forall|k: int| 0 <= k < r@.len() ==> (#[trigger] r@[k]) < items@.len(),
{
    let ghost all = items.deep_view();
    let mut active: Vec<usize> = Vec::new();
    let mut i: usize = 0;
    proof {
        assert(places_model(active@) =~= active_places(all, end_times@, now, 0));
    }
    while i < items.len()
        invariant
            all == items.deep_view(),
            i <= items@.len(),
            places_model(active@) == active_places(all, end_times@, now, i as nat),
            forall|k: int| 0 <= k < active@.len() ==> (#[trigger] active@[k]) < i,
        decreases items@.len() - i,
    {
        let ghost before = active@;
        if subscription_is_active(&items[i], end_time_at(end_times, i), now) {
            active.push(i);
            proof {
                assert(places_model(active@) =~= places_model(before).push(i as int));
            }
        }
        i += 1;
    }
    if active.len() > 0 {
        return active;
    }
    let mut every: Vec<usize> = Vec::new();
    let mut k: usize = 0;
    while k < items.len()
        invariant
            k <= items@.len(),
            every@.len() == k,
            forall|j: int| 0 <= j < k ==> (#[trigger] every@[j]) == j,
        decreases items@.len() - k,
    {
        every.push(k);
        k += 1;
    }
    proof {
        assert(places_model(every@) =~= Seq::new(all.len(), |i: int| i));
    }
    every
}

/// The title of the plan of a subscription.
pub open spec fn plan_title(item: JsonModel) -> Option<Seq<char>> {
    match short_text(path_get(item, seq!["plan"@, "title"@])) {
        Some(title) => Some(title),
        None => short_text(path_get(item, seq!["subscription"@, "plan"@, "title"@])),
    }
}

/// The first title among the subscriptions at some places.
pub open spec fn first_title(items: Seq<JsonModel>, places: Seq<int>) -> Option<Seq<char>>
    decreases places.len(),
{
    if places.len() == 0 {
        None
    } else {
        match plan_title(items[places[0]]) {
            Some(title) => Some(title),
            None => first_title(items, places.drop_first()),
        }
    }
}

/// The first end after 1970 began, among the subscriptions at some places.
pub open spec fn first_end(end_times: Seq<Option<i64>>, places: Seq<int>) -> Option<i64>
    decreases places.len(),
{
    if places.len() == 0 {
        None
    } else {
        match end_at(end_times, places[0]) {
            Some(t) if t > 0 => Some(t),
            _ => first_end(end_times, places.drop_first()),
        }
    }
}

fn read_plan_title(item: &Json) -> (r: Option<String>)
    ensures
        r.deep_view() == plan_title(item@),
{
    let outer: [&str; 2] = ["plan", "title"];
    let inner: [&str; 3] = ["subscription", "plan", "title"];
    proof {
        assert(outer.deep_view() =~= seq!["plan"@, "title"@]);
        assert(inner.deep_view() =~= seq!["subscription"@, "plan"@, "title"@]);
    }
    match json_string_path(item, &outer) {
        Some(title) => Some(title),
        None => json_string_path(item, &inner),
    }
}

fn find_title(items: &Vec<Json>, places: &Vec<usize>) -> (r: Option<String>)
    requires
        forall|k: int| 0 <= k < places@.len() ==> (#[trigger] places@[k]) < items@.len(),
    ensures
        r.deep_view() == first_title(items.deep_view(), places_model(places@)),
{
    let ghost all = places_model(places@);
    let mut i: usize = 0;
    proof {
        assert(all.skip(0) =~= all);
    }
    while i < places.len()
        invariant
            all == places_model(places@),
            i <= places@.len(),
            forall|k: int| 0 <= k < places@.len() ==> (#[trigger] places@[k]) < items@.len(),
            first_title(items.deep_view(), all) == first_title(
                items.deep_view(),
                all.skip(i as int),
            ),
        decreases places@.len() - i,
    {
        proof {
            assert(all.skip(i as int).drop_first() =~= all.skip(i + 1));
            assert(all.skip(i as int)[0] == places@[i as int]);
        }
        if let Some(title) = read_plan_title(&items[places[i]]) {
            return Some(title);
        }
        i += 1;
    }
    None
}

fn find_end(end_times: &Vec<Option<i64>>, places: &Vec<usize>) -> (r: Option<i64>)
    ensures
        r == first_end(end_times@, places_model(places@)),
{
    let ghost all = places_model(places@);
    let mut i: usize = 0;
    proof {
        assert(all.skip(0) =~= all);
    }
    while i < places.len()
        invariant
            all == places_model(places@),
            i <= places@.len(),
            first_end(end_times@, all) == first_end(end_times@, all.skip(i as int)),
        decreases places@.len() - i,
    {
        proof {
            assert(all.skip(i as int).drop_first() =~= all.skip(i + 1));
            assert(all.skip(i as int)[0] == places@[i as int]);
        }
        if let Some(t) = end_time_at(end_times, places[i]) {
            if t > 0 {
                return Some(t);
            }
        }
        i += 1;
    }
    None
}

// ---------------------------------------------------------------------------------------------
// Quotas
// ---------------------------------------------------------------------------------------------
/// The amounts of a quota as JSON numbers, with what is left in percent. `accepted` says whether the
/// total is one that a quota can be made of.
#[derive(Debug, PartialEq)]
pub struct BillingAmounts {
    pub accepted: bool,
    pub remaining: Json,
    pub used: Json,
    pub total: Json,
    pub remaining_percentage: i32,
}

/// A text or nothing, as JSON.
pub open spec fn text_or_null(s: Option<Seq<char>>) -> JsonModel {
    match s {
        Some(s) => JsonModel::Text(s),
        None => JsonModel::Null,
    }
}

/// A whole number or nothing, as JSON.
pub open spec fn int_or_null(n: Option<i64>) -> JsonModel {
    match n {
        Some(n) => JsonModel::Number(int_number(n)),
        None => JsonModel::Null,
    }
}

fn json_text_or_null(s: &Option<String>) -> (r: Json)
    ensures
        r@ == text_or_null(s.deep_view()),
{
    match s {
        Some(s) => json_from_str(s.as_str()),
        None => Json::Null,
    }
}

fn json_int_or_null(n: Option<i64>) -> (r: Json)
    ensures
        r@ == int_or_null(n),
{
    match n {
        Some(n) => json_from_i64(n),
        None => Json::Null,
    }
}

/// A quota of a third party: the same by the hour and by the week, without windows, and with what is
/// known of the billing.
pub open spec fn billing_quota(
    percentage: i32,
    reset_time: Option<i64>,
    details: Map<Seq<char>, JsonModel>,
) -> QuotaModel {
    QuotaModel {
        hourly_percentage: percentage,
        hourly_reset_time: None,
        hourly_window_minutes: None,
        hourly_window_present: Some(false),
        weekly_percentage: percentage,
        weekly_reset_time: reset_time,
        weekly_window_minutes: None,
        weekly_window_present: Some(false),
        raw_data: Some(
            JsonModel::Object(
                Map::empty().insert("api_key_billing"@, JsonModel::Object(details)),
            ),
        ),
    }
}

fn build_billing_quota(percentage: i32, reset_time: Option<i64>, details: JsonObject) -> (r:
    CodexQuota)
    ensures
        r.deep_view() == billing_quota(percentage, reset_time, details@),
{
    let mut raw = JsonObject::new();
    raw.set("api_key_billing", Json::Object(details));
    CodexQuota {
        hourly_percentage: percentage,
        hourly_reset_time: None,
        hourly_window_minutes: None,
        hourly_window_present: Some(false),
        weekly_percentage: percentage,
        weekly_reset_time: reset_time,
        weekly_window_minutes: None,
        weekly_window_present: Some(false),
        raw_data: Some(Json::Object(raw)),
    }
}

/// What is known of the billing of a subscription.
pub open spec fn subscription_details(
    base_url: Seq<char>,
    subscription_url: Seq<char>,
    amounts: BillingAmounts,
    access_until: Option<i64>,
    symbol: Seq<char>,
    title: Option<Seq<char>>,
    status: JsonModel,
    payload: JsonModel,
) -> Map<Seq<char>, JsonModel> {
    Map::empty().insert("source"@, JsonModel::Text("subscription_console"@)).insert(
        "base_url"@,
        JsonModel::Text(base_url),
    ).insert("subscription_url"@, JsonModel::Text(subscription_url)).insert(
        "remaining_amount"@,
        amounts.remaining@,
    ).insert("used_amount"@, amounts.used@).insert("total_amount"@, amounts.total@).insert(
        "remaining_percentage"@,
        JsonModel::Number(int_number(amounts.remaining_percentage as i64)),
    ).insert("access_until"@, int_or_null(access_until)).insert(
        "currency_symbol"@,
        JsonModel::Text(symbol),
    ).insert("title"@, text_or_null(title)).insert("status"@, status).insert(
        "subscription"@,
        payload,
    )
}

/// The quota that the subscriptions in the reply of a console make up, unless there are none or
/// their total is not positive. `end_times` says when each subscription ends, and `amounts` what the
/// subscriptions that count add up to.
pub fn build_quota_from_subscription_console(
    base_url: &str,
    subscription_url: &str,
    status: Json,
    subscription_payload: Json,
    end_times: &Vec<Option<i64>>,
    amounts: BillingAmounts,
    now: i64,
) -> (r: Result<CodexQuota, String>)
    ensures
        match subscriptions_in(subscription_payload@) {
            Err(e) => r matches Err(message) && message@ == e,
            Ok(items) => if !amounts.accepted {
                r matches Err(message) && message@ == "订阅接口没有返回有效总额度"@
            } else {
                let places = counting_places(items, end_times@, now);
                let until = first_end(end_times@, places);
                r matches Ok(quota) && quota.deep_view() == billing_quota(
                    amounts.remaining_percentage,
                    until,
                    subscription_details(
                        base_url@,
                        subscription_url@,
                        amounts,
                        until,
                        display_symbol(status@),
                        first_title(items, places),
                        status@,
                        subscription_payload@,
                    ),
                )
            },
        },
{
    let (title, until) = match list_subscriptions(&subscription_payload) {
        Ok(items) => {
            let places = select_subscriptions(items, end_times, now);
            (find_title(items, &places), find_end(end_times, &places))
        },
        Err(e) => {
            return Err(e);
        },
    };
    if !amounts.accepted {
        return Err("订阅接口没有返回有效总额度".to_owned());
    }
    let symbol = quota_display(&status).symbol;
    let percentage: i32 = amounts.remaining_percentage;
    let mut details = JsonObject::new();
    details.set("source", json_from_str("subscription_console"));
    details.set("base_url", json_from_str(base_url));
    details.set("subscription_url", json_from_str(subscription_url));
    details.set("remaining_amount", amounts.remaining);
    details.set("used_amount", amounts.used);
    details.set("total_amount", amounts.total);
    details.set("remaining_percentage", json_from_i64(percentage as i64));
    details.set("access_until", json_int_or_null(until));
    details.set("currency_symbol", Json::Text(symbol));
    details.set("title", json_text_or_null(&title));
    details.set("status", status);
    details.set("subscription", subscription_payload);
    Ok(build_billing_quota(percentage, until, details))
}

/// What is known of the billing of an API key.
pub open spec fn key_details(
    base_url: Seq<char>,
    subscription_url: Seq<char>,
    usage_url: Seq<char>,
    amounts: BillingAmounts,
    access_until: Option<i64>,
    subscription: JsonModel,
    usage: JsonModel,
) -> Map<Seq<char>, JsonModel> {
    Map::empty().insert("source"@, JsonModel::Text("openai_compatible_billing"@)).insert(
        "base_url"@,
        JsonModel::Text(base_url),
    ).insert("subscription_url"@, JsonModel::Text(subscription_url)).insert(
        "usage_url"@,
        JsonModel::Text(usage_url),
    ).insert("remaining_amount"@, amounts.remaining@).insert("used_amount"@, amounts.used@).insert(
        "total_amount"@,
        amounts.total@,
    ).insert(
        "remaining_percentage"@,
        JsonModel::Number(int_number(amounts.remaining_percentage as i64)),
    ).insert("access_until"@, int_or_null(access_until)).insert("subscription"@, subscription).insert(
        "usage"@,
        usage,
    )
}

/// A time after 1970 began.
pub open spec fn positive_time(t: Option<i64>) -> Option<i64> {
    match t {
        Some(t) if t > 0 => Some(t),
        _ => None,
    }
}

/// The message about a key whose billing knows no limit.
pub open spec fn unlimited_message() -> Seq<char> {
    "第三方 API Key 接口返回的是无限 Key 额度，不是真实订阅套餐额度；请配置控制台登录信息或 Token 后刷新。"@
}

/// The quota that the billing of an API key makes up, unless it knows no limit. `amounts` is what
/// the two replies add up to; it is not accepted where the total is as good as unlimited.
pub fn build_quota_from_api_key_billing(
    base_url: &str,
    subscription_url: &str,
    usage_url: &str,
    subscription: Json,
    usage: Json,
    amounts: BillingAmounts,
) -> (r: Result<CodexQuota, String>)
    ensures
        if !amounts.accepted {
            r matches Err(message) && message@ == unlimited_message()
        } else {
            let until = field_int(subscription@, "access_until"@);
            r matches Ok(quota) && quota.deep_view() == billing_quota(
                amounts.remaining_percentage,
                positive_time(until),
                key_details(
                    base_url@,
                    subscription_url@,
                    usage_url@,
                    amounts,
                    until,
                    subscription@,
                    usage@,
                ),
            )
        },
{
    if !amounts.accepted {
        return Err(
            "第三方 API Key 接口返回的是无限 Key 额度，不是真实订阅套餐额度；请配置控制台登录信息或 Token 后刷新。".to_owned(),
        );
    }
    let until: Option<i64> = json_i64(&subscription, "access_until");
    let percentage: i32 = amounts.remaining_percentage;
    let mut details = JsonObject::new();
    details.set("source", json_from_str("openai_compatible_billing"));
    details.set("base_url", json_from_str(base_url));
    details.set("subscription_url", json_from_str(subscription_url));
    details.set("usage_url", json_from_str(usage_url));
    details.set("remaining_amount", amounts.remaining);
    details.set("used_amount", amounts.used);
    details.set("total_amount", amounts.total);
    details.set("remaining_percentage", json_from_i64(percentage as i64));
    details.set("access_until", json_int_or_null(until));
    details.set("subscription", subscription);
    details.set("usage", usage);
    let reset_time: Option<i64> = match until {
        Some(t) => if t > 0 {
            Some(t)
        } else {
            None
        },
        None => None,
    };
    Ok(build_billing_quota(percentage, reset_time, details))
}

// ---------------------------------------------------------------------------------------------
// Laws
// ---------------------------------------------------------------------------------------------
proof fn lemma_active_places(
    items: Seq<JsonModel>,
    end_times: Seq<Option<i64>>,
    now: i64,
    n: nat,
)
    requires
        n <= items.len(),
    ensures
        forall|k: int|
            0 <= k < active_places(items, end_times, now, n).len() ==> 0 <= (
            #[trigger] active_places(items, end_times, now, n)[k]) < n,
        forall|i: int|
            0 <= i < n ==> (active_places(items, end_times, now, n).contains(i)
                <==> #[trigger] is_active(items[i], end_at(end_times, i), now)),
    decreases n,
{
    if n > 0 {
        let m = (n - 1) as nat;
        lemma_active_places(items, end_times, now, m);
        let before = active_places(items, end_times, now, m);
        let r = active_places(items, end_times, now, n);
        assert forall|i: int| 0 <= i < n implies (r.contains(i) <==> #[trigger] is_active(
            items[i],
            end_at(end_times, i),
            now,
        )) by {
            if is_active(items[m as int], end_at(end_times, m as int), now) {
                assert(r == before.push(m as int));
                assert(r[before.len() as int] == m);
                if i < m {
                    if before.contains(i) {
                        let k = choose|k: int| 0 <= k < before.len() && before[k] == i;
                        assert(r[k] == i);
                    }
                    if r.contains(i) {
                        let k = choose|k: int| 0 <= k < r.len() && r[k] == i;
                        assert(before[k] == i);
                    }
                }
            } else if i == m && r.contains(i) {
                let k = choose|k: int| 0 <= k < r.len() && r[k] == i;
                assert(before[k] < m);
            }
        }
    }
}

/// As soon as one subscription is active, exactly the active ones count; where none is, all do.
pub proof fn active_subscriptions_count(
    items: Seq<JsonModel>,
    end_times: Seq<Option<i64>>,
    now: i64,
)
    ensures
        ({
            let places = counting_places(items, end_times, now);
            let some_active = exists|i: int|
                0 <= i < items.len() && #[trigger] is_active(items[i], end_at(end_times, i), now);
            &&& forall|k: int| 0 <= k < places.len() ==> 0 <= (#[trigger] places[k]) < items.len()
            &&& forall|i: int|
                0 <= i < items.len() ==> (places.contains(i) <==> (!some_active
                    || #[trigger] is_active(items[i], end_at(end_times, i), now)))
        }),
{
    lemma_active_places(items, end_times, now, items.len());
    let active = active_places(items, end_times, now, items.len());
    let places = counting_places(items, end_times, now);
    if active.len() == 0 {
        assert forall|i: int| 0 <= i < items.len() implies places.contains(i) && !(#[trigger] is_active(
            items[i],
            end_at(end_times, i),
            now,
        )) by {
            assert(places[i] == i);
            if is_active(items[i], end_at(end_times, i), now) {
                assert(active.contains(i));
            }
        }
    } else {
        let k = active[0];
        assert(active.contains(k));
        assert(is_active(items[k], end_at(end_times, k), now));
    }
}

/// A subscription is active as long as its own status, or else the status beside it, says so and it has
/// not ended; one that has no end, or one before 1970, does not end.
pub proof fn subscriptions_run_until_they_end(
    fields: Map<Seq<char>, JsonModel>,
    status: Seq<char>,
    end_time: Option<i64>,
    now: i64,
)
    ensures
        ({
            let item = JsonModel::Object(fields);
            let ended = end_time matches Some(t) && 0 < t && t <= now;
            &&& says_within(fields, "subscription"@, "status"@, status) && !is_blank(status) ==> (
            is_active(item, end_time, now) <==> trimmed(status) == "active"@ && !ended)
            &&& !fields.contains_key("subscription"@) && says(fields, "status"@, status) ==> (
            is_active(item, end_time, now) <==> trimmed(status) == "active"@ && !ended)
            &&& !fields.contains_key("subscription"@) && !fields.contains_key("status"@)
                ==> !is_active(item, end_time, now)
            &&& ended ==> !is_active(item, end_time, now)
        }),
{
    reveal_strlit("active");
    let item = JsonModel::Object(fields);
    lemma_path_of_one(item, "status"@);
    lemma_path_of_two(item, "subscription"@, "status"@);
    assert("active"@.len() == 6);
}

proof fn lemma_path_of_one(j: JsonModel, a: Seq<char>)
    ensures
        path_get(j, seq![a]) == json_get(j, a),
{
    reveal_with_fuel(path_get, 2);
    assert(seq![a].drop_first() =~= Seq::<Seq<char>>::empty());
}

proof fn lemma_path_of_two(j: JsonModel, a: Seq<char>, b: Seq<char>)
    ensures
        path_get(j, seq![a, b]) == match json_get(j, a) {
            Some(inner) => json_get(inner, b),
            None => None,
        },
{
    reveal_with_fuel(path_get, 3);
    assert(seq![a, b].drop_first() =~= seq![b]);
    if json_get(j, a) is Some {
        lemma_path_of_one(json_get(j, a)->0, b);
    }
}

/// A path is walked name by name.
pub proof fn paths_are_walked_name_by_name(j: JsonModel, name: Seq<char>, path: Seq<Seq<char>>)
    ensures
        path_get(j, Seq::<Seq<char>>::empty()) == Some(j),
        j matches JsonModel::Object(fields) ==> {
            &&& fields.contains_key(name) ==> path_get(j, seq![name] + path) == path_get(
                fields[name],
                path,
            )
            &&& !fields.contains_key(name) ==> path_get(j, seq![name] + path) is None
        },
        !(j is Object) ==> path_get(j, seq![name] + path) is None,
{
    assert((seq![name] + path).drop_first() =~= path);
}

/// The subscriptions in a reply are the list in its data, or else the list of all of them; a reply
/// without data, or without such a list, is an error.
pub proof fn subscriptions_are_listed_in_the_data(
    fields: Map<Seq<char>, JsonModel>,
    data: Map<Seq<char>, JsonModel>,
    items: Seq<JsonModel>,
)
    ensures
        !fields.contains_key("data"@) ==> subscriptions_in(JsonModel::Object(fields)) == Err::<
            Seq<JsonModel>,
            Seq<char>,
        >("订阅接口缺少 data 字段"@),
        fields.contains_key("data"@) && fields["data"@] == JsonModel::Object(data) ==> {
            let r = subscriptions_in(JsonModel::Object(fields));
            let first = data.contains_key("subscriptions"@) && data["subscriptions"@] is Array;
            let second = data.contains_key("all_subscriptions"@)
                && data["all_subscriptions"@] is Array;
            &&& first && data["subscriptions"@] == JsonModel::Array(items) ==> r == Ok::<
                Seq<JsonModel>,
                Seq<char>,
            >(items)
            &&& !first && second && data["all_subscriptions"@] == JsonModel::Array(items) ==> r
                == Ok::<Seq<JsonModel>, Seq<char>>(items)
            &&& !first && !second ==> r == Err::<Seq<JsonModel>, Seq<char>>(
                "订阅接口没有返回套餐列表"@,
            )
        },
{
}

/// A subscription has the title of its plan, without white space at its ends.
pub proof fn plans_give_their_title(fields: Map<Seq<char>, JsonModel>, title: Seq<char>)
    ensures
        says_within(fields, "plan"@, "title"@, title) && !is_blank(title) ==> plan_title(
            JsonModel::Object(fields),
        ) == Some(trimmed(title)),
        !fields.contains_key("plan"@) && fields.contains_key("subscription"@) && (
        fields["subscription"@] matches JsonModel::Object(inner) && says_within(
            inner,
            "plan"@,
            "title"@,
            title,
        )) && !is_blank(title) ==> plan_title(JsonModel::Object(fields)) == Some(trimmed(title)),
        !fields.contains_key("plan"@) && !fields.contains_key("subscription"@) ==> plan_title(
            JsonModel::Object(fields),
        ) is None,
{
    let item = JsonModel::Object(fields);
    lemma_path_of_two(item, "plan"@, "title"@);
    paths_are_walked_name_by_name(item, "subscription"@, seq!["plan"@, "title"@]);
    assert(seq!["subscription"@] + seq!["plan"@, "title"@] =~= seq![
        "subscription"@,
        "plan"@,
        "title"@,
    ]);
    if fields.contains_key("subscription"@) {
        lemma_path_of_two(fields["subscription"@], "plan"@, "title"@);
    }
}

/// Of the subscriptions that count, the first that has a title gives the title, and the first that ends
/// gives the end.
pub proof fn the_first_that_counts_decides(
    items: Seq<JsonModel>,
    end_times: Seq<Option<i64>>,
    places: Seq<int>,
    n: int,
)
    requires
        0 <= n < places.len(),
        0 <= places[n] < end_times.len(),
    ensures
        plan_title(items[places[n]]) is Some && (forall|k: int|
            0 <= k < n ==> plan_title(items[#[trigger] places[k]]) is None) ==> first_title(
            items,
            places,
        ) == plan_title(items[places[n]]),
        (end_times[places[n]] matches Some(t) && t > 0) && (forall|k: int|
            0 <= k < n ==> 0 <= #[trigger] places[k] < end_times.len() && (
            end_times[places[k]] matches Some(t) ==> t <= 0)) ==> first_end(end_times, places)
            == end_times[places[n]],
        (forall|k: int|
            0 <= k < places.len() ==> plan_title(items[#[trigger] places[k]]) is None)
            ==> first_title(items, places) is None,
        (forall|k: int|
            0 <= k < places.len() ==> 0 <= #[trigger] places[k] < end_times.len() && (
            end_times[places[k]] matches Some(t) ==> t <= 0)) ==> first_end(
            end_times,
            places,
        ) is None,
{
    if plan_title(items[places[n]]) is Some && (forall|k: int|
        0 <= k < n ==> plan_title(items[#[trigger] places[k]]) is None) {
        lemma_first_title(items, places, n);
    }
    if (end_times[places[n]] matches Some(t) && t > 0) && (forall|k: int|
        0 <= k < n ==> 0 <= #[trigger] places[k] < end_times.len() && (
        end_times[places[k]] matches Some(t) ==> t <= 0)) {
        lemma_first_end(end_times, places, n);
    }
    if forall|k: int| 0 <= k < places.len() ==> plan_title(items[#[trigger] places[k]]) is None {
        lemma_first_title(items, places, places.len() as int);
    }
    if forall|k: int|
        0 <= k < places.len() ==> 0 <= #[trigger] places[k] < end_times.len() && (
        end_times[places[k]] matches Some(t) ==> t <= 0) {
        lemma_first_end(end_times, places, places.len() as int);
    }
}

proof fn lemma_first_title(items: Seq<JsonModel>, places: Seq<int>, n: int)
    requires
        0 <= n <= places.len(),
        n < places.len() ==> plan_title(items[places[n]]) is Some,
        forall|k: int| 0 <= k < n ==> plan_title(items[#[trigger] places[k]]) is None,
    ensures
        n < places.len() ==> first_title(items, places) == plan_title(items[places[n]]),
        n == places.len() ==> first_title(items, places) is None,
    decreases places.len(),
{
    if n > 0 {
        let rest = places.drop_first();
        assert forall|k: int| 0 <= k < n - 1 implies plan_title(
            items[#[trigger] rest[k]],
        ) is None by {
            assert(rest[k] == places[k + 1]);
        }
        lemma_first_title(items, rest, n - 1);
        assert(plan_title(items[places[0]]) is None);
    }
}

proof fn lemma_first_end(end_times: Seq<Option<i64>>, places: Seq<int>, n: int)
    requires
        0 <= n <= places.len(),
        n < places.len() ==> 0 <= places[n] < end_times.len() && (
        end_times[places[n]] matches Some(t) && t > 0),
        forall|k: int|
            0 <= k < n ==> 0 <= #[trigger] places[k] < end_times.len() && (
            end_times[places[k]] matches Some(t) ==> t <= 0),
    ensures
        n < places.len() ==> first_end(end_times, places) == end_times[places[n]],
        n == places.len() ==> first_end(end_times, places) is None,
    decreases places.len(),
{
    if n > 0 {
        let rest = places.drop_first();
        assert forall|k: int| 0 <= k < n - 1 implies 0 <= #[trigger] rest[k] < end_times.len() && (
        end_times[rest[k]] matches Some(t) ==> t <= 0) by {
            assert(rest[k] == places[k + 1]);
        }
        lemma_first_end(end_times, rest, n - 1);
        assert(0 <= places[0] < end_times.len());
    }
}

/// Amounts are shown in dollars, unless the console names another unit, in whatever case: yuan with
/// their own sign and rate, a unit of the console's own with the sign that it gives and its own rate,
/// or tokens without a sign.
pub proof fn amounts_are_shown_in_their_unit(
    fields: Map<Seq<char>, JsonModel>,
    unit: Seq<char>,
    symbol: Seq<char>,
)
    ensures
        ({
            let status = JsonModel::Object(fields);
            let named = says(fields, "quota_display_type"@, unit);
            let shown = ascii_uppercased(unit);
            &&& !fields.contains_key("quota_display_type"@) ==> display_symbol(status) == "$"@
                && rate_field(status) is None
            &&& named && shown == "CNY"@ ==> display_symbol(status) == "¥"@ && rate_field(status)
                == Some("usd_exchange_rate"@)
            &&& named && shown == "CUSTOM"@ ==> rate_field(status) == Some(
                "custom_currency_exchange_rate"@,
            ) && tells_or(fields, "custom_currency_symbol"@, "¤"@, display_symbol(status))
            &&& named && shown == "TOKENS"@ ==> display_symbol(status).len() == 0 && rate_field(
                status,
            ) is None
            &&& named && shown != "CNY"@ && shown != "CUSTOM"@ && shown != "TOKENS"@
                ==> display_symbol(status) == "$"@ && rate_field(status) is None
        }),
{
    reveal_strlit("USD");
    reveal_strlit("CNY");
    reveal_strlit("CUSTOM");
    reveal_strlit("TOKENS");
    assert(ascii_uppercased("USD"@)[0] == 'U');
    assert("CNY"@.len() == 3 && "CUSTOM"@.len() == 6 && "TOKENS"@.len() == 6);
    assert("CUSTOM"@[0] == 'C' && "TOKENS"@[0] == 'T' && "CNY"@[0] == 'C');
}

/// The quota of a third party says the same of the hour and of the week, is without windows, and begins
/// anew when the access ends; it keeps what is known of the billing.
pub proof fn billing_counts_for_both_windows(
    percentage: i32,
    reset_time: Option<i64>,
    details: Map<Seq<char>, JsonModel>,
)
    ensures
        ({
            let q = billing_quota(percentage, reset_time, details);
            &&& q.hourly_percentage == percentage
            &&& q.weekly_percentage == percentage
            &&& q.weekly_reset_time == reset_time
            &&& q.hourly_reset_time is None
            &&& q.hourly_window_minutes is None
            &&& q.weekly_window_minutes is None
            &&& q.hourly_window_present == Some(false)
            &&& q.weekly_window_present == Some(false)
            &&& q.raw_data matches Some(JsonModel::Object(raw)) && raw.contains_key(
                "api_key_billing"@,
            ) && raw["api_key_billing"@] == JsonModel::Object(details)
        }),
{
}

/// Whether a field is there and is that value.
pub open spec fn holds_value(
    fields: Map<Seq<char>, JsonModel>,
    name: Seq<char>,
    value: JsonModel,
) -> bool {
    fields.contains_key(name) && fields[name] == value
}

/// Whether a field is there and is that time; where there is none, it is null.
pub open spec fn holds_time(
    fields: Map<Seq<char>, JsonModel>,
    name: Seq<char>,
    time: Option<i64>,
) -> bool {
    match time {
        Some(t) => holds_value(fields, name, JsonModel::Number(int_number(t))),
        None => holds_value(fields, name, JsonModel::Null),
    }
}

/// What is known of the billing of a subscription stands in its own fields: the addresses, the amounts,
/// the end of the access, how amounts are shown, the title, and the two replies as they were.
pub proof fn subscriptions_are_detailed(
    base_url: Seq<char>,
    subscription_url: Seq<char>,
    amounts: BillingAmounts,
    access_until: Option<i64>,
    symbol: Seq<char>,
    title: Option<Seq<char>>,
    status: JsonModel,
    payload: JsonModel,
)
    ensures
        ({
            let d = subscription_details(
                base_url,
                subscription_url,
                amounts,
                access_until,
                symbol,
                title,
                status,
                payload,
            );
            &&& says(d, "source"@, "subscription_console"@)
            &&& says(d, "base_url"@, base_url)
            &&& says(d, "subscription_url"@, subscription_url)
            &&& holds_value(d, "remaining_amount"@, amounts.remaining@)
            &&& holds_value(d, "used_amount"@, amounts.used@)
            &&& holds_value(d, "total_amount"@, amounts.total@)
            &&& holds_value(
                d,
                "remaining_percentage"@,
                JsonModel::Number(int_number(amounts.remaining_percentage as i64)),
            )
            &&& holds_time(d, "access_until"@, access_until)
            &&& says(d, "currency_symbol"@, symbol)
            &&& title matches Some(text) ==> says(d, "title"@, text)
            &&& title is None ==> holds_value(d, "title"@, JsonModel::Null)
            &&& holds_value(d, "status"@, status)
            &&& holds_value(d, "subscription"@, payload)
        }),
{
    lemma_detail_names();
}

proof fn lemma_detail_names()
    ensures
        "source"@.len() == 6 && "source"@[1] == 'o',
        "status"@.len() == 6 && "status"@[1] == 't',
        "base_url"@.len() == 8,
        "usage_url"@.len() == 9,
        "subscription_url"@.len() == 16 && "subscription_url"@[0] == 's',
        "remaining_amount"@.len() == 16 && "remaining_amount"@[0] == 'r',
        "used_amount"@.len() == 11,
        "total_amount"@.len() == 12 && "total_amount"@[0] == 't',
        "access_until"@.len() == 12 && "access_until"@[0] == 'a',
        "subscription"@.len() == 12 && "subscription"@[0] == 's',
        "remaining_percentage"@.len() == 20,
        "currency_symbol"@.len() == 15,
        "title"@.len() == 5 && "title"@[0] == 't',
        "usage"@.len() == 5 && "usage"@[0] == 'u',
{
    reveal_strlit("source");
    reveal_strlit("status");
    reveal_strlit("base_url");
    reveal_strlit("usage_url");
    reveal_strlit("subscription_url");
    reveal_strlit("remaining_amount");
    reveal_strlit("used_amount");
    reveal_strlit("total_amount");
    reveal_strlit("access_until");
    reveal_strlit("subscription");
    reveal_strlit("remaining_percentage");
    reveal_strlit("currency_symbol");
    reveal_strlit("title");
    reveal_strlit("usage");
}

/// What is known of the billing of an API key stands in its own fields: the addresses, the amounts, the
/// end of the access, and the two replies as they were.
pub proof fn keys_are_detailed(
    base_url: Seq<char>,
    subscription_url: Seq<char>,
    usage_url: Seq<char>,
    amounts: BillingAmounts,
    access_until: Option<i64>,
    subscription: JsonModel,
    usage: JsonModel,
)
    ensures
        ({
            let d = key_details(
                base_url,
                subscription_url,
                usage_url,
                amounts,
                access_until,
                subscription,
                usage,
            );
            &&& says(d, "source"@, "openai_compatible_billing"@)
            &&& says(d, "base_url"@, base_url)
            &&& says(d, "subscription_url"@, subscription_url)
            &&& says(d, "usage_url"@, usage_url)
            &&& holds_value(d, "remaining_amount"@, amounts.remaining@)
            &&& holds_value(d, "used_amount"@, amounts.used@)
            &&& holds_value(d, "total_amount"@, amounts.total@)
            &&& holds_value(
                d,
                "remaining_percentage"@,
                JsonModel::Number(int_number(amounts.remaining_percentage as i64)),
            )
            &&& holds_time(d, "access_until"@, access_until)
            &&& holds_value(d, "subscription"@, subscription)
            &&& holds_value(d, "usage"@, usage)
        }),
{
    lemma_detail_names();
}

/// A whole number in a field is that number, and a text in a field is the whole number that it denotes;
/// an end of the access counts only after 1970 began.
pub proof fn whole_numbers_are_read_from_fields(
    fields: Map<Seq<char>, JsonModel>,
    name: Seq<char>,
    n: i64,
    number: serde_json::Number,
    text: Seq<char>,
)
    ensures
        holds_value(fields, name, JsonModel::Number(number)) && number_int(number) == Some(n)
            ==> field_int(JsonModel::Object(fields), name) == Some(n),
        says(fields, name, text) ==> field_int(JsonModel::Object(fields), name) == read_i64(
            trimmed(text),
        ),
        !fields.contains_key(name) ==> field_int(JsonModel::Object(fields), name) is None,
        positive_time(Some(n)) is Some <==> 0 < n,
        0 < n ==> positive_time(Some(n)) == Some(n),
        positive_time(None) is None,
        is_success(JsonModel::Object(fields)) <==> holds_value(
            fields,
            "success"@,
            JsonModel::Bool(true),
        ),
{
}

/// A key whose billing knows no limit is told so, with what to do about it.
pub proof fn unlimited_keys_are_told_so()
    ensures
        unlimited_message()
            == "第三方 API Key 接口返回的是无限 Key 额度，不是真实订阅套餐额度；请配置控制台登录信息或 Token 后刷新。"@,
{
}

} // verus!
