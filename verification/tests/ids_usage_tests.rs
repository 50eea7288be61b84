use ade::ids::workspace_identity_hash;
use ade::usage::{
    CodexUsageSnapshot, CodexUsageWindow, choose_usage_bucket, codex_plan_label, codex_reset_label, codex_window_label,
    minimum_codex_remaining_percent, usage_snapshot, usage_window,
};
use ade::{PaneId, WorkspaceId};

#[test]
fn workspace_identity_hash_is_fnv1a_of_the_hyphenated_id() {
    let workspace_id = WorkspaceId::from_u128(0x0000_0000_0000_4000_8000_0000_0000_0001);
    assert_eq!(
        workspace_id.to_text(),
        "00000000-0000-4000-8000-000000000001"
    );
    assert_eq!(workspace_identity_hash(workspace_id), 3_480_239_522);
    assert_eq!(
        workspace_identity_hash(workspace_id),
        workspace_identity_hash(workspace_id)
    );
}

#[test]
fn fresh_identifiers_are_version_4_uuids() {
    let pane = PaneId::new();
    assert_eq!((pane.as_u128() >> 76) & 0xf, 4);
    assert_eq!((pane.as_u128() >> 62) & 0x3, 2);
    assert_eq!(PaneId::from_u128(5).as_u128(), 5);
}

fn window(used: u8) -> CodexUsageWindow {
    CodexUsageWindow {
        used_percent: used,
        window_duration_mins: Some(300),
        resets_at: Some(1_800_000_000),
    }
}

const USAGE_REPLY: &str = r#"{
    "rateLimits": { "primary": { "usedPercent": 90 } },
    "rateLimitsByLimitId": {
        "other": { "primary": { "usedPercent": 80 } },
        "codex": {
            "planType": "plus",
            "primary": { "usedPercent": 27, "windowDurationMins": 300, "resetsAt": 1800000000 },
            "secondary": { "usedPercent": 41, "windowDurationMins": 10080, "resetsAt": 1800100000 },
            "credits": { "balance": "1010.9695550000" }
        }
    }
}"#;

/// Reads a reply the way the app does: the bucket that `choose_usage_bucket` picks, its windows
/// through `usage_window`, the whole through `usage_snapshot`.
fn parse_reply(text: &str) -> Option<CodexUsageSnapshot> {
    let value: serde_json::Value = serde_json::from_str(text).unwrap();
    let fallback = value.get("rateLimits")?;
    let buckets = value
        .get("rateLimitsByLimitId")
        .and_then(serde_json::Value::as_object);
    let names: Vec<String> = buckets
        .map(|buckets| buckets.keys().cloned().collect())
        .unwrap_or_default();
    let limits = match (choose_usage_bucket(&names), buckets) {
        (Some(index), Some(buckets)) => &buckets[&names[index]],
        _ => fallback,
    };
    let window = |name: &str| {
        let window = limits.get(name)?;
        usage_window(
            window.get("usedPercent").and_then(serde_json::Value::as_u64),
            window.get("windowDurationMins").and_then(serde_json::Value::as_i64),
            window.get("resetsAt").and_then(serde_json::Value::as_i64),
        )
    };
    usage_snapshot(
        limits.get("planType").and_then(serde_json::Value::as_str).map(str::to_owned),
        window("primary"),
        window("secondary"),
        limits
            .pointer("/credits/balance")
            .and_then(serde_json::Value::as_str)
            .map(str::to_owned),
    )
}

#[test]
fn codex_usage_parser_prefers_the_codex_limit_bucket() {
    let snapshot = parse_reply(USAGE_REPLY).unwrap();
    assert_eq!(snapshot.plan_type.as_deref(), Some("plus"));
    assert_eq!(snapshot.primary.as_ref().unwrap().used_percent, 27);
    assert_eq!(snapshot.secondary.as_ref().unwrap().used_percent, 41);
    assert_eq!(minimum_codex_remaining_percent(&snapshot), Some(59));
    assert_eq!(codex_window_label(Some(300)), "5-hour limit");
    assert_eq!(codex_window_label(Some(10_080)), "Weekly limit");
    assert_eq!(snapshot.credits_balance.as_deref(), Some("1010.9695550000"));
}

#[test]
fn usage_bucket_is_codex_else_the_first_else_none() {
    let names = |list: &[&str]| list.iter().map(|name| (*name).to_owned()).collect::<Vec<_>>();
    assert_eq!(choose_usage_bucket(&names(&["other", "codex"])), Some(1));
    assert_eq!(choose_usage_bucket(&names(&["codex", "other"])), Some(0));
    assert_eq!(choose_usage_bucket(&names(&["other", "more"])), Some(0));
    assert_eq!(choose_usage_bucket(&names(&[])), None);
    let top_level = parse_reply(r#"{ "rateLimits": { "primary": { "usedPercent": 90 } } }"#).unwrap();
    assert_eq!(top_level.primary.as_ref().unwrap().used_percent, 90);
    let first = parse_reply(
        r#"{ "rateLimits": { "primary": { "usedPercent": 90 } },
             "rateLimitsByLimitId": { "other": { "primary": { "usedPercent": 80 } } } }"#,
    )
    .unwrap();
    assert_eq!(first.primary.as_ref().unwrap().used_percent, 80);
}

#[test]
fn usage_windows_cap_at_one_hundred_and_need_a_window() {
    assert_eq!(usage_window(Some(250), None, None).unwrap().used_percent, 100);
    assert_eq!(usage_window(None, Some(300), None), None);
    assert_eq!(usage_snapshot(None, None, None, None), None);
    let only_secondary = usage_snapshot(None, None, Some(window(100)), None).unwrap();
    assert_eq!(minimum_codex_remaining_percent(&only_secondary), Some(0));
}

#[test]
fn window_labels_name_days_hours_and_the_rest() {
    assert_eq!(codex_window_label(Some(2_880)), "2-day limit");
    assert_eq!(codex_window_label(Some(120)), "2-hour limit");
    assert_eq!(codex_window_label(Some(90)), "Rolling limit");
    assert_eq!(codex_window_label(Some(-60)), "Rolling limit");
    assert_eq!(codex_window_label(None), "Rolling limit");
}

#[test]
fn reset_labels_count_down_from_now() {
    let now = 1_000_000;
    assert_eq!(codex_reset_label(now, now), "now");
    assert_eq!(codex_reset_label(now - 5, now), "now");
    assert_eq!(codex_reset_label(now + 30, now), "in 1m");
    assert_eq!(codex_reset_label(now + 3 * 60, now), "in 3m");
    assert_eq!(codex_reset_label(now + 2 * 3_600 + 5 * 60, now), "in 2h 5m");
    assert_eq!(codex_reset_label(now + 86_400 + 3 * 3_600, now), "in 1d 3h");
}

#[test]
fn plans_get_display_names() {
    assert_eq!(codex_plan_label("plus"), "Plus");
    assert_eq!(codex_plan_label("prolite"), "Pro Lite");
    assert_eq!(codex_plan_label("self_serve_business_usage_based"), "Business");
    assert_eq!(codex_plan_label("enterprise_cbp_usage_based"), "Enterprise");
    assert_eq!(codex_plan_label("mystery"), "Codex");
}
