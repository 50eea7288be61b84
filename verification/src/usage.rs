use vstd::prelude::*;

use crate::seq_facts::{first_index, lemma_first_index_bounds};
use crate::text::{chars_of, decimal, push_all, push_decimal, string_from_chars, text_equals};

verus! {

/// One rate-limit window of the Codex usage report.
#[derive(Clone, Copy, Debug, PartialEq, Eq, Structural)]
pub struct CodexUsageWindow {
    pub used_percent: u8,
    pub window_duration_mins: Option<i64>,
    pub resets_at: Option<i64>,
}

/// The Codex usage report: the plan, up to two rate-limit windows, and the credit balance.
#[derive(Clone, Debug, PartialEq, Eq)]
pub struct CodexUsageSnapshot {
    pub plan_type: Option<String>,
    pub primary: Option<CodexUsageWindow>,
    pub secondary: Option<CodexUsageWindow>,
    pub credits_balance: Option<String>,
}

/// A window as the report gives it: `usedPercent` capped at 100, or nothing where the report
/// has no `usedPercent`.
pub fn usage_window(
    used_percent: Option<u64>,
    window_duration_mins: Option<i64>,
    resets_at: Option<i64>,
) -> (window: Option<CodexUsageWindow>)
    ensures
        used_percent is None ==> window is None,
        used_percent matches Some(used) ==> window == Some(
            CodexUsageWindow {
                used_percent: (if used <= 100 {
                    used
                } else {
                    100
                }) as u8,
                window_duration_mins,
                resets_at,
            },
        ),
{
    match used_percent {
        None => None,
        Some(used) => {
            let capped: u8 = if used <= 100 {
                used as u8
            } else {
                100
            };
            Some(CodexUsageWindow { used_percent: capped, window_duration_mins, resets_at })
        },
    }
}

/// A report holds at least one window; one with neither is no report.
pub fn usage_snapshot(
    plan_type: Option<String>,
    primary: Option<CodexUsageWindow>,
    secondary: Option<CodexUsageWindow>,
    credits_balance: Option<String>,
) -> (snapshot: Option<CodexUsageSnapshot>)
    ensures
        snapshot is Some <==> (primary is Some || secondary is Some),
        snapshot matches Some(s) ==> s.primary == primary && s.secondary == secondary
            && s.plan_type == plan_type && s.credits_balance == credits_balance,
{
    if primary.is_some() || secondary.is_some() {
        Some(CodexUsageSnapshot { plan_type, primary, secondary, credits_balance })
    } else {
        None
    }
}

/// The percentage of a window still left.
pub open spec fn remaining_percent(window: CodexUsageWindow) -> int {
    if window.used_percent >= 100 {
        0
    } else {
        100 - window.used_percent
    }
}

/// The smallest percentage left over the windows that the report holds.
pub open spec fn minimum_remaining(snapshot: CodexUsageSnapshot) -> Option<int> {
    match (snapshot.primary, snapshot.secondary) {
        (Some(p), Some(s)) => Some(
            if remaining_percent(p) <= remaining_percent(s) {
                remaining_percent(p)
            } else {
                remaining_percent(s)
            },
        ),
        (Some(p), None) => Some(remaining_percent(p)),
        (None, Some(s)) => Some(remaining_percent(s)),
        (None, None) => None,
    }
}

/// The smallest percentage left over the report's windows.
pub fn minimum_codex_remaining_percent(snapshot: &CodexUsageSnapshot) -> (remaining: Option<u8>)
    ensures
        match minimum_remaining(*snapshot) {
            Some(m) => remaining == Some(m as u8),
            None => remaining is None,
        },
{
    let primary = match snapshot.primary {
        Some(window) => Some(100u8.saturating_sub(window.used_percent)),
        None => None,
    };
    let secondary = match snapshot.secondary {
        Some(window) => Some(100u8.saturating_sub(window.used_percent)),
        None => None,
    };
    match (primary, secondary) {
        (Some(p), Some(s)) => Some(
            if p <= s {
                p
            } else {
                s
            },
        ),
        (Some(p), None) => Some(p),
        (None, Some(s)) => Some(s),
        (None, None) => None,
    }
}

/// The name of a limit window: five hours and a week by name, other whole days or hours by
/// their count, anything else rolling.
pub open spec fn window_label(duration_mins: Option<i64>) -> Seq<char> {
    match duration_mins {
        Some(m) => if m == 300 {
            "5-hour limit"@
        } else if m == 10_080 {
            "Weekly limit"@
        } else if m > 0 && m % 1_440 == 0 {
            decimal((m / 1_440) as nat) + "-day limit"@
        } else if m > 0 && m % 60 == 0 {
            decimal((m / 60) as nat) + "-hour limit"@
        } else {
            "Rolling limit"@
        },
        None => "Rolling limit"@,
    }
}

/// Names a limit window by its length in minutes.
pub fn codex_window_label(duration_mins: Option<i64>) -> (label: String)
    ensures
        label@ == window_label(duration_mins),
{
    match duration_mins {
        Some(minutes) => {
            if minutes == 300 {
                return "5-hour limit".to_string();
            }
            if minutes == 10_080 {
                return "Weekly limit".to_string();
            }
            if minutes > 0 && minutes % 1_440 == 0 {
                let mut out: Vec<char> = Vec::new();
                push_decimal(&mut out, (minutes / 1_440) as u64);
                push_all(&mut out, &chars_of("-day limit"));
                return string_from_chars(&out);
            }
            if minutes > 0 && minutes % 60 == 0 {
                let mut out: Vec<char> = Vec::new();
                push_decimal(&mut out, (minutes / 60) as u64);
                push_all(&mut out, &chars_of("-hour limit"));
                return string_from_chars(&out);
            }
            "Rolling limit".to_string()
        },
        None => "Rolling limit".to_string(),
    }
}

/// When a window resets, counted from `now` (both in seconds since the Unix epoch): `now` once
/// the time has come, else days and hours, hours and minutes, or (at least one) minutes.
pub open spec fn reset_label(resets_at: i64, now: i64) -> Seq<char> {
    let remaining = resets_at - now;
    if remaining <= 0 {
        "now"@
    } else {
        let days = remaining / 86_400;
        let hours = (remaining % 86_400) / 3_600;
        let minutes = (remaining % 3_600) / 60;
        if days > 0 {
            "in "@ + decimal(days as nat) + "d "@ + decimal(hours as nat) + "h"@
        } else if hours > 0 {
            "in "@ + decimal(hours as nat) + "h "@ + decimal(minutes as nat) + "m"@
        } else {
            "in "@ + decimal(
                if minutes >= 1 {
                    minutes as nat
                } else {
                    1
                },
            ) + "m"@
        }
    }
}

/// Says when a window resets, `now` being the current time in seconds since the Unix epoch.
/// A difference beyond `i64` saturates, as the subtraction does.
pub fn codex_reset_label(resets_at: i64, now: i64) -> (label: String)
    ensures
        label@ == reset_label(
            resets_at,
            if resets_at - now > i64::MAX {
                (resets_at - i64::MAX) as i64
            } else if resets_at - now < i64::MIN {
                (resets_at - i64::MIN) as i64
            } else {
                now
            },
        ),
{
    let difference: i128 = resets_at as i128 - now as i128;
    let remaining: i64 = if difference > i64::MAX as i128 {
        i64::MAX
    } else if difference < i64::MIN as i128 {
        i64::MIN
    } else {
        difference as i64
    };
    if remaining <= 0 {
        return "now".to_string();
    }
    let days = remaining / 86_400;
    let hours = (remaining % 86_400) / 3_600;
    let minutes = (remaining % 3_600) / 60;
    let mut out: Vec<char> = chars_of("in ");
    if days > 0 {
        push_decimal(&mut out, days as u64);
        push_all(&mut out, &chars_of("d "));
        push_decimal(&mut out, hours as u64);
        push_all(&mut out, &chars_of("h"));
    } else if hours > 0 {
        push_decimal(&mut out, hours as u64);
        push_all(&mut out, &chars_of("h "));
        push_decimal(&mut out, minutes as u64);
        push_all(&mut out, &chars_of("m"));
    } else {
        let shown: i64 = if minutes >= 1 {
            minutes
        } else {
            1
        };
        push_decimal(&mut out, shown as u64);
        push_all(&mut out, &chars_of("m"));
    }
    string_from_chars(&out)
}

/// The display name of a Codex plan.
pub open spec fn plan_label(plan: Seq<char>) -> Seq<char> {
    if plan == "free"@ {
        "Free"@
    } else if plan == "go"@ {
        "Go"@
    } else if plan == "plus"@ {
        "Plus"@
    } else if plan == "pro"@ {
        "Pro"@
    } else if plan == "prolite"@ {
        "Pro Lite"@
    } else if plan == "team"@ {
        "Team"@
    } else if plan == "business"@ || plan == "self_serve_business_usage_based"@ {
        "Business"@
    } else if plan == "enterprise"@ || plan == "enterprise_cbp_usage_based"@ {
        "Enterprise"@
    } else if plan == "edu"@ {
        "Edu"@
    } else {
        "Codex"@
    }
}

/// Names a Codex plan for display.
pub fn codex_plan_label(plan: &str) -> (label: &'static str)
    ensures
        label@ == plan_label(plan@),
{
    if text_equals(plan, "free") {
        "Free"
    } else if text_equals(plan, "go") {
        "Go"
    } else if text_equals(plan, "plus") {
        "Plus"
    } else if text_equals(plan, "pro") {
        "Pro"
    } else if text_equals(plan, "prolite") {
        "Pro Lite"
    } else if text_equals(plan, "team") {
        "Team"
    } else if text_equals(plan, "business") || text_equals(plan, "self_serve_business_usage_based") {
        "Business"
    } else if text_equals(plan, "enterprise") || text_equals(plan, "enterprise_cbp_usage_based") {
        "Enterprise"
    } else if text_equals(plan, "edu") {
        "Edu"
    } else {
        "Codex"
    }
}

/// Which rate-limit bucket the report is read from, given the bucket names in the order the
/// reply lists them: the one named `codex`, else the first; none where there is no bucket (the
/// top-level limits are read then).
pub open spec fn chosen_bucket(names: Seq<Seq<char>>) -> Option<int> {
    if names.contains("codex"@) {
        Some(first_index(names, "codex"@) as int)
    } else if names.len() > 0 {
        Some(0)
    } else {
        None
    }
}

/// Chooses the rate-limit bucket to read the usage report from.
pub fn choose_usage_bucket(names: &Vec<String>) -> (chosen: Option<usize>)
    ensures
        match chosen {
            Some(i) => chosen_bucket(names@.map_values(|n: String| n@)) == Some(i as int),
            None => chosen_bucket(names@.map_values(|n: String| n@)) is None,
        },
{
    let ghost views = names@.map_values(|n: String| n@);
    proof {
        lemma_first_index_bounds(views, "codex"@);
    }
    let mut index: usize = 0;
    while index < names.len()
        invariant
            views == names@.map_values(|n: String| n@),
            index <= names@.len(),
            forall|j: int| 0 <= j < index ==> views[j] != "codex"@,
            first_index(views, "codex"@) <= views.len(),
            first_index(views, "codex"@) < views.len() ==> views[first_index(views, "codex"@) as int]
                == "codex"@,
            forall|j: int| 0 <= j < first_index(views, "codex"@) ==> views[j] != "codex"@,
            first_index(views, "codex"@) < views.len() <==> views.contains("codex"@),
        decreases names@.len() - index,
    {
        let found = text_equals(names[index].as_str(), "codex");
        proof {
            assert(views[index as int] == names@[index as int]@);
        }
        if found {
            proof {
                let f = first_index(views, "codex"@);
                if f < index {
                    assert(views[f as int] == "codex"@);
                }
                assert(views.contains("codex"@));
                assert(f == index);
            }
            return Some(index);
        }
        index += 1;
    }
    proof {
        if views.contains("codex"@) {
            let f = first_index(views, "codex"@);
            assert(views[f as int] == "codex"@);
        }
    }
    if names.len() > 0 {
        Some(0)
    } else {
        None
    }
}

} // verus!
