//! What the command line reads and composes: focus requests for an anchor,
//! anchor lists, refresh-plan modes and degrade profiles.
use vstd::prelude::*;

use crate::lexical::{sorted_distinct, strictly_sorted};
use crate::observability::business::string_views;
use crate::text::{
    chars_of, lines, lines_exec, lower, push_str, starts_with, starts_with_str, string_of, to_lower, trim, trimmed,
    views,
};

verus! {

pub open spec fn labelled(label: Seq<char>, value: Option<&str>) -> Seq<char> {
    match value {
        Some(v) => "\n"@ + label + v@,
        None => Seq::empty(),
    }
}

/// The request sent for a focus anchor: the anchor, then each given detail
/// on a line of its own.
pub open spec fn anchor_request_spec(
    anchor: Seq<char>,
    time: Option<&str>,
    region: Option<&str>,
    core_source: Option<&str>,
    update_cycle: Option<&str>,
) -> Seq<char> {
    "Focus anchor: "@ + anchor + labelled("Time range: "@, time) + labelled("Region: "@, region) + labelled(
        "Core source preference: "@,
        core_source,
    ) + labelled("Update cycle: "@, update_cycle)
}

fn push_labelled(out: &mut Vec<char>, label: &str, value: Option<&str>)
    ensures
        final(out)@ == old(out)@ + labelled(label@, value),
{
    match value {
        Some(v) => {
            push_str(out, "\n");
            push_str(out, label);
            push_str(out, v);
            proof {
                reveal_strlit("\n");
            }
            assert(final(out)@ =~= old(out)@ + labelled(label@, value));
        },
        None => {
            assert(out@ =~= old(out)@ + labelled(label@, value));
        },
    }
}

/// Composes the focus request for an anchor (see `anchor_request_spec`).
pub fn compose_anchor_request(
    anchor: &str,
    time: Option<&str>,
    region: Option<&str>,
    core_source: Option<&str>,
    update_cycle: Option<&str>,
) -> (r: String)
    ensures
        r@ == anchor_request_spec(anchor@, time, region, core_source, update_cycle),
{
    let mut out = chars_of("Focus anchor: ");
    push_str(&mut out, anchor);
    push_labelled(&mut out, "Time range: ", time);
    push_labelled(&mut out, "Region: ", region);
    push_labelled(&mut out, "Core source preference: ", core_source);
    push_labelled(&mut out, "Update cycle: ", update_cycle);
    string_of(&out)
}

/// Whether a line of an anchor list names an anchor: not blank once trimmed,
/// and not a `#` comment.
pub open spec fn anchor_line(l: Seq<char>) -> bool {
    trim(l).len() > 0 && !starts_with(trim(l), "#"@)
}

/// The anchors of an anchor list: its lines trimmed, blank and comment lines
/// dropped, sorted, each once.
pub fn anchors_from_text(raw: &str) -> (r: Vec<String>)
    ensures
        strictly_sorted(string_views(r@)),
        forall|a: Seq<char>|
            string_views(r@).contains(a) <==> exists|k: int|
                0 <= k < lines(raw@).len() && anchor_line(lines(raw@)[k]) && #[trigger] trim(lines(raw@)[k]) == a,
{
    let ls = lines_exec(&chars_of(raw));
    let mut kept: Vec<String> = Vec::new();
    let mut i: usize = 0;
    while i < ls.len()
        invariant
            i <= ls@.len(),
            views(ls@) == lines(raw@),
            forall|a: Seq<char>|
                string_views(kept@).contains(a) <==> exists|k: int|
                    0 <= k < i && anchor_line(lines(raw@)[k]) && #[trigger] trim(lines(raw@)[k]) == a,
        decreases ls.len() - i,
    {
        let t = trimmed(&ls[i]);
        assert(lines(raw@)[i as int] == ls@[i as int]@);
        let ghost k0 = string_views(kept@);
        if t.len() > 0 && !starts_with_str(&t, "#") {
            kept.push(string_of(&t));
            assert(string_views(kept@) =~= k0.push(t@));
        }
        assert forall|a: Seq<char>|
            string_views(kept@).contains(a) <==> exists|k: int|
                0 <= k < i + 1 && anchor_line(lines(raw@)[k]) && #[trigger] trim(lines(raw@)[k]) == a by {
            if string_views(kept@).contains(a) && !k0.contains(a) {
                assert(anchor_line(lines(raw@)[i as int]) && trim(lines(raw@)[i as int]) == a);
            }
            if k0.contains(a) {
                let m = choose|m: int| 0 <= m < k0.len() && k0[m] == a;
                assert(string_views(kept@)[m] == a);
            }
            if exists|k: int| 0 <= k < i + 1 && anchor_line(lines(raw@)[k]) && #[trigger] trim(lines(raw@)[k]) == a {
                let k = choose|k: int| 0 <= k < i + 1 && anchor_line(lines(raw@)[k]) && #[trigger] trim(lines(raw@)[k]) == a;
                if k == i {
                    assert(string_views(kept@)[string_views(kept@).len() - 1] == a);
                }
            }
        }
        i = i + 1;
    }
    sorted_distinct(&kept)
}

/// How a refresh plan runs.
#[derive(Debug, Clone, Copy, PartialEq, Eq, Structural)]
pub enum RefreshPlanMode {
    Detect,
    DryRun,
    Force,
    Page,
}

pub open spec fn refresh_mode_spec(value: Option<&str>) -> RefreshPlanMode {
    let v = lower(
        match value {
            Some(t) => t@,
            None => "detect"@,
        },
    );
    if v == "dry-run"@ || v == "dry_run"@ || v == "dryrun"@ {
        RefreshPlanMode::DryRun
    } else if v == "force"@ {
        RefreshPlanMode::Force
    } else if v == "page"@ {
        RefreshPlanMode::Page
    } else {
        RefreshPlanMode::Detect
    }
}

/// Reads a refresh-plan mode in any ASCII case; `detect` when absent or unknown.
pub fn parse_refresh_plan_mode(value: Option<&str>) -> (r: RefreshPlanMode)
    ensures
        r == refresh_mode_spec(value),
{
    let v = match value {
        Some(t) => to_lower(&chars_of(t)),
        None => to_lower(&chars_of("detect")),
    };
    if crate::text::chars_eq_str(&v, "dry-run") || crate::text::chars_eq_str(&v, "dry_run")
        || crate::text::chars_eq_str(&v, "dryrun") {
        RefreshPlanMode::DryRun
    } else if crate::text::chars_eq_str(&v, "force") {
        RefreshPlanMode::Force
    } else if crate::text::chars_eq_str(&v, "page") {
        RefreshPlanMode::Page
    } else {
        RefreshPlanMode::Detect
    }
}

/// How far the runtime degrades.
#[derive(Debug, Clone, Copy, PartialEq, Eq, Structural)]
pub enum DegradeProfileKind {
    Normal,
    ProviderFallback,
    McpConservative,
    ReadOnly,
    QueueThrottle,
    ManualTakeover,
}

pub open spec fn degrade_profile_spec(value: Seq<char>) -> DegradeProfileKind {
    let v = lower(value);
    if v == "normal"@ {
        DegradeProfileKind::Normal
    } else if v == "provider_fallback"@ || v == "provider-fallback"@ {
        DegradeProfileKind::ProviderFallback
    } else if v == "mcp_conservative"@ || v == "mcp-conservative"@ {
        DegradeProfileKind::McpConservative
    } else if v == "read_only"@ || v == "read-only"@ {
        DegradeProfileKind::ReadOnly
    } else if v == "queue_throttle"@ || v == "queue-throttle"@ {
        DegradeProfileKind::QueueThrottle
    } else {
        DegradeProfileKind::ManualTakeover
    }
}

/// Reads a degrade profile in any ASCII case, with `_` or `-`; an unknown
/// name asks for manual takeover.
pub fn parse_degrade_profile(value: &str) -> (r: DegradeProfileKind)
    ensures
        r == degrade_profile_spec(value@),
{
    let v = to_lower(&chars_of(value));
    if crate::text::chars_eq_str(&v, "normal") {
        DegradeProfileKind::Normal
    } else if crate::text::chars_eq_str(&v, "provider_fallback") || crate::text::chars_eq_str(&v, "provider-fallback") {
        DegradeProfileKind::ProviderFallback
    } else if crate::text::chars_eq_str(&v, "mcp_conservative") || crate::text::chars_eq_str(&v, "mcp-conservative") {
        DegradeProfileKind::McpConservative
    } else if crate::text::chars_eq_str(&v, "read_only") || crate::text::chars_eq_str(&v, "read-only") {
        DegradeProfileKind::ReadOnly
    } else if crate::text::chars_eq_str(&v, "queue_throttle") || crate::text::chars_eq_str(&v, "queue-throttle") {
        DegradeProfileKind::QueueThrottle
    } else {
        DegradeProfileKind::ManualTakeover
    }
}

} // verus!
