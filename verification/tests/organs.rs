use presence_organs::agent_card::{parse_agent_card, update_agent_frontmatter};
use presence_organs::manual::parse_manual_sections;
use presence_organs::mood::derive_mood;
use presence_organs::response::OrganResponse;
use presence_organs::sdk::OrganArgs;
use presence_organs::shell::truncate_safe;

const SAMPLE_MD: &str = r#"
# Manual: sample_organ

A mock sample organ for testing.
Version: 0.3.0

## Overview
This is the overview description of sample organ.

## Environment & Dependencies
- Platforms: Windows and Linux
- Runtime: bun

## Tools Specification

### `sample_tool`
- Description: Performs sample action.
- Parameters: `count` (number)

## Senses & Stimuli
- Senses: `sample_sense`
- Stimuli: `sample_stimulus`

## Failure Modes & Recovery
- Error: `Sample failure`
  - Cause: Resource exhaustion
"#;

#[test]
fn test_parse_manual_sections() {
    let sections = parse_manual_sections(SAMPLE_MD);
    assert_eq!(sections.len(), 6);
    assert_eq!(sections[0].0, "Header");
    assert_eq!(sections[1].0, "Overview");
    assert!(sections[1].1.contains("overview description"));
    assert_eq!(sections[2].0, "Environment & Dependencies");
    assert_eq!(sections[3].0, "Tools Specification");
    assert!(sections[3].1.contains("sample_tool"));
    assert_eq!(sections[4].0, "Senses & Stimuli");
    assert_eq!(sections[5].0, "Failure Modes & Recovery");
}

#[test]
fn test_derive_mood_matrix() {
    let (w1, p1) = derive_mood(0, 0);
    assert_eq!(w1, "light");
    assert_eq!(p1, "fresh");

    let (w2, p2) = derive_mood(0, 4);
    assert_eq!(w2, "steady");
    assert_eq!(p2, "steady");

    let (w3, p3) = derive_mood(2, 1);
    assert_eq!(w3, "steady");
    assert_eq!(p3, "steady");

    let (w4, p4) = derive_mood(4, 1);
    assert_eq!(w4, "heavy");
    assert_eq!(p4, "restless");

    let (w5, p5) = derive_mood(8, 2);
    assert_eq!(w5, "heavy");
    assert_eq!(p5, "agitated");
}

#[test]
fn test_truncate_safe() {
    let s = "a".repeat(100);
    let res = truncate_safe(&s, 50);
    assert!(res.contains("[truncated to 50 bytes]"));
}

#[test]
fn test_parse_agent_card_roundtrip() {
    let raw = r#"---
name: arche
mode: active
organs:
  - io
  - plan
state:
  current_goal: test_execution
  iteration: 3
---
# Arche Personality
Living context body.
"#;
    let (state, organs, mode, body) = parse_agent_card(raw);
    assert_eq!(mode, "active");
    assert_eq!(organs, vec!["io", "plan"]);
    assert_eq!(state.get("current_goal").map(|s| s.as_str()), Some("test_execution"));
    assert!(body.contains("Living context body."));

    let updated = update_agent_frontmatter(raw, Some("rest"), &[("iteration", "4")]);
    let (state2, _, mode2, _) = parse_agent_card(&updated);
    assert_eq!(mode2, "rest");
    assert_eq!(state2.get("iteration").map(|s| s.as_str()), Some("4"));
}

#[test]
fn card_mode_line_follows_opening_delimiter() {
    let updated = update_agent_frontmatter("---\nname: a\n---\nBody\n", Some("rest"), &[]);
    assert_eq!(updated, "---\nmode: rest\nname: a\n---\nBody\n");
    let (_, _, mode, body) = parse_agent_card(&updated);
    assert_eq!(mode, "rest");
    assert_eq!(body, "Body\n");
    // An empty frontmatter gets its mode line on a line of its own too.
    assert_eq!(update_agent_frontmatter("---\n---\nBody\n", Some("rest"), &[]), "---\nmode: rest\n---\nBody\n");
    assert_eq!(update_agent_frontmatter("---\n---\nBody\n", None, &[]), "---\n---\nBody\n");
    // An existing mode line is rewritten where it stands.
    let again = update_agent_frontmatter(&updated, Some("active"), &[]);
    assert_eq!(again, "---\nmode: active\nname: a\n---\nBody\n");
}

#[test]
fn card_update_reads_back() {
    // No mode line yet: one is put right after the opening `---`; a new state key is appended to the
    // trailing state block; an existing one is rewritten in place.
    let raw = "---\nname: nova\nstate:\n  step: 1\n---\nBody\n";
    let updated = update_agent_frontmatter(raw, Some("rest"), &[("step", "2"), ("next", "paused: lunch")]);
    assert_eq!(updated, "---\nmode: rest\nname: nova\nstate:\n  step: 2\n  next: paused: lunch\n---\nBody\n");
    let (state, organs, mode, body) = parse_agent_card(&updated);
    assert_eq!(mode, "rest");
    assert_eq!(state.get("step").map(|s| s.as_str()), Some("2"));
    assert_eq!(state.get("next").map(|s| s.as_str()), Some("paused: lunch"));
    assert!(organs.is_empty());
    assert_eq!(body, "Body\n");
    // A card without frontmatter is left as it is and reads with no mode.
    assert_eq!(update_agent_frontmatter("plain", Some("rest"), &[]), "plain");
    let (_, _, mode, body) = parse_agent_card("plain");
    assert_eq!(mode, "");
    assert_eq!(body, "plain");
}

#[test]
fn organ_response_json() {
    let ok = OrganResponse::ok();
    assert_eq!(ok.to_json_string(), "{\"status\":\"ok\"}");
    assert_eq!(ok.exit_code(), 0);
    let err = OrganResponse::error("bad \"x\"\n\u{1}\\".to_string());
    assert_eq!(err.to_json_string(), "{\"status\":\"error\",\"error\":\"bad \\\"x\\\"\\n\\u0001\\\\\"}");
    assert_eq!(err.exit_code(), 1);
    let r = OrganResponse::ok()
        .with_field("count".to_string(), "1".to_string())
        .with_field("items".to_string(), "[\"a\"]".to_string())
        .with_field("count".to_string(), "2".to_string());
    assert_eq!(r.to_json_string(), "{\"status\":\"ok\",\"items\":[\"a\"],\"count\":2}");
    assert_eq!(r.data.get("count").map(|s| s.as_str()), Some("2"));
}

#[test]
fn args_come_from_items() {
    let a = OrganArgs::from_args(&["--tool=scan", "--depth", "3", "--verbose", "run", "--a=b=c"]);
    assert_eq!(a.tool.as_deref(), Some("scan"));
    assert!(a.sense.is_none() && a.stimulus.is_none() && a.reflex.is_none());
    assert!(a.action.is_none());
    assert_eq!(a.get("verbose"), Some("run"));
    let mut keys: Vec<&str> = a.params.entries.iter().map(|(k, _)| k.as_str()).collect();
    keys.sort();
    assert_eq!(keys, vec!["a", "depth", "verbose"]);
    assert_eq!(a.get("a"), Some("b=c"));
}
