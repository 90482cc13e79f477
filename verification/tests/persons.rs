use presence_organs::sdk::OrganArgs;
use presence_organs::social::{absence_threshold, absence_triggered, grounding, person_of, social_request, PersonProfile};
use presence_organs::state::{
    agent_slug, clean_label, cut_is_clean, has_unfinished_goals, pause_label, paused_card,
    select_snapshot, snapshot_filename, state_request, StateRequest,
};
use presence_organs::agent_card::parse_agent_card;
use presence_organs::vox::{capture_bytes, switch, voice_state, vox_request, VoxRequest, VoxState};
use presence_organs::mood::{count_friction_in, friction_entry, status_cycles, status_since, strain};
use presence_organs::packager::{
    backend_command, change_outcome, choose_backend, dependency_failure, list_failure, organ_arg,
    organ_matches_query, package_arg, resolve_step, search_query, Backend, DepStep, PkgVerb,
    ResolveReport, SystemDep,
};
use presence_organs::dashboard::{active_agent, current_goal, list_organ, nonblank_lines, organ_info, recent_lines, summarize_triad, Theme, ThemeColor};

fn strings(v: &[&str]) -> Vec<String> {
    v.iter().map(|s| s.to_string()).collect()
}

#[test]
fn test_default_owner_profile_creation() {
    let profile = PersonProfile::fresh("owner", 100);
    assert_eq!(profile.person_id, "owner");
    assert!(profile.language.contains("Russian"));
    assert_eq!(profile.register.brevity, "concise");
    assert!(!profile.habits.is_empty());
}

#[test]
fn test_note_habit_and_tune_register() {
    let mut profile = PersonProfile::fresh("owner", 100);
    let n = profile.note_habit("preference", "Prefers Rust over TypeScript", 101);
    assert_eq!(n, 4);
    profile.tune_register(Some("pedagogical".to_string()), None, None);
    assert_eq!(profile.register.tone, "pedagogical");
    assert!(profile.habits.iter().any(|h| h.observation.contains("Prefers Rust")));
    profile.note_habit("boundary", "No force pushes", 102);
    profile.note_habit("boundary", "No force pushes", 103);
    assert_eq!(profile.boundaries.len(), 2);
}

#[test]
fn test_active_interlocutor_grounding() {
    let profile = PersonProfile::fresh("owner", 100);
    let g = grounding(&profile);
    assert!(g.contains("--- active interlocutor: owner ---"));
    assert!(g.contains("Russian dialogue"));
    let other = PersonProfile::fresh("bob", 5);
    assert_eq!(
        grounding(&other),
        "--- active interlocutor: bob ---\nlanguage: auto\nregister: tone=formal, brevity=normal, directness=medium\nhabits:\n(none yet)\nboundaries:\n(none)\n"
    );
}

#[test]
fn social_absence_and_requests() {
    assert_eq!(absence_triggered(100, 50, 10), (0, false));
    assert_eq!(absence_triggered(100, 200, 100), (100, true));
    assert_eq!(absence_threshold(&OrganArgs::from_args(&[])), 86400);
    assert_eq!(person_of(&OrganArgs::from_args(&["--person_id", "ann"])), "ann");
    assert_eq!(social_request(&["social", "--tool", "social_note_habit"]).0, 5);
    assert_eq!(social_request(&["social", "--sense", "x"]), (7, "Unknown sense: x".to_string()));
}

#[test]
fn test_snapshot_and_restore_cycle() {
    let card = "---\nname: arche\nmode: active\nstate:\n  step: 1\n---\nBody 1\n";
    assert_eq!(clean_label("init"), "init");
    assert_eq!(agent_slug("arche.agent"), "arche");
    assert_eq!(snapshot_filename(7, "init", "arche"), "7_init_arche.agent.md");
    assert!(cut_is_clean("lunch"));
    let paused = paused_card(card, "lunch");
    assert!(paused.contains("mode: rest"));
    assert!(paused.contains("paused: lunch"));
    let (_, _, mode, body) = parse_agent_card(&paused);
    assert_eq!(mode, "rest");
    assert!(body.contains("Body 1"));
    let names = strings(&["7_init_arche.agent.md", "9_x_arche.agent.md", "8_init_arche.agent.md"]);
    assert_eq!(select_snapshot(&names, ""), Some(1));
    assert_eq!(select_snapshot(&names, "init"), Some(2));
    assert_eq!(select_snapshot(&names, "none"), None);
}

#[test]
fn state_helpers() {
    assert_eq!(clean_label("my label!"), "my_label");
    assert_eq!(pause_label("a very long reason text"), "pause_a very long rea");
    assert!(!cut_is_clean("aaaaaaaaaaaaaaé"));
    assert!(has_unfinished_goals("- [x] a\n- [ ] b"));
    assert!(matches!(state_request(&["state", "--tool", "restore"]), StateRequest::Restore));
    assert!(matches!(state_request(&["state"]), StateRequest::Meta));
    match state_request(&["state", "--stimulus", "x"]) {
        StateRequest::Unknown { message } => assert_eq!(message, "Unknown stimulus: x"),
        _ => panic!("expected an error"),
    }
}

#[test]
fn vox_switches() {
    let s = VoxState::new();
    let m = switch(s, "mute").unwrap();
    assert!(m.state.mic_muted && !m.state.tts_muted);
    assert_eq!(m.message, "Microphone capture muted");
    assert!(switch(s, "listen").is_none());
    assert!(voice_state(m.state).contains("Microphone capture: muted (/unmute to enable)"));
    assert_eq!(capture_bytes(3), 96000);
    assert!(matches!(vox_request(&OrganArgs::from_args(&["--sense", "voice_state"])), VoxRequest::VoiceState));
    assert!(matches!(vox_request(&OrganArgs::from_args(&["--tool", "vox_listen"])), VoxRequest::Ready));
    assert!(matches!(vox_request(&OrganArgs::from_args(&["--tool", "vox_listen", "--sense", "hearing"])), VoxRequest::Listen));
}

#[test]
fn test_record_and_count_friction() {
    let args = OrganArgs::from_args(&["--kind", "phase_strike", "--detail", "invalid schema"]);
    assert_eq!(friction_entry(&args), ("phase_strike".to_string(), "invalid schema".to_string()));
    let log = "{\"ts\":5}\n{\"ts\":20}\nnot json\n{\"ts\":\"x\"}\n";
    assert_eq!(count_friction_in(log, 10), 1);
    assert_eq!(count_friction_in(log, 0), 2);
    assert_eq!(status_cycles(&OrganArgs::from_args(&["--cycles", "2"])), 2);
    assert_eq!(status_cycles(&OrganArgs::from_args(&["--cycles", "99999999999"])), 1);
    assert_eq!(status_since(&OrganArgs::from_args(&[]), 1000), 100);
    assert_eq!(strain(&OrganArgs::from_args(&[]), 3), (3, 600, true));
}

#[test]
fn test_backend_detection() {
    let b = choose_backend(false, false, false, false, true);
    assert_ne!(b, Backend::Unknown);
    assert_eq!(b.as_str(), "nix");
    assert_eq!(choose_backend(true, false, true, true, true), Backend::Scoop);
    assert_eq!(choose_backend(false, false, false, false, false), Backend::Unknown);
}

#[test]
fn test_packager_search_basic() {
    let args = OrganArgs::from_args(&["--query", "zed"]);
    assert_eq!(search_query(&args).unwrap(), "zed");
    assert_eq!(search_query(&OrganArgs::from_args(&[])).unwrap_err(), "Argument 'query' cannot be empty");
    assert!(organ_matches_query("Zed-bridge", "", "ZED"));
    assert!(!organ_matches_query("io", "files", "zed"));
}

#[test]
fn test_packager_list_basic() {
    let c = backend_command(Backend::Sfsu, PkgVerb::List, None).unwrap();
    assert_eq!(c.program, "sfsu");
    assert_eq!(c.args, strings(&["list", "--json"]));
    assert!(backend_command(Backend::Unknown, PkgVerb::List, None).is_none());
    assert_eq!(list_failure(Some(-2)), "sfsu list failed with code Some(-2)");
    assert_eq!(list_failure(None), "sfsu list failed with code None");
}

#[test]
fn test_packager_resolve_structure() {
    let args = OrganArgs::from_args(&["--organ", "issues"]);
    assert_eq!(organ_arg(&args).unwrap(), "issues");
    let dep = SystemDep {
        binary: Some("rg".to_string()),
        scoop: None,
        nix: Some("ripgrep".to_string()),
        guix: None,
        disables_tools: strings(&["search"]),
        disables_features: Vec::new(),
    };
    match resolve_step(&dep, Backend::Nix, false) {
        DepStep::Install { binary, package } => {
            assert_eq!(binary, "rg");
            assert_eq!(package, "ripgrep");
        }
        _ => panic!("expected an install"),
    }
    assert!(matches!(resolve_step(&dep, Backend::Scoop, true), DepStep::Skip { .. }));
    let mut rep = ResolveReport::new();
    assert_eq!(rep.status(), "already_satisfied");
    rep.record_install("rg".to_string(), "ripgrep".to_string(), &dep);
    assert_eq!(rep.status(), "resolved");
    assert_eq!(rep.unlocked_tools, strings(&["search"]));
    assert_eq!(
        dependency_failure("ripgrep", "issues", "boom"),
        "Failed to install dependency 'ripgrep' for organ 'issues': boom"
    );
}

#[test]
fn packager_commands_and_outcomes() {
    let c = backend_command(Backend::Nix, PkgVerb::Install, Some("jq")).unwrap();
    assert_eq!(c.program, "nix-env");
    assert_eq!(c.args, strings(&["-iA", "nixpkgs.jq"]));
    let u = backend_command(Backend::Scoop, PkgVerb::Update, None).unwrap();
    assert_eq!(u.args, strings(&["-NoProfile", "-Command", "sfsu update"]));
    let ok = change_outcome(Backend::Guix, true, "jq", true, " done \n", "").unwrap();
    assert_eq!(ok.status, "success");
    assert_eq!(ok.output, "done");
    assert_eq!(change_outcome(Backend::Nix, false, "jq", false, "out", "err").unwrap_err(), "nix-env remove failed: out");
    assert_eq!(package_arg(&OrganArgs::from_args(&["--input", "git"])).unwrap(), "git");
}

#[test]
fn dashboard_views() {
    let log = "a\n\nb\nc\n";
    assert_eq!(recent_lines(log, 2), strings(&["c", "b"]));
    assert_eq!(nonblank_lines(log), strings(&["a", "b", "c"]));
    let tr = strings(&["{\"content\":\"Goal: ship it\"}", "{\"content\":\"chat\"}"]);
    assert_eq!(current_goal(&tr), "Goal: ship it");
    assert_eq!(current_goal(&Vec::new()), "Standing by for conscious inquiry");
    assert_eq!(active_agent(Some(" kora \n")), "kora");
    let mut organs = Vec::new();
    assert!(list_organ(&mut organs, organ_info(Some("io"), None, None, None, "name: io")));
    assert!(!list_organ(&mut organs, organ_info(Some("io"), Some("2"), None, None, "")));
    assert_eq!(organs[0].version, "0.1.0");
    assert_eq!(Theme::color(ThemeColor::NeonCyan).g, 0xf0);
}

#[test]
fn triad_summary_of_logs() {
    let tr = "{\"content\":\"Goal: first\"}\n\n{\"content\":\"noise\"}\n{\"content\":\"task goal_done\"}\n";
    let t = summarize_triad(None, Some(tr), Some("f1\nf2\n"), None, Some("i1\n"));
    assert_eq!(t.active_agent, "arche");
    assert_eq!(t.current_goal, "task goal_done");
    assert_eq!(t.current_phase, "Vollzug (Active)");
    assert_eq!(t.transcript_count, 3);
    assert_eq!(t.recent_transcript.len(), 3);
    assert_eq!(t.recent_transcript[0], "{\"content\":\"task goal_done\"}");
    assert_eq!(t.friction_count, 2);
    assert_eq!(t.recent_friction, strings(&["f2", "f1"]));
    assert!(t.outbox_lines.is_empty());
    assert_eq!(t.inbox_lines, strings(&["i1"]));
    let quiet = summarize_triad(Some("nova"), None, None, None, None);
    assert_eq!(quiet.active_agent, "nova");
    assert_eq!(quiet.current_goal, "Standing by for conscious inquiry");
    assert_eq!(quiet.transcript_count, 0);
}
