use presence_organs::ask::{ask_question, inquiry_count, pending_questions, prompt_arg};
use presence_organs::channel::{bridge_line, bridge_step_with, channel_route, inbox_lines, reply, status_line, BridgeReply, ChannelOp};
use presence_organs::acp::AcpRequest;
use presence_organs::cli::{cli_request, CliRequest, CliRule};
use presence_organs::io::{fs_change_report, list_dir, path_arg, resolve_path};
use presence_organs::manual::{
    find_topic, manual_route, manual_topics, parse_manual_sections, read_manual, search_manual,
    ManualCatalog, ManualOp, OrganManualEntry,
};
use presence_organs::memory::{
    find_key, keyword_match_score, memory_route, merge_tags, parse_tags, promoted, recall_cap,
    store_fields, tags_selected, tier_counts, tier_selected, tier_value, tokenize, MemoryOp,
};
use presence_organs::sdk::{extract_arg, OrganArgs, OrganCompatibility};
use presence_organs::shell::{
    build_shell_command, command_text, exec_report, kill_command, shell_route, spawn_error,
    task_files, task_id, task_id_with, timeout_message, timeout_secs, ShellOp,
};

const SAMPLE_MD: &str = "# Manual: sample\n\nIntro.\n\n## Overview\nThe overview.\n\n## Tools Specification\n### `sample_tool`\n\n## Failure Modes & Recovery\n- Cause: Resource exhaustion\n";

fn strings(v: &[&str]) -> Vec<String> {
    v.iter().map(|s| s.to_string()).collect()
}

#[test]
fn test_ask_question_validation() {
    let args = OrganArgs::from_args(&["--question", "Select target"]);
    assert!(ask_question(&args).is_err());

    let args2 = OrganArgs::from_args(&["--question", "Select target", "--options", "opt1,opt2"]);
    let res = ask_question(&args2).unwrap();
    assert_eq!(res.question, "Select target");
    assert_eq!(res.options.len(), 2);
    assert_eq!(res.selected, "opt1");
}

#[test]
fn test_ask_confirm_and_audit_log() {
    let args = OrganArgs::from_args(&["--workspace", "/tmp/ws", "--prompt", "Delete file.txt?"]);
    assert_eq!(prompt_arg(&args, "prompt", "action", "prompt").unwrap(), "Delete file.txt?");
    assert_eq!(pending_questions(inquiry_count("{}\n{}\n") as u64), "--- organ ask: active session inquiries: 2 ---");
}

#[test]
fn test_ask_text() {
    let args = OrganArgs::from_args(&["--workspace", "/tmp/ws", "--prompt", "Please provide name", "--placeholder", "default_val"]);
    assert_eq!(prompt_arg(&args, "prompt", "input", "prompt").unwrap(), "Please provide name");
    let empty = OrganArgs::from_args(&["--prompt", "   "]);
    assert_eq!(prompt_arg(&empty, "prompt", "input", "prompt").unwrap_err(), "Argument 'prompt' cannot be empty");
}

#[test]
fn ask_options_forms() {
    let a = OrganArgs::from_args(&["--question", "Q", "--options", "[\"a\",\"b\",\"c\"]", "--is_multi_select", "true"]);
    let q = ask_question(&a).unwrap();
    assert_eq!(q.options, strings(&["a", "b", "c"]));
    assert!(q.is_multi_select);
    let b = OrganArgs::from_args(&["--question", "Q", "--options", " x , ,y "]);
    assert_eq!(ask_question(&b).unwrap().options, strings(&["x", "y"]));
    let c = OrganArgs::from_args(&["--question", "Q", "--options", "one"]);
    assert_eq!(ask_question(&c).unwrap_err(), "Argument 'options' must contain at least 2 candidate choices");
}

#[test]
fn test_send_reply_and_inbox() {
    let r = reply("Hello from test channel", "test-ch").unwrap();
    assert_eq!(r.channel, "test-ch");
    assert_eq!(r.delivered_chars, 23);
    assert_eq!(r.preview, "Hello from test channel");
    assert_eq!(reply("  ", "x").unwrap_err(), "message cannot be empty");
    let long = "z".repeat(100);
    assert_eq!(reply(&long, "c").unwrap().preview.len(), 80);
    let inbox = "a\nb\n\nc\nd\ne\nf\n";
    assert_eq!(inbox_lines(inbox), strings(&["b", "c", "d", "e", "f"]));
}

#[test]
fn test_send_status() {
    assert_eq!(status_line(" Compiling crates... ").unwrap(), "Compiling crates...");
    assert_eq!(status_line("").unwrap_err(), "status cannot be empty");
    assert!(matches!(channel_route(&OrganArgs::from_args(&["--status", "x"])), ChannelOp::Status { .. }));
    assert!(matches!(channel_route(&OrganArgs::from_args(&["--sense", "incoming_inbox"])), ChannelOp::Inbox));
    match channel_route(&OrganArgs::from_args(&["--message", "hi"])) {
        ChannelOp::Reply { message, channel } => {
            assert_eq!(message, "hi");
            assert_eq!(channel, "active");
        }
        _ => panic!("expected a reply"),
    }
}

#[test]
fn channel_bridge() {
    let req = AcpRequest {
        id: Some("4".to_string()),
        method: "session/prompt".to_string(),
        client_info: None,
        session_id: None,
        prompt: Some("hi".to_string()),
    };
    let act = bridge_step_with(&req, "u");
    assert!(matches!(act.reply, Some(BridgeReply::EndTurn { .. })));
    assert_eq!(act.forward, Some(("hi".to_string(), "active".to_string())));
    let unknown = AcpRequest { method: "x/y".to_string(), prompt: None, ..req };
    match bridge_step_with(&unknown, "u").reply {
        Some(BridgeReply::MethodNotFound { message, .. }) => assert_eq!(message, "method not found: x/y"),
        _ => panic!("expected method not found"),
    }
}

#[test]
fn test_read_specific_topic() {
    let r = read_manual("mock", SAMPLE_MD, Some("tools")).unwrap();
    assert_eq!(r.topic.as_deref(), Some("Tools Specification"));
    assert!(r.content.contains("sample_tool"));
    let err = read_manual("mock", SAMPLE_MD, Some("nonexistent_topic")).unwrap_err();
    assert!(err.starts_with("Topic 'nonexistent_topic' not found in organ 'mock'. Available topics: [\"Header\""));
    assert_eq!(read_manual("mock", SAMPLE_MD, Some("ALL")).unwrap().content, SAMPLE_MD);
}

#[test]
fn test_manual_search() {
    let matches = search_manual("mock", SAMPLE_MD, "EXHAUSTION");
    assert_eq!(matches.len(), 1);
    assert_eq!(matches[0].section, "Failure Modes & Recovery");
    assert_eq!(matches[0].snippet, "- Cause: Resource exhaustion");
    assert_eq!(matches[0].line, 12);
}

#[test]
fn manual_catalog_and_routing() {
    let entry = |name: &str, found: bool| OrganManualEntry {
        name: name.to_string(),
        version: "0.3.0".to_string(),
        description: String::new(),
        manual_found: found,
        path: None,
        topics: Vec::new(),
    };
    let mut cat = ManualCatalog::new();
    cat.offer(entry("zeta", false));
    cat.offer(entry("alpha", false));
    cat.offer(entry("zeta", true));
    cat.offer(entry("alpha", false));
    let names: Vec<&str> = cat.entries().iter().map(|e| e.name.as_str()).collect();
    assert_eq!(names, vec!["alpha", "zeta"]);
    assert!(cat.get("zeta").unwrap().manual_found);
    assert_eq!(manual_topics(SAMPLE_MD)[1], "Overview");
    let secs = parse_manual_sections(SAMPLE_MD);
    assert_eq!(find_topic(&secs, "failure"), Some(3));
    match manual_route(&OrganArgs::from_args(&["--tool", "manual_read", "--organ", "io"])) {
        ManualOp::Read { organ, topic } => {
            assert_eq!(organ, "io");
            assert!(topic.is_none());
        }
        _ => panic!("expected a read"),
    }
    match manual_route(&OrganArgs::from_args(&["--tool", "search"])) {
        ManualOp::Invalid { message } => assert_eq!(message, "Missing required parameter: 'query'"),
        _ => panic!("expected an error"),
    }
    assert!(matches!(manual_route(&OrganArgs::from_args(&[])), ManualOp::List));
}

#[test]
fn test_store_recall_and_stats() {
    let (key, content) = store_fields("architecture.triad", "Presence Triad consists of Cortex, Stem, and Cord.").unwrap();
    let tags = parse_tags("arch,triad,core");
    assert_eq!(tags, strings(&["arch", "triad", "core"]));
    let q = tokenize("Cortex Cord");
    assert_eq!(q, strings(&["cortex", "cord"]));
    let score = keyword_match_score(&q, &tokenize(&key), &tokenize(&content), &tags);
    assert_eq!(score, 2);
    assert!(tier_selected("tier1", "all"));
    assert_eq!(tier_value("tier1"), "tier1");
    assert_eq!(tier_counts(&strings(&["tier1"])), (1, 0));
}

#[test]
fn test_consolidation_promotes_tier() {
    assert!(promoted("tier1", 0, true));
    assert!(promoted("tier1", 3, false));
    assert!(!promoted("tier2", 9, true));
    assert!(!promoted("tier1", 2, false));
    assert_eq!(tier_counts(&strings(&["tier2", "tier1", "tier2"])), (1, 2));
}

#[test]
fn memory_helpers() {
    assert_eq!(tokenize("Hello, wörld! x2"), strings(&["hello", "wörld", "x2"]));
    assert_eq!(parse_tags("[\"A\",\"b\"]"), strings(&["A", "b"]));
    assert_eq!(parse_tags(" A;b  c,"), strings(&["a", "b", "c"]));
    assert_eq!(keyword_match_score(&Vec::new(), &Vec::new(), &Vec::new(), &Vec::new()), 1);
    let mut t = strings(&["x"]);
    merge_tags(&mut t, &strings(&["y", "x", "y"]));
    assert_eq!(t, strings(&["x", "y"]));
    assert_eq!(find_key(&strings(&["Alpha", "beta"]), "BETA"), Some(1));
    assert!(tags_selected(&strings(&["a", "b"]), &strings(&["b"])));
    assert!(!tags_selected(&strings(&["a"]), &strings(&["b"])));
    assert!(tier_selected("TIER2", "tier2"));
    assert!(!tier_selected("tier1", "tier2"));
    assert_eq!(tier_value("TIER2"), "tier2");
    assert_eq!(recall_cap(0), 1);
    assert_eq!(store_fields(" ", "x").unwrap_err(), "key cannot be empty");
    assert_eq!(store_fields("k", " ").unwrap_err(), "content cannot be empty");
    match memory_route(&OrganArgs::from_args(&["--tool", "memory_recall", "--query", "q", "--limit", "x"])).unwrap() {
        MemoryOp::Recall { query, tier, limit, .. } => {
            assert_eq!(query, "q");
            assert_eq!(tier, "all");
            assert_eq!(limit, 5);
        }
        _ => panic!("expected a recall"),
    }
    assert!(memory_route(&OrganArgs::from_args(&["--tool", "other"])).is_err());
}

#[test]
fn test_exec_echo_command() {
    assert_eq!(command_text("  echo 'presence_shell_test' ").unwrap(), "echo 'presence_shell_test'");
    let cmd = build_shell_command(false, "echo 'presence_shell_test'");
    assert_eq!(cmd.program, "sh");
    assert_eq!(cmd.args, strings(&["-c", "echo 'presence_shell_test'"]));
    let rep = exec_report("echo x", Some(0), true, "presence_shell_test\n", "", 12);
    assert_eq!(rep.exit_code, 0);
    assert_eq!(rep.stdout, "presence_shell_test");
    assert_eq!(exec_report("x", None, false, "", "", 0).exit_code, -1);
}

#[test]
fn test_spawn_and_poll_task() {
    let tid = task_id("");
    assert!(tid.starts_with("task-"));
    assert_eq!(task_id_with("", "abc"), "task-abc");
    assert_eq!(task_id("mine"), "mine");
    assert_eq!(task_files("t1"), ("t1.log".to_string(), "t1.json".to_string()));
}

#[test]
fn shell_helpers() {
    assert_eq!(command_text("   ").unwrap_err(), "command cannot be empty");
    assert_eq!(timeout_secs(None), 30);
    assert_eq!(timeout_message(5), "command timed out after 5s and was killed");
    assert_eq!(spawn_error("e1", Some("e2")), "failed to spawn shell (pwsh: e1, cmd: e2)");
    let k = kill_command(false, 42);
    assert_eq!(k.program, "kill");
    assert_eq!(k.args, strings(&["-9", "42"]));
    assert_eq!(build_shell_command(true, "dir").program, "pwsh.exe");
    match shell_route(&OrganArgs::from_args(&["--poll", "--id", "t9"])) {
        ShellOp::Poll { task_id } => assert_eq!(task_id, "t9"),
        _ => panic!("expected a poll"),
    }
    match shell_route(&OrganArgs::from_args(&["--command", "ls", "--timeout", "7"])) {
        ShellOp::Exec { command, timeout, cwd } => {
            assert_eq!(command, "ls");
            assert_eq!(timeout, Some(7));
            assert_eq!(cwd, "");
        }
        _ => panic!("expected a run"),
    }
}

#[test]
fn test_io_write_and_read_file() {
    let args = OrganArgs::from_args(&["--path", "sub/test.txt", "--content", "Hello Native Presence IO!"]);
    let p = path_arg(&args).unwrap();
    assert_eq!(resolve_path("/ws", &p), "/ws/sub/test.txt");
    assert_eq!(resolve_path("/ws/", "/abs"), "/abs");
    assert_eq!(path_arg(&OrganArgs::from_args(&["--file", " "])).unwrap_err(), "Argument 'path' cannot be empty");
}

#[test]
fn test_io_list_files() {
    assert_eq!(list_dir("/ws", None), "/ws");
    assert_eq!(list_dir("/ws", Some(" sub ")), "/ws/sub");
    assert_eq!(fs_change_report(&Vec::new()), "--- organ io: workspace stable, no recent file modifications ---");
    assert_eq!(fs_change_report(&strings(&["a.txt", "b.txt"])), "--- organ io: recent changes: a.txt, b.txt ---");
}

#[test]
fn sdk_helpers() {
    let a = OrganArgs::from_args(&["--args", "{\"query\":\"zed\",\"n\":1}"]);
    assert_eq!(extract_arg(&a, "query").as_deref(), Some("zed"));
    assert_eq!(extract_arg(&a, "n"), None);
    let c = OrganCompatibility { presence: Some("^0.3.0".to_string()), api_version: Some(1), platforms: None, features: None };
    assert!(c.validate("0.3.4", "linux").is_ok());
    assert_eq!(
        c.validate("0.4.0", "linux").unwrap_err(),
        "Presence version requirement '^0.3.0' not satisfied by host '0.4.0'"
    );
    assert!(c.validate("x", "linux").unwrap_err().starts_with("Invalid host presence version 'x': "));
    let p = OrganCompatibility { presence: None, api_version: None, platforms: Some(strings(&["Windows"])), features: None };
    assert!(p.validate("0.3.0", "windows").is_ok());
    assert_eq!(
        p.validate("0.3.0", "linux").unwrap_err(),
        "Platform 'linux' is not supported; required: [\"Windows\"]"
    );
}

#[test]
fn cli_rules() {
    let rules = vec![
        CliRule { flag: "--sense".to_string(), names: strings(&["fs_changes"]), unknown: "Unknown sense: ".to_string(), empty_is_first: true },
        CliRule { flag: "--tool".to_string(), names: strings(&["read_file", "write_file"]), unknown: "Unknown tool: ".to_string(), empty_is_first: false },
    ];
    assert!(matches!(cli_request(&["io"], &rules), CliRequest::Meta));
    assert!(matches!(cli_request(&["io", "--tools"], &rules), CliRequest::Tools));
    assert!(matches!(cli_request(&["io", "--sense"], &rules), CliRequest::Named { rule: 0, name: 0 }));
    assert!(matches!(cli_request(&["io", "--tool", "write_file"], &rules), CliRequest::Named { rule: 1, name: 1 }));
    match cli_request(&["io", "--tool", "x"], &rules) {
        CliRequest::Unknown { message } => assert_eq!(message, "Unknown tool: x"),
        _ => panic!("expected an error"),
    }
    assert!(matches!(cli_request(&["io", "--op", "cat"], &rules), CliRequest::Fallback));
}

#[test]
fn io_rejects_traversal() {
    let err = path_arg(&OrganArgs::from_args(&["--path", "../outside.txt", "--content", "x"])).unwrap_err();
    assert_eq!(err, "Path traversal outside the workspace is rejected: ../outside.txt");
    assert!(path_arg(&OrganArgs::from_args(&["--path", "a/../../b"])).is_err());
    assert!(path_arg(&OrganArgs::from_args(&["--path", "./.."])).is_err());
    assert_eq!(path_arg(&OrganArgs::from_args(&["--path", "a/../b"])).unwrap(), "a/../b");
    assert_eq!(path_arg(&OrganArgs::from_args(&["--path", "a/b/../../c"])).unwrap(), "a/b/../../c");
    assert_eq!(path_arg(&OrganArgs::from_args(&["--path", "..x/y"])).unwrap(), "..x/y");
    assert_eq!(path_arg(&OrganArgs::from_args(&["--path", "/abs/../x"])).unwrap(), "/abs/../x");
}

#[test]
fn bridge_reads_lines() {
    assert!(bridge_line("  ").is_none());
    let err = bridge_line("{oops").unwrap().unwrap_err();
    assert!(err.starts_with("parse error: "));
    let act = bridge_line(r#"{"id":3,"method":"session/prompt","params":{"prompt":"hi"}}"#).unwrap().unwrap();
    match act.reply {
        Some(BridgeReply::EndTurn { id }) => assert_eq!(id, "3"),
        _ => panic!("expected end of turn"),
    }
    assert_eq!(act.forward, Some(("hi".to_string(), "active".to_string())));
    let quiet = bridge_line(r#"{"method":"initialize"}"#).unwrap().unwrap();
    assert!(quiet.reply.is_none() && quiet.forward.is_none());
}
