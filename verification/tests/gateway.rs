use presence_organs::acp::{
    default_commands, offer_entry, offer_manifest_commands, offer_organ_commands, parse_cli_args, request_text, AcpGateway, AcpOutput, AcpRequest, AcpResult,
    AcpSender, ClientInfo, ClientProfile, CommandEntry, SessionUpdate,
};

fn request(id: Option<&str>, method: &str) -> AcpRequest {
    AcpRequest {
        id: id.map(|s| s.to_string()),
        method: method.to_string(),
        client_info: None,
        session_id: None,
        prompt: None,
    }
}

fn gateway(profile: ClientProfile, forced: bool) -> AcpGateway {
    AcpGateway::new(AcpSender::new(), profile, forced, ".".to_string())
}

#[test]
fn test_initialize_standard_fallback() {
    let mut gw = gateway(ClientProfile::Default, false);
    gw.handle_message(
        r#"{"jsonrpc":"2.0","id":1,"method":"initialize","params":{"clientInfo":{"name":"GenericClient"}}}"#,
    );
    let out = gw.take_outbox();
    assert_eq!(out.len(), 1);
    match &out[0] {
        AcpOutput::Response { id, result: AcpResult::Initialized { agent_name, profile, .. } } => {
            assert_eq!(id, "1");
            assert_eq!(agent_name, "presence-acp");
            assert_eq!(profile, "standard");
        }
        _ => panic!("expected an initialize response"),
    }
    assert_eq!(gw.effective_profile(), ClientProfile::Default);
}

#[test]
fn test_initialize_zed_autodetect() {
    let mut gw = gateway(ClientProfile::Default, false);
    gw.handle_message(
        r#"{"jsonrpc":"2.0","id":2,"method":"initialize","params":{"clientInfo":{"name":"Zed","version":"0.150.0"}}}"#,
    );
    let out = gw.take_outbox();
    assert_eq!(out.len(), 1);
    match &out[0] {
        AcpOutput::Response { id, result: AcpResult::Initialized { profile, .. } } => {
            assert_eq!(id, "2");
            assert_eq!(profile, "zed");
        }
        _ => panic!("expected an initialize response"),
    }
    assert_eq!(gw.effective_profile(), ClientProfile::Zed);
}

#[test]
fn test_zed_profile_slash_commands_and_prompt() {
    let mut gw = gateway(ClientProfile::Zed, true);
    gw.handle_message(r#"{"jsonrpc":"2.0","id":10,"method":"session/new","params":{}}"#);
    let out = gw.take_outbox();
    assert_eq!(out.len(), 2);
    match &out[0] {
        AcpOutput::Response { id, result: AcpResult::SessionCreated { session_id } } => {
            assert_eq!(id, "10");
            assert!(session_id.starts_with("acp-"));
            assert_eq!(session_id.len(), 40);
        }
        _ => panic!("expected a session response"),
    }
    match &out[1] {
        AcpOutput::Update { update: SessionUpdate::AvailableCommands, .. } => {}
        _ => panic!("expected the available commands update"),
    }
}

#[test]
fn test_method_not_found() {
    let mut gw = gateway(ClientProfile::Default, true);
    gw.handle_message(r#"{"jsonrpc":"2.0","id":99,"method":"unknown/operation","params":{}}"#);
    let out = gw.take_outbox();
    match &out[0] {
        AcpOutput::Error { id, code, message } => {
            assert_eq!(*code, -32601);
            assert_eq!(id.as_deref(), Some("99"));
            assert_eq!(message, "Method not found: unknown/operation");
        }
        _ => panic!("expected an error"),
    }
}

#[test]
fn acp_forced_profile_ignores_client() {
    let mut gw = gateway(ClientProfile::Cli, true);
    let mut req = request(Some("3"), "initialize");
    req.client_info = Some(ClientInfo { name: Some("Zed".to_string()), title: None });
    gw.handle_request(&req);
    assert_eq!(gw.effective_profile(), ClientProfile::Cli);
}

#[test]
fn acp_profile_names() {
    assert_eq!(ClientProfile::from_str("ZED"), ClientProfile::Zed);
    assert_eq!(ClientProfile::from_str("Code"), ClientProfile::VsCode);
    assert_eq!(ClientProfile::from_str("terminal"), ClientProfile::Cli);
    assert_eq!(ClientProfile::from_str("emacs"), ClientProfile::Default);
    let info = ClientInfo { name: None, title: Some("Visual Studio CODE".to_string()) };
    assert_eq!(ClientProfile::auto_detect(Some(&info)), ClientProfile::VsCode);
    assert_eq!(ClientProfile::auto_detect(None), ClientProfile::Default);
}

#[test]
fn acp_prompt_turns() {
    let mut gw = gateway(ClientProfile::Default, true);
    let mut req = request(Some("5"), "session/prompt");
    req.prompt = Some("  hello  ".to_string());
    req.session_id = Some("s1".to_string());
    gw.handle_request(&req);
    let out = gw.take_outbox();
    assert_eq!(out.len(), 2);
    match &out[0] {
        AcpOutput::Update { session_id, update: SessionUpdate::MessageChunk { text } } => {
            assert_eq!(session_id, "s1");
            assert_eq!(text, "Received prompt (profile: Default): \"hello\"\n");
        }
        _ => panic!("expected the echo"),
    }
    match &out[1] {
        AcpOutput::Response { result: AcpResult::EndTurn, .. } => {}
        _ => panic!("expected the end of the turn"),
    }

    let mut zed = gateway(ClientProfile::Zed, true);
    let mut j = request(Some("6"), "session/prompt");
    j.prompt = Some("/journal".to_string());
    zed.handle_request(&j);
    let out = zed.take_outbox();
    assert_eq!(out.len(), 4);
    match &out[1] {
        AcpOutput::Update { session_id, update: SessionUpdate::ToolCall { tool_call_id, title, .. } } => {
            assert_eq!(session_id, "default");
            assert!(tool_call_id.starts_with("t-"));
            assert_eq!(title, "Quest Journal");
        }
        _ => panic!("expected the journal tool call"),
    }
}

#[test]
fn acp_notifications_and_parse_errors() {
    let mut gw = gateway(ClientProfile::Default, false);
    gw.handle_request(&request(None, "initialize"));
    gw.handle_request(&request(Some("7"), "session/cancel"));
    assert!(gw.take_outbox().is_empty());
    gw.reject_unparsable("expected value");
    let out = gw.take_outbox();
    match &out[0] {
        AcpOutput::Error { id, code, message } => {
            assert!(id.is_none());
            assert_eq!(*code, -32700);
            assert_eq!(message, "Parse error: expected value");
        }
        _ => panic!("expected a parse error"),
    }
    assert_eq!(request_text("   "), None);
    assert_eq!(request_text(" {} ").as_deref(), Some("{}"));
}

#[test]
fn acp_command_merging() {
    let mut cmds = default_commands();
    assert_eq!(cmds.len(), 5);
    offer_entry(&mut cmds, "pkg", "Packages", &CommandEntry::Name("/PKG".to_string()));
    offer_entry(&mut cmds, "pkg", "Packages", &CommandEntry::Name("journal".to_string()));
    offer_entry(
        &mut cmds,
        "pkg",
        "Packages",
        &CommandEntry::Described { name: "/sync".to_string(), description: None },
    );
    assert_eq!(cmds.len(), 7);
    assert_eq!(cmds[5], ("pkg".to_string(), "Execute pkg command".to_string()));
    assert_eq!(cmds[6], ("sync".to_string(), "Packages".to_string()));
}

#[test]
fn gateway_command_line() {
    assert_eq!(parse_cli_args(&["acp"]), (ClientProfile::Default, false));
    assert_eq!(parse_cli_args(&["acp", "--zed"]), (ClientProfile::Zed, true));
    assert_eq!(parse_cli_args(&["acp", "--profile", "Terminal"]), (ClientProfile::Cli, true));
    assert_eq!(parse_cli_args(&["acp", "-p", "code", "--cli"]), (ClientProfile::Cli, true));
    // A name after `-p` is consumed, not read as a flag.
    assert_eq!(parse_cli_args(&["acp", "-p", "--zed"]), (ClientProfile::Default, true));
    // A trailing `--profile` with no name changes nothing.
    assert_eq!(parse_cli_args(&["acp", "--vscode", "--profile"]), (ClientProfile::VsCode, true));
    assert_eq!(parse_cli_args(&["acp", "--verbose"]), (ClientProfile::Default, false));
}

#[test]
fn gateway_reads_lines() {
    let mut gw = gateway(ClientProfile::Default, false);
    gw.handle_message("   ");
    assert!(gw.take_outbox().is_empty());
    gw.handle_message("{not json");
    let out = gw.take_outbox();
    match &out[0] {
        AcpOutput::Error { id, code, message } => {
            assert!(id.is_none());
            assert_eq!(*code, -32700);
            assert!(message.starts_with("Parse error: "));
        }
        _ => panic!("expected a parse error"),
    }
    gw.handle_message(r#"{"jsonrpc":"2.0","id":7,"method":"nope"}"#);
    match &gw.take_outbox()[0] {
        AcpOutput::Error { id, code, message } => {
            assert_eq!(id.as_deref(), Some("7"));
            assert_eq!(*code, -32601);
            assert_eq!(message, "Method not found: nope");
        }
        _ => panic!("expected method not found"),
    }
    gw.handle_message(r#"  {"id":"a","method":"initialize","params":{"clientInfo":{"name":"Zed"}}}  "#);
    match &gw.take_outbox()[0] {
        AcpOutput::Response { id, result: AcpResult::Initialized { profile, .. } } => {
            assert_eq!(id, "\"a\"");
            assert_eq!(profile, "zed");
        }
        _ => panic!("expected an initialize response"),
    }
}

#[test]
fn gateway_profile_over_messages() {
    let mut gw = gateway(ClientProfile::Default, false);
    gw.handle_message(r#"{"id":1,"method":"initialize","params":{"clientInfo":{"name":"Zed"}}}"#);
    assert_eq!(gw.effective_profile(), ClientProfile::Zed);
    gw.handle_message(r#"{"id":2,"method":"session/new","params":{}}"#);
    gw.handle_message(r#"{"method":"initialize","params":{"clientInfo":{"name":"VS Code"}}}"#);
    gw.handle_message("not json at all");
    gw.handle_message("");
    assert_eq!(gw.effective_profile(), ClientProfile::Zed);
    gw.handle_message(r#"{"id":3,"method":"initialize","params":{"clientInfo":{"title":"Visual Studio Code"}}}"#);
    assert_eq!(gw.effective_profile(), ClientProfile::VsCode);
    gw.handle_message(r#"{"id":4,"method":"initialize","params":{}}"#);
    assert_eq!(gw.effective_profile(), ClientProfile::Default);

    let mut forced = gateway(ClientProfile::Cli, true);
    forced.handle_message(r#"{"id":1,"method":"initialize","params":{"clientInfo":{"name":"Zed"}}}"#);
    forced.handle_message(r#"{"id":2,"method":"initialize","params":{"clientInfo":{"name":"vscode"}}}"#);
    assert_eq!(forced.effective_profile(), ClientProfile::Cli);
}

#[test]
fn gateway_manifest_commands() {
    let mut cmds = default_commands();
    let yaml = "name: pkg\ndescription: Packages\nslash_commands:\n  - /Install\n  - name: sync\n  - name: /Sync\n    description: again\n  - name: purge\n    description: Purge all\n  - 7\n  - journal\n";
    offer_organ_commands(&mut cmds, yaml);
    assert_eq!(cmds.len(), 8);
    assert_eq!(cmds[5], ("install".to_string(), "Execute pkg command".to_string()));
    assert_eq!(cmds[6], ("sync".to_string(), "Packages".to_string()));
    assert_eq!(cmds[7], ("purge".to_string(), "Purge all".to_string()));
    // `commands` is read where there is no `slash_commands`; a manifest
    // without a name runs its commands under "organ".
    let mut more = default_commands();
    offer_organ_commands(&mut more, "commands:\n  - Deploy\n");
    assert_eq!(more.len(), 6);
    assert_eq!(more[5], ("deploy".to_string(), "Execute organ command".to_string()));
    // Text that is no YAML mapping with a list adds nothing.
    let mut none = default_commands();
    offer_organ_commands(&mut none, "name: [unclosed");
    offer_organ_commands(&mut none, "slash_commands: not-a-list\ncommands:\n  - x\n");
    assert_eq!(none.len(), 5);
    // The parsed form gives the same.
    let mut parsed = default_commands();
    offer_manifest_commands(
        &mut parsed,
        Some((None, Some("Desc".to_string()), Some(vec![CommandEntry::Described { name: "/Go".to_string(), description: None }]))),
    );
    assert_eq!(parsed[5], ("go".to_string(), "Desc".to_string()));
}
