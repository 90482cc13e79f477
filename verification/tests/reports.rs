use presence_organs::issues::{
    friction_record, github_status, issue_listed, issue_report, issues_route,
    recent_friction_lines, redact_tokens, sanitize_pii, slugify, summarize_issue, GithubOutcome,
    IssuesOp,
};
use presence_organs::sdk::OrganArgs;

#[test]
fn test_sanitize_pii_redacts_tokens() {
    let text = "Error with api key sk-1234567890abcdef and token ghp_secret_gh_token_value_xyz in log";
    let sanitized = sanitize_pii(text, None, None);
    assert!(!sanitized.contains("sk-1234567890abcdef"));
    assert!(!sanitized.contains("ghp_secret_gh_token_value_xyz"));
    assert!(sanitized.contains("<redacted-token>"));
}

#[test]
fn redaction_exact() {
    assert_eq!(
        redact_tokens("key sk-1234567890abcdef, short sk-12 end"),
        "key <redacted-token>, short sk-12 end"
    );
    assert_eq!(redact_tokens("Bearer abcdefghijkl\n"), "<redacted-token>\n");
    assert_eq!(redact_tokens("x GHP_abcdefgh\n"), "x <redacted-token>\n");
    assert_eq!(redact_tokens("a\r\nb"), "a\nb");
    assert_eq!(redact_tokens(""), "");
}

#[test]
fn sanitize_user_and_home() {
    let out = sanitize_pii("alice at /home/alice/x and C:\\home\\alice", Some("alice"), Some("/home/alice"));
    assert_eq!(out, "<username> at /home/<username>/x and C:\\home\\<username>");
    let out2 = sanitize_pii("path /home/bob/x", Some("a"), Some("/home/bob"));
    assert_eq!(out2, "path ~/x");
}

#[test]
fn slugs() {
    assert_eq!(slugify("Sandbox Permission Denied"), "sandbox-permission-denied");
    assert_eq!(slugify("!!!"), "issue");
    assert_eq!(slugify("Ends with dash --"), "ends-with-dash");
}

#[test]
fn test_report_issue_and_list() {
    let rep = issue_report(
        "Sandbox Permission Denied",
        "Bubblewrap failed to mount tmpfs",
        "bug",
        "1700000000",
        "1700000000.5",
        "linux",
        None,
        None,
    )
    .unwrap();
    assert_eq!(rep.title, "Sandbox Permission Denied");
    assert_eq!(rep.filename, "1700000000-sandbox-permission-denied.md");
    let summary = summarize_issue(&rep.filename, &rep.content);
    assert_eq!(summary.title, "Sandbox Permission Denied");
    assert_eq!(summary.category, "bug");
    assert!(issue_listed(&summary.category, ""));
    assert!(issue_listed(&summary.category, "BUG"));
    assert!(!issue_listed(&summary.category, "ux"));
    assert_eq!(
        issue_report("  ", "", "", "1", "1", "linux", None, None).unwrap_err(),
        "title cannot be empty"
    );
}

#[test]
fn test_log_friction_and_recent_sense() {
    let rec = friction_record("tool_failure", "Failed to compile crate", "exit status 1", "high", None, None).unwrap();
    assert_eq!(rec.category, "tool_failure");
    assert_eq!(rec.summary, "Failed to compile crate");
    assert_eq!(rec.severity, "high");
    let d = friction_record("", " x ", "", "", None, None).unwrap();
    assert_eq!(d.category, "friction");
    assert_eq!(d.severity, "normal");
    assert_eq!(friction_record("", "  ", "", "", None, None).unwrap_err(), "summary cannot be empty");
    let log: String = (0..12).map(|i| format!("{{\"n\":{i}}}\n\n")).collect();
    let recent = recent_friction_lines(&log);
    assert_eq!(recent.len(), 10);
    assert_eq!(recent[0], "{\"n\":2}");
    assert_eq!(recent_friction_lines("{\"n\":1}\n").len(), 1);
}

#[test]
fn github_statuses() {
    assert_eq!(github_status(&GithubOutcome::NotRequested), "local_only");
    assert_eq!(
        github_status(&GithubOutcome::Submitted { stdout: " https://x/1 \n".to_string() }),
        "submitted: https://x/1"
    );
}

#[test]
fn issue_routing() {
    match issues_route(&OrganArgs::from_args(&["--tool", "report_issue", "--title", "T"])).unwrap() {
        IssuesOp::Report { title, category, submit_github, .. } => {
            assert_eq!(title, "T");
            assert_eq!(category, "bug");
            assert!(!submit_github);
        }
        _ => panic!("expected a report"),
    }
    assert!(matches!(issues_route(&OrganArgs::from_args(&["--sense", "x"])).unwrap(), IssuesOp::RecentFriction));
    assert!(matches!(issues_route(&OrganArgs::from_args(&["--tool", "list_issues"])).unwrap(), IssuesOp::List { .. }));
    assert!(issues_route(&OrganArgs::from_args(&["--tool", "nothing"])).is_err());
}

#[test]
fn issue_read_back_edges() {
    let rep = issue_report("  Disk full  ", "details", "", "2", "2.0", "linux", None, None).unwrap();
    let summary = summarize_issue(&rep.filename, &rep.content);
    assert_eq!(summary.title, "Disk full");
    assert_eq!(summary.category, "bug");
    // A later line with the title marker wins when the file is read back.
    let rep = issue_report("First", "# Issue: Second", "ux", "3", "3.0", "linux", None, None).unwrap();
    let summary = summarize_issue(&rep.filename, &rep.content);
    assert_eq!(summary.title, "Second");
    assert_eq!(summary.category, "ux");
    let none = summarize_issue("x.md", "no fields here");
    assert_eq!(none.title, "x.md");
    assert_eq!(none.category, "unknown");
}

#[test]
fn bearer_tokens_are_redacted() {
    assert_eq!(redact_tokens("Authorization: Bearer abcdefghijklmnop"), "Authorization: <redacted-token>");
    assert_eq!(redact_tokens("bearer abc"), "bearer abc");
    assert_eq!(redact_tokens("x BEARER abcde\n"), "x <redacted-token>\n");
}

#[test]
fn redaction_matches_unicode_lowercase() {
    // The Kelvin sign lowercases to `k`, so this reads as an `sk-` token.
    assert_eq!(redact_tokens("s\u{212A}-abcdefgh"), "<redacted-token>");
    assert_eq!(redact_tokens("token: SK-ABCDEFGH done"), "token: <redacted-token> done");
    // A character that is already lowercase and no `s` starts no token.
    assert_eq!(redact_tokens("\u{17F}k-abcdefgh"), "\u{17F}k-abcdefgh");
}
