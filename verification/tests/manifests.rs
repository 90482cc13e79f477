use presence_organs::dashboard::organ_info_of;
use presence_organs::jsonl::json_lines;
use presence_organs::manual::{organ_entry, organ_entry_with};
use presence_organs::packager::{local_install, search_hit, LocalOrganManifest};
use presence_organs::sdk::OrganCompatibility;

#[test]
fn organ_entry_reads_manifest_and_manual() {
    let yaml = "name: io\nversion: 1.2.3\ndescription: File access\n";
    let md = "# IO\n## Read\nread files\n## Write\nwrite files\n";
    let e = organ_entry("io", Some(yaml), Some(md), Some("/x/io/MANUAL.md")).unwrap();
    assert_eq!(e.name, "io");
    assert_eq!(e.version, "1.2.3");
    assert_eq!(e.description, "File access");
    assert!(e.manual_found);
    assert_eq!(e.path.as_deref(), Some("/x/io/MANUAL.md"));
    assert_eq!(e.topics, vec!["Header".to_string(), "Read".to_string(), "Write".to_string()]);
}

#[test]
fn organ_entry_defaults() {
    // No manifest, no manual.
    let e = organ_entry("plan", None, None, None).unwrap();
    assert_eq!(e.version, "0.3.0");
    assert_eq!(e.description, "");
    assert!(!e.manual_found);
    assert!(e.path.is_none());
    assert!(e.topics.is_empty());
    // A manifest that is no YAML, or whose version is no string.
    let bad = organ_entry("plan", Some("key: [unclosed"), None, None).unwrap();
    assert_eq!(bad.version, "0.3.0");
    let num = organ_entry("plan", Some("version: 2\ndescription: Plans\n"), None, None).unwrap();
    assert_eq!(num.version, "0.3.0");
    assert_eq!(num.description, "Plans");
    // A manual that is there but could not be read has no topics.
    let unread = organ_entry("plan", None, None, Some("MANUAL.md")).unwrap();
    assert!(unread.manual_found);
    assert!(unread.topics.is_empty());
    // Hidden and empty names are not listed.
    assert!(organ_entry(".git", Some("version: 1.0.0\n"), None, None).is_none());
    assert!(organ_entry("", None, None, None).is_none());
    // The parsed form.
    let w = organ_entry_with("x", Some((None, Some("d".to_string()))), None, None).unwrap();
    assert_eq!(w.version, "0.3.0");
    assert_eq!(w.description, "d");
}

#[test]
fn json_lines_keep_what_parses() {
    let lines: Vec<String> = vec![
        r#"{"a":1}"#.to_string(),
        "not json".to_string(),
        "".to_string(),
        r#"[1, 2]"#.to_string(),
        r#"{"open":"#.to_string(),
        "42".to_string(),
    ];
    let kept = json_lines(&lines);
    assert_eq!(kept, vec![r#"{"a":1}"#.to_string(), "[1, 2]".to_string(), "42".to_string()]);
    assert!(json_lines(&Vec::new()).is_empty());
}

#[test]
fn dashboard_organ_from_manifest() {
    let o = organ_info_of("name: vox\ntype: service\ndescription: Speech\n").unwrap();
    assert_eq!(o.name, "vox");
    assert_eq!(o.version, "0.1.0");
    assert_eq!(o.organ_type, "service");
    assert_eq!(o.description, "Speech");
    assert!(o.compatible);
    let d = organ_info_of("other: 1\n").unwrap();
    assert_eq!(d.name, "unknown");
    assert_eq!(d.organ_type, "cli");
    assert!(organ_info_of("a: [unclosed").is_none());
}

fn manifest(name: &str, description: &str, compatibility: Option<OrganCompatibility>) -> LocalOrganManifest {
    LocalOrganManifest {
        name: name.to_string(),
        version: "1.0.0".to_string(),
        description: description.to_string(),
        organ_type: "cli".to_string(),
        compatibility,
        tools: 3,
        senses: 1,
    }
}

#[test]
fn packager_search_hits() {
    let m = manifest("Weather", "Forecasts from the sky", None);
    let h = search_hit(&m, "weath", "/o/weather/organ.yaml").unwrap();
    assert_eq!(h.organ, "Weather");
    assert_eq!(h.version, "1.0.0");
    assert_eq!(h.organ_type, "cli");
    assert_eq!(h.path, "/o/weather/organ.yaml");
    assert!(search_hit(&m, "SKY", "p").is_some());
    assert!(search_hit(&m, "rain", "p").is_none());
}

#[test]
fn packager_local_install_checks_compatibility() {
    let ok = local_install(&manifest("io", "", None), "linux").unwrap();
    assert_eq!(ok.organ, "io");
    assert_eq!(ok.version, "1.0.0");
    assert_eq!(ok.tools_discovered, 3);
    assert_eq!(ok.senses_discovered, 1);
    let newer = OrganCompatibility { presence: Some(">=0.4.0".to_string()), api_version: None, platforms: None, features: None };
    assert_eq!(
        local_install(&manifest("io", "", Some(newer)), "linux").unwrap_err(),
        "Presence version requirement '>=0.4.0' not satisfied by host '0.3.0'"
    );
    let windows = OrganCompatibility {
        presence: Some("^0.3".to_string()),
        api_version: None,
        platforms: Some(vec!["windows".to_string()]),
        features: None,
    };
    assert!(local_install(&manifest("io", "", Some(windows)), "linux").is_err());
}
