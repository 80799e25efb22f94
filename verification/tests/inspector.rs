use spruce_grove::inspector::{
    access_payload, access_row, check_open_path, check_open_url, default_settings,
    default_watched_repos, gh_candidates, gh_missing, gh_payload, github_urls, linux_os_line,
    macos_os_line, no_gh_access, parse_git_log, parse_remote_repo, parse_status_lines, repo_state,
    settings_path, validate_settings, windows_os_line, Platform, SettingsError,
};
use spruce_grove::json::{Json, JsonNumber, Member};

/// The compact JSON text of a value, members in the order they were built.
fn to_json_text(j: &Json) -> String {
    match j {
        Json::Null => "null".to_string(),
        Json::Bool(b) => b.to_string(),
        Json::Number(JsonNumber::PosInt(u)) => u.to_string(),
        Json::Number(JsonNumber::NegInt(i)) => i.to_string(),
        Json::Number(JsonNumber::Float(t)) => t.clone(),
        Json::Str(s) => serde_json::Value::String(s.clone()).to_string(),
        Json::Array(a) => format!("[{}]", a.iter().map(to_json_text).collect::<Vec<_>>().join(",")),
        Json::Object(m) => {
            let members: Vec<String> = m
                .iter()
                .map(|x| format!("{}:{}", serde_json::Value::String(x.key.clone()), to_json_text(&x.value)))
                .collect();
            format!("{{{}}}", members.join(","))
        }
    }
}

fn obj(pairs: Vec<(&str, Json)>) -> Json {
    Json::Object(
        pairs
            .into_iter()
            .map(|(k, v)| Member { key: k.to_string(), value: v })
            .collect(),
    )
}

fn set_member(v: &mut Json, key: &str, value: Json) {
    if let Json::Object(m) = v {
        for mem in m.iter_mut() {
            if mem.key == key {
                mem.value = value;
                return;
            }
        }
        m.push(Member { key: key.to_string(), value });
    }
}

#[test]
fn parse_remote_repo_handles_all_github_shapes() {
    assert_eq!(
        parse_remote_repo("https://github.com/t-granlund/spruce-grove-desktop.git"),
        Some("t-granlund/spruce-grove-desktop".into())
    );
    assert_eq!(
        parse_remote_repo("git@github.com:t-granlund/spruce-grove-desktop.git"),
        Some("t-granlund/spruce-grove-desktop".into())
    );
    assert_eq!(
        parse_remote_repo("ssh://git@github.com/t-granlund/spruce-grove-desktop"),
        Some("t-granlund/spruce-grove-desktop".into())
    );
    assert_eq!(parse_remote_repo("https://gitlab.com/a/b.git"), None);
    assert_eq!(parse_remote_repo("https://github.com/onlyowner"), None);
}

#[test]
fn parse_remote_repo_trims_and_drops_trailing_slashes() {
    assert_eq!(
        parse_remote_repo("  https://github.com/owner/repo.git/\n"),
        Some("owner/repo".into())
    );
    assert_eq!(parse_remote_repo("https://github.com/owner/repo//"), Some("owner/repo".into()));
    // a third segment is ignored, an empty owner is refused
    assert_eq!(parse_remote_repo("https://github.com/o/r/tree"), Some("o/r".into()));
    assert_eq!(parse_remote_repo("https://github.com//r"), None);
    assert_eq!(parse_remote_repo(""), None);
}

#[test]
fn parse_git_log_reads_unit_separator_rows() {
    let raw = "abc1234\u{1f}fix the thing\u{1f}2 hours ago\u{1e}\ndef5678\u{1f}init\u{1f}3 days ago\u{1e}\n";
    let rows = parse_git_log(raw);
    assert_eq!(rows.len(), 2);
    assert_eq!(rows[0].hash, "abc1234");
    assert_eq!(rows[0].subject, "fix the thing");
    assert_eq!(rows[0].when, "2 hours ago");
    assert_eq!(parse_git_log("").len(), 0);
}

#[test]
fn parse_git_log_needs_hash_and_subject() {
    let rows = parse_git_log("abc\u{1e}def\u{1f} \u{1e}ghi\u{1f}subject only\u{1e}");
    assert_eq!(rows.len(), 1);
    assert_eq!(rows[0].hash, "ghi");
    assert_eq!(rows[0].subject, "subject only");
    assert_eq!(rows[0].when, "");
}

#[test]
fn parse_status_lines_caps_and_counts() {
    let raw = " M src/a.rs\n?? new.txt\nA  b.txt\n";
    let (rows, total) = parse_status_lines(raw, 2);
    assert_eq!(total, 3);
    assert_eq!(rows.len(), 2);
    assert_eq!(rows[0].path, "src/a.rs");
    assert_eq!(rows[1].status, "??");
}

#[test]
fn parse_status_lines_short_and_blank_lines() {
    // blank lines do not count; a line too short for a path gives an empty path,
    // one too short for a status reads as "??"
    let (rows, total) = parse_status_lines("M\n\n   \nAB\r\n", 10);
    assert_eq!(total, 2);
    assert_eq!(rows[0].status, "??");
    assert_eq!(rows[0].path, "");
    assert_eq!(rows[1].status, "AB");
    assert_eq!(rows[1].path, "");
    // byte 2 inside a two-byte character: no status slice
    let (rows, _) = parse_status_lines("aé path\n", 1);
    assert_eq!(rows[0].status, "??");
}

#[test]
fn settings_validation_enforces_shape() {
    let good = default_settings();
    assert!(validate_settings(&good).is_ok());

    let mut persona = default_settings();
    set_member(
        &mut persona,
        "personas",
        Json::Array(vec![obj(vec![
            ("name", Json::from_str("builder")),
            ("grants", obj(vec![("dictation", Json::Bool(true))])),
        ])]),
    );
    assert!(validate_settings(&persona).is_ok());

    let mut no_version = default_settings();
    set_member(&mut no_version, "version", Json::uint(2));
    assert!(validate_settings(&no_version).is_err());

    let mut empty_name = default_settings();
    set_member(&mut empty_name, "personas", Json::Array(vec![obj(vec![("name", Json::from_str("  "))])]));
    assert!(validate_settings(&empty_name).is_err());

    let mut bad_personas = default_settings();
    set_member(&mut bad_personas, "personas", Json::from_str("not-an-array"));
    assert!(validate_settings(&bad_personas).is_err());

    assert!(validate_settings(&Json::from_str("garbage")).is_err());
}

#[test]
fn settings_errors_name_the_fault() {
    assert_eq!(validate_settings(&Json::Null), Err(SettingsError::NotObject));
    let mut v = default_settings();
    set_member(&mut v, "version", Json::Number(JsonNumber::Float("1.0".into())));
    assert_eq!(validate_settings(&v), Err(SettingsError::BadVersion));
    let mut v = default_settings();
    set_member(&mut v, "personas", Json::Array(vec![obj(vec![("name", Json::uint(3))])]));
    assert_eq!(validate_settings(&v), Err(SettingsError::PersonaNameMissing));
    assert_eq!(SettingsError::PersonaNameMissing.message(), "each persona needs a string name");
    assert_eq!(SettingsError::PersonaNameEmpty.message(), "persona name cannot be empty");
    // a missing personas field is fine
    let v = obj(vec![("version", Json::uint(1))]);
    assert_eq!(validate_settings(&v), Ok(()));
}

#[test]
fn default_settings_text_is_exact() {
    assert_eq!(
        to_json_text(&default_settings()),
        "{\"active_persona\":null,\"default_cwd\":\"\",\"error_report_level\":\"errors\",\"inspector_auto_open\":false,\"personas\":[],\"version\":1,\"watched_repos\":[\"t-granlund/spruce-grove-os\",\"t-granlund/spruce-grove-desktop\"]}"
    );
    let repos = default_watched_repos();
    assert_eq!(repos, vec!["t-granlund/spruce-grove-os".to_string(), "t-granlund/spruce-grove-desktop".to_string()]);
}

#[test]
fn repo_state_assembles_the_payload() {
    let github = gh_payload("o/r", Some(Json::Array(vec![])), None);
    let v = repo_state(
        Some("main"),
        " M a.rs\n",
        "abc\u{1f}init\u{1f}now\u{1e}",
        "git@github.com:o/r.git",
        github,
    )
    .unwrap();
    assert_eq!(
        to_json_text(&v),
        "{\"branch\":\"main\",\"commits\":[{\"hash\":\"abc\",\"subject\":\"init\",\"when\":\"now\"}],\"dirty\":[{\"path\":\"a.rs\",\"status\":\"M\"}],\"dirty_total\":1,\"github\":{\"gh_ok\":true,\"prs\":[],\"repo\":\"o/r\",\"runs\":[]},\"repo\":\"o/r\",\"urls\":{\"actions\":\"https://github.com/o/r/actions\",\"commits\":\"https://github.com/o/r/commits\",\"issues\":\"https://github.com/o/r/issues\",\"pulls\":\"https://github.com/o/r/pulls\",\"repo\":\"https://github.com/o/r\"}}"
    );
    // a remote that is not on GitHub: no repo, no urls, an honest note
    let v = repo_state(Some("dev"), "", "", "https://gitlab.com/a/b", Json::Null).unwrap();
    assert_eq!(
        to_json_text(&v),
        "{\"branch\":\"dev\",\"commits\":[],\"dirty\":[],\"dirty_total\":0,\"github\":{\"gh_ok\":false,\"note\":\"no github origin remote\"},\"repo\":null,\"urls\":null}"
    );
    assert_eq!(
        repo_state(None, "", "", "", Json::Null).err(),
        Some("not a git repository (or git unavailable)".to_string())
    );
}

#[test]
fn gh_payload_reports_what_answered() {
    assert_eq!(
        to_json_text(&gh_payload("o/r", None, None)),
        "{\"gh_ok\":false,\"note\":\"gh unavailable or not authed\"}"
    );
    assert_eq!(
        to_json_text(&gh_payload("o/r", None, Some(Json::Array(vec![Json::uint(1)])))),
        "{\"gh_ok\":true,\"prs\":[],\"repo\":\"o/r\",\"runs\":[1]}"
    );
    assert_eq!(to_json_text(&gh_missing()), "{\"gh_ok\":false,\"note\":\"gh not installed\"}");
    assert_eq!(
        to_json_text(&github_urls("a/b")),
        "{\"actions\":\"https://github.com/a/b/actions\",\"commits\":\"https://github.com/a/b/commits\",\"issues\":\"https://github.com/a/b/issues\",\"pulls\":\"https://github.com/a/b/pulls\",\"repo\":\"https://github.com/a/b\"}"
    );
}

#[test]
fn repo_access_rows() {
    let reply = obj(vec![("viewerPermission", Json::from_str("ADMIN"))]);
    assert_eq!(
        to_json_text(&access_row("a/b", Some(&reply))),
        "{\"ok\":true,\"permission\":\"ADMIN\",\"repo\":\"a/b\"}"
    );
    assert_eq!(
        to_json_text(&access_row("a/b", Some(&obj(vec![])))),
        "{\"ok\":true,\"permission\":null,\"repo\":\"a/b\"}"
    );
    assert_eq!(to_json_text(&access_row("a/b", None)), "{\"ok\":false,\"permission\":null,\"repo\":\"a/b\"}");
    assert_eq!(
        to_json_text(&access_payload("", vec![])),
        "{\"gh_ok\":false,\"login\":\"\",\"repos\":[]}"
    );
    assert_eq!(
        to_json_text(&access_payload("me", vec![Json::Null])),
        "{\"gh_ok\":true,\"login\":\"me\",\"repos\":[null]}"
    );
    assert_eq!(to_json_text(&no_gh_access()), "{\"gh_ok\":false,\"note\":\"gh not installed\",\"repos\":[]}");
}

#[test]
fn only_safe_links_open() {
    assert_eq!(check_open_path("/Users/me/project"), Ok(()));
    assert_eq!(check_open_path("/Users/me/../etc"), Err("path traversal is not a link"));
    assert_eq!(check_open_url("https://github.com"), Ok(()));
    assert_eq!(check_open_url("http://github.com"), Err("only https links open from the inspector"));
    assert_eq!(check_open_url("file:///etc/passwd"), Err("only https links open from the inspector"));
}

#[test]
fn platform_lines_and_paths() {
    assert_eq!(gh_candidates(Platform::MacOs), vec!["/opt/homebrew/bin/gh", "/usr/local/bin/gh", "gh"]);
    assert_eq!(gh_candidates(Platform::Windows), vec!["gh", "C:\\Program Files\\GitHub CLI\\gh.exe"]);
    assert_eq!(gh_candidates(Platform::Linux), vec!["/usr/bin/gh", "/usr/local/bin/gh", "gh"]);
    assert_eq!(
        macos_os_line("ProductName:\tmacOS\nProductVersion:\t14.5\nBuildVersion:\t23F79\n"),
        "macOS 14.5 (23F79)"
    );
    assert_eq!(macos_os_line(""), "macOS");
    assert_eq!(macos_os_line("ProductVersion: 15.0"), "macOS 15.0");
    assert_eq!(linux_os_line("6.8.0", "x86_64"), "Linux 6.8.0 (x86_64)");
    assert_eq!(linux_os_line("", "aarch64"), "Linux (aarch64)");
    assert_eq!(windows_os_line("x86_64"), "Windows (x86_64)");
    assert_eq!(settings_path("/home/me/.config/SpruceGroveDesktop"), "/home/me/.config/SpruceGroveDesktop/settings.json");
    assert_eq!(settings_path("/tmp/"), "/tmp/settings.json");
}

#[test]
fn a_remote_gives_owner_and_repo_only_after_a_github_prefix() {
    assert_eq!(parse_remote_repo("git@github.com:o/r/tree/main"), Some("o/r".to_string()));
    assert_eq!(parse_remote_repo("https://github.com/o/r/"), Some("o/r".to_string()));
    assert_eq!(parse_remote_repo("https://github.com//r"), None);
    assert_eq!(parse_remote_repo("https://github.com/o/"), None);
    assert_eq!(parse_remote_repo("http://github.com/o/r"), None);
}

#[test]
fn settings_pass_exactly_when_well_formed() {
    let persona = |name: Json| Json::Object(vec![Member { key: "name".to_string(), value: name }]);
    let settings = |personas: Option<Json>| {
        let mut m = vec![Member { key: "version".to_string(), value: Json::uint(1) }];
        if let Some(p) = personas {
            m.push(Member { key: "personas".to_string(), value: p });
        }
        Json::Object(m)
    };
    assert!(validate_settings(&settings(None)).is_ok());
    assert!(validate_settings(&settings(Some(Json::Array(vec![persona(Json::from_str("Ada"))])))).is_ok());
    assert_eq!(
        validate_settings(&settings(Some(Json::Array(vec![persona(Json::from_str("Ada")), persona(Json::from_str("  "))])))),
        Err(SettingsError::PersonaNameEmpty)
    );
    assert_eq!(
        validate_settings(&settings(Some(Json::Array(vec![persona(Json::uint(3))])))),
        Err(SettingsError::PersonaNameMissing)
    );
    assert_eq!(validate_settings(&settings(Some(Json::Null))), Err(SettingsError::PersonasNotArray));
    assert_eq!(validate_settings(&Json::Array(vec![])), Err(SettingsError::NotObject));
}
