use std::collections::HashSet;

use spruce_grove::json::{Json, JsonNumber, Member};
use spruce_grove::project::{
    bd_candidates, beads_path, discover_governance_docs, doc_candidates, doc_family, doc_label,
    doc_search_dirs, is_governance_name, project_state, sort_issue_rows, status_counts, BdReply,
    DirEntry, DirListing,
};

/// The compact JSON text of a value, members in the order they were built.
fn to_json_text(j: &Json) -> String {
    match j {
        Json::Null => "null".to_string(),
        Json::Bool(b) => b.to_string(),
        Json::Number(JsonNumber::PosInt(u)) => u.to_string(),
        Json::Number(JsonNumber::NegInt(i)) => i.to_string(),
        Json::Number(JsonNumber::Float(t)) => t.clone(),
        Json::Str(s) => serde_json::Value::String(s.clone()).to_string(),
        Json::Array(a) => format!("[{}]", a.iter().map(to_json_text).collect::<Vec<_>>().join(",")),
        Json::Object(m) => {
            let members: Vec<String> = m
                .iter()
                .map(|x| format!("{}:{}", serde_json::Value::String(x.key.clone()), to_json_text(&x.value)))
                .collect();
            format!("{{{}}}", members.join(","))
        }
    }
}

fn obj(pairs: Vec<(&str, Json)>) -> Json {
    Json::Object(
        pairs
            .into_iter()
            .map(|(k, v)| Member { key: k.to_string(), value: v })
            .collect(),
    )
}

fn listing(dir: &str, files: &[&str]) -> DirListing {
    DirListing {
        dir: dir.to_string(),
        entries: files
            .iter()
            .map(|n| DirEntry { name: n.to_string(), is_file: true })
            .collect(),
    }
}

#[test]
fn non_beads_dir_reports_honestly() {
    let v = project_state("/", false, BdReply::Missing, &vec![], &vec![]);
    assert_eq!(v.get("is_beads").and_then(|b| b.as_bool()), Some(false));
    assert!(v.get("note").is_some());
}

#[test]
fn doc_candidates_are_unique() {
    let mut seen = HashSet::new();
    for c in doc_candidates() {
        assert!(seen.insert(c.path), "duplicate doc candidate: {}", c.path);
    }
}

#[test]
fn every_candidate_declares_a_family() {
    for c in doc_candidates() {
        assert!(!c.family.is_empty(), "{} has no family", c.path);
        assert!(!c.label.is_empty(), "{} has no label", c.path);
    }
}

#[test]
fn governance_names_follow_the_convention() {
    assert!(is_governance_name("ADR-007-listen-ports.md"));
    assert!(is_governance_name("BRD.md"));
    assert!(is_governance_name("pipeline.md"));
    assert!(is_governance_name("plan-q3.md"));
    assert!(!is_governance_name("random-notes.md"));
    assert!(!is_governance_name("ADR.txt"));
    assert!(!is_governance_name("PLAN.MD"));
    assert!(!is_governance_name("PLANNING.md"));
}

#[test]
fn convention_finds_numbered_adrs_and_brds() {
    let found = discover_governance_docs(&vec![listing(
        "docs",
        &["ADR-007-listen-ports.md", "BRD.md", "PIPELINE.md", "random-notes.md"],
    )]);
    assert!(found.contains(&"docs/ADR-007-listen-ports.md".to_string()));
    assert!(found.contains(&"docs/BRD.md".to_string()));
    assert!(found.contains(&"docs/PIPELINE.md".to_string()));
    assert!(!found.iter().any(|f| f.contains("random-notes")), "a non-governance doc leaked in: {found:?}");
}

#[test]
fn convention_ignores_directories_that_do_not_exist() {
    let found = discover_governance_docs(&vec![
        listing("", &[]),
        listing("docs", &["ADR.md"]),
        listing("docs/adr", &[]),
        listing("docs/rfc", &[]),
    ]);
    assert_eq!(found, vec!["docs/ADR.md".to_string()]);
}

#[test]
fn convention_results_are_sorted_and_deduped() {
    let found = discover_governance_docs(&vec![
        listing("", &["PLAN.md"]),
        listing("docs", &["BRD.md", "ADR.md", "BRD.md"]),
    ]);
    assert_eq!(found, vec!["PLAN.md".to_string(), "docs/ADR.md".to_string(), "docs/BRD.md".to_string()]);
}

#[test]
fn directories_are_not_documents() {
    let found = discover_governance_docs(&vec![DirListing {
        dir: "docs".to_string(),
        entries: vec![DirEntry { name: "ADR.md".to_string(), is_file: false }],
    }]);
    assert!(found.is_empty());
    assert_eq!(doc_search_dirs(), vec!["", "docs", "docs/adr", "docs/rfc"]);
}

#[test]
fn discovered_labels_and_families() {
    assert_eq!(doc_label("docs/ADR-007-listen_ports.md"), "adr 007 listen ports");
    assert_eq!(doc_label("BRD.md"), "brd");
    assert_eq!(doc_family("docs/adr/0001.md"), "decisions");
    assert_eq!(doc_family("docs/BRD.md"), "requirements");
    assert_eq!(doc_family("docs/PIPELINE.md"), "pipeline");
    assert_eq!(doc_family("docs/RFC.md"), "governance");
}

#[test]
fn issues_sort_by_status_then_priority() {
    let issue = |id: &str, status: &str, pri: Option<u64>| {
        let mut pairs = vec![("id", Json::from_str(id)), ("status", Json::from_str(status))];
        if let Some(p) = pri {
            pairs.push(("priority", Json::uint(p)));
        }
        obj(pairs)
    };
    let issues = vec![
        issue("a", "closed", Some(0)),
        issue("b", "open", Some(2)),
        issue("c", "in_progress", None),
        issue("d", "open", Some(1)),
        issue("e", "blocked", Some(3)),
        issue("f", "open", Some(1)),
        issue("g", "weird", Some(0)),
    ];
    let counts = status_counts(&issues);
    assert_eq!(
        to_json_text(&counts),
        "{\"blocked\":1,\"closed\":1,\"deferred\":0,\"in_progress\":1,\"open\":3,\"total\":7}"
    );
    let sorted = sort_issue_rows(&issues);
    let ids: Vec<String> = sorted
        .iter()
        .map(|r| r.get("id").and_then(|v| v.as_str()).unwrap_or("").to_string())
        .collect();
    assert_eq!(ids, vec!["c", "e", "d", "f", "b", "a", "g"]);
}

#[test]
fn project_payload_lists_docs_and_issues() {
    let issues = vec![obj(vec![("id", Json::from_str("x-1")), ("status", Json::from_str("open"))])];
    let present: Vec<bool> = (0..15).map(|i| i == 4).collect();
    let discovered = vec!["PLAN.md".to_string(), "docs/ADR-1.md".to_string()];
    let v = project_state("/w", true, BdReply::Listed("bd".to_string(), issues), &present, &discovered);
    let text = to_json_text(&v);
    assert!(text.starts_with("{\"bd_found\":true,\"bd_program\":\"bd\",\"counts\":{\"blocked\":0,\"closed\":0,\"deferred\":0,\"in_progress\":0,\"open\":1,\"total\":1},\"cwd\":\"/w\",\"docs\":[{\"discovered\":false,\"family\":\"governance\",\"label\":\"governance\",\"path\":\"GOVERNANCE.md\",\"present\":false}"));
    assert!(text.contains("{\"discovered\":false,\"family\":\"plan\",\"label\":\"plan\",\"path\":\"PLAN.md\",\"present\":true}"));
    // PLAN.md is a candidate, so only the ADR is added as discovered
    assert!(text.contains("{\"discovered\":true,\"family\":\"decisions\",\"label\":\"adr 1\",\"path\":\"docs/ADR-1.md\",\"present\":true}]"));
    assert!(text.ends_with("\"is_beads\":true,\"issues\":[{\"id\":\"x-1\",\"issue_type\":null,\"priority\":null,\"status\":\"open\",\"title\":null,\"updated_at\":null}],\"ok\":true}"));
}

#[test]
fn bd_failures_are_reported() {
    let v = project_state("/w", true, BdReply::Missing, &vec![], &vec![]);
    assert_eq!(
        to_json_text(&v),
        "{\"bd_found\":false,\"is_beads\":true,\"note\":\"bd CLI not found (looked in ~/.local/bin and PATH)\"}"
    );
    let v = project_state("/w", true, BdReply::Failed("  \n".to_string()), &vec![], &vec![]);
    assert_eq!(to_json_text(&v), "{\"bd_found\":true,\"is_beads\":true,\"note\":\"bd list failed\",\"ok\":false}");
    let v = project_state("/w", true, BdReply::Failed(" no db \n".to_string()), &vec![], &vec![]);
    assert_eq!(to_json_text(&v), "{\"bd_found\":true,\"is_beads\":true,\"note\":\"no db\",\"ok\":false}");
    assert_eq!(bd_candidates(Some("/h")), vec!["/h/.local/bin/bd", "bd"]);
    assert_eq!(bd_candidates(None), vec!["bd"]);
    assert_eq!(beads_path("/w"), "/w/.beads");
}

#[test]
fn convention_does_not_recurse_into_vendored_trees() {
    // the tree holds node_modules/pkg/BRD.md, target/debug/ADR.md and docs/PLAN.md;
    // only the search directories are listed, and a directory is no document
    let dir = |name: &str| DirEntry { name: name.to_string(), is_file: false };
    let found = discover_governance_docs(&vec![
        DirListing { dir: String::new(), entries: vec![dir("node_modules"), dir("target"), dir("docs")] },
        listing("docs", &["PLAN.md"]),
        listing("docs/adr", &[]),
        listing("docs/rfc", &[]),
    ]);
    assert_eq!(found, vec!["docs/PLAN.md".to_string()]);
}
