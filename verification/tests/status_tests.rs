//! Orchestrator status merge tests.

use commonplace_doc::status::{OrchestratorStatus, ProcessStatus, STATUS_FILE_PATH};

fn status(name: &str, source_path: Option<&str>) -> ProcessStatus {
    ProcessStatus {
        name: name.to_string(),
        pid: Some(42),
        cwd: None,
        state: "running".to_string(),
        document_path: None,
        source_path: source_path.map(|s| s.to_string()),
    }
}

#[test]
fn test_status_path() {
    assert_eq!(
        OrchestratorStatus::path(),
        "/tmp/commonplace-orchestrator-status.json"
    );
    assert_eq!(STATUS_FILE_PATH, "/tmp/commonplace-orchestrator-status.json");
}

#[test]
fn test_merge_replaces_own_cohort_and_sorts() {
    // existing report: one base record, one discovered record
    let existing = OrchestratorStatus {
        orchestrator_pid: 1,
        started_at: 10,
        processes: vec![
            status("zeta", None),
            status("disc", Some("/fs/.processes.json")),
        ],
    };

    // a base-cohort report replaces the base records and keeps discovered
    let base_report = OrchestratorStatus {
        orchestrator_pid: 7,
        started_at: 20,
        processes: vec![status("alpha", None), status("mid", None)],
    };

    let merged = base_report.merge_and_write(Some(existing), true);
    assert_eq!(merged.orchestrator_pid, 7);
    assert_eq!(merged.started_at, 20);
    let names: Vec<&str> = merged.processes.iter().map(|p| p.name.as_str()).collect();
    assert_eq!(names, vec!["alpha", "disc", "mid"], "sorted by name");
    assert!(
        !merged.processes.iter().any(|p| p.name == "zeta"),
        "the old base record was replaced"
    );
}

#[test]
fn test_merge_without_existing() {
    let report = OrchestratorStatus {
        orchestrator_pid: 3,
        started_at: 5,
        processes: vec![status("b", None), status("a", None)],
    };
    let merged = report.merge_and_write(None, true);
    let names: Vec<&str> = merged.processes.iter().map(|p| p.name.as_str()).collect();
    assert_eq!(names, vec!["a", "b"]);
}

#[test]
fn test_merge_discovered_cohort() {
    let existing = OrchestratorStatus {
        orchestrator_pid: 1,
        started_at: 10,
        processes: vec![
            status("base", None),
            status("old-disc", Some("/fs/a.json")),
        ],
    };
    let discovered_report = OrchestratorStatus {
        orchestrator_pid: 1,
        started_at: 10,
        processes: vec![status("new-disc", Some("/fs/b.json"))],
    };
    let merged = discovered_report.merge_and_write(Some(existing), false);
    let names: Vec<&str> = merged.processes.iter().map(|p| p.name.as_str()).collect();
    assert_eq!(names, vec!["base", "new-disc"]);
}
