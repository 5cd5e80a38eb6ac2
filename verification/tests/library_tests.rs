use commandeur::control::{CheckpointSignal, ExecutionControl, ExecutionStatus};
use commandeur::engine::{execute_workflow, RunOracle, FolderModel, WorkspaceModel};
use commandeur::fsmodel::{FolderFs, FsNode};
use commandeur::model::{
    CommandeurOperation, CommandeurWorkflow, OperationDetails, OperationMeta, RenameMode,
    ReplaceMode,
};
use commandeur::pathfrag::sanitize_relative_path;
use commandeur::pyscan::detect_external_python_modules;
use commandeur::rename::{compute_rename_destination, rename_destination_path};
use commandeur::validation::validate_workflow;

// Pausing is a pure delay: the control state after a pause and a resume is
// exactly the running state it started in, and a paused checkpoint only
// ever asks the caller to wait.
#[test]
fn pause_then_resume_restores_the_control_state() {
    let mut c = ExecutionControl::new();
    assert!(matches!(c.status(), ExecutionStatus::Running));
    assert!(matches!(c.checkpoint(), CheckpointSignal::Proceed));
    c.request_pause();
    assert!(matches!(c.status(), ExecutionStatus::Paused));
    assert!(matches!(c.checkpoint(), CheckpointSignal::Wait));
    c.request_resume();
    assert!(matches!(c.status(), ExecutionStatus::Running));
    assert!(matches!(c.checkpoint(), CheckpointSignal::Proceed));
    assert!(c.stop_reason.is_none());
}

#[test]
fn stop_and_finish_transitions() {
    let mut c = ExecutionControl::new();
    c.request_stop(Some("enough".to_string()));
    assert!(matches!(c.status(), ExecutionStatus::Stopping));
    match c.checkpoint() {
        CheckpointSignal::Interrupted(i) => assert_eq!(i.reason, "enough"),
        _ => panic!("a stopping control must interrupt"),
    }
    c.mark_finished();
    assert!(matches!(c.status(), ExecutionStatus::Idle));
    match c.checkpoint() {
        CheckpointSignal::Interrupted(i) => assert_eq!(i.reason, "No active run"),
        _ => panic!("an idle control must interrupt"),
    }
}

// Rename destination computation, one exact case per mode.
#[test]
fn rename_change_extension_keeps_inner_dots() {
    let r = compute_rename_destination("report.v1.txt", &RenameMode::ChangeExtension, "md", None, None);
    assert_eq!(r.unwrap(), "report.v1.md");
}

// The path-level rename keeps the directory part untouched, and a name
// whose only dot leads it counts as having no extension.
#[test]
fn rename_path_preserves_directories_and_leading_dots() {
    assert_eq!(
        rename_destination_path("sub/dir/report.v1.txt", &RenameMode::ChangeExtension, "md", None, None)
            .unwrap(),
        "sub/dir/report.v1.md"
    );
    assert_eq!(
        rename_destination_path("a/.gitignore", &RenameMode::Suffix, "-old", None, None).unwrap(),
        "a/.gitignore-old"
    );
    assert_eq!(
        compute_rename_destination(".gitignore", &RenameMode::ChangeExtension, "txt", None, None)
            .unwrap(),
        ".gitignore.txt"
    );
}

#[test]
fn rename_modes_and_errors() {
    assert_eq!(
        compute_rename_destination("a.txt", &RenameMode::Suffix, "-old", None, None).unwrap(),
        "a-old.txt"
    );
    assert_eq!(
        compute_rename_destination("a.txt", &RenameMode::Prefix, "new-", None, None).unwrap(),
        "new-a.txt"
    );
    assert_eq!(
        compute_rename_destination("a.txt", &RenameMode::Replace, "ignored", Some("a"), Some("b"))
            .unwrap(),
        "b.txt"
    );
    assert!(compute_rename_destination("a.txt", &RenameMode::Suffix, "  ", None, None).is_err());
    assert!(
        compute_rename_destination("a.txt", &RenameMode::ChangeExtension, ".", None, None).is_err()
    );
    assert!(compute_rename_destination("a.txt", &RenameMode::Replace, "x", Some(""), None).is_err());
    assert!(
        compute_rename_destination("a", &RenameMode::Replace, "x", Some("a"), Some("")).is_err()
    );
}

#[test]
fn sanitize_rejects_traversal_and_absolute_paths() {
    assert_eq!(sanitize_relative_path("  a\\b/c  ").unwrap(), "a/b/c");
    assert!(sanitize_relative_path("../etc/passwd").is_err());
    assert!(sanitize_relative_path("a/../b").is_err());
    assert!(sanitize_relative_path("/abs").is_err());
    assert!(sanitize_relative_path("   ").is_err());
}

#[test]
fn detects_external_python_imports() {
    let script = "#!/usr/bin/env python3\nimport os\nimport numpy as np\nfrom pandas.core import x # frame\n  import os.path\nprint('hi') # import fake\nfrom  requests import get\n";
    let found = detect_external_python_modules(script).expect("scan");
    assert_eq!(
        found,
        vec!["numpy".to_string(), "pandas".to_string(), "requests".to_string()]
    );
}

fn op(id: &str, details: OperationDetails) -> CommandeurOperation {
    CommandeurOperation {
        meta: OperationMeta {
            id: id.to_string(),
            label: format!("op {}", id),
            comment: None,
            enabled: true,
            continue_on_error: false,
        },
        details,
    }
}

// In-file replacement through the engine: the plain mode rewrites the file
// and reports the occurrence count, the regex mode goes through the regex
// engine (handing the text back unchanged could not pass), and zero matches
// leave the file alone with an informational note.
#[test]
fn replace_in_file_counts_and_rewrites() {
    let make_ws = || WorkspaceModel {
        folders: vec![FolderModel {
            name: "f1".to_string(),
            present: true,
            fs: FolderFs {
                nodes: vec![FsNode {
                    path: "conf.txt".to_string(),
                    is_dir: false,
                    content: "x=1 y=1 z=2".to_string(),
                }],
            },
        }],
    };
    let wf = CommandeurWorkflow {
        name: "r".to_string(),
        version: None,
        operations: vec![op(
            "r1",
            OperationDetails::ReplaceInFile {
                target: "conf.txt".to_string(),
                search: "=1".to_string(),
                replace: "=9".to_string(),
                mode: ReplaceMode::Plain,
                flags: None,
            },
        )],
    };
    let mut ws = make_ws();
    let mut oracle = RunOracle::new(vec![], vec![], None);
    let (result, _) = execute_workflow(&wf, &mut ws, &mut oracle);
    assert!(result.success);
    assert_eq!(ws.folders[0].fs.nodes[0].content, "x=9 y=9 z=2");
    assert!(result
        .log_entries
        .iter()
        .any(|e| e.message.contains("Replaced 2 occurrence(s) in: conf.txt")));

    let wf_re = CommandeurWorkflow {
        name: "r".to_string(),
        version: None,
        operations: vec![op(
            "r2",
            OperationDetails::ReplaceInFile {
                target: "conf.txt".to_string(),
                search: "[XY]=1".to_string(),
                replace: "$0!".to_string(),
                mode: ReplaceMode::Regex,
                flags: Some("i".to_string()),
            },
        )],
    };
    let mut ws = make_ws();
    let mut oracle = RunOracle::new(vec![], vec![], None);
    let (result, _) = execute_workflow(&wf_re, &mut ws, &mut oracle);
    assert!(result.success);
    assert_eq!(ws.folders[0].fs.nodes[0].content, "x=1! y=1! z=2");

    let wf_none = CommandeurWorkflow {
        name: "r".to_string(),
        version: None,
        operations: vec![op(
            "r3",
            OperationDetails::ReplaceInFile {
                target: "conf.txt".to_string(),
                search: "absent".to_string(),
                replace: "x".to_string(),
                mode: ReplaceMode::Plain,
                flags: None,
            },
        )],
    };
    let mut ws = make_ws();
    let mut oracle = RunOracle::new(vec![], vec![], None);
    let (result, _) = execute_workflow(&wf_none, &mut ws, &mut oracle);
    assert!(result.success);
    assert_eq!(ws.folders[0].fs.nodes[0].content, "x=1 y=1 z=2");
    assert!(result
        .warnings
        .iter()
        .any(|w| w.message.contains("No replacements in: conf.txt")));
}

// Copy, move and rename through the engine, with their conflict policies.
#[test]
fn copy_move_rename_policies() {
    let seeded = || WorkspaceModel {
        folders: vec![FolderModel {
            name: "f1".to_string(),
            present: true,
            fs: FolderFs {
                nodes: vec![
                    FsNode { path: "src.txt".to_string(), is_dir: false, content: "body".to_string() },
                    FsNode { path: "taken.txt".to_string(), is_dir: false, content: "old".to_string() },
                ],
            },
        }],
    };
    // Copy onto an existing destination without overwrite: an error.
    let wf = CommandeurWorkflow {
        name: "c".to_string(),
        version: None,
        operations: vec![op(
            "cp",
            OperationDetails::Copy {
                source: "src.txt".to_string(),
                destination: "taken.txt".to_string(),
                overwrite: false,
            },
        )],
    };
    let mut ws = seeded();
    let mut oracle = RunOracle::new(vec![], vec![], None);
    let (result, _) = execute_workflow(&wf, &mut ws, &mut oracle);
    assert!(!result.success);
    assert_eq!(ws.folders[0].fs.nodes[1].content, "old");

    // The same copy with overwrite replaces the content.
    let wf = CommandeurWorkflow {
        name: "c".to_string(),
        version: None,
        operations: vec![op(
            "cp2",
            OperationDetails::Copy {
                source: "src.txt".to_string(),
                destination: "taken.txt".to_string(),
                overwrite: true,
            },
        )],
    };
    let mut ws = seeded();
    let mut oracle = RunOracle::new(vec![], vec![], None);
    let (result, _) = execute_workflow(&wf, &mut ws, &mut oracle);
    assert!(result.success);
    assert!(ws.folders[0]
        .fs
        .nodes
        .iter()
        .any(|n| n.path == "taken.txt" && n.content == "body"));

    // A move leaves no source behind; a rename computes its destination.
    let wf = CommandeurWorkflow {
        name: "c".to_string(),
        version: None,
        operations: vec![
            op(
                "mv",
                OperationDetails::Move {
                    source: "src.txt".to_string(),
                    destination: "sub/dst.txt".to_string(),
                    overwrite: false,
                },
            ),
            op(
                "rn",
                OperationDetails::Rename {
                    target: "sub/dst.txt".to_string(),
                    mode: RenameMode::ChangeExtension,
                    value: "md".to_string(),
                    search: None,
                    replace: None,
                },
            ),
        ],
    };
    let mut ws = seeded();
    let mut oracle = RunOracle::new(vec![], vec![], None);
    let (result, _) = execute_workflow(&wf, &mut ws, &mut oracle);
    assert!(result.success, "errors: {:?}", result.errors.iter().map(|e| e.details.clone()).collect::<Vec<_>>());
    assert!(!ws.folders[0].fs.nodes.iter().any(|n| n.path == "src.txt"));
    assert!(ws.folders[0].fs.nodes.iter().any(|n| n.path == "sub/dst.md"));
}

// Pre-run validation over the workspace model: a required deletion whose
// target is missing in one folder is flagged for exactly that folder, and a
// bad path is rejected outright.
#[test]
fn validate_workflow_flags_missing_files_and_bad_paths() {
    let ws = WorkspaceModel {
        folders: vec![
            FolderModel {
                name: "f1".to_string(),
                present: true,
                fs: FolderFs {
                    nodes: vec![FsNode {
                        path: "keep.txt".to_string(),
                        is_dir: false,
                        content: String::new(),
                    }],
                },
            },
            FolderModel { name: "f2".to_string(), present: true, fs: FolderFs { nodes: vec![] } },
        ],
    };
    let wf = CommandeurWorkflow {
        name: "v".to_string(),
        version: None,
        operations: vec![
            op(
                "d1",
                OperationDetails::DeleteFile { target: "keep.txt".to_string(), required: true },
            ),
            op(
                "d2",
                OperationDetails::DeleteFile { target: "../up".to_string(), required: false },
            ),
        ],
    };
    let messages = validate_workflow(&ws, &wf);
    assert_eq!(messages.len(), 2);
    assert_eq!(messages[0].operation_id, "d1");
    assert_eq!(messages[0].folders, Some(vec!["f2".to_string()]));
    assert_eq!(messages[1].operation_id, "d2");
    assert!(messages[1].message.contains("invalid file path"));
}
