use commandeur::engine::{
    execute_workflow, AttemptOutcome, CheckpointDecision, ProcessOutcome, RunOracle,
    FolderModel, WorkspaceModel,
};
use commandeur::fsmodel::{FolderFs, FsNode};
use commandeur::model::{
    CommandeurOperation, CommandeurWorkflow, ConditionSelector, ConditionOperator, ConditionTest,
    OperationDetails, OperationMeta, ValidationLevel,
};

fn meta(id: &str, enabled: bool, continue_on_error: bool) -> OperationMeta {
    OperationMeta {
        id: id.to_string(),
        label: format!("op {}", id),
        comment: None,
        enabled,
        continue_on_error,
    }
}

fn op(id: &str, enabled: bool, coe: bool, details: OperationDetails) -> CommandeurOperation {
    CommandeurOperation { meta: meta(id, enabled, coe), details }
}

fn mkdir(target: &str) -> OperationDetails {
    OperationDetails::Mkdir { target: target.to_string(), recursive: true, skip_if_exists: true }
}

fn create_file(target: &str, content: &str) -> OperationDetails {
    OperationDetails::CreateFile {
        target: target.to_string(),
        overwrite: false,
        content: content.to_string(),
    }
}

fn delete_required(target: &str) -> OperationDetails {
    OperationDetails::DeleteFile { target: target.to_string(), required: true }
}

fn folder(name: &str) -> FolderModel {
    FolderModel { name: name.to_string(), present: true, fs: FolderFs { nodes: vec![] } }
}

fn quiet_oracle() -> RunOracle {
    RunOracle::new(vec![], vec![], None)
}

fn workflow(ops: Vec<CommandeurOperation>) -> CommandeurWorkflow {
    CommandeurWorkflow { name: "demo".to_string(), version: None, operations: ops }
}

// End to end: a recursive mkdir then a file creation, over two folders:
// four operations run, two creation log lines, no errors, success.
#[test]
fn end_to_end_mkdir_then_create_over_two_folders() {
    let wf = workflow(vec![
        op("m1", true, false, mkdir("out")),
        op("c1", true, false, create_file("out/readme.txt", "hi")),
    ]);
    let mut ws = WorkspaceModel { folders: vec![folder("f1"), folder("f2")] };
    let mut oracle = quiet_oracle();
    let (result, attempts) = execute_workflow(&wf, &mut ws, &mut oracle);
    assert!(result.success);
    assert_eq!(result.operations_run, 4);
    assert_eq!(result.errors.len(), 0);
    assert_eq!(attempts.len(), 4);
    let created: Vec<_> = result
        .log_entries
        .iter()
        .filter(|e| e.message.contains("File created: out/readme.txt"))
        .collect();
    assert_eq!(created.len(), 2);
    // The model reflects the writes.
    for f in &ws.folders {
        assert!(f.fs.nodes.iter().any(|n| n.path == "out" && n.is_dir));
        assert!(f
            .fs
            .nodes
            .iter()
            .any(|n| n.path == "out/readme.txt" && !n.is_dir && n.content == "hi"));
    }
}

// A failure with continueOnError=false on the first operation of the first
// folder: nothing after it is attempted, in that folder or the next.
#[test]
fn continue_on_error_false_stops_the_whole_run() {
    let wf = workflow(vec![
        op("d1", true, false, delete_required("missing.txt")),
        op("c1", true, false, create_file("later.txt", "x")),
    ]);
    let mut ws = WorkspaceModel { folders: vec![folder("f1"), folder("f2")] };
    let mut oracle = quiet_oracle();
    let (result, attempts) = execute_workflow(&wf, &mut ws, &mut oracle);
    assert!(!result.success);
    assert_eq!(result.operations_run, 0);
    assert_eq!(attempts.len(), 1);
    assert_eq!(attempts[0].folder, "f1");
    assert_eq!(attempts[0].operation_id, "d1");
    assert!(matches!(
        attempts[0].outcome,
        AttemptOutcome::Failed { continue_on_error: false }
    ));
    assert_eq!(result.errors.len(), 1);
    // Nothing was created anywhere.
    assert!(ws.folders.iter().all(|f| f.fs.nodes.is_empty()));
}

// The same failure with continueOnError=true: the run goes on through both
// folders and the later operations still run.
#[test]
fn continue_on_error_true_keeps_going() {
    let wf = workflow(vec![
        op("d1", true, true, delete_required("missing.txt")),
        op("c1", true, false, create_file("later.txt", "x")),
    ]);
    let mut ws = WorkspaceModel { folders: vec![folder("f1"), folder("f2")] };
    let mut oracle = quiet_oracle();
    let (result, attempts) = execute_workflow(&wf, &mut ws, &mut oracle);
    assert!(!result.success, "a tolerated failure still taints the result");
    assert_eq!(result.operations_run, 2);
    assert_eq!(attempts.len(), 4);
    assert_eq!(result.errors.len(), 2);
    assert!(ws.folders.iter().all(|f| f.fs.nodes.iter().any(|n| n.path == "later.txt")));
}

// Error-level log entries match the error collection one for one.
#[test]
fn error_log_entries_match_error_collection() {
    let wf = workflow(vec![
        op("d1", true, true, delete_required("missing.txt")),
        op("c1", true, false, create_file("ok.txt", "x")),
    ]);
    let mut ws = WorkspaceModel { folders: vec![folder("f1"), folder("f2")] };
    let mut oracle = quiet_oracle();
    let (result, _) = execute_workflow(&wf, &mut ws, &mut oracle);
    let error_entries = result
        .log_entries
        .iter()
        .filter(|e| matches!(e.level, ValidationLevel::Error))
        .count();
    assert_eq!(error_entries, result.errors.len());
    assert_eq!(error_entries, 2);
}

// A disabled operation, and everything nested beneath a disabled `If`,
// leaves no trace in the log or the collections.
#[test]
fn disabled_subtree_leaves_no_trace() {
    let nested = op("child1", true, false, create_file("never.txt", "x"));
    let disabled_if = op(
        "if1",
        false,
        false,
        OperationDetails::If {
            test: ConditionTest {
                selector: Some(ConditionSelector::FileSearch),
                operator: Some(ConditionOperator::Exists),
                value: None,
                pattern: Some("*".to_string()),
                scope: None,
                exists: None,
                negate: false,
            },
            then: vec![nested],
            else_branch: None,
        },
    );
    let wf = workflow(vec![
        disabled_if,
        op("c9", false, false, create_file("also-never.txt", "x")),
        op("c1", true, false, create_file("only.txt", "x")),
    ]);
    let mut ws = WorkspaceModel { folders: vec![folder("f1")] };
    let mut oracle = quiet_oracle();
    let (result, attempts) = execute_workflow(&wf, &mut ws, &mut oracle);
    assert!(result.success);
    assert_eq!(result.operations_run, 1);
    assert_eq!(attempts.len(), 1);
    for e in &result.log_entries {
        assert_ne!(e.operation_id, "if1");
        assert_ne!(e.operation_id, "child1");
        assert_ne!(e.operation_id, "c9");
    }
    assert!(!ws.folders[0].fs.nodes.iter().any(|n| n.path == "never.txt"));
    assert!(ws.folders[0].fs.nodes.iter().any(|n| n.path == "only.txt"));
}

// An `If` takes the branch its condition picks, children keep their own
// identifiers in the log, and a nested child's own continue-on-error flag
// (not its parent's) governs the run.
#[test]
fn if_branches_and_child_flag_governs() {
    let then_child = op("t1", true, false, create_file("then.txt", "t"));
    let else_child = op("e1", true, false, create_file("else.txt", "e"));
    let cond = ConditionTest {
        selector: Some(ConditionSelector::CurrentFolderName),
        operator: Some(ConditionOperator::Equals),
        value: Some("f1".to_string()),
        pattern: None,
        scope: None,
        exists: None,
        negate: false,
    };
    let wf = workflow(vec![op(
        "if1",
        true,
        false,
        OperationDetails::If {
            test: cond,
            then: vec![then_child],
            else_branch: Some(vec![else_child]),
        },
    )]);
    let mut ws = WorkspaceModel { folders: vec![folder("f1"), folder("f2")] };
    let mut oracle = quiet_oracle();
    let (result, _) = execute_workflow(&wf, &mut ws, &mut oracle);
    assert!(result.success);
    assert!(ws.folders[0].fs.nodes.iter().any(|n| n.path == "then.txt"));
    assert!(ws.folders[1].fs.nodes.iter().any(|n| n.path == "else.txt"));
    assert!(result.log_entries.iter().any(|e| e.operation_id == "t1"));
    assert!(result.log_entries.iter().any(|e| e.operation_id == "e1"));

    // A child failing with its own continue-on-error=true under a parent
    // whose flag is false: the child's flag wins and the run continues.
    let failing_child = op("fc", true, true, delete_required("gone.txt"));
    let wf2 = workflow(vec![
        op(
            "if2",
            true,
            false,
            OperationDetails::If {
                test: ConditionTest {
                    selector: Some(ConditionSelector::CurrentFolderName),
                    operator: Some(ConditionOperator::Equals),
                    value: Some("f1".to_string()),
                    pattern: None,
                    scope: None,
                    exists: None,
                    negate: false,
                },
                then: vec![failing_child],
                else_branch: None,
            },
        ),
        op("after", true, false, create_file("after.txt", "a")),
    ]);
    let mut ws2 = WorkspaceModel { folders: vec![folder("f1")] };
    let mut oracle2 = quiet_oracle();
    let (result2, attempts2) = execute_workflow(&wf2, &mut ws2, &mut oracle2);
    assert!(!result2.success);
    assert!(matches!(
        attempts2[0].outcome,
        AttemptOutcome::Failed { continue_on_error: true }
    ));
    assert!(ws2.folders[0].fs.nodes.iter().any(|n| n.path == "after.txt"));
}

// Stopping at a checkpoint: the run ends, success is false, the completed
// count is what finished before the stop, and the log's last entry carries
// the stop reason.
#[test]
fn stop_at_checkpoint_documents_the_reason() {
    let wf = workflow(vec![
        op("c1", true, false, create_file("one.txt", "1")),
        op("c2", true, false, create_file("two.txt", "2")),
    ]);
    let mut ws = WorkspaceModel { folders: vec![folder("f1"), folder("f2")] };
    // Checkpoints fire: folder f1, op c1, (inside dispatch) c1, op c2 - the
    // fourth decision interrupts before c2's side effects.
    let oracle_decisions = vec![
        CheckpointDecision::Proceed,
        CheckpointDecision::Proceed,
        CheckpointDecision::Proceed,
        CheckpointDecision::Interrupt("stopped by hand".to_string()),
    ];
    let mut oracle = RunOracle::new(oracle_decisions, vec![], None);
    let (result, attempts) = execute_workflow(&wf, &mut ws, &mut oracle);
    assert!(!result.success);
    assert_eq!(result.operations_run, 1);
    assert_eq!(attempts.len(), 1);
    let last = result.log_entries.last().expect("log never empty");
    assert_eq!(last.operation_id, "__workspace__");
    assert!(matches!(last.level, ValidationLevel::Warning));
    assert_eq!(last.message, "Execution interrupted: stopped by hand");
    assert!(ws.folders[0].fs.nodes.iter().any(|n| n.path == "one.txt"));
    assert!(!ws.folders[0].fs.nodes.iter().any(|n| n.path == "two.txt"));
}

// Two identical runs produce identical observable output: pausing is a pure
// delay and never reaches the engine as an event.
#[test]
fn identical_runs_are_deterministic() {
    let build = || {
        workflow(vec![
            op("m1", true, false, mkdir("out")),
            op("c1", true, false, create_file("out/a.txt", "a")),
        ])
    };
    let run = |wf: &CommandeurWorkflow| {
        let mut ws = WorkspaceModel { folders: vec![folder("f1"), folder("f2")] };
        let mut oracle = quiet_oracle();
        let (result, attempts) = execute_workflow(wf, &mut ws, &mut oracle);
        let messages: Vec<String> = result
            .log_entries
            .iter()
            .map(|e| format!("{}|{}|{}", e.operation_id, e.level_string(), e.message))
            .collect();
        (messages, result.success, result.operations_run, attempts.len())
    };
    let wf1 = build();
    let wf2 = build();
    assert_eq!(run(&wf1), run(&wf2));
}

// A missing folder is fatal: the whole run aborts with a workspace error.
#[test]
fn missing_folder_aborts_the_run() {
    let wf = workflow(vec![op("c1", true, false, create_file("a.txt", "a"))]);
    let mut ws = WorkspaceModel {
        folders: vec![
            FolderModel { name: "gone".to_string(), present: false, fs: FolderFs { nodes: vec![] } },
            folder("f2"),
        ],
    };
    let mut oracle = quiet_oracle();
    let (result, attempts) = execute_workflow(&wf, &mut ws, &mut oracle);
    assert!(!result.success);
    assert_eq!(attempts.len(), 0);
    assert_eq!(result.errors.len(), 1);
    assert_eq!(result.errors[0].operation_id, "__workspace__");
    assert_eq!(result.errors[0].message, "Folder not found: gone");
    assert_eq!(result.errors[0].folders, Some(vec!["gone".to_string()]));
    assert!(matches!(result.errors[0].level, ValidationLevel::Error));
    let ws_errors = result
        .log_entries
        .iter()
        .filter(|e| matches!(e.level, ValidationLevel::Error) && e.operation_id == "__workspace__")
        .count();
    assert_eq!(ws_errors, 1);
    assert!(ws.folders[1].fs.nodes.is_empty());
}

// An external command's outcome comes from the process: a failing exit is
// reported with its sanitized output, a succeeding one logs the command.
#[test]
fn exec_outcomes_follow_the_process() {
    let exec_op = |id: &str| {
        op(
            id,
            true,
            true,
            OperationDetails::Exec {
                command: "true".to_string(),
                args: vec![],
                shell: commandeur::model::ShellKind::Default,
                cwd: None,
                env: vec![],
            },
        )
    };
    let wf = workflow(vec![exec_op("x1"), exec_op("x2")]);
    let mut ws = WorkspaceModel { folders: vec![folder("f1")] };
    let outcomes = vec![
        ProcessOutcome {
            success: true,
            exit_code: Some(0),
            stdout: String::new(),
            stderr: String::new(),
        },
        ProcessOutcome {
            success: false,
            exit_code: Some(3),
            stdout: "partial\r\noutput".to_string(),
            stderr: "boom\u{7}".to_string(),
        },
    ];
    let mut oracle = RunOracle::new(vec![], outcomes, None);
    let (result, _) = execute_workflow(&wf, &mut ws, &mut oracle);
    assert!(!result.success);
    assert_eq!(result.operations_run, 1);
    assert!(result
        .log_entries
        .iter()
        .any(|e| e.message.contains("Command executed: true")));
    let detail = result.errors[0].details.as_ref().expect("failure detail");
    assert!(detail.contains("(exit code: 3)"));
    assert!(detail.contains("partial\noutput"), "line endings are normalized");
    assert!(detail.contains("boom"));
    assert!(!detail.contains('\u{7}'), "control characters are stripped");
}
