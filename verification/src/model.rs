use vstd::prelude::*;

verus! {

/// Severity attached to log entries and validation messages.
#[derive(Clone, Copy, PartialEq, Eq, Structural, Debug)]
pub enum ValidationLevel {
    Info,
    Warning,
    Error,
}

/// How an external command is spawned: directly, or through a shell.
#[derive(Clone, Copy, PartialEq, Eq, Structural, Debug)]
pub enum ShellKind {
    Default,
    Powershell,
    Bash,
    Zsh,
}

/// Whether in-file replacement treats the search string literally or as a
/// regular expression.
#[derive(Clone, Copy, PartialEq, Eq, Structural, Debug)]
pub enum ReplaceMode {
    Plain,
    Regex,
}

/// The four ways a rename operation derives the new file name.
#[derive(Clone, Copy, PartialEq, Eq, Structural, Debug)]
pub enum RenameMode {
    Suffix,
    Prefix,
    ChangeExtension,
    Replace,
}

/// Whether a scripted operation carries its script inline or as a path.
#[derive(Clone, Copy, PartialEq, Eq, Structural, Debug)]
pub enum PythonEntry {
    Inline,
    File,
}

/// What a condition inspects: the folder's own name, a file search, or a
/// file count.
#[derive(Clone, Copy, PartialEq, Eq, Structural, Debug)]
pub enum ConditionSelector {
    CurrentFolderName,
    FileSearch,
    FileCount,
}

/// Comparison applied by a condition; each selector allows a subset.
#[derive(Clone, Copy, PartialEq, Eq, Structural, Debug)]
pub enum ConditionOperator {
    Equals,
    Contains,
    Regex,
    Exists,
    NotExists,
    GreaterThan,
    LessThan,
}

/// How far a file search or count looks below the folder.
#[derive(Clone, Copy, PartialEq, Eq, Structural, Debug)]
pub enum ConditionScope {
    CurrentFolder,
    Recursive,
}

/// A declarative predicate steering an `If` operation; all fields are
/// optional as provided and are filled in by normalization.
#[derive(Clone, Debug)]
pub struct ConditionTest {
    pub selector: Option<ConditionSelector>,
    pub operator: Option<ConditionOperator>,
    pub value: Option<String>,
    pub pattern: Option<String>,
    pub scope: Option<ConditionScope>,
    pub exists: Option<String>,
    pub negate: bool,
}

/// Metadata common to every operation of a workflow.
#[derive(Clone, Debug)]
pub struct OperationMeta {
    pub id: String,
    pub label: String,
    pub comment: Option<String>,
    pub enabled: bool,
    pub continue_on_error: bool,
}

/// The variant-specific payload of one operation. `If` owns nested
/// sequences of operations, making the model a tree.
pub enum OperationDetails {
    CreateFile { target: String, overwrite: bool, content: String },
    DeleteFile { target: String, required: bool },
    Copy { source: String, destination: String, overwrite: bool },
    Exec {
        command: String,
        args: Vec<String>,
        shell: ShellKind,
        cwd: Option<String>,
        env: Vec<(String, String)>,
    },
    ReplaceInFile {
        target: String,
        search: String,
        replace: String,
        mode: ReplaceMode,
        flags: Option<String>,
    },
    Rename {
        target: String,
        mode: RenameMode,
        value: String,
        search: Option<String>,
        replace: Option<String>,
    },
    Move { source: String, destination: String, overwrite: bool },
    Mkdir { target: String, recursive: bool, skip_if_exists: bool },
    Python {
        inline_script: Option<String>,
        script_path: Option<String>,
        entry: PythonEntry,
    },
    If {
        test: ConditionTest,
        then: Vec<CommandeurOperation>,
        else_branch: Option<Vec<CommandeurOperation>>,
    },
}

/// One node of the workflow tree: shared metadata plus its variant payload.
pub struct CommandeurOperation {
    pub meta: OperationMeta,
    pub details: OperationDetails,
}

/// A named, ordered sequence of operations, immutable for a run.
pub struct CommandeurWorkflow {
    pub name: String,
    pub version: Option<String>,
    pub operations: Vec<CommandeurOperation>,
}

/// Default for the `enabled` flag when a stored workflow omits it.
pub fn default_enabled() -> (b: bool)
    ensures
        b,
{
    true
}

/// Default for flags that are on unless a stored workflow says otherwise.
pub fn default_true() -> (b: bool)
    ensures
        b,
{
    true
}

impl CommandeurOperation {
    pub fn id(&self) -> (r: &str)
        ensures
            r@ == self.meta.id@,
    {
        self.meta.id.as_str()
    }

    pub fn label(&self) -> (r: &str)
        ensures
            r@ == self.meta.label@,
    {
        self.meta.label.as_str()
    }

    pub fn enabled(&self) -> (r: bool)
        ensures
            r == self.meta.enabled,
    {
        self.meta.enabled
    }

    pub fn continue_on_error(&self) -> (r: bool)
        ensures
            r == self.meta.continue_on_error,
    {
        self.meta.continue_on_error
    }

    pub fn comment(&self) -> (r: Option<&str>)
        ensures
            match r {
                Some(c) => self.meta.comment is Some && c@ == self.meta.comment->0@,
                None => self.meta.comment is None,
            },
    {
        match &self.meta.comment {
            Some(c) => Some(c.as_str()),
            None => None,
        }
    }
}

/// A validation message sent to the event sink and kept in the run result's
/// warning or error collection.
#[derive(Clone, Debug)]
pub struct CommandeurValidationMessage {
    pub operation_id: String,
    pub operation_label: Option<String>,
    pub level: ValidationLevel,
    pub message: String,
    pub details: Option<String>,
    pub folders: Option<Vec<String>>,
}

/// One entry of the chronological execution log.
#[derive(Clone, Debug)]
pub struct CommandeurExecutionLogEntry {
    pub timestamp: String,
    pub operation_id: String,
    pub operation_label: String,
    pub message: String,
    pub level: ValidationLevel,
}

impl CommandeurExecutionLogEntry {
    pub fn level_string(&self) -> (r: &'static str)
        ensures
            self.level is Info ==> r@ == "INFO"@,
            self.level is Warning ==> r@ == "WARN"@,
            self.level is Error ==> r@ == "ERROR"@,
    {
        match self.level {
            ValidationLevel::Info => "INFO",
            ValidationLevel::Warning => "WARN",
            ValidationLevel::Error => "ERROR",
        }
    }
}

/// The assembled outcome of one workflow run.
#[derive(Debug)]
pub struct CommandeurExecutionResult {
    pub success: bool,
    pub operations_run: usize,
    pub log_file_path: String,
    pub log_entries: Vec<CommandeurExecutionLogEntry>,
    pub warnings: Vec<CommandeurValidationMessage>,
    pub errors: Vec<CommandeurValidationMessage>,
    pub output_archive_path: Option<String>,
}

/// Identity of a workflow kept by the persistence collaborator.
#[derive(Clone, Debug)]
pub struct SavedWorkflowSummary {
    pub id: String,
    pub name: String,
    pub saved_at: String,
}

/// Whether a prepared workspace came from an archive or a plain directory.
#[derive(Clone, Copy, PartialEq, Eq, Structural, Debug)]
pub enum WorkspaceMode {
    Zip,
    Directory,
}

/// What the workspace collaborator reports after preparing a source path.
#[derive(Clone, Debug)]
pub struct CommandeurWorkspaceSummary {
    pub workspace_id: String,
    pub mode: WorkspaceMode,
    pub source_path: String,
    pub extracted_path: Option<String>,
    pub sub_folders: Vec<String>,
}

/// The mathematical image of a validation message.
pub struct ValidationMsgView {
    pub operation_id: Seq<char>,
    pub operation_label: Option<Seq<char>>,
    pub level: ValidationLevel,
    pub message: Seq<char>,
    pub details: Option<Seq<char>>,
    pub folders: Option<Seq<Seq<char>>>,
}

impl View for CommandeurValidationMessage {
    type V = ValidationMsgView;

    open spec fn view(&self) -> ValidationMsgView {
        ValidationMsgView {
            operation_id: self.operation_id@,
            operation_label: match self.operation_label {
                Some(ref l) => Some(l@),
                None => None,
            },
            level: self.level,
            message: self.message@,
            details: match self.details {
                Some(ref d) => Some(d@),
                None => None,
            },
            folders: match self.folders {
                Some(ref f) => Some(f@.map_values(|s: String| s@)),
                None => None,
            },
        }
    }
}

/// The timestamp-free content of a log entry; contracts speak of this
/// projection because timestamps come from the wall clock.
pub struct LogData {
    pub operation_id: Seq<char>,
    pub operation_label: Seq<char>,
    pub message: Seq<char>,
    pub level: ValidationLevel,
}

pub open spec fn log_data(e: CommandeurExecutionLogEntry) -> LogData {
    LogData {
        operation_id: e.operation_id@,
        operation_label: e.operation_label@,
        message: e.message@,
        level: e.level,
    }
}

pub open spec fn log_datas(s: Seq<CommandeurExecutionLogEntry>) -> Seq<LogData> {
    s.map_values(|e: CommandeurExecutionLogEntry| log_data(e))
}

/// The identifiers of an operation and of everything nested beneath it.
pub open spec fn op_ids(op: CommandeurOperation) -> Set<Seq<char>>
    decreases op,
{
    match op.details {
        OperationDetails::If { test: _, then, else_branch } => set![op.meta.id@].union(
            ops_list_ids(then@),
        ).union(
            match else_branch {
                Some(e) => ops_list_ids(e@),
                None => Set::empty(),
            },
        ),
        _ => set![op.meta.id@],
    }
}

pub open spec fn ops_list_ids(ops: Seq<CommandeurOperation>) -> Set<Seq<char>>
    decreases ops,
{
    if ops.len() == 0 {
        Set::empty()
    } else {
        op_ids(ops[0]).union(ops_list_ids(ops.drop_first()))
    }
}

/// The identifiers reachable when only enabled operations run: a disabled
/// node hides itself and its whole subtree.
pub open spec fn enabled_op_ids(op: CommandeurOperation) -> Set<Seq<char>>
    decreases op,
{
    if !op.meta.enabled {
        Set::empty()
    } else {
        match op.details {
            OperationDetails::If { test: _, then, else_branch } => set![op.meta.id@].union(
                enabled_list_ids(then@),
            ).union(
                match else_branch {
                    Some(e) => enabled_list_ids(e@),
                    None => Set::empty(),
                },
            ),
            _ => set![op.meta.id@],
        }
    }
}

pub open spec fn enabled_list_ids(ops: Seq<CommandeurOperation>) -> Set<Seq<char>>
    decreases ops,
{
    if ops.len() == 0 {
        Set::empty()
    } else {
        enabled_op_ids(ops[0]).union(enabled_list_ids(ops.drop_first()))
    }
}

} // verus!
