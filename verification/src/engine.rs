use vstd::prelude::*;
use vstd::string::StringExecFns;
use vstd::std_specs::vec::vec_index_mut;
use crate::model::{
    CommandeurOperation, CommandeurWorkflow, CommandeurExecutionResult, OperationDetails,
    enabled_op_ids, enabled_list_ids, op_ids,
    CommandeurExecutionLogEntry, CommandeurValidationMessage, ValidationLevel, ValidationMsgView,
    LogData, log_data,
};
use crate::fsmodel::{
    FolderFs, FsNodeView, spec_find_node, spec_under, spec_write, spec_add_dirs, spec_add_dir,
    spec_slash_prefixes, spec_parents_blocked,
};
use crate::pathfrag::{spec_sanitize_relative_path, spec_path_error_message, sanitize_relative_path};
use crate::reporting::{push_log, push_folder_validation};
use crate::text::spec_trim;

verus! {

/// A log line scoped to one folder: the folder in brackets, then up to four
/// message pieces.
pub open spec fn spec_fmsg(
    folder: Seq<char>,
    a: Seq<char>,
    b: Seq<char>,
    c: Seq<char>,
    d: Seq<char>,
) -> Seq<char> {
    "["@ + folder + "] "@ + a + b + c + d
}

fn fmsg(folder: &str, a: &str, b: &str, c: &str, d: &str) -> (r: String)
    ensures
        r@ == spec_fmsg(folder@, a@, b@, c@, d@),
{
    let mut s = String::from_str("[");
    s.append(folder);
    s.append("] ");
    s.append(a);
    s.append(b);
    s.append(c);
    s.append(d);
    proof {
        assert(s@ =~= spec_fmsg(folder@, a@, b@, c@, d@));
    }
    s
}

/// One log entry, with the given data, appended and nothing else changed
/// (timestamps aside).
pub open spec fn appended_log(
    l0: Seq<CommandeurExecutionLogEntry>,
    lf: Seq<CommandeurExecutionLogEntry>,
    d: LogData,
) -> bool {
    lf.len() == l0.len() + 1 && lf.take(l0.len() as int) == l0 && log_data(lf.last()) == d
}

/// One validation message appended and nothing else changed.
pub open spec fn appended_warning(
    w0: Seq<CommandeurValidationMessage>,
    wf: Seq<CommandeurValidationMessage>,
    m: ValidationMsgView,
) -> bool {
    wf.len() == w0.len() + 1 && wf.take(w0.len() as int) == w0 && wf.last()@ == m
}

/// The validation message a dispatcher step files for one folder.
pub open spec fn folder_msg(
    op: CommandeurOperation,
    folder: Seq<char>,
    level: ValidationLevel,
    message: Seq<char>,
    details: Option<Seq<char>>,
) -> ValidationMsgView {
    ValidationMsgView {
        operation_id: op.meta.id@,
        operation_label: Some(op.meta.label@),
        level,
        message,
        details,
        folders: Some(seq![folder]),
    }
}

/// The log data a dispatcher step records for an operation.
pub open spec fn op_log(
    op: CommandeurOperation,
    level: ValidationLevel,
    message: Seq<char>,
) -> LogData {
    LogData {
        operation_id: op.meta.id@,
        operation_label: op.meta.label@,
        message,
        level,
    }
}

/// The engine's failure values: a missing workspace, one operation's
/// failure (carrying the data the executor needs to decide the run's fate),
/// or a cooperative interruption.
pub enum CommandeurError {
    WorkspaceNotFound,
    OperationFailed {
        operation_id: String,
        operation_label: String,
        continue_on_error: bool,
        source: String,
    },
    ExecutionInterrupted { reason: String },
}

/// Wraps a per-operation failure with the operation's own identity and
/// continue-on-error flag, so the executor never re-inspects the operation.
pub fn operation_failed(operation: &CommandeurOperation, source: String) -> (r: CommandeurError)
    ensures
        r matches CommandeurError::OperationFailed {
            operation_id,
            operation_label,
            continue_on_error,
            source: s,
        } && operation_id@ == operation.meta.id@ && operation_label@ == operation.meta.label@
            && continue_on_error == operation.meta.continue_on_error && s == source,
{
    CommandeurError::OperationFailed {
        operation_id: operation.meta.id.clone(),
        operation_label: operation.meta.label.clone(),
        continue_on_error: operation.meta.continue_on_error,
        source,
    }
}

/// What a checkpoint resolves to once any pause has been waited out:
/// continue, or abort with a reason.
pub enum CheckpointDecision {
    Proceed,
    Interrupt(String),
}

/// What running one external process came to.
pub struct ProcessOutcome {
    pub success: bool,
    pub exit_code: Option<i32>,
    pub stdout: String,
    pub stderr: String,
}

/// The run's contact with the outside world, recorded as data: checkpoint
/// decisions (pauses already waited out by the embedder), external process
/// outcomes in the order the run starts them, and what interpreter
/// detection would find. The engine consumes the two lists in order; an
/// exhausted checkpoint list means the run proceeds, an exhausted process
/// list stands for a spawn failure.
pub struct RunOracle {
    pub checkpoints: Vec<CheckpointDecision>,
    pub cpos: usize,
    pub processes: Vec<ProcessOutcome>,
    pub ppos: usize,
    pub python: Option<String>,
}

impl RunOracle {
    /// An oracle with both cursors at the start.
    pub fn new(
        checkpoints: Vec<CheckpointDecision>,
        processes: Vec<ProcessOutcome>,
        python: Option<String>,
    ) -> (r: RunOracle)
        ensures
            r.checkpoints == checkpoints,
            r.processes == processes,
            r.python == python,
            r.cpos == 0,
            r.ppos == 0,
    {
        RunOracle { checkpoints, cpos: 0, processes, ppos: 0, python }
    }

    /// The next checkpoint decision; a drained list keeps the run going.
    pub fn next_checkpoint(&mut self) -> (r: CheckpointDecision)
        ensures
            final(self).checkpoints == old(self).checkpoints,
            final(self).processes == old(self).processes,
            final(self).ppos == old(self).ppos,
            final(self).python == old(self).python,
            final(self).cpos == if old(self).cpos < old(self).checkpoints@.len() {
                old(self).cpos + 1
            } else {
                old(self).cpos as int
            },
            if old(self).cpos < old(self).checkpoints@.len() {
                r == old(self).checkpoints@[old(self).cpos as int]
            } else {
                r is Proceed
            },
    {
        if self.cpos < self.checkpoints.len() {
            let d = match &self.checkpoints[self.cpos] {
                CheckpointDecision::Proceed => CheckpointDecision::Proceed,
                CheckpointDecision::Interrupt(reason) => CheckpointDecision::Interrupt(
                    reason.clone(),
                ),
            };
            proof {
                assert(d == self.checkpoints@[self.cpos as int]);
            }
            self.cpos = self.cpos + 1;
            d
        } else {
            CheckpointDecision::Proceed
        }
    }

    /// The next external process outcome; a drained list stands for a
    /// process that could not be started.
    pub fn next_process(&mut self) -> (r: ProcessOutcome)
        ensures
            final(self).checkpoints == old(self).checkpoints,
            final(self).processes == old(self).processes,
            final(self).cpos == old(self).cpos,
            final(self).python == old(self).python,
            final(self).ppos == if old(self).ppos < old(self).processes@.len() {
                old(self).ppos + 1
            } else {
                old(self).ppos as int
            },
            if old(self).ppos < old(self).processes@.len() {
                r.success == old(self).processes@[old(self).ppos as int].success && r.exit_code
                    == old(self).processes@[old(self).ppos as int].exit_code && r.stdout@ == old(
                    self,
                ).processes@[old(self).ppos as int].stdout@ && r.stderr@ == old(
                    self,
                ).processes@[old(self).ppos as int].stderr@
            } else {
                !r.success && r.exit_code is None && r.stdout@ == ""@ && r.stderr@
                    == "could not start the process"@
            },
    {
        if self.ppos < self.processes.len() {
            let p = &self.processes[self.ppos];
            let out = ProcessOutcome {
                success: p.success,
                exit_code: p.exit_code,
                stdout: p.stdout.clone(),
                stderr: p.stderr.clone(),
            };
            self.ppos = self.ppos + 1;
            out
        } else {
            proof {
                reveal_strlit("");
                assert(""@ =~= Seq::<char>::empty());
            }
            ProcessOutcome {
                success: false,
                exit_code: None,
                stdout: String::new(),
                stderr: String::from_str("could not start the process"),
            }
        }
    }
}

/// The run-scoped execution environment: the lazily resolved scripting
/// interpreter, cached after the first use.
pub struct ExecutionEnv {
    pub python_cmd: Option<String>,
}

impl ExecutionEnv {
    /// A fresh environment with nothing resolved yet.
    pub fn new() -> (r: Self)
        ensures
            r.python_cmd is None,
    {
        ExecutionEnv { python_cmd: None }
    }

    /// The interpreter to use: the cached one, else what detection found
    /// (cached from now on); finding none is an ordinary error.
    pub fn ensure_python(&mut self, detected: &Option<String>) -> (r: Result<String, ()>)
        ensures
            match old(self).python_cmd {
                Some(c) => r matches Ok(p) && p@ == c@ && *final(self) == *old(self),
                None => match detected {
                    Some(d) => r matches Ok(p) && p@ == d@ && (final(self).python_cmd
                        matches Some(q) && q@ == d@),
                    None => r is Err && *final(self) == *old(self),
                },
            },
    {
        match &self.python_cmd {
            Some(c) => Ok(c.clone()),
            None => {
                match detected {
                    Some(d) => {
                        self.python_cmd = Some(d.clone());
                        Ok(d.clone())
                    },
                    None => Err(()),
                }
            },
        }
    }
}

/// One top-level dispatch, as reported to the progress sink: which folder,
/// which operation, and how it ended.
pub enum AttemptOutcome {
    Succeeded,
    Failed { continue_on_error: bool },
    Interrupted,
}

pub struct AttemptRecord {
    pub folder: String,
    pub operation_id: String,
    pub outcome: AttemptOutcome,
}

/// The identity data of every enabled node of an operation subtree: id,
/// label, and the node's own continue-on-error flag.
pub open spec fn enabled_meta(op: CommandeurOperation) -> Set<(Seq<char>, Seq<char>, bool)>
    decreases op,
{
    if !op.meta.enabled {
        Set::empty()
    } else {
        match op.details {
            OperationDetails::If { test: _, then, else_branch } => set![
                (op.meta.id@, op.meta.label@, op.meta.continue_on_error),
            ].union(enabled_list_meta(then@)).union(
                match else_branch {
                    Some(e) => enabled_list_meta(e@),
                    None => Set::empty(),
                },
            ),
            _ => set![(op.meta.id@, op.meta.label@, op.meta.continue_on_error)],
        }
    }
}

pub open spec fn enabled_list_meta(ops: Seq<CommandeurOperation>) -> Set<(Seq<char>, Seq<char>, bool)>
    decreases ops,
{
    if ops.len() == 0 {
        Set::empty()
    } else {
        enabled_meta(ops[0]).union(enabled_list_meta(ops.drop_first()))
    }
}

/// A member of a child list contributes its whole enabled subtree to the
/// list's sets.
pub proof fn lemma_enabled_list_member(ops: Seq<CommandeurOperation>, i: int)
    requires
        0 <= i < ops.len(),
    ensures
        enabled_op_ids(ops[i]).subset_of(enabled_list_ids(ops)),
        enabled_meta(ops[i]).subset_of(enabled_list_meta(ops)),
    decreases ops.len(),
{
    if i > 0 {
        lemma_enabled_list_member(ops.drop_first(), i - 1);
        assert(ops.drop_first()[i - 1] == ops[i]);
    }
}

/// Applies one `CreateFile` operation: parents are created, an existing
/// target is kept (with a warning) unless overwrite is set, and writing
/// onto a directory is an error.
fn op_create_file(
    operation: &CommandeurOperation,
    folder: &str,
    target: &str,
    overwrite: bool,
    content: &str,
    fs: &mut FolderFs,
    log: &mut Vec<CommandeurExecutionLogEntry>,
    warnings: &mut Vec<CommandeurValidationMessage>,
) -> (r: Result<(), String>)
    requires
        old(fs).wf(),
    ensures
        final(fs).wf(),
        spec_op_create_post(
            *operation,
            folder@,
            target@,
            overwrite,
            content@,
            old(fs)@,
            final(fs)@,
            old(log)@,
            final(log)@,
            old(warnings)@,
            final(warnings)@,
            r,
        ),
{
    let k = match sanitize_relative_path(target) {
        Ok(k) => k,
        Err(e) => {
            return Err(e.message().to_owned());
        },
    };
    if fs.ensure_parents(k.as_str()).is_err() {
        return Err(String::from_str("an ancestor of the target path is a file"));
    }
    let existing = fs.find_index(k.as_str());
    match existing {
        Some(i) => {
            if !overwrite {
                let wmsg = fmsg(folder, "File already exists, creation skipped", "", "", "");
                push_folder_validation(
                    warnings,
                    operation,
                    folder,
                    ValidationLevel::Warning,
                    wmsg,
                    Some(k.clone()),
                );
                let lmsg = fmsg(folder, "Existing file kept: ", target, "", "");
                push_log(log, operation, ValidationLevel::Info, lmsg);
                return Ok(());
            }
            if fs.nodes[i].is_dir {
                return Err(String::from_str("the target path is a directory"));
            }
            match fs.write_file(k.as_str(), content) {
                Ok(()) => {},
                Err(()) => {
                    proof {
                        assert(false);
                    }
                    return Err(String::new());
                },
            }
            let lmsg = fmsg(folder, "File created: ", target, "", "");
            push_log(log, operation, ValidationLevel::Info, lmsg);
            Ok(())
        },
        None => {
            match fs.write_file(k.as_str(), content) {
                Ok(()) => {},
                Err(()) => {
                    proof {
                        assert(false);
                    }
                    return Err(String::new());
                },
            }
            let lmsg = fmsg(folder, "File created: ", target, "", "");
            push_log(log, operation, ValidationLevel::Info, lmsg);
            Ok(())
        },
    }
}

/// Applies one `DeleteFile` operation: a missing target is an error when
/// the deletion is required and a warning otherwise; an existing target is
/// removed together with everything beneath it.
fn op_delete_file(
    operation: &CommandeurOperation,
    folder: &str,
    target: &str,
    required: bool,
    fs: &mut FolderFs,
    log: &mut Vec<CommandeurExecutionLogEntry>,
    warnings: &mut Vec<CommandeurValidationMessage>,
) -> (r: Result<(), String>)
    requires
        old(fs).wf(),
    ensures
        final(fs).wf(),
        spec_op_delete_post(
            *operation,
            folder@,
            target@,
            required,
            old(fs)@,
            final(fs)@,
            old(log)@,
            final(log)@,
            old(warnings)@,
            final(warnings)@,
            r,
        ),
{
    let k = match sanitize_relative_path(target) {
        Ok(k) => k,
        Err(e) => {
            return Err(e.message().to_owned());
        },
    };
    if !fs.exists_path(k.as_str()) {
        let wmsg = fmsg(folder, "File to delete not found: ", target, "", "");
        if required {
            push_folder_validation(warnings, operation, folder, ValidationLevel::Error, wmsg, None);
            return Err(String::from_str("required deletion impossible: file not found"));
        }
        push_folder_validation(warnings, operation, folder, ValidationLevel::Warning, wmsg, None);
        return Ok(());
    }
    fs.remove_tree(k.as_str());
    let lmsg = fmsg(folder, "File deleted: ", target, "", "");
    push_log(log, operation, ValidationLevel::Info, lmsg);
    Ok(())
}

/// Applies one `Mkdir` operation: an existing target is reported and kept
/// when skipping is on; otherwise creation is attempted, recursively or
/// not, and a file in the way is an error.
fn op_mkdir(
    operation: &CommandeurOperation,
    folder: &str,
    target: &str,
    recursive: bool,
    skip_if_exists: bool,
    fs: &mut FolderFs,
    log: &mut Vec<CommandeurExecutionLogEntry>,
    warnings: &mut Vec<CommandeurValidationMessage>,
) -> (r: Result<(), String>)
    requires
        old(fs).wf(),
    ensures
        final(fs).wf(),
        spec_op_mkdir_post(
            *operation,
            folder@,
            target@,
            recursive,
            skip_if_exists,
            old(fs)@,
            final(fs)@,
            old(log)@,
            final(log)@,
            old(warnings)@,
            final(warnings)@,
            r,
        ),
{
    let k = match sanitize_relative_path(target) {
        Ok(k) => k,
        Err(e) => {
            return Err(e.message().to_owned());
        },
    };
    if fs.exists_path(k.as_str()) && skip_if_exists {
        let wmsg = fmsg(folder, "Folder already present: ", target, "", "");
        push_folder_validation(warnings, operation, folder, ValidationLevel::Info, wmsg, None);
        return Ok(());
    }
    if recursive {
        match fs.create_dir_all(k.as_str()) {
            Ok(()) => {},
            Err(()) => {
                return Err(String::from_str("cannot create the directory: a file is in the way"));
            },
        }
    } else {
        match fs.create_dir(k.as_str()) {
            Ok(()) => {},
            Err(()) => {
                return Err(String::from_str("cannot create the directory without recursion"));
            },
        }
    }
    let lmsg = fmsg(folder, "Folder created: ", target, "", "");
    push_log(log, operation, ValidationLevel::Info, lmsg);
    Ok(())
}

/// Builds an error message from a fixed head and a path or name.
fn emsg(head: &str, arg: &str) -> (r: String)
    ensures
        r@ == head@ + arg@,
{
    let mut s = head.to_owned();
    s.append(arg);
    s
}

/// Applies one `Copy` operation: a missing or directory source is an
/// error; an existing destination is an error unless overwrite is set, in
/// which case it is removed first; the source's content is then written at
/// the destination.
fn op_copy(
    operation: &CommandeurOperation,
    folder: &str,
    source: &str,
    destination: &str,
    overwrite: bool,
    fs: &mut FolderFs,
    log: &mut Vec<CommandeurExecutionLogEntry>,
    warnings: &mut Vec<CommandeurValidationMessage>,
) -> (r: Result<(), String>)
    requires
        old(fs).wf(),
    ensures
        final(fs).wf(),
        final(warnings)@ == old(warnings)@,
        spec_op_copy_post(
            *operation,
            folder@,
            source@,
            destination@,
            overwrite,
            old(fs)@,
            final(fs)@,
            old(log)@,
            final(log)@,
            r,
        ),
{
    let ks = match sanitize_relative_path(source) {
        Ok(k) => k,
        Err(e) => {
            return Err(e.message().to_owned());
        },
    };
    match fs.find_index(ks.as_str()) {
        None => {
            return Err(emsg("source not found: ", source));
        },
        Some(i) => {
            if fs.nodes[i].is_dir {
                return Err(String::from_str("copying directories is not supported"));
            }
        },
    }
    let kd = match sanitize_relative_path(destination) {
        Ok(k) => k,
        Err(e) => {
            return Err(e.message().to_owned());
        },
    };
    if fs.ensure_parents(kd.as_str()).is_err() {
        return Err(String::from_str("an ancestor of the destination is a file"));
    }
    if fs.exists_path(kd.as_str()) {
        if !overwrite {
            return Err(emsg("destination already exists: ", destination));
        }
        fs.remove_tree(kd.as_str());
    }
    let content = match fs.read_file(ks.as_str()) {
        Some(c) => c,
        None => {
            return Err(String::from_str("the source vanished while copying"));
        },
    };
    match fs.write_file(kd.as_str(), content.as_str()) {
        Ok(()) => {},
        Err(()) => {
            return Err(String::from_str("the destination is a directory"));
        },
    }
    let lmsg = fmsg(folder, "Copied ", source, " -> ", destination);
    push_log(log, operation, ValidationLevel::Info, lmsg);
    Ok(())
}



/// The reason carried by the checkpoint decision the run would draw next,
/// when that decision is an interruption.
pub open spec fn spec_peek_checkpoint_interrupt(o: RunOracle) -> Option<Seq<char>> {
    if o.cpos < o.checkpoints@.len() {
        match o.checkpoints@[o.cpos as int] {
            CheckpointDecision::Proceed => None,
            CheckpointDecision::Interrupt(reason) => Some(reason@),
        }
    } else {
        None
    }
}

/// The oracle after one checkpoint decision is drawn.
pub open spec fn spec_after_checkpoint(o: RunOracle) -> RunOracle {
    RunOracle {
        cpos: if o.cpos < o.checkpoints@.len() {
            (o.cpos + 1) as usize
        } else {
            o.cpos
        },
        ..o
    }
}

/// Only decisions and outcomes are ever drawn from an oracle: the lists and
/// the interpreter probe never change, and the cursors never move back.
pub open spec fn spec_oracle_stable(o0: RunOracle, of: RunOracle) -> bool {
    of.checkpoints == o0.checkpoints && of.processes == o0.processes && of.python == o0.python
        && o0.cpos <= of.cpos && o0.ppos <= of.ppos
}

/// Every checkpoint decision drawn between the two oracle states told the
/// run to proceed.
pub open spec fn spec_consumed_clean(o0: RunOracle, of: RunOracle) -> bool {
    spec_oracle_stable(o0, of) && forall|t: int|
        o0.cpos <= t < of.cpos && t < o0.checkpoints@.len() ==> (
        #[trigger] o0.checkpoints@[t]) is Proceed
}

/// The last checkpoint decision drawn interrupted the run with the given
/// reason, and every earlier one told it to proceed.
pub open spec fn spec_consumed_interrupted(
    o0: RunOracle,
    of: RunOracle,
    reason: Seq<char>,
) -> bool {
    spec_oracle_stable(o0, of) && o0.cpos <= of.cpos - 1 < o0.checkpoints@.len() && (
    o0.checkpoints@[of.cpos - 1] matches CheckpointDecision::Interrupt(rr) && rr@ == reason)
        && forall|t: int|
        o0.cpos <= t < of.cpos - 1 ==> (#[trigger] o0.checkpoints@[t]) is Proceed
}

pub proof fn lemma_clean_trans(o0: RunOracle, o1: RunOracle, o2: RunOracle)
    requires
        spec_consumed_clean(o0, o1),
        spec_consumed_clean(o1, o2),
    ensures
        spec_consumed_clean(o0, o2),
{
    assert forall|t: int|
        o0.cpos <= t < o2.cpos && t < o0.checkpoints@.len() implies (
    #[trigger] o0.checkpoints@[t]) is Proceed by {
        if t < o1.cpos {
        } else {
            assert(o1.checkpoints@[t] is Proceed);
        }
    }
}

pub proof fn lemma_clean_then_interrupted(
    o0: RunOracle,
    o1: RunOracle,
    o2: RunOracle,
    reason: Seq<char>,
)
    requires
        spec_consumed_clean(o0, o1),
        spec_consumed_interrupted(o1, o2, reason),
    ensures
        spec_consumed_interrupted(o0, o2, reason),
{
    assert forall|t: int|
        o0.cpos <= t < o2.cpos - 1 implies (#[trigger] o0.checkpoints@[t]) is Proceed by {
        if t < o1.cpos {
            assert(t < o0.checkpoints@.len());
        } else {
            assert(o1.checkpoints@[t] is Proceed);
        }
    }
}

/// One head checkpoint that proceeded (plus any number of process draws)
/// is a clean consumption.
pub proof fn lemma_clean_head(o0: RunOracle, of: RunOracle)
    requires
        of.checkpoints == o0.checkpoints,
        of.processes == o0.processes,
        of.python == o0.python,
        o0.ppos <= of.ppos,
        of.cpos == spec_after_checkpoint(o0).cpos,
        spec_peek_checkpoint_interrupt(o0) is None,
    ensures
        spec_consumed_clean(o0, of),
{
    vstd::std_specs::vec::axiom_spec_len(&o0.checkpoints);
    assert(spec_oracle_stable(o0, of));
    assert forall|t: int|
        o0.cpos <= t < of.cpos && t < o0.checkpoints@.len() implies (
    #[trigger] o0.checkpoints@[t]) is Proceed by {
        assert(t == o0.cpos);
    }
}

/// The log after the operation's comment was noted: unchanged when there is
/// no comment or it is blank, else exactly one informational note appended.
pub open spec fn spec_note_step(
    op: CommandeurOperation,
    folder: Seq<char>,
    l0: Seq<CommandeurExecutionLogEntry>,
    l1: Seq<CommandeurExecutionLogEntry>,
) -> bool {
    match op.meta.comment {
        None => l1 == l0,
        Some(c) => if spec_trim(c@).len() == 0 {
            l1 == l0
        } else {
            appended_log(
                l0,
                l1,
                op_log(
                    op,
                    ValidationLevel::Info,
                    spec_fmsg(folder, "Note: "@, spec_trim(c@), ""@, ""@),
                ),
            )
        },
    }
}

/// A dispatch result reduced to the underlying operation outcome: success,
/// or the failure message wrapped with this operation's own identity.
/// Anything else (a foreign identity, an interrupt) reduces to nothing.
pub open spec fn spec_unwrap_outcome(op: CommandeurOperation, r: Result<(), CommandeurError>)
    -> Option<Result<(), String>> {
    match r {
        Ok(()) => Some(Ok(())),
        Err(CommandeurError::OperationFailed {
            operation_id,
            operation_label,
            continue_on_error,
            source,
        }) => if operation_id@ == op.meta.id@ && operation_label@ == op.meta.label@
            && continue_on_error == op.meta.continue_on_error {
            Some(Err(source))
        } else {
            None
        },
        _ => None,
    }
}

/// What one dispatch does, variant by variant, once the head checkpoint let
/// it proceed: the comment note, then the variant's own exact postcondition
/// over the folder model, log, validation collection, environment and
/// oracle. (When the head decision is an interrupt the separate
/// interrupt-first clause governs; an `If` is covered by the structural
/// subtree clauses together with the branch runs' own dispatches.)
pub open spec fn spec_dispatch_post(
    op: CommandeurOperation,
    folder: Seq<char>,
    v0: Seq<FsNodeView>,
    vf: Seq<FsNodeView>,
    l0: Seq<CommandeurExecutionLogEntry>,
    lf: Seq<CommandeurExecutionLogEntry>,
    w0: Seq<CommandeurValidationMessage>,
    wf: Seq<CommandeurValidationMessage>,
    env0: ExecutionEnv,
    envf: ExecutionEnv,
    o0: RunOracle,
    of: RunOracle,
    r: Result<(), CommandeurError>,
) -> bool {
    if spec_peek_checkpoint_interrupt(o0) is Some {
        true
    } else {
        let o1 = spec_after_checkpoint(o0);
        match op.details {
            OperationDetails::CreateFile { target, overwrite, content } => of == o1 && envf
                == env0 && exists|l1: Seq<CommandeurExecutionLogEntry>|
                #[trigger] spec_note_step(op, folder, l0, l1) && (match spec_unwrap_outcome(
                    op,
                    r,
                ) {
                    Some(r2) => spec_op_create_post(
                        op,
                        folder,
                        target@,
                        overwrite,
                        content@,
                        v0,
                        vf,
                        l1,
                        lf,
                        w0,
                        wf,
                        r2,
                    ),
                    None => false,
                }),
            OperationDetails::DeleteFile { target, required } => of == o1 && envf == env0
                && exists|l1: Seq<CommandeurExecutionLogEntry>|
                #[trigger] spec_note_step(op, folder, l0, l1) && (match spec_unwrap_outcome(
                    op,
                    r,
                ) {
                    Some(r2) => spec_op_delete_post(
                        op,
                        folder,
                        target@,
                        required,
                        v0,
                        vf,
                        l1,
                        lf,
                        w0,
                        wf,
                        r2,
                    ),
                    None => false,
                }),
            OperationDetails::Mkdir { target, recursive, skip_if_exists } => of == o1 && envf
                == env0 && exists|l1: Seq<CommandeurExecutionLogEntry>|
                #[trigger] spec_note_step(op, folder, l0, l1) && (match spec_unwrap_outcome(
                    op,
                    r,
                ) {
                    Some(r2) => spec_op_mkdir_post(
                        op,
                        folder,
                        target@,
                        recursive,
                        skip_if_exists,
                        v0,
                        vf,
                        l1,
                        lf,
                        w0,
                        wf,
                        r2,
                    ),
                    None => false,
                }),
            OperationDetails::Copy { source, destination, overwrite } => of == o1 && envf == env0
                && wf == w0 && exists|l1: Seq<CommandeurExecutionLogEntry>|
                #[trigger] spec_note_step(op, folder, l0, l1) && (match spec_unwrap_outcome(
                    op,
                    r,
                ) {
                    Some(r2) => spec_op_copy_post(
                        op,
                        folder,
                        source@,
                        destination@,
                        overwrite,
                        v0,
                        vf,
                        l1,
                        lf,
                        r2,
                    ),
                    None => false,
                }),
            OperationDetails::Move { source, destination, overwrite } => of == o1 && envf == env0
                && wf == w0 && exists|l1: Seq<CommandeurExecutionLogEntry>|
                #[trigger] spec_note_step(op, folder, l0, l1) && (match spec_unwrap_outcome(
                    op,
                    r,
                ) {
                    Some(r2) => spec_op_move_post(
                        op,
                        folder,
                        source@,
                        destination@,
                        overwrite,
                        v0,
                        vf,
                        l1,
                        lf,
                        r2,
                    ),
                    None => false,
                }),
            OperationDetails::Rename { target, mode, value, search, replace } => of == o1 && envf
                == env0 && wf == w0 && exists|l1: Seq<CommandeurExecutionLogEntry>|
                #[trigger] spec_note_step(op, folder, l0, l1) && (match spec_unwrap_outcome(
                    op,
                    r,
                ) {
                    Some(r2) => spec_op_rename_post(
                        op,
                        folder,
                        target@,
                        mode,
                        value@,
                        (match search {
                            Some(sv) => Some(sv@),
                            None => None,
                        }),
                        (match replace {
                            Some(sv) => Some(sv@),
                            None => None,
                        }),
                        v0,
                        vf,
                        l1,
                        lf,
                        r2,
                    ),
                    None => false,
                }),
            OperationDetails::ReplaceInFile { target, search, replace, mode, flags } => of == o1
                && envf == env0 && exists|l1: Seq<CommandeurExecutionLogEntry>|
                #[trigger] spec_note_step(op, folder, l0, l1) && (match spec_unwrap_outcome(
                    op,
                    r,
                ) {
                    Some(r2) => spec_op_replace_post(
                        op,
                        folder,
                        target@,
                        search@,
                        replace@,
                        mode,
                        crate::conditions::spec_opt_str_view(flags),
                        v0,
                        vf,
                        l1,
                        lf,
                        w0,
                        wf,
                        r2,
                    ),
                    None => false,
                }),
            OperationDetails::Exec { command, args: _, shell: _, cwd, env: _ } => vf == v0 && envf
                == env0 && wf == w0 && exists|l1: Seq<CommandeurExecutionLogEntry>|
                #[trigger] spec_note_step(op, folder, l0, l1) && (match spec_unwrap_outcome(
                    op,
                    r,
                ) {
                    Some(r2) => spec_op_exec_post(
                        op,
                        folder,
                        command@,
                        (match cwd {
                            Some(c) => Some(c@),
                            None => None,
                        }),
                        o1,
                        of,
                        l1,
                        lf,
                        r2,
                    ),
                    None => false,
                }),
            OperationDetails::Python { inline_script, script_path, entry } => vf == v0 && wf == w0
                && exists|l1: Seq<CommandeurExecutionLogEntry>|
                #[trigger] spec_note_step(op, folder, l0, l1) && (match spec_unwrap_outcome(
                    op,
                    r,
                ) {
                    Some(r2) => spec_op_python_post(
                        op,
                        folder,
                        (match inline_script {
                            Some(sc) => Some(sc@),
                            None => None,
                        }),
                        (match script_path {
                            Some(p) => Some(p@),
                            None => None,
                        }),
                        entry,
                        v0,
                        env0,
                        envf,
                        o1,
                        of,
                        l1,
                        lf,
                        r2,
                    ),
                    None => false,
                }),
            OperationDetails::If { .. } => true,
        }
    }
}

/// Everything `op_create_file` promises, as one predicate over the before
/// and after states.
pub open spec fn spec_op_create_post(
    op: CommandeurOperation,
    folder: Seq<char>,
    target: Seq<char>,
    overwrite: bool,
    content: Seq<char>,
    v0: Seq<FsNodeView>,
    vf: Seq<FsNodeView>,
    l0: Seq<CommandeurExecutionLogEntry>,
    lf: Seq<CommandeurExecutionLogEntry>,
    w0: Seq<CommandeurValidationMessage>,
    wf: Seq<CommandeurValidationMessage>,
    r: Result<(), String>,
) -> bool {
    match spec_sanitize_relative_path(target) {
        Err(e) => (r matches Err(m) && m@ == spec_path_error_message(e)) && vf == v0 && lf == l0
            && wf == w0,
        Ok(k) => if spec_parents_blocked(v0, k) {
            (r matches Err(m) && m@ == "an ancestor of the target path is a file"@) && lf == l0
                && wf == w0 && exists|jf: int|
                0 <= jf <= spec_slash_prefixes(k).len() && vf == spec_add_dirs(
                    v0,
                    spec_slash_prefixes(k).take(jf),
                )
        } else {
            let va = spec_add_dirs(v0, spec_slash_prefixes(k));
            if spec_find_node(va, k) is Some && !overwrite {
                r is Ok && vf == va && appended_warning(
                    w0,
                    wf,
                    folder_msg(
                        op,
                        folder,
                        ValidationLevel::Warning,
                        spec_fmsg(folder, "File already exists, creation skipped"@, ""@, ""@, ""@),
                        Some(k),
                    ),
                ) && appended_log(
                    l0,
                    lf,
                    op_log(
                        op,
                        ValidationLevel::Info,
                        spec_fmsg(folder, "Existing file kept: "@, target, ""@, ""@),
                    ),
                )
            } else if spec_find_node(va, k) matches Some(n) && n.is_dir {
                (r matches Err(m) && m@ == "the target path is a directory"@) && vf == va && lf
                    == l0 && wf == w0
            } else {
                r is Ok && vf == spec_write(va, k, content) && wf == w0 && appended_log(
                    l0,
                    lf,
                    op_log(
                        op,
                        ValidationLevel::Info,
                        spec_fmsg(folder, "File created: "@, target, ""@, ""@),
                    ),
                )
            }
        },
    }
}

/// Everything `op_delete_file` promises.
pub open spec fn spec_op_delete_post(
    op: CommandeurOperation,
    folder: Seq<char>,
    target: Seq<char>,
    required: bool,
    v0: Seq<FsNodeView>,
    vf: Seq<FsNodeView>,
    l0: Seq<CommandeurExecutionLogEntry>,
    lf: Seq<CommandeurExecutionLogEntry>,
    w0: Seq<CommandeurValidationMessage>,
    wf: Seq<CommandeurValidationMessage>,
    r: Result<(), String>,
) -> bool {
    match spec_sanitize_relative_path(target) {
        Err(e) => (r matches Err(m) && m@ == spec_path_error_message(e)) && vf == v0 && lf == l0
            && wf == w0,
        Ok(k) => if spec_find_node(v0, k) is None {
            let wmsg = spec_fmsg(folder, "File to delete not found: "@, target, ""@, ""@);
            if required {
                (r matches Err(m) && m@ == "required deletion impossible: file not found"@) && vf
                    == v0 && lf == l0 && appended_warning(
                    w0,
                    wf,
                    folder_msg(op, folder, ValidationLevel::Error, wmsg, None),
                )
            } else {
                r is Ok && vf == v0 && lf == l0 && appended_warning(
                    w0,
                    wf,
                    folder_msg(op, folder, ValidationLevel::Warning, wmsg, None),
                )
            }
        } else {
            r is Ok && vf == v0.filter(|n: FsNodeView| !spec_under(n.path, k)) && wf == w0
                && appended_log(
                l0,
                lf,
                op_log(
                    op,
                    ValidationLevel::Info,
                    spec_fmsg(folder, "File deleted: "@, target, ""@, ""@),
                ),
            )
        },
    }
}

/// Everything `op_mkdir` promises.
pub open spec fn spec_op_mkdir_post(
    op: CommandeurOperation,
    folder: Seq<char>,
    target: Seq<char>,
    recursive: bool,
    skip_if_exists: bool,
    v0: Seq<FsNodeView>,
    vf: Seq<FsNodeView>,
    l0: Seq<CommandeurExecutionLogEntry>,
    lf: Seq<CommandeurExecutionLogEntry>,
    w0: Seq<CommandeurValidationMessage>,
    wf: Seq<CommandeurValidationMessage>,
    r: Result<(), String>,
) -> bool {
    match spec_sanitize_relative_path(target) {
        Err(e) => (r matches Err(m) && m@ == spec_path_error_message(e)) && vf == v0 && lf == l0
            && wf == w0,
        Ok(k) => if spec_find_node(v0, k) is Some && skip_if_exists {
            r is Ok && vf == v0 && lf == l0 && appended_warning(
                w0,
                wf,
                folder_msg(
                    op,
                    folder,
                    ValidationLevel::Info,
                    spec_fmsg(folder, "Folder already present: "@, target, ""@, ""@),
                    None,
                ),
            )
        } else if recursive {
            if spec_parents_blocked(v0, k) || (spec_find_node(
                spec_add_dirs(v0, spec_slash_prefixes(k)),
                k,
            ) matches Some(n) && !n.is_dir) {
                (r matches Err(m) && m@ == "cannot create the directory: a file is in the way"@)
                    && lf == l0 && wf == w0 && exists|qs: Seq<Seq<char>>|
                    vf == spec_add_dirs(v0, qs)
            } else {
                r is Ok && vf == spec_add_dir(spec_add_dirs(v0, spec_slash_prefixes(k)), k) && wf
                    == w0 && appended_log(
                    l0,
                    lf,
                    op_log(
                        op,
                        ValidationLevel::Info,
                        spec_fmsg(folder, "Folder created: "@, target, ""@, ""@),
                    ),
                )
            }
        } else {
            let parents = spec_slash_prefixes(k);
            let parent_ok = parents.len() == 0 || (spec_find_node(v0, parents.last())
                matches Some(n) && n.is_dir);
            if spec_find_node(v0, k) is Some || !parent_ok {
                (r matches Err(m) && m@ == "cannot create the directory without recursion"@) && vf
                    == v0 && lf == l0 && wf == w0
            } else {
                r is Ok && vf == v0.push(FsNodeView { path: k, is_dir: true, content: Seq::empty() })
                    && wf == w0 && appended_log(
                    l0,
                    lf,
                    op_log(
                        op,
                        ValidationLevel::Info,
                        spec_fmsg(folder, "Folder created: "@, target, ""@, ""@),
                    ),
                )
            }
        },
    }
}

/// Everything `op_copy` promises (the validation collection is untouched).
pub open spec fn spec_op_copy_post(
    op: CommandeurOperation,
    folder: Seq<char>,
    source: Seq<char>,
    destination: Seq<char>,
    overwrite: bool,
    v0: Seq<FsNodeView>,
    vf: Seq<FsNodeView>,
    l0: Seq<CommandeurExecutionLogEntry>,
    lf: Seq<CommandeurExecutionLogEntry>,
    r: Result<(), String>,
) -> bool {
    match spec_sanitize_relative_path(source) {
        Err(e) => (r matches Err(m) && m@ == spec_path_error_message(e)) && vf == v0 && lf == l0,
        Ok(ks) => if spec_find_node(v0, ks) is None {
            (r matches Err(m) && m@ == "source not found: "@ + source) && vf == v0 && lf == l0
        } else if spec_find_node(v0, ks) matches Some(n) && n.is_dir {
            (r matches Err(m) && m@ == "copying directories is not supported"@) && vf == v0 && lf
                == l0
        } else {
            match spec_sanitize_relative_path(destination) {
                Err(e) => (r matches Err(m) && m@ == spec_path_error_message(e)) && vf == v0 && lf
                    == l0,
                Ok(kd) => if spec_parents_blocked(v0, kd) {
                    (r matches Err(m) && m@ == "an ancestor of the destination is a file"@) && lf
                        == l0 && exists|jf: int|
                        0 <= jf <= spec_slash_prefixes(kd).len() && vf == spec_add_dirs(
                            v0,
                            spec_slash_prefixes(kd).take(jf),
                        )
                } else {
                    let va = spec_add_dirs(v0, spec_slash_prefixes(kd));
                    if spec_find_node(va, kd) is Some && !overwrite {
                        (r matches Err(m) && m@ == "destination already exists: "@ + destination)
                            && vf == va && lf == l0
                    } else {
                        let vb = if spec_find_node(va, kd) is Some {
                            va.filter(|n: FsNodeView| !spec_under(n.path, kd))
                        } else {
                            va
                        };
                        match spec_find_node(vb, ks) {
                            Some(n) => if n.is_dir {
                                (r matches Err(m) && m@ == "the source vanished while copying"@)
                                    && vf == vb && lf == l0
                            } else if spec_find_node(vb, kd) matches Some(d) && d.is_dir {
                                (r matches Err(m) && m@ == "the destination is a directory"@) && vf
                                    == vb && lf == l0
                            } else {
                                r is Ok && vf == spec_write(vb, kd, n.content) && appended_log(
                                    l0,
                                    lf,
                                    op_log(
                                        op,
                                        ValidationLevel::Info,
                                        spec_fmsg(folder, "Copied "@, source, " -> "@, destination),
                                    ),
                                )
                            },
                            None => (r matches Err(m) && m@ == "the source vanished while copying"@)
                                && vf == vb && lf == l0,
                        }
                    }
                },
            }
        },
    }
}

/// Everything `op_rename` promises (the validation collection is untouched).
pub open spec fn spec_op_rename_post(
    op: CommandeurOperation,
    folder: Seq<char>,
    target: Seq<char>,
    mode: crate::model::RenameMode,
    value: Seq<char>,
    search: Option<Seq<char>>,
    replace: Option<Seq<char>>,
    v0: Seq<FsNodeView>,
    vf: Seq<FsNodeView>,
    l0: Seq<CommandeurExecutionLogEntry>,
    lf: Seq<CommandeurExecutionLogEntry>,
    r: Result<(), String>,
) -> bool {
    match spec_sanitize_relative_path(target) {
        Err(e) => (r matches Err(m) && m@ == spec_path_error_message(e)) && vf == v0 && lf == l0,
        Ok(ks) => if spec_find_node(v0, ks) is None {
            (r matches Err(m) && m@ == "file or folder not found: "@ + target) && vf == v0 && lf
                == l0
        } else {
            match crate::rename::spec_rename_destination_path(ks, mode, value, search, replace) {
                Err(e) => (r matches Err(m) && m@ == crate::rename::spec_rename_error_message(e))
                    && vf == v0 && lf == l0,
                Ok(kd) => {
                    let new_name = match crate::rename::spec_rfind(ks, '/') {
                        Some(i) => kd.skip(i + 1),
                        None => kd,
                    };
                    if spec_find_node(v0, kd) is Some {
                        (r matches Err(m) && m@ == "destination already exists"@) && vf == v0 && lf
                            == l0
                    } else if crate::fsmodel::spec_any_under(v0, kd) {
                        (r matches Err(m) && m@ == "destination already exists"@) && vf == v0 && lf
                            == l0
                    } else {
                        r is Ok && vf == v0.map_values(
                            |n: FsNodeView| crate::fsmodel::spec_rename_node(n, ks, kd),
                        ) && appended_log(
                            l0,
                            lf,
                            op_log(
                                op,
                                ValidationLevel::Info,
                                spec_fmsg(folder, "Renamed "@, target, " -> "@, new_name),
                            ),
                        )
                    }
                },
            }
        },
    }
}

/// Everything `op_exec` promises: the model is untouched (what the command
/// did on disk is outside it), the working-directory fragment must be
/// sound, and the process outcome at the oracle's cursor decides success.
pub open spec fn spec_op_exec_post(
    op: CommandeurOperation,
    folder: Seq<char>,
    command: Seq<char>,
    cwd: Option<Seq<char>>,
    o0: RunOracle,
    of: RunOracle,
    l0: Seq<CommandeurExecutionLogEntry>,
    lf: Seq<CommandeurExecutionLogEntry>,
    r: Result<(), String>,
) -> bool {
    let cwd_bad = match cwd {
        Some(c) => spec_sanitize_relative_path(c) is Err,
        None => false,
    };
    if cwd_bad {
        (match cwd {
            Some(c) => r matches Err(m) && (spec_sanitize_relative_path(c) matches Err(e) && m@
                == spec_path_error_message(e)),
            None => false,
        }) && lf == l0 && of == o0
    } else {
        let po = spec_peek_process(o0);
        spec_process_consumed(o0, of) && if po.success {
            r is Ok && appended_log(
                l0,
                lf,
                op_log(
                    op,
                    ValidationLevel::Info,
                    spec_fmsg(folder, "Command executed: "@, command, ""@, ""@),
                ),
            )
        } else {
            (r matches Err(m) && m@ == spec_proc_failure_msg(
                "command failed"@,
                po.exit_code,
                po.stdout,
                po.stderr,
            )) && lf == l0
        }
    }
}

/// Everything `op_python` promises: the interpreter must be resolvable,
/// inline scripts need their text and file scripts must exist in the folder
/// model, and the process outcome at the oracle's cursor decides success.
pub open spec fn spec_op_python_post(
    op: CommandeurOperation,
    folder: Seq<char>,
    inline_script: Option<Seq<char>>,
    script_path: Option<Seq<char>>,
    entry: crate::model::PythonEntry,
    v: Seq<FsNodeView>,
    env0: ExecutionEnv,
    envf: ExecutionEnv,
    o0: RunOracle,
    of: RunOracle,
    l0: Seq<CommandeurExecutionLogEntry>,
    lf: Seq<CommandeurExecutionLogEntry>,
    r: Result<(), String>,
) -> bool {
    let python_missing = env0.python_cmd is None && o0.python is None;
    if python_missing {
        (r matches Err(m) && m@ == "python interpreter not found (python or python3)"@) && lf
            == l0 && of == o0 && envf == env0
    } else {
        envf.python_cmd is Some && {
            let script_err: Option<Seq<char>> = match entry {
                crate::model::PythonEntry::Inline => match inline_script {
                    None => Some("inline script missing"@),
                    Some(_) => None,
                },
                crate::model::PythonEntry::File => match script_path {
                    None => Some("script path required"@),
                    Some(p) => match spec_sanitize_relative_path(p) {
                        Err(e) => Some(spec_path_error_message(e)),
                        Ok(k) => if spec_find_node(v, k) is None {
                            Some("python script not found: "@ + p)
                        } else {
                            None
                        },
                    },
                },
            };
            match script_err {
                Some(msg) => (r matches Err(m) && m@ == msg) && lf == l0 && of == o0,
                None => {
                    let po = spec_peek_process(o0);
                    spec_process_consumed(o0, of) && if po.success {
                        r is Ok && appended_log(
                            l0,
                            lf,
                            op_log(
                                op,
                                ValidationLevel::Info,
                                spec_fmsg(folder, "Python script executed"@, ""@, ""@, ""@),
                            ),
                        )
                    } else {
                        (r matches Err(m) && m@ == spec_proc_failure_msg(
                            "python script failed"@,
                            po.exit_code,
                            po.stdout,
                            po.stderr,
                        )) && lf == l0
                    }
                },
            }
        }
    }
}

/// Everything `op_move` promises, as one predicate over the before and
/// after states.
pub open spec fn spec_op_move_post(
    op: CommandeurOperation,
    folder: Seq<char>,
    source: Seq<char>,
    destination: Seq<char>,
    overwrite: bool,
    v0: Seq<FsNodeView>,
    vf: Seq<FsNodeView>,
    l0: Seq<CommandeurExecutionLogEntry>,
    lf: Seq<CommandeurExecutionLogEntry>,
    r: Result<(), String>,
) -> bool {
            match spec_sanitize_relative_path(source) {
                Err(e) => (r matches Err(m) && m@ == spec_path_error_message(e)) && vf == v0 && lf
                    == l0,
                Ok(ks) => if spec_find_node(v0, ks) is None {
                    (r matches Err(m) && m@ == "source not found: "@ + source) && vf == v0 && lf
                        == l0
                } else {
                    match spec_sanitize_relative_path(destination) {
                        Err(e) => (r matches Err(m) && m@ == spec_path_error_message(e)) && vf
                            == v0 && lf == l0,
                        Ok(kd) => if spec_parents_blocked(v0, kd) {
                            (r matches Err(m) && m@ == "an ancestor of the destination is a file"@)
                                && lf == l0 && exists|jf: int|
                                0 <= jf <= spec_slash_prefixes(kd).len() && vf == spec_add_dirs(
                                    v0,
                                    spec_slash_prefixes(kd).take(jf),
                                )
                        } else {
                            let va = spec_add_dirs(v0, spec_slash_prefixes(kd));
                            if spec_find_node(va, kd) is Some && !overwrite {
                                (r matches Err(m) && m@ == "destination already exists: "@
                                    + destination) && vf == va && lf == l0
                            } else {
                                let vb = if spec_find_node(va, kd) is Some {
                                    va.filter(|n: FsNodeView| !spec_under(n.path, kd))
                                } else {
                                    va
                                };
                                if crate::fsmodel::spec_any_under(vb, kd) {
                                    (r matches Err(m) && m@ == "destination already exists: "@
                                        + destination) && vf == vb && lf == l0
                                } else {
                                    r is Ok && vf == vb.map_values(
                                        |n: FsNodeView|
                                            crate::fsmodel::spec_rename_node(n, ks, kd),
                                    ) && appended_log(
                                        l0,
                                        lf,
                                        op_log(
                                            op,
                                            ValidationLevel::Info,
                                            spec_fmsg(
                                                folder,
                                                "Moved "@,
                                                source,
                                                " -> "@,
                                                destination,
                                            ),
                                        ),
                                    )
                                }
                            }
                        },
                    }
                },
            }
}

/// Applies one `Move` operation: the source subtree is renamed to the
/// destination; an existing destination is an error unless overwrite is
/// set, in which case it is removed first.
#[verifier::rlimit(100)]
#[verifier::spinoff_prover]
fn op_move(
    operation: &CommandeurOperation,
    folder: &str,
    source: &str,
    destination: &str,
    overwrite: bool,
    fs: &mut FolderFs,
    log: &mut Vec<CommandeurExecutionLogEntry>,
) -> (r: Result<(), String>)
    requires
        old(fs).wf(),
    ensures
        final(fs).wf(),
        spec_op_move_post(
            *operation,
            folder@,
            source@,
            destination@,
            overwrite,
            old(fs)@,
            final(fs)@,
            old(log)@,
            final(log)@,
            r,
        ),
{
    let ks = match sanitize_relative_path(source) {
        Ok(k) => k,
        Err(e) => {
            return Err(e.message().to_owned());
        },
    };
    if !fs.exists_path(ks.as_str()) {
        return Err(emsg("source not found: ", source));
    }
    let kd = match sanitize_relative_path(destination) {
        Ok(k) => k,
        Err(e) => {
            return Err(e.message().to_owned());
        },
    };
    if fs.ensure_parents(kd.as_str()).is_err() {
        return Err(String::from_str("an ancestor of the destination is a file"));
    }
    proof {
        assert(!spec_parents_blocked(old(fs)@, kd@));
        assert(fs@ == spec_add_dirs(old(fs)@, spec_slash_prefixes(kd@)));
    }
    if fs.exists_path(kd.as_str()) {
        if !overwrite {
            let m = emsg("destination already exists: ", destination);
            proof {
                assert(m@ == "destination already exists: "@ + destination@);
                assert(spec_find_node(
                    spec_add_dirs(old(fs)@, spec_slash_prefixes(kd@)),
                    kd@,
                ) is Some);
            }
            return Err(m);
        }
        fs.remove_tree(kd.as_str());
    }
    let ghost vb = fs@;
    match fs.rename_tree(ks.as_str(), kd.as_str()) {
        Ok(()) => {},
        Err(()) => {
            let m = emsg("destination already exists: ", destination);
            proof {
                assert(fs@ == vb);
                assert(crate::fsmodel::spec_any_under(vb, kd@));
                assert(m@ == "destination already exists: "@ + destination@);
            }
            return Err(m);
        },
    }
    let lmsg = fmsg(folder, "Moved ", source, " -> ", destination);
    push_log(log, operation, ValidationLevel::Info, lmsg);
    Ok(())
}

/// Applies one `Rename` operation: the new name is computed from the
/// target's file name by the rename mode, and the target subtree moves to
/// the sibling path; an existing destination is always an error.
fn op_rename(
    operation: &CommandeurOperation,
    folder: &str,
    target: &str,
    mode: &crate::model::RenameMode,
    value: &str,
    search: Option<&str>,
    replace: Option<&str>,
    fs: &mut FolderFs,
    log: &mut Vec<CommandeurExecutionLogEntry>,
) -> (r: Result<(), String>)
    requires
        old(fs).wf(),
    ensures
        final(fs).wf(),
        spec_op_rename_post(
            *operation,
            folder@,
            target@,
            *mode,
            value@,
            (match search {
                Some(s) => Some(s@),
                None => None,
            }),
            (match replace {
                Some(s) => Some(s@),
                None => None,
            }),
            old(fs)@,
            final(fs)@,
            old(log)@,
            final(log)@,
            r,
        ),
{
    let ks = match sanitize_relative_path(target) {
        Ok(k) => k,
        Err(e) => {
            return Err(e.message().to_owned());
        },
    };
    if !fs.exists_path(ks.as_str()) {
        return Err(emsg("file or folder not found: ", target));
    }
    let kd = match crate::rename::rename_destination_path(ks.as_str(), mode, value, search, replace) {
        Ok(d) => d,
        Err(e) => {
            return Err(e.message().to_owned());
        },
    };
    if fs.exists_path(kd.as_str()) {
        return Err(String::from_str("destination already exists"));
    }
    match fs.rename_tree(ks.as_str(), kd.as_str()) {
        Ok(()) => {},
        Err(()) => {
            return Err(String::from_str("destination already exists"));
        },
    }
    let kchars = crate::text::chars_of(ks.as_str());
    let dchars = crate::text::chars_of(kd.as_str());
    let new_name: String = match crate::rename::rfind_char(&kchars, '/') {
        Some(i) => {
            proof {
                vstd::std_specs::vec::axiom_spec_len(&kchars);
                vstd::std_specs::vec::axiom_spec_len(&dchars);
                assert(kd@.len() > i + 1);
            }
            let nm = crate::text::subrange_chars(&dchars, i + 1, dchars.len());
            proof {
                assert(nm@ =~= kd@.skip(i + 1));
            }
            crate::text::string_from_chars(&nm)
        },
        None => kd.clone(),
    };
    let lmsg = fmsg(folder, "Renamed ", target, " -> ", new_name.as_str());
    push_log(log, operation, ValidationLevel::Info, lmsg);
    Ok(())
}


/// Whether a flags string switches an option on (either case letter).
pub open spec fn spec_flags_set(f: Seq<char>, lower: char, upper: char) -> bool
    decreases f.len(),
{
    if f.len() == 0 {
        false
    } else {
        f[0] == lower || f[0] == upper || spec_flags_set(f.drop_first(), lower, upper)
    }
}

pub open spec fn spec_flag_on(flags: Option<Seq<char>>, lower: char, upper: char) -> bool {
    match flags {
        Some(f) => spec_flags_set(f, lower, upper),
        None => false,
    }
}

fn flag_on(flags: &Option<String>, lower: char, upper: char) -> (r: bool)
    ensures
        r == spec_flag_on(crate::conditions::spec_opt_str_view(*flags), lower, upper),
{
    match flags {
        Some(f) => {
            let ghost fv = f@;
            let v = crate::text::chars_of(f.as_str());
            let n = v.len();
            let mut i: usize = 0;
            proof {
                assert(f@.skip(0) =~= f@);
            }
            while i < n
                invariant
                    i <= n,
                    n == v@.len(),
                    v@ == f@,
                    crate::conditions::spec_opt_str_view(*flags) == Some(f@),
                    spec_flags_set(f@, lower, upper) == spec_flags_set(
                        f@.skip(i as int),
                        lower,
                        upper,
                    ),
                decreases n - i,
            {
                proof {
                    assert(f@.skip(i as int)[0] == f@[i as int]);
                    assert(f@.skip(i as int).drop_first() =~= f@.skip(i + 1 as int));
                }
                if v[i] == lower || v[i] == upper {
                    return true;
                }
                i = i + 1;
            }
            proof {
                assert(f@.skip(n as int) =~= Seq::<char>::empty());
            }
            false
        },
        None => false,
    }
}

/// Everything `op_replace_in_file` promises: the target must be an existing
/// file; plain mode replaces literal occurrences (an empty search matches
/// nothing), regex mode replaces pattern matches under the given flags;
/// zero matches file an informational note and leave the file untouched.
pub open spec fn spec_op_replace_post(
    op: CommandeurOperation,
    folder: Seq<char>,
    target: Seq<char>,
    search: Seq<char>,
    replace: Seq<char>,
    mode: crate::model::ReplaceMode,
    flags: Option<Seq<char>>,
    v0: Seq<FsNodeView>,
    vf: Seq<FsNodeView>,
    l0: Seq<CommandeurExecutionLogEntry>,
    lf: Seq<CommandeurExecutionLogEntry>,
    w0: Seq<CommandeurValidationMessage>,
    wf: Seq<CommandeurValidationMessage>,
    r: Result<(), String>,
) -> bool {
    let ci = spec_flag_on(flags, 'i', 'I');
    let ml = spec_flag_on(flags, 'm', 'M');
    let dnl = spec_flag_on(flags, 's', 'S');
    let iw = spec_flag_on(flags, 'x', 'X');
    match spec_sanitize_relative_path(target) {
        Err(e) => (r matches Err(m) && m@ == spec_path_error_message(e)) && vf == v0 && lf == l0
            && wf == w0,
        Ok(k) => match spec_find_node(v0, k) {
            None => (r matches Err(m) && m@ == "file not found: "@ + target) && vf == v0 && lf
                == l0 && wf == w0,
            Some(node) => if node.is_dir {
                (r matches Err(m) && m@ == "the target is a directory"@) && vf == v0 && lf == l0
                    && wf == w0
            } else if mode is Regex && !crate::regexes::regex_valid(search, ci, ml, dnl, iw) {
                (r matches Err(m) && m@ == "invalid regular expression"@) && vf == v0 && lf == l0
                    && wf == w0
            } else {
                let count: nat = match mode {
                    crate::model::ReplaceMode::Plain => if search.len() == 0 {
                        0
                    } else {
                        crate::text::spec_count_matches(node.content, search)
                    },
                    crate::model::ReplaceMode::Regex => crate::regexes::regex_match_count(
                        search,
                        ci,
                        ml,
                        dnl,
                        iw,
                        node.content,
                    ),
                };
                let updated: Seq<char> = match mode {
                    crate::model::ReplaceMode::Plain => if search.len() == 0 {
                        node.content
                    } else {
                        crate::text::spec_replace(node.content, search, replace)
                    },
                    crate::model::ReplaceMode::Regex => crate::regexes::regex_replaced(
                        search,
                        ci,
                        ml,
                        dnl,
                        iw,
                        node.content,
                        replace,
                    ),
                };
                if count == 0 {
                    r is Ok && vf == v0 && lf == l0 && appended_warning(
                        w0,
                        wf,
                        folder_msg(
                            op,
                            folder,
                            ValidationLevel::Info,
                            spec_fmsg(folder, "No replacements in: "@, target, ""@, ""@),
                            None,
                        ),
                    )
                } else {
                    r is Ok && vf == spec_write(v0, k, updated) && wf == w0 && appended_log(
                        l0,
                        lf,
                        op_log(
                            op,
                            ValidationLevel::Info,
                            spec_fmsg(
                                folder,
                                "Replaced "@,
                                crate::text::spec_u64_digits(count),
                                " occurrence(s) in: "@,
                                target,
                            ),
                        ),
                    )
                }
            },
        },
    }
}

/// Applies one `ReplaceInFile` operation; see `spec_op_replace_post`.
fn op_replace_in_file(
    operation: &CommandeurOperation,
    folder: &str,
    target: &str,
    search: &str,
    replace: &str,
    mode: &crate::model::ReplaceMode,
    flags: &Option<String>,
    fs: &mut FolderFs,
    log: &mut Vec<CommandeurExecutionLogEntry>,
    warnings: &mut Vec<CommandeurValidationMessage>,
) -> (r: Result<(), String>)
    requires
        old(fs).wf(),
    ensures
        final(fs).wf(),
        spec_op_replace_post(
            *operation,
            folder@,
            target@,
            search@,
            replace@,
            *mode,
            crate::conditions::spec_opt_str_view(*flags),
            old(fs)@,
            final(fs)@,
            old(log)@,
            final(log)@,
            old(warnings)@,
            final(warnings)@,
            r,
        ),
{
    let k = match sanitize_relative_path(target) {
        Ok(k) => k,
        Err(e) => {
            return Err(e.message().to_owned());
        },
    };
    let content: String = match fs.find_index(k.as_str()) {
        None => {
            return Err(emsg("file not found: ", target));
        },
        Some(i) => {
            if fs.nodes[i].is_dir {
                return Err(String::from_str("the target is a directory"));
            }
            fs.nodes[i].content.clone()
        },
    };
    let ci = flag_on(flags, 'i', 'I');
    let ml = flag_on(flags, 'm', 'M');
    let dnl = flag_on(flags, 's', 'S');
    let iw = flag_on(flags, 'x', 'X');
    let is_plain = match mode {
        crate::model::ReplaceMode::Plain => true,
        crate::model::ReplaceMode::Regex => false,
    };
    let (updated, count): (String, usize) = if is_plain {
        let cv = crate::text::chars_of(content.as_str());
        let sv = crate::text::chars_of(search);
        if sv.len() == 0 {
            (content.clone(), 0)
        } else {
            let rv = crate::text::chars_of(replace);
            let pair = crate::text::replace_all(&cv, &sv, &rv);
            (crate::text::string_from_chars(&pair.0), pair.1)
        }
    } else {
        match crate::regexes::regex_replace_all(
            search,
            ci,
            ml,
            dnl,
            iw,
            content.as_str(),
            replace,
        ) {
            Some(p) => p,
            None => {
                return Err(String::from_str("invalid regular expression"));
            },
        }
    };
    if count == 0 {
        let wmsg = fmsg(folder, "No replacements in: ", target, "", "");
        push_folder_validation(warnings, operation, folder, ValidationLevel::Info, wmsg, None);
        return Ok(());
    }
    match fs.write_file(k.as_str(), updated.as_str()) {
        Ok(()) => {},
        Err(()) => {
            proof {
                assert(false);
            }
            return Err(String::new());
        },
    }
    let count_str = crate::text::string_from_chars(&crate::text::u64_to_chars(count as u64));
    let lmsg = fmsg(folder, "Replaced ", count_str.as_str(), " occurrence(s) in: ", target);
    push_log(log, operation, ValidationLevel::Info, lmsg);
    Ok(())
}


/// The process outcome the engine will consume next: the oracle's current
/// entry, or the stands-for-spawn-failure default once drained.
pub struct ProcOutView {
    pub success: bool,
    pub exit_code: Option<i32>,
    pub stdout: Seq<char>,
    pub stderr: Seq<char>,
}

pub open spec fn spec_peek_process(o: RunOracle) -> ProcOutView {
    if o.ppos < o.processes@.len() {
        ProcOutView {
            success: o.processes@[o.ppos as int].success,
            exit_code: o.processes@[o.ppos as int].exit_code,
            stdout: o.processes@[o.ppos as int].stdout@,
            stderr: o.processes@[o.ppos as int].stderr@,
        }
    } else {
        ProcOutView {
            success: false,
            exit_code: None,
            stdout: ""@,
            stderr: "could not start the process"@,
        }
    }
}

/// One process cursor step, everything else untouched.
pub open spec fn spec_process_consumed(o0: RunOracle, of: RunOracle) -> bool {
    of.checkpoints == o0.checkpoints && of.cpos == o0.cpos && of.processes == o0.processes
        && of.python == o0.python && of.ppos == (if o0.ppos < o0.processes@.len() {
        o0.ppos + 1
    } else {
        o0.ppos as int
    })
}

/// How a failed external process is reported: its exit code and its
/// sanitized output streams.
pub open spec fn spec_proc_failure_msg(
    head: Seq<char>,
    code: Option<i32>,
    out: Seq<char>,
    err: Seq<char>,
) -> Seq<char> {
    head + " (exit code: "@ + (match code {
        Some(c) => crate::text::spec_i64_digits(c as int),
        None => "none"@,
    }) + ")"@ + "\nSTDOUT:\n"@ + crate::shellcmd::spec_sanitize_output(out) + "\nSTDERR:\n"@
        + crate::shellcmd::spec_sanitize_output(err)
}

fn proc_failure_msg(head: &str, code: Option<i32>, out: &str, err: &str) -> (r: String)
    ensures
        r@ == spec_proc_failure_msg(head@, code, out@, err@),
{
    let mut s = head.to_owned();
    s.append(" (exit code: ");
    match code {
        Some(c) => {
            let digits = crate::text::i64_to_chars(c as i64);
            let ds = crate::text::string_from_chars(&digits);
            s.append(ds.as_str());
        },
        None => {
            s.append("none");
        },
    }
    s.append(")");
    s.append("\nSTDOUT:\n");
    let so = crate::shellcmd::sanitize_output(out);
    s.append(so.as_str());
    s.append("\nSTDERR:\n");
    let se = crate::shellcmd::sanitize_output(err);
    s.append(se.as_str());
    proof {
        assert(s@ =~= spec_proc_failure_msg(head@, code, out@, err@));
    }
    s
}

/// Applies one `Exec` operation: the command line is built for the chosen
/// shell, a bad working-directory fragment is an error, and the external
/// process outcome decides success; a failing process reports its exit code
/// and sanitized output. The file model is untouched: what the command did
/// to the folder is outside the model.
fn op_exec(
    operation: &CommandeurOperation,
    folder: &str,
    command: &str,
    args: &Vec<String>,
    shell: &crate::model::ShellKind,
    cwd: &Option<String>,
    oracle: &mut RunOracle,
    log: &mut Vec<CommandeurExecutionLogEntry>,
) -> (r: Result<(), String>)
    ensures
        spec_op_exec_post(
            *operation,
            folder@,
            command@,
            (match cwd {
                Some(c) => Some(c@),
                None => None,
            }),
            *old(oracle),
            *final(oracle),
            old(log)@,
            final(log)@,
            r,
        ),
{
    let _spec = crate::shellcmd::build_command(shell, command, args);
    match cwd {
        Some(c) => {
            match sanitize_relative_path(c.as_str()) {
                Ok(_) => {},
                Err(e) => {
                    return Err(e.message().to_owned());
                },
            }
        },
        None => {},
    }
    let outcome = oracle.next_process();
    if !outcome.success {
        return Err(
            proc_failure_msg(
                "command failed",
                outcome.exit_code,
                outcome.stdout.as_str(),
                outcome.stderr.as_str(),
            ),
        );
    }
    let lmsg = fmsg(folder, "Command executed: ", command, "", "");
    push_log(log, operation, ValidationLevel::Info, lmsg);
    Ok(())
}

/// Applies one `Python` operation: the interpreter is resolved once per run
/// (a missing one is an ordinary error), an inline script runs from a
/// scoped temporary file while a file script must exist in the folder, and
/// the process outcome decides success as for `Exec`.
fn op_python(
    operation: &CommandeurOperation,
    folder: &str,
    inline_script: &Option<String>,
    script_path: &Option<String>,
    entry: &crate::model::PythonEntry,
    fs: &FolderFs,
    env: &mut ExecutionEnv,
    oracle: &mut RunOracle,
    log: &mut Vec<CommandeurExecutionLogEntry>,
) -> (r: Result<(), String>)
    ensures
        spec_op_python_post(
            *operation,
            folder@,
            (match inline_script {
                Some(sc) => Some(sc@),
                None => None,
            }),
            (match script_path {
                Some(p) => Some(p@),
                None => None,
            }),
            *entry,
            fs@,
            *old(env),
            *final(env),
            *old(oracle),
            *final(oracle),
            old(log)@,
            final(log)@,
            r,
        ),
{
    let python = oracle.python.clone();
    match env.ensure_python(&python) {
        Ok(_) => {},
        Err(()) => {
            return Err(String::from_str("python interpreter not found (python or python3)"));
        },
    }
    match entry {
        crate::model::PythonEntry::Inline => {
            match inline_script {
                Some(_) => {},
                None => {
                    return Err(String::from_str("inline script missing"));
                },
            }
        },
        crate::model::PythonEntry::File => {
            match script_path {
                None => {
                    return Err(String::from_str("script path required"));
                },
                Some(p) => {
                    let k = match sanitize_relative_path(p.as_str()) {
                        Ok(k) => k,
                        Err(e) => {
                            return Err(e.message().to_owned());
                        },
                    };
                    if !fs.exists_path(k.as_str()) {
                        return Err(emsg("python script not found: ", p.as_str()));
                    }
                },
            }
        },
    }
    let outcome = oracle.next_process();
    if !outcome.success {
        return Err(
            proc_failure_msg(
                "python script failed",
                outcome.exit_code,
                outcome.stdout.as_str(),
                outcome.stderr.as_str(),
            ),
        );
    }
    let lmsg = fmsg(folder, "Python script executed", "", "", "");
    push_log(log, operation, ValidationLevel::Info, lmsg);
    Ok(())
}


/// Every element filtered out leaves nothing.
pub proof fn lemma_filter_all_excluded<A>(s: Seq<A>, p: spec_fn(A) -> bool)
    requires
        forall|i: int| 0 <= i < s.len() ==> !p(s[i]),
    ensures
        s.filter(p) =~= Seq::<A>::empty(),
    decreases s.len(),
{
    reveal(Seq::filter);
    if s.len() > 0 {
        assert(forall|i: int| 0 <= i < s.drop_last().len() ==> s.drop_last()[i] == s[i]);
        lemma_filter_all_excluded(s.drop_last(), p);
    }
}

/// Where a kept element lands in the filtered sequence: right after the
/// kept elements that precede it.
pub proof fn lemma_filter_index<A>(s: Seq<A>, p: spec_fn(A) -> bool, i: int)
    requires
        0 <= i < s.len(),
        p(s[i]),
    ensures
        s.take(i).filter(p).len() < s.filter(p).len(),
        s.filter(p)[s.take(i).filter(p).len() as int] == s[i],
    decreases s.len(),
{
    reveal(Seq::filter);
    if i == s.len() - 1 {
        assert(s.drop_last() =~= s.take(i));
    } else {
        assert(forall|j: int| 0 <= j < s.drop_last().len() ==> s.drop_last()[j] == s[j]);
        lemma_filter_index(s.drop_last(), p, i);
        assert(s.drop_last().take(i) =~= s.take(i));
        if p(s.last()) {
            assert(s.filter(p) == s.drop_last().filter(p).push(s.last()));
        }
    }
}



/// Every log entry from position `from` on carries an id from `ids` and is
/// not error-level.
pub open spec fn log_seg_ok(
    l: Seq<CommandeurExecutionLogEntry>,
    from: int,
    ids: Set<Seq<char>>,
) -> bool {
    forall|j: int|
        from <= j < l.len() ==> ids.contains(#[trigger] l[j].operation_id@) && !(l[j].level
            is Error)
}

/// Every validation message from position `from` on carries an id from
/// `ids`.
pub open spec fn warn_seg_ok(
    w: Seq<CommandeurValidationMessage>,
    from: int,
    ids: Set<Seq<char>>,
) -> bool {
    forall|j: int| from <= j < w.len() ==> ids.contains(#[trigger] w[j].operation_id@)
}

pub proof fn lemma_log_seg_compose(
    l: Seq<CommandeurExecutionLogEntry>,
    lmid: Seq<CommandeurExecutionLogEntry>,
    from: int,
    small: Set<Seq<char>>,
    big: Set<Seq<char>>,
)
    requires
        0 <= from <= lmid.len() <= l.len(),
        l.take(lmid.len() as int) == lmid,
        log_seg_ok(lmid, from, big),
        log_seg_ok(l, lmid.len() as int, small),
        small.subset_of(big),
    ensures
        log_seg_ok(l, from, big),
{
    assert forall|j: int|
        from <= j < l.len() implies big.contains(#[trigger] l[j].operation_id@) && !(l[j].level
            is Error) by {
        if j < lmid.len() {
            assert(l.take(lmid.len() as int)[j] == l[j]);
            assert(lmid[j] == l[j]);
            assert(big.contains(lmid[j].operation_id@));
        } else {
            assert(small.contains(l[j].operation_id@));
        }
    }
}

pub proof fn lemma_warn_seg_compose(
    w: Seq<CommandeurValidationMessage>,
    wmid: Seq<CommandeurValidationMessage>,
    from: int,
    small: Set<Seq<char>>,
    big: Set<Seq<char>>,
)
    requires
        0 <= from <= wmid.len() <= w.len(),
        w.take(wmid.len() as int) == wmid,
        warn_seg_ok(wmid, from, big),
        warn_seg_ok(w, wmid.len() as int, small),
        small.subset_of(big),
    ensures
        warn_seg_ok(w, from, big),
{
    assert forall|j: int|
        from <= j < w.len() implies big.contains(#[trigger] w[j].operation_id@) by {
        if j < wmid.len() {
            assert(w.take(wmid.len() as int)[j] == w[j]);
            assert(wmid[j] == w[j]);
            assert(big.contains(wmid[j].operation_id@));
        } else {
            assert(small.contains(w[j].operation_id@));
        }
    }
}

pub proof fn lemma_log_seg_push(
    l0: Seq<CommandeurExecutionLogEntry>,
    lf: Seq<CommandeurExecutionLogEntry>,
    from: int,
    ids: Set<Seq<char>>,
)
    requires
        0 <= from <= l0.len(),
        lf.len() == l0.len() + 1,
        lf.take(l0.len() as int) == l0,
        log_seg_ok(l0, from, ids),
        ids.contains(lf.last().operation_id@),
        !(lf.last().level is Error),
    ensures
        log_seg_ok(lf, from, ids),
{
    assert forall|j: int|
        from <= j < lf.len() implies ids.contains(#[trigger] lf[j].operation_id@) && !(lf[j].level
            is Error) by {
        if j < l0.len() {
            assert(lf.take(l0.len() as int)[j] == lf[j]);
            assert(l0[j] == lf[j]);
            assert(ids.contains(l0[j].operation_id@));
        } else {
            assert(lf[j] == lf.last());
        }
    }
}

/// An enabled `If` node's branch lists contribute to its own subtree sets.
proof fn lemma_if_subsets(op: CommandeurOperation)
    requires
        op.meta.enabled,
        op.details matches OperationDetails::If { .. },
    ensures
        (match op.details {
            OperationDetails::If { test: _, then, else_branch } => enabled_list_ids(
                then@,
            ).subset_of(enabled_op_ids(op)) && enabled_list_meta(then@).subset_of(
                enabled_meta(op),
            ) && (match else_branch {
                Some(eb) => enabled_list_ids(eb@).subset_of(enabled_op_ids(op))
                    && enabled_list_meta(eb@).subset_of(enabled_meta(op)),
                None => true,
            }),
            _ => true,
        }),
{
    match op.details {
        OperationDetails::If { test: _, then, else_branch } => {
            assert forall|x: Seq<char>| enabled_list_ids(then@).contains(x) implies enabled_op_ids(
                op,
            ).contains(x) by {}
            assert forall|t: (Seq<char>, Seq<char>, bool)|
                enabled_list_meta(then@).contains(t) implies enabled_meta(op).contains(t) by {}
            match else_branch {
                Some(eb) => {
                    assert forall|x: Seq<char>|
                        enabled_list_ids(eb@).contains(x) implies enabled_op_ids(op).contains(
                        x,
                    ) by {}
                    assert forall|t: (Seq<char>, Seq<char>, bool)|
                        enabled_list_meta(eb@).contains(t) implies enabled_meta(op).contains(
                        t,
                    ) by {}
                },
                None => {},
            }
        },
        _ => {},
    }
}

/// Runs the enabled children of a branch, in order, through the dispatcher;
/// the first failure stops the branch and propagates unchanged, so a
/// child's own continue-on-error flag (not its parent's) reaches the
/// executor.
#[verifier::rlimit(100)]
#[verifier::spinoff_prover]
fn run_children(
    children: &Vec<CommandeurOperation>,
    folder: &str,
    fs: &mut FolderFs,
    env: &mut ExecutionEnv,
    oracle: &mut RunOracle,
    log: &mut Vec<CommandeurExecutionLogEntry>,
    warnings: &mut Vec<CommandeurValidationMessage>,
) -> (r: Result<(), CommandeurError>)
    requires
        old(fs).wf(),
    ensures
        final(fs).wf(),
        final(log)@.len() >= old(log)@.len(),
        final(log)@.take(old(log)@.len() as int) == old(log)@,
        log_seg_ok(final(log)@, old(log)@.len() as int, enabled_list_ids(children@)),
        final(warnings)@.len() >= old(warnings)@.len(),
        final(warnings)@.take(old(warnings)@.len() as int) == old(warnings)@,
        warn_seg_ok(final(warnings)@, old(warnings)@.len() as int, enabled_list_ids(children@)),
        r matches Err(CommandeurError::OperationFailed {
            operation_id,
            operation_label,
            continue_on_error,
            source: _,
        }) ==> enabled_list_meta(children@).contains(
            (operation_id@, operation_label@, continue_on_error),
        ),
        !(r matches Err(CommandeurError::WorkspaceNotFound)),
        (r matches Err(CommandeurError::ExecutionInterrupted { reason }) ==> spec_consumed_interrupted(
            *old(oracle),
            *final(oracle),
            reason@,
        )),
        (!(r matches Err(CommandeurError::ExecutionInterrupted { .. })) ==> spec_consumed_clean(
            *old(oracle),
            *final(oracle),
        )),
    decreases children@,
{
    let n = children.len();
    let mut i: usize = 0;
    proof {
        assert(spec_consumed_clean(*old(oracle), *oracle));
    }
    while i < n
        invariant
            i <= n,
            n == children@.len(),
            fs.wf(),
            spec_consumed_clean(*old(oracle), *oracle),
            log@.len() >= old(log)@.len(),
            log@.take(old(log)@.len() as int) == old(log)@,
            log_seg_ok(log@, old(log)@.len() as int, enabled_list_ids(children@)),
            warnings@.len() >= old(warnings)@.len(),
            warnings@.take(old(warnings)@.len() as int) == old(warnings)@,
            warn_seg_ok(warnings@, old(warnings)@.len() as int, enabled_list_ids(children@)),
        decreases n - i,
    {
        let child = &children[i];
        if child.enabled() {
            proof {
                vstd::seq::axiom_seq_index_decreases(children@, i as int);
            }
            let ghost l_mid = log@;
            let ghost w_mid = warnings@;
            let ghost o_mid = *oracle;
            let res = execute_operation_for_folder(child, folder, fs, env, oracle, log, warnings);
            proof {
                match &res {
                    Err(CommandeurError::ExecutionInterrupted { reason }) => {
                        lemma_clean_then_interrupted(*old(oracle), o_mid, *oracle, reason@);
                    },
                    _ => {
                        lemma_clean_trans(*old(oracle), o_mid, *oracle);
                    },
                }
                lemma_enabled_list_member(children@, i as int);
                lemma_log_seg_compose(
                    log@,
                    l_mid,
                    old(log)@.len() as int,
                    enabled_op_ids(children@[i as int]),
                    enabled_list_ids(children@),
                );
                lemma_warn_seg_compose(
                    warnings@,
                    w_mid,
                    old(warnings)@.len() as int,
                    enabled_op_ids(children@[i as int]),
                    enabled_list_ids(children@),
                );
                assert(log@.take(old(log)@.len() as int) =~= log@.take(l_mid.len() as int).take(
                    old(log)@.len() as int,
                ));
                assert(warnings@.take(old(warnings)@.len() as int) =~= warnings@.take(
                    w_mid.len() as int,
                ).take(old(warnings)@.len() as int));
            }
            match res {
                Ok(()) => {},
                Err(e) => {
                    return Err(e);
                },
            }
        }
        i = i + 1;
    }
    Ok(())
}

/// Runs one enabled operation against one folder: the cooperative
/// checkpoint is honored first, an operation comment is noted in the log,
/// then the variant is applied; an `If` evaluates its condition, runs the
/// enabled children of the chosen branch in order through this same entry
/// point, and logs the evaluation summary. Every log entry and validation
/// message produced carries the id of an enabled node of this subtree, log
/// entries are never error-level (failures are the caller's to report), and
/// a failure result carries the failing node's own id, label and
/// continue-on-error flag.
#[verifier::rlimit(100)]
#[verifier::spinoff_prover]
pub fn execute_operation_for_folder(
    operation: &CommandeurOperation,
    folder: &str,
    fs: &mut FolderFs,
    env: &mut ExecutionEnv,
    oracle: &mut RunOracle,
    log: &mut Vec<CommandeurExecutionLogEntry>,
    warnings: &mut Vec<CommandeurValidationMessage>,
) -> (r: Result<(), CommandeurError>)
    requires
        old(fs).wf(),
        operation.meta.enabled,
    ensures
        final(fs).wf(),
        final(log)@.len() >= old(log)@.len(),
        final(log)@.take(old(log)@.len() as int) == old(log)@,
        log_seg_ok(final(log)@, old(log)@.len() as int, enabled_op_ids(*operation)),
        final(warnings)@.len() >= old(warnings)@.len(),
        final(warnings)@.take(old(warnings)@.len() as int) == old(warnings)@,
        warn_seg_ok(final(warnings)@, old(warnings)@.len() as int, enabled_op_ids(*operation)),
        r matches Err(CommandeurError::OperationFailed {
            operation_id,
            operation_label,
            continue_on_error,
            source: _,
        }) ==> enabled_meta(*operation).contains(
            (operation_id@, operation_label@, continue_on_error),
        ),
        !(r matches Err(CommandeurError::WorkspaceNotFound)),
        (spec_peek_checkpoint_interrupt(*old(oracle)) matches Some(reason0) ==> (r matches Err(
            CommandeurError::ExecutionInterrupted { reason },
        ) && reason@ == reason0) && final(fs)@ == old(fs)@ && final(log)@ == old(log)@
            && final(warnings)@ == old(warnings)@ && *final(env) == *old(env)
            && *final(oracle) == spec_after_checkpoint(*old(oracle))),
        (r matches Err(CommandeurError::ExecutionInterrupted { reason }) ==> spec_consumed_interrupted(
            *old(oracle),
            *final(oracle),
            reason@,
        )),
        (!(r matches Err(CommandeurError::ExecutionInterrupted { .. })) ==> spec_consumed_clean(
            *old(oracle),
            *final(oracle),
        )),
        spec_dispatch_post(
            *operation,
            folder@,
            old(fs)@,
            final(fs)@,
            old(log)@,
            final(log)@,
            old(warnings)@,
            final(warnings)@,
            *old(env),
            *final(env),
            *old(oracle),
            *final(oracle),
            r,
        ),
    decreases *operation,
{
    proof {
        assert(enabled_op_ids(*operation).contains(operation.meta.id@)) by {
            match operation.details {
                OperationDetails::If { .. } => {},
                _ => {},
            }
        }
        assert(enabled_meta(*operation).contains(
            (operation.meta.id@, operation.meta.label@, operation.meta.continue_on_error),
        )) by {
            match operation.details {
                OperationDetails::If { .. } => {},
                _ => {},
            }
        }
    }
    match oracle.next_checkpoint() {
        CheckpointDecision::Proceed => {
            proof {
                vstd::std_specs::vec::axiom_spec_len(&old(oracle).checkpoints);
                assert(spec_peek_checkpoint_interrupt(*old(oracle)) is None);
                assert(*oracle == spec_after_checkpoint(*old(oracle)));
            }
        },
        CheckpointDecision::Interrupt(reason) => {
            proof {
                vstd::std_specs::vec::axiom_spec_len(&old(oracle).checkpoints);
                assert(old(oracle).cpos < old(oracle).checkpoints@.len());
                assert(*oracle == spec_after_checkpoint(*old(oracle)));
                assert(spec_peek_checkpoint_interrupt(*old(oracle)) == Some(reason@));
                assert(spec_consumed_interrupted(*old(oracle), *oracle, reason@)) by {
                    assert(spec_oracle_stable(*old(oracle), *oracle));
                }
            }
            return Err(CommandeurError::ExecutionInterrupted { reason });
        },
    }
    let ghost o1v = *oracle;
    match operation.comment() {
        Some(c) => {
            let trimmed = crate::text::trim_str(c);
            if trimmed.as_str().unicode_len() > 0 {
                let note = fmsg(folder, "Note: ", trimmed.as_str(), "", "");
                push_log(log, operation, ValidationLevel::Info, note);
                proof {
                    lemma_log_seg_push(
                        old(log)@,
                        log@,
                        old(log)@.len() as int,
                        enabled_op_ids(*operation),
                    );
                }
            }
        },
        None => {},
    }
    let ghost l_pre = log@;
    let ghost w_pre = warnings@;
    proof {
        assert(log_seg_ok(l_pre, old(log)@.len() as int, enabled_op_ids(*operation)));
        assert(warn_seg_ok(w_pre, old(warnings)@.len() as int, enabled_op_ids(*operation)));
        assert(spec_note_step(*operation, folder@, old(log)@, l_pre));
    }
    let own_ok: Result<(), String> = match &operation.details {
        OperationDetails::CreateFile { target, overwrite, content } => op_create_file(
            operation,
            folder,
            target.as_str(),
            *overwrite,
            content.as_str(),
            fs,
            log,
            warnings,
        ),
        OperationDetails::DeleteFile { target, required } => op_delete_file(
            operation,
            folder,
            target.as_str(),
            *required,
            fs,
            log,
            warnings,
        ),
        OperationDetails::Copy { source, destination, overwrite } => op_copy(
            operation,
            folder,
            source.as_str(),
            destination.as_str(),
            *overwrite,
            fs,
            log,
            warnings,
        ),
        OperationDetails::Move { source, destination, overwrite } => op_move(
            operation,
            folder,
            source.as_str(),
            destination.as_str(),
            *overwrite,
            fs,
            log,
        ),
        OperationDetails::Rename { target, mode, value, search, replace } => op_rename(
            operation,
            folder,
            target.as_str(),
            mode,
            value.as_str(),
            (match search {
                Some(sv) => Some(sv.as_str()),
                None => None,
            }),
            (match replace {
                Some(sv) => Some(sv.as_str()),
                None => None,
            }),
            fs,
            log,
        ),
        OperationDetails::ReplaceInFile { target, search, replace, mode, flags } =>
            op_replace_in_file(
            operation,
            folder,
            target.as_str(),
            search.as_str(),
            replace.as_str(),
            mode,
            flags,
            fs,
            log,
            warnings,
        ),
        OperationDetails::Mkdir { target, recursive, skip_if_exists } => op_mkdir(
            operation,
            folder,
            target.as_str(),
            *recursive,
            *skip_if_exists,
            fs,
            log,
            warnings,
        ),
        OperationDetails::Exec { command, args, shell, cwd, env: _ } => op_exec(
            operation,
            folder,
            command.as_str(),
            args,
            shell,
            cwd,
            oracle,
            log,
        ),
        OperationDetails::Python { inline_script, script_path, entry } => op_python(
            operation,
            folder,
            inline_script,
            script_path,
            entry,
            fs,
            env,
            oracle,
            log,
        ),
        OperationDetails::If { test, then, else_branch } => {
            let evaluation = match crate::conditions::evaluate_condition_for_folder(
                folder,
                test,
                fs,
            ) {
                Ok(ev) => ev,
                Err(e) => {
                    proof {
                        lemma_clean_head(*old(oracle), *oracle);
                    }
                    return Err(operation_failed(operation, e.message().to_owned()));
                },
            };
            proof {
                lemma_if_subsets(*operation);
            }
            if evaluation.result {
                proof {
                    assert(decreases_to!(*operation => then@));
                }
                let ghost l_b = log@;
                let ghost w_b = warnings@;
                let res = run_children(then, folder, fs, env, oracle, log, warnings);
                proof {
                    lemma_log_seg_compose(
                        log@,
                        l_b,
                        old(log)@.len() as int,
                        enabled_list_ids(then@),
                        enabled_op_ids(*operation),
                    );
                    lemma_warn_seg_compose(
                        warnings@,
                        w_b,
                        old(warnings)@.len() as int,
                        enabled_list_ids(then@),
                        enabled_op_ids(*operation),
                    );
                    assert(log@.take(old(log)@.len() as int) =~= log@.take(
                        l_b.len() as int,
                    ).take(old(log)@.len() as int));
                    assert(warnings@.take(old(warnings)@.len() as int) =~= warnings@.take(
                        w_b.len() as int,
                    ).take(old(warnings)@.len() as int));
                }
                match res {
                    Ok(()) => {},
                    Err(e) => {
                        return Err(e);
                    },
                }
            } else {
                match else_branch {
                    Some(ops) => {
                        proof {
                            assert(decreases_to!(*operation => ops@));
                        }
                        let ghost l_b = log@;
                        let ghost w_b = warnings@;
                        let res = run_children(ops, folder, fs, env, oracle, log, warnings);
                        proof {
                            lemma_log_seg_compose(
                                log@,
                                l_b,
                                old(log)@.len() as int,
                                enabled_list_ids(ops@),
                                enabled_op_ids(*operation),
                            );
                            lemma_warn_seg_compose(
                                warnings@,
                                w_b,
                                old(warnings)@.len() as int,
                                enabled_list_ids(ops@),
                                enabled_op_ids(*operation),
                            );
                            assert(log@.take(old(log)@.len() as int) =~= log@.take(
                                l_b.len() as int,
                            ).take(old(log)@.len() as int));
                            assert(warnings@.take(old(warnings)@.len() as int) =~= warnings@.take(
                                w_b.len() as int,
                            ).take(old(warnings)@.len() as int));
                        }
                        match res {
                            Ok(()) => {},
                            Err(e) => {
                                return Err(e);
                            },
                        }
                    },
                    None => {},
                }
            }
            let note = fmsg(
                folder,
                "Condition: ",
                evaluation.summary.as_str(),
                " -> ",
                if evaluation.result {
                    "then"
                } else {
                    "else"
                },
            );
            let ghost l_n = log@;
            push_log(log, operation, ValidationLevel::Info, note);
            proof {
                lemma_log_seg_push(l_n, log@, old(log)@.len() as int, enabled_op_ids(*operation));
                assert(log@.take(old(log)@.len() as int) =~= log@.take(l_n.len() as int).take(
                    old(log)@.len() as int,
                ));
                lemma_clean_head(*old(oracle), o1v);
                lemma_clean_trans(*old(oracle), o1v, *oracle);
            }
            return Ok(());
        },
    };
    proof {
        assert(log@.take(l_pre.len() as int) =~= l_pre);
        assert(warnings@.take(w_pre.len() as int) =~= w_pre);
        lemma_log_seg_compose(
            log@,
            l_pre,
            old(log)@.len() as int,
            set![operation.meta.id@],
            enabled_op_ids(*operation),
        );
        lemma_warn_seg_compose(
            warnings@,
            w_pre,
            old(warnings)@.len() as int,
            set![operation.meta.id@],
            enabled_op_ids(*operation),
        );
        assert(log@.take(old(log)@.len() as int) =~= log@.take(l_pre.len() as int).take(
            old(log)@.len() as int,
        ));
        assert(warnings@.take(old(warnings)@.len() as int) =~= warnings@.take(
            w_pre.len() as int,
        ).take(old(warnings)@.len() as int));
    }
    match own_ok {
        Ok(()) => {
            proof {
                lemma_clean_head(*old(oracle), *oracle);
                assert(spec_dispatch_post(
                    *operation,
                    folder@,
                    old(fs)@,
                    fs@,
                    old(log)@,
                    log@,
                    old(warnings)@,
                    warnings@,
                    *old(env),
                    *env,
                    *old(oracle),
                    *oracle,
                    Ok::<(), CommandeurError>(()),
                ));
            }
            Ok(())
        },
        Err(msg) => {
            let e = operation_failed(operation, msg);
            let ghost ev = e;
            proof {
                lemma_clean_head(*old(oracle), *oracle);
                assert(spec_unwrap_outcome(*operation, Err(ev)) matches Some(r2)
                    && r2 matches Err(m2) && (match ev {
                    CommandeurError::OperationFailed { source, .. } => m2 == source,
                    _ => false,
                }));
                assert(spec_dispatch_post(
                    *operation,
                    folder@,
                    old(fs)@,
                    fs@,
                    old(log)@,
                    log@,
                    old(warnings)@,
                    warnings@,
                    *old(env),
                    *env,
                    *old(oracle),
                    *oracle,
                    Err::<(), CommandeurError>(ev),
                ));
            }
            Err(e)
        },
    }
}


/// One folder of the modelled workspace: its name, whether it exists on
/// disk, and its modelled contents.
pub struct FolderModel {
    pub name: String,
    pub present: bool,
    pub fs: FolderFs,
}

/// The modelled workspace a run works on: its first-level sub-folders in
/// order.
pub struct WorkspaceModel {
    pub folders: Vec<FolderModel>,
}

impl WorkspaceModel {
    pub open spec fn wf(&self) -> bool {
        forall|k: int| 0 <= k < self.folders@.len() ==> (#[trigger] self.folders@[k]).fs.wf()
    }
}

/// The enabled top-level operations, in declaration order.
pub open spec fn spec_enabled_ops(ops: Seq<CommandeurOperation>) -> Seq<CommandeurOperation> {
    ops.filter(|o: CommandeurOperation| o.meta.enabled)
}

/// How many attempts ended in success.
pub open spec fn spec_succeeded_count(at: Seq<AttemptRecord>) -> nat {
    at.filter(|a: AttemptRecord| a.outcome is Succeeded).len()
}

/// How many attempts ended in an operation failure. Interrupted attempts
/// count in neither tally: an interrupt is not an operation failure and
/// files no error record.
pub open spec fn spec_failed_count(at: Seq<AttemptRecord>) -> nat {
    at.filter(|a: AttemptRecord| a.outcome matches AttemptOutcome::Failed { .. }).len()
}

/// Appending an attempt record moves the failed tally exactly on a failure.
pub proof fn lemma_failed_count_push(a0: Seq<AttemptRecord>, af: Seq<AttemptRecord>)
    requires
        af.len() == a0.len() + 1,
        af.drop_last() == a0,
    ensures
        spec_failed_count(af) == spec_failed_count(a0) + (if af.last().outcome
            matches AttemptOutcome::Failed { .. } {
            1int
        } else {
            0int
        }),
{
    reveal(Seq::filter);
}

/// How many log entries are error-level.
pub open spec fn spec_error_log_count(l: Seq<CommandeurExecutionLogEntry>) -> nat {
    l.filter(|e: CommandeurExecutionLogEntry| e.level is Error).len()
}

/// Identifiers only (levels unconstrained): every entry from `from` on is
/// attributed to one of `ids`.
pub open spec fn log_ids_ok(
    l: Seq<CommandeurExecutionLogEntry>,
    from: int,
    ids: Set<Seq<char>>,
) -> bool {
    forall|j: int| from <= j < l.len() ==> ids.contains(#[trigger] l[j].operation_id@)
}

pub proof fn lemma_log_ids_compose(
    l: Seq<CommandeurExecutionLogEntry>,
    lmid: Seq<CommandeurExecutionLogEntry>,
    from: int,
    small: Set<Seq<char>>,
    big: Set<Seq<char>>,
)
    requires
        0 <= from <= lmid.len() <= l.len(),
        l.take(lmid.len() as int) == lmid,
        log_ids_ok(lmid, from, big),
        log_seg_ok(l, lmid.len() as int, small),
        small.subset_of(big),
    ensures
        log_ids_ok(l, from, big),
{
    assert forall|j: int|
        from <= j < l.len() implies big.contains(#[trigger] l[j].operation_id@) by {
        if j < lmid.len() {
            assert(l.take(lmid.len() as int)[j] == l[j]);
            assert(lmid[j] == l[j]);
            assert(big.contains(lmid[j].operation_id@));
        } else {
            assert(small.contains(l[j].operation_id@));
        }
    }
}

/// Appending entries that are never error-level leaves the error count
/// alone.
pub proof fn lemma_error_count_same(
    l: Seq<CommandeurExecutionLogEntry>,
    lmid: Seq<CommandeurExecutionLogEntry>,
)
    requires
        lmid.len() <= l.len(),
        l.take(lmid.len() as int) == lmid,
        forall|j: int| lmid.len() <= j < l.len() ==> !((#[trigger] l[j]).level is Error),
    ensures
        spec_error_log_count(l) == spec_error_log_count(lmid),
{
    let p = |e: CommandeurExecutionLogEntry| e.level is Error;
    let seg = l.skip(lmid.len() as int);
    assert(l =~= lmid + seg);
    Seq::filter_distributes_over_add(lmid, seg, p);
    assert(forall|j: int| 0 <= j < seg.len() ==> !p(#[trigger] seg[j])) by {
        assert(forall|j: int|
            0 <= j < seg.len() ==> #[trigger] seg[j] == l[lmid.len() + j]);
    }
    lemma_filter_all_excluded(seg, p);
}

/// Appending one error-level entry raises the error count by one.
pub proof fn lemma_error_count_push(
    l0: Seq<CommandeurExecutionLogEntry>,
    lf: Seq<CommandeurExecutionLogEntry>,
)
    requires
        lf.len() == l0.len() + 1,
        lf.drop_last() == l0,
        lf.last().level is Error,
    ensures
        spec_error_log_count(lf) == spec_error_log_count(l0) + 1,
{
    reveal(Seq::filter);
}

/// Appending one non-error entry leaves the error count alone.
pub proof fn lemma_error_count_keep(
    l0: Seq<CommandeurExecutionLogEntry>,
    lf: Seq<CommandeurExecutionLogEntry>,
)
    requires
        lf.len() == l0.len() + 1,
        lf.drop_last() == l0,
        !(lf.last().level is Error),
    ensures
        spec_error_log_count(lf) == spec_error_log_count(l0),
{
    reveal(Seq::filter);
}

/// Appending an attempt record: the succeeded count grows exactly on a
/// success.
pub proof fn lemma_succeeded_count_push(a0: Seq<AttemptRecord>, af: Seq<AttemptRecord>)
    requires
        af.len() == a0.len() + 1,
        af.drop_last() == a0,
    ensures
        spec_succeeded_count(af) == spec_succeeded_count(a0) + (if af.last().outcome
            is Succeeded {
            1int
        } else {
            0int
        }),
{
    reveal(Seq::filter);
}

/// The number of enabled top-level operations (the progress denominator is
/// this times the folder count).
pub fn enabled_operation_count(ops: &Vec<CommandeurOperation>) -> (r: usize)
    ensures
        r == spec_enabled_ops(ops@).len(),
{
    let n = ops.len();
    let mut count: usize = 0;
    let mut i: usize = 0;
    proof {
        reveal(Seq::filter);
        assert(ops@.take(0) =~= Seq::<CommandeurOperation>::empty());
    }
    while i < n
        invariant
            i <= n,
            n == ops@.len(),
            count == spec_enabled_ops(ops@.take(i as int)).len(),
            count <= i,
        decreases n - i,
    {
        proof {
            reveal(Seq::filter);
            assert(ops@.take(i + 1 as int).drop_last() =~= ops@.take(i as int));
            assert(ops@.take(i + 1 as int).last() == ops@[i as int]);
        }
        if ops[i].enabled() {
            count = count + 1;
        }
        i = i + 1;
    }
    proof {
        assert(ops@.take(n as int) =~= ops@);
    }
    count
}



pub proof fn lemma_log_ids_push(
    l0: Seq<CommandeurExecutionLogEntry>,
    lf: Seq<CommandeurExecutionLogEntry>,
    ids: Set<Seq<char>>,
)
    requires
        lf.len() == l0.len() + 1,
        lf.drop_last() == l0,
        log_ids_ok(l0, 0, ids),
        ids.contains(lf.last().operation_id@),
    ensures
        log_ids_ok(lf, 0, ids),
{
    assert forall|j: int| 0 <= j < lf.len() implies ids.contains(
        #[trigger] lf[j].operation_id@,
    ) by {
        if j < l0.len() {
            assert(lf.drop_last()[j] == lf[j]);
            assert(ids.contains(l0[j].operation_id@));
        } else {
            assert(lf[j] == lf.last());
        }
    }
}

pub proof fn lemma_warn_seg_push(
    w0: Seq<CommandeurValidationMessage>,
    wf2: Seq<CommandeurValidationMessage>,
    from: int,
    ids: Set<Seq<char>>,
)
    requires
        0 <= from <= w0.len(),
        wf2.len() == w0.len() + 1,
        wf2.drop_last() == w0,
        warn_seg_ok(w0, from, ids),
        ids.contains(wf2.last().operation_id@),
    ensures
        warn_seg_ok(wf2, from, ids),
{
    assert forall|j: int| from <= j < wf2.len() implies ids.contains(
        #[trigger] wf2[j].operation_id@,
    ) by {
        if j < w0.len() {
            assert(wf2.drop_last()[j] == wf2[j]);
            assert(ids.contains(w0[j].operation_id@));
        } else {
            assert(wf2[j] == wf2.last());
        }
    }
}

pub proof fn lemma_warn_ids_push(
    w0: Seq<CommandeurValidationMessage>,
    wf2: Seq<CommandeurValidationMessage>,
    ids: Set<Seq<char>>,
)
    requires
        wf2.len() == w0.len() + 1,
        wf2.drop_last() == w0,
        warn_seg_ok(w0, 0, ids),
        ids.contains(wf2.last().operation_id@),
    ensures
        warn_seg_ok(wf2, 0, ids),
{
    assert forall|j: int| 0 <= j < wf2.len() implies ids.contains(
        #[trigger] wf2[j].operation_id@,
    ) by {
        if j < w0.len() {
            assert(wf2.drop_last()[j] == wf2[j]);
            assert(ids.contains(w0[j].operation_id@));
        } else {
            assert(wf2[j] == wf2.last());
        }
    }
}


/// A failing node's id is among the subtree's enabled ids.
pub proof fn lemma_meta_ids(op: CommandeurOperation)
    ensures
        forall|t: (Seq<char>, Seq<char>, bool)|
            enabled_meta(op).contains(t) ==> enabled_op_ids(op).contains(#[trigger] t.0),
    decreases op,
{
    if op.meta.enabled {
        match op.details {
            OperationDetails::If { test: _, then, else_branch } => {
                lemma_list_meta_ids(then@);
                match else_branch {
                    Some(eb) => {
                        lemma_list_meta_ids(eb@);
                    },
                    None => {},
                }
                assert forall|t: (Seq<char>, Seq<char>, bool)|
                    enabled_meta(op).contains(t) implies enabled_op_ids(op).contains(
                    #[trigger] t.0,
                ) by {
                    if t == (op.meta.id@, op.meta.label@, op.meta.continue_on_error) {
                    } else if enabled_list_meta(then@).contains(t) {
                        assert(enabled_list_ids(then@).contains(t.0));
                    } else {
                        match else_branch {
                            Some(eb) => {
                                assert(enabled_list_meta(eb@).contains(t));
                                assert(enabled_list_ids(eb@).contains(t.0));
                            },
                            None => {},
                        }
                    }
                }
            },
            _ => {},
        }
    }
}

pub proof fn lemma_list_meta_ids(ops: Seq<CommandeurOperation>)
    ensures
        forall|t: (Seq<char>, Seq<char>, bool)|
            enabled_list_meta(ops).contains(t) ==> enabled_list_ids(ops).contains(#[trigger] t.0),
    decreases ops,
{
    if ops.len() > 0 {
        lemma_meta_ids(ops[0]);
        lemma_list_meta_ids(ops.drop_first());
    }
}


/// Disabling an operation - or a whole `If` subtree - leaves no trace: a
/// run only ever attributes log entries and validation messages to enabled
/// nodes or to the workspace itself, so when the disabled subtree's
/// identifiers are its own (shared with no enabled node and distinct from
/// the workspace marker), nothing the run produced carries them.
pub proof fn lemma_disabled_subtree_unlogged(
    ops: Seq<CommandeurOperation>,
    k: int,
    l: Seq<CommandeurExecutionLogEntry>,
    w: Seq<CommandeurValidationMessage>,
    e: Seq<CommandeurValidationMessage>,
)
    requires
        0 <= k < ops.len(),
        !ops[k].meta.enabled,
        log_ids_ok(l, 0, spec_run_ids(ops)),
        warn_seg_ok(w, 0, spec_run_ids(ops)),
        warn_seg_ok(e, 0, spec_run_ids(ops)),
        op_ids(ops[k]).disjoint(spec_run_ids(ops)),
    ensures
        forall|j: int|
            0 <= j < l.len() ==> !op_ids(ops[k]).contains(#[trigger] l[j].operation_id@),
        forall|j: int|
            0 <= j < w.len() ==> !op_ids(ops[k]).contains(#[trigger] w[j].operation_id@),
        forall|j: int|
            0 <= j < e.len() ==> !op_ids(ops[k]).contains(#[trigger] e[j].operation_id@),
{
    assert forall|j: int|
        0 <= j < l.len() implies !op_ids(ops[k]).contains(#[trigger] l[j].operation_id@) by {
        assert(spec_run_ids(ops).contains(l[j].operation_id@));
    }
    assert forall|j: int|
        0 <= j < w.len() implies !op_ids(ops[k]).contains(#[trigger] w[j].operation_id@) by {
        assert(spec_run_ids(ops).contains(w[j].operation_id@));
    }
    assert forall|j: int|
        0 <= j < e.len() implies !op_ids(ops[k]).contains(#[trigger] e[j].operation_id@) by {
        assert(spec_run_ids(ops).contains(e[j].operation_id@));
    }
}


/// Whether an identifier is the workspace's own marker.
pub open spec fn spec_is_ws_id(id: Seq<char>) -> bool {
    id == "__workspace__"@
}

/// Error-level log entries attributed to the workspace itself.
pub open spec fn spec_error_log_count_ws(l: Seq<CommandeurExecutionLogEntry>) -> nat {
    l.filter(|e: CommandeurExecutionLogEntry| e.level is Error && spec_is_ws_id(e.operation_id@))
        .len()
}

/// Error-level log entries attributed to operations.
pub open spec fn spec_error_log_count_op(l: Seq<CommandeurExecutionLogEntry>) -> nat {
    l.filter(|e: CommandeurExecutionLogEntry| e.level is Error && !spec_is_ws_id(e.operation_id@))
        .len()
}

/// Messages of a collection attributed to the workspace itself.
pub open spec fn spec_msg_count_ws(w: Seq<CommandeurValidationMessage>) -> nat {
    w.filter(|m: CommandeurValidationMessage| spec_is_ws_id(m.operation_id@)).len()
}

/// Messages of a collection attributed to operations.
pub open spec fn spec_msg_count_op(w: Seq<CommandeurValidationMessage>) -> nat {
    w.filter(|m: CommandeurValidationMessage| !spec_is_ws_id(m.operation_id@)).len()
}

/// Appending entries that all fail a predicate leaves its count alone.
pub proof fn lemma_entry_filter_same(
    l: Seq<CommandeurExecutionLogEntry>,
    lmid: Seq<CommandeurExecutionLogEntry>,
    p: spec_fn(CommandeurExecutionLogEntry) -> bool,
)
    requires
        lmid.len() <= l.len(),
        l.take(lmid.len() as int) == lmid,
        forall|j: int| lmid.len() <= j < l.len() ==> !p(#[trigger] l[j]),
    ensures
        l.filter(p).len() == lmid.filter(p).len(),
{
    let seg = l.skip(lmid.len() as int);
    assert(l =~= lmid + seg);
    Seq::filter_distributes_over_add(lmid, seg, p);
    assert(forall|j: int| 0 <= j < seg.len() ==> !p(#[trigger] seg[j])) by {
        assert(forall|j: int| 0 <= j < seg.len() ==> #[trigger] seg[j] == l[lmid.len() + j]);
    }
    lemma_filter_all_excluded(seg, p);
}

/// Appending one entry moves a predicate's count by whether it holds of it.
pub proof fn lemma_entry_filter_push(
    l0: Seq<CommandeurExecutionLogEntry>,
    lf: Seq<CommandeurExecutionLogEntry>,
    p: spec_fn(CommandeurExecutionLogEntry) -> bool,
)
    requires
        lf.len() == l0.len() + 1,
        lf.drop_last() == l0,
    ensures
        lf.filter(p).len() == l0.filter(p).len() + (if p(lf.last()) {
            1int
        } else {
            0int
        }),
{
    reveal(Seq::filter);
}

/// Appending one message moves a predicate's count by whether it holds.
pub proof fn lemma_msg_filter_push(
    w0: Seq<CommandeurValidationMessage>,
    wf2: Seq<CommandeurValidationMessage>,
    p: spec_fn(CommandeurValidationMessage) -> bool,
)
    requires
        wf2.len() == w0.len() + 1,
        wf2.drop_last() == w0,
    ensures
        wf2.filter(p).len() == w0.filter(p).len() + (if p(wf2.last()) {
            1int
        } else {
            0int
        }),
{
    reveal(Seq::filter);
}

/// The position of the first sub-folder missing on disk, if any.
pub open spec fn spec_first_absent(folders: Seq<FolderModel>) -> Option<int>
    decreases folders.len(),
{
    if folders.len() == 0 {
        None
    } else if !folders[0].present {
        Some(0)
    } else {
        match spec_first_absent(folders.drop_first()) {
            Some(k) => Some(k + 1),
            None => None,
        }
    }
}

/// A folder that is absent while everything before it is present is the
/// first absent one.
pub proof fn lemma_first_absent_at(folders: Seq<FolderModel>, k: int)
    requires
        0 <= k < folders.len(),
        !folders[k].present,
        forall|j: int| 0 <= j < k ==> (#[trigger] folders[j]).present,
    ensures
        spec_first_absent(folders) == Some(k),
    decreases folders.len(),
{
    if k > 0 {
        assert(forall|j: int|
            0 <= j < folders.drop_first().len() ==> #[trigger] folders.drop_first()[j] == folders[
            j + 1]);
        lemma_first_absent_at(folders.drop_first(), k - 1);
    }
}

/// When every folder is present, there is no first absent one.
pub proof fn lemma_no_absent(folders: Seq<FolderModel>)
    requires
        forall|j: int| 0 <= j < folders.len() ==> (#[trigger] folders[j]).present,
    ensures
        spec_first_absent(folders) is None,
    decreases folders.len(),
{
    if folders.len() > 0 {
        assert(forall|j: int|
            0 <= j < folders.drop_first().len() ==> #[trigger] folders.drop_first()[j] == folders[
            j + 1]);
        lemma_no_absent(folders.drop_first());
    }
}

/// The validation message filed when a sub-folder is missing on disk.
pub open spec fn spec_missing_folder_msg(name: Seq<char>) -> ValidationMsgView {
    ValidationMsgView {
        operation_id: "__workspace__"@,
        operation_label: Some("Workspace"@),
        level: ValidationLevel::Error,
        message: "Folder not found: "@ + name,
        details: None,
        folders: Some(seq![name]),
    }
}

/// Whether an attempt lets the run continue: a success, or a failure whose
/// operation says to continue on error.
pub open spec fn spec_attempt_benign(a: AttemptRecord) -> bool {
    a.outcome is Succeeded || (a.outcome matches AttemptOutcome::Failed { continue_on_error: c }
        && c == true)
}

/// A workspace-level stop entry documenting the given reason.
pub open spec fn spec_stop_entry(d: LogData) -> bool {
    d.operation_id == "__workspace__"@ && d.level is Warning && crate::text::spec_starts_with(
        d.message,
        "Execution interrupted: "@,
    )
}

/// The identifiers a run may attribute things to: any enabled node of the
/// workflow, or the workspace itself.
pub open spec fn spec_run_ids(ops: Seq<CommandeurOperation>) -> Set<Seq<char>> {
    enabled_list_ids(ops).insert("__workspace__"@)
}

/// Runs a workflow over every sub-folder of the workspace model, in order,
/// honoring checkpoints, accounting progress, and interpreting each
/// failure's continue-on-error flag. Returns the assembled result and the
/// attempt trail (one record per top-level dispatch, as reported to the
/// progress sink). The contract carries the run's laws: error-level log
/// entries match the error collection one for one; every entry is
/// attributed to an enabled operation or the workspace; everything before
/// the last attempt was benign, so a stop or a non-continuable failure ends
/// the trail; `operations_run` counts exactly the successes; success means
/// the whole schedule ran and nothing failed; and a stop leaves the stop
/// reason as the log's last entry.
#[verifier::rlimit(100)]
#[verifier::spinoff_prover]
pub fn execute_workflow(
    workflow: &CommandeurWorkflow,
    workspace: &mut WorkspaceModel,
    oracle: &mut RunOracle,
) -> (r: (CommandeurExecutionResult, Vec<AttemptRecord>))
    requires
        old(workspace).wf(),
    ensures
        final(workspace).wf(),
        final(workspace).folders@.len() == old(workspace).folders@.len(),
        forall|k: int|
            0 <= k < final(workspace).folders@.len() ==> (#[trigger] final(workspace).folders@[k]).name@ == old(workspace).folders@[k].name@ && final(workspace).folders@[k].present == old(workspace).folders@[k].present,
        spec_error_log_count(r.0.log_entries@) == r.0.errors@.len(),
        log_ids_ok(r.0.log_entries@, 0, spec_run_ids(workflow.operations@)),
        warn_seg_ok(r.0.warnings@, 0, spec_run_ids(workflow.operations@)),
        warn_seg_ok(r.0.errors@, 0, spec_run_ids(workflow.operations@)),
        r.0.operations_run == spec_succeeded_count(r.1@),
        forall|t: int| 0 <= t < r.1@.len() - 1 ==> spec_attempt_benign(#[trigger] r.1@[t]),
        forall|t: int|
            0 <= t < r.1@.len() ==> ((#[trigger] r.1@[t].outcome) matches AttemptOutcome::Failed {
                continue_on_error: c,
            } ==> exists|idl: Seq<char>, lbl: Seq<char>|
                enabled_list_meta(workflow.operations@).contains((idl, lbl, c))),
        r.1@.len() <= old(workspace).folders@.len() * spec_enabled_ops(workflow.operations@).len(),
        forall|t: int|
            0 <= t < r.1@.len() ==> {
                let ee = spec_enabled_ops(workflow.operations@).len() as int;
                 0 <= t / ee < old(workspace).folders@.len() && (#[trigger] r.1@[t]).folder@ == old(workspace).folders@[t / ee].name@ && r.1@[t].operation_id@ == spec_enabled_ops(
                    workflow.operations@,
                )[t % ee].meta.id@
            },
        r.0.success ==> r.0.errors@.len() == 0 && r.1@.len() == old(workspace).folders@.len()
            * spec_enabled_ops(workflow.operations@).len() && spec_succeeded_count(r.1@)
            == r.1@.len(),
        !r.0.success ==> r.0.errors@.len() > 0 || (r.0.log_entries@.len() > 0 && spec_stop_entry(
            log_data(r.0.log_entries@.last()),
        )),
        spec_consumed_clean(*old(oracle), *final(oracle)) || (exists|reason: Seq<char>|
            spec_consumed_interrupted(*old(oracle), *final(oracle), reason)),
        (r.0.success <==> r.0.errors@.len() == 0 && spec_consumed_clean(
            *old(oracle),
            *final(oracle),
        )),
        (!spec_consumed_clean(*old(oracle), *final(oracle)) ==> exists|reason: Seq<char>|
            spec_consumed_interrupted(*old(oracle), *final(oracle), reason)
                && r.0.log_entries@.len() > 0 && log_data(r.0.log_entries@.last()) == (LogData {
                operation_id: "__workspace__"@,
                operation_label: "Workspace"@,
                message: "Execution interrupted: "@ + reason,
                level: ValidationLevel::Warning,
            })),
        spec_error_log_count_op(r.0.log_entries@) == spec_msg_count_op(r.0.errors@),
        spec_error_log_count_ws(r.0.log_entries@) == spec_msg_count_ws(r.0.errors@),
        spec_failed_count(r.1@) <= r.0.errors@.len() <= spec_failed_count(r.1@) + 1,
        (spec_first_absent(old(workspace).folders@) is None ==> r.0.errors@.len()
            == spec_failed_count(r.1@)),
        forall|k: int|
            0 <= k < old(workspace).folders@.len() && r.1@.len() <= k * spec_enabled_ops(
                workflow.operations@,
            ).len() ==> (#[trigger] final(workspace).folders@[k]).fs@ == old(
                workspace,
            ).folders@[k].fs@,
        forall|j: int|
            0 <= j < r.0.errors@.len() ==> (#[trigger] r.0.errors@[j]).level is Error && (
            r.0.errors@[j]@.folders matches Some(fl) && fl.len() == 1),
        (spec_consumed_clean(*old(oracle), *final(oracle)) && spec_first_absent(
            old(workspace).folders@,
        ) is None ==> (r.1@.len() == old(workspace).folders@.len() * spec_enabled_ops(
            workflow.operations@,
        ).len() || (r.1@.len() > 0 && (r.1@.last().outcome matches AttemptOutcome::Failed {
            continue_on_error: c2,
        } && c2 == false)))),
        ((spec_consumed_clean(*old(oracle), *final(oracle)) && spec_first_absent(
            old(workspace).folders@,
        ) is Some && (forall|t: int|
            0 <= t < r.1@.len() ==> spec_attempt_benign(#[trigger] r.1@[t]))) ==> ({
            let k0 = spec_first_absent(old(workspace).folders@)->0;
            r.1@.len() == k0 * spec_enabled_ops(workflow.operations@).len() && r.0.errors@.len()
                > 0 && r.0.errors@.last()@ == spec_missing_folder_msg(
                old(workspace).folders@[k0].name@,
            ) && !r.0.success
        })),
{
    let ops_count = workflow.operations.len();
    let e_count = enabled_operation_count(&workflow.operations);
    let folder_count = workspace.folders.len();
    let ghost ops = workflow.operations@;
    let ghost ee = spec_enabled_ops(ops).len() as int;
    let ghost allowed = spec_run_ids(ops);
    let mut log_entries: Vec<CommandeurExecutionLogEntry> = Vec::new();
    let mut warnings: Vec<CommandeurValidationMessage> = Vec::new();
    let mut errors: Vec<CommandeurValidationMessage> = Vec::new();
    let mut attempts: Vec<AttemptRecord> = Vec::new();
    let mut env = ExecutionEnv::new();
    let mut operations_run: usize = 0;
    let mut interrupted: Option<String> = None;
    let mut aborted: bool = false;
    let ghost mut missing_hit: Option<int> = None;
    let banner = {
        let mut b = String::from_str("Starting workflow: ");
        b.append(workflow.name.as_str());
        match &workflow.version {
            Some(v) => {
                b.append(" (version ");
                b.append(v.as_str());
                b.append(")");
            },
            None => {},
        }
        b
    };
    crate::reporting::push_workspace_log(&mut log_entries, ValidationLevel::Info, banner);
    proof {
        assert(allowed.contains("__workspace__"@));
        let e0 = Seq::<CommandeurExecutionLogEntry>::empty();
        assert(log_entries@.drop_last() =~= e0);
        assert(spec_error_log_count(e0) == 0) by {
            reveal(Seq::filter);
        }
        lemma_error_count_keep(e0, log_entries@);
        assert(log_ids_ok(e0, 0, allowed));
        lemma_log_ids_push(e0, log_entries@, allowed);
        assert(warn_seg_ok(warnings@, 0, allowed));
        assert(warn_seg_ok(errors@, 0, allowed));
        assert(attempts@.len() == 0);
        assert(spec_succeeded_count(attempts@) == 0) by {
            reveal(Seq::filter);
        }
        assert(spec_failed_count(attempts@) == 0) by {
            reveal(Seq::filter);
        }
        let e0 = Seq::<CommandeurExecutionLogEntry>::empty();
        let ew = Seq::<CommandeurValidationMessage>::empty();
        assert(spec_error_log_count_op(e0) == 0 && spec_error_log_count_ws(e0) == 0) by {
            reveal(Seq::filter);
        }
        assert(spec_msg_count_op(ew) == 0 && spec_msg_count_ws(ew) == 0) by {
            reveal(Seq::filter);
        }
        lemma_entry_filter_push(
            e0,
            log_entries@,
            |e: CommandeurExecutionLogEntry| e.level is Error && spec_is_ws_id(e.operation_id@),
        );
        lemma_entry_filter_push(
            e0,
            log_entries@,
            |e: CommandeurExecutionLogEntry| e.level is Error && !spec_is_ws_id(e.operation_id@),
        );
        assert(spec_consumed_clean(*old(oracle), *oracle));
        assert(0 * ee == 0) by (nonlinear_arith);
        assert(0 <= folder_count * ee) by (nonlinear_arith)
            requires
                ee >= 0,
                folder_count >= 0,
        ;
    }
    let mut fi: usize = 0;
    while fi < folder_count && !aborted
        invariant
            fi <= folder_count,
            folder_count == workspace.folders@.len(),
            ops_count == workflow.operations@.len(),
            aborted ==> interrupted is Some || errors@.len() > 0,
            interrupted is None ==> spec_consumed_clean(*old(oracle), *oracle),
            (interrupted matches Some(reason) ==> spec_consumed_interrupted(
                *old(oracle),
                *oracle,
                reason@,
            )),
            !aborted ==> interrupted is None && missing_hit is None && forall|k: int|
                0 <= k < fi ==> (#[trigger] old(workspace).folders@[k]).present,
            (missing_hit matches Some(mk) ==> 0 <= mk < old(workspace).folders@.len() && !old(
                workspace,
            ).folders@[mk].present && (forall|j: int|
                0 <= j < mk ==> (#[trigger] old(workspace).folders@[j]).present) && aborted
                && interrupted is None && attempts@.len() == mk * ee && errors@.len() > 0
                && errors@.last()@ == spec_missing_folder_msg(
                old(workspace).folders@[mk].name@,
            )),
            aborted && interrupted is None && missing_hit is None ==> attempts@.len() > 0 && (
            attempts@.last().outcome matches AttemptOutcome::Failed { continue_on_error: cc }
                && cc == false),
            spec_error_log_count_op(log_entries@) == spec_msg_count_op(errors@),
            spec_error_log_count_ws(log_entries@) == spec_msg_count_ws(errors@),
            errors@.len() == spec_failed_count(attempts@) + (if missing_hit is Some {
                1int
            } else {
                0int
            }),
            forall|k: int|
                0 <= k < workspace.folders@.len() && attempts@.len() <= k * ee ==> (
                #[trigger] workspace.folders@[k]).fs@ == old(workspace).folders@[k].fs@,
            forall|j: int|
                0 <= j < errors@.len() ==> (#[trigger] errors@[j]).level is Error && (
                errors@[j]@.folders matches Some(fl) && fl.len() == 1),
            workspace.folders@.len() == old(workspace).folders@.len(),
            forall|k: int|
                0 <= k < workspace.folders@.len() ==> (#[trigger] workspace.folders@[k]).name@
                    == old(workspace).folders@[k].name@ && workspace.folders@[k].present == old(workspace).folders@[k].present,
            workspace.wf(),
            ops == workflow.operations@,
            ee == spec_enabled_ops(ops).len() as int,
            e_count == spec_enabled_ops(ops).len(),
            allowed == spec_run_ids(ops),
            spec_error_log_count(log_entries@) == errors@.len(),
            log_ids_ok(log_entries@, 0, allowed),
            warn_seg_ok(warnings@, 0, allowed),
            warn_seg_ok(errors@, 0, allowed),
            operations_run == spec_succeeded_count(attempts@),
            forall|t: int| 0 <= t < attempts@.len() - 1 ==> spec_attempt_benign(
                #[trigger] attempts@[t],
            ),
            attempts@.len() > 0 && !spec_attempt_benign(attempts@.last()) ==> aborted,
            forall|t: int|
                0 <= t < attempts@.len() ==> ((#[trigger] attempts@[t].outcome)
                    matches AttemptOutcome::Failed { continue_on_error: c } ==> exists|
                    idl: Seq<char>,
                    lbl: Seq<char>,
                |
                    enabled_list_meta(ops).contains((idl, lbl, c))),
            !aborted ==> attempts@.len() == fi * ee,
            attempts@.len() <= fi * ee,
            fi * ee <= folder_count * ee,
            forall|t: int|
                0 <= t < attempts@.len() ==> 0 <= t / ee < old(workspace).folders@.len() && (
                #[trigger] attempts@[t]).folder@ == old(workspace).folders@[t / ee].name@
                    && attempts@[t].operation_id@ == spec_enabled_ops(ops)[t % ee].meta.id@,
            errors@.len() == 0 && interrupted is None ==> spec_succeeded_count(attempts@)
                == attempts@.len(),
            interrupted is Some ==> aborted,
            log_entries@.len() > 0,
        decreases folder_count - fi,
    {
        let folder_name = workspace.folders[fi].name.clone();
        let present = workspace.folders[fi].present;
        let ghost o_prev = *oracle;
        match oracle.next_checkpoint() {
            CheckpointDecision::Proceed => {
                proof {
                    vstd::std_specs::vec::axiom_spec_len(&o_prev.checkpoints);
                    assert(spec_peek_checkpoint_interrupt(o_prev) is None);
                    lemma_clean_head(o_prev, *oracle);
                    if interrupted is None {
                        lemma_clean_trans(*old(oracle), o_prev, *oracle);
                    }
                }
            },
            CheckpointDecision::Interrupt(reason) => {
                proof {
                    vstd::std_specs::vec::axiom_spec_len(&o_prev.checkpoints);
                    assert(spec_consumed_interrupted(o_prev, *oracle, reason@)) by {
                        assert(spec_oracle_stable(o_prev, *oracle));
                    }
                    lemma_clean_then_interrupted(*old(oracle), o_prev, *oracle, reason@);
                }
                interrupted = Some(reason);
                aborted = true;
            },
        }
        if !aborted {
            if !present {
                let msg = emsg("Folder not found: ", folder_name.as_str());
                let msg2 = emsg("Folder not found: ", folder_name.as_str());
                let ghost l_b = log_entries@;
                crate::reporting::push_workspace_log(
                    &mut log_entries,
                    ValidationLevel::Error,
                    msg,
                );
                let mut fl: Vec<String> = Vec::new();
                fl.push(folder_name.clone());
                let emsg_rec = CommandeurValidationMessage {
                    operation_id: String::from_str("__workspace__"),
                    operation_label: Some(String::from_str("Workspace")),
                    level: ValidationLevel::Error,
                    message: msg2,
                    details: None,
                    folders: Some(fl),
                };
                let ghost e_b = errors@;
                errors.push(emsg_rec);
                aborted = true;
                proof {
                    missing_hit = Some(fi as int);
                    lemma_error_count_push(l_b, log_entries@);
                    lemma_log_ids_push(l_b, log_entries@, allowed);
                    assert(errors@.drop_last() =~= e_b);
                    lemma_warn_ids_push(e_b, errors@, allowed);
                    lemma_entry_filter_push(
                        l_b,
                        log_entries@,
                        |e: CommandeurExecutionLogEntry| e.level is Error && spec_is_ws_id(
                            e.operation_id@,
                        ),
                    );
                    lemma_entry_filter_push(
                        l_b,
                        log_entries@,
                        |e: CommandeurExecutionLogEntry| e.level is Error && !spec_is_ws_id(
                            e.operation_id@,
                        ),
                    );
                    lemma_msg_filter_push(
                        e_b,
                        errors@,
                        |m: CommandeurValidationMessage| spec_is_ws_id(m.operation_id@),
                    );
                    lemma_msg_filter_push(
                        e_b,
                        errors@,
                        |m: CommandeurValidationMessage| !spec_is_ws_id(m.operation_id@),
                    );
                    assert(errors@.last()@.folders matches Some(flv) && flv =~= seq![
                        old(workspace).folders@[fi as int].name@,
                    ]);
                    assert(errors@.last()@ == spec_missing_folder_msg(
                        old(workspace).folders@[fi as int].name@,
                    ));
                    assert(forall|j: int|
                        0 <= j < e_b.len() ==> #[trigger] errors@[j] == e_b[j]);
                }
            } else {
                let ghost t_base = attempts@.len() as int;
                let mut oi: usize = 0;
                proof {
                    reveal(Seq::filter);
                    assert(ops.take(0) =~= Seq::<CommandeurOperation>::empty());
                    vstd::arithmetic::mul::lemma_mul_inequality(
                        fi + 1,
                        folder_count as int,
                        ee,
                    );
                    vstd::arithmetic::mul::lemma_mul_is_distributive_add_other_way(
                        ee,
                        fi as int,
                        1,
                    );
                }
                while oi < ops_count && !aborted
                    invariant
                        oi <= ops_count,
                        ops_count == workflow.operations@.len(),
                        aborted ==> interrupted is Some || errors@.len() > 0,
                        interrupted is None ==> spec_consumed_clean(*old(oracle), *oracle),
                        (interrupted matches Some(reason) ==> spec_consumed_interrupted(
                            *old(oracle),
                            *oracle,
                            reason@,
                        )),
                        !aborted ==> interrupted is None && missing_hit is None,
                        missing_hit is None,
                        old(workspace).folders@[fi as int].present,
                        forall|k: int|
                            0 <= k < fi ==> (#[trigger] old(workspace).folders@[k]).present,
                        aborted && interrupted is None ==> attempts@.len() > 0 && (
                        attempts@.last().outcome matches AttemptOutcome::Failed {
                            continue_on_error: cc,
                        } && cc == false),
                        spec_error_log_count_op(log_entries@) == spec_msg_count_op(errors@),
                        spec_error_log_count_ws(log_entries@) == spec_msg_count_ws(errors@),
                        errors@.len() == spec_failed_count(attempts@),
                        forall|k: int|
                            0 <= k < workspace.folders@.len() && attempts@.len() <= k * ee ==> (
                            #[trigger] workspace.folders@[k]).fs@ == old(
                                workspace,
                            ).folders@[k].fs@,
                        forall|j: int|
                            0 <= j < errors@.len() ==> (#[trigger] errors@[j]).level is Error && (
                            errors@[j]@.folders matches Some(fl) && fl.len() == 1),
                        fi < folder_count,
                        folder_count == workspace.folders@.len(),
                        workspace.folders@.len() == old(workspace).folders@.len(),
                        forall|k: int|
                            0 <= k < workspace.folders@.len() ==> (#[trigger] workspace.folders@[
                            k]).name@ == old(workspace).folders@[k].name@ && workspace.folders@[
                            k].present == old(workspace).folders@[k].present,
                        workspace.wf(),
                        folder_name@ == old(workspace).folders@[fi as int].name@,
                        ops == workflow.operations@,
                        ee == spec_enabled_ops(ops).len() as int,
                        e_count == spec_enabled_ops(ops).len(),
                        allowed == spec_run_ids(ops),
                        spec_error_log_count(log_entries@) == errors@.len(),
                        log_ids_ok(log_entries@, 0, allowed),
                        warn_seg_ok(warnings@, 0, allowed),
                        warn_seg_ok(errors@, 0, allowed),
                        operations_run == spec_succeeded_count(attempts@),
                        forall|t: int| 0 <= t < attempts@.len() - 1 ==> spec_attempt_benign(
                            #[trigger] attempts@[t],
                        ),
                        attempts@.len() > 0 && !spec_attempt_benign(attempts@.last()) ==> aborted,
                        forall|t: int|
                            0 <= t < attempts@.len() ==> ((#[trigger] attempts@[t].outcome)
                                matches AttemptOutcome::Failed { continue_on_error: c } ==> exists|
                                idl: Seq<char>,
                                lbl: Seq<char>,
                            |
                                enabled_list_meta(ops).contains((idl, lbl, c))),
                        t_base == fi * ee,
                        !aborted ==> attempts@.len() == t_base + spec_enabled_ops(
                            ops.take(oi as int),
                        ).len(),
                        attempts@.len() <= t_base + spec_enabled_ops(ops.take(oi as int)).len(),
                        spec_enabled_ops(ops.take(oi as int)).len() <= ee,
                        fi * ee + ee <= folder_count * ee,
                        forall|t: int|
                            0 <= t < attempts@.len() ==> 0 <= t / ee < old(workspace).folders@.len() && (#[trigger] attempts@[t]).folder@ == old(workspace).folders@[t / ee].name@ && attempts@[t].operation_id@
                                == spec_enabled_ops(ops)[t % ee].meta.id@,
                        errors@.len() == 0 && interrupted is None ==> spec_succeeded_count(
                            attempts@,
                        ) == attempts@.len(),
                        interrupted is Some ==> aborted,
                        log_entries@.len() > 0,
                    decreases ops_count - oi,
                {
                    let ghost oj = spec_enabled_ops(ops.take(oi as int)).len() as int;
                    proof {
                        reveal(Seq::filter);
                        assert(ops.take(oi + 1 as int).drop_last() =~= ops.take(oi as int));
                        assert(ops.take(oi + 1 as int).last() == ops[oi as int]);
                        assert(ops =~= ops.take(oi + 1 as int) + ops.skip(oi + 1 as int));
                        Seq::filter_distributes_over_add(
                            ops.take(oi + 1 as int),
                            ops.skip(oi + 1 as int),
                            |o: CommandeurOperation| o.meta.enabled,
                        );
                    }
                    let op = &workflow.operations[oi];
                    if op.enabled() {
                        let ghost o_prev2 = *oracle;
                        match oracle.next_checkpoint() {
                            CheckpointDecision::Proceed => {
                                proof {
                                    vstd::std_specs::vec::axiom_spec_len(&o_prev2.checkpoints);
                                    assert(spec_peek_checkpoint_interrupt(o_prev2) is None);
                                    lemma_clean_head(o_prev2, *oracle);
                                    if interrupted is None {
                                        lemma_clean_trans(*old(oracle), o_prev2, *oracle);
                                    }
                                }
                            },
                            CheckpointDecision::Interrupt(reason) => {
                                proof {
                                    vstd::std_specs::vec::axiom_spec_len(&o_prev2.checkpoints);
                                    assert(spec_consumed_interrupted(o_prev2, *oracle, reason@))
                                        by {
                                        assert(spec_oracle_stable(o_prev2, *oracle));
                                    }
                                    lemma_clean_then_interrupted(
                                        *old(oracle),
                                        o_prev2,
                                        *oracle,
                                        reason@,
                                    );
                                }
                                interrupted = Some(reason);
                                aborted = true;
                            },
                        }
                        if !aborted {
                            let ghost l_b = log_entries@;
                            let ghost w_b = warnings@;
                            let ghost a_b = attempts@;
                            let ghost o_call = *oracle;
                            let fm = vec_index_mut(&mut workspace.folders, fi);
                            let res = execute_operation_for_folder(
                                op,
                                folder_name.as_str(),
                                &mut fm.fs,
                                &mut env,
                                oracle,
                                &mut log_entries,
                                &mut warnings,
                            );
                            proof {
                                match &res {
                                    Err(CommandeurError::ExecutionInterrupted { reason }) => {
                                        lemma_clean_then_interrupted(
                                            *old(oracle),
                                            o_call,
                                            *oracle,
                                            reason@,
                                        );
                                    },
                                    _ => {
                                        lemma_clean_trans(*old(oracle), o_call, *oracle);
                                    },
                                }
                                lemma_enabled_list_member(ops, oi as int);
                                assert forall|j: int|
                                    l_b.len() <= j < log_entries@.len() implies !((
                                #[trigger] log_entries@[j]).level is Error) by {
                                    assert(enabled_op_ids(ops[oi as int]).contains(
                                        log_entries@[j].operation_id@,
                                    ));
                                }
                                lemma_error_count_same(log_entries@, l_b);
                                lemma_entry_filter_same(
                                    log_entries@,
                                    l_b,
                                    |e: CommandeurExecutionLogEntry| e.level is Error
                                        && spec_is_ws_id(e.operation_id@),
                                );
                                lemma_entry_filter_same(
                                    log_entries@,
                                    l_b,
                                    |e: CommandeurExecutionLogEntry| e.level is Error
                                        && !spec_is_ws_id(e.operation_id@),
                                );
                                lemma_log_ids_compose(
                                    log_entries@,
                                    l_b,
                                    0,
                                    enabled_op_ids(ops[oi as int]),
                                    allowed,
                                );
                                lemma_warn_seg_compose(
                                    warnings@,
                                    w_b,
                                    0,
                                    enabled_op_ids(ops[oi as int]),
                                    allowed,
                                );
                                lemma_filter_index(
                                    ops,
                                    |o: CommandeurOperation| o.meta.enabled,
                                    oi as int,
                                );
                                assert(ops.take(oi as int).filter(
                                    |o: CommandeurOperation| o.meta.enabled,
                                ) =~= spec_enabled_ops(ops.take(oi as int)));
                                assert(spec_enabled_ops(ops)[oj] == ops[oi as int]);
                                vstd::arithmetic::div_mod::lemma_fundamental_div_mod_converse(
                                    t_base + oj,
                                    ee,
                                    fi as int,
                                    oj,
                                );
                            }
                            let outcome_rec: AttemptOutcome;
                            let mut succeeded_now: bool = false;
                            match res {
                                Ok(()) => {
                                    succeeded_now = true;
                                    outcome_rec = AttemptOutcome::Succeeded;
                                },
                                Err(CommandeurError::OperationFailed {
                                    operation_id,
                                    operation_label,
                                    continue_on_error,
                                    source,
                                }) => {
                                    let ghost l_c = log_entries@;
                                    let fail_log = fmsg(
                                        folder_name.as_str(),
                                        "Failed: ",
                                        source.as_str(),
                                        "",
                                        "",
                                    );
                                    crate::reporting::push_log_with_meta(
                                        &mut log_entries,
                                        operation_id.as_str(),
                                        operation_label.as_str(),
                                        ValidationLevel::Error,
                                        fail_log,
                                    );
                                    let err_msg = emsg(
                                        "operation failed in folder: ",
                                        folder_name.as_str(),
                                    );
                                    let mut fl: Vec<String> = Vec::new();
                                    fl.push(folder_name.clone());
                                    let rec = CommandeurValidationMessage {
                                        operation_id: operation_id.clone(),
                                        operation_label: Some(operation_label.clone()),
                                        level: ValidationLevel::Error,
                                        message: err_msg,
                                        details: Some(source),
                                        folders: Some(fl),
                                    };
                                    let ghost e_c = errors@;
                                    errors.push(rec);
                                    proof {
                                        lemma_error_count_push(l_c, log_entries@);
                                        assert(enabled_list_meta(ops).contains(
                                            (operation_id@, operation_label@, continue_on_error),
                                        ));
                                        lemma_list_meta_ids(ops);
                                        assert((
                                            operation_id@,
                                            operation_label@,
                                            continue_on_error,
                                        ).0 == operation_id@);
                                        assert(enabled_list_ids(ops).contains(operation_id@));
                                        assert(allowed.contains(operation_id@));
                                        assert(exists|idl: Seq<char>, lbl: Seq<char>|
                                            enabled_list_meta(ops).contains(
                                                (idl, lbl, continue_on_error),
                                            ));
                                        lemma_log_ids_push(l_c, log_entries@, allowed);
                                        assert(errors@.drop_last() =~= e_c);
                                        lemma_warn_ids_push(e_c, errors@, allowed);
                                        lemma_entry_filter_push(
                                            l_c,
                                            log_entries@,
                                            |e: CommandeurExecutionLogEntry| e.level is Error
                                                && spec_is_ws_id(e.operation_id@),
                                        );
                                        lemma_entry_filter_push(
                                            l_c,
                                            log_entries@,
                                            |e: CommandeurExecutionLogEntry| e.level is Error
                                                && !spec_is_ws_id(e.operation_id@),
                                        );
                                        lemma_msg_filter_push(
                                            e_c,
                                            errors@,
                                            |m: CommandeurValidationMessage| spec_is_ws_id(
                                                m.operation_id@,
                                            ),
                                        );
                                        lemma_msg_filter_push(
                                            e_c,
                                            errors@,
                                            |m: CommandeurValidationMessage| !spec_is_ws_id(
                                                m.operation_id@,
                                            ),
                                        );
                                        assert(errors@.last()@.folders matches Some(flv)
                                            && flv.len() == 1);
                                        assert(forall|j: int|
                                            0 <= j < e_c.len() ==> #[trigger] errors@[j]
                                                == e_c[j]);
                                    }
                                    if !continue_on_error {
                                        aborted = true;
                                    }
                                    outcome_rec = AttemptOutcome::Failed { continue_on_error };
                                },
                                Err(CommandeurError::ExecutionInterrupted { reason }) => {
                                    interrupted = Some(reason);
                                    aborted = true;
                                    outcome_rec = AttemptOutcome::Interrupted;
                                },
                                Err(CommandeurError::WorkspaceNotFound) => {
                                    proof {
                                        assert(false);
                                    }
                                    aborted = true;
                                    outcome_rec = AttemptOutcome::Interrupted;
                                },
                            }
                            let ghost orec = outcome_rec;
                            let rec = AttemptRecord {
                                folder: folder_name.clone(),
                                operation_id: workflow.operations[oi].meta.id.clone(),
                                outcome: outcome_rec,
                            };
                            attempts.push(rec);
                            proof {
                                assert(attempts@.drop_last() =~= a_b);
                                lemma_succeeded_count_push(a_b, attempts@);
                                lemma_failed_count_push(a_b, attempts@);
                                assert(forall|t: int|
                                    0 <= t < a_b.len() ==> #[trigger] attempts@[t] == a_b[t]);
                                assert forall|t: int|
                                    0 <= t < attempts@.len() implies ((
                                #[trigger] attempts@[t].outcome) matches AttemptOutcome::Failed {
                                    continue_on_error: c,
                                } ==> exists|idl: Seq<char>, lbl: Seq<char>|
                                    enabled_list_meta(ops).contains((idl, lbl, c))) by {
                                    if t < a_b.len() {
                                        assert(attempts@[t] == a_b[t]);
                                        assert((a_b[t].outcome) matches AttemptOutcome::Failed {
                                            continue_on_error: c,
                                        } ==> exists|idl: Seq<char>, lbl: Seq<char>|
                                            enabled_list_meta(ops).contains((idl, lbl, c)));
                                    } else {
                                        assert(attempts@[t] == attempts@.last());
                                        assert(attempts@.last().outcome == orec);
                                        match orec {
                                            AttemptOutcome::Failed { continue_on_error: c2 } => {
                                                assert(exists|idl: Seq<char>, lbl: Seq<char>|
                                                    enabled_list_meta(ops).contains(
                                                        (idl, lbl, c2),
                                                    ));
                                            },
                                            _ => {},
                                        }
                                    }
                                }
                            }
                            if succeeded_now {
                                let alen = attempts.len();
                                proof {
                                    attempts@.lemma_filter_len(
                                        |a: AttemptRecord| a.outcome is Succeeded,
                                    );
                                }
                                operations_run = operations_run + 1;
                            }
                        }
                    }
                    proof {
                        assert forall|k: int|
                            0 <= k < workspace.folders@.len() && attempts@.len() <= k * ee
                            implies (#[trigger] workspace.folders@[k]).fs@ == old(
                            workspace,
                        ).folders@[k].fs@ by {
                            if k <= fi as int {
                                vstd::arithmetic::mul::lemma_mul_inequality(k, fi as int, ee);
                            }
                        }
                    }
                    oi = oi + 1;
                }
                proof {
                    if !aborted {
                        assert(ops.take(ops_count as int) =~= ops);
                    }
                }
            }
        }
        proof {
            vstd::arithmetic::mul::lemma_mul_inequality(fi + 1, folder_count as int, ee);
            vstd::arithmetic::mul::lemma_mul_is_distributive_add_other_way(ee, fi as int, 1);
            vstd::arithmetic::mul::lemma_mul_inequality(fi as int, fi + 1, ee);
        }
        fi = fi + 1;
    }
    let success = errors.len() == 0 && interrupted.is_none();
    match &interrupted {
        Some(reason) => {
            let mut stop_msg = String::from_str("Execution interrupted: ");
            stop_msg.append(reason.as_str());
            let ghost l_s = log_entries@;
            crate::reporting::push_workspace_log(
                &mut log_entries,
                ValidationLevel::Warning,
                stop_msg,
            );
            proof {
                lemma_error_count_keep(l_s, log_entries@);
                lemma_log_ids_push(l_s, log_entries@, allowed);
                lemma_entry_filter_push(
                    l_s,
                    log_entries@,
                    |e: CommandeurExecutionLogEntry| e.level is Error && spec_is_ws_id(
                        e.operation_id@,
                    ),
                );
                lemma_entry_filter_push(
                    l_s,
                    log_entries@,
                    |e: CommandeurExecutionLogEntry| e.level is Error && !spec_is_ws_id(
                        e.operation_id@,
                    ),
                );
                assert(log_data(log_entries@.last()) == (LogData {
                    operation_id: "__workspace__"@,
                    operation_label: "Workspace"@,
                    message: "Execution interrupted: "@ + reason@,
                    level: ValidationLevel::Warning,
                }));
                assert(spec_stop_entry(log_data(log_entries@.last()))) by {
                    assert(log_data(log_entries@.last()).message.subrange(
                        0,
                        "Execution interrupted: "@.len() as int,
                    ) =~= "Execution interrupted: "@);
                }
            }
        },
        None => {},
    }
    proof {
        if fi < folder_count {
            vstd::arithmetic::mul::lemma_mul_inequality(
                fi as int,
                folder_count as int,
                ee,
            );
        }
        match &interrupted {
            Some(reason) => {
                assert(spec_consumed_interrupted(*old(oracle), *oracle, reason@));
                assert(!spec_consumed_clean(*old(oracle), *oracle)) by {
                    let t = (*oracle).cpos - 1;
                    assert(old(oracle).checkpoints@[t] matches CheckpointDecision::Interrupt(rr));
                }
            },
            None => {
                assert(spec_consumed_clean(*old(oracle), *oracle));
            },
        }
        if spec_consumed_clean(*old(oracle), *oracle) {
            assert(interrupted is None);
            if !aborted {
                assert(fi == folder_count);
                assert(forall|k: int|
                    0 <= k < old(workspace).folders@.len() ==> (#[trigger] old(
                        workspace,
                    ).folders@[k]).present);
                lemma_no_absent(old(workspace).folders@);
            } else {
                match missing_hit {
                    Some(mk) => {
                        lemma_first_absent_at(old(workspace).folders@, mk);
                    },
                    None => {},
                }
            }
        }
    }
    let result = CommandeurExecutionResult {
        success,
        operations_run,
        log_file_path: String::new(),
        log_entries,
        warnings,
        errors,
        output_archive_path: None,
    };
    (result, attempts)
}

} // verus!
