use vstd::prelude::*;
use vstd::string::StringExecFns;
use crate::model::{
    CommandeurExecutionLogEntry, CommandeurOperation, CommandeurValidationMessage, LogData,
    ValidationLevel, ValidationMsgView, log_data,
};

verus! {

/// Relies on std::time::SystemTime::now, chrono::DateTime::from_timestamp
/// and chrono::DateTime::to_rfc3339: the wall-clock moment, rendered;
/// nothing can be promised of its value. A clock before the Unix epoch or
/// outside chrono's range falls back to the epoch's own timestamp, so the
/// call cannot abort the run.
#[verifier::external_body]
pub fn now_rfc3339() -> String {
    match std::time::SystemTime::now().duration_since(std::time::UNIX_EPOCH) {
        Ok(d) => match chrono::DateTime::from_timestamp(d.as_secs() as i64, d.subsec_nanos()) {
            Some(t) => t.to_rfc3339(),
            None => "1970-01-01T00:00:00+00:00".to_string(),
        },
        Err(_) => "1970-01-01T00:00:00+00:00".to_string(),
    }
}

impl CommandeurExecutionLogEntry {
    /// A log entry stamped with the current wall-clock time.
    pub fn new(operation_id: &str, operation_label: &str, level: ValidationLevel, message: String)
        -> (r: Self)
        ensures
            log_data(r) == (LogData {
                operation_id: operation_id@,
                operation_label: operation_label@,
                message: message@,
                level,
            }),
    {
        CommandeurExecutionLogEntry {
            timestamp: now_rfc3339(),
            operation_id: operation_id.to_owned(),
            operation_label: operation_label.to_owned(),
            message,
            level,
        }
    }
}

/// Appends a log entry attributed to an operation.
pub fn push_log(
    entries: &mut Vec<CommandeurExecutionLogEntry>,
    operation: &CommandeurOperation,
    level: ValidationLevel,
    message: String,
)
    ensures
        final(entries)@.len() == old(entries)@.len() + 1,
        final(entries)@.drop_last() == old(entries)@,
        log_data(final(entries)@.last()) == (LogData {
            operation_id: operation.meta.id@,
            operation_label: operation.meta.label@,
            message: message@,
            level,
        }),
{
    let entry = CommandeurExecutionLogEntry::new(operation.id(), operation.label(), level, message);
    entries.push(entry);
    proof {
        assert(final(entries)@.drop_last() =~= old(entries)@);
    }
}

/// Appends a log entry when only the operation's id and label are at hand.
pub fn push_log_with_meta(
    entries: &mut Vec<CommandeurExecutionLogEntry>,
    operation_id: &str,
    operation_label: &str,
    level: ValidationLevel,
    message: String,
)
    ensures
        final(entries)@.len() == old(entries)@.len() + 1,
        final(entries)@.drop_last() == old(entries)@,
        log_data(final(entries)@.last()) == (LogData {
            operation_id: operation_id@,
            operation_label: operation_label@,
            message: message@,
            level,
        }),
{
    let entry = CommandeurExecutionLogEntry::new(operation_id, operation_label, level, message);
    entries.push(entry);
    proof {
        assert(final(entries)@.drop_last() =~= old(entries)@);
    }
}

/// Appends a log entry attributed to the workspace itself rather than to
/// any operation.
pub fn push_workspace_log(
    entries: &mut Vec<CommandeurExecutionLogEntry>,
    level: ValidationLevel,
    message: String,
)
    ensures
        final(entries)@.len() == old(entries)@.len() + 1,
        final(entries)@.drop_last() == old(entries)@,
        log_data(final(entries)@.last()) == (LogData {
            operation_id: "__workspace__"@,
            operation_label: "Workspace"@,
            message: message@,
            level,
        }),
{
    let entry = CommandeurExecutionLogEntry::new("__workspace__", "Workspace", level, message);
    entries.push(entry);
    proof {
        assert(final(entries)@.drop_last() =~= old(entries)@);
    }
}

/// Appends a validation message attributed to an operation.
pub fn push_validation(
    messages: &mut Vec<CommandeurValidationMessage>,
    operation: &CommandeurOperation,
    level: ValidationLevel,
    message: String,
    details: Option<String>,
    folders: Option<Vec<String>>,
)
    ensures
        final(messages)@.len() == old(messages)@.len() + 1,
        final(messages)@.drop_last() == old(messages)@,
        final(messages)@.last()@ == (ValidationMsgView {
            operation_id: operation.meta.id@,
            operation_label: Some(operation.meta.label@),
            level,
            message: message@,
            details: (match details {
                Some(ref d) => Some(d@),
                None => None,
            }),
            folders: (match folders {
                Some(ref f) => Some(f@.map_values(|s: String| s@)),
                None => None,
            }),
        }),
{
    let entry = CommandeurValidationMessage {
        operation_id: operation.meta.id.clone(),
        operation_label: Some(operation.meta.label.clone()),
        level,
        message,
        details,
        folders,
    };
    messages.push(entry);
    proof {
        assert(final(messages)@.drop_last() =~= old(messages)@);
    }
}

/// Appends a validation message scoped to one folder.
pub fn push_folder_validation(
    messages: &mut Vec<CommandeurValidationMessage>,
    operation: &CommandeurOperation,
    folder: &str,
    level: ValidationLevel,
    message: String,
    details: Option<String>,
)
    ensures
        final(messages)@.len() == old(messages)@.len() + 1,
        final(messages)@.drop_last() == old(messages)@,
        final(messages)@.last()@ == (ValidationMsgView {
            operation_id: operation.meta.id@,
            operation_label: Some(operation.meta.label@),
            level,
            message: message@,
            details: (match details {
                Some(ref d) => Some(d@),
                None => None,
            }),
            folders: Some(seq![folder@]),
        }),
{
    let mut fl: Vec<String> = Vec::new();
    fl.push(folder.to_owned());
    let entry = CommandeurValidationMessage {
        operation_id: operation.meta.id.clone(),
        operation_label: Some(operation.meta.label.clone()),
        level,
        message,
        details,
        folders: Some(fl),
    };
    messages.push(entry);
    proof {
        assert(final(messages)@.drop_last() =~= old(messages)@);
        assert(final(messages)@.last().folders matches Some(ref f) && f@.map_values(
            |s: String| s@,
        ) =~= seq![folder@]);
    }
}

} // verus!
