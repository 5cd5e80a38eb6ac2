use vstd::prelude::*;
use vstd::string::StringExecFns;
use crate::model::{
    CommandeurExecutionLogEntry, CommandeurValidationMessage, CommandeurWorkflow, ValidationLevel,
    WorkspaceMode,
};

verus! {

/// The level tag a timeline line carries.
pub open spec fn spec_level_text(l: ValidationLevel) -> Seq<char> {
    match l {
        ValidationLevel::Info => "INFO"@,
        ValidationLevel::Warning => "WARN"@,
        ValidationLevel::Error => "ERROR"@,
    }
}

/// One chronological line of the persisted log.
pub open spec fn spec_timeline_line(e: CommandeurExecutionLogEntry) -> Seq<char> {
    "["@ + e.timestamp@ + "]["@ + spec_level_text(e.level) + "]["@ + e.operation_label@ + "] "@
        + e.message@ + "\n"@
}

/// The whole chronological section, one line per entry, in order.
pub open spec fn spec_timeline(entries: Seq<CommandeurExecutionLogEntry>) -> Seq<char>
    decreases entries.len(),
{
    if entries.len() == 0 {
        Seq::empty()
    } else {
        spec_timeline(entries.drop_last()) + spec_timeline_line(entries.last())
    }
}

/// Names joined with commas.
pub open spec fn spec_join_list(parts: Seq<Seq<char>>) -> Seq<char>
    decreases parts.len(),
{
    if parts.len() == 0 {
        Seq::empty()
    } else if parts.len() == 1 {
        parts[0]
    } else {
        parts[0] + ", "@ + spec_join_list(parts.drop_first())
    }
}

proof fn lemma_join_list_push(parts: Seq<Seq<char>>, x: Seq<char>)
    ensures
        spec_join_list(parts.push(x)) == if parts.len() == 0 {
            x
        } else {
            spec_join_list(parts) + ", "@ + x
        },
    decreases parts.len(),
{
    if parts.len() == 0 {
        assert(parts.push(x)[0] == x);
    } else {
        assert(parts.push(x)[0] == parts[0]);
        assert(parts.push(x).drop_first() =~= parts.drop_first().push(x));
        lemma_join_list_push(parts.drop_first(), x);
        if parts.len() == 1 {
            assert(parts.drop_first() =~= Seq::<Seq<char>>::empty());
        } else {
            assert((parts[0] + ", "@ + (spec_join_list(parts.drop_first()) + ", "@ + x)) =~= (
            parts[0] + ", "@ + spec_join_list(parts.drop_first())) + ", "@ + x);
        }
    }
}

/// One warning or error block: the attributed id, the message, the affected
/// folders, and an optional detail line.
pub open spec fn spec_msg_block(m: CommandeurValidationMessage) -> Seq<char> {
    "- ["@ + m.operation_id@ + "] "@ + m.message@ + " ("@ + (match m.folders {
        Some(fl) => spec_join_list(fl@.map_values(|s: String| s@)),
        None => Seq::empty(),
    }) + ")\n"@ + (match m.details {
        Some(d) => "    > "@ + d@ + "\n"@,
        None => Seq::empty(),
    })
}

pub open spec fn spec_msg_blocks(msgs: Seq<CommandeurValidationMessage>) -> Seq<char>
    decreases msgs.len(),
{
    if msgs.len() == 0 {
        Seq::empty()
    } else {
        spec_msg_blocks(msgs.drop_last()) + spec_msg_block(msgs.last())
    }
}

/// A titled section listing messages; an empty collection leaves no
/// section at all.
pub open spec fn spec_msg_section(
    title: Seq<char>,
    msgs: Seq<CommandeurValidationMessage>,
) -> Seq<char> {
    if msgs.len() == 0 {
        Seq::empty()
    } else {
        "\n== "@ + title + " ==\n"@ + spec_msg_blocks(msgs)
    }
}

/// The banner's workflow line, version included when there is one.
pub open spec fn spec_workflow_line(name: Seq<char>, version: Option<Seq<char>>) -> Seq<char> {
    "Workflow: "@ + name + (match version {
        Some(v) => " (version "@ + v + ")"@,
        None => Seq::empty(),
    }) + "\n"@
}

/// The full text of the persisted run journal: a banner naming the
/// workflow, the source path, the workspace mode and the sub-folders, then
/// the chronological entries, then the warning and error sections.
pub open spec fn spec_format_execution_log(
    name: Seq<char>,
    version: Option<Seq<char>>,
    source: Seq<char>,
    mode: WorkspaceMode,
    folders: Seq<Seq<char>>,
    entries: Seq<CommandeurExecutionLogEntry>,
    warnings: Seq<CommandeurValidationMessage>,
    errors: Seq<CommandeurValidationMessage>,
) -> Seq<char> {
    "Commandeur execution journal\n"@ + spec_workflow_line(name, version) + "Source: "@ + source
        + "\n"@ + "Mode: "@ + (match mode {
        WorkspaceMode::Zip => "ZIP"@,
        WorkspaceMode::Directory => "Directory"@,
    }) + "\n"@ + "Sub-folders: "@ + spec_join_list(folders) + "\n"@ + "\n== Timeline ==\n"@
        + spec_timeline(entries) + spec_msg_section("Warnings"@, warnings) + spec_msg_section(
        "Errors"@,
        errors,
    )
}

/// Names joined with commas; see `spec_join_list`.
pub fn join_list(parts: &Vec<String>) -> (r: String)
    ensures
        r@ == spec_join_list(parts@.map_values(|s: String| s@)),
{
    let ghost views = parts@.map_values(|s: String| s@);
    let n = parts.len();
    let mut out = String::new();
    let mut i: usize = 0;
    proof {
        assert(views.take(0) =~= Seq::<Seq<char>>::empty());
    }
    while i < n
        invariant
            i <= n,
            n == parts@.len(),
            views == parts@.map_values(|s: String| s@),
            out@ == spec_join_list(views.take(i as int)),
        decreases n - i,
    {
        proof {
            assert(views.take(i + 1 as int) =~= views.take(i as int).push(views[i as int]));
            assert(views[i as int] == parts@[i as int]@);
            lemma_join_list_push(views.take(i as int), views[i as int]);
        }
        if i > 0 {
            out.append(", ");
        }
        out.append(parts[i].as_str());
        proof {
            if i == 0 {
                assert(spec_join_list(views.take(0)) =~= Seq::<char>::empty());
            }
            assert(out@ =~= spec_join_list(views.take(i + 1 as int)));
        }
        i = i + 1;
    }
    proof {
        assert(views.take(n as int) =~= views);
    }
    out
}

/// One warning or error block as text; see `spec_msg_block`.
fn msg_block(m: &CommandeurValidationMessage) -> (r: String)
    ensures
        r@ == spec_msg_block(*m),
{
    let mut s = String::from_str("- [");
    s.append(m.operation_id.as_str());
    s.append("] ");
    s.append(m.message.as_str());
    s.append(" (");
    match &m.folders {
        Some(fl) => {
            let joined = join_list(fl);
            s.append(joined.as_str());
        },
        None => {},
    }
    s.append(")\n");
    match &m.details {
        Some(d) => {
            s.append("    > ");
            s.append(d.as_str());
            s.append("\n");
        },
        None => {},
    }
    proof {
        assert(s@ =~= spec_msg_block(*m));
    }
    s
}

/// A titled message section as text; see `spec_msg_section`.
fn msg_section(title: &str, msgs: &Vec<CommandeurValidationMessage>) -> (r: String)
    ensures
        r@ == spec_msg_section(title@, msgs@),
{
    if msgs.len() == 0 {
        proof {
            reveal_strlit("");
        }
        let empty = String::new();
        proof {
            assert(empty@ =~= spec_msg_section(title@, msgs@));
        }
        return empty;
    }
    let mut s = String::from_str("\n== ");
    s.append(title);
    s.append(" ==\n");
    let ghost header = s@;
    let n = msgs.len();
    let mut i: usize = 0;
    proof {
        assert(spec_msg_blocks(msgs@.take(0)) =~= Seq::<char>::empty());
        assert(s@ =~= header + spec_msg_blocks(msgs@.take(0)));
    }
    while i < n
        invariant
            i <= n,
            n == msgs@.len(),
            s@ == header + spec_msg_blocks(msgs@.take(i as int)),
        decreases n - i,
    {
        proof {
            assert(msgs@.take(i + 1 as int).drop_last() =~= msgs@.take(i as int));
            assert(msgs@.take(i + 1 as int).last() == msgs@[i as int]);
        }
        let block = msg_block(&msgs[i]);
        s.append(block.as_str());
        proof {
            assert(s@ =~= header + spec_msg_blocks(msgs@.take(i + 1 as int)));
        }
        i = i + 1;
    }
    proof {
        assert(msgs@.take(n as int) =~= msgs@);
        assert(s@ =~= spec_msg_section(title@, msgs@));
    }
    s
}

/// Renders the persisted run journal; see `spec_format_execution_log`. The
/// embedder writes the returned text to the log file unchanged.
pub fn format_execution_log(
    workflow: &CommandeurWorkflow,
    source: &str,
    mode: WorkspaceMode,
    folders: &Vec<String>,
    entries: &Vec<CommandeurExecutionLogEntry>,
    warnings: &Vec<CommandeurValidationMessage>,
    errors: &Vec<CommandeurValidationMessage>,
) -> (r: String)
    ensures
        r@ == spec_format_execution_log(
            workflow.name@,
            (match workflow.version {
                Some(ref v) => Some(v@),
                None => None,
            }),
            source@,
            mode,
            folders@.map_values(|s: String| s@),
            entries@,
            warnings@,
            errors@,
        ),
{
    let mut s = String::from_str("Commandeur execution journal\n");
    s.append("Workflow: ");
    s.append(workflow.name.as_str());
    match &workflow.version {
        Some(v) => {
            s.append(" (version ");
            s.append(v.as_str());
            s.append(")");
        },
        None => {},
    }
    s.append("\n");
    s.append("Source: ");
    s.append(source);
    s.append("\n");
    s.append("Mode: ");
    match mode {
        WorkspaceMode::Zip => {
            s.append("ZIP");
        },
        WorkspaceMode::Directory => {
            s.append("Directory");
        },
    }
    s.append("\n");
    s.append("Sub-folders: ");
    let joined = join_list(folders);
    s.append(joined.as_str());
    s.append("\n");
    s.append("\n== Timeline ==\n");
    let ghost head = s@;
    let n = entries.len();
    let mut i: usize = 0;
    proof {
        assert(spec_timeline(entries@.take(0)) =~= Seq::<char>::empty());
        assert(s@ =~= head + spec_timeline(entries@.take(0)));
    }
    while i < n
        invariant
            i <= n,
            n == entries@.len(),
            s@ == head + spec_timeline(entries@.take(i as int)),
        decreases n - i,
    {
        proof {
            assert(entries@.take(i + 1 as int).drop_last() =~= entries@.take(i as int));
            assert(entries@.take(i + 1 as int).last() == entries@[i as int]);
        }
        let e = &entries[i];
        let lvl = e.level_string();
        proof {
            assert(spec_level_text(entries@[i as int].level) == lvl@) by {
                match e.level {
                    ValidationLevel::Info => {},
                    ValidationLevel::Warning => {},
                    ValidationLevel::Error => {},
                }
            }
        }
        s.append("[");
        s.append(e.timestamp.as_str());
        s.append("][");
        s.append(lvl);
        s.append("][");
        s.append(e.operation_label.as_str());
        s.append("] ");
        s.append(e.message.as_str());
        s.append("\n");
        proof {
            assert(s@ =~= head + spec_timeline(entries@.take(i + 1 as int)));
        }
        i = i + 1;
    }
    proof {
        assert(entries@.take(n as int) =~= entries@);
    }
    let warn_section = msg_section("Warnings", warnings);
    s.append(warn_section.as_str());
    let err_section = msg_section("Errors", errors);
    s.append(err_section.as_str());
    proof {
        reveal_strlit("Warnings");
        reveal_strlit("Errors");
        assert(s@ =~= spec_format_execution_log(
            workflow.name@,
            (match workflow.version {
                Some(ref v) => Some(v@),
                None => None,
            }),
            source@,
            mode,
            folders@.map_values(|sx: String| sx@),
            entries@,
            warnings@,
            errors@,
        ));
    }
    s
}

} // verus!
