use vstd::prelude::*;
use vstd::string::StringExecFns;
use crate::model::{
    CommandeurOperation, CommandeurValidationMessage, CommandeurWorkflow, OperationDetails,
    PythonEntry, ReplaceMode, ValidationLevel, op_ids, ops_list_ids,
};
use crate::engine::{WorkspaceModel, warn_seg_ok, lemma_warn_seg_push, lemma_warn_seg_compose};
use crate::reporting::{push_folder_validation, push_validation};
use crate::fsmodel::FolderFs;

verus! {

/// A subtree member's identifiers sit inside the list's identifiers.
proof fn lemma_all_list_member(ops: Seq<CommandeurOperation>, i: int)
    requires
        0 <= i < ops.len(),
    ensures
        op_ids(ops[i]).subset_of(ops_list_ids(ops)),
    decreases ops.len(),
{
    if i > 0 {
        lemma_all_list_member(ops.drop_first(), i - 1);
        assert(ops.drop_first()[i - 1] == ops[i]);
    }
}

/// An `If` node's branch lists contribute to its own identifier set.
proof fn lemma_all_if_subsets(op: CommandeurOperation)
    requires
        op.details matches OperationDetails::If { .. },
    ensures
        (match op.details {
            OperationDetails::If { test: _, then, else_branch } => ops_list_ids(then@).subset_of(
                op_ids(op),
            ) && (match else_branch {
                Some(eb) => ops_list_ids(eb@).subset_of(op_ids(op)),
                None => true,
            }),
            _ => true,
        }),
{
    match op.details {
        OperationDetails::If { test: _, then, else_branch } => {
            assert forall|x: Seq<char>| ops_list_ids(then@).contains(x) implies op_ids(
                op,
            ).contains(x) by {}
            match else_branch {
                Some(eb) => {
                    assert forall|x: Seq<char>| ops_list_ids(eb@).contains(x) implies op_ids(
                        op,
                    ).contains(x) by {}
                },
                None => {},
            }
        },
        _ => {},
    }
}

/// The sub-folders, as names, in which nothing stands at a sanitized
/// relative path.
fn folders_missing(workspace: &WorkspaceModel, key: &str) -> (r: Vec<String>) {
    let n = workspace.folders.len();
    let mut missing: Vec<String> = Vec::new();
    let mut i: usize = 0;
    while i < n
        invariant
            i <= n,
            n == workspace.folders@.len(),
        decreases n - i,
    {
        if !workspace.folders[i].fs.exists_path(key) {
            missing.push(workspace.folders[i].name.clone());
        }
        i = i + 1;
    }
    missing
}

/// Joins module names with commas for a warning's detail text.
fn join_comma(items: &Vec<String>) -> (r: String) {
    let n = items.len();
    let mut out = String::new();
    let mut i: usize = 0;
    while i < n
        invariant
            i <= n,
            n == items@.len(),
        decreases n - i,
    {
        if i > 0 {
            out.append(", ");
        }
        out.append(items[i].as_str());
        i = i + 1;
    }
    out
}

/// Checks one operation against every sub-folder of the workspace model
/// before a run, filing informational, warning and error messages without
/// performing any side effect; an `If` recurses into both branches. Every
/// message filed carries the id of a node of this operation's subtree.
#[verifier::rlimit(100)]
#[verifier::spinoff_prover]
pub fn validate_operation(
    workspace: &WorkspaceModel,
    operation: &CommandeurOperation,
    messages: &mut Vec<CommandeurValidationMessage>,
)
    ensures
        final(messages)@.len() >= old(messages)@.len(),
        final(messages)@.take(old(messages)@.len() as int) == old(messages)@,
        warn_seg_ok(final(messages)@, old(messages)@.len() as int, op_ids(*operation)),
    decreases *operation,
{
    proof {
        assert(op_ids(*operation).contains(operation.meta.id@)) by {
            match operation.details {
                OperationDetails::If { .. } => {},
                _ => {},
            }
        }
    }
    match &operation.details {
        OperationDetails::CreateFile { target, overwrite: _, content: _ } => {
            let key = match crate::pathfrag::sanitize_relative_path(target.as_str()) {
                Ok(k) => k,
                Err(e) => {
                    let ghost m0 = messages@;
                    push_validation(
                        messages,
                        operation,
                        ValidationLevel::Error,
                        String::from_str("invalid destination path"),
                        Some(e.message().to_owned()),
                        None,
                    );
                    proof {
                        lemma_warn_seg_push(m0, messages@, old(messages)@.len() as int, op_ids(*operation));
                        assert(messages@.take(m0.len() as int) =~= m0);
                    }
                    return ;
                },
            };
            let kchars = crate::text::chars_of(key.as_str());
            let parent = crate::rename::rfind_char(&kchars, '/');
            let n = workspace.folders.len();
            let mut missing: Vec<String> = Vec::new();
            let mut i: usize = 0;
            while i < n
                invariant
                    i <= n,
                    n == workspace.folders@.len(),
                    kchars@ == key@,
                    (match parent {
                        Some(cut) => cut < kchars@.len(),
                        None => true,
                    }),
                decreases n - i,
            {
                match parent {
                    Some(cut) => {
                        let pchars = crate::text::subrange_chars(&kchars, 0, cut);
                        let pkey = crate::text::string_from_chars(&pchars);
                        if !workspace.folders[i].fs.dir_at(pkey.as_str()) {
                            missing.push(workspace.folders[i].name.clone());
                        }
                    },
                    None => {},
                }
                i = i + 1;
            }
            if missing.len() > 0 {
                let ghost m0 = messages@;
                push_validation(
                    messages,
                    operation,
                    ValidationLevel::Error,
                    String::from_str("the destination folder does not exist"),
                    None,
                    Some(missing),
                );
                proof {
                    lemma_warn_seg_push(m0, messages@, old(messages)@.len() as int, op_ids(*operation));
                    assert(messages@.take(m0.len() as int) =~= m0);
                }
            }
        },
        OperationDetails::DeleteFile { target, required } => {
            let key = match crate::pathfrag::sanitize_relative_path(target.as_str()) {
                Ok(k) => k,
                Err(e) => {
                    let ghost m0 = messages@;
                    push_validation(
                        messages,
                        operation,
                        ValidationLevel::Error,
                        String::from_str("invalid file path"),
                        Some(e.message().to_owned()),
                        None,
                    );
                    proof {
                        lemma_warn_seg_push(m0, messages@, old(messages)@.len() as int, op_ids(*operation));
                        assert(messages@.take(m0.len() as int) =~= m0);
                    }
                    return ;
                },
            };
            let missing = folders_missing(workspace, key.as_str());
            if missing.len() > 0 {
                let level = if *required {
                    ValidationLevel::Error
                } else {
                    ValidationLevel::Warning
                };
                let mut msg = String::from_str("file not found: ");
                msg.append(target.as_str());
                let mut details = String::from_str("expected by operation: ");
                details.append(operation.label());
                let ghost m0 = messages@;
                push_validation(messages, operation, level, msg, Some(details), Some(missing));
                proof {
                    lemma_warn_seg_push(m0, messages@, old(messages)@.len() as int, op_ids(*operation));
                    assert(messages@.take(m0.len() as int) =~= m0);
                }
            }
        },
        OperationDetails::Copy { source, destination: _, overwrite: _ } => {
            let key = match crate::pathfrag::sanitize_relative_path(source.as_str()) {
                Ok(k) => k,
                Err(e) => {
                    let ghost m0 = messages@;
                    push_validation(
                        messages,
                        operation,
                        ValidationLevel::Error,
                        String::from_str("invalid path"),
                        Some(e.message().to_owned()),
                        None,
                    );
                    proof {
                        lemma_warn_seg_push(m0, messages@, old(messages)@.len() as int, op_ids(*operation));
                        assert(messages@.take(m0.len() as int) =~= m0);
                    }
                    return ;
                },
            };
            let missing = folders_missing(workspace, key.as_str());
            if missing.len() > 0 {
                let ghost m0 = messages@;
                push_validation(
                    messages,
                    operation,
                    ValidationLevel::Error,
                    String::from_str("the source file is missing"),
                    None,
                    Some(missing),
                );
                proof {
                    lemma_warn_seg_push(m0, messages@, old(messages)@.len() as int, op_ids(*operation));
                    assert(messages@.take(m0.len() as int) =~= m0);
                }
            }
        },
        OperationDetails::Move { source, destination: _, overwrite: _ } => {
            let key = match crate::pathfrag::sanitize_relative_path(source.as_str()) {
                Ok(k) => k,
                Err(e) => {
                    let ghost m0 = messages@;
                    push_validation(
                        messages,
                        operation,
                        ValidationLevel::Error,
                        String::from_str("invalid path"),
                        Some(e.message().to_owned()),
                        None,
                    );
                    proof {
                        lemma_warn_seg_push(m0, messages@, old(messages)@.len() as int, op_ids(*operation));
                        assert(messages@.take(m0.len() as int) =~= m0);
                    }
                    return ;
                },
            };
            let missing = folders_missing(workspace, key.as_str());
            if missing.len() > 0 {
                let ghost m0 = messages@;
                push_validation(
                    messages,
                    operation,
                    ValidationLevel::Error,
                    String::from_str("source not found"),
                    None,
                    Some(missing),
                );
                proof {
                    lemma_warn_seg_push(m0, messages@, old(messages)@.len() as int, op_ids(*operation));
                    assert(messages@.take(m0.len() as int) =~= m0);
                }
            }
        },
        OperationDetails::Exec { command, args: _, shell: _, cwd, env: _ } => {
            let trimmed = crate::text::trim_str(command.as_str());
            if trimmed.as_str().unicode_len() == 0 {
                let ghost m0 = messages@;
                push_validation(
                    messages,
                    operation,
                    ValidationLevel::Error,
                    String::from_str("the command to run is empty"),
                    None,
                    None,
                );
                proof {
                    lemma_warn_seg_push(m0, messages@, old(messages)@.len() as int, op_ids(*operation));
                    assert(messages@.take(m0.len() as int) =~= m0);
                }
            }
            match cwd {
                Some(fragment) => {
                    let key = match crate::pathfrag::sanitize_relative_path(fragment.as_str()) {
                        Ok(k) => k,
                        Err(e) => {
                            let ghost m0 = messages@;
                            push_validation(
                                messages,
                                operation,
                                ValidationLevel::Error,
                                String::from_str("invalid working directory path"),
                                Some(e.message().to_owned()),
                                None,
                            );
                            proof {
                                lemma_warn_seg_push(m0, messages@, old(messages)@.len() as int, op_ids(*operation));
                                assert(messages@.take(old(messages)@.len() as int) =~= messages@
                                    .take(m0.len() as int).take(old(messages)@.len() as int));
                            }
                            return ;
                        },
                    };
                    let missing = folders_missing(workspace, key.as_str());
                    if missing.len() > 0 {
                        let ghost m0 = messages@;
                        push_validation(
                            messages,
                            operation,
                            ValidationLevel::Error,
                            String::from_str("working directory not found"),
                            None,
                            Some(missing),
                        );
                        proof {
                            lemma_warn_seg_push(m0, messages@, old(messages)@.len() as int, op_ids(*operation));
                            assert(messages@.take(old(messages)@.len() as int) =~= messages@.take(
                                m0.len() as int,
                            ).take(old(messages)@.len() as int));
                        }
                    }
                },
                None => {},
            }
        },
        OperationDetails::ReplaceInFile { target, search, replace: _, mode, flags } => {
            let strimmed = crate::text::trim_str(search.as_str());
            if strimmed.as_str().unicode_len() == 0 {
                let ghost m0 = messages@;
                push_validation(
                    messages,
                    operation,
                    ValidationLevel::Error,
                    String::from_str("the search string is empty"),
                    None,
                    None,
                );
                proof {
                    lemma_warn_seg_push(m0, messages@, old(messages)@.len() as int, op_ids(*operation));
                    assert(messages@.take(m0.len() as int) =~= m0);
                }
            }
            let is_regex = match mode {
                ReplaceMode::Regex => true,
                ReplaceMode::Plain => false,
            };
            if is_regex {
                let probe = match flags {
                    Some(f) => crate::regexes::regex_is_match(
                        search.as_str(),
                        false,
                        false,
                        false,
                        false,
                        f.as_str(),
                    ),
                    None => crate::regexes::regex_is_match(
                        search.as_str(),
                        false,
                        false,
                        false,
                        false,
                        "",
                    ),
                };
                if probe.is_none() {
                    let ghost m0 = messages@;
                    push_validation(
                        messages,
                        operation,
                        ValidationLevel::Error,
                        String::from_str("invalid regular expression"),
                        None,
                        None,
                    );
                    proof {
                        lemma_warn_seg_push(m0, messages@, old(messages)@.len() as int, op_ids(*operation));
                        assert(messages@.take(old(messages)@.len() as int) =~= messages@.take(
                            m0.len() as int,
                        ).take(old(messages)@.len() as int));
                    }
                }
            }
            match crate::pathfrag::sanitize_relative_path(target.as_str()) {
                Ok(key) => {
                    let missing = folders_missing(workspace, key.as_str());
                    if missing.len() > 0 {
                        let ghost m0 = messages@;
                        push_validation(
                            messages,
                            operation,
                            ValidationLevel::Error,
                            String::from_str("target file not found"),
                            None,
                            Some(missing),
                        );
                        proof {
                            lemma_warn_seg_push(m0, messages@, old(messages)@.len() as int, op_ids(*operation));
                            assert(messages@.take(old(messages)@.len() as int) =~= messages@.take(
                                m0.len() as int,
                            ).take(old(messages)@.len() as int));
                        }
                    }
                },
                Err(e) => {
                    let ghost m0 = messages@;
                    push_validation(
                        messages,
                        operation,
                        ValidationLevel::Error,
                        String::from_str("invalid file path"),
                        Some(e.message().to_owned()),
                        None,
                    );
                    proof {
                        lemma_warn_seg_push(m0, messages@, old(messages)@.len() as int, op_ids(*operation));
                        assert(messages@.take(old(messages)@.len() as int) =~= messages@.take(
                            m0.len() as int,
                        ).take(old(messages)@.len() as int));
                    }
                },
            }
        },
        OperationDetails::Rename { target, mode: _, value: _, search: _, replace: _ } => {
            match crate::pathfrag::sanitize_relative_path(target.as_str()) {
                Ok(key) => {
                    let missing = folders_missing(workspace, key.as_str());
                    if missing.len() > 0 {
                        let ghost m0 = messages@;
                        push_validation(
                            messages,
                            operation,
                            ValidationLevel::Error,
                            String::from_str("file to rename not found"),
                            None,
                            Some(missing),
                        );
                        proof {
                            lemma_warn_seg_push(m0, messages@, old(messages)@.len() as int, op_ids(*operation));
                            assert(messages@.take(m0.len() as int) =~= m0);
                        }
                    }
                },
                Err(e) => {
                    let ghost m0 = messages@;
                    push_validation(
                        messages,
                        operation,
                        ValidationLevel::Error,
                        String::from_str("invalid file path"),
                        Some(e.message().to_owned()),
                        None,
                    );
                    proof {
                        lemma_warn_seg_push(m0, messages@, old(messages)@.len() as int, op_ids(*operation));
                        assert(messages@.take(m0.len() as int) =~= m0);
                    }
                },
            }
        },
        OperationDetails::Mkdir { target, recursive: _, skip_if_exists } => {
            match crate::pathfrag::sanitize_relative_path(target.as_str()) {
                Ok(key) => {
                    if !*skip_if_exists {
                        let n = workspace.folders.len();
                        let mut already: Vec<String> = Vec::new();
                        let mut i: usize = 0;
                        while i < n
                            invariant
                                i <= n,
                                n == workspace.folders@.len(),
                            decreases n - i,
                        {
                            if workspace.folders[i].fs.exists_path(key.as_str()) {
                                already.push(workspace.folders[i].name.clone());
                            }
                            i = i + 1;
                        }
                        if already.len() > 0 {
                            let ghost m0 = messages@;
                            push_validation(
                                messages,
                                operation,
                                ValidationLevel::Info,
                                String::from_str("the folder already exists"),
                                None,
                                Some(already),
                            );
                            proof {
                                lemma_warn_seg_push(m0, messages@, old(messages)@.len() as int, op_ids(*operation));
                                assert(messages@.take(m0.len() as int) =~= m0);
                            }
                        }
                    }
                },
                Err(e) => {
                    let ghost m0 = messages@;
                    push_validation(
                        messages,
                        operation,
                        ValidationLevel::Error,
                        String::from_str("invalid folder path"),
                        Some(e.message().to_owned()),
                        None,
                    );
                    proof {
                        lemma_warn_seg_push(m0, messages@, old(messages)@.len() as int, op_ids(*operation));
                        assert(messages@.take(m0.len() as int) =~= m0);
                    }
                },
            }
        },
        OperationDetails::Python { inline_script, script_path, entry } => {
            match entry {
                PythonEntry::Inline => {
                    let blank = match inline_script {
                        Some(s) => {
                            let t = crate::text::trim_str(s.as_str());
                            t.as_str().unicode_len() == 0
                        },
                        None => true,
                    };
                    if blank {
                        let ghost m0 = messages@;
                        push_validation(
                            messages,
                            operation,
                            ValidationLevel::Error,
                            String::from_str("the inline script is empty"),
                            None,
                            None,
                        );
                        proof {
                            lemma_warn_seg_push(m0, messages@, old(messages)@.len() as int, op_ids(*operation));
                            assert(messages@.take(m0.len() as int) =~= m0);
                        }
                    } else {
                        match inline_script {
                            Some(script) => {
                                let externals = match crate::pyscan::detect_external_python_modules(
                                    script.as_str(),
                                ) {
                                    Some(v) => v,
                                    None => Vec::new(),
                                };
                                if externals.len() > 0 {
                                    let joined = join_comma(&externals);
                                    let ghost m0 = messages@;
                                    push_validation(
                                        messages,
                                        operation,
                                        ValidationLevel::Warning,
                                        String::from_str(
                                            "the script seems to use unsupported external modules",
                                        ),
                                        Some(joined),
                                        None,
                                    );
                                    proof {
                                        lemma_warn_seg_push(m0, messages@, old(messages)@.len() as int, op_ids(*operation));
                                        assert(messages@.take(m0.len() as int) =~= m0);
                                    }
                                }
                            },
                            None => {},
                        }
                    }
                },
                PythonEntry::File => {
                    let fragment = match script_path {
                        Some(p) => p.clone(),
                        None => String::new(),
                    };
                    let t = crate::text::trim_str(fragment.as_str());
                    if t.as_str().unicode_len() == 0 {
                        let ghost m0 = messages@;
                        push_validation(
                            messages,
                            operation,
                            ValidationLevel::Error,
                            String::from_str("the script path is empty"),
                            None,
                            None,
                        );
                        proof {
                            lemma_warn_seg_push(m0, messages@, old(messages)@.len() as int, op_ids(*operation));
                            assert(messages@.take(m0.len() as int) =~= m0);
                        }
                    } else {
                        match crate::pathfrag::sanitize_relative_path(fragment.as_str()) {
                            Ok(key) => {
                                let missing = folders_missing(workspace, key.as_str());
                                if missing.len() > 0 {
                                    let ghost m0 = messages@;
                                    push_validation(
                                        messages,
                                        operation,
                                        ValidationLevel::Error,
                                        String::from_str("script not found"),
                                        None,
                                        Some(missing),
                                    );
                                    proof {
                                        lemma_warn_seg_push(m0, messages@, old(messages)@.len() as int, op_ids(*operation));
                                        assert(messages@.take(m0.len() as int) =~= m0);
                                    }
                                }
                            },
                            Err(e) => {
                                let ghost m0 = messages@;
                                push_validation(
                                    messages,
                                    operation,
                                    ValidationLevel::Error,
                                    String::from_str("invalid script path"),
                                    Some(e.message().to_owned()),
                                    None,
                                );
                                proof {
                                    lemma_warn_seg_push(m0, messages@, old(messages)@.len() as int, op_ids(*operation));
                                    assert(messages@.take(m0.len() as int) =~= m0);
                                }
                            },
                        }
                    }
                },
            }
        },
        OperationDetails::If { test: _, then, else_branch } => {
            proof {
                lemma_all_if_subsets(*operation);
            }
            let ghost m_if = messages@;
            let n = then.len();
            let mut i: usize = 0;
            while i < n
                invariant
                    i <= n,
                    n == then@.len(),
                    messages@.len() >= old(messages)@.len(),
                    messages@.take(old(messages)@.len() as int) == old(messages)@,
                    warn_seg_ok(
                        messages@,
                        old(messages)@.len() as int,
                        ops_list_ids(then@),
                    ),
                    (operation.details matches OperationDetails::If {
                        test: _,
                        then: t2,
                        else_branch: _,
                    } && t2@ == then@),
                decreases n - i,
            {
                proof {
                    vstd::seq::axiom_seq_index_decreases(then@, i as int);
                    match &operation.details {
                        OperationDetails::If { test: _, then: t2, else_branch: _ } => {
                            assert(decreases_to!(*operation => t2@));
                        },
                        _ => {
                            assert(false);
                        },
                    }
                }
                let ghost m_b = messages@;
                validate_operation(workspace, &then[i], messages);
                proof {
                    lemma_all_list_member(then@, i as int);
                    lemma_warn_seg_compose(
                        messages@,
                        m_b,
                        old(messages)@.len() as int,
                        op_ids(then@[i as int]),
                        ops_list_ids(then@),
                    );
                    assert(messages@.take(old(messages)@.len() as int) =~= messages@.take(
                        m_b.len() as int,
                    ).take(old(messages)@.len() as int));
                }
                i = i + 1;
            }
            let ghost m_mid = messages@;
            match else_branch {
                Some(eb) => {
                    let m = eb.len();
                    let mut j: usize = 0;
                    while j < m
                        invariant
                            j <= m,
                            m == eb@.len(),
                            messages@.len() >= m_mid.len(),
                            messages@.take(m_mid.len() as int) == m_mid,
                            m_mid.len() >= old(messages)@.len(),
                            m_mid.take(old(messages)@.len() as int) == old(messages)@,
                            warn_seg_ok(m_mid, old(messages)@.len() as int, op_ids(*operation)),
                            warn_seg_ok(messages@, m_mid.len() as int, ops_list_ids(eb@)),
                            (operation.details matches OperationDetails::If {
                                test: _,
                                then: t2,
                                else_branch: e2,
                            } && e2 matches Some(eb2) && eb2@ == eb@),
                        decreases m - j,
                    {
                        proof {
                            vstd::seq::axiom_seq_index_decreases(eb@, j as int);
                            match &operation.details {
                                OperationDetails::If { test: _, then: _, else_branch: e2 } => {
                                    match e2 {
                                        Some(eb2) => {
                                            assert(decreases_to!(*operation => eb2@));
                                        },
                                        None => {
                                            assert(false);
                                        },
                                    }
                                },
                                _ => {
                                    assert(false);
                                },
                            }
                        }
                        let ghost m_b = messages@;
                        validate_operation(workspace, &eb[j], messages);
                        proof {
                            lemma_all_list_member(eb@, j as int);
                            lemma_warn_seg_compose(
                                messages@,
                                m_b,
                                m_mid.len() as int,
                                op_ids(eb@[j as int]),
                                ops_list_ids(eb@),
                            );
                            assert(messages@.take(m_mid.len() as int) =~= messages@.take(
                                m_b.len() as int,
                            ).take(m_mid.len() as int));
                        }
                        j = j + 1;
                    }
                    proof {
                        lemma_all_if_subsets(*operation);
                        lemma_warn_seg_compose(
                            messages@,
                            m_mid,
                            old(messages)@.len() as int,
                            ops_list_ids(eb@),
                            op_ids(*operation),
                        );
                        assert(messages@.take(old(messages)@.len() as int) =~= messages@.take(
                            m_mid.len() as int,
                        ).take(old(messages)@.len() as int));
                    }
                },
                None => {},
            }
        },
    }
}

/// Validates every top-level operation of a workflow against the workspace
/// model, collecting all messages in order. Every message carries an id
/// from the workflow's operation tree.
pub fn validate_workflow(workspace: &WorkspaceModel, workflow: &CommandeurWorkflow) -> (r: Vec<
    CommandeurValidationMessage,
>)
    ensures
        warn_seg_ok(r@, 0, ops_list_ids(workflow.operations@)),
{
    let mut messages: Vec<CommandeurValidationMessage> = Vec::new();
    let n = workflow.operations.len();
    let mut i: usize = 0;
    while i < n
        invariant
            i <= n,
            n == workflow.operations@.len(),
            warn_seg_ok(messages@, 0, ops_list_ids(workflow.operations@)),
        decreases n - i,
    {
        let ghost m_b = messages@;
        validate_operation(workspace, &workflow.operations[i], &mut messages);
        proof {
            lemma_all_list_member(workflow.operations@, i as int);
            lemma_warn_seg_compose(
                messages@,
                m_b,
                0,
                op_ids(workflow.operations@[i as int]),
                ops_list_ids(workflow.operations@),
            );
        }
        i = i + 1;
    }
    messages
}

} // verus!
