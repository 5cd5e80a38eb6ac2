use commandeur::conditions::{
    evaluate_condition_for_folder, is_operator_allowed, normalize_condition,
};
use commandeur::fsmodel::{FolderFs, FsNode};
use commandeur::model::{ConditionOperator, ConditionScope, ConditionSelector, ConditionTest};

fn file(path: &str) -> FsNode {
    FsNode { path: path.to_string(), is_dir: false, content: String::new() }
}

fn dir(path: &str) -> FsNode {
    FsNode { path: path.to_string(), is_dir: true, content: String::new() }
}

fn test_of(
    selector: Option<ConditionSelector>,
    operator: Option<ConditionOperator>,
    pattern: Option<&str>,
    value: Option<&str>,
    scope: Option<ConditionScope>,
    negate: bool,
) -> ConditionTest {
    ConditionTest {
        selector,
        operator,
        value: value.map(|s| s.to_string()),
        pattern: pattern.map(|s| s.to_string()),
        scope,
        exists: None,
        negate,
    }
}

// Wildcard matching: `*.txt` with the current-folder scope sees `a.txt` but
// not `sub/a.txt`; `**/*.txt` recursively sees both.
#[test]
fn wildcard_scope_current_folder_only_matches_top_level() {
    let fs = FolderFs { nodes: vec![file("a.txt"), dir("sub"), file("sub/a.txt")] };
    let top_only = test_of(
        Some(ConditionSelector::FileCount),
        Some(ConditionOperator::Equals),
        Some("*.txt"),
        Some("1"),
        Some(ConditionScope::CurrentFolder),
        false,
    );
    let ev = evaluate_condition_for_folder("f1", &top_only, &fs).expect("evaluate");
    assert!(ev.result, "only a.txt should match at the top: {}", ev.summary);

    let both = test_of(
        Some(ConditionSelector::FileCount),
        Some(ConditionOperator::Equals),
        Some("**/*.txt"),
        Some("2"),
        Some(ConditionScope::Recursive),
        false,
    );
    let ev = evaluate_condition_for_folder("f1", &both, &fs).expect("evaluate");
    assert!(ev.result, "both text files should match: {}", ev.summary);
}

#[test]
fn wildcard_search_misses_nested_file_in_current_scope() {
    let fs = FolderFs { nodes: vec![dir("sub"), file("sub/a.txt")] };
    let t = test_of(
        Some(ConditionSelector::FileSearch),
        Some(ConditionOperator::Exists),
        Some("*.txt"),
        None,
        Some(ConditionScope::CurrentFolder),
        false,
    );
    let ev = evaluate_condition_for_folder("f1", &t, &fs).expect("evaluate");
    assert!(!ev.result, "sub/a.txt must not match *.txt at the top");
}

// A file-count condition over two java files: greater-than zero holds, and
// negation flips it.
#[test]
fn file_count_greater_than_zero_over_two_java_files() {
    let fs = FolderFs { nodes: vec![file("A.java"), file("B.java"), file("notes.md")] };
    let t = test_of(
        Some(ConditionSelector::FileCount),
        Some(ConditionOperator::GreaterThan),
        Some("*.java"),
        Some("0"),
        Some(ConditionScope::CurrentFolder),
        false,
    );
    let ev = evaluate_condition_for_folder("f1", &t, &fs).expect("evaluate");
    assert!(ev.result);

    let negated = test_of(
        Some(ConditionSelector::FileCount),
        Some(ConditionOperator::GreaterThan),
        Some("*.java"),
        Some("0"),
        Some(ConditionScope::CurrentFolder),
        true,
    );
    let ev = evaluate_condition_for_folder("f1", &negated, &fs).expect("evaluate");
    assert!(!ev.result);
}

#[test]
fn folder_name_comparisons() {
    let fs = FolderFs { nodes: vec![] };
    let eq = test_of(
        Some(ConditionSelector::CurrentFolderName),
        Some(ConditionOperator::Equals),
        None,
        Some("alpha"),
        None,
        false,
    );
    assert!(evaluate_condition_for_folder("alpha", &eq, &fs).unwrap().result);
    assert!(!evaluate_condition_for_folder("beta", &eq, &fs).unwrap().result);

    let contains = test_of(
        Some(ConditionSelector::CurrentFolderName),
        Some(ConditionOperator::Contains),
        None,
        Some("lph"),
        None,
        false,
    );
    assert!(evaluate_condition_for_folder("alpha", &contains, &fs).unwrap().result);

    // The regular-expression comparison goes through the regex engine: a
    // match that echoes the input back unchanged could not satisfy both
    // assertions.
    let re = test_of(
        Some(ConditionSelector::CurrentFolderName),
        Some(ConditionOperator::Regex),
        None,
        Some("^a.*a$"),
        None,
        false,
    );
    assert!(evaluate_condition_for_folder("alpha", &re, &fs).unwrap().result);
    assert!(!evaluate_condition_for_folder("alpine", &re, &fs).unwrap().result);

    let bad = test_of(
        Some(ConditionSelector::CurrentFolderName),
        Some(ConditionOperator::Regex),
        None,
        Some("["),
        None,
        false,
    );
    assert!(evaluate_condition_for_folder("alpha", &bad, &fs).is_err());
}

#[test]
fn invalid_operator_falls_back_to_selector_default() {
    // GreaterThan is not allowed for a folder-name comparison, so the
    // normalized operator silently becomes Equals.
    let t = test_of(
        Some(ConditionSelector::CurrentFolderName),
        Some(ConditionOperator::GreaterThan),
        None,
        Some("x"),
        None,
        false,
    );
    let n = normalize_condition(&t);
    assert!(matches!(n.operator, ConditionOperator::Equals));
    assert!(!is_operator_allowed(
        ConditionSelector::CurrentFolderName,
        ConditionOperator::GreaterThan
    ));
}

#[test]
fn file_count_rejects_non_numeric_threshold() {
    let fs = FolderFs { nodes: vec![file("a.txt")] };
    let t = test_of(
        Some(ConditionSelector::FileCount),
        Some(ConditionOperator::Equals),
        Some("*.txt"),
        Some("many"),
        Some(ConditionScope::CurrentFolder),
        false,
    );
    assert!(evaluate_condition_for_folder("f1", &t, &fs).is_err());
}

#[test]
fn missing_search_pattern_is_an_error() {
    let fs = FolderFs { nodes: vec![] };
    let t = test_of(Some(ConditionSelector::FileSearch), None, None, None, None, false);
    assert!(evaluate_condition_for_folder("f1", &t, &fs).is_err());
}
