use vstd::prelude::*;
use vstd::string::StringExecFns;
use vstd::string::StrSliceExecFns;
use crate::model::{ConditionOperator, ConditionScope, ConditionSelector, ConditionTest};
use crate::text::spec_trim;
use crate::text::trim_str;
use crate::pathfrag::{spec_normalize_slashes, spec_sanitize_relative_path, PathError};
use crate::fsmodel::{FolderFs, FsNode, FsNodeView, spec_find_node};
use crate::regexes::{regex_valid, regex_matches, regex_is_match};

verus! {

/// A condition test with every optional field resolved: the selector
/// defaulted, the operator checked against the selector's allow-list (an
/// invalid pairing silently falls back to the selector's default), pattern
/// and value trimmed and defaulted, and the scope fixed for file-based
/// selectors.
pub struct NormalizedConditionTest {
    pub selector: ConditionSelector,
    pub operator: ConditionOperator,
    pub scope: Option<ConditionScope>,
    pub pattern: Option<String>,
    pub value: Option<String>,
    pub negate: bool,
}

/// The mathematical image of a normalized condition test.
pub struct NormalizedCondView {
    pub selector: ConditionSelector,
    pub operator: ConditionOperator,
    pub scope: Option<ConditionScope>,
    pub pattern: Option<Seq<char>>,
    pub value: Option<Seq<char>>,
    pub negate: bool,
}

impl View for NormalizedConditionTest {
    type V = NormalizedCondView;

    open spec fn view(&self) -> NormalizedCondView {
        NormalizedCondView {
            selector: self.selector,
            operator: self.operator,
            scope: self.scope,
            pattern: match self.pattern {
                Some(ref p) => Some(p@),
                None => None,
            },
            value: match self.value {
                Some(ref v) => Some(v@),
                None => None,
            },
            negate: self.negate,
        }
    }
}

/// A condition's outcome: the boolean that picks the branch, and a
/// human-readable account of what was tested.
pub struct ConditionEvaluation {
    pub result: bool,
    pub summary: String,
}

/// The operator a selector falls back to.
pub open spec fn spec_default_operator(selector: ConditionSelector) -> ConditionOperator {
    match selector {
        ConditionSelector::CurrentFolderName => ConditionOperator::Equals,
        ConditionSelector::FileSearch => ConditionOperator::Exists,
        ConditionSelector::FileCount => ConditionOperator::Equals,
    }
}

/// Which operators each selector accepts.
pub open spec fn spec_operator_allowed(
    selector: ConditionSelector,
    operator: ConditionOperator,
) -> bool {
    match selector {
        ConditionSelector::CurrentFolderName => operator is Equals || operator is Contains
            || operator is Regex,
        ConditionSelector::FileSearch => operator is Exists || operator is NotExists,
        ConditionSelector::FileCount => operator is Equals || operator is GreaterThan
            || operator is LessThan,
    }
}

pub fn default_operator_for_selector(selector: ConditionSelector) -> (r: ConditionOperator)
    ensures
        r == spec_default_operator(selector),
{
    match selector {
        ConditionSelector::CurrentFolderName => ConditionOperator::Equals,
        ConditionSelector::FileSearch => ConditionOperator::Exists,
        ConditionSelector::FileCount => ConditionOperator::Equals,
    }
}

pub fn is_operator_allowed(selector: ConditionSelector, operator: ConditionOperator) -> (r: bool)
    ensures
        r == spec_operator_allowed(selector, operator),
{
    match selector {
        ConditionSelector::CurrentFolderName => matches!(
            operator,
            ConditionOperator::Equals | ConditionOperator::Contains | ConditionOperator::Regex
        ),
        ConditionSelector::FileSearch => matches!(
            operator,
            ConditionOperator::Exists | ConditionOperator::NotExists
        ),
        ConditionSelector::FileCount => matches!(
            operator,
            ConditionOperator::Equals | ConditionOperator::GreaterThan
                | ConditionOperator::LessThan
        ),
    }
}

/// An optional string, trimmed, with a blank result dropped.
pub open spec fn spec_norm_opt(v: Option<Seq<char>>) -> Option<Seq<char>> {
    match v {
        Some(s) => if spec_trim(s).len() == 0 {
            None
        } else {
            Some(spec_trim(s))
        },
        None => None,
    }
}

pub open spec fn spec_opt_str_view(o: Option<String>) -> Option<Seq<char>> {
    match o {
        Some(s) => Some(s@),
        None => None,
    }
}

/// Trims an optional string, dropping it entirely when blank.
pub fn normalize_optional_string(value: &Option<String>) -> (r: Option<String>)
    ensures
        spec_opt_str_view(r) == spec_norm_opt(spec_opt_str_view(*value)),
{
    match value {
        Some(s) => {
            let t = trim_str(s.as_str());
            if t.as_str().unicode_len() == 0 {
                None
            } else {
                Some(t)
            }
        },
        None => None,
    }
}

/// The raw comparison outcome flipped when the test asks for negation.
pub fn apply_negate(value: bool, negate: bool) -> (r: bool)
    ensures
        r == (value != negate),
{
    if negate {
        !value
    } else {
        value
    }
}

/// What normalization produces from a raw condition test.
pub open spec fn spec_normalize_condition(t: ConditionTest) -> NormalizedCondView {
    let selector = match t.selector {
        Some(s) => s,
        None => ConditionSelector::FileSearch,
    };
    let operator = match t.operator {
        Some(op) => if spec_operator_allowed(selector, op) {
            op
        } else {
            spec_default_operator(selector)
        },
        None => spec_default_operator(selector),
    };
    let legacy = spec_norm_opt(spec_opt_str_view(t.exists));
    let pattern = match selector {
        ConditionSelector::FileSearch | ConditionSelector::FileCount => match spec_norm_opt(
            spec_opt_str_view(t.pattern),
        ) {
            Some(p) => Some(p),
            None => legacy,
        },
        _ => spec_norm_opt(spec_opt_str_view(t.pattern)),
    };
    let value = match selector {
        ConditionSelector::CurrentFolderName => Some(
            match t.value {
                Some(v) => v@,
                None => Seq::empty(),
            },
        ),
        ConditionSelector::FileCount => Some(
            match spec_norm_opt(spec_opt_str_view(t.value)) {
                Some(v) => v,
                None => "0"@,
            },
        ),
        _ => spec_norm_opt(spec_opt_str_view(t.value)),
    };
    let scope = match selector {
        ConditionSelector::FileSearch | ConditionSelector::FileCount => Some(
            match t.scope {
                Some(s) => s,
                None => ConditionScope::CurrentFolder,
            },
        ),
        _ => None,
    };
    NormalizedCondView { selector, operator, scope, pattern, value, negate: t.negate }
}

/// Resolves a raw condition test's defaults and fallback rules; see
/// `spec_normalize_condition`.
pub fn normalize_condition(test: &ConditionTest) -> (r: NormalizedConditionTest)
    ensures
        r@ == spec_normalize_condition(*test),
{
    let selector = match test.selector {
        Some(s) => s,
        None => ConditionSelector::FileSearch,
    };
    let default_op = default_operator_for_selector(selector);
    let operator = match test.operator {
        Some(op) => if is_operator_allowed(selector, op) {
            op
        } else {
            default_op
        },
        None => default_op,
    };
    let legacy = normalize_optional_string(&test.exists);
    let trimmed_pattern = normalize_optional_string(&test.pattern);
    let pattern = match selector {
        ConditionSelector::FileSearch | ConditionSelector::FileCount => match trimmed_pattern {
            Some(p) => Some(p),
            None => legacy,
        },
        _ => trimmed_pattern,
    };
    let value = match selector {
        ConditionSelector::CurrentFolderName => Some(
            match &test.value {
                Some(v) => v.clone(),
                None => String::new(),
            },
        ),
        ConditionSelector::FileCount => Some(
            match normalize_optional_string(&test.value) {
                Some(v) => v,
                None => String::from_str("0"),
            },
        ),
        _ => normalize_optional_string(&test.value),
    };
    let scope = match selector {
        ConditionSelector::FileSearch | ConditionSelector::FileCount => Some(
            match test.scope {
                Some(s) => s,
                None => ConditionScope::CurrentFolder,
            },
        ),
        _ => None,
    };
    NormalizedConditionTest { selector, operator, scope, pattern, value, negate: test.negate }
}

/// Why a condition could not be evaluated.
#[derive(Clone, Copy, PartialEq, Eq, Structural, Debug)]
pub enum CondError {
    MissingPattern,
    InvalidRegex,
    InvalidThreshold,
    InvalidPath(PathError),
}

/// The wording each condition error is reported with.
pub open spec fn spec_cond_error_message(e: CondError) -> Seq<char> {
    match e {
        CondError::MissingPattern => "search pattern is missing"@,
        CondError::InvalidRegex => "invalid regular expression"@,
        CondError::InvalidThreshold => "invalid comparison value"@,
        CondError::InvalidPath(p) => crate::pathfrag::spec_path_error_message(p),
    }
}

impl CondError {
    /// A short description, used when the failure is reported.
    pub fn message(&self) -> (r: &'static str)
        ensures
            r@ == spec_cond_error_message(*self),
    {
        match self {
            CondError::MissingPattern => "search pattern is missing",
            CondError::InvalidRegex => "invalid regular expression",
            CondError::InvalidThreshold => "invalid comparison value",
            CondError::InvalidPath(e) => e.message(),
        }
    }
}

/// The characters the regex crate treats as meta characters, which a
/// literal must escape.
pub open spec fn spec_regex_meta(c: char) -> bool {
    c == '\\' || c == '.' || c == '+' || c == '*' || c == '?' || c == '(' || c == ')' || c == '|'
        || c == '[' || c == ']' || c == '{' || c == '}' || c == '^' || c == '$' || c == '#' || c
        == '&' || c == '-' || c == '~'
}

fn is_regex_meta(c: char) -> (r: bool)
    ensures
        r == spec_regex_meta(c),
{
    c == '\\' || c == '.' || c == '+' || c == '*' || c == '?' || c == '(' || c == ')' || c == '|'
        || c == '[' || c == ']' || c == '{' || c == '}' || c == '^' || c == '$' || c == '#' || c
        == '&' || c == '-' || c == '~'
}

/// One literal character as regex source text.
pub open spec fn spec_escape_char(c: char) -> Seq<char> {
    if spec_regex_meta(c) {
        seq!['\\', c]
    } else {
        seq![c]
    }
}

/// How many `*` characters lead the sequence.
pub open spec fn spec_leading_stars(s: Seq<char>) -> nat
    decreases s.len(),
{
    if s.len() > 0 && s[0] == '*' {
        1 + spec_leading_stars(s.drop_first())
    } else {
        0
    }
}

pub proof fn lemma_leading_stars_bounds(s: Seq<char>)
    ensures
        spec_leading_stars(s) <= s.len(),
        s.len() > 0 && s[0] == '*' ==> spec_leading_stars(s) >= 1,
    decreases s.len(),
{
    if s.len() > 0 && s[0] == '*' {
        lemma_leading_stars_bounds(s.drop_first());
    }
}

/// The regex body a wildcard pattern turns into: a run of stars crosses
/// path segments (`**/` makes the whole directory part optional, so the
/// pattern also matches at the top), a single star stays within one
/// segment, `?` becomes one non-slash character, backslashes become
/// slashes, everything else is escaped literally.
pub open spec fn spec_wild_body(s: Seq<char>) -> Seq<char>
    decreases s.len(),
    via spec_wild_body_decreases
{
    if s.len() == 0 {
        Seq::empty()
    } else if s[0] == '*' {
        let run = spec_leading_stars(s);
        if run >= 2 && run < s.len() && s[run as int] == '/' {
            "(.*/)?"@ + spec_wild_body(s.skip(run + 1 as int))
        } else if run >= 2 {
            ".*"@ + spec_wild_body(s.skip(run as int))
        } else {
            "[^/]*"@ + spec_wild_body(s.skip(run as int))
        }
    } else if s[0] == '?' {
        "[^/]"@ + spec_wild_body(s.drop_first())
    } else if s[0] == '/' || s[0] == '\\' {
        seq!['/'] + spec_wild_body(s.drop_first())
    } else {
        spec_escape_char(s[0]) + spec_wild_body(s.drop_first())
    }
}

#[via_fn]
proof fn spec_wild_body_decreases(s: Seq<char>) {
    lemma_leading_stars_bounds(s);
}

/// The full anchored regex for a wildcard pattern.
pub open spec fn spec_wildcard_regex(p: Seq<char>) -> Seq<char> {
    seq!['^'] + spec_wild_body(p) + seq!['$']
}

/// Translates a wildcard pattern into an anchored path-segment regex; see
/// `spec_wildcard_regex`.
pub fn wildcard_to_regex(pattern: &Vec<char>) -> (r: Vec<char>)
    ensures
        r@ == spec_wildcard_regex(pattern@),
{
    let n = pattern.len();
    let mut out: Vec<char> = Vec::new();
    out.push('^');
    let mut i: usize = 0;
    proof {
        assert(out@ =~= seq!['^']);
        assert(pattern@.skip(0) =~= pattern@);
    }
    while i < n
        invariant
            i <= n,
            n == pattern@.len(),
            out@ + spec_wild_body(pattern@.skip(i as int)) == seq!['^'] + spec_wild_body(
                pattern@,
            ),
        decreases n - i,
    {
        let ghost tail = pattern@.skip(i as int);
        let ghost out0 = out@;
        let c = pattern[i];
        assert(c == tail[0]);
        if c == '*' {
            let mut j: usize = i;
            while j < n && pattern[j] == '*'
                invariant
                    i <= j <= n,
                    n == pattern@.len(),
                    tail == pattern@.skip(i as int),
                    spec_leading_stars(tail) == (j - i) + spec_leading_stars(
                        pattern@.skip(j as int),
                    ),
                decreases n - j,
            {
                proof {
                    assert(pattern@.skip(j as int)[0] == pattern@[j as int]);
                    assert(pattern@.skip(j as int).drop_first() =~= pattern@.skip(j + 1 as int));
                }
                j = j + 1;
            }
            proof {
                if j < n {
                    assert(pattern@.skip(j as int)[0] == pattern@[j as int]);
                } else {
                    assert(pattern@.skip(j as int) =~= Seq::<char>::empty());
                }
                assert(spec_leading_stars(pattern@.skip(j as int)) == 0);
                assert(spec_leading_stars(tail) == j - i);
                assert(tail.skip((j - i) as int) =~= pattern@.skip(j as int));
            }
            if j - i >= 2 && j < n && pattern[j] == '/' {
                out.push('(');
                out.push('.');
                out.push('*');
                out.push('/');
                out.push(')');
                out.push('?');
                proof {
                    reveal_strlit("(.*/)?");
                    assert(out@ =~= out0 + "(.*/)?"@);
                    assert(tail.skip((j - i) + 1 as int) =~= pattern@.skip(j + 1 as int));
                    assert(out0 + spec_wild_body(tail) =~= out@ + spec_wild_body(
                        pattern@.skip(j + 1 as int),
                    ));
                }
                i = j + 1;
            } else if j - i >= 2 {
                out.push('.');
                out.push('*');
                proof {
                    reveal_strlit(".*");
                    assert(out@ =~= out0 + ".*"@);
                }
                proof {
                    assert(out0 + spec_wild_body(tail) =~= out@ + spec_wild_body(
                        pattern@.skip(j as int),
                    ));
                }
                i = j;
            } else {
                out.push('[');
                out.push('^');
                out.push('/');
                out.push(']');
                out.push('*');
                proof {
                    reveal_strlit("[^/]*");
                    assert(out@ =~= out0 + "[^/]*"@);
                }
                proof {
                    assert(out0 + spec_wild_body(tail) =~= out@ + spec_wild_body(
                        pattern@.skip(j as int),
                    ));
                }
                i = j;
            }
        } else {
            proof {
                assert(tail.drop_first() =~= pattern@.skip(i + 1 as int));
            }
            if c == '?' {
                out.push('[');
                out.push('^');
                out.push('/');
                out.push(']');
                proof {
                    reveal_strlit("[^/]");
                    assert(out@ =~= out0 + "[^/]"@);
                }
            } else if c == '/' || c == '\\' {
                out.push('/');
                proof {
                    assert(out@ =~= out0 + seq!['/']);
                }
            } else {
                if is_regex_meta(c) {
                    out.push('\\');
                    out.push(c);
                    proof {
                        assert(out@ =~= out0 + seq!['\\', c]);
                    }
                } else {
                    out.push(c);
                    proof {
                        assert(out@ =~= out0 + seq![c]);
                    }
                }
            }
            proof {
                assert(out0 + spec_wild_body(tail) =~= out@ + spec_wild_body(
                    pattern@.skip(i + 1 as int),
                ));
            }
            i = i + 1;
        }
    }
    proof {
        assert(pattern@.skip(n as int) =~= Seq::<char>::empty());
        assert(spec_wild_body(pattern@.skip(n as int)) =~= Seq::<char>::empty());
        assert(out@ =~= seq!['^'] + spec_wild_body(pattern@));
    }
    out.push('$');
    proof {
        assert(out@ =~= spec_wildcard_regex(pattern@));
    }
    out
}

/// How many non-empty slash-separated segments a path has.
pub open spec fn spec_seg_count(p: Seq<char>) -> nat {
    crate::text::spec_split_char(p, '/').filter(|s: Seq<char>| s.len() > 0).len()
}

/// How deep a "current folder" search may look: the number of path
/// segments the pattern implies, at least one.
pub open spec fn spec_depth_hint(p: Seq<char>) -> nat {
    if spec_seg_count(p) == 0 {
        1
    } else {
        spec_seg_count(p)
    }
}

/// The number of non-empty slash-separated segments.
pub fn seg_count(v: &Vec<char>) -> (r: usize)
    ensures
        r == spec_seg_count(v@),
{
    let parts = crate::text::split_char(v, '/');
    let n = parts.len();
    let mut count: usize = 0;
    let mut i: usize = 0;
    proof {
        assert(crate::text::views(parts@).take(0) =~= Seq::<Seq<char>>::empty());
        assert(Seq::<Seq<char>>::empty().filter(|s: Seq<char>| s.len() > 0)
            =~= Seq::<Seq<char>>::empty());
    }
    while i < n
        invariant
            i <= n,
            n == parts@.len(),
            crate::text::views(parts@) == crate::text::spec_split_char(v@, '/'),
            count == crate::text::views(parts@).take(i as int).filter(
                |s: Seq<char>| s.len() > 0,
            ).len(),
            count <= i,
        decreases n - i,
    {
        proof {
            reveal(Seq::filter);
            assert(crate::text::views(parts@).take(i + 1 as int).drop_last()
                =~= crate::text::views(parts@).take(i as int));
            assert(crate::text::views(parts@).take(i + 1 as int).last()
                == crate::text::views(parts@)[i as int]);
            assert(crate::text::views(parts@)[i as int] == parts@[i as int]@);
        }
        if parts[i].len() > 0 {
            count = count + 1;
        }
        i = i + 1;
    }
    proof {
        assert(crate::text::views(parts@).take(n as int) =~= crate::text::views(parts@));
    }
    count
}

/// The depth limit a pattern implies; see `spec_depth_hint`.
pub fn depth_hint(pattern: &Vec<char>) -> (r: usize)
    ensures
        r == spec_depth_hint(pattern@),
{
    let c = seg_count(pattern);
    if c == 0 {
        1
    } else {
        c
    }
}

/// Whether a pattern holds a wildcard character.
pub open spec fn spec_has_wildcard(p: Seq<char>) -> bool {
    exists|i: int| 0 <= i < p.len() && (p[i] == '*' || p[i] == '?')
}

fn has_wildcard(v: &Vec<char>) -> (r: bool)
    ensures
        r == spec_has_wildcard(v@),
{
    let n = v.len();
    let mut i: usize = 0;
    while i < n
        invariant
            i <= n,
            n == v@.len(),
            forall|j: int| 0 <= j < i ==> !(v@[j] == '*' || v@[j] == '?'),
        decreases n - i,
    {
        if v[i] == '*' || v[i] == '?' {
            return true;
        }
        i = i + 1;
    }
    false
}

/// Whether a node survives the wildcard match: within the depth limit (for
/// a current-folder search) and matched by the pattern's regex.
pub open spec fn spec_keep_match(
    n: FsNodeView,
    np: Seq<char>,
    scope: ConditionScope,
) -> bool {
    (scope is Recursive || spec_seg_count(n.path) <= spec_depth_hint(np)) && regex_matches(
        spec_wildcard_regex(np),
        false,
        false,
        false,
        false,
        n.path,
    )
}

/// What a search pattern matches in a folder: without wildcards, the single
/// sanitized path if something stands there; with wildcards, every node
/// whose relative path the pattern's regex matches, depth-limited for a
/// current-folder scope.
pub open spec fn spec_collect_matches(
    v: Seq<FsNodeView>,
    pattern: Seq<char>,
    scope: ConditionScope,
) -> Result<Seq<FsNodeView>, CondError> {
    let np = spec_normalize_slashes(pattern);
    if !spec_has_wildcard(np) {
        match spec_sanitize_relative_path(np) {
            Err(e) => Err(CondError::InvalidPath(e)),
            Ok(k) => match spec_find_node(v, k) {
                Some(n) => Ok(seq![n]),
                None => Ok(Seq::empty()),
            },
        }
    } else {
        if !regex_valid(spec_wildcard_regex(np), false, false, false, false) {
            Err(CondError::InvalidRegex)
        } else {
            Ok(v.filter(|n: FsNodeView| spec_keep_match(n, np, scope)))
        }
    }
}

/// Collects what `pattern` matches in the folder; see
/// `spec_collect_matches`.
pub fn collect_matches(fs: &FolderFs, pattern: &str, scope: ConditionScope) -> (r: Result<
    Vec<FsNode>,
    CondError,
>)
    ensures
        match r {
            Ok(ms) => spec_collect_matches(fs@, pattern@, scope) == Ok::<_, CondError>(
                ms@.map_values(|n: FsNode| n@),
            ),
            Err(e) => spec_collect_matches(fs@, pattern@, scope) == Err::<Seq<FsNodeView>, _>(e),
        },
{
    let pv = crate::text::chars_of(pattern);
    let npv = {
        let n = pv.len();
        let mut out: Vec<char> = Vec::new();
        let mut i: usize = 0;
        while i < n
            invariant
                i <= n,
                n == pv@.len(),
                out@ == spec_normalize_slashes(pv@.subrange(0, i as int)),
            decreases n - i,
        {
            if pv[i] == '\\' {
                out.push('/');
            } else {
                out.push(pv[i]);
            }
            assert(out@ =~= spec_normalize_slashes(pv@.subrange(0, i + 1 as int)));
            i = i + 1;
        }
        assert(out@ =~= spec_normalize_slashes(pv@));
        out
    };
    let ghost np = spec_normalize_slashes(pattern@);
    let nps = crate::text::string_from_chars(&npv);
    if !has_wildcard(&npv) {
        match crate::pathfrag::sanitize_relative_path(nps.as_str()) {
            Err(e) => Err(CondError::InvalidPath(e)),
            Ok(k) => {
                match fs.find_index(k.as_str()) {
                    Some(i) => {
                        let node = &fs.nodes[i];
                        let mut out: Vec<FsNode> = Vec::new();
                        out.push(
                            FsNode {
                                path: node.path.clone(),
                                is_dir: node.is_dir,
                                content: node.content.clone(),
                            },
                        );
                        proof {
                            assert(out@.map_values(|n: FsNode| n@) =~= seq![fs@[i as int]]);
                        }
                        Ok(out)
                    },
                    None => {
                        let out: Vec<FsNode> = Vec::new();
                        proof {
                            assert(out@.map_values(|n: FsNode| n@)
                                =~= Seq::<FsNodeView>::empty());
                        }
                        Ok(out)
                    },
                }
            },
        }
    } else {
        let rx = wildcard_to_regex(&npv);
        let rxs = crate::text::string_from_chars(&rx);
        match regex_is_match(rxs.as_str(), false, false, false, false, "") {
            None => {
                return Err(CondError::InvalidRegex);
            },
            Some(_) => {},
        }
        let limit = depth_hint(&npv);
        let n = fs.nodes.len();
        let mut out: Vec<FsNode> = Vec::new();
        let mut i: usize = 0;
        proof {
            assert(fs@.take(0) =~= Seq::<FsNodeView>::empty());
            assert(Seq::<FsNodeView>::empty().filter(
                |n: FsNodeView| spec_keep_match(n, np, scope),
            ) =~= Seq::<FsNodeView>::empty());
            assert(out@.map_values(|n: FsNode| n@) =~= Seq::<FsNodeView>::empty());
        }
        while i < n
            invariant
                i <= n,
                n == fs.nodes@.len(),
                np == spec_normalize_slashes(pattern@),
                npv@ == np,
                rxs@ == spec_wildcard_regex(np),
                limit == spec_depth_hint(np),
                regex_valid(spec_wildcard_regex(np), false, false, false, false),
                out@.map_values(|n: FsNode| n@) =~= fs@.take(i as int).filter(
                    |n: FsNodeView| spec_keep_match(n, np, scope),
                ),
            decreases n - i,
        {
            proof {
                reveal(Seq::filter);
                assert(fs@.take(i + 1 as int).drop_last() =~= fs@.take(i as int));
                assert(fs@.take(i + 1 as int).last() == fs@[i as int]);
            }
            let node = &fs.nodes[i];
            let path_chars = crate::text::chars_of(node.path.as_str());
            let depth_ok = match scope {
                ConditionScope::Recursive => true,
                ConditionScope::CurrentFolder => seg_count(&path_chars) <= limit,
            };
            let keep: bool = if depth_ok {
                match regex_is_match(rxs.as_str(), false, false, false, false, node.path.as_str()) {
                    Some(b) => b,
                    None => {
                        proof {
                            assert(false);
                        }
                        false
                    },
                }
            } else {
                false
            };
            assert(keep == spec_keep_match(fs@[i as int], np, scope));
            if keep {
                out.push(
                    FsNode {
                        path: node.path.clone(),
                        is_dir: node.is_dir,
                        content: node.content.clone(),
                    },
                );
                proof {
                    assert(out@.map_values(|n: FsNode| n@) =~= fs@.take(i as int).filter(
                        |n: FsNodeView| spec_keep_match(n, np, scope),
                    ).push(fs@[i as int]));
                }
            }
            i = i + 1;
        }
        proof {
            assert(fs@.take(n as int) =~= fs@);
        }
        Ok(out)
    }
}

pub open spec fn spec_scope_label(s: ConditionScope) -> Seq<char> {
    match s {
        ConditionScope::CurrentFolder => "current folder"@,
        ConditionScope::Recursive => "subfolders included"@,
    }
}

pub fn scope_label(s: ConditionScope) -> (r: &'static str)
    ensures
        r@ == spec_scope_label(s),
{
    match s {
        ConditionScope::CurrentFolder => "current folder",
        ConditionScope::Recursive => "subfolders included",
    }
}

pub open spec fn spec_truth_label(b: bool) -> Seq<char> {
    if b {
        "true"@
    } else {
        "false"@
    }
}

pub fn truth_label(b: bool) -> (r: &'static str)
    ensures
        r@ == spec_truth_label(b),
{
    if b {
        "true"
    } else {
        "false"
    }
}

pub open spec fn spec_negate_suffix(negate: bool) -> Seq<char> {
    if negate {
        " (negation)"@
    } else {
        ""@
    }
}

pub fn negate_suffix(negate: bool) -> (r: &'static str)
    ensures
        r@ == spec_negate_suffix(negate),
{
    if negate {
        " (negation)"
    } else {
        ""
    }
}

pub open spec fn spec_operator_phrase(op: ConditionOperator) -> Seq<char> {
    match op {
        ConditionOperator::Equals => "must equal"@,
        ConditionOperator::Contains => "must contain"@,
        ConditionOperator::Regex => "must match the regex"@,
        _ => "unsupported operator"@,
    }
}

pub fn operator_phrase_for_folder(op: ConditionOperator) -> (r: &'static str)
    ensures
        r@ == spec_operator_phrase(op),
{
    match op {
        ConditionOperator::Equals => "must equal",
        ConditionOperator::Contains => "must contain",
        ConditionOperator::Regex => "must match the regex",
        _ => "unsupported operator",
    }
}

pub open spec fn spec_operator_symbol(op: ConditionOperator) -> Seq<char> {
    match op {
        ConditionOperator::Equals => "="@,
        ConditionOperator::GreaterThan => ">"@,
        ConditionOperator::LessThan => "<"@,
        _ => "?"@,
    }
}

pub fn operator_symbol(op: ConditionOperator) -> (r: &'static str)
    ensures
        r@ == spec_operator_symbol(op),
{
    match op {
        ConditionOperator::Equals => "=",
        ConditionOperator::GreaterThan => ">",
        ConditionOperator::LessThan => "<",
        _ => "?",
    }
}

/// The mathematical image of a condition's outcome.
pub struct CondOutcomeView {
    pub result: bool,
    pub summary: Seq<char>,
}

impl View for ConditionEvaluation {
    type V = CondOutcomeView;

    open spec fn view(&self) -> CondOutcomeView {
        CondOutcomeView { result: self.result, summary: self.summary@ }
    }
}

pub open spec fn spec_summary_current_folder(
    folder: Seq<char>,
    op: ConditionOperator,
    value: Seq<char>,
    result: bool,
    negate: bool,
) -> Seq<char> {
    "Folder name ("@ + folder + ") "@ + spec_operator_phrase(op) + " \""@ + value + "\" => "@
        + spec_truth_label(result) + spec_negate_suffix(negate)
}

pub open spec fn spec_summary_file_search(
    pattern: Seq<char>,
    scope: ConditionScope,
    count: nat,
    result: bool,
    negate: bool,
) -> Seq<char> {
    "File search \""@ + pattern + "\" (scope: "@ + spec_scope_label(scope) + ") -> "@
        + crate::text::spec_u64_digits(count) + " match(es), result "@ + spec_truth_label(result)
        + spec_negate_suffix(negate)
}

pub open spec fn spec_summary_file_count(
    pattern: Seq<char>,
    scope: ConditionScope,
    count: nat,
    op: ConditionOperator,
    threshold: int,
    result: bool,
    negate: bool,
) -> Seq<char> {
    "File count \""@ + pattern + "\" (scope: "@ + spec_scope_label(scope) + ") -> "@
        + crate::text::spec_u64_digits(count) + ", compared "@ + spec_operator_symbol(op) + " "@
        + crate::text::spec_i64_digits(threshold) + ", result "@ + spec_truth_label(result)
        + spec_negate_suffix(negate)
}

/// What evaluating a folder-name condition yields.
pub open spec fn spec_eval_current_folder(folder: Seq<char>, nt: NormalizedCondView) -> Result<
    CondOutcomeView,
    CondError,
> {
    let value = match nt.value {
        Some(v) => v,
        None => Seq::empty(),
    };
    if nt.operator is Regex && spec_trim(value).len() > 0 && !regex_valid(
        value,
        false,
        false,
        false,
        false,
    ) {
        Err(CondError::InvalidRegex)
    } else {
        let raw = match nt.operator {
            ConditionOperator::Equals => folder == value,
            ConditionOperator::Contains => crate::text::spec_contains_seq(folder, value),
            ConditionOperator::Regex => if spec_trim(value).len() == 0 {
                false
            } else {
                regex_matches(value, false, false, false, false, folder)
            },
            _ => false,
        };
        let fin = raw != nt.negate;
        Ok(
            CondOutcomeView {
                result: fin,
                summary: spec_summary_current_folder(folder, nt.operator, value, fin, nt.negate),
            },
        )
    }
}

/// What evaluating a file-search condition yields.
pub open spec fn spec_eval_file_search(v: Seq<FsNodeView>, nt: NormalizedCondView) -> Result<
    CondOutcomeView,
    CondError,
> {
    match nt.pattern {
        None => Err(CondError::MissingPattern),
        Some(pattern) => {
            let scope = match nt.scope {
                Some(s) => s,
                None => ConditionScope::CurrentFolder,
            };
            match spec_collect_matches(v, pattern, scope) {
                Err(e) => Err(e),
                Ok(ms) => {
                    let raw = match nt.operator {
                        ConditionOperator::Exists => ms.len() > 0,
                        ConditionOperator::NotExists => ms.len() == 0,
                        _ => false,
                    };
                    let fin = raw != nt.negate;
                    Ok(
                        CondOutcomeView {
                            result: fin,
                            summary: spec_summary_file_search(
                                pattern,
                                scope,
                                ms.len(),
                                fin,
                                nt.negate,
                            ),
                        },
                    )
                },
            }
        },
    }
}

/// What evaluating a file-count condition yields.
pub open spec fn spec_eval_file_count(v: Seq<FsNodeView>, nt: NormalizedCondView) -> Result<
    CondOutcomeView,
    CondError,
> {
    let pattern = match nt.pattern {
        Some(p) => p,
        None => "*"@,
    };
    let scope = match nt.scope {
        Some(s) => s,
        None => ConditionScope::CurrentFolder,
    };
    match spec_collect_matches(v, pattern, scope) {
        Err(e) => Err(e),
        Ok(ms) => {
            let count = ms.filter(|n: FsNodeView| !n.is_dir).len();
            let tstr = match nt.value {
                Some(x) => x,
                None => "0"@,
            };
            match crate::text::spec_parse_i64(tstr) {
                None => Err(CondError::InvalidThreshold),
                Some(th) => {
                    let raw = match nt.operator {
                        ConditionOperator::Equals => count == th,
                        ConditionOperator::GreaterThan => count > th,
                        ConditionOperator::LessThan => count < th,
                        _ => false,
                    };
                    let fin = raw != nt.negate;
                    Ok(
                        CondOutcomeView {
                            result: fin,
                            summary: spec_summary_file_count(
                                pattern,
                                scope,
                                count,
                                nt.operator,
                                th,
                                fin,
                                nt.negate,
                            ),
                        },
                    )
                },
            }
        },
    }
}

/// What evaluating a raw condition test against a folder yields: the test
/// is normalized, then judged by its selector.
pub open spec fn spec_evaluate_condition(
    folder: Seq<char>,
    t: ConditionTest,
    v: Seq<FsNodeView>,
) -> Result<CondOutcomeView, CondError> {
    let nt = spec_normalize_condition(t);
    match nt.selector {
        ConditionSelector::CurrentFolderName => spec_eval_current_folder(folder, nt),
        ConditionSelector::FileSearch => spec_eval_file_search(v, nt),
        ConditionSelector::FileCount => spec_eval_file_count(v, nt),
    }
}

/// Evaluates a folder-name condition; see `spec_eval_current_folder`.
pub fn evaluate_current_folder(folder: &str, nt: &NormalizedConditionTest) -> (r: Result<
    ConditionEvaluation,
    CondError,
>)
    ensures
        match r {
            Ok(ev) => spec_eval_current_folder(folder@, nt@) == Ok::<_, CondError>(ev@),
            Err(e) => spec_eval_current_folder(folder@, nt@) == Err::<CondOutcomeView, _>(e),
        },
{
    let value: String = match &nt.value {
        Some(v) => v.clone(),
        None => String::new(),
    };
    let fv = crate::text::chars_of(folder);
    let vv = crate::text::chars_of(value.as_str());
    let raw: bool = match nt.operator {
        ConditionOperator::Equals => crate::text::chars_eq(&fv, &vv),
        ConditionOperator::Contains => crate::text::contains_seq(&fv, &vv),
        ConditionOperator::Regex => {
            let trimmed = crate::text::trim_chars(&vv);
            if trimmed.len() == 0 {
                false
            } else {
                match regex_is_match(value.as_str(), false, false, false, false, folder) {
                    Some(b) => b,
                    None => {
                        return Err(CondError::InvalidRegex);
                    },
                }
            }
        },
        _ => false,
    };
    let fin = apply_negate(raw, nt.negate);
    let mut s = String::from_str("Folder name (");
    s.append(folder);
    s.append(") ");
    s.append(operator_phrase_for_folder(nt.operator));
    s.append(" \"");
    s.append(value.as_str());
    s.append("\" => ");
    s.append(truth_label(fin));
    s.append(negate_suffix(nt.negate));
    proof {
        assert(s@ =~= spec_summary_current_folder(folder@, nt.operator, value@, fin, nt.negate));
    }
    Ok(ConditionEvaluation { result: fin, summary: s })
}

/// Counts the file (non-directory) entries of a match list.
fn count_files(ms: &Vec<FsNode>) -> (r: usize)
    ensures
        r == ms@.map_values(|n: FsNode| n@).filter(|n: FsNodeView| !n.is_dir).len(),
{
    let n = ms.len();
    let ghost vs = ms@.map_values(|n: FsNode| n@);
    let mut count: usize = 0;
    let mut i: usize = 0;
    proof {
        reveal(Seq::filter);
        assert(vs.take(0) =~= Seq::<FsNodeView>::empty());
    }
    while i < n
        invariant
            i <= n,
            n == ms@.len(),
            vs == ms@.map_values(|n: FsNode| n@),
            count == vs.take(i as int).filter(|n: FsNodeView| !n.is_dir).len(),
            count <= i,
        decreases n - i,
    {
        proof {
            reveal(Seq::filter);
            assert(vs.take(i + 1 as int).drop_last() =~= vs.take(i as int));
            assert(vs.take(i + 1 as int).last() == vs[i as int]);
        }
        if !ms[i].is_dir {
            count = count + 1;
        }
        i = i + 1;
    }
    proof {
        assert(vs.take(n as int) =~= vs);
    }
    count
}

/// Evaluates a file-search condition over the folder's modelled tree; see
/// `spec_eval_file_search`.
pub fn evaluate_file_search(fs: &FolderFs, nt: &NormalizedConditionTest) -> (r: Result<
    ConditionEvaluation,
    CondError,
>)
    ensures
        match r {
            Ok(ev) => spec_eval_file_search(fs@, nt@) == Ok::<_, CondError>(ev@),
            Err(e) => spec_eval_file_search(fs@, nt@) == Err::<CondOutcomeView, _>(e),
        },
{
    let pattern: String = match &nt.pattern {
        Some(p) => p.clone(),
        None => {
            return Err(CondError::MissingPattern);
        },
    };
    let scope: ConditionScope = match nt.scope {
        Some(s) => s,
        None => ConditionScope::CurrentFolder,
    };
    let ms = match collect_matches(fs, pattern.as_str(), scope) {
        Ok(ms) => ms,
        Err(e) => {
            return Err(e);
        },
    };
    let raw: bool = match nt.operator {
        ConditionOperator::Exists => ms.len() > 0,
        ConditionOperator::NotExists => ms.len() == 0,
        _ => false,
    };
    let fin = apply_negate(raw, nt.negate);
    let count_digits = crate::text::u64_to_chars(ms.len() as u64);
    let count_str = crate::text::string_from_chars(&count_digits);
    let mut s = String::from_str("File search \"");
    s.append(pattern.as_str());
    s.append("\" (scope: ");
    s.append(scope_label(scope));
    s.append(") -> ");
    s.append(count_str.as_str());
    s.append(" match(es), result ");
    s.append(truth_label(fin));
    s.append(negate_suffix(nt.negate));
    proof {
        assert(ms@.map_values(|n: FsNode| n@).len() == ms@.len());
        assert(s@ =~= spec_summary_file_search(
            pattern@,
            scope,
            ms@.len() as nat,
            fin,
            nt.negate,
        ));
    }
    Ok(ConditionEvaluation { result: fin, summary: s })
}

/// Evaluates a file-count condition over the folder's modelled tree; see
/// `spec_eval_file_count`.
pub fn evaluate_file_count(fs: &FolderFs, nt: &NormalizedConditionTest) -> (r: Result<
    ConditionEvaluation,
    CondError,
>)
    ensures
        match r {
            Ok(ev) => spec_eval_file_count(fs@, nt@) == Ok::<_, CondError>(ev@),
            Err(e) => spec_eval_file_count(fs@, nt@) == Err::<CondOutcomeView, _>(e),
        },
{
    let pattern: String = match &nt.pattern {
        Some(p) => p.clone(),
        None => String::from_str("*"),
    };
    let scope: ConditionScope = match nt.scope {
        Some(s) => s,
        None => ConditionScope::CurrentFolder,
    };
    let ms = match collect_matches(fs, pattern.as_str(), scope) {
        Ok(ms) => ms,
        Err(e) => {
            return Err(e);
        },
    };
    let count = count_files(&ms);
    let tstr: String = match &nt.value {
        Some(x) => x.clone(),
        None => String::from_str("0"),
    };
    let tchars = crate::text::chars_of(tstr.as_str());
    let th: i64 = match crate::text::parse_i64_chars(&tchars) {
        Some(t) => t,
        None => {
            return Err(CondError::InvalidThreshold);
        },
    };
    let raw: bool = if th < 0 {
        match nt.operator {
            ConditionOperator::GreaterThan => true,
            _ => false,
        }
    } else {
        let tu = th as u64;
        let cu = count as u64;
        match nt.operator {
            ConditionOperator::Equals => cu == tu,
            ConditionOperator::GreaterThan => cu > tu,
            ConditionOperator::LessThan => cu < tu,
            _ => false,
        }
    };
    let fin = apply_negate(raw, nt.negate);
    let count_digits = crate::text::u64_to_chars(count as u64);
    let count_str = crate::text::string_from_chars(&count_digits);
    let th_digits = crate::text::i64_to_chars(th);
    let th_str = crate::text::string_from_chars(&th_digits);
    let mut s = String::from_str("File count \"");
    s.append(pattern.as_str());
    s.append("\" (scope: ");
    s.append(scope_label(scope));
    s.append(") -> ");
    s.append(count_str.as_str());
    s.append(", compared ");
    s.append(operator_symbol(nt.operator));
    s.append(" ");
    s.append(th_str.as_str());
    s.append(", result ");
    s.append(truth_label(fin));
    s.append(negate_suffix(nt.negate));
    proof {
        assert(s@ =~= spec_summary_file_count(
            pattern@,
            scope,
            count as nat,
            nt.operator,
            th as int,
            fin,
            nt.negate,
        ));
    }
    Ok(ConditionEvaluation { result: fin, summary: s })
}

/// Evaluates a raw condition test for one folder, against the folder's
/// modelled contents; see `spec_evaluate_condition`. Evaluation never
/// mutates anything and fails only on a malformed pattern, path or
/// comparison value.
pub fn evaluate_condition_for_folder(folder: &str, test: &ConditionTest, fs: &FolderFs) -> (r:
    Result<ConditionEvaluation, CondError>)
    ensures
        match r {
            Ok(ev) => spec_evaluate_condition(folder@, *test, fs@) == Ok::<_, CondError>(ev@),
            Err(e) => spec_evaluate_condition(folder@, *test, fs@) == Err::<CondOutcomeView, _>(e),
        },
{
    let nt = normalize_condition(test);
    match nt.selector {
        ConditionSelector::CurrentFolderName => evaluate_current_folder(folder, &nt),
        ConditionSelector::FileSearch => evaluate_file_search(fs, &nt),
        ConditionSelector::FileCount => evaluate_file_count(fs, &nt),
    }
}

} // verus!
