use vstd::prelude::*;
use crate::text::{
    spec_trim, spec_split_char, views, trim_chars, chars_of, string_from_chars, split_char,
    chars_eq, concat_chars,
};

verus! {

/// Why a path fragment was rejected by sanitization.
#[derive(Clone, Copy, PartialEq, Eq, Structural, Debug)]
pub enum PathError {
    Empty,
    Absolute,
    ParentTraversal,
}

/// The wording each path error is reported with.
pub open spec fn spec_path_error_message(e: PathError) -> Seq<char> {
    match e {
        PathError::Empty => "path is empty"@,
        PathError::Absolute => "path must be relative"@,
        PathError::ParentTraversal => "path may not contain '..'"@,
    }
}

impl PathError {
    /// A short description, used when the failure is reported.
    pub fn message(&self) -> (r: &'static str)
        ensures
            r@ == spec_path_error_message(*self),
    {
        match self {
            PathError::Empty => "path is empty",
            PathError::Absolute => "path must be relative",
            PathError::ParentTraversal => "path may not contain '..'",
        }
    }
}

/// Backslashes turned into forward slashes, so fragments match on every
/// platform.
pub open spec fn spec_normalize_slashes(s: Seq<char>) -> Seq<char> {
    s.map_values(|c: char| if c == '\\' { '/' } else { c })
}

/// The sanitized form of a workspace-relative fragment: trimmed, slashes
/// normalized; rejected when blank, absolute (leading slash), or holding a
/// `..` segment. This is the single trust boundary every operation's paths
/// pass through. Fragments are treated as Unix-style paths throughout the
/// model: only a leading slash counts as absolute, so a drive-qualified
/// name is an ordinary first segment here, not an absolute path.
pub open spec fn spec_sanitize_relative_path(fragment: Seq<char>) -> Result<Seq<char>, PathError> {
    let t = spec_trim(fragment);
    if t.len() == 0 {
        Err(PathError::Empty)
    } else {
        let n = spec_normalize_slashes(t);
        if n[0] == '/' {
            Err(PathError::Absolute)
        } else if spec_split_char(n, '/').contains(".."@) {
            Err(PathError::ParentTraversal)
        } else {
            Ok(n)
        }
    }
}

fn normalize_slashes(v: &Vec<char>) -> (r: Vec<char>)
    ensures
        r@ == spec_normalize_slashes(v@),
{
    let n = v.len();
    let mut out: Vec<char> = Vec::new();
    let mut i: usize = 0;
    while i < n
        invariant
            i <= n,
            n == v@.len(),
            out@ == spec_normalize_slashes(v@.subrange(0, i as int)),
        decreases n - i,
    {
        if v[i] == '\\' {
            out.push('/');
        } else {
            out.push(v[i]);
        }
        assert(out@ =~= spec_normalize_slashes(v@.subrange(0, i + 1 as int)));
        i = i + 1;
    }
    assert(out@ =~= spec_normalize_slashes(v@));
    out
}

/// Sanitizes a workspace-relative fragment per
/// `spec_sanitize_relative_path`.
pub fn sanitize_relative_path(fragment: &str) -> (r: Result<String, PathError>)
    ensures
        match r {
            Ok(p) => spec_sanitize_relative_path(fragment@) == Ok::<Seq<char>, PathError>(p@),
            Err(e) => spec_sanitize_relative_path(fragment@) == Err::<Seq<char>, PathError>(e),
        },
{
    let v = chars_of(fragment);
    let t = trim_chars(&v);
    if t.len() == 0 {
        return Err(PathError::Empty);
    }
    let n = normalize_slashes(&t);
    if n[0] == '/' {
        return Err(PathError::Absolute);
    }
    let parts = split_char(&n, '/');
    let mut dots: Vec<char> = Vec::new();
    dots.push('.');
    dots.push('.');
    proof {
        assert(dots@ =~= ".."@) by {
            reveal_strlit("..");
        }
    }
    let m = parts.len();
    let mut i: usize = 0;
    while i < m
        invariant
            i <= m,
            m == parts@.len(),
            dots@ == ".."@,
            t@ == spec_trim(fragment@),
            t@.len() > 0,
            n@ == spec_normalize_slashes(t@),
            n@[0] != '/',
            views(parts@) == spec_split_char(n@, '/'),
            forall|j: int| 0 <= j < i ==> views(parts@)[j] != ".."@,
        decreases m - i,
    {
        if chars_eq(&parts[i], &dots) {
            proof {
                assert(views(parts@)[i as int] == parts@[i as int]@);
                assert(spec_split_char(n@, '/')[i as int] == ".."@);
                assert(spec_split_char(n@, '/').contains(".."@));
            }
            return Err(PathError::ParentTraversal);
        }
        proof {
            assert(views(parts@)[i as int] == parts@[i as int]@);
        }
        i = i + 1;
    }
    proof {
        assert(!spec_split_char(n@, '/').contains(".."@)) by {
            if spec_split_char(n@, '/').contains(".."@) {
                let j = choose|j: int|
                    0 <= j < spec_split_char(n@, '/').len() && spec_split_char(n@, '/')[j]
                        == ".."@;
                assert(views(parts@)[j] == ".."@);
            }
        }
    }
    Ok(string_from_chars(&n))
}

/// A sanitized fragment joined below a folder path with a forward slash.
pub fn resolve_in_folder(folder_path: &str, fragment: &str) -> (r: Result<String, PathError>)
    ensures
        match r {
            Ok(p) => spec_sanitize_relative_path(fragment@) matches Ok(rel) && p@ == folder_path@
                + seq!['/'] + rel,
            Err(e) => spec_sanitize_relative_path(fragment@) == Err::<Seq<char>, PathError>(e),
        },
{
    let rel = match sanitize_relative_path(fragment) {
        Ok(p) => p,
        Err(e) => {
            return Err(e);
        },
    };
    let base = chars_of(folder_path);
    let mut slash: Vec<char> = Vec::new();
    slash.push('/');
    let relv = chars_of(rel.as_str());
    let joined = concat_chars(&concat_chars(&base, &slash), &relv);
    proof {
        assert(slash@ =~= seq!['/']);
    }
    Ok(string_from_chars(&joined))
}

} // verus!
