use vstd::prelude::*;
use crate::model::RenameMode;
use crate::text::{
    spec_trim, spec_replace, trim_chars, chars_of, string_from_chars, concat_chars,
    subrange_chars, replace_all,
};

verus! {

/// Why a rename destination could not be computed.
#[derive(Clone, Copy, PartialEq, Eq, Structural, Debug)]
pub enum RenameError {
    EmptyValue,
    EmptyExtension,
    EmptySearch,
    EmptyResult,
}

/// The wording each rename error is reported with.
pub open spec fn spec_rename_error_message(e: RenameError) -> Seq<char> {
    match e {
        RenameError::EmptyValue => "rename value is empty"@,
        RenameError::EmptyExtension => "target extension is empty"@,
        RenameError::EmptySearch => "search string is empty"@,
        RenameError::EmptyResult => "resulting name is empty"@,
    }
}

impl RenameError {
    /// A short description, used when the failure is reported.
    pub fn message(&self) -> (r: &'static str)
        ensures
            r@ == spec_rename_error_message(*self),
    {
        match self {
            RenameError::EmptyValue => "rename value is empty",
            RenameError::EmptyExtension => "target extension is empty",
            RenameError::EmptySearch => "search string is empty",
            RenameError::EmptyResult => "resulting name is empty",
        }
    }
}

/// The index of the last occurrence of `c` in `s`, if any.
pub open spec fn spec_rfind(s: Seq<char>, c: char) -> Option<int>
    decreases s.len(),
{
    if s.len() == 0 {
        None
    } else if s.last() == c {
        Some(s.len() - 1)
    } else {
        spec_rfind(s.drop_last(), c)
    }
}

/// A file name split at its last dot into stem and extension (the extension
/// keeps the dot). A name without a dot, or whose only dot leads it, has no
/// extension.
pub open spec fn spec_split_name_ext(name: Seq<char>) -> Option<(Seq<char>, Seq<char>)> {
    match spec_rfind(name, '.') {
        Some(idx) => if idx == 0 {
            None
        } else {
            Some((name.take(idx), name.skip(idx)))
        },
        None => None,
    }
}

pub open spec fn spec_trim_start_matches_char(s: Seq<char>, c: char) -> Seq<char>
    decreases s.len(),
{
    if s.len() > 0 && s[0] == c {
        spec_trim_start_matches_char(s.drop_first(), c)
    } else {
        s
    }
}

/// The new file name a rename operation produces, or the reason none can:
/// `Suffix` inserts the trimmed value before the extension (or appends it),
/// `Prefix` prepends it, `ChangeExtension` replaces the extension with the
/// value stripped of leading dots (an empty target extension is an error),
/// and `Replace` substitutes every occurrence of `search` (an empty search
/// is an error). An empty trimmed value is an error except for `Replace`,
/// and a blank resulting name is always an error.
pub open spec fn spec_rename_destination(
    name: Seq<char>,
    mode: RenameMode,
    value: Seq<char>,
    search: Option<Seq<char>>,
    replace: Option<Seq<char>>,
) -> Result<Seq<char>, RenameError> {
    let tv = spec_trim(value);
    if tv.len() == 0 && !(mode is Replace) {
        Err(RenameError::EmptyValue)
    } else if mode is ChangeExtension && spec_trim(
        spec_trim_start_matches_char(tv, '.'),
    ).len() == 0 {
        Err(RenameError::EmptyExtension)
    } else if mode is Replace && (search is None || search->0.len() == 0) {
        Err(RenameError::EmptySearch)
    } else {
        let nn = match mode {
            RenameMode::Suffix => match spec_split_name_ext(name) {
                Some(parts) => parts.0 + tv + parts.1,
                None => name + tv,
            },
            RenameMode::Prefix => tv + name,
            RenameMode::ChangeExtension => {
                let ne = spec_trim(spec_trim_start_matches_char(tv, '.'));
                match spec_split_name_ext(name) {
                    Some(parts) => parts.0 + seq!['.'] + ne,
                    None => name + seq!['.'] + ne,
                }
            },
            RenameMode::Replace => {
                let rep = match replace {
                    Some(r) => r,
                    None => tv,
                };
                spec_replace(name, search->0, rep)
            },
        };
        if spec_trim(nn).len() == 0 {
            Err(RenameError::EmptyResult)
        } else {
            Ok(nn)
        }
    }
}

/// The index of the last `c` in `v`, if any.
pub fn rfind_char(v: &Vec<char>, c: char) -> (r: Option<usize>)
    ensures
        match r {
            Some(i) => i < v@.len() && spec_rfind(v@, c) == Some(i as int),
            None => spec_rfind(v@, c) is None,
        },
{
    let mut i: usize = v.len();
    proof {
        assert(v@.take(v@.len() as int) =~= v@);
    }
    while i > 0
        invariant
            i <= v@.len(),
            spec_rfind(v@, c) == spec_rfind(v@.take(i as int), c),
        decreases i,
    {
        if v[i - 1] == c {
            return Some(i - 1);
        }
        proof {
            assert(v@.take(i as int).drop_last() =~= v@.take(i - 1 as int));
        }
        i = i - 1;
    }
    None
}

/// A file name split at its last dot, as `spec_split_name_ext` describes.
pub fn split_name_ext(name: &str) -> (r: Option<(String, String)>)
    ensures
        match r {
            Some(parts) => spec_split_name_ext(name@) == Some((parts.0@, parts.1@)),
            None => spec_split_name_ext(name@) is None,
        },
{
    let v = chars_of(name);
    match rfind_char(&v, '.') {
        Some(idx) => {
            if idx == 0 {
                None
            } else {
                let stem = subrange_chars(&v, 0, idx);
                let ext = subrange_chars(&v, idx, v.len());
                proof {
                    assert(v@.take(idx as int) =~= v@.subrange(0, idx as int));
                    assert(v@.skip(idx as int) =~= v@.subrange(idx as int, v@.len() as int));
                }
                Some((string_from_chars(&stem), string_from_chars(&ext)))
            }
        },
        None => None,
    }
}

fn trim_start_matches_char(v: &Vec<char>, c: char) -> (r: Vec<char>)
    ensures
        r@ == spec_trim_start_matches_char(v@, c),
{
    let n = v.len();
    let mut a: usize = 0;
    proof {
        assert(v@.subrange(0, n as int) =~= v@);
    }
    while a < n && v[a] == c
        invariant
            a <= n,
            n == v@.len(),
            spec_trim_start_matches_char(v@, c) == spec_trim_start_matches_char(
                v@.subrange(a as int, n as int),
                c,
            ),
        decreases n - a,
    {
        proof {
            assert(v@.subrange(a as int, n as int).drop_first() =~= v@.subrange(
                a + 1 as int,
                n as int,
            ));
        }
        a = a + 1;
    }
    proof {
        assert(spec_trim_start_matches_char(v@.subrange(a as int, n as int), c) == v@.subrange(
            a as int,
            n as int,
        ));
    }
    subrange_chars(v, a, n)
}

/// The destination name for a rename operation, per
/// `spec_rename_destination`.
pub fn compute_rename_destination(
    file_name: &str,
    mode: &RenameMode,
    value: &str,
    search: Option<&str>,
    replace: Option<&str>,
) -> (r: Result<String, RenameError>)
    ensures
        ({
            let sr = spec_rename_destination(
                file_name@,
                *mode,
                value@,
                match search {
                    Some(s) => Some(s@),
                    None => None,
                },
                match replace {
                    Some(s) => Some(s@),
                    None => None,
                },
            );
            match r {
                Ok(n) => sr == Ok::<Seq<char>, RenameError>(n@),
                Err(e) => sr == Err::<Seq<char>, RenameError>(e),
            }
        }),
{
    let name = chars_of(file_name);
    let vchars = chars_of(value);
    let tv = trim_chars(&vchars);
    let is_replace = match mode {
        RenameMode::Replace => true,
        _ => false,
    };
    if tv.len() == 0 && !is_replace {
        return Err(RenameError::EmptyValue);
    }
    let new_name: Vec<char> = match mode {
        RenameMode::Suffix => {
            match rfind_char(&name, '.') {
                Some(idx) if idx > 0 => {
                    let stem = subrange_chars(&name, 0, idx);
                    let ext = subrange_chars(&name, idx, name.len());
                    proof {
                        assert(name@.take(idx as int) =~= name@.subrange(0, idx as int));
                        assert(name@.skip(idx as int) =~= name@.subrange(
                            idx as int,
                            name@.len() as int,
                        ));
                    }
                    concat_chars(&concat_chars(&stem, &tv), &ext)
                },
                _ => concat_chars(&name, &tv),
            }
        },
        RenameMode::Prefix => concat_chars(&tv, &name),
        RenameMode::ChangeExtension => {
            let no_dots = trim_start_matches_char(&tv, '.');
            let ne = trim_chars(&no_dots);
            if ne.len() == 0 {
                return Err(RenameError::EmptyExtension);
            }
            let mut dot: Vec<char> = Vec::new();
            dot.push('.');
            assert(dot@ =~= seq!['.']);
            match rfind_char(&name, '.') {
                Some(idx) if idx > 0 => {
                    let stem = subrange_chars(&name, 0, idx);
                    proof {
                        assert(name@.take(idx as int) =~= name@.subrange(0, idx as int));
                    }
                    concat_chars(&concat_chars(&stem, &dot), &ne)
                },
                _ => concat_chars(&concat_chars(&name, &dot), &ne),
            }
        },
        RenameMode::Replace => {
            let search_chars: Vec<char> = match search {
                Some(s) => chars_of(s),
                None => Vec::new(),
            };
            proof {
                if search is None {
                    assert(search_chars@ =~= Seq::<char>::empty());
                }
            }
            if search_chars.len() == 0 {
                return Err(RenameError::EmptySearch);
            }
            let rep_chars: Vec<char> = match replace {
                Some(s) => chars_of(s),
                None => {
                    let mut copy: Vec<char> = Vec::new();
                    let mut i: usize = 0;
                    while i < tv.len()
                        invariant
                            i <= tv@.len(),
                            copy@ == tv@.subrange(0, i as int),
                        decreases tv@.len() - i,
                    {
                        copy.push(tv[i]);
                        assert(copy@ =~= tv@.subrange(0, i + 1 as int));
                        i = i + 1;
                    }
                    assert(copy@ =~= tv@);
                    copy
                },
            };
            let pair = replace_all(&name, &search_chars, &rep_chars);
            pair.0
        },
    };
    let trimmed_result = trim_chars(&new_name);
    if trimmed_result.len() == 0 {
        return Err(RenameError::EmptyResult);
    }
    Ok(string_from_chars(&new_name))
}


/// The rename destination for a whole relative path: the directory part is
/// preserved untouched and only the final path segment is transformed by
/// the rename mode.
pub open spec fn spec_rename_destination_path(
    path: Seq<char>,
    mode: RenameMode,
    value: Seq<char>,
    search: Option<Seq<char>>,
    replace: Option<Seq<char>>,
) -> Result<Seq<char>, RenameError> {
    let name = match spec_rfind(path, '/') {
        Some(i) => path.skip(i + 1),
        None => path,
    };
    match spec_rename_destination(name, mode, value, search, replace) {
        Err(e) => Err(e),
        Ok(nn) => Ok(
            match spec_rfind(path, '/') {
                Some(i) => path.take(i + 1) + nn,
                None => nn,
            },
        ),
    }
}

/// Computes the rename destination for a relative path; see
/// `spec_rename_destination_path`.
pub fn rename_destination_path(
    path: &str,
    mode: &RenameMode,
    value: &str,
    search: Option<&str>,
    replace: Option<&str>,
) -> (r: Result<String, RenameError>)
    ensures
        ({
            let sr = spec_rename_destination_path(
                path@,
                *mode,
                value@,
                match search {
                    Some(s) => Some(s@),
                    None => None,
                },
                match replace {
                    Some(s) => Some(s@),
                    None => None,
                },
            );
            match r {
                Ok(d) => sr == Ok::<Seq<char>, RenameError>(d@),
                Err(e) => sr == Err::<Seq<char>, RenameError>(e),
            }
        }),
{
    let pchars = chars_of(path);
    let slash_at = rfind_char(&pchars, '/');
    let name: String = match slash_at {
        Some(i) => {
            let nm = subrange_chars(&pchars, i + 1, pchars.len());
            proof {
                assert(nm@ =~= path@.skip(slash_at->0 + 1));
            }
            string_from_chars(&nm)
        },
        None => path.to_owned(),
    };
    let new_name = match compute_rename_destination(name.as_str(), mode, value, search, replace) {
        Ok(n) => n,
        Err(e) => {
            return Err(e);
        },
    };
    match slash_at {
        Some(i) => {
            let head = subrange_chars(&pchars, 0, i + 1);
            let tail = chars_of(new_name.as_str());
            let joined = concat_chars(&head, &tail);
            proof {
                assert(head@ =~= path@.take(slash_at->0 + 1));
            }
            Ok(string_from_chars(&joined))
        },
        None => Ok(new_name),
    }
}

} // verus!
