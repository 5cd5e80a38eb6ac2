use vstd::prelude::*;
use crate::text::{
    spec_trim, spec_is_space, spec_starts_with, spec_split_char, spec_contains_seq, trim_chars,
    chars_of, string_from_chars, split_char, subrange_chars, chars_eq_str, starts_with_chars,
    is_space, find_from, views, contains_seq,
};

verus! {

/// The prefix of `s` before the first occurrence of `c` (all of `s` when
/// `c` does not occur).
pub open spec fn spec_until_char(s: Seq<char>, c: char) -> Seq<char>
    decreases s.len(),
{
    if s.len() == 0 {
        Seq::empty()
    } else if s[0] == c {
        Seq::empty()
    } else {
        seq![s[0]] + spec_until_char(s.drop_first(), c)
    }
}

/// The prefix of `s` before its first whitespace character.
pub open spec fn spec_first_ws_token(s: Seq<char>) -> Seq<char>
    decreases s.len(),
{
    if s.len() == 0 {
        Seq::empty()
    } else if spec_is_space(s[0]) {
        Seq::empty()
    } else {
        seq![s[0]] + spec_first_ws_token(s.drop_first())
    }
}

/// The interpreter's standard-library modules a script may import without
/// raising a portability warning.
pub open spec fn spec_is_stdlib_module(m: Seq<char>) -> bool {
    m == "argparse"@ || m == "collections"@ || m == "contextlib"@ || m == "csv"@ || m
        == "datetime"@ || m == "functools"@ || m == "glob"@ || m == "hashlib"@ || m == "heapq"@
        || m == "io"@ || m == "itertools"@ || m == "json"@ || m == "logging"@ || m == "math"@ || m
        == "os"@ || m == "pathlib"@ || m == "random"@ || m == "re"@ || m == "shutil"@ || m
        == "statistics"@ || m == "string"@ || m == "subprocess"@ || m == "sys"@ || m == "tempfile"@
        || m == "textwrap"@ || m == "time"@ || m == "typing"@ || m == "uuid"@
}

/// The module name one script line imports, if it is an import line: the
/// first word after `import ` or `from `, cut at its first dot and trimmed.
pub open spec fn spec_module_of(content: Seq<char>) -> Option<Seq<char>> {
    if spec_starts_with(content, "import "@) {
        let rest = spec_trim(content.skip(7));
        let nm = spec_trim(spec_until_char(spec_first_ws_token(rest), '.'));
        if nm.len() > 0 {
            Some(nm)
        } else {
            None
        }
    } else if spec_starts_with(content, "from "@) {
        let rest = spec_trim(content.skip(5));
        let nm = spec_trim(spec_until_char(spec_first_ws_token(rest), '.'));
        if nm.len() > 0 {
            Some(nm)
        } else {
            None
        }
    } else {
        None
    }
}

/// One line reduced to its code: trimmed, dropped when blank or a comment,
/// cut at an inline comment marker.
pub open spec fn spec_line_content(line: Seq<char>) -> Option<Seq<char>> {
    let t = spec_trim(line);
    if t.len() == 0 || t[0] == '#' {
        None
    } else if spec_contains_seq(t, seq!['#']) {
        Some(spec_trim(spec_until_char(t, '#')))
    } else {
        Some(t)
    }
}

/// The modules a script imports from outside the standard library, in first
/// appearance order, without duplicates.
pub open spec fn spec_detect(lines: Seq<Seq<char>>, acc: Seq<Seq<char>>) -> Seq<Seq<char>>
    decreases lines.len(),
{
    if lines.len() == 0 {
        acc
    } else {
        let acc2 = match spec_line_content(lines[0]) {
            Some(content) => match spec_module_of(content) {
                Some(nm) => if !spec_is_stdlib_module(nm) && !acc.contains(nm) {
                    acc.push(nm)
                } else {
                    acc
                },
                None => acc,
            },
            None => acc,
        };
        spec_detect(lines.drop_first(), acc2)
    }
}

pub open spec fn spec_detect_modules(script: Seq<char>) -> Seq<Seq<char>> {
    spec_detect(spec_split_char(script, '\n'), Seq::empty())
}

fn until_char(v: &Vec<char>, c: char) -> (r: Vec<char>)
    ensures
        r@ == spec_until_char(v@, c),
{
    let n = v.len();
    let mut i: usize = 0;
    proof {
        assert(v@.skip(0) =~= v@);
    }
    while i < n
        invariant
            i <= n,
            n == v@.len(),
            spec_until_char(v@, c) == v@.subrange(0, i as int) + spec_until_char(
                v@.skip(i as int),
                c,
            ),
            forall|j: int| 0 <= j < i ==> v@[j] != c,
        decreases n - i,
    {
        proof {
            assert(v@.skip(i as int)[0] == v@[i as int]);
            assert(v@.skip(i as int).drop_first() =~= v@.skip(i + 1 as int));
            if v@[i as int] != c {
                assert(v@.subrange(0, i as int) + (seq![v@[i as int]] + spec_until_char(
                    v@.skip(i + 1 as int),
                    c,
                )) =~= v@.subrange(0, i + 1 as int) + spec_until_char(v@.skip(i + 1 as int), c));
            } else {
                assert(v@.subrange(0, i as int) + Seq::<char>::empty() =~= v@.subrange(
                    0,
                    i as int,
                ));
            }
        }
        if v[i] == c {
            return subrange_chars(v, 0, i);
        }
        i = i + 1;
    }
    proof {
        assert(v@.skip(n as int) =~= Seq::<char>::empty());
        assert(v@.subrange(0, n as int) + Seq::<char>::empty() =~= v@);
    }
    subrange_chars(v, 0, n)
}

fn first_ws_token(v: &Vec<char>) -> (r: Vec<char>)
    ensures
        r@ == spec_first_ws_token(v@),
{
    let n = v.len();
    let mut i: usize = 0;
    proof {
        assert(v@.skip(0) =~= v@);
    }
    while i < n
        invariant
            i <= n,
            n == v@.len(),
            spec_first_ws_token(v@) == v@.subrange(0, i as int) + spec_first_ws_token(
                v@.skip(i as int),
            ),
        decreases n - i,
    {
        proof {
            assert(v@.skip(i as int)[0] == v@[i as int]);
            assert(v@.skip(i as int).drop_first() =~= v@.skip(i + 1 as int));
            if !spec_is_space(v@[i as int]) {
                assert(v@.subrange(0, i as int) + (seq![v@[i as int]] + spec_first_ws_token(
                    v@.skip(i + 1 as int),
                )) =~= v@.subrange(0, i + 1 as int) + spec_first_ws_token(v@.skip(i + 1 as int)));
            } else {
                assert(v@.subrange(0, i as int) + Seq::<char>::empty() =~= v@.subrange(
                    0,
                    i as int,
                ));
            }
        }
        if is_space(v[i]) {
            return subrange_chars(v, 0, i);
        }
        i = i + 1;
    }
    proof {
        assert(v@.skip(n as int) =~= Seq::<char>::empty());
        assert(v@.subrange(0, n as int) + Seq::<char>::empty() =~= v@);
    }
    subrange_chars(v, 0, n)
}

/// Whether a module name belongs to the interpreter's standard library, as
/// far as the warning cares.
pub fn is_stdlib_module(name: &Vec<char>) -> (r: bool)
    ensures
        r == spec_is_stdlib_module(name@),
{
    chars_eq_str(name, "argparse") || chars_eq_str(name, "collections") || chars_eq_str(
        name,
        "contextlib",
    ) || chars_eq_str(name, "csv") || chars_eq_str(name, "datetime") || chars_eq_str(
        name,
        "functools",
    ) || chars_eq_str(name, "glob") || chars_eq_str(name, "hashlib") || chars_eq_str(
        name,
        "heapq",
    ) || chars_eq_str(name, "io") || chars_eq_str(name, "itertools") || chars_eq_str(name, "json")
        || chars_eq_str(name, "logging") || chars_eq_str(name, "math") || chars_eq_str(name, "os")
        || chars_eq_str(name, "pathlib") || chars_eq_str(name, "random") || chars_eq_str(
        name,
        "re",
    ) || chars_eq_str(name, "shutil") || chars_eq_str(name, "statistics") || chars_eq_str(
        name,
        "string",
    ) || chars_eq_str(name, "subprocess") || chars_eq_str(name, "sys") || chars_eq_str(
        name,
        "tempfile",
    ) || chars_eq_str(name, "textwrap") || chars_eq_str(name, "time") || chars_eq_str(
        name,
        "typing",
    ) || chars_eq_str(name, "uuid")
}

/// Appends a module name unless it is standard-library or already listed.
pub fn maybe_push(modules: &mut Vec<String>, name: &str)
    ensures
        final(modules)@.map_values(|s: String| s@) == (if !spec_is_stdlib_module(name@) && !old(
            modules,
        )@.map_values(|s: String| s@).contains(name@) {
            old(modules)@.map_values(|s: String| s@).push(name@)
        } else {
            old(modules)@.map_values(|s: String| s@)
        }),
{
    let nv = chars_of(name);
    let ghost mv = modules@.map_values(|s: String| s@);
    if is_stdlib_module(&nv) {
        return ;
    }
    let n = modules.len();
    let mut i: usize = 0;
    while i < n
        invariant
            i <= n,
            n == modules@.len(),
            nv@ == name@,
            mv == modules@.map_values(|s: String| s@),
            forall|j: int| 0 <= j < i ==> mv[j] != name@,
        decreases n - i,
    {
        let existing = chars_of(modules[i].as_str());
        if crate::text::chars_eq(&existing, &nv) {
            proof {
                assert(mv[i as int] == name@);
                assert(mv.contains(name@));
            }
            return ;
        }
        proof {
            assert(mv[i as int] == modules@[i as int]@);
        }
        i = i + 1;
    }
    proof {
        if mv.contains(name@) {
            let j = choose|j: int| 0 <= j < mv.len() && mv[j] == name@;
            assert(false);
        }
    }
    modules.push(name.to_owned());
    proof {
        assert(modules@.map_values(|s: String| s@) =~= mv.push(name@));
    }
}

/// Scans a script for imports of modules outside the standard library; see
/// `spec_detect_modules`. (The wrapping option mirrors how callers consume
/// the scan: absence and an empty list mean the same.)
pub fn detect_external_python_modules(script: &str) -> (r: Option<Vec<String>>)
    ensures
        r matches Some(v) && v@.map_values(|s: String| s@) == spec_detect_modules(script@),
{
    let sv = chars_of(script);
    let lines = split_char(&sv, '\n');
    let mut modules: Vec<String> = Vec::new();
    let n = lines.len();
    let mut i: usize = 0;
    proof {
        assert(views(lines@).skip(0) =~= views(lines@));
        assert(modules@.map_values(|s: String| s@) =~= Seq::<Seq<char>>::empty());
    }
    while i < n
        invariant
            i <= n,
            n == lines@.len(),
            views(lines@) == spec_split_char(script@, '\n'),
            spec_detect_modules(script@) == spec_detect(
                views(lines@).skip(i as int),
                modules@.map_values(|s: String| s@),
            ),
        decreases n - i,
    {
        let ghost lv = views(lines@).skip(i as int);
        proof {
            assert(lv[0] == views(lines@)[i as int]);
            assert(views(lines@)[i as int] == lines@[i as int]@);
            assert(lv.drop_first() =~= views(lines@).skip(i + 1 as int));
        }
        let line = &lines[i];
        let t = trim_chars(line);
        let mut hash: Vec<char> = Vec::new();
        hash.push('#');
        proof {
            assert(hash@ =~= seq!['#']);
        }
        if t.len() > 0 && t[0] != '#' {
            let content: Vec<char> = if contains_seq(&t, &hash) {
                let cut = until_char(&t, '#');
                trim_chars(&cut)
            } else {
                let copy = subrange_chars(&t, 0, t.len());
                proof {
                    assert(t@.subrange(0, t@.len() as int) =~= t@);
                }
                copy
            };
            let import_kw = chars_of("import ");
            let from_kw = chars_of("from ");
            let skip_n: usize = if starts_with_chars(&content, &import_kw) {
                7
            } else if starts_with_chars(&content, &from_kw) {
                5
            } else {
                0
            };
            proof {
                reveal_strlit("import ");
                reveal_strlit("from ");
            }
            if skip_n > 0 {
                let rest_raw = subrange_chars(&content, skip_n, content.len());
                let rest = trim_chars(&rest_raw);
                let tok = first_ws_token(&rest);
                let before_dot = until_char(&tok, '.');
                let nm = trim_chars(&before_dot);
                proof {
                    assert(content@.subrange(skip_n as int, content@.len() as int)
                        =~= content@.skip(skip_n as int));
                }
                if nm.len() > 0 {
                    let nm_str = string_from_chars(&nm);
                    maybe_push(&mut modules, nm_str.as_str());
                }
            }
        }
        i = i + 1;
    }
    proof {
        assert(views(lines@).skip(n as int) =~= Seq::<Seq<char>>::empty());
    }
    Some(modules)
}

} // verus!
