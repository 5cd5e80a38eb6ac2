use vstd::prelude::*;

verus! {

/// Whether `pattern` compiles as a regular expression under the given flags
/// (case-insensitive, multi-line, dot-matches-newline, ignore-whitespace).
pub uninterp spec fn regex_valid(pattern: Seq<char>, ci: bool, ml: bool, dnl: bool, iw: bool) -> bool;

/// Whether the compiled pattern matches anywhere in `text`.
pub uninterp spec fn regex_matches(
    pattern: Seq<char>,
    ci: bool,
    ml: bool,
    dnl: bool,
    iw: bool,
    text: Seq<char>,
) -> bool;

/// How many non-overlapping, leftmost-first matches the pattern finds in
/// `text`.
pub uninterp spec fn regex_match_count(
    pattern: Seq<char>,
    ci: bool,
    ml: bool,
    dnl: bool,
    iw: bool,
    text: Seq<char>,
) -> nat;

/// `text` with every such match replaced by the replacement (which may use
/// capture-group references).
pub uninterp spec fn regex_replaced(
    pattern: Seq<char>,
    ci: bool,
    ml: bool,
    dnl: bool,
    iw: bool,
    text: Seq<char>,
    rep: Seq<char>,
) -> Seq<char>;

/// Relies on regex::RegexBuilder::build and regex::Regex::is_match: the
/// pattern compiles, or not, as a function of pattern and flags alone, and
/// matching is a function of pattern, flags and text alone.
#[verifier::external_body]
pub fn regex_is_match(pattern: &str, ci: bool, ml: bool, dnl: bool, iw: bool, text: &str) -> (r:
    Option<bool>)
    ensures
        r is Some <==> regex_valid(pattern@, ci, ml, dnl, iw),
        r matches Some(b) ==> b == regex_matches(pattern@, ci, ml, dnl, iw, text@),
{
    regex::RegexBuilder::new(pattern)
        .case_insensitive(ci)
        .multi_line(ml)
        .dot_matches_new_line(dnl)
        .ignore_whitespace(iw)
        .build()
        .ok()
        .map(|re| re.is_match(text))
}

/// Relies on regex::Regex::find_iter and regex::Regex::replace_all, on one
/// compiled pattern: the match count and the replaced text are functions of
/// pattern, flags, text and replacement alone, and a zero match count
/// leaves the text unchanged (replace_all returns the input borrowed).
#[verifier::external_body]
pub fn regex_replace_all(
    pattern: &str,
    ci: bool,
    ml: bool,
    dnl: bool,
    iw: bool,
    text: &str,
    rep: &str,
) -> (r: Option<(String, usize)>)
    ensures
        r is Some <==> regex_valid(pattern@, ci, ml, dnl, iw),
        r matches Some(p) ==> p.0@ == regex_replaced(pattern@, ci, ml, dnl, iw, text@, rep@)
            && p.1 == regex_match_count(pattern@, ci, ml, dnl, iw, text@),
        r matches Some(p) ==> (p.1 == 0 ==> p.0@ == text@),
{
    let re = match regex::RegexBuilder::new(pattern)
        .case_insensitive(ci)
        .multi_line(ml)
        .dot_matches_new_line(dnl)
        .ignore_whitespace(iw)
        .build()
    {
        Ok(re) => re,
        Err(_) => return None,
    };
    let count = re.find_iter(text).count();
    Some((re.replace_all(text, rep).into_owned(), count))
}

} // verus!
