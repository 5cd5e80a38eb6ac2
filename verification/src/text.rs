use vstd::prelude::*;
use vstd::string::StrSliceExecFns;

verus! {

/// The characters `str::trim` removes: Unicode whitespace.
pub open spec fn spec_is_space(c: char) -> bool {
    c == ' ' || c == '\t' || c == '\n' || c == '\r' || c == '\u{0b}' || c == '\u{0c}' || c
        == '\u{85}' || c == '\u{a0}' || c == '\u{1680}' || ('\u{2000}' <= c && c <= '\u{200a}') || c
        == '\u{2028}' || c == '\u{2029}' || c == '\u{202f}' || c == '\u{205f}' || c == '\u{3000}'
}

pub fn is_space(c: char) -> (r: bool)
    ensures
        r == spec_is_space(c),
{
    c == ' ' || c == '\t' || c == '\n' || c == '\r' || c == '\u{0b}' || c == '\u{0c}' || c
        == '\u{85}' || c == '\u{a0}' || c == '\u{1680}' || ('\u{2000}' <= c && c <= '\u{200a}') || c
        == '\u{2028}' || c == '\u{2029}' || c == '\u{202f}' || c == '\u{205f}' || c == '\u{3000}'
}

pub open spec fn spec_trim_start(s: Seq<char>) -> Seq<char>
    decreases s.len(),
{
    if s.len() > 0 && spec_is_space(s[0]) {
        spec_trim_start(s.drop_first())
    } else {
        s
    }
}

pub open spec fn spec_trim_end(s: Seq<char>) -> Seq<char>
    decreases s.len(),
{
    if s.len() > 0 && spec_is_space(s.last()) {
        spec_trim_end(s.drop_last())
    } else {
        s
    }
}

/// What `str::trim` returns.
pub open spec fn spec_trim(s: Seq<char>) -> Seq<char> {
    spec_trim_end(spec_trim_start(s))
}

/// The characters of a string slice, in order.
pub fn chars_of(s: &str) -> (r: Vec<char>)
    ensures
        r@ == s@,
{
    let n = s.unicode_len();
    let mut v: Vec<char> = Vec::new();
    let mut i: usize = 0;
    while i < n
        invariant
            i <= n,
            n == s@.len(),
            v@ == s@.subrange(0, i as int),
        decreases n - i,
    {
        let c = s.get_char(i);
        v.push(c);
        assert(v@ =~= s@.subrange(0, i + 1 as int));
        i = i + 1;
    }
    assert(v@ =~= s@);
    v
}

/// Relies on `String: FromIterator<char>`: collecting characters yields the
/// string whose character sequence is exactly the input.
#[verifier::external_body]
pub fn string_from_chars(v: &Vec<char>) -> (r: String)
    ensures
        r@ == v@,
{
    v.iter().collect()
}

/// `str::trim`, as a fresh string.
pub fn trim_chars(v: &Vec<char>) -> (r: Vec<char>)
    ensures
        r@ == spec_trim(v@),
{
    let n = v.len();
    assert(v@.subrange(0, n as int) =~= v@);
    let mut a: usize = 0;
    while a < n && is_space(v[a])
        invariant
            a <= n,
            n == v@.len(),
            spec_trim_start(v@) == spec_trim_start(v@.subrange(a as int, n as int)),
        decreases n - a,
    {
        proof {
            assert(v@.subrange(a as int, n as int).drop_first() =~= v@.subrange(
                a + 1 as int,
                n as int,
            ));
        }
        a = a + 1;
    }
    proof {
        assert(spec_trim_start(v@.subrange(a as int, n as int)) == v@.subrange(
            a as int,
            n as int,
        ));
    }
    let mut b: usize = n;
    while b > a && is_space(v[b - 1])
        invariant
            a <= b <= n,
            n == v@.len(),
            spec_trim_start(v@) == v@.subrange(a as int, n as int),
            spec_trim_end(v@.subrange(a as int, n as int)) == spec_trim_end(
                v@.subrange(a as int, b as int),
            ),
        decreases b,
    {
        proof {
            assert(v@.subrange(a as int, b as int).drop_last() =~= v@.subrange(
                a as int,
                b - 1 as int,
            ));
        }
        b = b - 1;
    }
    proof {
        assert(spec_trim_end(v@.subrange(a as int, b as int)) == v@.subrange(a as int, b as int));
    }
    let mut out: Vec<char> = Vec::new();
    let mut i: usize = a;
    while i < b
        invariant
            a <= i <= b <= n,
            n == v@.len(),
            out@ == v@.subrange(a as int, i as int),
        decreases b - i,
    {
        out.push(v[i]);
        assert(out@ =~= v@.subrange(a as int, i + 1 as int));
        i = i + 1;
    }
    assert(out@ =~= v@.subrange(a as int, b as int));
    out
}

/// `str::trim`, working on strings directly.
pub fn trim_str(s: &str) -> (r: String)
    ensures
        r@ == spec_trim(s@),
{
    let v = chars_of(s);
    let t = trim_chars(&v);
    string_from_chars(&t)
}

/// ASCII lower-casing of one character, as `char::to_ascii_lowercase`.
pub open spec fn spec_ascii_lower(c: char) -> char {
    if 'A' <= c && c <= 'Z' {
        (((c as u32) + 32) as u8) as char
    } else {
        c
    }
}

pub fn ascii_lower(c: char) -> (r: char)
    ensures
        r == spec_ascii_lower(c),
{
    if 'A' <= c && c <= 'Z' {
        (((c as u32) + 32) as u8) as char
    } else {
        c
    }
}

pub open spec fn spec_ascii_lower_seq(s: Seq<char>) -> Seq<char> {
    s.map_values(|c: char| spec_ascii_lower(c))
}

/// `str::to_ascii_lowercase`.
pub fn ascii_lower_chars(v: &Vec<char>) -> (r: Vec<char>)
    ensures
        r@ == spec_ascii_lower_seq(v@),
{
    let n = v.len();
    let mut out: Vec<char> = Vec::new();
    let mut i: usize = 0;
    while i < n
        invariant
            i <= n,
            n == v@.len(),
            out@ == spec_ascii_lower_seq(v@.subrange(0, i as int)),
        decreases n - i,
    {
        out.push(ascii_lower(v[i]));
        assert(out@ =~= spec_ascii_lower_seq(v@.subrange(0, i + 1 as int)));
        i = i + 1;
    }
    assert(out@ =~= spec_ascii_lower_seq(v@));
    out
}

/// Whether two character vectors hold the same characters.
pub fn chars_eq(a: &Vec<char>, b: &Vec<char>) -> (r: bool)
    ensures
        r == (a@ == b@),
{
    if a.len() != b.len() {
        return false;
    }
    let n = a.len();
    let mut i: usize = 0;
    while i < n
        invariant
            i <= n,
            n == a@.len() == b@.len(),
            a@.subrange(0, i as int) == b@.subrange(0, i as int),
        decreases n - i,
    {
        if a[i] != b[i] {
            return false;
        }
        assert(a@.subrange(0, i + 1 as int) =~= b@.subrange(0, i + 1 as int));
        i = i + 1;
    }
    proof {
        assert(a@ =~= a@.subrange(0, n as int));
        assert(b@ =~= b@.subrange(0, n as int));
    }
    true
}

/// Whether a character vector equals a string slice, character for
/// character.
pub fn chars_eq_str(a: &Vec<char>, s: &str) -> (r: bool)
    ensures
        r == (a@ == s@),
{
    let b = chars_of(s);
    chars_eq(a, &b)
}

/// Whether `p` occurs in `s` starting at index `i`.
pub open spec fn spec_match_at(s: Seq<char>, p: Seq<char>, i: int) -> bool {
    0 <= i && i + p.len() <= s.len() && s.subrange(i, i + p.len()) == p
}

/// Whether `p` occurs anywhere in `s` (`str::contains`).
pub open spec fn spec_contains_seq(s: Seq<char>, p: Seq<char>) -> bool {
    exists|i: int| spec_match_at(s, p, i)
}

/// Whether `p` occurs in `s` at exactly index `i`.
pub fn match_at(s: &Vec<char>, p: &Vec<char>, i: usize) -> (r: bool)
    requires
        i + p@.len() <= s@.len(),
    ensures
        r == spec_match_at(s@, p@, i as int),
{
    let n = s.len();
    let m = p.len();
    let mut k: usize = 0;
    while k < m
        invariant
            k <= m,
            n == s@.len(),
            m == p@.len(),
            i + m <= n,
            s@.subrange(i as int, i + k as int) == p@.subrange(0, k as int),
        decreases m - k,
    {
        if s[i + k] != p[k] {
            proof {
                if spec_match_at(s@, p@, i as int) {
                    assert(s@.subrange(i as int, i + m as int)[k as int] == p@[k as int]);
                }
            }
            return false;
        }
        assert(s@.subrange(i as int, i + (k + 1) as int) =~= s@.subrange(i as int, i + k as int)
            + seq![s@[i + k as int]]);
        assert(p@.subrange(0, (k + 1) as int) =~= p@.subrange(0, k as int) + seq![p@[k as int]]);
        k = k + 1;
    }
    proof {
        assert(s@.subrange(i as int, i + m as int) =~= p@.subrange(0, m as int));
        assert(p@.subrange(0, m as int) =~= p@);
    }
    true
}

/// The first occurrence of `p` in `s` at or after `from`, if any.
pub fn find_from(s: &Vec<char>, p: &Vec<char>, from: usize) -> (r: Option<usize>)
    requires
        from <= s@.len(),
    ensures
        match r {
            Some(i) => from <= i && spec_match_at(s@, p@, i as int) && forall|j: int|
                from <= j < i ==> !spec_match_at(s@, p@, j),
            None => forall|j: int| from <= j ==> !spec_match_at(s@, p@, j),
        },
{
    let n = s.len();
    let m = p.len();
    if m == 0 {
        assert(s@.subrange(from as int, from as int) =~= p@);
        return Some(from);
    }
    if m > n {
        return None;
    }
    let last = n - m;
    if from > last {
        return None;
    }
    let mut i: usize = from;
    while i <= last
        invariant
            from <= i <= last + 1,
            n == s@.len(),
            m == p@.len(),
            1 <= m <= n,
            last == n - m,
            forall|j: int| from <= j < i ==> !spec_match_at(s@, p@, j),
        decreases last + 1 - i,
    {
        if match_at(s, p, i) {
            return Some(i);
        }
        i = i + 1;
    }
    None
}

/// `str::contains`.
pub fn contains_seq(s: &Vec<char>, p: &Vec<char>) -> (r: bool)
    ensures
        r == spec_contains_seq(s@, p@),
{
    match find_from(s, p, 0) {
        Some(_) => true,
        None => false,
    }
}

/// Whether `s` starts with `p`.
pub open spec fn spec_starts_with(s: Seq<char>, p: Seq<char>) -> bool {
    spec_match_at(s, p, 0)
}

pub fn starts_with_chars(s: &Vec<char>, p: &Vec<char>) -> (r: bool)
    ensures
        r == spec_starts_with(s@, p@),
{
    if p.len() > s.len() {
        return false;
    }
    match find_from(s, p, 0) {
        Some(i) => {
            if i == 0 {
                true
            } else {
                proof {
                    assert(!spec_match_at(s@, p@, 0));
                }
                false
            }
        },
        None => false,
    }
}

/// Whether `s` ends with `p`.
pub open spec fn spec_ends_with(s: Seq<char>, p: Seq<char>) -> bool {
    spec_match_at(s, p, s.len() - p.len())
}

pub fn ends_with_chars(s: &Vec<char>, p: &Vec<char>) -> (r: bool)
    ensures
        r == spec_ends_with(s@, p@),
{
    let n = s.len();
    let m = p.len();
    if m > n {
        return false;
    }
    let mut k: usize = 0;
    let off = n - m;
    while k < m
        invariant
            k <= m,
            m <= n,
            off == n - m,
            n == s@.len(),
            m == p@.len(),
            s@.subrange(off as int, off + k as int) == p@.subrange(0, k as int),
        decreases m - k,
    {
        if s[off + k] != p[k] {
            return false;
        }
        assert(s@.subrange(off as int, off + (k + 1) as int) =~= p@.subrange(0, (k + 1) as int));
        k = k + 1;
    }
    proof {
        assert(s@.subrange(off as int, off + m as int) =~= p@);
    }
    true
}

/// The concatenation of two character vectors.
pub fn concat_chars(a: &Vec<char>, b: &Vec<char>) -> (r: Vec<char>)
    ensures
        r@ == a@ + b@,
{
    let mut out: Vec<char> = Vec::new();
    let mut i: usize = 0;
    let n = a.len();
    while i < n
        invariant
            i <= n,
            n == a@.len(),
            out@ == a@.subrange(0, i as int),
        decreases n - i,
    {
        out.push(a[i]);
        assert(out@ =~= a@.subrange(0, i + 1 as int));
        i = i + 1;
    }
    assert(out@ =~= a@);
    let m = b.len();
    let mut j: usize = 0;
    while j < m
        invariant
            j <= m,
            m == b@.len(),
            out@ == a@ + b@.subrange(0, j as int),
        decreases m - j,
    {
        out.push(b[j]);
        assert(out@ =~= a@ + b@.subrange(0, j + 1 as int));
        j = j + 1;
    }
    assert(out@ =~= a@ + b@);
    out
}

/// A copy of a sub-range of a character vector.
pub fn subrange_chars(s: &Vec<char>, a: usize, b: usize) -> (r: Vec<char>)
    requires
        a <= b <= s@.len(),
    ensures
        r@ == s@.subrange(a as int, b as int),
{
    let mut out: Vec<char> = Vec::new();
    let mut i: usize = a;
    while i < b
        invariant
            a <= i <= b <= s@.len(),
            out@ == s@.subrange(a as int, i as int),
        decreases b - i,
    {
        out.push(s[i]);
        assert(out@ =~= s@.subrange(a as int, i + 1 as int));
        i = i + 1;
    }
    out
}

/// What `str::replace` returns: each leftmost non-overlapping occurrence of
/// `from` replaced by `to`.
pub open spec fn spec_replace(s: Seq<char>, from: Seq<char>, to: Seq<char>) -> Seq<char>
    decreases s.len(),
    when from.len() > 0
{
    if s.len() < from.len() {
        s
    } else if s.subrange(0, from.len() as int) == from {
        to + spec_replace(s.skip(from.len() as int), from, to)
    } else {
        seq![s[0]] + spec_replace(s.drop_first(), from, to)
    }
}

/// How many leftmost non-overlapping occurrences of `from` occur in `s`
/// (what `str::matches(from).count()` returns for a non-empty pattern).
pub open spec fn spec_count_matches(s: Seq<char>, from: Seq<char>) -> nat
    decreases s.len(),
    when from.len() > 0
{
    if s.len() < from.len() {
        0
    } else if s.subrange(0, from.len() as int) == from {
        1 + spec_count_matches(s.skip(from.len() as int), from)
    } else {
        spec_count_matches(s.drop_first(), from)
    }
}

/// `str::replace` together with the number of occurrences replaced.
pub fn replace_all(s: &Vec<char>, from: &Vec<char>, to: &Vec<char>) -> (r: (Vec<char>, usize))
    requires
        from@.len() > 0,
    ensures
        r.0@ == spec_replace(s@, from@, to@),
        r.1 == spec_count_matches(s@, from@),
{
    let n = s.len();
    let m = from.len();
    let mut out: Vec<char> = Vec::new();
    let mut count: usize = 0;
    let mut i: usize = 0;
    proof {
        assert(s@.skip(0) =~= s@);
    }
    while i < n
        invariant
            i <= n,
            count <= i,
            n == s@.len(),
            m == from@.len(),
            m > 0,
            spec_replace(s@, from@, to@) == out@ + spec_replace(s@.skip(i as int), from@, to@),
            spec_count_matches(s@, from@) == count + spec_count_matches(s@.skip(i as int), from@),
        decreases n - i,
    {
        let ghost tail = s@.skip(i as int);
        if m <= n - i && match_at(s, from, i) {
            proof {
                assert(tail.subrange(0, m as int) =~= s@.subrange(i as int, i + m as int));
                assert(tail.skip(m as int) =~= s@.skip(i + m as int));
            }
            let ghost old_out = out@;
            let mut k: usize = 0;
            let tlen = to.len();
            while k < tlen
                invariant
                    k <= tlen,
                    tlen == to@.len(),
                    out@ == old_out + to@.subrange(0, k as int),
                decreases tlen - k,
            {
                out.push(to[k]);
                assert(out@ =~= old_out + to@.subrange(0, k + 1 as int));
                k = k + 1;
            }
            proof {
                assert(to@.subrange(0, tlen as int) =~= to@);
                assert(old_out + to@ + spec_replace(s@.skip(i + m as int), from@, to@) =~= old_out
                    + (to@ + spec_replace(s@.skip(i + m as int), from@, to@)));
            }
            i = i + m;
            count = count + 1;
        } else {
            let ghost old_out = out@;
            proof {
                if tail.len() >= m && tail.subrange(0, m as int) == from@ {
                    assert(tail.subrange(0, m as int) =~= s@.subrange(i as int, i + m as int));
                    assert(spec_match_at(s@, from@, i as int));
                }
                assert(tail.drop_first() =~= s@.skip(i + 1 as int));
                assert(tail[0] == s@[i as int]);
            }
            out.push(s[i]);
            proof {
                assert(out@ =~= old_out + seq![s@[i as int]]);
                if tail.len() < m {
                    assert(spec_replace(tail, from@, to@) == tail);
                    assert(s@.skip(i + 1 as int).len() < m);
                    assert(spec_replace(s@.skip(i + 1 as int), from@, to@) == s@.skip(
                        i + 1 as int,
                    ));
                    assert(tail =~= seq![s@[i as int]] + s@.skip(i + 1 as int));
                }
                assert(old_out + (seq![s@[i as int]] + spec_replace(
                    s@.skip(i + 1 as int),
                    from@,
                    to@,
                )) =~= out@ + spec_replace(s@.skip(i + 1 as int), from@, to@));
            }
            i = i + 1;
        }
    }
    proof {
        assert(s@.skip(n as int) =~= Seq::<char>::empty());
    }
    (out, count)
}

/// The views of a vector of character vectors.
pub open spec fn views(s: Seq<Vec<char>>) -> Seq<Seq<char>> {
    s.map_values(|p: Vec<char>| p@)
}

/// What `str::split(sep)` yields, in order. There is always at least one
/// part; an empty string yields one empty part.
pub open spec fn spec_split_char(s: Seq<char>, sep: char) -> Seq<Seq<char>>
    decreases s.len(),
{
    if s.len() == 0 {
        seq![Seq::<char>::empty()]
    } else if s[0] == sep {
        seq![Seq::<char>::empty()] + spec_split_char(s.drop_first(), sep)
    } else {
        let rest = spec_split_char(s.drop_first(), sep);
        seq![seq![s[0]] + rest[0]] + rest.drop_first()
    }
}

pub proof fn lemma_split_char_len(s: Seq<char>, sep: char)
    ensures
        spec_split_char(s, sep).len() >= 1,
    decreases s.len(),
{
    if s.len() > 0 {
        lemma_split_char_len(s.drop_first(), sep);
    }
}

/// `str::split(sep)`, collected.
pub fn split_char(v: &Vec<char>, sep: char) -> (r: Vec<Vec<char>>)
    ensures
        views(r@) == spec_split_char(v@, sep),
{
    let n = v.len();
    let mut done: Vec<Vec<char>> = Vec::new();
    let mut cur: Vec<char> = Vec::new();
    let mut i: usize = 0;
    proof {
        assert(v@.skip(0) =~= v@);
    }
    while i < n
        invariant
            i <= n,
            n == v@.len(),
            spec_split_char(v@, sep) =~= views(done@) + ({
                let rest = spec_split_char(v@.skip(i as int), sep);
                seq![cur@ + rest[0]] + rest.drop_first()
            }),
        decreases n - i,
    {
        let ghost tail = v@.skip(i as int);
        let ghost old_done = done@;
        let ghost old_cur = cur@;
        let ghost rest = spec_split_char(v@.skip(i + 1 as int), sep);
        let ghost r0 = spec_split_char(tail, sep);
        proof {
            assert(tail.drop_first() =~= v@.skip(i + 1 as int));
            lemma_split_char_len(v@.skip(i + 1 as int), sep);
        }
        if v[i] == sep {
            done.push(cur);
            cur = Vec::new();
            proof {
                assert(r0 == seq![Seq::<char>::empty()] + rest);
                assert(r0[0] =~= Seq::<char>::empty());
                assert(old_cur + r0[0] =~= old_cur);
                assert(r0.drop_first() =~= rest);
                assert(views(done@) =~= views(old_done) + seq![old_cur]);
                assert(cur@ + rest[0] =~= rest[0]);
                assert(seq![cur@ + rest[0]] + rest.drop_first() =~= rest);
                assert(seq![old_cur + r0[0]] + r0.drop_first() =~= seq![old_cur] + rest);
                assert(views(old_done) + (seq![old_cur] + rest) =~= (views(old_done) + seq![
                    old_cur,
                ]) + rest);
            }
        } else {
            let c = v[i];
            cur.push(c);
            proof {
                assert(r0 == seq![seq![tail[0]] + rest[0]] + rest.drop_first());
                assert(r0[0] == seq![tail[0]] + rest[0]);
                assert(cur@ =~= old_cur + seq![tail[0]]);
                assert(old_cur + (seq![tail[0]] + rest[0]) =~= cur@ + rest[0]);
                assert(r0.drop_first() =~= rest.drop_first());
                assert(seq![old_cur + r0[0]] + r0.drop_first() =~= seq![cur@ + rest[0]]
                    + rest.drop_first());
            }
        }
        i = i + 1;
    }
    let ghost old_done = done@;
    let ghost old_cur = cur@;
    done.push(cur);
    proof {
        assert(v@.skip(n as int) =~= Seq::<char>::empty());
        let e = spec_split_char(Seq::<char>::empty(), sep);
        assert(e == seq![Seq::<char>::empty()]);
        assert(old_cur + e[0] =~= old_cur);
        assert(seq![old_cur + e[0]] + e.drop_first() =~= seq![old_cur]);
        assert(views(done@) =~= views(old_done) + seq![old_cur]);
    }
    done
}

pub open spec fn spec_is_digit(c: char) -> bool {
    '0' <= c && c <= '9'
}

pub open spec fn spec_digit_val(c: char) -> int {
    c as int - 48
}

/// The value of a digit string read in base ten.
pub open spec fn spec_digits_val(s: Seq<char>) -> int
    decreases s.len(),
{
    if s.len() == 0 {
        0
    } else {
        spec_digits_val(s.drop_last()) * 10 + spec_digit_val(s.last())
    }
}

pub open spec fn spec_all_digits(s: Seq<char>) -> bool {
    forall|i: int| 0 <= i < s.len() ==> spec_is_digit(s[i])
}

/// What `str::parse::<i64>` accepts and returns: an optional sign, then at
/// least one decimal digit, the value within the type's range.
pub open spec fn spec_parse_i64(s: Seq<char>) -> Option<int> {
    let neg = s.len() > 0 && s[0] == '-';
    let ds = if s.len() > 0 && (s[0] == '-' || s[0] == '+') {
        s.drop_first()
    } else {
        s
    };
    if ds.len() == 0 || !spec_all_digits(ds) {
        None
    } else {
        let mag = spec_digits_val(ds);
        if neg {
            if mag <= 0x8000000000000000 {
                Some(-mag)
            } else {
                None
            }
        } else {
            if mag <= 0x7fffffffffffffff {
                Some(mag)
            } else {
                None
            }
        }
    }
}

proof fn lemma_digits_val_nonneg(s: Seq<char>)
    requires
        spec_all_digits(s),
    ensures
        spec_digits_val(s) >= 0,
    decreases s.len(),
{
    if s.len() > 0 {
        assert(spec_all_digits(s.drop_last()));
        lemma_digits_val_nonneg(s.drop_last());
    }
}

/// Reading further digits never shrinks the value.
proof fn lemma_digits_val_mono(s: Seq<char>, i: int)
    requires
        spec_all_digits(s),
        0 <= i <= s.len(),
    ensures
        spec_digits_val(s) >= spec_digits_val(s.take(i)),
    decreases s.len() - i,
{
    if i == s.len() {
        assert(s.take(i) =~= s);
    } else {
        assert(s.take(i + 1).drop_last() =~= s.take(i));
        assert(spec_all_digits(s.take(i)));
        lemma_digits_val_nonneg(s.take(i));
        assert(spec_digits_val(s.take(i + 1)) == spec_digits_val(s.take(i)) * 10 + spec_digit_val(
            s[i],
        ));
        lemma_digits_val_mono(s, i + 1);
    }
}

/// `str::parse::<i64>` on a character vector.
pub fn parse_i64_chars(v: &Vec<char>) -> (r: Option<i64>)
    ensures
        match r {
            Some(x) => spec_parse_i64(v@) == Some(x as int),
            None => spec_parse_i64(v@) is None,
        },
{
    let n = v.len();
    let mut neg: bool = false;
    let mut start: usize = 0;
    if n > 0 && (v[0] == '-' || v[0] == '+') {
        neg = v[0] == '-';
        start = 1;
    }
    if start >= n {
        return None;
    }
    let ghost ds = v@.skip(start as int);
    proof {
        if start == 1 {
            assert(v@.drop_first() =~= v@.skip(1));
        } else {
            assert(v@.skip(0) =~= v@);
        }
    }
    let max_mag: u64 = if neg {
        9223372036854775808
    } else {
        9223372036854775807
    };
    let mut acc: u64 = 0;
    let mut i: usize = start;
    proof {
        assert(ds.take(0) =~= Seq::<char>::empty());
    }
    while i < n
        invariant
            start <= i <= n,
            start < n,
            n == v@.len(),
            start == 0 || start == 1,
            ds == v@.skip(start as int),
            neg == (v@.len() > 0 && v@[0] == '-'),
            start == 1 <==> (v@.len() > 0 && (v@[0] == '-' || v@[0] == '+')),
            max_mag == if neg { 0x8000000000000000u64 } else { 0x7fffffffffffffffu64 },
            spec_all_digits(ds.take(i - start)),
            acc == spec_digits_val(ds.take(i - start)),
            acc <= max_mag,
        decreases n - i,
    {
        proof {
            if start == 1 {
                assert(v@.drop_first() =~= v@.skip(1));
            } else {
                assert(v@.skip(0) =~= v@);
            }
        }
        let c = v[i];
        assert(c == ds[i - start]);
        if !('0' <= c && c <= '9') {
            proof {
                assert(!spec_is_digit(ds[i - start]));
                assert(!spec_all_digits(ds));
            }
            return None;
        }
        let d: u64 = ((c as u32) - 48) as u64;
        assert(d == spec_digit_val(c) && d <= 9);
        proof {
            assert(ds.take(i + 1 - start).drop_last() =~= ds.take(i - start));
            assert(ds.take(i + 1 - start).last() == c);
            assert(spec_digits_val(ds.take(i + 1 - start)) == acc * 10 + d);
            assert(spec_all_digits(ds.take(i + 1 - start)));
        }
        if acc > (max_mag - d) / 10 {
            proof {
                assert(acc * 10 + d > max_mag) by {
                    let q = ((max_mag - d) / 10) as int;
                    let rr = ((max_mag - d) % 10) as int;
                    assert(q * 10 + rr == max_mag - d);
                    assert(acc >= q + 1);
                    assert(acc * 10 >= (q + 1) * 10) by (nonlinear_arith)
                        requires
                            acc >= q + 1,
                    ;
                }
                if spec_all_digits(ds) {
                    lemma_digits_val_mono(ds, i + 1 - start);
                    assert(spec_digits_val(ds) >= spec_digits_val(ds.take(i + 1 - start)));
                    assert(spec_digits_val(ds.take(i + 1 - start)) == acc * 10 + d);
                    assert(spec_digits_val(ds) > max_mag);
                    assert(spec_parse_i64(v@) is None);
                } else {
                    assert(spec_parse_i64(v@) is None);
                }
            }
            return None;
        }
        proof {
            let q = ((max_mag - d) / 10) as int;
            let rr = ((max_mag - d) % 10) as int;
            assert(q * 10 + rr == max_mag - d);
            assert(acc * 10 <= q * 10) by (nonlinear_arith)
                requires
                    acc <= q,
            ;
        }
        acc = acc * 10 + d;
        i = i + 1;
    }
    proof {
        assert(ds.take(n - start) =~= ds);
        assert(acc == spec_digits_val(ds));
        assert(spec_all_digits(ds));
    }
    if neg {
        if acc == 9223372036854775808 {
            Some(i64::MIN)
        } else {
            Some(-(acc as i64))
        }
    } else {
        Some(acc as i64)
    }
}

/// The decimal digits of `n`, most significant first.
pub open spec fn spec_u64_digits(n: nat) -> Seq<char>
    decreases n,
{
    if n < 10 {
        seq![((48 + n) as u8) as char]
    } else {
        spec_u64_digits(n / 10) + seq![((48 + n % 10) as u8) as char]
    }
}

/// The decimal rendering of a signed value: a minus sign before the digits
/// of its magnitude.
pub open spec fn spec_i64_digits(n: int) -> Seq<char> {
    if n < 0 {
        seq!['-'] + spec_u64_digits((-n) as nat)
    } else {
        spec_u64_digits(n as nat)
    }
}

/// The decimal digits of `n`.
pub fn u64_to_chars(n: u64) -> (r: Vec<char>)
    ensures
        r@ == spec_u64_digits(n as nat),
    decreases n,
{
    if n < 10 {
        let mut out: Vec<char> = Vec::new();
        out.push(((48 + n) as u8) as char);
        assert(out@ =~= spec_u64_digits(n as nat));
        out
    } else {
        let mut out = u64_to_chars(n / 10);
        out.push(((48 + n % 10) as u8) as char);
        assert(out@ =~= spec_u64_digits(n as nat));
        out
    }
}

/// The decimal rendering of `n`, minus sign included.
pub fn i64_to_chars(n: i64) -> (r: Vec<char>)
    ensures
        r@ == spec_i64_digits(n as int),
{
    if n < 0 {
        let mag: u64 = if n == i64::MIN {
            9223372036854775808u64
        } else {
            (-n) as u64
        };
        let digits = u64_to_chars(mag);
        let mut out: Vec<char> = Vec::new();
        out.push('-');
        let r = concat_chars(&out, &digits);
        assert(out@ =~= seq!['-']);
        r
    } else {
        u64_to_chars(n as u64)
    }
}

} // verus!
