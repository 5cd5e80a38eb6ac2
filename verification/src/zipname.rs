use vstd::prelude::*;
use crate::text::{
    spec_trim, spec_ascii_lower_seq, spec_ends_with, spec_split_char, spec_starts_with, trim_chars,
    ascii_lower_chars, chars_of, string_from_chars, ends_with_chars, split_char, concat_chars,
    subrange_chars, views, starts_with_chars, chars_eq,
};
use crate::rename::{spec_trim_start_matches_char};

verus! {

/// One entry of an archive or directory listing, with nested archives shown
/// as directories.
pub struct ZipEntryMeta {
    pub path: String,
    pub is_dir: bool,
    pub size: Option<u64>,
}

/// One file lifted out of a (possibly nested) archive: its virtual path and
/// its bytes.
pub struct VirtualFile {
    pub path: String,
    pub data: Vec<u8>,
}

/// Whether a file name designates a zip-style archive: after trimming, its
/// ASCII-lowercased form ends in a zip extension.
pub open spec fn spec_is_zip_like(name: Seq<char>) -> bool {
    spec_ends_with(spec_ascii_lower_seq(spec_trim(name)), ".zip"@) || spec_ends_with(
        spec_ascii_lower_seq(spec_trim(name)),
        ".zipx"@,
    )
}

/// Whether a name looks like a zip archive; see `spec_is_zip_like`.
pub fn is_zip_like(name: &str) -> (r: bool)
    ensures
        r == spec_is_zip_like(name@),
{
    let v = chars_of(name);
    let t = trim_chars(&v);
    let lower = ascii_lower_chars(&t);
    let z4 = chars_of(".zip");
    let z5 = chars_of(".zipx");
    ends_with_chars(&lower, &z4) || ends_with_chars(&lower, &z5)
}

/// A name with one zip extension removed (checked case-insensitively), or
/// the name itself.
pub open spec fn spec_strip_zip_extension(name: Seq<char>) -> Seq<char> {
    let lower = spec_ascii_lower_seq(name);
    if spec_ends_with(lower, ".zipx"@) {
        name.take(name.len() - 5)
    } else if spec_ends_with(lower, ".zip"@) {
        name.take(name.len() - 4)
    } else {
        name
    }
}

/// Removes a trailing zip extension; see `spec_strip_zip_extension`.
pub fn strip_zip_extension(name: &str) -> (r: String)
    ensures
        r@ == spec_strip_zip_extension(name@),
{
    let v = chars_of(name);
    let lower = ascii_lower_chars(&v);
    let z4 = chars_of(".zip");
    let z5 = chars_of(".zipx");
    if ends_with_chars(&lower, &z5) {
        proof {
            reveal_strlit(".zipx");
        }
        let kept = subrange_chars(&v, 0, v.len() - 5);
        proof {
            assert(v@.subrange(0, v@.len() - 5) =~= v@.take(v@.len() - 5));
        }
        string_from_chars(&kept)
    } else if ends_with_chars(&lower, &z4) {
        proof {
            reveal_strlit(".zip");
        }
        let kept = subrange_chars(&v, 0, v.len() - 4);
        proof {
            assert(v@.subrange(0, v@.len() - 4) =~= v@.take(v@.len() - 4));
        }
        string_from_chars(&kept)
    } else {
        name.to_owned()
    }
}

pub open spec fn spec_trim_end_matches_char(s: Seq<char>, c: char) -> Seq<char>
    decreases s.len(),
{
    if s.len() > 0 && s.last() == c {
        spec_trim_end_matches_char(s.drop_last(), c)
    } else {
        s
    }
}

/// `str::trim_matches` for one character.
pub open spec fn spec_trim_matches_char(s: Seq<char>, c: char) -> Seq<char> {
    spec_trim_end_matches_char(spec_trim_start_matches_char(s, c), c)
}

fn trim_matches_char(v: &Vec<char>, c: char) -> (r: Vec<char>)
    ensures
        r@ == spec_trim_matches_char(v@, c),
{
    let n = v.len();
    let mut a: usize = 0;
    proof {
        assert(v@.subrange(0, n as int) =~= v@);
    }
    while a < n && v[a] == c
        invariant
            a <= n,
            n == v@.len(),
            spec_trim_start_matches_char(v@, c) == spec_trim_start_matches_char(
                v@.subrange(a as int, n as int),
                c,
            ),
        decreases n - a,
    {
        proof {
            assert(v@.subrange(a as int, n as int).drop_first() =~= v@.subrange(
                a + 1 as int,
                n as int,
            ));
        }
        a = a + 1;
    }
    proof {
        assert(spec_trim_start_matches_char(v@.subrange(a as int, n as int), c) == v@.subrange(
            a as int,
            n as int,
        ));
    }
    let mut b: usize = n;
    while b > a && v[b - 1] == c
        invariant
            a <= b <= n,
            n == v@.len(),
            spec_trim_start_matches_char(v@, c) == v@.subrange(a as int, n as int),
            spec_trim_end_matches_char(v@.subrange(a as int, n as int), c)
                == spec_trim_end_matches_char(v@.subrange(a as int, b as int), c),
        decreases b,
    {
        proof {
            assert(v@.subrange(a as int, b as int).drop_last() =~= v@.subrange(
                a as int,
                b - 1 as int,
            ));
        }
        b = b - 1;
    }
    proof {
        assert(spec_trim_end_matches_char(v@.subrange(a as int, b as int), c) == v@.subrange(
            a as int,
            b as int,
        ));
    }
    subrange_chars(v, a, b)
}

/// Segments appended below a prefix with slashes, empty segments skipped;
/// the prefix is first stripped of outer slashes.
pub open spec fn spec_join_virtual(prefix: Seq<char>, segs: Seq<Seq<char>>) -> Seq<char>
    decreases segs.len(),
{
    if segs.len() == 0 {
        spec_trim_matches_char(prefix, '/')
    } else {
        let done = spec_join_virtual(prefix, segs.drop_last());
        let seg = segs.last();
        if seg.len() == 0 {
            done
        } else if done.len() == 0 {
            seg
        } else {
            done + seq!['/'] + seg
        }
    }
}

/// Joins path segments below a prefix; see `spec_join_virtual`.
pub fn join_virtual_segments(prefix: &str, segments: &Vec<String>) -> (r: String)
    ensures
        r@ == spec_join_virtual(prefix@, segments@.map_values(|s: String| s@)),
{
    let pv = chars_of(prefix);
    let mut path = trim_matches_char(&pv, '/');
    let ghost segs = segments@.map_values(|s: String| s@);
    let n = segments.len();
    let mut i: usize = 0;
    proof {
        assert(segs.take(0) =~= Seq::<Seq<char>>::empty());
    }
    while i < n
        invariant
            i <= n,
            n == segments@.len(),
            pv@ == prefix@,
            segs == segments@.map_values(|s: String| s@),
            path@ == spec_join_virtual(prefix@, segs.take(i as int)),
        decreases n - i,
    {
        proof {
            assert(segs.take(i + 1 as int).drop_last() =~= segs.take(i as int));
            assert(segs.take(i + 1 as int).last() == segs[i as int]);
            assert(segs[i as int] == segments@[i as int]@);
        }
        let seg = chars_of(segments[i].as_str());
        if seg.len() == 0 {
        } else if path.len() == 0 {
            path = seg;
        } else {
            let mut slash: Vec<char> = Vec::new();
            slash.push('/');
            proof {
                assert(slash@ =~= seq!['/']);
            }
            let joined = concat_chars(&concat_chars(&path, &slash), &seg);
            path = joined;
        }
        i = i + 1;
    }
    proof {
        assert(segs.take(n as int) =~= segs);
    }
    string_from_chars(&path)
}

/// A virtual path normalized: empty segments dropped, each remaining
/// segment stripped of a zip extension, joined with slashes.
pub open spec fn spec_normalize_zip_segments(path: Seq<char>) -> Seq<char> {
    spec_join_virtual(
        Seq::empty(),
        spec_split_char(path, '/').filter(|s: Seq<char>| s.len() > 0).map_values(
            |s: Seq<char>| spec_strip_zip_extension(s),
        ),
    )
}

/// Normalizes a nested-archive path; see `spec_normalize_zip_segments`.
pub fn normalize_zip_segments(path: &str) -> (r: String)
    ensures
        r@ == spec_normalize_zip_segments(path@),
{
    let pv = chars_of(path);
    let parts = split_char(&pv, '/');
    let mut kept: Vec<String> = Vec::new();
    let n = parts.len();
    let mut i: usize = 0;
    let ghost target = spec_split_char(path@, '/').filter(|s: Seq<char>| s.len() > 0).map_values(
        |s: Seq<char>| spec_strip_zip_extension(s),
    );
    proof {
        reveal(Seq::filter);
        assert(views(parts@).take(0) =~= Seq::<Seq<char>>::empty());
        assert(kept@.map_values(|s: String| s@) =~= views(parts@).take(0).filter(
            |s: Seq<char>| s.len() > 0,
        ).map_values(|s: Seq<char>| spec_strip_zip_extension(s)));
    }
    while i < n
        invariant
            i <= n,
            n == parts@.len(),
            pv@ == path@,
            views(parts@) == spec_split_char(path@, '/'),
            kept@.map_values(|s: String| s@) =~= views(parts@).take(i as int).filter(
                |s: Seq<char>| s.len() > 0,
            ).map_values(|s: Seq<char>| spec_strip_zip_extension(s)),
        decreases n - i,
    {
        proof {
            reveal(Seq::filter);
            assert(views(parts@).take(i + 1 as int).drop_last() =~= views(parts@).take(i as int));
            assert(views(parts@).take(i + 1 as int).last() == views(parts@)[i as int]);
            assert(views(parts@)[i as int] == parts@[i as int]@);
        }
        if parts[i].len() > 0 {
            let seg = string_from_chars(&parts[i]);
            let stripped = strip_zip_extension(seg.as_str());
            kept.push(stripped);
            proof {
                assert(kept@.map_values(|s: String| s@) =~= views(parts@).take(
                    i as int,
                ).filter(|s: Seq<char>| s.len() > 0).map_values(
                    |s: Seq<char>| spec_strip_zip_extension(s),
                ).push(spec_strip_zip_extension(parts@[i as int]@)));
            }
        }
        i = i + 1;
    }
    proof {
        assert(views(parts@).take(n as int) =~= views(parts@));
        reveal_strlit("");
        assert(""@ =~= Seq::<char>::empty());
        assert(kept@.map_values(|s: String| s@) =~= target);
    }
    join_virtual_segments("", &kept)
}

/// Whether a virtual path belongs to the project rooted at `root` (an empty
/// root claims everything).
pub open spec fn spec_related(p: Seq<char>, root: Seq<char>) -> bool {
    root.len() == 0 || p == root || spec_starts_with(p, root + seq!['/'])
}

/// The indices of the files that belong to the project rooted at `root`, in
/// order.
pub fn collect_related(files: &Vec<VirtualFile>, root: &str) -> (r: Vec<usize>)
    ensures
        forall|k: int|
            0 <= k < r@.len() ==> 0 <= #[trigger] r@[k] < files@.len() && spec_related(
                files@[r@[k] as int].path@,
                root@,
            ),
        forall|k1: int, k2: int| 0 <= k1 < k2 < r@.len() ==> r@[k1] < r@[k2],
        forall|i: int|
            0 <= i < files@.len() && spec_related(#[trigger] files@[i].path@, root@) ==> r@.contains(
                i as usize,
            ),
{
    let rv = chars_of(root);
    let mut slash: Vec<char> = Vec::new();
    slash.push('/');
    let prefix = concat_chars(&rv, &slash);
    proof {
        assert(slash@ =~= seq!['/']);
    }
    let n = files.len();
    let mut out: Vec<usize> = Vec::new();
    let mut i: usize = 0;
    while i < n
        invariant
            i <= n,
            n == files@.len(),
            rv@ == root@,
            prefix@ == root@ + seq!['/'],
            forall|k: int|
                0 <= k < out@.len() ==> 0 <= #[trigger] out@[k] < i && spec_related(
                    files@[out@[k] as int].path@,
                    root@,
                ),
            forall|k1: int, k2: int| 0 <= k1 < k2 < out@.len() ==> out@[k1] < out@[k2],
            forall|j: int|
                0 <= j < i && spec_related(#[trigger] files@[j].path@, root@) ==> out@.contains(
                    j as usize,
                ),
        decreases n - i,
    {
        let pc = chars_of(files[i].path.as_str());
        let hit = rv.len() == 0 || chars_eq(&pc, &rv) || starts_with_chars(&pc, &prefix);
        assert(hit == spec_related(files@[i as int].path@, root@));
        let ghost out0 = out@;
        if hit {
            out.push(i);
            proof {
                assert(out@.last() == i);
                assert(forall|k: int| 0 <= k < out0.len() ==> #[trigger] out@[k] == out0[k]);
                assert forall|j: int|
                    0 <= j < i + 1 && spec_related(#[trigger] files@[j].path@, root@)
                    implies out@.contains(j as usize) by {
                    if j < i {
                        assert(out0.contains(j as usize));
                        let k = choose|k: int| 0 <= k < out0.len() && out0[k] == j as usize;
                        assert(out@[k] == j as usize);
                    } else {
                        assert(out@[out@.len() - 1] == j as usize);
                    }
                }
            }
        } else {
            proof {
                assert forall|j: int|
                    0 <= j < i + 1 && spec_related(#[trigger] files@[j].path@, root@)
                    implies out@.contains(j as usize) by {
                    assert(j < i);
                }
            }
        }
        i = i + 1;
    }
    out
}

} // verus!
