use vstd::prelude::*;
use vstd::std_specs::vec::vec_index_mut;
use crate::text::{spec_starts_with, chars_of, concat_chars, subrange_chars, string_from_chars};

verus! {

/// One entry of a folder's modelled file tree: a workspace-relative
/// forward-slash path, whether it is a directory, and (for files) its text
/// content.
pub struct FsNode {
    pub path: String,
    pub is_dir: bool,
    pub content: String,
}

/// The mathematical image of one node.
pub struct FsNodeView {
    pub path: Seq<char>,
    pub is_dir: bool,
    pub content: Seq<char>,
}

impl View for FsNode {
    type V = FsNodeView;

    open spec fn view(&self) -> FsNodeView {
        FsNodeView { path: self.path@, is_dir: self.is_dir, content: self.content@ }
    }
}

/// The modelled contents of one workspace sub-folder. The engine reads and
/// mutates this value; the embedder mirrors it from and back to the real
/// file system.
pub struct FolderFs {
    pub nodes: Vec<FsNode>,
}

impl View for FolderFs {
    type V = Seq<FsNodeView>;

    open spec fn view(&self) -> Seq<FsNodeView> {
        self.nodes@.map_values(|n: FsNode| n@)
    }
}

/// Whether path `k` equals `root` or lies beneath it.
pub open spec fn spec_under(k: Seq<char>, root: Seq<char>) -> bool {
    k == root || spec_starts_with(k, root + seq!['/'])
}

/// The first node with the given path, if any.
pub open spec fn spec_find_node(v: Seq<FsNodeView>, p: Seq<char>) -> Option<FsNodeView>
    decreases v.len(),
{
    if v.len() == 0 {
        None
    } else if v[0].path == p {
        Some(v[0])
    } else {
        spec_find_node(v.drop_first(), p)
    }
}

/// Well-formedness: no two nodes share a path.
pub open spec fn spec_wf_fs(v: Seq<FsNodeView>) -> bool {
    forall|i: int, j: int| 0 <= i < j < v.len() ==> v[i].path != v[j].path
}

proof fn lemma_find_node_some(v: Seq<FsNodeView>, p: Seq<char>)
    ensures
        match spec_find_node(v, p) {
            Some(n) => exists|i: int| 0 <= i < v.len() && v[i] == n && n.path == p,
            None => forall|i: int| 0 <= i < v.len() ==> v[i].path != p,
        },
    decreases v.len(),
{
    if v.len() > 0 {
        lemma_find_node_some(v.drop_first(), p);
        if v[0].path != p {
            assert(forall|i: int| 1 <= i < v.len() ==> #[trigger] v[i] == v.drop_first()[i - 1]);
            match spec_find_node(v.drop_first(), p) {
                Some(n) => {
                    let i = choose|i: int|
                        0 <= i < v.drop_first().len() && v.drop_first()[i] == n && n.path == p;
                    assert(v[i + 1] == n);
                },
                None => {},
            }
        }
    }
}

/// With no duplicate paths, any node of the sequence whose path is `p` is
/// the node `spec_find_node` returns.
pub proof fn lemma_find_node_at(v: Seq<FsNodeView>, p: Seq<char>, i: int)
    requires
        spec_wf_fs(v),
        0 <= i < v.len(),
        v[i].path == p,
    ensures
        spec_find_node(v, p) == Some(v[i]),
    decreases v.len(),
{
    if i > 0 {
        assert(v[0].path != p);
        assert(v.drop_first()[i - 1] == v[i]);
        assert(spec_wf_fs(v.drop_first())) by {
            assert(forall|a: int, b: int|
                0 <= a < b < v.drop_first().len() ==> v.drop_first()[a] == v[a + 1]
                    && v.drop_first()[b] == v[b + 1]);
        }
        lemma_find_node_at(v.drop_first(), p, i - 1);
    }
}

impl FolderFs {
    pub open spec fn wf(&self) -> bool {
        spec_wf_fs(self@)
    }

    /// A folder with nothing in it.
    pub fn new() -> (r: Self)
        ensures
            r@ =~= Seq::<FsNodeView>::empty(),
            r.wf(),
    {
        FolderFs { nodes: Vec::new() }
    }

    /// The index of the node at path `p`, if one exists.
    pub fn find_index(&self, p: &str) -> (r: Option<usize>)
        ensures
            match r {
                Some(i) => i < self@.len() && self@[i as int].path == p@ && spec_find_node(
                    self@,
                    p@,
                ) == Some(self@[i as int]) && forall|j: int| 0 <= j < i ==> self@[j].path != p@,
                None => spec_find_node(self@, p@) is None && forall|j: int|
                    0 <= j < self@.len() ==> self@[j].path != p@,
            },
    {
        let pv = chars_of(p);
        let n = self.nodes.len();
        let mut i: usize = 0;
        proof {
            assert(self@.skip(0) =~= self@);
        }
        while i < n
            invariant
                i <= n,
                n == self@.len(),
                pv@ == p@,
                self@.len() == self.nodes@.len(),
                spec_find_node(self@, p@) == spec_find_node(self@.skip(i as int), p@),
                forall|j: int| 0 <= j < i ==> self@[j].path != p@,
            decreases n - i,
        {
            proof {
                assert(self@.skip(i as int).drop_first() =~= self@.skip(i + 1 as int));
                assert(self@.skip(i as int)[0] == self@[i as int]);
            }
            let node_chars = chars_of(self.nodes[i].path.as_str());
            if crate::text::chars_eq(&node_chars, &pv) {
                return Some(i);
            }
            i = i + 1;
        }
        proof {
            assert(self@.skip(n as int) =~= Seq::<FsNodeView>::empty());
        }
        None
    }

    /// Whether anything (file or directory) exists at `p`.
    pub fn exists_path(&self, p: &str) -> (r: bool)
        ensures
            r == (spec_find_node(self@, p@) is Some),
    {
        match self.find_index(p) {
            Some(_) => true,
            None => false,
        }
    }

    /// Whether a directory exists at `p`.
    pub fn dir_at(&self, p: &str) -> (r: bool)
        ensures
            r == (spec_find_node(self@, p@) matches Some(n) && n.is_dir),
    {
        match self.find_index(p) {
            Some(i) => self.nodes[i].is_dir,
            None => false,
        }
    }

    /// Whether a file exists at `p`.
    pub fn file_at(&self, p: &str) -> (r: bool)
        ensures
            r == (spec_find_node(self@, p@) matches Some(n) && !n.is_dir),
    {
        match self.find_index(p) {
            Some(i) => !self.nodes[i].is_dir,
            None => false,
        }
    }

    /// The content of the file at `p`, if a file is there.
    pub fn read_file(&self, p: &str) -> (r: Option<String>)
        ensures
            match r {
                Some(c) => spec_find_node(self@, p@) matches Some(n) && !n.is_dir && c@
                    == n.content,
                None => !(spec_find_node(self@, p@) matches Some(n) && !n.is_dir),
            },
    {
        match self.find_index(p) {
            Some(i) => {
                if self.nodes[i].is_dir {
                    None
                } else {
                    Some(self.nodes[i].content.clone())
                }
            },
            None => None,
        }
    }

    /// Writes a file at `p`, replacing an existing file's content; fails if
    /// a directory stands at `p` (as the real write would).
    pub fn write_file(&mut self, p: &str, content: &str) -> (r: Result<(), ()>)
        requires
            old(self).wf(),
        ensures
            final(self).wf(),
            match r {
                Ok(()) => final(self)@ == spec_write(old(self)@, p@, content@),
                Err(()) => final(self)@ == old(self)@,
            },
            r is Err <==> (spec_find_node(old(self)@, p@) matches Some(n) && n.is_dir),
    {
        let ghost v0 = self@;
        match self.find_index(p) {
            Some(i) => {
                if self.nodes[i].is_dir {
                    return Err(());
                }
                let ghost iv = i as int;
                let e = vec_index_mut(&mut self.nodes, i);
                e.content = content.to_owned();
                proof {
                    assert(self@ =~= v0.update(
                        iv,
                        FsNodeView { path: p@, is_dir: false, content: content@ },
                    ));
                    lemma_spec_write_update(v0, p@, content@, iv);
                    assert(spec_wf_fs(self@)) by {
                        assert(forall|a: int|
                            0 <= a < self@.len() ==> self@[a].path == v0[a].path);
                    }
                }
                Ok(())
            },
            None => {
                self.nodes.push(
                    FsNode { path: p.to_owned(), is_dir: false, content: content.to_owned() },
                );
                proof {
                    assert(self@ =~= v0.push(
                        FsNodeView { path: p@, is_dir: false, content: content@ },
                    ));
                    lemma_spec_write_push(v0, p@, content@);
                    assert(spec_wf_fs(self@)) by {
                        assert(forall|a: int| 0 <= a < v0.len() ==> self@[a] == v0[a]);
                    }
                }
                Ok(())
            },
        }
    }

    /// Creates any missing ancestor directories of `p` (what creating the
    /// parent recursively does before a write); fails when an ancestor
    /// already exists as a file, leaving the directories added so far.
    pub fn ensure_parents(&mut self, p: &str) -> (r: Result<(), ()>)
        requires
            old(self).wf(),
        ensures
            final(self).wf(),
            r is Ok ==> final(self)@ == spec_add_dirs(old(self)@, spec_slash_prefixes(p@))
                && forall|i: int|
                0 <= i < spec_slash_prefixes(p@).len() ==> (spec_find_node(
                    final(self)@,
                    #[trigger] spec_slash_prefixes(p@)[i],
                ) matches Some(n) && n.is_dir),
            r is Err <==> spec_parents_blocked(old(self)@, p@),
            r is Err ==> exists|jf: int|
                0 <= jf < spec_slash_prefixes(p@).len() && final(self)@ == spec_add_dirs(
                    old(self)@,
                    spec_slash_prefixes(p@).take(jf),
                ) && (spec_find_node(final(self)@, spec_slash_prefixes(p@)[jf]) matches Some(n)
                    && !n.is_dir),
    {
        let pv = chars_of(p);
        let n = pv.len();
        let ghost v0 = self@;
        let mut j: usize = 0;
        proof {
            assert(pv@.take(0) =~= Seq::<char>::empty());
        }
        while j < n
            invariant
                j <= n,
                n == pv@.len(),
                pv@ == p@,
                v0 == old(self)@,
                self.wf(),
                self@ == spec_add_dirs(v0, spec_slash_prefixes(p@.take(j as int))),
                forall|i: int|
                    0 <= i < spec_slash_prefixes(p@.take(j as int)).len() ==> (spec_find_node(
                        self@,
                        #[trigger] spec_slash_prefixes(p@.take(j as int))[i],
                    ) matches Some(nd) && nd.is_dir),
                forall|jf: int|
                    0 <= jf < spec_slash_prefixes(p@.take(j as int)).len() ==> !(spec_find_node(
                        spec_add_dirs(v0, spec_slash_prefixes(p@).take(jf)),
                        #[trigger] spec_slash_prefixes(p@)[jf],
                    ) matches Some(nd) && !nd.is_dir),
            decreases n - j,
        {
            let ghost done = spec_slash_prefixes(p@.take(j as int));
            proof {
                assert(p@.take(j + 1 as int).drop_last() =~= p@.take(j as int));
            }
            if pv[j] == '/' && j > 0 {
                proof {
                    assert(spec_slash_prefixes(p@.take(j + 1 as int)) =~= done.push(
                        p@.take(j as int),
                    ));
                    lemma_add_dirs_push(v0, done, p@.take(j as int));
                    let jf = done.len() as int;
                    lemma_slash_prefixes_prefix(p@, j + 1);
                    assert(spec_slash_prefixes(p@).take(jf + 1) == spec_slash_prefixes(
                        p@.take(j + 1 as int),
                    ));
                    assert(spec_slash_prefixes(p@.take(j + 1 as int))[jf] == p@.take(j as int));
                    assert(spec_slash_prefixes(p@).take(jf + 1)[jf] == spec_slash_prefixes(
                        p@,
                    )[jf]);
                    lemma_slash_prefixes_prefix(p@, j as int);
                    assert(spec_slash_prefixes(p@).take(jf) == done);
                    assert(spec_slash_prefixes(p@)[jf] == p@.take(j as int));
                }
                let q = subrange_chars(&pv, 0, j);
                let qs = string_from_chars(&q);
                match self.find_index(qs.as_str()) {
                    Some(i) => {
                        if !self.nodes[i].is_dir {
                            proof {
                                let jf = done.len() as int;
                                assert(spec_find_node(
                                    spec_add_dirs(v0, spec_slash_prefixes(p@).take(jf)),
                                    spec_slash_prefixes(p@)[jf],
                                ) matches Some(nd) && !nd.is_dir);
                                assert(spec_parents_blocked(v0, p@));
                            }
                            return Err(());
                        }
                    },
                    None => {
                        let node = FsNode {
                            path: qs,
                            is_dir: true,
                            content: String::new(),
                        };
                        let ghost before = self@;
                        proof {
                            lemma_find_node_some(before, q@);
                        }
                        self.nodes.push(node);
                        proof {
                            assert(self@ =~= before.push(
                                FsNodeView {
                                    path: p@.take(j as int),
                                    is_dir: true,
                                    content: Seq::empty(),
                                },
                            ));
                            assert(spec_wf_fs(self@)) by {
                                assert(forall|a: int|
                                    0 <= a < before.len() ==> self@[a] == before[a]);
                            }
                            assert forall|i: int|
                                0 <= i < spec_slash_prefixes(p@.take(j + 1 as int)).len() implies (
                            spec_find_node(
                                self@,
                                #[trigger] spec_slash_prefixes(p@.take(j + 1 as int))[i],
                            ) matches Some(nd) && nd.is_dir) by {
                                let ks = spec_slash_prefixes(p@.take(j + 1 as int));
                                lemma_find_push(before, self@.last(), ks[i]);
                                if i < done.len() {
                                    assert(ks[i] == done[i]);
                                } else {
                                    assert(ks[i] == p@.take(j as int));
                                }
                            }
                        }
                    },
                }
            } else {
                proof {
                    assert(spec_slash_prefixes(p@.take(j + 1 as int)) =~= done);
                }
            }
            j = j + 1;
        }
        proof {
            assert(p@.take(n as int) =~= p@);
        }
        Ok(())
    }

    /// Creates the directory at `p` together with any missing ancestors
    /// (recursive creation): an existing directory is fine, an existing
    /// file - at `p` or at an ancestor - is an error.
    pub fn create_dir_all(&mut self, p: &str) -> (r: Result<(), ()>)
        requires
            old(self).wf(),
        ensures
            final(self).wf(),
            r is Err <==> spec_parents_blocked(old(self)@, p@) || (spec_find_node(
                spec_add_dirs(old(self)@, spec_slash_prefixes(p@)),
                p@,
            ) matches Some(n) && !n.is_dir),
            r is Ok ==> final(self)@ == spec_add_dir(
                spec_add_dirs(old(self)@, spec_slash_prefixes(p@)),
                p@,
            ) && (spec_find_node(final(self)@, p@) matches Some(n) && n.is_dir),
            r is Err ==> exists|q: Seq<char>|
                (q == p@ || spec_slash_prefixes(p@).contains(q)) && (#[trigger] spec_find_node(
                    final(self)@,
                    q,
                ) matches Some(n) && !n.is_dir),
            r is Err ==> exists|qs: Seq<Seq<char>>| final(self)@ == spec_add_dirs(old(self)@, qs),
    {
        match self.ensure_parents(p) {
            Ok(()) => {},
            Err(()) => {
                proof {
                    let jf = choose|jf: int|
                        0 <= jf < spec_slash_prefixes(p@).len() && final(self)@ == spec_add_dirs(
                            old(self)@,
                            spec_slash_prefixes(p@).take(jf),
                        ) && (spec_find_node(final(self)@, spec_slash_prefixes(p@)[jf])
                            matches Some(n) && !n.is_dir);
                    assert(spec_slash_prefixes(p@).contains(spec_slash_prefixes(p@)[jf]));
                }
                return Err(());
            },
        }
        let ghost mid = self@;
        match self.find_index(p) {
            Some(i) => {
                if self.nodes[i].is_dir {
                    proof {
                        assert(spec_add_dir(mid, p@) == mid);
                        lemma_find_node_at(mid, p@, i as int);
                    }
                    Ok(())
                } else {
                    proof {
                        assert(final(self)@ == spec_add_dirs(
                            old(self)@,
                            spec_slash_prefixes(p@),
                        ));
                    }
                    Err(())
                }
            },
            None => {
                self.nodes.push(FsNode { path: p.to_owned(), is_dir: true, content: String::new() });
                proof {
                    assert(self@ =~= mid.push(
                        FsNodeView { path: p@, is_dir: true, content: Seq::empty() },
                    ));
                    lemma_find_node_some(mid, p@);
                    assert(spec_wf_fs(self@)) by {
                        assert(forall|a: int| 0 <= a < mid.len() ==> self@[a] == mid[a]);
                    }
                    lemma_find_push(mid, self@.last(), p@);
                }
                Ok(())
            },
        }
    }

    /// Creates the directory at `p` without creating ancestors: an error
    /// when anything already stands at `p` or when the parent directory is
    /// missing (as the plain, non-recursive creation call behaves).
    pub fn create_dir(&mut self, p: &str) -> (r: Result<(), ()>)
        requires
            old(self).wf(),
        ensures
            final(self).wf(),
            ({
                let parents = spec_slash_prefixes(p@);
                let parent_ok = parents.len() == 0 || (spec_find_node(
                    old(self)@,
                    parents.last(),
                ) matches Some(n) && n.is_dir);
                if spec_find_node(old(self)@, p@) is Some || !parent_ok {
                    r is Err && final(self)@ == old(self)@
                } else {
                    r is Ok && final(self)@ == old(self)@.push(
                        FsNodeView { path: p@, is_dir: true, content: Seq::empty() },
                    )
                }
            }),
    {
        let pv = chars_of(p);
        if self.exists_path(p) {
            return Err(());
        }
        match last_slash_prefix(&pv) {
            Some(parent) => {
                let ps = string_from_chars(&parent);
                if !self.dir_at(ps.as_str()) {
                    return Err(());
                }
            },
            None => {},
        }
        let ghost v0 = self@;
        proof {
            lemma_find_node_some(v0, p@);
        }
        self.nodes.push(FsNode { path: p.to_owned(), is_dir: true, content: String::new() });
        proof {
            assert(self@ =~= v0.push(FsNodeView { path: p@, is_dir: true, content: Seq::empty() }));
            assert(spec_wf_fs(self@)) by {
                assert(forall|a: int| 0 <= a < v0.len() ==> self@[a] == v0[a]);
            }
        }
        Ok(())
    }

    /// Moves the tree rooted at `src` to `dst` (what the OS rename does):
    /// fails, changing nothing, when anything already lies at or beneath
    /// `dst`.
    pub fn rename_tree(&mut self, src: &str, dst: &str) -> (r: Result<(), ()>)
        requires
            old(self).wf(),
        ensures
            final(self).wf(),
            r is Ok <==> !spec_any_under(old(self)@, dst@),
            r is Ok ==> final(self)@ == old(self)@.map_values(
                |n: FsNodeView| spec_rename_node(n, src@, dst@),
            ),
            r is Err ==> final(self)@ == old(self)@,
    {
        let dv = chars_of(dst);
        let sv = chars_of(src);
        let mut slash: Vec<char> = Vec::new();
        slash.push('/');
        proof {
            assert(slash@ =~= seq!['/']);
        }
        let dprefix = concat_chars(&dv, &slash);
        let sprefix = concat_chars(&sv, &slash);
        let n = self.nodes.len();
        let mut i: usize = 0;
        while i < n
            invariant
                i <= n,
                n == self.nodes@.len(),
                dv@ == dst@,
                dprefix@ == dst@ + seq!['/'],
                self@ == old(self)@,
                old(self).wf(),
                forall|j: int| 0 <= j < i ==> !spec_under(#[trigger] self@[j].path, dst@),
            decreases n - i,
        {
            let path_chars = chars_of(self.nodes[i].path.as_str());
            let hit = crate::text::chars_eq(&path_chars, &dv) || crate::text::starts_with_chars(
                &path_chars,
                &dprefix,
            );
            assert(hit == spec_under(self@[i as int].path, dst@));
            if hit {
                return Err(());
            }
            i = i + 1;
        }
        let ghost v0 = self@;
        let mut out: Vec<FsNode> = Vec::new();
        let mut k: usize = 0;
        proof {
            assert(out@.map_values(|n: FsNode| n@) =~= v0.take(0).map_values(
                |n: FsNodeView| spec_rename_node(n, src@, dst@),
            ));
        }
        while k < n
            invariant
                k <= n,
                n == self.nodes@.len(),
                self@ == v0,
                sv@ == src@,
                dv@ == dst@,
                sprefix@ == src@ + seq!['/'],
                out@.map_values(|n: FsNode| n@) =~= v0.take(k as int).map_values(
                    |n: FsNodeView| spec_rename_node(n, src@, dst@),
                ),
            decreases n - k,
        {
            let node = &self.nodes[k];
            let path_chars = chars_of(node.path.as_str());
            let under_src = crate::text::chars_eq(&path_chars, &sv)
                || crate::text::starts_with_chars(&path_chars, &sprefix);
            assert(under_src == spec_under(v0[k as int].path, src@));
            let new_node: FsNode = if under_src {
                let suffix = subrange_chars(&path_chars, sv.len(), path_chars.len());
                let new_path = concat_chars(&dv, &suffix);
                proof {
                    assert(path_chars@.subrange(sv@.len() as int, path_chars@.len() as int)
                        =~= v0[k as int].path.skip(src@.len() as int));
                }
                FsNode {
                    path: string_from_chars(&new_path),
                    is_dir: node.is_dir,
                    content: node.content.clone(),
                }
            } else {
                FsNode { path: node.path.clone(), is_dir: node.is_dir, content: node.content.clone() }
            };
            assert(new_node@ == spec_rename_node(v0[k as int], src@, dst@));
            out.push(new_node);
            proof {
                assert(v0.take(k + 1 as int).drop_last() =~= v0.take(k as int));
                assert(out@.map_values(|n: FsNode| n@) =~= v0.take(k as int).map_values(
                    |n: FsNodeView| spec_rename_node(n, src@, dst@),
                ).push(spec_rename_node(v0[k as int], src@, dst@)));
                assert(v0.take(k + 1 as int).map_values(
                    |n: FsNodeView| spec_rename_node(n, src@, dst@),
                ) =~= v0.take(k as int).map_values(
                    |n: FsNodeView| spec_rename_node(n, src@, dst@),
                ).push(spec_rename_node(v0[k as int], src@, dst@)));
            }
            k = k + 1;
        }
        proof {
            assert(v0.take(n as int) =~= v0);
        }
        self.nodes = out;
        proof {
            lemma_wf_rename(v0, src@, dst@);
        }
        Ok(())
    }

    /// Removes the node at `p` and everything beneath it; removing a path
    /// where nothing exists is a no-op, as the engine's removal helper is
    /// only called after an existence check.
    pub fn remove_tree(&mut self, p: &str)
        requires
            old(self).wf(),
        ensures
            final(self).wf(),
            final(self)@ =~= old(self)@.filter(|n: FsNodeView| !spec_under(n.path, p@)),
    {
        let pv = chars_of(p);
        let mut slash: Vec<char> = Vec::new();
        slash.push('/');
        let prefix = concat_chars(&pv, &slash);
        proof {
            assert(slash@ =~= seq!['/']);
        }
        let n = self.nodes.len();
        let mut out: Vec<FsNode> = Vec::new();
        let mut i: usize = 0;
        proof {
            assert(self@.take(0) =~= Seq::<FsNodeView>::empty());
            assert(Seq::<FsNodeView>::empty().filter(|n: FsNodeView| !spec_under(n.path, p@))
                =~= Seq::<FsNodeView>::empty());
            assert(out@.map_values(|n: FsNode| n@) =~= Seq::<FsNodeView>::empty());
        }
        while i < n
            invariant
                i <= n,
                n == self.nodes@.len(),
                pv@ == p@,
                prefix@ == p@ + seq!['/'],
                out@.map_values(|n: FsNode| n@) =~= self@.take(i as int).filter(
                    |n: FsNodeView| !spec_under(n.path, p@),
                ),
            decreases n - i,
        {
            let ghost pre = self@.take(i as int);
            proof {
                assert(self@.take(i + 1 as int).drop_last() =~= pre);
                assert(self@.take(i + 1 as int).last() == self@[i as int]);
                reveal(Seq::filter);
            }
            let node = &self.nodes[i];
            let keep: bool = {
                let path_chars = chars_of(node.path.as_str());
                let equal = crate::text::chars_eq(&path_chars, &pv);
                let below = crate::text::starts_with_chars(&path_chars, &prefix);
                !(equal || below)
            };
            assert(keep == !spec_under(self@[i as int].path, p@));
            if keep {
                let copy = FsNode {
                    path: node.path.clone(),
                    is_dir: node.is_dir,
                    content: node.content.clone(),
                };
                assert(copy@ == self@[i as int]);
                out.push(copy);
                proof {
                    assert(out@.map_values(|n: FsNode| n@) =~= pre.filter(
                        |n: FsNodeView| !spec_under(n.path, p@),
                    ).push(self@[i as int]));
                }
            }
            i = i + 1;
        }
        proof {
            assert(self@.take(n as int) =~= self@);
        }
        self.nodes = out;
        proof {
            let f = |n: FsNodeView| !spec_under(n.path, p@);
            let v0 = old(self)@;
            assert(spec_wf_fs(v0.filter(f))) by {
                lemma_wf_filter(v0, f);
            }
        }
    }
}

/// A directory entry added at `k` unless something already stands there.
pub open spec fn spec_add_dir(v: Seq<FsNodeView>, k: Seq<char>) -> Seq<FsNodeView> {
    if spec_find_node(v, k) is Some {
        v
    } else {
        v.push(FsNodeView { path: k, is_dir: true, content: Seq::empty() })
    }
}

pub open spec fn spec_add_dirs(v: Seq<FsNodeView>, ks: Seq<Seq<char>>) -> Seq<FsNodeView>
    decreases ks.len(),
{
    if ks.len() == 0 {
        v
    } else {
        spec_add_dirs(spec_add_dir(v, ks[0]), ks.drop_first())
    }
}

pub proof fn lemma_add_dirs_push(v: Seq<FsNodeView>, ks: Seq<Seq<char>>, k: Seq<char>)
    ensures
        spec_add_dirs(v, ks.push(k)) == spec_add_dir(spec_add_dirs(v, ks), k),
    decreases ks.len(),
{
    if ks.len() == 0 {
        assert(ks.push(k)[0] == k);
        assert(ks.push(k).drop_first() =~= Seq::<Seq<char>>::empty());
        assert(spec_add_dirs(spec_add_dir(v, k), Seq::<Seq<char>>::empty()) == spec_add_dir(v, k));
    } else {
        assert(ks.push(k)[0] == ks[0]);
        assert(ks.push(k).drop_first() =~= ks.drop_first().push(k));
        lemma_add_dirs_push(spec_add_dir(v, ks[0]), ks.drop_first(), k);
    }
}

/// Looking a path up after a push: an existing node still wins; otherwise
/// the pushed node is found exactly when its path matches.
pub proof fn lemma_find_push(v: Seq<FsNodeView>, n: FsNodeView, q: Seq<char>)
    ensures
        spec_find_node(v.push(n), q) == (match spec_find_node(v, q) {
            Some(m) => Some(m),
            None => if n.path == q {
                Some(n)
            } else {
                None::<FsNodeView>
            },
        }),
    decreases v.len(),
{
    if v.len() == 0 {
        assert(v.push(n)[0] == n);
        assert(v.push(n).drop_first() =~= Seq::<FsNodeView>::empty());
    } else {
        assert(v.push(n)[0] == v[0]);
        assert(v.push(n).drop_first() =~= v.drop_first().push(n));
        lemma_find_push(v.drop_first(), n, q);
    }
}

/// The workspace-relative prefixes of `p` that end just before each slash:
/// the ancestor directories a deep path needs.
pub open spec fn spec_slash_prefixes(p: Seq<char>) -> Seq<Seq<char>>
    decreases p.len(),
{
    if p.len() == 0 {
        Seq::empty()
    } else {
        spec_slash_prefixes(p.drop_last()) + (if p.last() == '/' && p.len() > 1 {
            seq![p.drop_last()]
        } else {
            Seq::<Seq<char>>::empty()
        })
    }
}

/// What writing a file at `k` leaves: the first node at `k` replaced by the
/// new file, or the new file appended when nothing stands at `k`.
pub open spec fn spec_write(v: Seq<FsNodeView>, k: Seq<char>, c: Seq<char>) -> Seq<FsNodeView>
    decreases v.len(),
{
    if v.len() == 0 {
        seq![FsNodeView { path: k, is_dir: false, content: c }]
    } else if v[0].path == k {
        seq![FsNodeView { path: k, is_dir: false, content: c }] + v.drop_first()
    } else {
        seq![v[0]] + spec_write(v.drop_first(), k, c)
    }
}

proof fn lemma_spec_write_update(v: Seq<FsNodeView>, k: Seq<char>, c: Seq<char>, i: int)
    requires
        0 <= i < v.len(),
        v[i].path == k,
        forall|j: int| 0 <= j < i ==> v[j].path != k,
    ensures
        spec_write(v, k, c) =~= v.update(i, FsNodeView { path: k, is_dir: false, content: c }),
    decreases v.len(),
{
    if i > 0 {
        assert(forall|j: int| 0 <= j < i - 1 ==> v.drop_first()[j] == v[j + 1]);
        lemma_spec_write_update(v.drop_first(), k, c, i - 1);
        assert(spec_write(v, k, c) =~= seq![v[0]] + v.drop_first().update(
            i - 1,
            FsNodeView { path: k, is_dir: false, content: c },
        ));
    }
}

proof fn lemma_spec_write_push(v: Seq<FsNodeView>, k: Seq<char>, c: Seq<char>)
    requires
        forall|j: int| 0 <= j < v.len() ==> v[j].path != k,
    ensures
        spec_write(v, k, c) =~= v.push(FsNodeView { path: k, is_dir: false, content: c }),
    decreases v.len(),
{
    if v.len() > 0 {
        assert(forall|j: int| 0 <= j < v.drop_first().len() ==> v.drop_first()[j] == v[j + 1]);
        lemma_spec_write_push(v.drop_first(), k, c);
    }
}

/// Whether creating the ancestor directories of `p` runs into an existing
/// file: the exact condition on which recursive directory creation fails.
pub open spec fn spec_parents_blocked(v: Seq<FsNodeView>, p: Seq<char>) -> bool {
    exists|jf: int|
        0 <= jf < spec_slash_prefixes(p).len() && (spec_find_node(
            spec_add_dirs(v, spec_slash_prefixes(p).take(jf)),
            #[trigger] spec_slash_prefixes(p)[jf],
        ) matches Some(n) && !n.is_dir)
}

/// Whether any node lies at or beneath `root`.
pub open spec fn spec_any_under(v: Seq<FsNodeView>, root: Seq<char>) -> bool {
    exists|i: int| 0 <= i < v.len() && spec_under(#[trigger] v[i].path, root)
}

/// The node a rename produces: paths beneath `src` are re-rooted at `dst`,
/// every other node is untouched.
pub open spec fn spec_rename_node(n: FsNodeView, src: Seq<char>, dst: Seq<char>) -> FsNodeView {
    if spec_under(n.path, src) {
        FsNodeView {
            path: dst + n.path.skip(src.len() as int),
            is_dir: n.is_dir,
            content: n.content,
        }
    } else {
        n
    }
}

/// The ancestor list of a prefix of `p` is a prefix of `p`'s ancestor list.
pub proof fn lemma_slash_prefixes_prefix(p: Seq<char>, j: int)
    requires
        0 <= j <= p.len(),
    ensures
        spec_slash_prefixes(p.take(j)).len() <= spec_slash_prefixes(p).len(),
        spec_slash_prefixes(p).take(spec_slash_prefixes(p.take(j)).len() as int)
            == spec_slash_prefixes(p.take(j)),
    decreases p.len() - j,
{
    if j == p.len() {
        assert(p.take(j) =~= p);
    } else {
        lemma_slash_prefixes_prefix(p, j + 1);
        assert(p.take(j + 1).drop_last() =~= p.take(j));
        let a = spec_slash_prefixes(p.take(j));
        let b = spec_slash_prefixes(p.take(j + 1));
        assert(b.take(a.len() as int) =~= a);
        assert(spec_slash_prefixes(p).take(a.len() as int) =~= spec_slash_prefixes(p).take(
            b.len() as int,
        ).take(a.len() as int));
    }
}

/// The prefix of `p` before its last slash (ignoring a slash in first
/// position): the deepest ancestor directory `p` needs.
fn last_slash_prefix(pv: &Vec<char>) -> (r: Option<Vec<char>>)
    ensures
        match r {
            Some(q) => spec_slash_prefixes(pv@).len() > 0 && q@ == spec_slash_prefixes(pv@).last(),
            None => spec_slash_prefixes(pv@).len() == 0,
        },
{
    let n = pv.len();
    let mut j: usize = n;
    proof {
        assert(pv@.take(n as int) =~= pv@);
    }
    while j > 1
        invariant
            j <= n,
            n == pv@.len(),
            spec_slash_prefixes(pv@) == spec_slash_prefixes(pv@.take(j as int)),
        decreases j,
    {
        proof {
            assert(pv@.take(j as int).drop_last() =~= pv@.take(j - 1 as int));
        }
        if pv[j - 1] == '/' {
            proof {
                assert(spec_slash_prefixes(pv@.take(j as int)) =~= spec_slash_prefixes(
                    pv@.take(j - 1 as int),
                ).push(pv@.take(j - 1 as int)));
            }
            return Some(subrange_chars(pv, 0, j - 1));
        }
        proof {
            assert(spec_slash_prefixes(pv@.take(j as int)) =~= spec_slash_prefixes(
                pv@.take(j - 1 as int),
            ));
        }
        j = j - 1;
    }
    proof {
        if j == 1 {
            assert(pv@.take(1).drop_last() =~= pv@.take(0));
            assert(spec_slash_prefixes(pv@.take(1)) =~= spec_slash_prefixes(pv@.take(0)));
        }
        assert(pv@.take(0) =~= Seq::<char>::empty());
    }
    None
}

/// With nothing at or beneath the destination, re-rooting a subtree keeps
/// paths distinct.
pub proof fn lemma_wf_rename(v: Seq<FsNodeView>, src: Seq<char>, dst: Seq<char>)
    requires
        spec_wf_fs(v),
        forall|i: int| 0 <= i < v.len() ==> !spec_under(#[trigger] v[i].path, dst),
    ensures
        spec_wf_fs(v.map_values(|n: FsNodeView| spec_rename_node(n, src, dst))),
{
    let out = v.map_values(|n: FsNodeView| spec_rename_node(n, src, dst));
    assert forall|i: int, j: int| 0 <= i < j < out.len() implies out[i].path != out[j].path by {
        let a = v[i];
        let b = v[j];
        if spec_under(a.path, src) {
            lemma_rename_src_decompose(a.path, src);
        }
        if spec_under(b.path, src) {
            lemma_rename_src_decompose(b.path, src);
        }
        if spec_under(a.path, src) && spec_under(b.path, src) {
            if out[i].path == out[j].path {
                let ra = a.path.skip(src.len() as int);
                let rb = b.path.skip(src.len() as int);
                assert(ra =~= (dst + ra).skip(dst.len() as int));
                assert(rb =~= (dst + rb).skip(dst.len() as int));
                assert(a.path =~= src + ra);
                assert(b.path =~= src + rb);
            }
        } else if spec_under(a.path, src) && !spec_under(b.path, src) {
            lemma_renamed_under_dst(a.path, src, dst);
        } else if !spec_under(a.path, src) && spec_under(b.path, src) {
            lemma_renamed_under_dst(b.path, src, dst);
        }
    }
}

/// A path at or under `src` is `src` plus its own tail.
proof fn lemma_rename_src_decompose(p: Seq<char>, src: Seq<char>)
    requires
        spec_under(p, src),
    ensures
        p == src + p.skip(src.len() as int),
        p.len() >= src.len(),
{
    if p == src {
        assert(p =~= src + p.skip(src.len() as int));
    } else {
        assert(crate::text::spec_starts_with(p, src + seq!['/']));
        assert(p.subrange(0, (src.len() + 1) as int) == src + seq!['/']);
        assert forall|x: int| 0 <= x < src.len() implies p[x] == src[x] by {
            assert(p.subrange(0, (src.len() + 1) as int)[x] == p[x]);
            assert((src + seq!['/'])[x] == src[x]);
        }
        assert(p =~= src + p.skip(src.len() as int));
    }
}

/// The re-rooted image of a path under `src` lies at or under `dst`.
proof fn lemma_renamed_under_dst(p: Seq<char>, src: Seq<char>, dst: Seq<char>)
    requires
        spec_under(p, src),
    ensures
        spec_under(dst + p.skip(src.len() as int), dst),
{
    let rest = p.skip(src.len() as int);
    if p == src {
        assert(rest =~= Seq::<char>::empty());
        assert(dst + rest =~= dst);
    } else {
        assert(crate::text::spec_starts_with(p, src + seq!['/']));
        assert(p.subrange(0, (src.len() + 1) as int) == src + seq!['/']);
        assert(rest.len() >= 1);
        assert(rest[0] == '/') by {
            assert(p.subrange(0, (src.len() + 1) as int)[src.len() as int] == '/');
        }
        assert((dst + rest).subrange(0, (dst.len() + 1) as int) =~= dst + seq!['/']);
    }
}

/// Every element of a filtered sequence is drawn from the sequence it was
/// filtered out of.
proof fn lemma_filter_elements(v: Seq<FsNodeView>, f: spec_fn(FsNodeView) -> bool)
    ensures
        forall|i: int| 0 <= i < v.filter(f).len() ==> v.contains(#[trigger] v.filter(f)[i]),
    decreases v.len(),
{
    reveal(Seq::filter);
    if v.len() > 0 {
        lemma_filter_elements(v.drop_last(), f);
        let sub = v.drop_last().filter(f);
        assert forall|i: int| 0 <= i < v.filter(f).len() implies v.contains(
            #[trigger] v.filter(f)[i],
        ) by {
            if i < sub.len() {
                assert(v.filter(f)[i] == sub[i]);
                assert(v.drop_last().contains(sub[i]));
                let k = choose|k: int| 0 <= k < v.drop_last().len() && v.drop_last()[k] == sub[i];
                assert(v[k] == sub[i]);
            } else {
                assert(v.filter(f)[i] == v.last());
                assert(v[v.len() - 1] == v.last());
            }
        }
    }
}

/// Filtering keeps paths distinct.
pub proof fn lemma_wf_filter(v: Seq<FsNodeView>, f: spec_fn(FsNodeView) -> bool)
    requires
        spec_wf_fs(v),
    ensures
        spec_wf_fs(v.filter(f)),
    decreases v.len(),
{
    reveal(Seq::filter);
    if v.len() > 0 {
        assert(spec_wf_fs(v.drop_last())) by {
            assert(forall|a: int, b: int|
                0 <= a < b < v.drop_last().len() ==> v.drop_last()[a] == v[a]
                    && v.drop_last()[b] == v[b]);
        }
        lemma_wf_filter(v.drop_last(), f);
        if f(v.last()) {
            assert(v.filter(f) == v.drop_last().filter(f).push(v.last()));
            assert forall|i: int, j: int|
                0 <= i < j < v.filter(f).len() implies v.filter(f)[i].path != v.filter(
                f,
            )[j].path by {
                if j == v.filter(f).len() - 1 {
                    let fi = v.filter(f)[i];
                    assert(v.drop_last().filter(f)[i] == fi);
                    lemma_filter_elements(v.drop_last(), f);
                    assert(v.drop_last().contains(fi));
                    let k = choose|k: int|
                        0 <= k < v.drop_last().len() && v.drop_last()[k] == fi;
                    assert(v[k] == fi);
                    assert(v[k].path != v.last().path);
                }
            }
        }
    } else {
        assert(v.filter(f) =~= Seq::<FsNodeView>::empty());
    }
}

} // verus!
