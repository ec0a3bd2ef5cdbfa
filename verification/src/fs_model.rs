use vstd::prelude::*;

use crate::paths::{AppPath, is_path_prefix};

verus! {

/// One node of the modelled filesystem.
pub enum FsNode {
    Dir,
    File { data: Vec<u8> },
}

/// Copy a byte vector.
pub fn clone_bytes(v: &Vec<u8>) -> (r: Vec<u8>)
    ensures
        r@ == v@,
{
    let r = v.clone();
    proof {
        assert(r@ =~= v@);
    }
    r
}

impl Clone for FsNode {
    fn clone(&self) -> (r: Self)
        ensures
            r@ == self@,
    {
        match self {
            FsNode::Dir => FsNode::Dir,
            FsNode::File { data } => FsNode::File { data: clone_bytes(data) },
        }
    }
}

/// The mathematical shape of a node: a directory, or a file with its bytes.
pub enum NodeModel {
    Dir,
    File { data: Seq<u8> },
}

impl View for FsNode {
    type V = NodeModel;

    open spec fn view(&self) -> NodeModel {
        match self {
            FsNode::Dir => NodeModel::Dir,
            FsNode::File { data } => NodeModel::File { data: data@ },
        }
    }
}

/// The map denoted by a journal of writes: later entries shadow earlier
/// ones with the same path.
pub open spec fn map_of(s: Seq<(AppPath, FsNode)>) -> Map<Seq<Seq<char>>, NodeModel>
    decreases s.len(),
{
    if s.len() == 0 {
        Map::empty()
    } else {
        map_of(s.drop_last()).insert(s.last().0@, s.last().1@)
    }
}

pub proof fn lemma_map_of_contains(s: Seq<(AppPath, FsNode)>, k: Seq<Seq<char>>)
    ensures
        map_of(s).contains_key(k) <==> exists|i: int| 0 <= i < s.len() && s[i].0@ == k,
    decreases s.len(),
{
    if s.len() > 0 {
        lemma_map_of_contains(s.drop_last(), k);
        if s.last().0@ == k {
            assert(s[s.len() - 1].0@ == k);
        } else if map_of(s).contains_key(k) {
            let i = choose|i: int| 0 <= i < s.drop_last().len() && s.drop_last()[i].0@ == k;
            assert(s[i].0@ == k);
        } else {
            assert forall|i: int| 0 <= i < s.len() implies s[i].0@ != k by {
                if i < s.len() - 1 {
                    assert(s.drop_last()[i].0@ == s[i].0@);
                }
            }
        }
    }
}

pub proof fn lemma_map_of_value(s: Seq<(AppPath, FsNode)>, i: int)
    requires
        0 <= i < s.len(),
        forall|j: int| i < j < s.len() ==> s[j].0@ != s[i].0@,
    ensures
        map_of(s).contains_key(s[i].0@),
        map_of(s)[s[i].0@] == s[i].1@,
    decreases s.len(),
{
    if i == s.len() - 1 {
        assert(s.last() == s[i]);
    } else {
        assert forall|j: int| i < j < s.drop_last().len() implies s.drop_last()[j].0@
            != s.drop_last()[i].0@ by {
            assert(s.drop_last()[j] == s[j]);
        }
        lemma_map_of_value(s.drop_last(), i);
        assert(s.last().0@ != s[i].0@);
        assert(s.drop_last()[i] == s[i]);
    }
}

/// The modelled filesystem state that the installation engine reads and
/// mutates.  It stands for the small portion of a user's disk that the
/// engine is allowed to touch.
pub struct Fs {
    entries: Vec<(AppPath, FsNode)>,
}

impl View for Fs {
    type V = Map<Seq<Seq<char>>, NodeModel>;

    closed spec fn view(&self) -> Map<Seq<Seq<char>>, NodeModel> {
        map_of(self.entries@)
    }
}

/// Remove from `m` every path that lies at or under `root`.
pub open spec fn without_subtree(
    m: Map<Seq<Seq<char>>, NodeModel>,
    root: Seq<Seq<char>>,
) -> Map<Seq<Seq<char>>, NodeModel> {
    Map::new(|k: Seq<Seq<char>>| m.contains_key(k) && !is_path_prefix(root, k), |k| m[k])
}

/// Insert directory nodes at the prefixes of `p` that are longer than
/// `lo` components, up to `hi` components.
pub open spec fn with_dirs_span(
    m: Map<Seq<Seq<char>>, NodeModel>,
    p: Seq<Seq<char>>,
    lo: int,
    hi: int,
) -> Map<Seq<Seq<char>>, NodeModel>
    decreases hi - lo,
{
    if hi <= lo {
        m
    } else {
        with_dirs_span(m, p, lo, hi - 1).insert(p.take(hi), NodeModel::Dir)
    }
}

/// `m` with directory nodes at `p` and all of its ancestors (the empty
/// path stays untouched).
pub open spec fn with_dir_all(
    m: Map<Seq<Seq<char>>, NodeModel>,
    p: Seq<Seq<char>>,
) -> Map<Seq<Seq<char>>, NodeModel> {
    with_dirs_span(m, p, 0, p.len() as int)
}

/// `m` with the whole subtree rooted at `src` mirrored below `dst`; a
/// mirrored node shadows whatever stood at its landing path.
pub open spec fn subtree_copied(
    m: Map<Seq<Seq<char>>, NodeModel>,
    src: Seq<Seq<char>>,
    dst: Seq<Seq<char>>,
) -> Map<Seq<Seq<char>>, NodeModel> {
    Map::new(
        |k: Seq<Seq<char>>|
            m.contains_key(k) || (is_path_prefix(dst, k) && m.contains_key(
                src + k.skip(dst.len() as int),
            )),
        |k: Seq<Seq<char>>|
            if is_path_prefix(dst, k) && m.contains_key(src + k.skip(dst.len() as int)) {
                m[src + k.skip(dst.len() as int)]
            } else {
                m[k]
            },
    )
}

impl Fs {
    /// An empty filesystem.
    pub fn new() -> (r: Self)
        ensures
            r@ == Map::<Seq<Seq<char>>, NodeModel>::empty(),
    {
        Fs { entries: Vec::new() }
    }

    /// Look the node at `p` up.
    pub fn get(&self, p: &AppPath) -> (r: Option<&FsNode>)
        ensures
            match r {
                Some(n) => self@.contains_key(p@) && self@[p@] == n@,
                None => !self@.contains_key(p@),
            },
    {
        let mut i: usize = self.entries.len();
        while i > 0
            invariant
                i <= self.entries@.len(),
                forall|j: int| i <= j < self.entries@.len() ==> self.entries@[j].0@ != p@,
            decreases i,
        {
            i = i - 1;
            if self.entries[i].0.path_eq(p) {
                proof {
                    lemma_map_of_value(self.entries@, i as int);
                }
                return Some(&self.entries[i].1);
            }
        }
        proof {
            lemma_map_of_contains(self.entries@, p@);
        }
        None
    }

    /// Does any node stand at `p`?
    pub fn exists_node(&self, p: &AppPath) -> (r: bool)
        ensures
            r == self@.contains_key(p@),
    {
        match self.get(p) {
            Some(_) => true,
            None => false,
        }
    }

    /// Is there a directory at `p`?
    pub fn is_dir(&self, p: &AppPath) -> (r: bool)
        ensures
            r == (self@.contains_key(p@) && self@[p@] is Dir),
    {
        match self.get(p) {
            Some(n) => match n {
                FsNode::Dir => true,
                FsNode::File { .. } => false,
            },
            None => false,
        }
    }

    /// Is there a file at `p`?
    pub fn is_file(&self, p: &AppPath) -> (r: bool)
        ensures
            r == (self@.contains_key(p@) && self@[p@] is File),
    {
        match self.get(p) {
            Some(n) => match n {
                FsNode::Dir => false,
                FsNode::File { .. } => true,
            },
            None => false,
        }
    }

    /// The bytes of the file at `p`, if a file stands there.
    pub fn read_file(&self, p: &AppPath) -> (r: Option<&Vec<u8>>)
        ensures
            match r {
                Some(d) => self@.contains_key(p@) && self@[p@] == (NodeModel::File {
                    data: d@,
                }),
                None => !(self@.contains_key(p@) && self@[p@] is File),
            },
    {
        match self.get(p) {
            Some(n) => match n {
                FsNode::Dir => None,
                FsNode::File { data } => Some(data),
            },
            None => None,
        }
    }

    /// Write a file at `p`, replacing whatever stood there.
    pub fn write_file(&mut self, p: &AppPath, data: Vec<u8>)
        ensures
            final(self)@ == old(self)@.insert(p@, NodeModel::File { data: data@ }),
    {
        let ghost gdata = data@;
        self.entries.push((p.clone(), FsNode::File { data }));
        proof {
            assert(self.entries@.drop_last() =~= old(self).entries@);
            assert(final(self)@ == old(self)@.insert(p@, NodeModel::File { data: gdata }));
        }
    }

    /// Make `p` and all of its ancestors directories.  The model never
    /// refuses this; the unverified shell reports real creation failures.
    pub fn make_dir_all(&mut self, p: &AppPath)
        ensures
            final(self)@ == with_dir_all(old(self)@, p@),
    {
        self.make_dirs_from(p, 0);
    }

    /// Make the prefixes of `p` longer than `from` components
    /// directories, deepest last.
    pub fn make_dirs_from(&mut self, p: &AppPath, from: usize)
        ensures
            final(self)@ == with_dirs_span(old(self)@, p@, from as int, p@.len() as int),
    {
        let mut i: usize = from;
        if i > p.parts.len() {
            return;
        }
        while i < p.parts.len()
            invariant
                from <= i <= p@.len(),
                self@ == with_dirs_span(old(self)@, p@, from as int, i as int),
            decreases p@.len() - i,
        {
            let mut prefix: Vec<String> = Vec::new();
            let mut j: usize = 0;
            let end: usize = i + 1;
            while j < end
                invariant
                    j <= end,
                    end == i + 1,
                    i < p.parts@.len(),
                    p@.len() == p.parts@.len(),
                    prefix.deep_view() =~= p@.take(j as int),
                decreases end - j,
            {
                let ghost pre = prefix.deep_view();
                prefix.push(p.parts[j].clone());
                j = j + 1;
                proof {
                    assert(prefix.deep_view() =~= pre.push(p@[j - 1]));
                    assert(prefix.deep_view() =~= p@.take(j as int));
                }
            }
            let ghost before = self@;
            let ghost eprev = self.entries@;
            let dir = AppPath::from_parts(prefix);
            let ghost gdir = dir@;
            self.entries.push((dir, FsNode::Dir));
            i = i + 1;
            proof {
                assert(self.entries@.drop_last() =~= eprev);
                assert(self@ == before.insert(gdir, NodeModel::Dir));
                assert(gdir == p@.take(i as int));
            }
        }
    }

    /// Remove the file at `p` if one stands there; directories are left
    /// alone.  Reports whether the map changed.
    pub fn remove_file(&mut self, p: &AppPath) -> (r: bool)
        ensures
            r == (old(self)@.contains_key(p@) && old(self)@[p@] is File),
            r ==> final(self)@ == old(self)@.remove(p@),
            !r ==> final(self)@ == old(self)@,
    {
        if !self.is_file(p) {
            return false;
        }
        self.remove_key(p);
        true
    }

    /// Remove whatever stands at `p` itself (file or directory node).
    fn remove_key(&mut self, p: &AppPath)
        ensures
            final(self)@ == old(self)@.remove(p@),
    {
        let mut kept: Vec<(AppPath, FsNode)> = Vec::new();
        let n = self.entries.len();
        let mut i: usize = 0;
        while i < n
            invariant
                i <= n,
                n == self.entries@.len(),
                self.entries@ == old(self).entries@,
                map_of(kept@) == map_of(self.entries@.take(i as int)).remove(p@),
            decreases n - i,
        {
            proof {
                assert(self.entries@.take(i + 1).drop_last() =~= self.entries@.take(i as int));
                assert(self.entries@.take(i + 1).last() == self.entries@[i as int]);
            }
            let keep = !self.entries[i].0.path_eq(p);
            if keep {
                let entry_path = self.entries[i].0.clone();
                let entry_node = self.entries[i].1.clone();
                let ghost before = map_of(kept@);
                let ghost kprev = kept@;
                kept.push((entry_path, entry_node));
                proof {
                    assert(kept@.drop_last() =~= kprev);
                    assert(map_of(kept@) == before.insert(
                        self.entries@[i as int].0@,
                        self.entries@[i as int].1@,
                    ));
                    assert(map_of(kept@) =~= map_of(self.entries@.take(i + 1)).remove(p@));
                }
            } else {
                proof {
                    assert(map_of(kept@) =~= map_of(self.entries@.take(i + 1)).remove(p@));
                }
            }
            i = i + 1;
        }
        proof {
            assert(self.entries@.take(n as int) =~= self.entries@);
        }
        self.entries = kept;
    }

    /// Remove everything at or under `root`.
    pub fn remove_subtree(&mut self, root: &AppPath)
        ensures
            final(self)@ == without_subtree(old(self)@, root@),
    {
        let mut kept: Vec<(AppPath, FsNode)> = Vec::new();
        let n = self.entries.len();
        let mut i: usize = 0;
        while i < n
            invariant
                i <= n,
                n == self.entries@.len(),
                self.entries@ == old(self).entries@,
                map_of(kept@) == without_subtree(map_of(self.entries@.take(i as int)), root@),
            decreases n - i,
        {
            proof {
                assert(self.entries@.take(i + 1).drop_last() =~= self.entries@.take(i as int));
                assert(self.entries@.take(i + 1).last() == self.entries@[i as int]);
            }
            let keep = !self.entries[i].0.starts_with(root);
            if keep {
                let entry_path = self.entries[i].0.clone();
                let entry_node = self.entries[i].1.clone();
                let ghost before = map_of(kept@);
                let ghost kprev = kept@;
                kept.push((entry_path, entry_node));
                proof {
                    assert(kept@.drop_last() =~= kprev);
                    assert(map_of(kept@) == before.insert(
                        self.entries@[i as int].0@,
                        self.entries@[i as int].1@,
                    ));
                    assert(map_of(kept@) =~= without_subtree(
                        map_of(self.entries@.take(i + 1)),
                        root@,
                    ));
                }
            } else {
                proof {
                    assert(map_of(kept@) =~= without_subtree(
                        map_of(self.entries@.take(i + 1)),
                        root@,
                    ));
                }
            }
            i = i + 1;
        }
        proof {
            assert(self.entries@.take(n as int) =~= self.entries@);
        }
        self.entries = kept;
    }

    /// Move the file at `from` to `to`, shadowing anything at `to`.
    /// Reports whether a file stood at `from`; nothing changes otherwise.
    pub fn rename_file(&mut self, from: &AppPath, to: &AppPath) -> (r: bool)
        ensures
            r == (old(self)@.contains_key(from@) && old(self)@[from@] is File),
            r ==> final(self)@ == old(self)@.remove(from@).insert(to@, old(self)@[from@]),
            !r ==> final(self)@ == old(self)@,
    {
        let data = match self.read_file(from) {
            Some(d) => d.clone(),
            None => {
                return false;
            },
        };
        self.remove_key(from);
        self.write_file(to, data);
        true
    }

    /// Copy the file at `from` over `to`.  Reports whether a file stood at
    /// `from`; nothing changes otherwise.
    pub fn copy_file(&mut self, from: &AppPath, to: &AppPath) -> (r: bool)
        ensures
            r == (old(self)@.contains_key(from@) && old(self)@[from@] is File),
            r ==> final(self)@ == old(self)@.insert(to@, old(self)@[from@]),
            !r ==> final(self)@ == old(self)@,
    {
        let data = match self.read_file(from) {
            Some(d) => d.clone(),
            None => {
                return false;
            },
        };
        self.write_file(to, data);
        true
    }

    /// Put a directory node at `p` itself.
    pub fn make_dir(&mut self, p: &AppPath)
        ensures
            final(self)@ == old(self)@.insert(p@, NodeModel::Dir),
    {
        let ghost eprev = self.entries@;
        self.entries.push((p.clone(), FsNode::Dir));
        proof {
            assert(self.entries@.drop_last() =~= eprev);
        }
    }

    /// Every path at or under `root` that carries a node, without
    /// duplicates; sound and complete for the denoted map.
    pub fn subtree_keys(&self, root: &AppPath) -> (r: Vec<AppPath>)
        ensures
            forall|a: int, b: int| 0 <= a < b < r@.len() ==> r.deep_view()[a] != r.deep_view()[b],
            forall|a: int|
                0 <= a < r@.len() ==> self@.contains_key(#[trigger] r.deep_view()[a])
                    && is_path_prefix(root@, r.deep_view()[a]),
            forall|k: Seq<Seq<char>>|
                self@.contains_key(k) && is_path_prefix(root@, k) ==> r.deep_view().contains(k),
    {
        let mut out: Vec<AppPath> = Vec::new();
        let n = self.entries.len();
        let mut i: usize = 0;
        while i < n
            invariant
                i <= n,
                n == self.entries@.len(),
                forall|a: int, b: int|
                    0 <= a < b < out@.len() ==> out.deep_view()[a] != out.deep_view()[b],
                forall|a: int|
                    0 <= a < out@.len() ==> self@.contains_key(#[trigger] out.deep_view()[a])
                        && is_path_prefix(root@, out.deep_view()[a]),
                forall|j: int|
                    0 <= j < i && is_path_prefix(root@, #[trigger] self.entries@[j].0@)
                        ==> out.deep_view().contains(self.entries@[j].0@),
            decreases n - i,
        {
            if self.entries[i].0.starts_with(root) {
                let mut seen = false;
                let mut j: usize = 0;
                while j < out.len()
                    invariant
                        j <= out.len(),
                        i < self.entries@.len(),
                        seen == exists|k: int|
                            0 <= k < j && out.deep_view()[k] == self.entries@[i as int].0@,
                    decreases out.len() - j,
                {
                    if out[j].path_eq(&self.entries[i].0) {
                        seen = true;
                        proof {
                            assert(out.deep_view()[j as int] == self.entries@[i as int].0@);
                        }
                        j = out.len();
                    } else {
                        j = j + 1;
                    }
                }
                if !seen {
                    let ghost pre = out.deep_view();
                    let ghost gkey = self.entries@[i as int].0@;
                    proof {
                        lemma_map_of_contains(self.entries@, gkey);
                    }
                    let p = self.entries[i].0.clone();
                    out.push(p);
                    proof {
                        assert(out.deep_view() =~= pre.push(gkey));
                        assert(out.deep_view()[out.deep_view().len() - 1] == gkey);
                        assert(forall|k: int|
                            0 <= k < pre.len() ==> out.deep_view()[k] == pre[k]);
                    }
                }
                proof {
                    assert(out.deep_view().contains(self.entries@[i as int].0@));
                }
            }
            i = i + 1;
        }
        proof {
            assert forall|k: Seq<Seq<char>>|
                self@.contains_key(k) && is_path_prefix(root@, k) implies out.deep_view().contains(
                k,
            ) by {
                lemma_map_of_contains(self.entries@, k);
                let j = choose|j: int|
                    0 <= j < self.entries@.len() && self.entries@[j].0@ == k;
            }
        }
        out
    }

    /// Mirror the whole subtree rooted at `src` below `dst`, shadowing
    /// whatever stood where mirrored nodes land.
    pub fn copy_subtree(&mut self, src: &AppPath, dst: &AppPath)
        ensures
            final(self)@ == subtree_copied(old(self)@, src@, dst@),
    {
        let keys = self.subtree_keys(src);
        let mut pairs: Vec<(AppPath, FsNode)> = Vec::new();
        let mut i: usize = 0;
        while i < keys.len()
            invariant
                i <= keys@.len(),
                pairs@.len() == i,
                forall|a: int, b: int|
                    0 <= a < b < keys@.len() ==> keys.deep_view()[a] != keys.deep_view()[b],
                forall|a: int|
                    0 <= a < keys@.len() ==> self@.contains_key(#[trigger] keys.deep_view()[a])
                        && is_path_prefix(src@, keys.deep_view()[a]),
                forall|k: Seq<Seq<char>>|
                    self@.contains_key(k) && is_path_prefix(src@, k)
                        ==> keys.deep_view().contains(k),
                forall|j: int|
                    0 <= j < i ==> (#[trigger] pairs@[j].0)@ == dst@ + keys.deep_view()[j].skip(
                        src@.len() as int,
                    ) && pairs@[j].1@ == self@[keys.deep_view()[j]],
            decreases keys@.len() - i,
        {
            let key = &keys[i];
            proof {
                assert(key@ == keys.deep_view()[i as int]);
                assert(self@.contains_key(keys.deep_view()[i as int]));
            }
            let node = match self.get(key) {
                Some(n) => n.clone(),
                None => {
                    proof {
                        assert(false);
                    }
                    FsNode::Dir
                },
            };
            let mut dest = dst.clone();
            let mut k: usize = src.len();
            proof {
                assert(dest@ =~= dst@ + keys.deep_view()[i as int].skip(src@.len() as int).take(
                    0,
                ));
            }
            while k < key.len()
                invariant
                    src@.len() <= k <= key@.len(),
                    key@ == keys.deep_view()[i as int],
                    i < keys@.len(),
                    is_path_prefix(src@, key@),
                    dest@ =~= dst@ + key@.skip(src@.len() as int).take(k - src@.len()),
                decreases key@.len() - k,
            {
                dest = dest.join(key.parts[k].as_str());
                k = k + 1;
                proof {
                    assert(dest@ =~= dst@ + key@.skip(src@.len() as int).take(k - src@.len()));
                }
            }
            proof {
                assert(key@.skip(src@.len() as int).take(key@.len() - src@.len()) =~= key@.skip(
                    src@.len() as int,
                ));
                assert(dest@ =~= dst@ + key@.skip(src@.len() as int));
            }
            let ghost gdest = dest@;
            let ghost gnode = node@;
            pairs.push((dest, node));
            proof {
                assert(pairs@[i as int].0@ == gdest);
                assert(pairs@[i as int].1@ == gnode);
            }
            i = i + 1;
        }
        let ghost m0 = self@;
        let ghost keyviews = keys.deep_view();
        let mut i: usize = 0;
        while i < pairs.len()
            invariant
                i <= pairs@.len(),
                pairs@.len() == keyviews.len(),
                forall|a: int, b: int| 0 <= a < b < keyviews.len() ==> keyviews[a] != keyviews[b],
                forall|a: int|
                    0 <= a < keyviews.len() ==> m0.contains_key(#[trigger] keyviews[a])
                        && is_path_prefix(src@, keyviews[a]),
                forall|k: Seq<Seq<char>>|
                    m0.contains_key(k) && is_path_prefix(src@, k) ==> keyviews.contains(k),
                forall|j: int|
                    0 <= j < pairs@.len() ==> (#[trigger] pairs@[j].0)@ == dst@
                        + keyviews[j].skip(src@.len() as int) && pairs@[j].1@ == m0[keyviews[j]],
                self@.dom() =~= m0.dom().union(
                    Set::new(
                        |k: Seq<Seq<char>>|
                            exists|j: int| 0 <= j < i && (#[trigger] pairs@[j].0)@ == k,
                    ),
                ),
                forall|j: int|
                    0 <= j < i ==> self@[(#[trigger] pairs@[j].0)@] == pairs@[j].1@,
                forall|k: Seq<Seq<char>>|
                    m0.contains_key(k) && !(exists|j: int|
                        0 <= j < i && (#[trigger] pairs@[j].0)@ == k) ==> self@[k] == m0[k],
            decreases pairs@.len() - i,
        {
            let dest = pairs[i].0.clone();
            let node = pairs[i].1.clone();
            let ghost before = self@;
            let ghost eprev = self.entries@;
            self.entries.push((dest, node));
            proof {
                assert(self.entries@.drop_last() =~= eprev);
                assert(self@ == before.insert(pairs@[i as int].0@, pairs@[i as int].1@));
                assert(self@.dom() =~= before.dom().insert(pairs@[i as int].0@));
                assert forall|j: int|
                    0 <= j < i + 1 implies self@[(#[trigger] pairs@[j].0)@] == pairs@[j].1@ by {
                    if j < i && pairs@[j].0@ != pairs@[i as int].0@ {
                    } else if j < i {
                        assert(dst@ + keyviews[j].skip(src@.len() as int) == dst@
                            + keyviews[i as int].skip(src@.len() as int));
                        assert(keyviews[j].skip(src@.len() as int) =~= (dst@ + keyviews[j].skip(
                            src@.len() as int,
                        )).skip(dst@.len() as int));
                        assert(keyviews[i as int].skip(src@.len() as int) =~= (dst@
                            + keyviews[i as int].skip(src@.len() as int)).skip(
                            dst@.len() as int,
                        ));
                        assert(keyviews[j] =~= src@.take(src@.len() as int) + keyviews[j].skip(
                            src@.len() as int,
                        ));
                        assert(keyviews[i as int] =~= src@.take(src@.len() as int)
                            + keyviews[i as int].skip(src@.len() as int));
                        assert(keyviews[j] == keyviews[i as int]);
                        assert(false);
                    }
                }
                assert(self@.dom() =~= m0.dom().union(
                    Set::new(
                        |k: Seq<Seq<char>>|
                            exists|j: int| 0 <= j < i + 1 && (#[trigger] pairs@[j].0)@ == k,
                    ),
                ));
            }
            i = i + 1;
        }
        proof {
            let fin = subtree_copied(m0, src@, dst@);
            assert forall|k: Seq<Seq<char>>| #[trigger] fin.dom().contains(k)
                implies self@.dom().contains(k) && self@[k] == fin[k] by {
                if is_path_prefix(dst@, k) && m0.contains_key(src@ + k.skip(dst@.len() as int)) {
                    let srck = src@ + k.skip(dst@.len() as int);
                    assert(is_path_prefix(src@, srck)) by {
                        assert(srck.take(src@.len() as int) =~= src@);
                    }
                    assert(keyviews.contains(srck));
                    let j = choose|j: int| 0 <= j < keyviews.len() && keyviews[j] == srck;
                    assert(pairs@[j].0@ == dst@ + srck.skip(src@.len() as int));
                    assert(srck.skip(src@.len() as int) =~= k.skip(dst@.len() as int));
                    assert(pairs@[j].0@ =~= k) by {
                        assert(k =~= dst@.take(dst@.len() as int) + k.skip(dst@.len() as int));
                    }
                    assert(self@[k] == pairs@[j].1@);
                    assert(self@.contains_key(k));
                    assert(fin[k] == m0[srck]);
                } else {
                    assert(m0.contains_key(k));
                    assert(self@.contains_key(k));
                    assert(!(exists|j: int|
                        0 <= j < pairs@.len() && (#[trigger] pairs@[j].0)@ == k)) by {
                        if exists|j: int| 0 <= j < pairs@.len() && (#[trigger] pairs@[j].0)@
                            == k {
                            let j = choose|j: int|
                                0 <= j < pairs@.len() && (#[trigger] pairs@[j].0)@ == k;
                            assert(is_path_prefix(dst@, k)) by {
                                assert(k == dst@ + keyviews[j].skip(src@.len() as int));
                                assert(k.take(dst@.len() as int) =~= dst@);
                            }
                            assert(m0.contains_key(src@ + k.skip(dst@.len() as int))) by {
                                assert(src@ + k.skip(dst@.len() as int) =~= keyviews[j]) by {
                                    assert(k.skip(dst@.len() as int) =~= keyviews[j].skip(
                                        src@.len() as int,
                                    ));
                                    assert(keyviews[j] =~= src@.take(src@.len() as int)
                                        + keyviews[j].skip(src@.len() as int));
                                }
                            }
                            assert(false);
                        }
                    }
                    assert(self@[k] == m0[k]);
                    assert(fin[k] == m0[k]);
                }
            }
            assert forall|k: Seq<Seq<char>>| #[trigger] self@.dom().contains(k)
                implies fin.dom().contains(k) by {
                if exists|j: int| 0 <= j < pairs@.len() && (#[trigger] pairs@[j].0)@ == k {
                    let j = choose|j: int|
                        0 <= j < pairs@.len() && (#[trigger] pairs@[j].0)@ == k;
                    assert(is_path_prefix(dst@, k)) by {
                        assert(k == dst@ + keyviews[j].skip(src@.len() as int));
                        assert(k.take(dst@.len() as int) =~= dst@);
                    }
                    assert(m0.contains_key(src@ + k.skip(dst@.len() as int))) by {
                        assert(src@ + k.skip(dst@.len() as int) =~= keyviews[j]) by {
                            assert(k.skip(dst@.len() as int) =~= keyviews[j].skip(
                                src@.len() as int,
                            ));
                            assert(keyviews[j] =~= src@.take(src@.len() as int)
                                + keyviews[j].skip(src@.len() as int));
                        }
                    }
                    assert(fin.dom().contains(k));
                } else {
                    assert(m0.contains_key(k));
                    assert(fin.dom().contains(k));
                }
            }
            assert(self@ =~= fin);
        }
    }

    /// Every immediate child name of `base` that carries a node, without
    /// duplicates; sound and complete for the denoted map.
    pub fn child_names(&self, base: &AppPath) -> (r: Vec<String>)
        ensures
            forall|a: int, b: int| 0 <= a < b < r@.len() ==> r.deep_view()[a] != r.deep_view()[b],
            forall|a: int|
                0 <= a < r@.len() ==> self@.contains_key(#[trigger] base@.push(r.deep_view()[a])),
            forall|n: Seq<char>|
                self@.contains_key(#[trigger] base@.push(n)) ==> r.deep_view().contains(n),
    {
        let mut out: Vec<String> = Vec::new();
        let n = self.entries.len();
        let mut i: usize = 0;
        while i < n
            invariant
                i <= n,
                n == self.entries@.len(),
                forall|a: int, b: int|
                    0 <= a < b < out@.len() ==> out.deep_view()[a] != out.deep_view()[b],
                forall|a: int|
                    0 <= a < out@.len() ==> self@.contains_key(
                        #[trigger] base@.push(out.deep_view()[a]),
                    ),
                forall|j: int|
                    0 <= j < i && self.entries@[j].0@.len() == base@.len() + 1 && is_path_prefix(
                        base@,
                        self.entries@[j].0@,
                    ) ==> out.deep_view().contains(#[trigger] self.entries@[j].0@.last()),
            decreases n - i,
        {
            let elen = self.entries[i].0.len();
            if elen > 0 && elen - 1 == base.len() && self.entries[i].0.starts_with(base) {
                let name = match self.entries[i].0.file_name() {
                    Some(s) => s.clone(),
                    None => {
                        proof {
                            assert(false);
                        }
                        String::new()
                    },
                };
                let mut seen = false;
                let mut j: usize = 0;
                while j < out.len()
                    invariant
                        j <= out.len(),
                        seen == exists|k: int|
                            0 <= k < j && out.deep_view()[k] == name@,
                    decreases out.len() - j,
                {
                    if out[j] == name {
                        seen = true;
                        proof {
                            assert(out.deep_view()[j as int] == name@);
                        }
                        j = out.len();
                    } else {
                        j = j + 1;
                    }
                }
                let ghost gname = name@;
                if !seen {
                    let ghost pre = out.deep_view();
                    proof {
                        assert(base@.push(gname) =~= self.entries@[i as int].0@);
                        lemma_map_of_contains(self.entries@, self.entries@[i as int].0@);
                    }
                    out.push(name);
                    proof {
                        assert(out.deep_view() =~= pre.push(gname));
                        assert(out.deep_view()[out.deep_view().len() - 1] == gname);
                        assert(forall|k: int|
                            0 <= k < pre.len() ==> out.deep_view()[k] == pre[k]);
                    }
                }
                proof {
                    assert(out.deep_view().contains(gname));
                    assert(gname == self.entries@[i as int].0@.last());
                }
            }
            i = i + 1;
        }
        proof {
            assert forall|nm: Seq<char>|
                self@.contains_key(#[trigger] base@.push(nm)) implies out.deep_view().contains(
                nm,
            ) by {
                lemma_map_of_contains(self.entries@, base@.push(nm));
                let j = choose|j: int|
                    0 <= j < self.entries@.len() && self.entries@[j].0@ == base@.push(nm);
                assert(self.entries@[j].0@.len() == base@.len() + 1);
                assert(self.entries@[j].0@.take(base@.len() as int) =~= base@);
                assert(self.entries@[j].0@.last() == nm);
            }
        }
        out
    }
}

} // verus!
