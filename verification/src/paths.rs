use vstd::prelude::*;

verus! {

/// A filesystem path, held as its sequence of components.  The platform's
/// separators and root are left to the unverified shell that turns real
/// paths into and out of this shape; the engine only ever reads and edits
/// components.
pub struct AppPath {
    pub parts: Vec<String>,
}

impl View for AppPath {
    type V = Seq<Seq<char>>;

    open spec fn view(&self) -> Seq<Seq<char>> {
        self.parts.deep_view()
    }
}

impl DeepView for AppPath {
    type V = Seq<Seq<char>>;

    open spec fn deep_view(&self) -> Seq<Seq<char>> {
        self.view()
    }
}

impl Clone for AppPath {
    fn clone(&self) -> (r: Self)
        ensures
            r@ == self@,
    {
        let mut parts: Vec<String> = Vec::new();
        let mut i: usize = 0;
        while i < self.parts.len()
            invariant
                i <= self.parts.len(),
                parts.deep_view() =~= self.parts.deep_view().take(i as int),
            decreases self.parts.len() - i,
        {
            let ghost pre = parts.deep_view();
            parts.push(self.parts[i].clone());
            i = i + 1;
            proof {
                assert(parts.deep_view() =~= pre.push(self.parts.deep_view()[i - 1]));
                assert(parts.deep_view() =~= self.parts.deep_view().take(i as int));
            }
        }
        proof {
            assert(parts.deep_view() =~= self.parts.deep_view());
        }
        AppPath { parts }
    }
}

impl AppPath {
    /// The empty path.
    pub fn empty() -> (r: Self)
        ensures
            r@ == Seq::<Seq<char>>::empty(),
    {
        AppPath { parts: Vec::new() }
    }

    /// Build a path from ready-made components.
    pub fn from_parts(parts: Vec<String>) -> (r: Self)
        ensures
            r@ == parts.deep_view(),
    {
        AppPath { parts }
    }

    pub fn is_empty(&self) -> (r: bool)
        ensures
            r == (self@.len() == 0),
    {
        self.parts.len() == 0
    }

    pub fn len(&self) -> (r: usize)
        ensures
            r == self@.len(),
    {
        self.parts.len()
    }

    /// The final component, if any.
    pub fn file_name(&self) -> (r: Option<&String>)
        ensures
            match r {
                Some(s) => self@.len() > 0 && s@ == self@.last(),
                None => self@.len() == 0,
            },
    {
        if self.parts.len() == 0 {
            None
        } else {
            Some(&self.parts[self.parts.len() - 1])
        }
    }

    /// The path without its final component; `None` for the empty path.
    pub fn parent(&self) -> (r: Option<AppPath>)
        ensures
            match r {
                Some(p) => self@.len() > 0 && p@ == self@.drop_last(),
                None => self@.len() == 0,
            },
    {
        if self.parts.len() == 0 {
            None
        } else {
            let mut parts: Vec<String> = Vec::new();
            let end = self.parts.len() - 1;
            let mut i: usize = 0;
            while i < end
                invariant
                    i <= end,
                    end == self@.len() - 1,
                    self@.len() > 0,
                    parts.deep_view() =~= self@.take(i as int),
                decreases end - i,
            {
                let ghost pre = parts.deep_view();
                parts.push(self.parts[i].clone());
                i = i + 1;
                proof {
                    assert(parts.deep_view() =~= pre.push(self.parts.deep_view()[i - 1]));
                    assert(parts.deep_view() =~= self@.take(i as int));
                }
            }
            proof {
                assert(parts.deep_view() =~= self@.drop_last());
            }
            Some(AppPath { parts })
        }
    }

    /// This path with one more component appended.
    pub fn join(&self, part: &str) -> (r: AppPath)
        ensures
            r@ == self@.push(part@),
    {
        let mut p = self.clone();
        p.parts.push(part.to_owned());
        proof {
            assert(p@ =~= self@.push(part@));
        }
        p
    }

    /// This path with one more ready-made component appended.
    pub fn join_string(&self, part: String) -> (r: AppPath)
        ensures
            r@ == self@.push(part@),
    {
        let ghost gpart = part@;
        let mut p = self.clone();
        p.parts.push(part);
        proof {
            assert(p@ =~= self@.push(gpart));
        }
        p
    }

    /// Component-wise equality.
    pub fn path_eq(&self, other: &AppPath) -> (r: bool)
        ensures
            r == (self@ == other@),
    {
        if self.parts.len() != other.parts.len() {
            proof {
                assert(self@.len() != other@.len());
            }
            return false;
        }
        let n = self.parts.len();
        let mut i: usize = 0;
        while i < n
            invariant
                i <= n,
                n == self@.len(),
                n == other@.len(),
                forall|j: int| 0 <= j < i ==> self@[j] == other@[j],
            decreases n - i,
        {
            if !(self.parts[i] == other.parts[i]) {
                proof {
                    assert(self@[i as int] != other@[i as int]);
                }
                return false;
            }
            i = i + 1;
        }
        proof {
            assert(self@ =~= other@);
        }
        true
    }

    /// Does `prefix` stand at the start of this path, component for
    /// component?
    pub fn starts_with(&self, prefix: &AppPath) -> (r: bool)
        ensures
            r == is_path_prefix(prefix@, self@),
    {
        if prefix.parts.len() > self.parts.len() {
            return false;
        }
        let n = prefix.parts.len();
        let mut i: usize = 0;
        while i < n
            invariant
                i <= n,
                n == prefix@.len(),
                n <= self@.len(),
                forall|j: int| 0 <= j < i ==> self@[j] == prefix@[j],
            decreases n - i,
        {
            if !(self.parts[i] == prefix.parts[i]) {
                proof {
                    assert(self@[i as int] != prefix@[i as int]);
                }
                return false;
            }
            i = i + 1;
        }
        proof {
            assert(self@.take(n as int) =~= prefix@);
        }
        true
    }
}

/// `pre` is a (not necessarily strict) leading run of `full`'s components.
pub open spec fn is_path_prefix(pre: Seq<Seq<char>>, full: Seq<Seq<char>>) -> bool {
    pre.len() <= full.len() && full.take(pre.len() as int) == pre
}

/// Keep the first occurrence of each path, in order.
pub open spec fn dedup_keys(s: Seq<Seq<Seq<char>>>) -> Seq<Seq<Seq<char>>>
    decreases s.len(),
{
    if s.len() == 0 {
        Seq::empty()
    } else {
        let pre = dedup_keys(s.drop_last());
        if pre.contains(s.last()) {
            pre
        } else {
            pre.push(s.last())
        }
    }
}

/// Drop later duplicates from a list of paths, keeping first occurrences in
/// their original order.
pub fn dedup_paths(paths: Vec<AppPath>) -> (r: Vec<AppPath>)
    ensures
        r.deep_view() == dedup_keys(paths.deep_view()),
{
    let mut out: Vec<AppPath> = Vec::new();
    let mut i: usize = 0;
    while i < paths.len()
        invariant
            i <= paths.len(),
            out.deep_view() =~= dedup_keys(paths.deep_view().take(i as int)),
        decreases paths.len() - i,
    {
        proof {
            assert(paths.deep_view().take(i + 1).drop_last() =~= paths.deep_view().take(
                i as int,
            ));
            assert(paths.deep_view().take(i + 1).last() == paths.deep_view()[i as int]);
        }
        let mut seen = false;
        let mut j: usize = 0;
        while j < out.len()
            invariant
                j <= out.len(),
                i < paths.len(),
                seen == exists|k: int| 0 <= k < j && out.deep_view()[k] == paths.deep_view()[i as int],
            decreases out.len() - j,
        {
            if out[j].path_eq(&paths[i]) {
                seen = true;
                proof {
                    assert(out.deep_view()[j as int] == paths.deep_view()[i as int]);
                }
                j = out.len();
            } else {
                j = j + 1;
            }
        }
        proof {
            assert(seen == out.deep_view().contains(paths.deep_view()[i as int]));
        }
        if !seen {
            let p = paths[i].clone();
            out.push(p);
        }
        i = i + 1;
    }
    proof {
        assert(paths.deep_view().take(paths@.len() as int) =~= paths.deep_view());
    }
    out
}

} // verus!
