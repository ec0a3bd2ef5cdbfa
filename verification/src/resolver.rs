use vstd::prelude::*;

use crate::chars::{chars_vec, eq_ignore_case, ext_of, extension_of, lower_chars, str_eq_ignore_case};
use crate::fs_model::{Fs, NodeModel};
use crate::paths::{AppPath, dedup_keys, dedup_paths};
use crate::version::{SemVer, app_dir_version, parse_app_dir_version, ver_precedes};

verus! {

/// There is a directory at `p` in `m`.
pub open spec fn dir_at(m: Map<Seq<Seq<char>>, NodeModel>, p: Seq<Seq<char>>) -> bool {
    m.contains_key(p) && m[p] is Dir
}

/// There is a file at `p` in `m`.
pub open spec fn file_at(m: Map<Seq<Seq<char>>, NodeModel>, p: Seq<Seq<char>>) -> bool {
    m.contains_key(p) && m[p] is File
}

/// The validity predicate on an install target: an existing directory
/// that holds the primary archive, the backup archive, or an
/// already-injected application subtree.
pub open spec fn is_resources_dir(m: Map<Seq<Seq<char>>, NodeModel>, p: Seq<Seq<char>>) -> bool {
    &&& p.len() > 0
    &&& dir_at(m, p)
    &&& (file_at(m, p.push("app.asar"@)) || file_at(m, p.push("original.asar"@)) || dir_at(
        m,
        p.push("app"@),
    ))
}

/// A directory that holds the primary archive.
pub open spec fn spec_has_app_asar(m: Map<Seq<Seq<char>>, NodeModel>, p: Seq<Seq<char>>) -> bool {
    p.len() > 0 && dir_at(m, p) && file_at(m, p.push("app.asar"@))
}

/// Is `path` a valid install target in `fs`?
pub fn is_tidal_resources_directory(fs: &Fs, path: &AppPath) -> (r: bool)
    ensures
        r == is_resources_dir(fs@, path@),
{
    if path.is_empty() {
        return false;
    }
    if !fs.is_dir(path) {
        return false;
    }
    fs.is_file(&path.join("app.asar")) || fs.is_file(&path.join("original.asar")) || fs.is_dir(
        &path.join("app"),
    )
}

/// Does `path` hold the primary archive?
pub fn has_tidal_app_asar(fs: &Fs, path: &AppPath) -> (r: bool)
    ensures
        r == spec_has_app_asar(fs@, path@),
{
    !path.is_empty() && fs.is_dir(path) && fs.is_file(&path.join("app.asar"))
}

/// The first of `paths` that carries any node in `fs`.
pub fn first_existing_path(fs: &Fs, paths: &Vec<AppPath>) -> (r: Option<AppPath>)
    ensures
        match r {
            Some(p) => exists|i: int|
                0 <= i < paths@.len() && p@ == paths.deep_view()[i] && fs@.contains_key(
                    paths.deep_view()[i],
                ) && forall|j: int|
                    0 <= j < i ==> !fs@.contains_key(#[trigger] paths.deep_view()[j]),
            None => forall|j: int|
                0 <= j < paths@.len() ==> !fs@.contains_key(#[trigger] paths.deep_view()[j]),
        },
{
    let mut i: usize = 0;
    while i < paths.len()
        invariant
            i <= paths@.len(),
            forall|j: int| 0 <= j < i ==> !fs@.contains_key(#[trigger] paths.deep_view()[j]),
        decreases paths@.len() - i,
    {
        if fs.exists_node(&paths[i]) {
            let p = paths[i].clone();
            proof {
                assert(p@ == paths.deep_view()[i as int]);
            }
            return Some(p);
        }
        i = i + 1;
    }
    None
}

/// Where `base`'s resources directory stands: the `resources` child if it
/// is a valid target, else the `Resources` child, else nowhere.
pub open spec fn spec_resolve_resources_dir(
    m: Map<Seq<Seq<char>>, NodeModel>,
    base: Seq<Seq<char>>,
) -> Option<Seq<Seq<char>>> {
    if is_resources_dir(m, base.push("resources"@)) {
        Some(base.push("resources"@))
    } else if is_resources_dir(m, base.push("Resources"@)) {
        Some(base.push("Resources"@))
    } else {
        None
    }
}

/// Find the valid resources directory directly under `base`.
pub fn resolve_resources_dir(fs: &Fs, base: &AppPath) -> (r: Option<AppPath>)
    ensures
        match r {
            Some(p) => spec_resolve_resources_dir(fs@, base@) == Some(p@),
            None => spec_resolve_resources_dir(fs@, base@) is None,
        },
{
    let lower = base.join("resources");
    if is_tidal_resources_directory(fs, &lower) {
        return Some(lower);
    }
    let upper = base.join("Resources");
    if is_tidal_resources_directory(fs, &upper) {
        return Some(upper);
    }
    None
}

/// A child of `base` named `app-<version>` whose own resources directory
/// is a valid install target.
pub open spec fn app_version_candidate(
    m: Map<Seq<Seq<char>>, NodeModel>,
    base: Seq<Seq<char>>,
    n: Seq<char>,
) -> bool {
    &&& m.contains_key(base.push(n))
    &&& app_dir_version(n) is Some
    &&& spec_resolve_resources_dir(m, base.push(n)) is Some
}

/// Some version-numbered child of `base` is a usable install.
pub open spec fn has_version_candidate(
    m: Map<Seq<Seq<char>>, NodeModel>,
    base: Seq<Seq<char>>,
) -> bool {
    exists|n: Seq<char>| app_version_candidate(m, base, n)
}

/// `p` is the resources directory of a version-numbered child of `base`
/// whose version no other such child exceeds.
pub open spec fn is_max_version_resources(
    m: Map<Seq<Seq<char>>, NodeModel>,
    base: Seq<Seq<char>>,
    p: Seq<Seq<char>>,
) -> bool {
    exists|n: Seq<char>|
        {
            &&& #[trigger] app_version_candidate(m, base, n)
            &&& spec_resolve_resources_dir(m, base.push(n)) == Some(p)
            &&& forall|n2: Seq<char>|
                #[trigger] app_version_candidate(m, base, n2) ==> !ver_precedes(
                    app_dir_version(n)->0,
                    app_dir_version(n2)->0,
                )
        }
}

proof fn lemma_ver_precedes_trans(
    a: crate::version::SemVerModel,
    b: crate::version::SemVerModel,
    c: crate::version::SemVerModel,
)
    requires
        ver_precedes(a, b),
        ver_precedes(b, c),
    ensures
        ver_precedes(a, c),
{
}

/// Pick, among the version-numbered children of `base`, the one with the
/// highest version by numeric precedence, and return its resources
/// directory.
pub fn find_resources_in_app_versions(fs: &Fs, base: &AppPath) -> (r: Option<AppPath>)
    ensures
        match r {
            Some(p) => is_max_version_resources(fs@, base@, p@),
            None => !has_version_candidate(fs@, base@),
        },
{
    let names = fs.child_names(base);
    let mut best_ver: Option<SemVer> = None;
    let mut best_path: Option<AppPath> = None;
    let ghost mut best_name: Seq<char> = Seq::empty();
    let mut i: usize = 0;
    while i < names.len()
        invariant
            i <= names@.len(),
            forall|a: int|
                0 <= a < names@.len() ==> fs@.contains_key(
                    #[trigger] base@.push(names.deep_view()[a]),
                ),
            forall|n: Seq<char>|
                fs@.contains_key(#[trigger] base@.push(n)) ==> names.deep_view().contains(n),
            best_path is Some <==> best_ver is Some,
            best_path matches Some(p) ==> {
                &&& app_version_candidate(fs@, base@, best_name)
                &&& spec_resolve_resources_dir(fs@, base@.push(best_name)) == Some(p@)
                &&& app_dir_version(best_name) == Some(best_ver->0@)
                &&& forall|j: int|
                    0 <= j < i && #[trigger] app_version_candidate(
                        fs@,
                        base@,
                        names.deep_view()[j],
                    ) ==> !ver_precedes(
                        best_ver->0@,
                        app_dir_version(names.deep_view()[j])->0,
                    )
            },
            best_path is None ==> forall|j: int|
                0 <= j < i ==> !app_version_candidate(fs@, base@, #[trigger] names.deep_view()[j]),
        decreases names@.len() - i,
    {
        let nchars = chars_vec(names[i].as_str());
        proof {
            assert(nchars@ == names.deep_view()[i as int]);
        }
        match parse_app_dir_version(&nchars) {
            Some(v) => {
                let child = base.join(names[i].as_str());
                match resolve_resources_dir(fs, &child) {
                    Some(res) => {
                        let replace = match &best_ver {
                            None => true,
                            Some(b) => b.precedes(&v),
                        };
                        proof {
                            assert(app_version_candidate(fs@, base@, nchars@));
                        }
                        if replace {
                            proof {
                                if best_ver is Some {
                                    assert forall|j: int|
                                        0 <= j < i + 1 && #[trigger] app_version_candidate(
                                            fs@,
                                            base@,
                                            names.deep_view()[j],
                                        ) implies !ver_precedes(
                                        v@,
                                        app_dir_version(names.deep_view()[j])->0,
                                    ) by {
                                        if j < i {
                                            let prior = app_dir_version(names.deep_view()[j])->0;
                                            if ver_precedes(v@, prior) {
                                                lemma_ver_precedes_trans(
                                                    best_ver->0@,
                                                    v@,
                                                    prior,
                                                );
                                            }
                                        }
                                    }
                                }
                            }
                            best_ver = Some(v);
                            best_path = Some(res);
                            proof {
                                best_name = nchars@;
                            }
                        } else {
                            proof {
                                assert(!ver_precedes(
                                    best_ver->0@,
                                    app_dir_version(nchars@)->0,
                                ));
                            }
                        }
                    },
                    None => {
                        proof {
                            assert(!app_version_candidate(fs@, base@, nchars@));
                        }
                    },
                }
            },
            None => {
                proof {
                    assert(!app_version_candidate(fs@, base@, nchars@));
                }
            },
        }
        i = i + 1;
    }
    proof {
        if best_path is Some {
            assert forall|n2: Seq<char>|
                #[trigger] app_version_candidate(fs@, base@, n2) implies !ver_precedes(
                app_dir_version(best_name)->0,
                app_dir_version(n2)->0,
            ) by {
                assert(fs@.contains_key(base@.push(n2)));
                assert(names.deep_view().contains(n2));
                let j = choose|j: int|
                    0 <= j < names.deep_view().len() && names.deep_view()[j] == n2;
            }
            assert(is_max_version_resources(fs@, base@, best_path->0@));
        } else {
            if has_version_candidate(fs@, base@) {
                let n = choose|n: Seq<char>| app_version_candidate(fs@, base@, n);
                assert(fs@.contains_key(base@.push(n)));
                assert(names.deep_view().contains(n));
                let j = choose|j: int|
                    0 <= j < names.deep_view().len() && names.deep_view()[j] == n;
                assert(!app_version_candidate(fs@, base@, names.deep_view()[j]));
                assert(false);
            }
        }
    }
    best_path
}

/// Where `normalize_tidal_resources_path` lands before any probing of
/// version-numbered siblings: `None` means the version scan decides.
pub open spec fn spec_normalize_head(
    m: Map<Seq<Seq<char>>, NodeModel>,
    p: Seq<Seq<char>>,
) -> Option<Seq<Seq<char>>> {
    if p.len() == 0 {
        Some(p)
    } else if eq_ignore_case(p.last(), "app.asar"@) || eq_ignore_case(
        p.last(),
        "original.asar"@,
    ) {
        Some(p.drop_last())
    } else if eq_ignore_case(p.last(), "resources"@) {
        Some(p)
    } else if eq_ignore_case(p.last(), "contents"@) {
        Some(p.push("Resources"@))
    } else if ext_of(p.last()) matches Some(e) && eq_ignore_case(e, "app"@) {
        Some(p.push("Contents"@).push("Resources"@))
    } else if m.contains_key(p.push("resources"@)) {
        Some(p.push("resources"@))
    } else if m.contains_key(p.push("Resources"@)) {
        Some(p.push("Resources"@))
    } else {
        None
    }
}

/// Normalize any path shape a user may hand over into the canonical
/// resources directory: an archive file name resolves to its parent, a
/// bundle or contents directory to its resources child, and a versioned
/// parent to its highest-version install; the fallback appends the
/// canonical child name unconditionally.
pub fn normalize_tidal_resources_path(fs: &Fs, input: AppPath) -> (r: AppPath)
    ensures
        match spec_normalize_head(fs@, input@) {
            Some(q) => r@ == q,
            None => {
                if has_version_candidate(fs@, input@) {
                    is_max_version_resources(fs@, input@, r@)
                } else {
                    r@ == input@.push("resources"@)
                }
            },
        },
{
    if input.is_empty() {
        return input;
    }
    let last = match input.file_name() {
        Some(s) => chars_vec(s.as_str()),
        None => Vec::new(),
    };
    if str_eq_ignore_case("app.asar", &last) || str_eq_ignore_case("original.asar", &last) {
        let parent = match input.parent() {
            Some(p) => p,
            None => input,
        };
        return parent;
    }
    if str_eq_ignore_case("resources", &last) {
        return input;
    }
    if str_eq_ignore_case("contents", &last) {
        return input.join("Resources");
    }
    let is_bundle = match extension_of(&last) {
        Some(e) => str_eq_ignore_case("app", &e),
        None => false,
    };
    if is_bundle {
        return input.join("Contents").join("Resources");
    }
    let lower = input.join("resources");
    if fs.exists_node(&lower) {
        return lower;
    }
    let upper = input.join("Resources");
    if fs.exists_node(&upper) {
        return upper;
    }
    match find_resources_in_app_versions(fs, &input) {
        Some(p) => p,
        None => lower,
    }
}

/// The archive-name rule of normalization on its own: a path whose final
/// component is the primary or backup archive name resolves to its parent
/// directory, whatever stands above it and whatever the filesystem holds.
pub proof fn lemma_normalize_archive_name(
    m: Map<Seq<Seq<char>>, NodeModel>,
    p: Seq<Seq<char>>,
)
    requires
        p.len() > 0,
        eq_ignore_case(p.last(), "app.asar"@) || eq_ignore_case(p.last(), "original.asar"@),
    ensures
        spec_normalize_head(m, p) == Some(p.drop_last()),
{
}

/// The character-level facts about the application-bundle names: none
/// of them is (even ignoring case) an archive, resources or contents
/// name, and each carries the bundle extension.
proof fn lemma_bundle_name_facts(name: Seq<char>)
    requires
        name == "TIDAL.app"@ || name == "Tidal.app"@ || name == "tidal.app"@,
    ensures
        !eq_ignore_case(name, "app.asar"@),
        !eq_ignore_case(name, "original.asar"@),
        !eq_ignore_case(name, "resources"@),
        !eq_ignore_case(name, "contents"@),
        ext_of(name) == Some("app"@),
{
    reveal_strlit("TIDAL.app");
    reveal_strlit("Tidal.app");
    reveal_strlit("tidal.app");
    reveal_strlit("app.asar");
    reveal_strlit("original.asar");
    reveal_strlit("resources");
    reveal_strlit("contents");
    reveal_strlit("app");
    if name == "TIDAL.app"@ {
        assert("TIDAL.app"@ =~= seq!['T', 'I', 'D', 'A', 'L', '.', 'a', 'p', 'p']);
        assert(crate::chars::last_dot_index(seq!['T', 'I', 'D', 'A', 'L', '.']) == 5);
        assert(seq!['T', 'I', 'D', 'A', 'L', '.', 'a'].drop_last() =~= seq!['T', 'I', 'D', 'A', 'L', '.']);
        assert(crate::chars::last_dot_index(seq!['T', 'I', 'D', 'A', 'L', '.', 'a']) == 5);
        assert(seq!['T', 'I', 'D', 'A', 'L', '.', 'a', 'p'].drop_last() =~= seq!['T', 'I', 'D', 'A', 'L', '.', 'a']);
        assert(crate::chars::last_dot_index(seq!['T', 'I', 'D', 'A', 'L', '.', 'a', 'p']) == 5);
        assert(seq!['T', 'I', 'D', 'A', 'L', '.', 'a', 'p', 'p'].drop_last() =~= seq!['T', 'I', 'D', 'A', 'L', '.', 'a', 'p']);
        assert(crate::chars::last_dot_index(seq!['T', 'I', 'D', 'A', 'L', '.', 'a', 'p', 'p']) == 5);
        assert(crate::chars::last_dot_index("TIDAL.app"@) == 5);
        assert("TIDAL.app"@.skip(6) =~= "app"@);
        assert(!eq_ignore_case(name, "app.asar"@)) by {
            if eq_ignore_case(name, "app.asar"@) {
                assert(lower_chars(name).len() == lower_chars("app.asar"@).len());
            }
        }
        assert(!eq_ignore_case(name, "original.asar"@)) by {
            if eq_ignore_case(name, "original.asar"@) {
                assert(lower_chars(name).len() == lower_chars("original.asar"@).len());
            }
        }
        assert(!eq_ignore_case(name, "contents"@)) by {
            if eq_ignore_case(name, "contents"@) {
                assert(lower_chars(name).len() == lower_chars("contents"@).len());
            }
        }
        assert(!eq_ignore_case(name, "resources"@)) by {
            if eq_ignore_case(name, "resources"@) {
                assert(lower_chars(name)[0] == lower_chars("resources"@)[0]);
                assert(lower_chars(name)[0] == crate::chars::lower_char(name[0]));
                assert(lower_chars("resources"@)[0] == crate::chars::lower_char('r'));
                assert(crate::chars::lower_char(name[0]) == 't');
                assert(crate::chars::lower_char('r') == 'r');
            }
        }
    }
    if name == "Tidal.app"@ {
        assert("Tidal.app"@ =~= seq!['T', 'i', 'd', 'a', 'l', '.', 'a', 'p', 'p']);
        assert(crate::chars::last_dot_index(seq!['T', 'i', 'd', 'a', 'l', '.']) == 5);
        assert(seq!['T', 'i', 'd', 'a', 'l', '.', 'a'].drop_last() =~= seq!['T', 'i', 'd', 'a', 'l', '.']);
        assert(crate::chars::last_dot_index(seq!['T', 'i', 'd', 'a', 'l', '.', 'a']) == 5);
        assert(seq!['T', 'i', 'd', 'a', 'l', '.', 'a', 'p'].drop_last() =~= seq!['T', 'i', 'd', 'a', 'l', '.', 'a']);
        assert(crate::chars::last_dot_index(seq!['T', 'i', 'd', 'a', 'l', '.', 'a', 'p']) == 5);
        assert(seq!['T', 'i', 'd', 'a', 'l', '.', 'a', 'p', 'p'].drop_last() =~= seq!['T', 'i', 'd', 'a', 'l', '.', 'a', 'p']);
        assert(crate::chars::last_dot_index(seq!['T', 'i', 'd', 'a', 'l', '.', 'a', 'p', 'p']) == 5);
        assert(crate::chars::last_dot_index("Tidal.app"@) == 5);
        assert("Tidal.app"@.skip(6) =~= "app"@);
        assert(!eq_ignore_case(name, "app.asar"@)) by {
            if eq_ignore_case(name, "app.asar"@) {
                assert(lower_chars(name).len() == lower_chars("app.asar"@).len());
            }
        }
        assert(!eq_ignore_case(name, "original.asar"@)) by {
            if eq_ignore_case(name, "original.asar"@) {
                assert(lower_chars(name).len() == lower_chars("original.asar"@).len());
            }
        }
        assert(!eq_ignore_case(name, "contents"@)) by {
            if eq_ignore_case(name, "contents"@) {
                assert(lower_chars(name).len() == lower_chars("contents"@).len());
            }
        }
        assert(!eq_ignore_case(name, "resources"@)) by {
            if eq_ignore_case(name, "resources"@) {
                assert(lower_chars(name)[0] == lower_chars("resources"@)[0]);
                assert(lower_chars(name)[0] == crate::chars::lower_char(name[0]));
                assert(lower_chars("resources"@)[0] == crate::chars::lower_char('r'));
                assert(crate::chars::lower_char(name[0]) == 't');
                assert(crate::chars::lower_char('r') == 'r');
            }
        }
    }
    if name == "tidal.app"@ {
        assert("tidal.app"@ =~= seq!['t', 'i', 'd', 'a', 'l', '.', 'a', 'p', 'p']);
        assert(crate::chars::last_dot_index(seq!['t', 'i', 'd', 'a', 'l', '.']) == 5);
        assert(seq!['t', 'i', 'd', 'a', 'l', '.', 'a'].drop_last() =~= seq!['t', 'i', 'd', 'a', 'l', '.']);
        assert(crate::chars::last_dot_index(seq!['t', 'i', 'd', 'a', 'l', '.', 'a']) == 5);
        assert(seq!['t', 'i', 'd', 'a', 'l', '.', 'a', 'p'].drop_last() =~= seq!['t', 'i', 'd', 'a', 'l', '.', 'a']);
        assert(crate::chars::last_dot_index(seq!['t', 'i', 'd', 'a', 'l', '.', 'a', 'p']) == 5);
        assert(seq!['t', 'i', 'd', 'a', 'l', '.', 'a', 'p', 'p'].drop_last() =~= seq!['t', 'i', 'd', 'a', 'l', '.', 'a', 'p']);
        assert(crate::chars::last_dot_index(seq!['t', 'i', 'd', 'a', 'l', '.', 'a', 'p', 'p']) == 5);
        assert(crate::chars::last_dot_index("tidal.app"@) == 5);
        assert("tidal.app"@.skip(6) =~= "app"@);
        assert(!eq_ignore_case(name, "app.asar"@)) by {
            if eq_ignore_case(name, "app.asar"@) {
                assert(lower_chars(name).len() == lower_chars("app.asar"@).len());
            }
        }
        assert(!eq_ignore_case(name, "original.asar"@)) by {
            if eq_ignore_case(name, "original.asar"@) {
                assert(lower_chars(name).len() == lower_chars("original.asar"@).len());
            }
        }
        assert(!eq_ignore_case(name, "contents"@)) by {
            if eq_ignore_case(name, "contents"@) {
                assert(lower_chars(name).len() == lower_chars("contents"@).len());
            }
        }
        assert(!eq_ignore_case(name, "resources"@)) by {
            if eq_ignore_case(name, "resources"@) {
                assert(lower_chars(name)[0] == lower_chars("resources"@)[0]);
                assert(lower_chars(name)[0] == crate::chars::lower_char(name[0]));
                assert(lower_chars("resources"@)[0] == crate::chars::lower_char('r'));
                assert(crate::chars::lower_char(name[0]) == 't');
                assert(crate::chars::lower_char('r') == 'r');
            }
        }
    }
}

/// An application bundle normalizes without probing: its name carries
/// the bundle extension, so normalization appends the bundle's contents
/// and resources names, whatever the filesystem holds.
pub proof fn lemma_bundle_normalize(m: Map<Seq<Seq<char>>, NodeModel>, p: Seq<Seq<char>>)
    requires
        p.len() > 0,
        p.last() == "TIDAL.app"@ || p.last() == "Tidal.app"@ || p.last() == "tidal.app"@,
    ensures
        spec_normalize_head(m, p) == Some(p.push("Contents"@).push("Resources"@)),
{
    lemma_bundle_name_facts(p.last());
}

/// The operating system the engine is resolving for.
#[derive(Clone, Copy, PartialEq, Eq, Structural, Debug)]
pub enum Platform {
    Windows,
    MacOs,
    Linux,
    Other,
}

/// Why discovery yielded no install target.
#[derive(Clone, Copy, PartialEq, Eq, Structural, Debug)]
pub enum DiscoverError {
    NotFound,
    Unsupported,
}

/// The paths of `s` that are valid install targets, in order.
pub open spec fn valid_keys(
    m: Map<Seq<Seq<char>>, NodeModel>,
    s: Seq<Seq<Seq<char>>>,
) -> Seq<Seq<Seq<char>>>
    decreases s.len(),
{
    if s.len() == 0 {
        Seq::empty()
    } else if is_resources_dir(m, s.last()) {
        valid_keys(m, s.drop_last()).push(s.last())
    } else {
        valid_keys(m, s.drop_last())
    }
}

/// Keep the candidates that pass the validity predicate, drop later
/// duplicates, and keep the original order.
pub fn filter_valid_targets(fs: &Fs, cands: Vec<AppPath>) -> (r: Vec<AppPath>)
    ensures
        r.deep_view() == dedup_keys(valid_keys(fs@, cands.deep_view())),
{
    let mut kept: Vec<AppPath> = Vec::new();
    let mut i: usize = 0;
    while i < cands.len()
        invariant
            i <= cands@.len(),
            kept.deep_view() =~= valid_keys(fs@, cands.deep_view().take(i as int)),
        decreases cands@.len() - i,
    {
        proof {
            assert(cands.deep_view().take(i + 1).drop_last() =~= cands.deep_view().take(
                i as int,
            ));
            assert(cands.deep_view().take(i + 1).last() == cands.deep_view()[i as int]);
        }
        if is_tidal_resources_directory(fs, &cands[i]) {
            let p = cands[i].clone();
            kept.push(p);
        }
        i = i + 1;
        proof {
            assert(kept.deep_view() =~= valid_keys(fs@, cands.deep_view().take(i as int)));
        }
    }
    proof {
        assert(cands.deep_view().take(cands@.len() as int) =~= cands.deep_view());
    }
    dedup_paths(kept)
}

/// An optional path's mathematical shape.
pub open spec fn opt_path_key(p: Option<&AppPath>) -> Option<Seq<Seq<char>>> {
    match p {
        Some(q) => Some(q@),
        None => None,
    }
}

/// One flatpak install location of the Linux client: the shared layout
/// below a flatpak root, at the given channel (the empty channel stands
/// for the `current` link).
pub open spec fn spec_flatpak_path(root: Seq<Seq<char>>, channel: Seq<char>) -> Seq<Seq<char>> {
    let base = root + seq!["flatpak"@, "app"@, "com.mastermindzh.tidal-hifi"@];
    let versioned = if channel.len() == 0 {
        base.push("current"@)
    } else {
        base + seq!["x86_64"@, channel]
    };
    versioned + seq!["active"@, "files"@, "lib"@, "tidal-hifi"@, "resources"@]
}

/// Every location probed on Linux, in probe order: the system flatpak
/// channels, the package and vendor directories, and the per-user
/// flatpak channels when a home directory is known.
pub open spec fn spec_linux_probe_paths(home: Option<Seq<Seq<char>>>) -> Seq<Seq<Seq<char>>> {
    let fixed = seq![
        spec_flatpak_path(seq!["var"@, "lib"@], ""@),
        spec_flatpak_path(seq!["var"@, "lib"@], "stable"@),
        spec_flatpak_path(seq!["var"@, "lib"@], "beta"@),
        seq!["opt"@, "tidal-hifi"@, "resources"@],
        seq!["opt"@, "TIDAL"@, "resources"@],
        seq!["usr"@, "lib"@, "tidal-hifi"@, "resources"@],
        seq!["usr"@, "lib"@, "TIDAL"@, "resources"@],
        seq!["usr"@, "share"@, "tidal-hifi"@, "resources"@],
        seq!["usr"@, "share"@, "TIDAL"@, "resources"@],
        seq!["app"@, "extra"@, "tidal-hifi"@, "resources"@],
    ];
    match home {
        Some(h) => fixed + seq![
            spec_flatpak_path(h + seq![".local"@, "share"@], ""@),
            spec_flatpak_path(h + seq![".local"@, "share"@], "stable"@),
            spec_flatpak_path(h + seq![".local"@, "share"@], "beta"@),
        ],
        None => fixed,
    }
}

/// Every application bundle probed on macOS, in probe order: the system
/// bundles, then the per-user ones when a home directory is known.
pub open spec fn spec_macos_bundles(home: Option<Seq<Seq<char>>>) -> Seq<Seq<Seq<char>>> {
    let fixed = seq![
        seq!["Applications"@, "TIDAL.app"@],
        seq!["Applications"@, "Tidal.app"@],
        seq!["Applications"@, "tidal.app"@],
    ];
    match home {
        Some(h) => fixed + seq![
            h + seq!["Applications"@, "TIDAL.app"@],
            h + seq!["Applications"@, "Tidal.app"@],
            h + seq!["Applications"@, "tidal.app"@],
        ],
        None => fixed,
    }
}

/// The fixed application-bundle locations probed on macOS, before the
/// per-user ones.
pub fn macos_bundle_candidates(home: Option<&AppPath>) -> (r: Vec<AppPath>)
    ensures
        r.deep_view() == spec_macos_bundles(opt_path_key(home)),
{
    let mut out: Vec<AppPath> = Vec::new();
    let apps = AppPath::empty().join("Applications");
    out.push(apps.join("TIDAL.app"));
    out.push(apps.join("Tidal.app"));
    out.push(apps.join("tidal.app"));
    match home {
        Some(h) => {
            let user_apps = h.join("Applications");
            out.push(user_apps.join("TIDAL.app"));
            out.push(user_apps.join("Tidal.app"));
            out.push(user_apps.join("tidal.app"));
        },
        None => {},
    }
    proof {
        assert(out.deep_view() =~~= spec_macos_bundles(opt_path_key(home)));
    }
    out
}

/// One of the flatpak install locations for the Linux client.
pub fn flatpak_candidate(root: &AppPath, channel: &str) -> (r: AppPath)
    ensures
        r@ == spec_flatpak_path(root@, channel@),
{
    let mut p = root.join("flatpak").join("app").join("com.mastermindzh.tidal-hifi");
    if channel.is_empty() {
        p = p.join("current");
    } else {
        p = p.join("x86_64").join(channel);
    }
    let out = p.join("active").join("files").join("lib").join("tidal-hifi").join("resources");
    proof {
        assert(out@ =~~= spec_flatpak_path(root@, channel@));
    }
    out
}

/// The well-known package, flatpak and vendor locations probed on Linux.
pub fn linux_path_candidates(home: Option<&AppPath>) -> (r: Vec<AppPath>)
    ensures
        r.deep_view() == spec_linux_probe_paths(opt_path_key(home)),
{
    let mut out: Vec<AppPath> = Vec::new();
    let var_lib = AppPath::empty().join("var").join("lib");
    out.push(flatpak_candidate(&var_lib, ""));
    out.push(flatpak_candidate(&var_lib, "stable"));
    out.push(flatpak_candidate(&var_lib, "beta"));
    let opt = AppPath::empty().join("opt");
    out.push(opt.join("tidal-hifi").join("resources"));
    out.push(opt.join("TIDAL").join("resources"));
    let usr_lib = AppPath::empty().join("usr").join("lib");
    out.push(usr_lib.join("tidal-hifi").join("resources"));
    out.push(usr_lib.join("TIDAL").join("resources"));
    let usr_share = AppPath::empty().join("usr").join("share");
    out.push(usr_share.join("tidal-hifi").join("resources"));
    out.push(usr_share.join("TIDAL").join("resources"));
    out.push(AppPath::empty().join("app").join("extra").join("tidal-hifi").join("resources"));
    match home {
        Some(h) => {
            let user_share = h.join(".local").join("share");
            out.push(flatpak_candidate(&user_share, ""));
            out.push(flatpak_candidate(&user_share, "stable"));
            out.push(flatpak_candidate(&user_share, "beta"));
            proof {
                assert(user_share@ =~= h@ + seq![".local"@, "share"@]);
                assert(out.deep_view() =~~= spec_linux_probe_paths(opt_path_key(home)));
            }
        },
        None => {
            proof {
                assert(out.deep_view() =~~= spec_linux_probe_paths(opt_path_key(home)));
            }
        },
    }
    out
}

/// The resources directory each probed macOS bundle stands for.
pub open spec fn spec_macos_resource_paths(home: Option<Seq<Seq<char>>>) -> Seq<Seq<Seq<char>>> {
    spec_macos_bundles(home).map_values(
        |b: Seq<Seq<char>>| b.push("Contents"@).push("Resources"@),
    )
}

/// What Linux discovery yields: the valid targets among the probed
/// locations, deduplicated, in probe order.
pub open spec fn spec_linux_targets(
    m: Map<Seq<Seq<char>>, NodeModel>,
    home: Option<Seq<Seq<char>>>,
) -> Seq<Seq<Seq<char>>> {
    dedup_keys(valid_keys(m, spec_linux_probe_paths(home)))
}

/// What macOS discovery yields: the valid targets among the probed
/// bundles' resource directories, deduplicated, in probe order.
pub open spec fn spec_macos_targets(
    m: Map<Seq<Seq<char>>, NodeModel>,
    home: Option<Seq<Seq<char>>>,
) -> Seq<Seq<Seq<char>>> {
    dedup_keys(valid_keys(m, spec_macos_resource_paths(home)))
}

/// Every probed macOS bundle ends in one of the three bundle names, and
/// its resource path is the bundle plus the contents and resources
/// components.
proof fn lemma_macos_bundle_shape(home: Option<Seq<Seq<char>>>, i: int)
    requires
        0 <= i < spec_macos_bundles(home).len(),
    ensures
        ({
            let b = spec_macos_bundles(home)[i];
            &&& b.len() > 0
            &&& (b.last() == "TIDAL.app"@ || b.last() == "Tidal.app"@ || b.last()
                == "tidal.app"@)
            &&& spec_macos_resource_paths(home)[i] == b.push("Contents"@).push("Resources"@)
        }),
{
    let bs = spec_macos_bundles(home);
    match home {
        Some(h) => {
            assert(bs.len() == 6);
            if i >= 3 {
                assert(bs[i] == h + seq![
                    "Applications"@,
                    if i == 3 {
                        "TIDAL.app"@
                    } else if i == 4 {
                        "Tidal.app"@
                    } else {
                        "tidal.app"@
                    },
                ]);
            }
        },
        None => {
            assert(bs.len() == 3);
        },
    }
}

/// Probe the platform's well-known install locations and return every
/// valid install target, deduplicated, in probe order.  An empty harvest
/// is the recoverable not-found condition; an unmodelled platform is
/// unsupported.
pub fn find_tidal_directories(
    fs: &Fs,
    platform: Platform,
    home: Option<&AppPath>,
    local_appdata: Option<&AppPath>,
) -> (r: Result<Vec<AppPath>, DiscoverError>)
    ensures
        r matches Ok(l) ==> l@.len() >= 1 && (forall|i: int|
            0 <= i < l@.len() ==> is_resources_dir(fs@, #[trigger] l.deep_view()[i])) && (forall|
            a: int,
            b: int,
        |
            0 <= a < b < l@.len() ==> l.deep_view()[a] != l.deep_view()[b]),
        (r == Err::<Vec<AppPath>, DiscoverError>(DiscoverError::Unsupported)) <==> platform
            is Other,
        platform is Linux ==> match r {
            Ok(l) => l.deep_view() == spec_linux_targets(fs@, opt_path_key(home)),
            Err(e) => e is NotFound && spec_linux_targets(fs@, opt_path_key(home)).len() == 0,
        },
        platform is MacOs ==> match r {
            Ok(l) => l.deep_view() == spec_macos_targets(fs@, opt_path_key(home)),
            Err(e) => e is NotFound && spec_macos_targets(fs@, opt_path_key(home)).len() == 0,
        },
        platform is Windows ==> match local_appdata {
            Some(la) => {
                &&& (r matches Ok(l) ==> l@.len() == 1 && is_max_version_resources(
                    fs@,
                    la@.push("TIDAL"@),
                    l.deep_view()[0],
                ))
                &&& (r is Err ==> r == Err::<Vec<AppPath>, DiscoverError>(
                    DiscoverError::NotFound,
                ) && !has_version_candidate(fs@, la@.push("TIDAL"@)))
            },
            None => r == Err::<Vec<AppPath>, DiscoverError>(DiscoverError::NotFound),
        },
{
    match platform {
        Platform::Windows => {
            match local_appdata {
                Some(la) => {
                    let base = la.join("TIDAL");
                    match find_resources_in_app_versions(fs, &base) {
                        Some(p) => {
                            proof {
                                let n = choose|n: Seq<char>|
                                    {
                                        &&& #[trigger] app_version_candidate(fs@, base@, n)
                                        &&& spec_resolve_resources_dir(fs@, base@.push(n))
                                            == Some(p@)
                                        &&& forall|n2: Seq<char>|
                                            #[trigger] app_version_candidate(fs@, base@, n2)
                                                ==> !ver_precedes(
                                                app_dir_version(n)->0,
                                                app_dir_version(n2)->0,
                                            )
                                    };
                                assert(is_resources_dir(fs@, p@));
                            }
                            let mut out: Vec<AppPath> = Vec::new();
                            out.push(p);
                            Ok(out)
                        },
                        None => Err(DiscoverError::NotFound),
                    }
                },
                None => Err(DiscoverError::NotFound),
            }
        },
        Platform::MacOs => {
            let bundles = macos_bundle_candidates(home);
            let ghost resspec = spec_macos_resource_paths(opt_path_key(home));
            let mut resolved: Vec<AppPath> = Vec::new();
            let mut i: usize = 0;
            while i < bundles.len()
                invariant
                    i <= bundles@.len(),
                    bundles.deep_view() == spec_macos_bundles(opt_path_key(home)),
                    resspec == spec_macos_resource_paths(opt_path_key(home)),
                    resspec.len() == bundles.deep_view().len(),
                    resolved.deep_view() =~= valid_keys(fs@, resspec.take(i as int)),
                decreases bundles@.len() - i,
            {
                proof {
                    assert(resspec.take(i + 1).drop_last() =~= resspec.take(i as int));
                    assert(resspec.take(i + 1).last() == resspec[i as int]);
                    lemma_macos_bundle_shape(opt_path_key(home), i as int);
                }
                let b = bundles[i].clone();
                proof {
                    lemma_bundle_normalize(fs@, bundles.deep_view()[i as int]);
                    assert(b@ == bundles.deep_view()[i as int]);
                }
                let candidate = normalize_tidal_resources_path(fs, b);
                proof {
                    assert(candidate@ == resspec[i as int]);
                }
                if is_tidal_resources_directory(fs, &candidate) {
                    resolved.push(candidate);
                }
                i = i + 1;
                proof {
                    assert(resolved.deep_view() =~= valid_keys(fs@, resspec.take(i as int)));
                }
            }
            proof {
                assert(resspec.take(resspec.len() as int) =~= resspec);
            }
            let out = dedup_paths(resolved);
            proof {
                lemma_dedup_keys_members(resolved.deep_view());
                lemma_dedup_keys_distinct(resolved.deep_view());
                lemma_valid_keys_members(fs@, resspec);
            }
            if out.len() == 0 {
                proof {
                    assert(spec_macos_targets(fs@, opt_path_key(home)).len() == 0);
                }
                Err(DiscoverError::NotFound)
            } else {
                proof {
                    assert forall|j: int| 0 <= j < out.deep_view().len() implies is_resources_dir(
                        fs@,
                        #[trigger] out.deep_view()[j],
                    ) by {
                        let d = dedup_keys(resolved.deep_view());
                        assert(d[j] == out.deep_view()[j]);
                        assert(d.contains(out.deep_view()[j]));
                        assert(valid_keys(fs@, resspec).contains(out.deep_view()[j]));
                    }
                }
                Ok(out)
            }
        },
        Platform::Linux => {
            let cands = linux_path_candidates(home);
            let out = filter_valid_targets(fs, cands);
            proof {
                lemma_dedup_keys_members(valid_keys(fs@, cands.deep_view()));
                lemma_dedup_keys_distinct(valid_keys(fs@, cands.deep_view()));
                lemma_valid_keys_members(fs@, cands.deep_view());
            }
            if out.len() == 0 {
                proof {
                    assert(spec_linux_targets(fs@, opt_path_key(home)).len() == 0);
                }
                Err(DiscoverError::NotFound)
            } else {
                proof {
                    assert forall|j: int| 0 <= j < out.deep_view().len() implies is_resources_dir(
                        fs@,
                        #[trigger] out.deep_view()[j],
                    ) by {
                        let d = dedup_keys(valid_keys(fs@, cands.deep_view()));
                        assert(d[j] == out.deep_view()[j]);
                        assert(d.contains(out.deep_view()[j]));
                        assert(valid_keys(fs@, cands.deep_view()).contains(out.deep_view()[j]));
                    }
                }
                Ok(out)
            }
        },
        Platform::Other => Err(DiscoverError::Unsupported),
    }
}

/// Deduplication leaves no two equal paths behind.
proof fn lemma_dedup_keys_distinct(s: Seq<Seq<Seq<char>>>)
    ensures
        forall|a: int, b: int|
            0 <= a < b < dedup_keys(s).len() ==> dedup_keys(s)[a] != dedup_keys(s)[b],
    decreases s.len(),
{
    if s.len() > 0 {
        lemma_dedup_keys_distinct(s.drop_last());
        let pre = dedup_keys(s.drop_last());
        if !pre.contains(s.last()) {
            assert forall|a: int, b: int|
                0 <= a < b < dedup_keys(s).len() implies dedup_keys(s)[a] != dedup_keys(
                s,
            )[b] by {
                if b == dedup_keys(s).len() - 1 {
                    assert(dedup_keys(s)[a] == pre[a]);
                    assert(pre.contains(pre[a]));
                }
            }
        }
    }
}

/// Every path that survives deduplication already stood in the input.
proof fn lemma_dedup_keys_members(s: Seq<Seq<Seq<char>>>)
    ensures
        forall|x: Seq<Seq<char>>| #[trigger] dedup_keys(s).contains(x) ==> s.contains(x),
    decreases s.len(),
{
    if s.len() > 0 {
        lemma_dedup_keys_members(s.drop_last());
        assert forall|x: Seq<Seq<char>>| #[trigger] dedup_keys(s).contains(x) implies s.contains(
            x,
        ) by {
            if dedup_keys(s.drop_last()).contains(x) {
                assert(s.drop_last().contains(x));
                let k = choose|k: int|
                    0 <= k < s.drop_last().len() && s.drop_last()[k] == x;
                assert(s[k] == x);
            } else {
                assert(x == s.last());
            }
        }
    }
}

/// Every path that survives the validity filter is a valid target.
proof fn lemma_valid_keys_members(m: Map<Seq<Seq<char>>, NodeModel>, s: Seq<Seq<Seq<char>>>)
    ensures
        forall|x: Seq<Seq<char>>| #[trigger] valid_keys(m, s).contains(x) ==> is_resources_dir(
            m,
            x,
        ),
    decreases s.len(),
{
    if s.len() > 0 {
        lemma_valid_keys_members(m, s.drop_last());
        assert forall|x: Seq<Seq<char>>| #[trigger] valid_keys(m, s).contains(x)
            implies is_resources_dir(m, x) by {
            if is_resources_dir(m, s.last()) && x == s.last() {
            } else {
                assert(valid_keys(m, s.drop_last()).contains(x));
            }
        }
    }
}

/// The preferred install target: the first one discovery yields.
pub fn get_tidal_directory(
    fs: &Fs,
    platform: Platform,
    home: Option<&AppPath>,
    local_appdata: Option<&AppPath>,
) -> (r: Result<AppPath, DiscoverError>)
    ensures
        r matches Ok(p) ==> is_resources_dir(fs@, p@),
        (r == Err::<AppPath, DiscoverError>(DiscoverError::Unsupported)) <==> platform is Other,
        platform is Linux ==> match r {
            Ok(p) => spec_linux_targets(fs@, opt_path_key(home)).len() >= 1 && p@
                == spec_linux_targets(fs@, opt_path_key(home))[0],
            Err(e) => e is NotFound && spec_linux_targets(fs@, opt_path_key(home)).len() == 0,
        },
        platform is MacOs ==> match r {
            Ok(p) => spec_macos_targets(fs@, opt_path_key(home)).len() >= 1 && p@
                == spec_macos_targets(fs@, opt_path_key(home))[0],
            Err(e) => e is NotFound && spec_macos_targets(fs@, opt_path_key(home)).len() == 0,
        },
        platform is Windows ==> match local_appdata {
            Some(la) => match r {
                Ok(p) => is_max_version_resources(fs@, la@.push("TIDAL"@), p@),
                Err(e) => e is NotFound && !has_version_candidate(fs@, la@.push("TIDAL"@)),
            },
            None => r == Err::<AppPath, DiscoverError>(DiscoverError::NotFound),
        },
{
    match find_tidal_directories(fs, platform, home, local_appdata) {
        Ok(mut l) => {
            proof {
                assert(is_resources_dir(fs@, l.deep_view()[0]));
            }
            let first = l.remove(0);
            Ok(first)
        },
        Err(e) => Err(e),
    }
}

/// The modification is present in some member of a target list: the
/// member's injected-tree name carries a node.
pub open spec fn luna_marker_in(
    m: Map<Seq<Seq<char>>, NodeModel>,
    targets: Seq<Seq<Seq<char>>>,
) -> bool {
    exists|i: int| 0 <= i < targets.len() && m.contains_key(#[trigger] targets[i].push("app"@))
}

/// Is the modification present in any discovered install target?  The
/// not-found condition counts as "not installed"; an unsupported platform
/// stays an error.
pub fn is_luna_installed(
    fs: &Fs,
    platform: Platform,
    home: Option<&AppPath>,
    local_appdata: Option<&AppPath>,
) -> (r: Result<bool, DiscoverError>)
    ensures
        (r == Err::<bool, DiscoverError>(DiscoverError::Unsupported)) <==> platform is Other,
        r matches Err(e) ==> e is Unsupported,
        platform is Linux ==> r == Ok::<bool, DiscoverError>(
            luna_marker_in(fs@, spec_linux_targets(fs@, opt_path_key(home))),
        ),
        platform is MacOs ==> r == Ok::<bool, DiscoverError>(
            luna_marker_in(fs@, spec_macos_targets(fs@, opt_path_key(home))),
        ),
        platform is Windows ==> match local_appdata {
            Some(la) => match r {
                Ok(b) => (!b && !has_version_candidate(fs@, la@.push("TIDAL"@))) || (exists|
                    t: Seq<Seq<char>>,
                |
                    #[trigger] is_max_version_resources(fs@, la@.push("TIDAL"@), t) && b
                        == fs@.contains_key(t.push("app"@))),
                Err(_) => false,
            },
            None => r == Ok::<bool, DiscoverError>(false),
        },
{
    let dirs = match find_tidal_directories(fs, platform, home, local_appdata) {
        Ok(l) => l,
        Err(DiscoverError::NotFound) => {
            proof {
                if platform is Linux {
                    assert(!luna_marker_in(fs@, spec_linux_targets(fs@, opt_path_key(home))));
                }
                if platform is MacOs {
                    assert(!luna_marker_in(fs@, spec_macos_targets(fs@, opt_path_key(home))));
                }
            }
            return Ok(false);
        },
        Err(DiscoverError::Unsupported) => {
            return Err(DiscoverError::Unsupported);
        },
    };
    let mut found = false;
    let mut i: usize = 0;
    while i < dirs.len()
        invariant
            i <= dirs@.len(),
            found == exists|j: int|
                0 <= j < i && fs@.contains_key(#[trigger] dirs.deep_view()[j].push("app"@)),
        decreases dirs@.len() - i,
    {
        if fs.exists_node(&dirs[i].join("app")) {
            found = true;
            proof {
                assert(fs@.contains_key(dirs.deep_view()[i as int].push("app"@)));
            }
        }
        i = i + 1;
    }
    proof {
        assert(found == luna_marker_in(fs@, dirs.deep_view()));
    }
    Ok(found)
}

} // verus!
