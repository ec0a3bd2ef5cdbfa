use vstd::prelude::*;

use crate::fs_model::{NodeModel, subtree_copied, with_dir_all, with_dirs_span, without_subtree};
use crate::manager::{StepModel, spec_install_steps, spec_run_steps, spec_step, spec_uninstall_steps};
use crate::paths::is_path_prefix;
use crate::version::ver_precedes;
use crate::step::{FetchModel, WorldModel, spec_temp_dir};
use crate::steps::{
    spec_cleanup, spec_copy_install, spec_copy_uninstall, spec_download, spec_extract,
    spec_extract_entries, spec_insert, spec_setup, spec_uninstall,
};
use crate::zipcheck::{
    MAX_ZIP_ENTRY_SIZE, ZipEntryModel, entry_name_safe, spec_safe_zip_join, zip_bytes_valid,
    zip_entries_of, zip_eocd_ok,
};

verus! {

/// One primitive filesystem mutation of the download step.
pub enum FsAct {
    MkDirAll(Seq<Seq<char>>),
    RemoveFile(Seq<Seq<char>>),
    WriteFile(Seq<Seq<char>>, Seq<u8>),
    RenameFile(Seq<Seq<char>>, Seq<Seq<char>>),
}

/// Apply one primitive mutation to a filesystem.
pub open spec fn apply_act(
    m: Map<Seq<Seq<char>>, NodeModel>,
    a: FsAct,
) -> Map<Seq<Seq<char>>, NodeModel> {
    match a {
        FsAct::MkDirAll(p) => with_dir_all(m, p),
        FsAct::RemoveFile(p) => if m.contains_key(p) && m[p] is File {
            m.remove(p)
        } else {
            m
        },
        FsAct::WriteFile(p, d) => m.insert(p, NodeModel::File { data: d }),
        FsAct::RenameFile(f, t) => if m.contains_key(f) && m[f] is File {
            m.remove(f).insert(t, m[f])
        } else {
            m
        },
    }
}

/// Apply a run of primitive mutations, first to last.
pub open spec fn apply_acts(
    m: Map<Seq<Seq<char>>, NodeModel>,
    s: Seq<FsAct>,
) -> Map<Seq<Seq<char>>, NodeModel>
    decreases s.len(),
{
    if s.len() == 0 {
        m
    } else {
        apply_act(apply_acts(m, s.drop_last()), s.last())
    }
}

/// The mutations a successful download performs, in order: the scratch
/// directory is ensured, any stale side file is dropped, the payload is
/// written to the side file, and the side file moves onto the final
/// name.
pub open spec fn download_actions(temp_root: Seq<Seq<char>>, body: Seq<u8>) -> Seq<FsAct> {
    let temp = spec_temp_dir(temp_root);
    let part = temp.push("Luna.zip.part"@);
    let zipp = temp.push("Luna.zip"@);
    seq![
        FsAct::MkDirAll(temp),
        FsAct::RemoveFile(part),
        FsAct::WriteFile(part, body),
        FsAct::RenameFile(part, zipp),
    ]
}

proof fn lemma_apply4(m: Map<Seq<Seq<char>>, NodeModel>, a0: FsAct, a1: FsAct, a2: FsAct, a3: FsAct)
    ensures
        apply_acts(m, seq![a0, a1, a2, a3]) == apply_act(
            apply_act(apply_act(apply_act(m, a0), a1), a2),
            a3,
        ),
{
    let s4 = seq![a0, a1, a2, a3];
    let s3 = seq![a0, a1, a2];
    let s2 = seq![a0, a1];
    let s1 = seq![a0];
    let s0 = Seq::<FsAct>::empty();
    assert(s4.drop_last() =~= s3);
    assert(s3.drop_last() =~= s2);
    assert(s2.drop_last() =~= s1);
    assert(s1.drop_last() =~= s0);
    assert(s4.last() == a3);
    assert(s3.last() == a2);
    assert(s2.last() == a1);
    assert(s1.last() == a0);
    assert(apply_acts(m, s0) == m);
    assert(apply_acts(m, s1) == apply_act(m, a0));
    assert(apply_acts(m, s2) == apply_act(apply_act(m, a0), a1));
    assert(apply_acts(m, s3) == apply_act(apply_act(apply_act(m, a0), a1), a2));
}

proof fn lemma_apply1(m: Map<Seq<Seq<char>>, NodeModel>, a0: FsAct)
    ensures
        apply_acts(m, seq![a0]) == apply_act(m, a0),
{
    assert(seq![a0].drop_last() =~= Seq::<FsAct>::empty());
    assert(seq![a0].last() == a0);
    assert(apply_acts(m, Seq::<FsAct>::empty()) == m);
}

proof fn lemma_apply2(m: Map<Seq<Seq<char>>, NodeModel>, a0: FsAct, a1: FsAct)
    ensures
        apply_acts(m, seq![a0, a1]) == apply_act(apply_act(m, a0), a1),
{
    assert(seq![a0, a1].drop_last() =~= seq![a0]);
    lemma_apply1(m, a0);
}

proof fn lemma_apply3(m: Map<Seq<Seq<char>>, NodeModel>, a0: FsAct, a1: FsAct, a2: FsAct)
    ensures
        apply_acts(m, seq![a0, a1, a2]) == apply_act(apply_act(apply_act(m, a0), a1), a2),
{
    assert(seq![a0, a1, a2].drop_last() =~= seq![a0, a1]);
    lemma_apply2(m, a0, a1);
}

proof fn lemma_span_preserves(
    m: Map<Seq<Seq<char>>, NodeModel>,
    p: Seq<Seq<char>>,
    lo: int,
    hi: int,
    k: Seq<Seq<char>>,
)
    requires
        forall|j: int| lo < j <= hi ==> p.take(j) != k,
    ensures
        with_dirs_span(m, p, lo, hi).contains_key(k) == m.contains_key(k),
        m.contains_key(k) ==> with_dirs_span(m, p, lo, hi)[k] == m[k],
    decreases hi - lo,
{
    if hi > lo {
        lemma_span_preserves(m, p, lo, hi - 1, k);
    }
}

/// The final archive name differs from the side name and from every
/// ancestor directory the download touches.
proof fn lemma_download_names_distinct(temp_root: Seq<Seq<char>>)
    ensures
        spec_temp_dir(temp_root).push("Luna.zip"@) != spec_temp_dir(temp_root).push(
            "Luna.zip.part"@,
        ),
{
    reveal_strlit("Luna.zip");
    reveal_strlit("Luna.zip.part");
    let temp = spec_temp_dir(temp_root);
    let zipp = temp.push("Luna.zip"@);
    let part = temp.push("Luna.zip.part"@);
    assert("Luna.zip"@.len() == 8);
    assert("Luna.zip.part"@.len() == 13);
    if zipp == part {
        assert(zipp.last() == part.last());
        assert(false);
    }
}

/// A successful download is exactly the action run: ensure the scratch
/// directory, drop the stale side file, write the side file, rename it.
pub proof fn lemma_download_success_is_actions(
    fs: Map<Seq<Seq<char>>, NodeModel>,
    temp_root: Seq<Seq<char>>,
    url: Seq<char>,
    status: u16,
    body: Seq<u8>,
)
    requires
        200 <= status < 300,
        body.len() > 0,
        zip_bytes_valid(body),
    ensures
        spec_download(fs, temp_root, url, FetchModel::Response { status, body }).fs == apply_acts(
            fs,
            download_actions(temp_root, body),
        ),
{
    let temp = spec_temp_dir(temp_root);
    let part = temp.push("Luna.zip.part"@);
    let zipp = temp.push("Luna.zip"@);
    lemma_apply4(
        fs,
        FsAct::MkDirAll(temp),
        FsAct::RemoveFile(part),
        FsAct::WriteFile(part, body),
        FsAct::RenameFile(part, zipp),
    );
    let fs1 = with_dir_all(fs, temp);
    let fs2 = if fs1.contains_key(part) && fs1[part] is File {
        fs1.remove(part)
    } else {
        fs1
    };
    let fs3 = fs2.insert(part, NodeModel::File { data: body });
    assert(apply_act(fs, FsAct::MkDirAll(temp)) == fs1);
    assert(apply_act(fs1, FsAct::RemoveFile(part)) == fs2);
    assert(apply_act(fs2, FsAct::WriteFile(part, body)) == fs3);
    assert(fs3.contains_key(part) && fs3[part] is File);
    assert(apply_act(fs3, FsAct::RenameFile(part, zipp)) == fs3.remove(part).insert(
        zipp,
        fs3[part],
    ));
}

/// Download atomicity: at every stage of the download's mutations, the
/// final archive name holds either whatever it held before the download
/// or the complete validated payload; a half-written file is never
/// visible under the final name.
pub proof fn lemma_download_atomic(
    fs: Map<Seq<Seq<char>>, NodeModel>,
    temp_root: Seq<Seq<char>>,
    body: Seq<u8>,
    k: int,
)
    requires
        0 <= k <= download_actions(temp_root, body).len(),
    ensures
        ({
            let zipp = spec_temp_dir(temp_root).push("Luna.zip"@);
            let m = apply_acts(fs, download_actions(temp_root, body).take(k));
            m.contains_key(zipp) ==> (m[zipp] == (NodeModel::File { data: body }) || (
            fs.contains_key(zipp) && m[zipp] == fs[zipp]))
        }),
{
    let acts = download_actions(temp_root, body);
    let temp = spec_temp_dir(temp_root);
    let part = temp.push("Luna.zip.part"@);
    let zipp = temp.push("Luna.zip"@);
    lemma_download_names_distinct(temp_root);
    assert forall|j: int| 0 < j <= temp.len() implies temp.take(j) != zipp by {
        if temp.take(j) == zipp {
            assert(temp.take(j).len() == j);
            assert(zipp.len() == temp.len() + 1);
        }
    }
    let a0 = FsAct::MkDirAll(temp);
    let a1 = FsAct::RemoveFile(part);
    let a2 = FsAct::WriteFile(part, body);
    let a3 = FsAct::RenameFile(part, zipp);
    let m1 = apply_act(fs, a0);
    let m2 = apply_act(m1, a1);
    let m3 = apply_act(m2, a2);
    let m4 = apply_act(m3, a3);
    lemma_span_preserves(fs, temp, 0, temp.len() as int, zipp);
    assert(m1.contains_key(zipp) == fs.contains_key(zipp));
    assert(fs.contains_key(zipp) ==> m1[zipp] == fs[zipp]);
    if k == 0 {
        assert(acts.take(0) =~= Seq::<FsAct>::empty());
    } else if k == 1 {
        assert(acts.take(1) =~= seq![a0]);
        lemma_apply1(fs, a0);
    } else if k == 2 {
        assert(acts.take(2) =~= seq![a0, a1]);
        lemma_apply2(fs, a0, a1);
        assert(m2.contains_key(zipp) ==> m2[zipp] == m1[zipp]);
    } else if k == 3 {
        assert(acts.take(3) =~= seq![a0, a1, a2]);
        lemma_apply3(fs, a0, a1, a2);
        assert(m3.contains_key(zipp) ==> m3[zipp] == m2[zipp] || zipp == part);
    } else {
        assert(acts.take(4) =~= acts);
        assert(acts =~= seq![a0, a1, a2, a3]);
        lemma_apply4(fs, a0, a1, a2, a3);
        assert(m3.contains_key(part) && m3[part] is File);
        assert(m4[zipp] == m3[part]);
        assert(m3[part] == (NodeModel::File { data: body }));
    }
}

/// Every destination the extraction of one entry list touches lies at or
/// under the extraction root: paths outside the root keep their nodes,
/// whatever the entries hold.
pub proof fn lemma_extract_writes_within_root(
    m: Map<Seq<Seq<char>>, NodeModel>,
    ex: Seq<Seq<char>>,
    entries: Seq<ZipEntryModel>,
    k: Seq<Seq<char>>,
)
    requires
        !is_path_prefix(ex, k),
    ensures
        spec_extract_entries(m, ex, entries).fs.contains_key(k) == m.contains_key(k),
        m.contains_key(k) ==> spec_extract_entries(m, ex, entries).fs[k] == m[k],
    decreases entries.len(),
{
    if entries.len() > 0 {
        let e = entries[0];
        if e.size > MAX_ZIP_ENTRY_SIZE {
        } else {
            match spec_safe_zip_join(ex, e.name) {
                None => {},
                Some(dest) => {
                    assert(dest.take(ex.len() as int) =~= ex);
                    assert forall|j: int| ex.len() < j <= dest.len() implies dest.take(j)
                        != k by {
                        if dest.take(j) == k {
                            assert(dest.take(j).take(ex.len() as int) =~= ex);
                            assert(is_path_prefix(ex, k));
                        }
                    }
                    assert(dest != k) by {
                        if dest == k {
                            assert(is_path_prefix(ex, k));
                        }
                    }
                    let m2 = if e.is_dir {
                        with_dirs_span(m, dest, ex.len() as int, dest.len() as int)
                    } else {
                        with_dirs_span(m, dest.drop_last(), ex.len() as int, dest.len() - 1).insert(
                            dest,
                            NodeModel::File { data: e.data },
                        )
                    };
                    if e.is_dir {
                        lemma_span_preserves(m, dest, ex.len() as int, dest.len() as int, k);
                    } else {
                        assert forall|j: int|
                            ex.len() < j <= dest.len() - 1 implies dest.drop_last().take(j)
                            != k by {
                            assert(dest.drop_last().take(j) =~= dest.take(j));
                        }
                        lemma_span_preserves(
                            m,
                            dest.drop_last(),
                            ex.len() as int,
                            dest.len() - 1,
                            k,
                        );
                    }
                    assert(m2.contains_key(k) == m.contains_key(k));
                    lemma_extract_writes_within_root(m2, ex, entries.drop_first(), k);
                },
            }
        }
    }
}

/// A single traversal-carrying entry anywhere in the archive makes the
/// whole extraction fail.
pub proof fn lemma_extract_rejects_traversal(
    m: Map<Seq<Seq<char>>, NodeModel>,
    ex: Seq<Seq<char>>,
    entries: Seq<ZipEntryModel>,
)
    requires
        exists|i: int| 0 <= i < entries.len() && !entry_name_safe(#[trigger] entries[i].name),
    ensures
        !spec_extract_entries(m, ex, entries).success,
    decreases entries.len(),
{
    let i = choose|i: int| 0 <= i < entries.len() && !entry_name_safe(#[trigger] entries[i].name);
    let e = entries[0];
    if e.size > MAX_ZIP_ENTRY_SIZE {
    } else {
        match spec_safe_zip_join(ex, e.name) {
            None => {},
            Some(dest) => {
                assert(entry_name_safe(e.name));
                assert(i != 0);
                assert(entries.drop_first()[i - 1] == entries[i]);
                let m2 = if e.is_dir {
                    with_dirs_span(m, dest, ex.len() as int, dest.len() as int)
                } else {
                    with_dirs_span(m, dest.drop_last(), ex.len() as int, dest.len() - 1).insert(
                        dest,
                        NodeModel::File { data: e.data },
                    )
                };
                lemma_extract_rejects_traversal(m2, ex, entries.drop_first());
            },
        }
    }
}

/// Extraction stops at the first offending entry: the whole run fails,
/// and the filesystem holds exactly the writes of the entries before it;
/// in particular the offender's bytes are never written.
pub proof fn lemma_extract_stops_at_offender(
    m: Map<Seq<Seq<char>>, NodeModel>,
    ex: Seq<Seq<char>>,
    entries: Seq<ZipEntryModel>,
    i: int,
)
    requires
        0 <= i < entries.len(),
        entries[i].size > MAX_ZIP_ENTRY_SIZE || !entry_name_safe(entries[i].name),
        forall|j: int|
            0 <= j < i ==> (#[trigger] entries[j].size) <= MAX_ZIP_ENTRY_SIZE && entry_name_safe(
                entries[j].name,
            ),
    ensures
        !spec_extract_entries(m, ex, entries).success,
        spec_extract_entries(m, ex, entries).fs == spec_extract_entries(
            m,
            ex,
            entries.take(i),
        ).fs,
    decreases i,
{
    if i == 0 {
        assert(entries.take(0) =~= Seq::<ZipEntryModel>::empty());
    } else {
        let e = entries[0];
        assert(e.size <= MAX_ZIP_ENTRY_SIZE && entry_name_safe(e.name));
        match spec_safe_zip_join(ex, e.name) {
            None => {
                assert(false);
            },
            Some(dest) => {
                let m2 = if e.is_dir {
                    with_dirs_span(m, dest, ex.len() as int, dest.len() as int)
                } else {
                    with_dirs_span(m, dest.drop_last(), ex.len() as int, dest.len() - 1).insert(
                        dest,
                        NodeModel::File { data: e.data },
                    )
                };
                assert forall|j: int| 0 <= j < i - 1 implies (#[trigger] entries.drop_first(
                )[j].size) <= MAX_ZIP_ENTRY_SIZE && entry_name_safe(
                    entries.drop_first()[j].name,
                ) by {
                    assert(entries.drop_first()[j] == entries[j + 1]);
                }
                assert(entries.drop_first()[i - 1] == entries[i]);
                lemma_extract_stops_at_offender(m2, ex, entries.drop_first(), i - 1);
                assert(entries.take(i)[0] == entries[0]);
                assert(entries.take(i).drop_first() =~= entries.drop_first().take(i - 1));
            },
        }
    }
}

/// On a pristine target, the backup-and-vacate step creates the backup
/// with exactly the bytes of the primary archive and vacates the
/// primary name.
pub proof fn lemma_backup_created_on_first_install(
    m: Map<Seq<Seq<char>>, NodeModel>,
    t: Seq<Seq<char>>,
    b0: Seq<u8>,
)
    requires
        m.contains_key(t),
        !m.contains_key(t.push("original.asar"@)),
        m.contains_key(t.push("app.asar"@)),
        m[t.push("app.asar"@)] == (NodeModel::File { data: b0 }),
    ensures
        ({
            let o = spec_copy_install(m, Some(t));
            &&& o.success
            &&& o.fs.contains_key(t.push("original.asar"@))
            &&& o.fs[t.push("original.asar"@)] == (NodeModel::File { data: b0 })
            &&& !o.fs.contains_key(t.push("app.asar"@))
        }),
{
    lemma_asar_names_distinct();
    lemma_app_asar_extension();
    let orig = t.push("original.asar"@);
    let app = t.push("app.asar"@);
    assert(crate::steps::spec_has_asar_child(m, t)) by {
        assert(m.contains_key(t.push("app.asar"@)) && m[t.push("app.asar"@)] is File
            && crate::chars::ext_of("app.asar"@) == Some("asar"@));
    }
    assert(orig != app);
}

/// The primary archive's name carries the archive extension.
proof fn lemma_app_asar_extension()
    ensures
        crate::chars::ext_of("app.asar"@) == Some("asar"@),
{
    reveal_strlit("app.asar");
    reveal_strlit("asar");
    assert("app.asar"@ =~= seq!['a', 'p', 'p', '.', 'a', 's', 'a', 'r']);
    assert(crate::chars::last_dot_index(seq!['a', 'p', 'p', '.']) == 3);
    assert(seq!['a', 'p', 'p', '.', 'a'].drop_last() =~= seq!['a', 'p', 'p', '.']);
    assert(crate::chars::last_dot_index(seq!['a', 'p', 'p', '.', 'a']) == 3);
    assert(seq!['a', 'p', 'p', '.', 'a', 's'].drop_last() =~= seq![
        'a', 'p', 'p', '.', 'a',
    ]);
    assert(crate::chars::last_dot_index(seq!['a', 'p', 'p', '.', 'a', 's']) == 3);
    assert(seq!['a', 'p', 'p', '.', 'a', 's', 'a'].drop_last() =~= seq![
        'a', 'p', 'p', '.', 'a', 's',
    ]);
    assert(crate::chars::last_dot_index(seq!['a', 'p', 'p', '.', 'a', 's', 'a']) == 3);
    assert(seq!['a', 'p', 'p', '.', 'a', 's', 'a', 'r'].drop_last() =~= seq![
        'a', 'p', 'p', '.', 'a', 's', 'a',
    ]);
    assert(crate::chars::last_dot_index(seq!['a', 'p', 'p', '.', 'a', 's', 'a', 'r']) == 3);
    assert(crate::chars::last_dot_index("app.asar"@) == 3);
    assert("app.asar"@.skip(4) =~= "asar"@);
}

/// Once a backup exists, the backup-and-vacate step never touches it:
/// running the install again leaves the backup byte-identical.
pub proof fn lemma_backup_never_overwritten(
    m: Map<Seq<Seq<char>>, NodeModel>,
    t: Seq<Seq<char>>,
)
    requires
        m.contains_key(t.push("original.asar"@)),
    ensures
        ({
            let o = spec_copy_install(m, Some(t));
            &&& o.fs.contains_key(t.push("original.asar"@))
            &&& o.fs[t.push("original.asar"@)] == m[t.push("original.asar"@)]
        }),
{
    lemma_asar_names_distinct();
}

/// The reinstall cleanup restores the primary archive but never touches
/// the backup itself.
pub proof fn lemma_cleanup_preserves_backup(
    m: Map<Seq<Seq<char>>, NodeModel>,
    t: Seq<Seq<char>>,
)
    requires
        m.contains_key(t.push("original.asar"@)),
    ensures
        ({
            let o = spec_cleanup(m, Some(t));
            &&& o.fs.contains_key(t.push("original.asar"@))
            &&& o.fs[t.push("original.asar"@)] == m[t.push("original.asar"@)]
        }),
{
    lemma_asar_names_distinct();
    let orig = t.push("original.asar"@);
    let luna = t.push("app"@);
    if m.contains_key(t) {
        assert(!is_path_prefix(luna, orig)) by {
            if is_path_prefix(luna, orig) {
                assert(orig.take(luna.len() as int) =~= orig);
                assert(orig.last() == luna.last());
            }
        }
    }
}

/// A path that is not a leading run of `p` never appears among the
/// prefixes a directory chain along `p` creates.
proof fn lemma_prefixes_miss(p: Seq<Seq<char>>, k: Seq<Seq<char>>)
    requires
        !is_path_prefix(k, p),
    ensures
        forall|j: int| 0 < j <= p.len() ==> p.take(j) != k,
{
    assert forall|j: int| 0 < j <= p.len() implies p.take(j) != k by {
        if p.take(j) == k {
            assert(k.len() == j);
            assert(p.take(k.len() as int) == k);
        }
    }
}

/// Two pushed paths agree only when their stems and final components
/// both agree.
proof fn lemma_push_injective(a: Seq<Seq<char>>, x: Seq<char>, b: Seq<Seq<char>>, y: Seq<char>)
    requires
        a.push(x) == b.push(y),
    ensures
        a == b,
        x == y,
{
    assert(a.push(x).drop_last() =~= a);
    assert(b.push(y).drop_last() =~= b);
    assert(a.push(x).last() == x);
    assert(b.push(y).last() == y);
}

/// When two directories are not nested in either direction, neither is a
/// leading run of a child of the other.
proof fn lemma_child_not_under(t: Seq<Seq<char>>, x: Seq<char>, d: Seq<Seq<char>>)
    requires
        !is_path_prefix(t, d),
        !is_path_prefix(d, t),
    ensures
        !is_path_prefix(d, t.push(x)),
        !is_path_prefix(t.push(x), d),
{
    if is_path_prefix(d, t.push(x)) {
        if d.len() <= t.len() {
            assert(t.push(x).take(d.len() as int) =~= t.take(d.len() as int));
            assert(is_path_prefix(d, t));
        } else {
            assert(d.len() == t.len() + 1);
            assert(t.push(x).take(d.len() as int) =~= t.push(x));
            assert(d == t.push(x));
            assert(d.take(t.len() as int) =~= t);
            assert(is_path_prefix(t, d));
        }
    }
    if is_path_prefix(t.push(x), d) {
        assert(d.take(t.len() as int + 1).take(t.len() as int) =~= d.take(t.len() as int));
        assert(t.push(x).take(t.len() as int) =~= t);
        assert(is_path_prefix(t, d));
    }
}

/// Extraction never removes a node: whatever the entries hold, every
/// node of the starting state survives.
proof fn lemma_extract_keeps_nodes(
    m: Map<Seq<Seq<char>>, NodeModel>,
    ex: Seq<Seq<char>>,
    entries: Seq<ZipEntryModel>,
    k: Seq<Seq<char>>,
)
    requires
        m.contains_key(k),
    ensures
        spec_extract_entries(m, ex, entries).fs.contains_key(k),
    decreases entries.len(),
{
    if entries.len() > 0 {
        let e = entries[0];
        if e.size > MAX_ZIP_ENTRY_SIZE {
        } else {
            match spec_safe_zip_join(ex, e.name) {
                None => {},
                Some(dest) => {
                    let m2 = if e.is_dir {
                        with_dirs_span(m, dest, ex.len() as int, dest.len() as int)
                    } else {
                        with_dirs_span(m, dest.drop_last(), ex.len() as int, dest.len() - 1).insert(
                            dest,
                            NodeModel::File { data: e.data },
                        )
                    };
                    lemma_span_keeps_nodes(m, dest, ex.len() as int, dest.len() as int, k);
                    lemma_span_keeps_nodes(
                        m,
                        dest.drop_last(),
                        ex.len() as int,
                        dest.len() - 1,
                        k,
                    );
                    lemma_extract_keeps_nodes(m2, ex, entries.drop_first(), k);
                },
            }
        }
    }
}

proof fn lemma_span_keeps_nodes(
    m: Map<Seq<Seq<char>>, NodeModel>,
    p: Seq<Seq<char>>,
    lo: int,
    hi: int,
    k: Seq<Seq<char>>,
)
    requires
        m.contains_key(k),
    ensures
        with_dirs_span(m, p, lo, hi).contains_key(k),
    decreases hi - lo,
{
    if hi > lo {
        lemma_span_keeps_nodes(m, p, lo, hi - 1, k);
    }
}

/// An archive whose entries are all small and safe extracts to the end.
proof fn lemma_extract_all_good_succeeds(
    m: Map<Seq<Seq<char>>, NodeModel>,
    ex: Seq<Seq<char>>,
    entries: Seq<ZipEntryModel>,
)
    requires
        forall|i: int|
            0 <= i < entries.len() ==> (#[trigger] entries[i].size) <= MAX_ZIP_ENTRY_SIZE
                && entry_name_safe(entries[i].name),
    ensures
        spec_extract_entries(m, ex, entries).success,
    decreases entries.len(),
{
    if entries.len() > 0 {
        let e = entries[0];
        assert(e.size <= MAX_ZIP_ENTRY_SIZE && entry_name_safe(e.name));
        match spec_safe_zip_join(ex, e.name) {
            None => {
                assert(false);
            },
            Some(dest) => {
                let m2 = if e.is_dir {
                    with_dirs_span(m, dest, ex.len() as int, dest.len() as int)
                } else {
                    with_dirs_span(m, dest.drop_last(), ex.len() as int, dest.len() - 1).insert(
                        dest,
                        NodeModel::File { data: e.data },
                    )
                };
                assert forall|i: int| 0 <= i < entries.drop_first().len() implies (
                #[trigger] entries.drop_first()[i].size) <= MAX_ZIP_ENTRY_SIZE
                    && entry_name_safe(entries.drop_first()[i].name) by {
                    assert(entries.drop_first()[i] == entries[i + 1]);
                }
                lemma_extract_all_good_succeeds(m2, ex, entries.drop_first());
            },
        }
    }
}

/// The names the scratch directory juggles are pairwise distinct.
proof fn lemma_scratch_names_distinct()
    ensures
        "Luna.zip"@ != "Luna.zip.part"@,
        "Luna.zip"@ != "LunaExtracted"@,
        "Luna.zip.part"@ != "LunaExtracted"@,
{
    reveal_strlit("Luna.zip");
    reveal_strlit("Luna.zip.part");
    reveal_strlit("LunaExtracted");
    assert("Luna.zip"@.len() == 8);
    assert("Luna.zip.part"@.len() == 13);
    assert("LunaExtracted"@.len() == 13);
    assert("Luna.zip.part"@[0] == 'L' && "Luna.zip.part"@[1] == 'u');
    assert("LunaExtracted"@[1] == 'u' && "LunaExtracted"@[4] == 'E');
    assert("Luna.zip.part"@[4] == '.');
}

/// The three names the asar steps juggle are pairwise distinct.
proof fn lemma_asar_names_distinct()
    ensures
        "original.asar"@ != "app.asar"@,
        "original.asar"@ != "app"@,
        "app.asar"@ != "app"@,
        forall|t: Seq<Seq<char>>| t.push("original.asar"@) != #[trigger] t.push("app.asar"@),
        forall|t: Seq<Seq<char>>| t.push("original.asar"@) != #[trigger] t.push("app"@),
        forall|t: Seq<Seq<char>>| t.push("app.asar"@) != #[trigger] t.push("app"@),
{
    reveal_strlit("original.asar");
    reveal_strlit("app.asar");
    reveal_strlit("app");
    assert("original.asar"@.len() == 13);
    assert("app.asar"@.len() == 8);
    assert("app"@.len() == 3);
    assert forall|t: Seq<Seq<char>>| t.push("original.asar"@) != #[trigger] t.push(
        "app.asar"@,
    ) by {
        if t.push("original.asar"@) == t.push("app.asar"@) {
            assert(t.push("original.asar"@).last() == t.push("app.asar"@).last());
        }
    }
    assert forall|t: Seq<Seq<char>>| t.push("original.asar"@) != #[trigger] t.push("app"@) by {
        if t.push("original.asar"@) == t.push("app"@) {
            assert(t.push("original.asar"@).last() == t.push("app"@).last());
        }
    }
    assert forall|t: Seq<Seq<char>>| t.push("app.asar"@) != #[trigger] t.push("app"@) by {
        if t.push("app.asar"@) == t.push("app"@) {
            assert(t.push("app.asar"@).last() == t.push("app"@).last());
        }
    }
}

/// The network's answer is a fully usable archive: a success status, a
/// non-empty validated payload, and entries that are all within the size
/// cap and safely named.
pub open spec fn good_fetch(f: FetchModel) -> bool {
    match f {
        FetchModel::Response { status, body } => {
            &&& 200 <= status < 300
            &&& body.len() > 0
            &&& zip_bytes_valid(body)
            &&& zip_entries_of(body) matches Some(es) && forall|i: int|
                0 <= i < es.len() ==> (#[trigger] es[i].size) <= MAX_ZIP_ENTRY_SIZE
                    && entry_name_safe(es[i].name)
        },
        FetchModel::NetworkError { .. } => false,
    }
}

/// The payload of a usable answer.
pub open spec fn fetch_body(f: FetchModel) -> Seq<u8> {
    f->body
}

/// The shared trailing steps of every installation: check the target,
/// fetch, extract, back up and vacate, inject, sign, relaunch.
pub open spec fn core_install_steps(t: Seq<Seq<char>>, url: Seq<char>) -> Seq<StepModel> {
    seq![
        StepModel::Setup { target: Some(t) },
        StepModel::Download { url },
        StepModel::Extract,
        StepModel::CopyAsarInstall { target: Some(t) },
        StepModel::Insert { target: Some(t) },
        StepModel::Sign,
        StepModel::Launch { target: Some(t) },
    ]
}

/// The target directory and the scratch directory do not contain one
/// another.
pub open spec fn scratch_disjoint(temp_root: Seq<Seq<char>>, t: Seq<Seq<char>>) -> bool {
    &&& !is_path_prefix(t, spec_temp_dir(temp_root))
    &&& !is_path_prefix(spec_temp_dir(temp_root), t)
}

proof fn lemma_mkdir_preserves(
    m: Map<Seq<Seq<char>>, NodeModel>,
    p: Seq<Seq<char>>,
    k: Seq<Seq<char>>,
)
    requires
        !is_path_prefix(k, p),
    ensures
        with_dir_all(m, p).contains_key(k) == m.contains_key(k),
        m.contains_key(k) ==> with_dir_all(m, p)[k] == m[k],
{
    lemma_prefixes_miss(p, k);
    lemma_span_preserves(m, p, 0, p.len() as int, k);
}

proof fn lemma_mkdir_sets(m: Map<Seq<Seq<char>>, NodeModel>, p: Seq<Seq<char>>)
    requires
        p.len() > 0,
    ensures
        with_dir_all(m, p).contains_key(p),
        with_dir_all(m, p)[p] is Dir,
{
    assert(p.take(p.len() as int) =~= p);
}

/// Neither the scratch directory nor any of its children is nested with
/// the target or any of the target's children.
proof fn lemma_scratch_child_facts(
    temp: Seq<Seq<char>>,
    t: Seq<Seq<char>>,
    x: Seq<char>,
    y: Seq<char>,
)
    requires
        !is_path_prefix(t, temp),
        !is_path_prefix(temp, t),
    ensures
        !is_path_prefix(temp, t.push(x)),
        !is_path_prefix(t.push(x), temp),
        !is_path_prefix(t, temp.push(y)),
        !is_path_prefix(temp.push(y), t),
        !is_path_prefix(temp.push(y), t.push(x)),
        !is_path_prefix(t.push(x), temp.push(y)),
        t != temp.push(y),
        t.push(x) != temp.push(y),
        t != temp,
{
    lemma_child_not_under(t, x, temp);
    lemma_child_not_under(temp, y, t);
    lemma_child_not_under(t, x, temp.push(y));
    if t == temp.push(y) {
        assert(t.take(temp.len() as int) =~= temp);
        assert(is_path_prefix(temp, t));
    }
    if t.push(x) == temp.push(y) {
        lemma_push_injective(t, x, temp, y);
        assert(t.take(t.len() as int) =~= t);
        assert(is_path_prefix(t, temp));
    }
    if t == temp {
        assert(t.take(t.len() as int) =~= t);
        assert(is_path_prefix(t, temp));
    }
}

/// Running the shared install tail from a target that holds the primary
/// archive succeeds end to end and leaves the backup holding the prior
/// backup's bytes where one existed, else the primary archive's bytes;
/// the target keeps its directory and gains the injected tree.
pub proof fn lemma_core_install_effects(
    w: WorldModel,
    t: Seq<Seq<char>>,
    url: Seq<char>,
    b: Seq<u8>,
    prior: Option<Seq<u8>>,
)
    requires
        !(w.platform is Other),
        w.platform is MacOs ==> w.sign_ok,
        scratch_disjoint(w.temp_root, t),
        t.len() > 0,
        w.fs.contains_key(t),
        w.fs[t] is Dir,
        w.fs.contains_key(t.push("app.asar"@)),
        w.fs[t.push("app.asar"@)] == (NodeModel::File { data: b }),
        match prior {
            None => !w.fs.contains_key(t.push("original.asar"@)),
            Some(c) => w.fs.contains_key(t.push("original.asar"@)) && w.fs[t.push(
                "original.asar"@,
            )] == (NodeModel::File { data: c }),
        },
        good_fetch(w.fetch),
    ensures
        ({
            let r = spec_run_steps(w, core_install_steps(t, url));
            let kept = match prior {
                None => b,
                Some(c) => c,
            };
            &&& r.success
            &&& r.w == (WorldModel { fs: r.w.fs, ..w })
            &&& r.w.fs.contains_key(t.push("original.asar"@))
            &&& r.w.fs[t.push("original.asar"@)] == (NodeModel::File { data: kept })
            &&& r.w.fs.contains_key(t)
            &&& r.w.fs[t] is Dir
            &&& r.w.fs.contains_key(t.push("app"@))
            &&& !r.w.fs.contains_key(t.push("app.asar"@))
            &&& forall|k: Seq<Seq<char>>|
                is_path_prefix(spec_temp_dir(w.temp_root), k) ==> !r.w.fs.contains_key(k)
        }),
{
    let s = core_install_steps(t, url);
    let temp = spec_temp_dir(w.temp_root);
    let orig = t.push("original.asar"@);
    let app = t.push("app.asar"@);
    let luna = t.push("app"@);
    let body = fetch_body(w.fetch);
    let part = temp.push("Luna.zip.part"@);
    let zipp = temp.push("Luna.zip"@);
    let ex = temp.push("LunaExtracted"@);
    let entries = zip_entries_of(body)->0;

    lemma_asar_names_distinct();
    lemma_scratch_names_distinct();
    lemma_app_asar_extension();
    assert forall|x: Seq<char>, y: Seq<char>|
        {
            &&& !is_path_prefix(temp, #[trigger] t.push(x))
            &&& !is_path_prefix(t.push(x), temp)
            &&& !is_path_prefix(t, #[trigger] temp.push(y))
            &&& !is_path_prefix(temp.push(y), t)
            &&& !is_path_prefix(temp.push(y), t.push(x))
            &&& !is_path_prefix(t.push(x), temp.push(y))
            &&& t != temp.push(y)
            &&& t.push(x) != temp.push(y)
        } by {
        lemma_scratch_child_facts(temp, t, x, y);
    }
    assert(temp.len() > 0);

    assert(s =~= seq![
        StepModel::Setup { target: Some(t) },
        StepModel::Download { url },
        StepModel::Extract,
        StepModel::CopyAsarInstall { target: Some(t) },
        StepModel::Insert { target: Some(t) },
        StepModel::Sign,
        StepModel::Launch { target: Some(t) },
    ]);
    assert(s.skip(0) =~= s);
    let r = spec_run_steps(w, s);

    // Setup: the scratch directory appears; the target still passes the
    // primary-archive check.
    let o1 = spec_step(w, s[0]);
    assert(o1 == spec_setup(w.fs, w.temp_root, Some(t)));
    let fs1 = with_dir_all(w.fs, temp);
    lemma_mkdir_preserves(w.fs, temp, t);
    lemma_mkdir_preserves(w.fs, temp, app);
    lemma_mkdir_preserves(w.fs, temp, orig);
    assert(crate::resolver::spec_has_app_asar(fs1, t));
    assert(o1.success && o1.fs == fs1);
    let w1 = WorldModel { fs: fs1, ..w };
    assert(s.skip(0)[0] == s[0]);
    assert(s.skip(0).drop_first() =~= s.skip(1));
    assert(r.w == spec_run_steps(w1, s.skip(1)).w);
    assert(r.success == spec_run_steps(w1, s.skip(1)).success);

    // Download: the payload lands under the final archive name; nothing
    // under the target moves.
    assert(s.skip(1)[0] == s[1]);
    assert(s.skip(1).drop_first() =~= s.skip(2));
    let o2 = spec_step(w1, s[1]);
    assert(o2 == spec_download(fs1, w.temp_root, url, w.fetch));
    let fs2a = with_dir_all(fs1, temp);
    let fs2b = if fs2a.contains_key(part) && fs2a[part] is File {
        fs2a.remove(part)
    } else {
        fs2a
    };
    let fs2c = fs2b.insert(part, NodeModel::File { data: body });
    let fs2 = fs2c.remove(part).insert(zipp, fs2c[part]);
    assert(o2.success && o2.fs == fs2);
    lemma_mkdir_preserves(fs1, temp, t);
    lemma_mkdir_preserves(fs1, temp, app);
    lemma_mkdir_preserves(fs1, temp, orig);
    assert(fs2.contains_key(t) && fs2[t] is Dir);
    assert(fs2.contains_key(app) && fs2[app] == (NodeModel::File { data: b }));
    assert(match prior {
        None => !fs2.contains_key(orig),
        Some(c) => fs2.contains_key(orig) && fs2[orig] == (NodeModel::File { data: c }),
    });
    assert(fs2.contains_key(zipp) && fs2[zipp] == (NodeModel::File { data: body }));
    let w2 = WorldModel { fs: fs2, ..w1 };
    assert(r.w == spec_run_steps(w2, s.skip(2)).w);
    assert(r.success == spec_run_steps(w2, s.skip(2)).success);

    // Extract: the archive re-validates and its entries expand below the
    // extraction root; the target is untouched.
    assert(s.skip(2)[0] == s[2]);
    assert(s.skip(2).drop_first() =~= s.skip(3));
    let o3 = spec_step(w2, s[2]);
    assert(o3 == spec_extract(fs2, w.temp_root));
    assert(zipp != ex) by {
        if zipp == ex {
            lemma_push_injective(temp, "Luna.zip"@, temp, "LunaExtracted"@);
        }
    }
    assert(!is_path_prefix(ex, zipp)) by {
        if is_path_prefix(ex, zipp) {
            assert(zipp.take(ex.len() as int) =~= zipp);
        }
    }
    assert(!is_path_prefix(zipp, ex)) by {
        if is_path_prefix(zipp, ex) {
            assert(ex.take(zipp.len() as int) =~= ex);
        }
    }
    let purged = without_subtree(fs2, ex);
    let fs3a = with_dir_all(purged, ex);
    assert(purged.contains_key(zipp) && purged[zipp] == fs2[zipp]);
    lemma_prefixes_miss(ex, zipp);
    lemma_span_preserves(purged, ex, 0, ex.len() as int, zipp);
    assert(fs3a.contains_key(zipp) && fs3a[zipp] == (NodeModel::File { data: body }));
    assert(body.len() >= 22) by {
        assert(zip_eocd_ok(body));
    }
    assert(o3 == spec_extract_entries(fs3a, ex, entries));
    lemma_extract_all_good_succeeds(fs3a, ex, entries);
    assert(o3.success);
    let fs3 = o3.fs;
    assert(purged.contains_key(t) && purged[t] == fs2[t]);
    assert(purged.contains_key(app) && purged[app] == fs2[app]);
    assert(match prior {
        None => !purged.contains_key(orig),
        Some(c) => purged.contains_key(orig) && purged[orig] == fs2[orig],
    });
    lemma_mkdir_preserves(purged, ex, t);
    lemma_mkdir_preserves(purged, ex, app);
    lemma_mkdir_preserves(purged, ex, orig);
    lemma_extract_writes_within_root(fs3a, ex, entries, t);
    lemma_extract_writes_within_root(fs3a, ex, entries, app);
    lemma_extract_writes_within_root(fs3a, ex, entries, orig);
    assert(fs3.contains_key(t) && fs3[t] is Dir);
    assert(fs3.contains_key(app) && fs3[app] == (NodeModel::File { data: b }));
    assert(match prior {
        None => !fs3.contains_key(orig),
        Some(c) => fs3.contains_key(orig) && fs3[orig] == (NodeModel::File { data: c }),
    });
    lemma_mkdir_sets(purged, ex);
    lemma_extract_keeps_nodes(fs3a, ex, entries, ex);
    assert(fs3.contains_key(ex));
    let w3 = WorldModel { fs: fs3, ..w2 };
    assert(r.w == spec_run_steps(w3, s.skip(3)).w);
    assert(r.success == spec_run_steps(w3, s.skip(3)).success);

    // Back up and vacate: a missing backup is created from the primary
    // archive; an existing one is left alone.
    assert(s.skip(3)[0] == s[3]);
    assert(s.skip(3).drop_first() =~= s.skip(4));
    let o4 = spec_step(w3, s[3]);
    assert(o4 == spec_copy_install(fs3, Some(t)));
    assert(crate::steps::spec_has_asar_child(fs3, t)) by {
        assert(fs3.contains_key(t.push("app.asar"@)) && fs3[t.push("app.asar"@)] is File
            && crate::chars::ext_of("app.asar"@) == Some("asar"@));
    }
    let fs4 = match prior {
        None => fs3.insert(orig, fs3[app]).remove(app),
        Some(c) => fs3.remove(app),
    };
    assert(o4.success && o4.fs == fs4) by {
        if prior is None {
            assert(fs3.insert(orig, fs3[app]).contains_key(app));
            assert(fs3.insert(orig, fs3[app])[app] is File);
        }
    }
    assert(fs4.contains_key(orig) && fs4[orig] == (NodeModel::File {
        data: match prior {
            None => b,
            Some(c) => c,
        },
    }));
    assert(fs4.contains_key(t) && fs4[t] is Dir);
    assert(fs4.contains_key(ex));
    assert(!fs4.contains_key(app));
    let w4 = WorldModel { fs: fs4, ..w3 };
    assert(r.w == spec_run_steps(w4, s.skip(4)).w);
    assert(r.success == spec_run_steps(w4, s.skip(4)).success);

    // Inject: the extracted tree lands below the target's injected-tree
    // name and the scratch space goes away; the backup stays put.
    assert(s.skip(4)[0] == s[4]);
    assert(s.skip(4).drop_first() =~= s.skip(5));
    let o5 = spec_step(w4, s[4]);
    assert(o5 == spec_insert(fs4, w.temp_root, Some(t)));
    let fs5a = with_dir_all(fs4, luna);
    let fs5b = subtree_copied(fs5a, ex, luna);
    let fs5 = without_subtree(fs5b, temp);
    assert(o5.success && o5.fs == fs5);
    assert(orig != luna);
    assert(!is_path_prefix(orig, luna)) by {
        if is_path_prefix(orig, luna) {
            assert(luna.take(orig.len() as int) =~= luna);
        }
    }
    lemma_mkdir_preserves(fs4, luna, orig);
    assert(fs5a.contains_key(orig) && fs5a[orig] == fs4[orig]);
    lemma_mkdir_sets(fs4, luna);
    assert(luna.take(t.len() as int) =~= t);
    lemma_mkdir_sets_prefix(fs4, luna, t.len() as int);
    assert(fs5a.contains_key(t) && fs5a[t] is Dir);
    assert(!is_path_prefix(luna, orig)) by {
        if is_path_prefix(luna, orig) {
            assert(orig.take(luna.len() as int) =~= orig);
        }
    }
    assert(!is_path_prefix(luna, t)) by {
        if is_path_prefix(luna, t) {
        }
    }
    assert(fs5b.contains_key(orig) && fs5b[orig] == fs5a[orig]);
    assert(fs5b.contains_key(t) && fs5b[t] == fs5a[t]);
    assert(fs5b.contains_key(luna));
    assert(fs5.contains_key(orig) && fs5[orig] == fs5b[orig]);
    assert(fs5.contains_key(t) && fs5[t] == fs5b[t]);
    assert(fs5.contains_key(luna) && fs5[luna] == fs5b[luna]);
    assert(!is_path_prefix(app, luna)) by {
        if is_path_prefix(app, luna) {
            assert(luna.take(app.len() as int) =~= luna);
        }
    }
    lemma_mkdir_preserves(fs4, luna, app);
    assert(!fs5a.contains_key(app));
    assert(!is_path_prefix(luna, app)) by {
        if is_path_prefix(luna, app) {
            assert(app.take(luna.len() as int) =~= app);
        }
    }
    assert(!fs5b.contains_key(app));
    assert(!fs5.contains_key(app));
    assert(forall|k: Seq<Seq<char>>| is_path_prefix(temp, k) ==> !fs5.contains_key(k));
    let w5 = WorldModel { fs: fs5, ..w4 };
    assert(r.w == spec_run_steps(w5, s.skip(5)).w);
    assert(r.success == spec_run_steps(w5, s.skip(5)).success);

    // Sign and relaunch change no files and succeed here.
    assert(s.skip(5)[0] == s[5]);
    assert(s.skip(5).drop_first() =~= s.skip(6));
    let o6 = spec_step(w5, s[5]);
    assert(o6.success && o6.fs == fs5);
    let w6 = WorldModel { fs: fs5, ..w5 };
    assert(r.w == spec_run_steps(w6, s.skip(6)).w);
    assert(r.success == spec_run_steps(w6, s.skip(6)).success);

    assert(s.skip(6)[0] == s[6]);
    assert(s.skip(6).drop_first() =~= s.skip(7));
    let o7 = spec_step(w6, s[6]);
    assert(o7.success && o7.fs == fs5);
    let w7 = WorldModel { fs: fs5, ..w6 };
    assert(r.w == spec_run_steps(w7, s.skip(7)).w);
    assert(r.success == spec_run_steps(w7, s.skip(7)).success);
    assert(s.skip(7) =~= Seq::<StepModel>::empty());
    assert(r.w == w7 && r.success);
}

proof fn lemma_mkdir_sets_prefix(m: Map<Seq<Seq<char>>, NodeModel>, p: Seq<Seq<char>>, j: int)
    requires
        0 < j <= p.len(),
    ensures
        with_dir_all(m, p).contains_key(p.take(j)),
        with_dir_all(m, p)[p.take(j)] is Dir,
{
    lemma_span_sets_prefix(m, p, 0, p.len() as int, j);
}

proof fn lemma_span_sets_prefix(
    m: Map<Seq<Seq<char>>, NodeModel>,
    p: Seq<Seq<char>>,
    lo: int,
    hi: int,
    j: int,
)
    requires
        0 <= lo < j <= hi <= p.len(),
    ensures
        with_dirs_span(m, p, lo, hi).contains_key(p.take(j)),
        with_dirs_span(m, p, lo, hi)[p.take(j)] is Dir,
    decreases hi - lo,
{
    if j == hi {
    } else {
        lemma_span_sets_prefix(m, p, lo, hi - 1, j);
        assert(p.take(hi) != p.take(j)) by {
            assert(p.take(hi).len() == hi);
            assert(p.take(j).len() == j);
        }
    }
}

/// A full installation on a pristine target succeeds and creates the
/// backup out of the primary archive's bytes.
pub proof fn lemma_install_pipeline_effects(
    w: WorldModel,
    t: Seq<Seq<char>>,
    url: Seq<char>,
    b: Seq<u8>,
)
    requires
        !(w.platform is Other),
        w.platform is MacOs ==> w.sign_ok,
        scratch_disjoint(w.temp_root, t),
        t.len() > 0,
        w.fs.contains_key(t),
        w.fs[t] is Dir,
        w.fs.contains_key(t.push("app.asar"@)),
        w.fs[t.push("app.asar"@)] == (NodeModel::File { data: b }),
        !w.fs.contains_key(t.push("original.asar"@)),
        good_fetch(w.fetch),
    ensures
        ({
            let r = spec_run_steps(w, spec_install_steps(t, url, false));
            &&& r.success
            &&& r.w == (WorldModel { fs: r.w.fs, ..w })
            &&& r.w.fs.contains_key(t.push("original.asar"@))
            &&& r.w.fs[t.push("original.asar"@)] == (NodeModel::File { data: b })
            &&& r.w.fs.contains_key(t)
            &&& r.w.fs[t] is Dir
            &&& r.w.fs.contains_key(t.push("app"@))
            &&& !r.w.fs.contains_key(t.push("app.asar"@))
            &&& forall|k: Seq<Seq<char>>|
                is_path_prefix(spec_temp_dir(w.temp_root), k) ==> !r.w.fs.contains_key(k)
        }),
{
    let s = spec_install_steps(t, url, false);
    assert(s.skip(1) =~= core_install_steps(t, url));
    assert(s.skip(0) =~= s);
    assert(s[0] == StepModel::Kill);
    let r = spec_run_steps(w, s);
    let o = spec_step(w, s[0]);
    assert(o.success && o.fs == w.fs);
    let w1 = WorldModel { fs: w.fs, ..w };
    assert(w1 == w);
    assert(s.skip(0)[0] == s[0]);
    assert(s.skip(0).drop_first() =~= s.skip(1));
    assert(r.w == spec_run_steps(w, core_install_steps(t, url)).w);
    assert(r.success == spec_run_steps(w, core_install_steps(t, url)).success);
    lemma_core_install_effects(w, t, url, b, None);
}

/// Idempotence of backup creation: installing onto a pristine target and
/// then installing again through the reinstall flow leaves exactly one
/// backup, byte-identical to the primary archive that stood there before
/// the first installation.
pub proof fn lemma_install_twice_single_backup(
    w: WorldModel,
    t: Seq<Seq<char>>,
    url: Seq<char>,
    b: Seq<u8>,
)
    requires
        !(w.platform is Other),
        w.platform is MacOs ==> w.sign_ok,
        scratch_disjoint(w.temp_root, t),
        t.len() > 0,
        w.fs.contains_key(t),
        w.fs[t] is Dir,
        w.fs.contains_key(t.push("app.asar"@)),
        w.fs[t.push("app.asar"@)] == (NodeModel::File { data: b }),
        !w.fs.contains_key(t.push("original.asar"@)),
        good_fetch(w.fetch),
    ensures
        ({
            let r1 = spec_run_steps(w, spec_install_steps(t, url, false));
            let r2 = spec_run_steps(r1.w, spec_install_steps(t, url, true));
            &&& r1.success
            &&& r2.success
            &&& r2.w.fs.contains_key(t.push("original.asar"@))
            &&& r2.w.fs[t.push("original.asar"@)] == (NodeModel::File { data: b })
        }),
{
    let orig = t.push("original.asar"@);
    let app = t.push("app.asar"@);
    let luna = t.push("app"@);
    lemma_asar_names_distinct();
    lemma_install_pipeline_effects(w, t, url, b);
    let r1 = spec_run_steps(w, spec_install_steps(t, url, false));
    let f1 = r1.w.fs;
    let w1 = r1.w;

    let s2 = spec_install_steps(t, url, true);
    assert(s2.skip(2) =~= core_install_steps(t, url));
    assert(s2.skip(0) =~= s2);
    assert(s2[0] == StepModel::Kill);
    assert(s2[1] == (StepModel::ReinstallCleanup { target: Some(t) }));
    let r2 = spec_run_steps(w1, s2);

    // Kill leaves the world as it stands.
    let ok = spec_step(w1, s2[0]);
    assert(ok.success && ok.fs == f1);
    let w1a = WorldModel { fs: f1, ..w1 };
    assert(w1a == w1);
    assert(s2.skip(0)[0] == s2[0]);
    assert(s2.skip(0).drop_first() =~= s2.skip(1));
    assert(r2.w == spec_run_steps(w1, s2.skip(1)).w);
    assert(r2.success == spec_run_steps(w1, s2.skip(1)).success);

    // Cleanup restores the primary archive from the backup and removes
    // the injected tree; the backup itself stays put.
    assert(s2.skip(1)[0] == s2[1]);
    assert(s2.skip(1).drop_first() =~= s2.skip(2));
    let oc = spec_step(w1, s2[1]);
    assert(oc == spec_cleanup(f1, Some(t)));
    let fc1 = if f1.contains_key(orig) && f1.contains_key(app) && f1[app] is File {
        f1.remove(app)
    } else {
        f1
    };
    let fc2 = if f1.contains_key(orig) && !(fc1.contains_key(app) && fc1[app] is Dir)
        && fc1.contains_key(orig) && fc1[orig] is File {
        fc1.insert(app, fc1[orig])
    } else {
        fc1
    };
    assert(!fc1.contains_key(app));
    let fc3 = if fc2.contains_key(luna) {
        without_subtree(fc2, luna)
    } else {
        fc2
    };
    assert(oc.success && oc.fs == fc3);
    assert(fc1.contains_key(orig) && fc1[orig] == (NodeModel::File { data: b }));
    assert(fc2.contains_key(app) && fc2[app] == (NodeModel::File { data: b }));
    assert(fc2.contains_key(orig) && fc2[orig] == (NodeModel::File { data: b }));
    assert(fc2.contains_key(t) && fc2[t] is Dir);
    assert(!is_path_prefix(luna, orig)) by {
        if is_path_prefix(luna, orig) {
            assert(orig.take(luna.len() as int) =~= orig);
        }
    }
    assert(!is_path_prefix(luna, app)) by {
        if is_path_prefix(luna, app) {
            assert(app.take(luna.len() as int) =~= app);
        }
    }
    assert(!is_path_prefix(luna, t)) by {
        if is_path_prefix(luna, t) {
        }
    }
    assert(fc3.contains_key(orig) && fc3[orig] == (NodeModel::File { data: b }));
    assert(fc3.contains_key(app) && fc3[app] == (NodeModel::File { data: b }));
    assert(fc3.contains_key(t) && fc3[t] is Dir);
    let wc = WorldModel { fs: fc3, ..w1 };
    assert(r2.w == spec_run_steps(wc, s2.skip(2)).w);
    assert(r2.success == spec_run_steps(wc, s2.skip(2)).success);

    // The shared install tail now runs with the backup already present
    // and leaves it untouched.
    assert(wc == (WorldModel { fs: fc3, ..w }));
    lemma_core_install_effects(wc, t, url, b, Some(b));
}

/// A full uninstallation on a target that still holds its backup
/// succeeds, restores the primary archive byte-identically from the
/// backup, and removes the whole injected tree.
pub proof fn lemma_uninstall_pipeline_effects(
    w: WorldModel,
    t: Seq<Seq<char>>,
    c: Seq<u8>,
)
    requires
        !(w.platform is Other),
        w.platform is MacOs ==> w.sign_ok,
        t.len() > 0,
        w.fs.contains_key(t),
        w.fs.contains_key(t.push("original.asar"@)),
        w.fs[t.push("original.asar"@)] == (NodeModel::File { data: c }),
        w.fs.contains_key(t.push("app.asar"@)) ==> w.fs[t.push("app.asar"@)] is File,
        w.fs.contains_key(t.push("app"@)),
    ensures
        ({
            let r = spec_run_steps(w, spec_uninstall_steps(t));
            &&& r.success
            &&& r.w == (WorldModel { fs: r.w.fs, ..w })
            &&& r.w.fs.contains_key(t.push("app.asar"@))
            &&& r.w.fs[t.push("app.asar"@)] == (NodeModel::File { data: c })
            &&& r.w.fs.contains_key(t.push("original.asar"@))
            &&& r.w.fs[t.push("original.asar"@)] == (NodeModel::File { data: c })
            &&& forall|k: Seq<Seq<char>>|
                is_path_prefix(t.push("app"@), k) ==> !r.w.fs.contains_key(k)
        }),
{
    let s = spec_uninstall_steps(t);
    let orig = t.push("original.asar"@);
    let app = t.push("app.asar"@);
    let luna = t.push("app"@);
    lemma_asar_names_distinct();
    assert(s =~= seq![
        StepModel::Kill,
        StepModel::CopyAsarUninstall { target: Some(t) },
        StepModel::Uninstall { target: Some(t) },
        StepModel::Sign,
        StepModel::Launch { target: Some(t) },
    ]);
    assert(s.skip(0) =~= s);
    let r = spec_run_steps(w, s);

    // Kill leaves the world as it stands.
    let o1 = spec_step(w, s[0]);
    assert(o1.success && o1.fs == w.fs);
    let w1 = WorldModel { fs: w.fs, ..w };
    assert(w1 == w);
    assert(s.skip(0)[0] == s[0]);
    assert(s.skip(0).drop_first() =~= s.skip(1));
    assert(r.w == spec_run_steps(w, s.skip(1)).w);
    assert(r.success == spec_run_steps(w, s.skip(1)).success);

    // Restore: the backup comes back over the primary name.
    assert(s.skip(1)[0] == s[1]);
    assert(s.skip(1).drop_first() =~= s.skip(2));
    let o2 = spec_step(w, s[1]);
    assert(o2 == spec_copy_uninstall(w.fs, Some(t)));
    let fr1 = if w.fs.contains_key(app) && w.fs[app] is File {
        w.fs.remove(app)
    } else {
        w.fs
    };
    assert(fr1.contains_key(orig) && fr1[orig] == (NodeModel::File { data: c }));
    let fr2 = fr1.insert(app, fr1[orig]);
    assert(o2.success && o2.fs == fr2);
    assert(fr2.contains_key(app) && fr2[app] == (NodeModel::File { data: c }));
    assert(fr2.contains_key(orig) && fr2[orig] == (NodeModel::File { data: c }));
    assert(fr2.contains_key(t));
    let w2 = WorldModel { fs: fr2, ..w };
    assert(r.w == spec_run_steps(w2, s.skip(2)).w);
    assert(r.success == spec_run_steps(w2, s.skip(2)).success);

    // Removal: the injected tree goes away entirely.
    assert(s.skip(2)[0] == s[2]);
    assert(s.skip(2).drop_first() =~= s.skip(3));
    let o3 = spec_step(w2, s[2]);
    assert(o3 == spec_uninstall(fr2, Some(t)));
    let fu = if fr2.contains_key(luna) {
        without_subtree(fr2, luna)
    } else {
        fr2
    };
    assert(o3.success && o3.fs == fu);
    assert(!is_path_prefix(luna, app)) by {
        if is_path_prefix(luna, app) {
            assert(app.take(luna.len() as int) =~= app);
        }
    }
    assert(!is_path_prefix(luna, orig)) by {
        if is_path_prefix(luna, orig) {
            assert(orig.take(luna.len() as int) =~= orig);
        }
    }
    assert(fu.contains_key(app) && fu[app] == (NodeModel::File { data: c }));
    assert(fu.contains_key(orig) && fu[orig] == (NodeModel::File { data: c }));
    assert(fr2.contains_key(luna)) by {
        assert(luna != app);
    }
    assert(forall|k: Seq<Seq<char>>| is_path_prefix(luna, k) ==> !fu.contains_key(k));
    let w3 = WorldModel { fs: fu, ..w2 };
    assert(r.w == spec_run_steps(w3, s.skip(3)).w);
    assert(r.success == spec_run_steps(w3, s.skip(3)).success);

    // Sign and relaunch change no files and succeed here.
    assert(s.skip(3)[0] == s[3]);
    assert(s.skip(3).drop_first() =~= s.skip(4));
    let o4 = spec_step(w3, s[3]);
    assert(o4.success && o4.fs == fu);
    let w4 = WorldModel { fs: fu, ..w3 };
    assert(r.w == spec_run_steps(w4, s.skip(4)).w);
    assert(r.success == spec_run_steps(w4, s.skip(4)).success);
    assert(s.skip(4)[0] == s[4]);
    assert(s.skip(4).drop_first() =~= s.skip(5));
    let o5 = spec_step(w4, s[4]);
    assert(o5.success && o5.fs == fu);
    let w5 = WorldModel { fs: fu, ..w4 };
    assert(r.w == spec_run_steps(w5, s.skip(5)).w);
    assert(r.success == spec_run_steps(w5, s.skip(5)).success);
    assert(s.skip(5) =~= Seq::<StepModel>::empty());
    assert(r.w == w5 && r.success);
}

/// The version-selection rule on its concrete example: among sibling
/// installs at versions 1.2.0, 1.9.9 and 1.10.0, the 1.10.0 sibling is
/// the selected one, by numeric precedence rather than lexicographic
/// order.  The three parse results enter as hypotheses because parsing
/// itself stands behind the named result `parsed_version`.
pub proof fn lemma_highest_version_example(
    m: Map<Seq<Seq<char>>, NodeModel>,
    base: Seq<Seq<char>>,
    p: Seq<Seq<char>>,
)
    requires
        crate::version::parsed_version("1.2.0"@) == Some(
            crate::version::SemVerModel { major: 1, minor: 2, patch: 0, pre: Seq::empty() },
        ),
        crate::version::parsed_version("1.9.9"@) == Some(
            crate::version::SemVerModel { major: 1, minor: 9, patch: 9, pre: Seq::empty() },
        ),
        crate::version::parsed_version("1.10.0"@) == Some(
            crate::version::SemVerModel { major: 1, minor: 10, patch: 0, pre: Seq::empty() },
        ),
        forall|n: Seq<char>|
            #[trigger] crate::resolver::app_version_candidate(m, base, n) ==> (n
                == "app-1.2.0"@ || n == "app-1.9.9"@ || n == "app-1.10.0"@),
        crate::resolver::app_version_candidate(m, base, "app-1.10.0"@),
        crate::resolver::spec_resolve_resources_dir(m, base.push("app-1.10.0"@)) == Some(p),
    ensures
        crate::resolver::is_max_version_resources(m, base, p),
{
    reveal_strlit("app-1.2.0");
    reveal_strlit("app-1.9.9");
    reveal_strlit("app-1.10.0");
    reveal_strlit("1.2.0");
    reveal_strlit("1.9.9");
    reveal_strlit("1.10.0");
    assert("app-1.2.0"@.take(4) =~= seq!['a', 'p', 'p', '-']);
    assert("app-1.9.9"@.take(4) =~= seq!['a', 'p', 'p', '-']);
    assert("app-1.10.0"@.take(4) =~= seq!['a', 'p', 'p', '-']);
    assert("app-1.2.0"@.skip(4) =~= "1.2.0"@);
    assert("app-1.9.9"@.skip(4) =~= "1.9.9"@);
    assert("app-1.10.0"@.skip(4) =~= "1.10.0"@);
    let picked = crate::version::app_dir_version("app-1.10.0"@)->0;
    assert(picked.major == 1 && picked.minor == 10 && picked.patch == 0);
    assert forall|n2: Seq<char>|
        #[trigger] crate::resolver::app_version_candidate(m, base, n2) implies !ver_precedes(
        picked,
        crate::version::app_dir_version(n2)->0,
    ) by {
        assert(n2 == "app-1.2.0"@ || n2 == "app-1.9.9"@ || n2 == "app-1.10.0"@);
    }
}

} // verus!
