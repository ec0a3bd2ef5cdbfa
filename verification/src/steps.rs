use vstd::prelude::*;
use vstd::string::StringExecFns;

use crate::fs_model::{Fs, NodeModel, clone_bytes, with_dir_all, with_dirs_span, without_subtree, subtree_copied};
use crate::paths::AppPath;
use crate::resolver::{Platform, get_tidal_directory};
use crate::step::{
    FetchModel, FetchOutcome, InstallStep, StepOut, StepResult, SubLog, World, WorldModel,
    push_log, resolved_target, spec_temp_dir, step_out_matches, step_result, temp_dir_path,
};
use crate::zipcheck::{
    MAX_ZIP_ENTRY_SIZE, ZipEntry, ZipEntryModel, ZipFlaw, read_zip_entries, safe_zip_join,
    spec_safe_zip_join, validate_zip_bytes, zip_bytes_valid, zip_entries_of, zip_eocd_ok,
    zip_parses, zip_signature_ok,
};

verus! {

/// Resolve the install target a step works on: the explicit path when one
/// was supplied, otherwise the first discovered target.
pub fn resolve_target(explicit: &Option<AppPath>, w: &World) -> (r: Option<AppPath>)
    ensures
        resolved_target(
            *explicit,
            w@,
            match r {
                Some(ref p) => Some(p@),
                None => None,
            },
        ),
{
    match explicit {
        Some(p) => Some(p.clone()),
        None => {
            let home_ref = w.home.as_ref();
            let la_ref = w.local_appdata.as_ref();
            proof {
                assert(crate::resolver::opt_path_key(home_ref) == w@.home);
                assert(crate::resolver::opt_path_key(la_ref) == w@.local_appdata);
            }
            match get_tidal_directory(&w.fs, w.platform, home_ref, la_ref) {
                Ok(p) => Some(p),
                Err(_) => None,
            }
        },
    }
}

/// Creates the scratch directory and checks that the target is an
/// existing directory holding the primary archive.
pub struct SetupStep {
    pub overwrite_path: Option<AppPath>,
}

/// What the setup step does to the world, given how its target resolved.
pub open spec fn spec_setup(
    fs: Map<Seq<Seq<char>>, NodeModel>,
    temp_root: Seq<Seq<char>>,
    ropt: Option<Seq<Seq<char>>>,
) -> StepOut {
    let fs1 = with_dir_all(fs, spec_temp_dir(temp_root));
    let subs = seq!["Checking if Tidal is installed"@];
    match ropt {
        None => StepOut {
            fs: fs1,
            success: false,
            message: "Tidal is not installed or path could not be found"@,
            sublogs: subs,
        },
        Some(t) => {
            if !fs1.contains_key(t) {
                StepOut {
                    fs: fs1,
                    success: false,
                    message: "Tidal path does not exist"@,
                    sublogs: subs,
                }
            } else if !crate::resolver::spec_has_app_asar(fs1, t) {
                StepOut {
                    fs: fs1,
                    success: false,
                    message: "app.asar not found - Tidal is not installed correctly"@,
                    sublogs: subs,
                }
            } else {
                StepOut {
                    fs: fs1,
                    success: true,
                    message: "Setup step completed successfully"@,
                    sublogs: subs,
                }
            }
        },
    }
}

impl SetupStep {
    pub fn run_model(&self, w: &mut World, log: &mut Vec<SubLog>) -> (r: StepResult)
        ensures
            exists|ropt: Option<Seq<Seq<char>>>|
                {
                    &&& #[trigger] resolved_target(
                        self.overwrite_path,
                        crate::step::setup_resolution_world(old(w)@),
                        ropt,
                    )
                    &&& step_out_matches(
                        old(w)@,
                        final(w)@,
                        r,
                        old(log).deep_view(),
                        final(log).deep_view(),
                        spec_setup(old(w)@.fs, old(w)@.temp_root, ropt),
                    )
                },
    {
        let tmp = temp_dir_path(&w.temp_root);
        w.fs.make_dir_all(&tmp);
        push_log(log, "Checking if Tidal is installed");
        let target = resolve_target(&self.overwrite_path, w);
        let ghost ropt: Option<Seq<Seq<char>>> = match target {
            Some(ref p) => Some(p@),
            None => None,
        };
        let r = match target {
            None => step_result(false, "Tidal is not installed or path could not be found"),
            Some(t) => {
                if !w.fs.exists_node(&t) {
                    step_result(false, "Tidal path does not exist")
                } else if !crate::resolver::has_tidal_app_asar(&w.fs, &t) {
                    step_result(false, "app.asar not found - Tidal is not installed correctly")
                } else {
                    step_result(true, "Setup step completed successfully")
                }
            },
        };
        proof {
            assert(w@.fs == with_dir_all(old(w)@.fs, spec_temp_dir(old(w)@.temp_root)));
            assert(w@ == (WorldModel { fs: w@.fs, ..old(w)@ }));
            assert(w@ == crate::step::setup_resolution_world(old(w)@));
            assert(resolved_target(
                self.overwrite_path,
                crate::step::setup_resolution_world(old(w)@),
                ropt,
            ));
            assert(step_out_matches(
                old(w)@,
                w@,
                r,
                old(log).deep_view(),
                log.deep_view(),
                spec_setup(old(w)@.fs, old(w)@.temp_root, ropt),
            ));
        }
        r
    }
}

impl InstallStep for SetupStep {
    fn name(&self) -> &str {
        "Setup"
    }

    fn run(&self, w: &mut World, log: &mut Vec<SubLog>) -> StepResult {
        self.run_model(w, log)
    }
}

/// Stops any running instances of the host application; always reported
/// as non-fatal on a supported platform.
pub struct KillTidalStep;

/// The kill step touches no files; it fails only on an unmodelled
/// platform.
pub open spec fn spec_kill(fs: Map<Seq<Seq<char>>, NodeModel>, platform: Platform) -> StepOut {
    if platform is Other {
        StepOut {
            fs,
            success: false,
            message: "Unsupported operating system"@,
            sublogs: Seq::empty(),
        }
    } else {
        StepOut {
            fs,
            success: true,
            message: "Kill TIDAL completed (non-fatal)"@,
            sublogs: Seq::empty(),
        }
    }
}

impl KillTidalStep {
    pub fn run_model(&self, w: &mut World, log: &mut Vec<SubLog>) -> (r: StepResult)
        ensures
            step_out_matches(
                old(w)@,
                final(w)@,
                r,
                old(log).deep_view(),
                final(log).deep_view(),
                spec_kill(old(w)@.fs, old(w)@.platform),
            ),
    {
        proof {
            assert(log.deep_view() =~= log.deep_view() + Seq::<Seq<char>>::empty());
        }
        match w.platform {
            Platform::Other => step_result(false, "Unsupported operating system"),
            _ => step_result(true, "Kill TIDAL completed (non-fatal)"),
        }
    }
}

impl InstallStep for KillTidalStep {
    fn name(&self) -> &str {
        "Kill TIDAL"
    }

    fn run(&self, w: &mut World, log: &mut Vec<SubLog>) -> StepResult {
        self.run_model(w, log)
    }
}

/// Re-signs the patched application where the platform demands it.
pub struct SignTidalStep;

/// Signing is a black-box platform call: skipped where unneeded, and
/// reported as the call came back where it runs.
pub open spec fn spec_sign(
    fs: Map<Seq<Seq<char>>, NodeModel>,
    platform: Platform,
    sign_ok: bool,
) -> StepOut {
    match platform {
        Platform::Windows => StepOut {
            fs,
            success: true,
            message: "Signing skipped on Windows"@,
            sublogs: Seq::empty(),
        },
        Platform::Linux => StepOut {
            fs,
            success: true,
            message: "Signing skipped on Linux"@,
            sublogs: Seq::empty(),
        },
        Platform::MacOs => {
            if sign_ok {
                StepOut {
                    fs,
                    success: true,
                    message: "Signing completed successfully"@,
                    sublogs: Seq::empty(),
                }
            } else {
                StepOut {
                    fs,
                    success: false,
                    message: "Error signing TIDAL on macOS"@,
                    sublogs: Seq::empty(),
                }
            }
        },
        Platform::Other => StepOut {
            fs,
            success: false,
            message: "Unsupported operating system"@,
            sublogs: Seq::empty(),
        },
    }
}

impl SignTidalStep {
    pub fn run_model(&self, w: &mut World, log: &mut Vec<SubLog>) -> (r: StepResult)
        ensures
            step_out_matches(
                old(w)@,
                final(w)@,
                r,
                old(log).deep_view(),
                final(log).deep_view(),
                spec_sign(old(w)@.fs, old(w)@.platform, old(w)@.sign_ok),
            ),
    {
        proof {
            assert(log.deep_view() =~= log.deep_view() + Seq::<Seq<char>>::empty());
        }
        match w.platform {
            Platform::Windows => step_result(true, "Signing skipped on Windows"),
            Platform::Linux => step_result(true, "Signing skipped on Linux"),
            Platform::MacOs => {
                if w.sign_ok {
                    step_result(true, "Signing completed successfully")
                } else {
                    step_result(false, "Error signing TIDAL on macOS")
                }
            },
            Platform::Other => step_result(false, "Unsupported operating system"),
        }
    }
}

impl InstallStep for SignTidalStep {
    fn name(&self) -> &str {
        "Sign TIDAL"
    }

    fn run(&self, w: &mut World, log: &mut Vec<SubLog>) -> StepResult {
        self.run_model(w, log)
    }
}

/// Relaunches the host application; the launch itself is a black-box
/// platform call, so the step never fails the pipeline.
pub struct LaunchTidalStep {
    pub overwrite_path: Option<AppPath>,
    pub suppress_console_window: bool,
}

/// The launch step touches no files and always succeeds.
pub open spec fn spec_launch(fs: Map<Seq<Seq<char>>, NodeModel>) -> StepOut {
    StepOut {
        fs,
        success: true,
        message: "Installation finished; TIDAL relaunch attempted"@,
        sublogs: Seq::empty(),
    }
}

impl LaunchTidalStep {
    pub fn run_model(&self, w: &mut World, log: &mut Vec<SubLog>) -> (r: StepResult)
        ensures
            step_out_matches(
                old(w)@,
                final(w)@,
                r,
                old(log).deep_view(),
                final(log).deep_view(),
                spec_launch(old(w)@.fs),
            ),
    {
        proof {
            assert(log.deep_view() =~= log.deep_view() + Seq::<Seq<char>>::empty());
        }
        step_result(true, "Installation finished; TIDAL relaunch attempted")
    }
}

impl InstallStep for LaunchTidalStep {
    fn name(&self) -> &str {
        "Launch TIDAL"
    }

    fn run(&self, w: &mut World, log: &mut Vec<SubLog>) -> StepResult {
        self.run_model(w, log)
    }
}

/// One visible character of a payload preview: printable ASCII stands as
/// itself, everything else as a dot.
pub open spec fn preview_char(b: u8) -> char {
    if 0x20 <= b && b <= 0x7e {
        b as char
    } else {
        '.'
    }
}

/// A short, readable preview of a payload's leading bytes, to surface
/// HTML error pages served in place of an archive.
pub open spec fn preview_of(b: Seq<u8>) -> Seq<char> {
    let n: int = if b.len() > 180 {
        180
    } else {
        b.len() as int
    };
    b.take(n).map_values(|x: u8| preview_char(x))
}

/// Render the preview of a payload.
pub fn preview_string(b: &Vec<u8>) -> (r: String)
    ensures
        r@ == preview_of(b@),
{
    let n: usize = if b.len() > 180 {
        180
    } else {
        b.len()
    };
    let mut v: Vec<char> = Vec::new();
    let mut i: usize = 0;
    while i < n
        invariant
            i <= n,
            n <= b@.len(),
            n == (if b@.len() > 180 {
                180int
            } else {
                b@.len() as int
            }),
            v@ =~= b@.take(n as int).map_values(|x: u8| preview_char(x)).take(i as int),
        decreases n - i,
    {
        let c: char = if 0x20 <= b[i] && b[i] <= 0x7e {
            b[i] as char
        } else {
            '.'
        };
        v.push(c);
        i = i + 1;
        proof {
            assert(v@ =~= b@.take(n as int).map_values(|x: u8| preview_char(x)).take(i as int));
        }
    }
    proof {
        assert(v@ =~= preview_of(b@));
    }
    crate::chars::string_from_chars(&v)
}

/// Which structural check the payload failed.
pub open spec fn flaw_of(b: Seq<u8>) -> ZipFlaw {
    if !zip_signature_ok(b) {
        ZipFlaw::MissingSignature
    } else if !zip_eocd_ok(b) {
        ZipFlaw::MissingCentralDirectory
    } else {
        ZipFlaw::ParseFailed
    }
}

/// The short text of a structural flaw.
pub open spec fn flaw_text(f: ZipFlaw) -> Seq<char> {
    match f {
        ZipFlaw::MissingSignature => "missing ZIP signature"@,
        ZipFlaw::MissingCentralDirectory => "missing ZIP central directory"@,
        ZipFlaw::ParseFailed => "ZIP parse validation failed"@,
    }
}

/// The full diagnostic for a payload that failed validation: the flaw,
/// the URL it came from, and a readable preview of the bytes.
pub open spec fn download_invalid_message(url: Seq<char>, body: Seq<u8>) -> Seq<char> {
    "Downloaded file failed ZIP validation ("@ + flaw_text(flaw_of(body)) + "). URL: "@ + url
        + ". Response preview: "@ + preview_of(body)
}

/// Fetches the remote archive, validates it in memory, and lands it
/// atomically under its final name in the scratch directory.
pub struct DownloadLunaStep {
    pub download_url: String,
}

/// What the download step does to the world: the scratch directory is
/// ensured, and only a fully validated payload ever reaches the final
/// archive name, through a side file and a rename.
pub open spec fn spec_download(
    fs: Map<Seq<Seq<char>>, NodeModel>,
    temp_root: Seq<Seq<char>>,
    url: Seq<char>,
    fetch: FetchModel,
) -> StepOut {
    let temp = spec_temp_dir(temp_root);
    let part = temp.push("Luna.zip.part"@);
    let zipp = temp.push("Luna.zip"@);
    let fs1 = with_dir_all(fs, temp);
    let subs = seq!["Downloading Luna..."@];
    match fetch {
        FetchModel::NetworkError { detail } => StepOut {
            fs: fs1,
            success: false,
            message: "Failed to send download request"@,
            sublogs: subs,
        },
        FetchModel::Response { status, body } => {
            if !(200 <= status && status < 300) {
                StepOut {
                    fs: fs1,
                    success: false,
                    message: "Failed to download Luna: HTTP status error"@,
                    sublogs: subs,
                }
            } else if body.len() == 0 {
                StepOut {
                    fs: fs1,
                    success: false,
                    message: "Download completed but returned an empty file"@,
                    sublogs: subs,
                }
            } else if !zip_bytes_valid(body) {
                StepOut {
                    fs: fs1,
                    success: false,
                    message: download_invalid_message(url, body),
                    sublogs: subs,
                }
            } else {
                let fs2 = if fs1.contains_key(part) && fs1[part] is File {
                    fs1.remove(part)
                } else {
                    fs1
                };
                let fs3 = fs2.insert(part, NodeModel::File { data: body });
                let fs4 = fs3.remove(part).insert(zipp, fs3[part]);
                StepOut {
                    fs: fs4,
                    success: true,
                    message: "Download completed successfully"@,
                    sublogs: subs,
                }
            }
        },
    }
}

impl DownloadLunaStep {
    pub fn run_model(&self, w: &mut World, log: &mut Vec<SubLog>) -> (r: StepResult)
        ensures
            step_out_matches(
                old(w)@,
                final(w)@,
                r,
                old(log).deep_view(),
                final(log).deep_view(),
                spec_download(
                    old(w)@.fs,
                    old(w)@.temp_root,
                    self.download_url@,
                    old(w)@.fetch,
                ),
            ),
    {
        let temp = temp_dir_path(&w.temp_root);
        w.fs.make_dir_all(&temp);
        push_log(log, "Downloading Luna...");
        match &w.fetch {
            FetchOutcome::NetworkError { .. } => {
                return step_result(false, "Failed to send download request");
            },
            FetchOutcome::Response { status, body } => {
                if !(200 <= *status && *status < 300) {
                    return step_result(false, "Failed to download Luna: HTTP status error");
                }
                if body.len() == 0 {
                    return step_result(false, "Download completed but returned an empty file");
                }
                match validate_zip_bytes(body) {
                    Err(flaw) => {
                        let mut msg = "Downloaded file failed ZIP validation (".to_owned();
                        match flaw {
                            ZipFlaw::MissingSignature => msg.append("missing ZIP signature"),
                            ZipFlaw::MissingCentralDirectory => msg.append(
                                "missing ZIP central directory",
                            ),
                            ZipFlaw::ParseFailed => msg.append("ZIP parse validation failed"),
                        }
                        msg.append("). URL: ");
                        msg.append(self.download_url.as_str());
                        msg.append(". Response preview: ");
                        let pv = preview_string(body);
                        msg.append(pv.as_str());
                        proof {
                            assert(msg@ == download_invalid_message(
                                self.download_url@,
                                body@,
                            ));
                        }
                        return StepResult { success: false, message: msg };
                    },
                    Ok(()) => {},
                }
            },
        }
        let body_copy: Vec<u8> = match &w.fetch {
            FetchOutcome::Response { body, .. } => clone_bytes(body),
            FetchOutcome::NetworkError { .. } => {
                proof {
                    assert(false);
                }
                Vec::new()
            },
        };
        let part = temp.join("Luna.zip.part");
        let zipp = temp.join("Luna.zip");
        let _ = w.fs.remove_file(&part);
        w.fs.write_file(&part, body_copy);
        let _ = w.fs.rename_file(&part, &zipp);
        step_result(true, "Download completed successfully")
    }
}

impl InstallStep for DownloadLunaStep {
    fn name(&self) -> &str {
        "Download Luna"
    }

    fn run(&self, w: &mut World, log: &mut Vec<SubLog>) -> StepResult {
        self.run_model(w, log)
    }
}

/// Expands the downloaded archive into a fresh scratch subtree, refusing
/// oversized entries and names that could escape it.
pub struct ExtractLunaStep;

/// The diagnostic for an entry whose declared uncompressed size exceeds
/// the cap, naming the cap and the entry.
pub open spec fn oversized_entry_message(name: Seq<char>) -> Seq<char> {
    "Zip entry is too large (over 104857600 bytes): "@ + name
}

/// The diagnostic for an entry whose name could escape the extraction
/// root, naming the entry.
pub open spec fn unsafe_entry_message(name: Seq<char>) -> Seq<char> {
    "Unsafe zip entry path rejected: "@ + name
}

/// Process the archive's entries in order against the extraction root:
/// an oversized or unsafe entry aborts the whole extraction at once;
/// directories and missing ancestors are created below the root only.
pub open spec fn spec_extract_entries(
    m: Map<Seq<Seq<char>>, NodeModel>,
    ex: Seq<Seq<char>>,
    entries: Seq<ZipEntryModel>,
) -> StepOut
    decreases entries.len(),
{
    let subs = seq!["Extracting Luna..."@];
    if entries.len() == 0 {
        StepOut { fs: m, success: true, message: "Extraction completed"@, sublogs: subs }
    } else {
        let e = entries[0];
        if e.size > MAX_ZIP_ENTRY_SIZE {
            StepOut {
                fs: m,
                success: false,
                message: oversized_entry_message(e.name),
                sublogs: subs,
            }
        } else {
            match spec_safe_zip_join(ex, e.name) {
                None => StepOut {
                    fs: m,
                    success: false,
                    message: unsafe_entry_message(e.name),
                    sublogs: subs,
                },
                Some(dest) => {
                    let m2 = if e.is_dir {
                        with_dirs_span(m, dest, ex.len() as int, dest.len() as int)
                    } else {
                        with_dirs_span(m, dest.drop_last(), ex.len() as int, dest.len() - 1).insert(
                            dest,
                            NodeModel::File { data: e.data },
                        )
                    };
                    spec_extract_entries(m2, ex, entries.drop_first())
                },
            }
        }
    }
}

/// What the extract step does to the world: the extraction root is
/// purged and recreated, the archive is re-validated, and its entries
/// are expanded in order.
pub open spec fn spec_extract(
    fs: Map<Seq<Seq<char>>, NodeModel>,
    temp_root: Seq<Seq<char>>,
) -> StepOut {
    let temp = spec_temp_dir(temp_root);
    let zipp = temp.push("Luna.zip"@);
    let ex = temp.push("LunaExtracted"@);
    let fs1 = with_dir_all(without_subtree(fs, ex), ex);
    let subs = seq!["Extracting Luna..."@];
    if !(fs1.contains_key(zipp) && fs1[zipp] is File) {
        StepOut {
            fs: fs1,
            success: false,
            message: "Failed to open zip for validation"@,
            sublogs: subs,
        }
    } else {
        let bytes = fs1[zipp]->data;
        if bytes.len() < 22 {
            StepOut {
                fs: fs1,
                success: false,
                message: "Zip file is unexpectedly small"@,
                sublogs: subs,
            }
        } else if !zip_parses(bytes) {
            StepOut {
                fs: fs1,
                success: false,
                message: "Failed ZIP validation before extraction"@,
                sublogs: subs,
            }
        } else {
            match zip_entries_of(bytes) {
                None => StepOut {
                    fs: fs1,
                    success: false,
                    message: "Failed to read zip archive"@,
                    sublogs: subs,
                },
                Some(entries) => spec_extract_entries(fs1, ex, entries),
            }
        }
    }
}

impl ExtractLunaStep {
    pub fn run_model(&self, w: &mut World, log: &mut Vec<SubLog>) -> (r: StepResult)
        ensures
            step_out_matches(
                old(w)@,
                final(w)@,
                r,
                old(log).deep_view(),
                final(log).deep_view(),
                spec_extract(old(w)@.fs, old(w)@.temp_root),
            ),
    {
        let temp = temp_dir_path(&w.temp_root);
        let zipp = temp.join("Luna.zip");
        let ex = temp.join("LunaExtracted");
        push_log(log, "Extracting Luna...");
        w.fs.remove_subtree(&ex);
        w.fs.make_dir_all(&ex);
        let ghost fs1 = w.fs@;
        let bytes: Vec<u8> = match w.fs.read_file(&zipp) {
            Some(d) => clone_bytes(d),
            None => {
                return step_result(false, "Failed to open zip for validation");
            },
        };
        if bytes.len() < 22 {
            return step_result(false, "Zip file is unexpectedly small");
        }
        if !crate::zipcheck::zip_parse_check(&bytes) {
            return step_result(false, "Failed ZIP validation before extraction");
        }
        let entries: Vec<ZipEntry> = match read_zip_entries(&bytes) {
            Some(es) => es,
            None => {
                return step_result(false, "Failed to read zip archive");
            },
        };
        let ghost models = entries.deep_view();
        proof {
            assert(models.skip(0) =~= models);
            assert(spec_extract(old(w)@.fs, old(w)@.temp_root) == spec_extract_entries(
                fs1,
                ex@,
                models,
            ));
        }
        let ex_len = ex.len();
        let mut i: usize = 0;
        while i < entries.len()
            invariant
                i <= entries@.len(),
                entries.deep_view() == models,
                ex_len == ex@.len(),
                ex@.len() > 0,
                w@ == (WorldModel { fs: w@.fs, ..old(w)@ }),
                log.deep_view() == old(log).deep_view() + seq!["Extracting Luna..."@],
                spec_extract(old(w)@.fs, old(w)@.temp_root) == spec_extract_entries(
                    fs1,
                    ex@,
                    models,
                ),
                spec_extract_entries(fs1, ex@, models) == spec_extract_entries(
                    w.fs@,
                    ex@,
                    models.skip(i as int),
                ),
            decreases entries@.len() - i,
        {
            proof {
                assert(models.skip(i as int)[0] == models[i as int]);
                assert(models.skip(i as int).drop_first() =~= models.skip(i + 1));
                assert(entries[i as int]@ == models[i as int]);
            }
            let e = &entries[i];
            if e.size > MAX_ZIP_ENTRY_SIZE {
                let mut msg = "Zip entry is too large (over 104857600 bytes): ".to_owned();
                let shown = crate::chars::string_from_chars(&e.name);
                msg.append(shown.as_str());
                proof {
                    assert(w@ == (WorldModel { fs: w@.fs, ..old(w)@ }));
                    assert(msg@ == oversized_entry_message(models[i as int].name));
                }
                return StepResult { success: false, message: msg };
            }
            let dest = match safe_zip_join(&ex, &e.name) {
                None => {
                    let mut msg = "Unsafe zip entry path rejected: ".to_owned();
                    let shown = crate::chars::string_from_chars(&e.name);
                    msg.append(shown.as_str());
                    proof {
                        assert(w@ == (WorldModel { fs: w@.fs, ..old(w)@ }));
                        assert(msg@ == unsafe_entry_message(models[i as int].name));
                    }
                    return StepResult { success: false, message: msg };
                },
                Some(d) => d,
            };
            if e.is_dir {
                w.fs.make_dirs_from(&dest, ex_len);
            } else {
                let parent = match dest.parent() {
                    Some(p) => p,
                    None => {
                        proof {
                            assert(false);
                        }
                        dest.clone()
                    },
                };
                w.fs.make_dirs_from(&parent, ex_len);
                let data = clone_bytes(&e.data);
                w.fs.write_file(&dest, data);
            }
            i = i + 1;
            proof {
                assert(spec_extract_entries(fs1, ex@, models) == spec_extract_entries(
                    w.fs@,
                    ex@,
                    models.skip(i as int),
                ));
            }
        }
        proof {
            assert(models.skip(entries@.len() as int) =~= Seq::<ZipEntryModel>::empty());
            assert(w@ == (WorldModel { fs: w@.fs, ..old(w)@ }));
        }
        step_result(true, "Extraction completed")
    }
}

impl InstallStep for ExtractLunaStep {
    fn name(&self) -> &str {
        "Extract Luna"
    }

    fn run(&self, w: &mut World, log: &mut Vec<SubLog>) -> StepResult {
        self.run_model(w, log)
    }
}

/// Some immediate child of `t` is a file whose name carries the host
/// application's archive extension.
pub open spec fn spec_has_asar_child(m: Map<Seq<Seq<char>>, NodeModel>, t: Seq<Seq<char>>) -> bool {
    exists|n: Seq<char>|
        {
            &&& m.contains_key(#[trigger] t.push(n))
            &&& m[t.push(n)] is File
            &&& crate::chars::ext_of(n) == Some("asar"@)
        }
}

/// Does `t` hold any packaged-archive file among its direct children?
pub fn has_asar_child(fs: &Fs, t: &AppPath) -> (r: bool)
    ensures
        r == spec_has_asar_child(fs@, t@),
{
    let asar = crate::chars::chars_vec("asar");
    let names = fs.child_names(t);
    let mut i: usize = 0;
    while i < names.len()
        invariant
            i <= names@.len(),
            asar@ == "asar"@,
            forall|a: int|
                0 <= a < names@.len() ==> fs@.contains_key(
                    #[trigger] t@.push(names.deep_view()[a]),
                ),
            forall|n: Seq<char>|
                fs@.contains_key(#[trigger] t@.push(n)) ==> names.deep_view().contains(n),
            forall|j: int|
                0 <= j < i ==> !({
                    &&& fs@[t@.push(#[trigger] names.deep_view()[j])] is File
                    &&& crate::chars::ext_of(names.deep_view()[j]) == Some("asar"@)
                }),
        decreases names@.len() - i,
    {
        let nchars = crate::chars::chars_vec(names[i].as_str());
        proof {
            assert(nchars@ == names.deep_view()[i as int]);
        }
        let has_ext = match crate::chars::extension_of(&nchars) {
            Some(e) => crate::chars::chars_eq(&e, &asar),
            None => false,
        };
        if has_ext {
            if fs.is_file(&t.join(names[i].as_str())) {
                proof {
                    assert(spec_has_asar_child(fs@, t@));
                }
                return true;
            }
        }
        i = i + 1;
    }
    proof {
        if spec_has_asar_child(fs@, t@) {
            let n = choose|n: Seq<char>|
                {
                    &&& fs@.contains_key(#[trigger] t@.push(n))
                    &&& fs@[t@.push(n)] is File
                    &&& crate::chars::ext_of(n) == Some("asar"@)
                };
            assert(names.deep_view().contains(n));
            let j = choose|j: int| 0 <= j < names.deep_view().len() && names.deep_view()[j] == n;
            assert(false);
        }
    }
    false
}

/// Backs the primary archive up under the backup name, then vacates the
/// primary name; an existing backup is never overwritten.
pub struct CopyAsarInstallStep {
    pub overwrite_path: Option<AppPath>,
}

/// What the backup-and-vacate step does to the target: a backup is
/// created only where none exists, and the primary archive is removed so
/// the injected tree takes its place.
pub open spec fn spec_copy_install(
    fs: Map<Seq<Seq<char>>, NodeModel>,
    ropt: Option<Seq<Seq<char>>>,
) -> StepOut {
    let subs = Seq::<Seq<char>>::empty();
    match ropt {
        None => StepOut {
            fs,
            success: false,
            message: "Tidal is not installed or path could not be found"@,
            sublogs: subs,
        },
        Some(t) => {
            let orig = t.push("original.asar"@);
            let app = t.push("app.asar"@);
            if !fs.contains_key(t) {
                StepOut {
                    fs,
                    success: false,
                    message: "Tidal path does not exist"@,
                    sublogs: subs,
                }
            } else if !spec_has_asar_child(fs, t) {
                StepOut {
                    fs,
                    success: false,
                    message: "No .asar files found - Tidal is not installed correctly"@,
                    sublogs: subs,
                }
            } else if !fs.contains_key(orig) && !fs.contains_key(app) {
                StepOut {
                    fs,
                    success: false,
                    message: "app.asar not found. Tidal installation may be corrupt."@,
                    sublogs: subs,
                }
            } else if !fs.contains_key(orig) && !(fs[app] is File) {
                StepOut {
                    fs,
                    success: false,
                    message: "Failed to backup app.asar"@,
                    sublogs: subs,
                }
            } else {
                let fs1 = if !fs.contains_key(orig) {
                    fs.insert(orig, fs[app])
                } else {
                    fs
                };
                if fs1.contains_key(app) {
                    if fs1[app] is File {
                        StepOut {
                            fs: fs1.remove(app),
                            success: true,
                            message: "Copy ASAR step completed"@,
                            sublogs: subs,
                        }
                    } else {
                        StepOut {
                            fs: fs1,
                            success: false,
                            message: "Failed to delete existing app.asar"@,
                            sublogs: subs,
                        }
                    }
                } else {
                    StepOut {
                        fs: fs1,
                        success: true,
                        message: "Copy ASAR step completed"@,
                        sublogs: subs,
                    }
                }
            }
        },
    }
}

impl CopyAsarInstallStep {
    pub fn run_model(&self, w: &mut World, log: &mut Vec<SubLog>) -> (r: StepResult)
        ensures
            exists|ropt: Option<Seq<Seq<char>>>|
                {
                    &&& #[trigger] resolved_target(self.overwrite_path, old(w)@, ropt)
                    &&& step_out_matches(
                        old(w)@,
                        final(w)@,
                        r,
                        old(log).deep_view(),
                        final(log).deep_view(),
                        spec_copy_install(old(w)@.fs, ropt),
                    )
                },
    {
        let target = resolve_target(&self.overwrite_path, w);
        let ghost ropt: Option<Seq<Seq<char>>> = match target {
            Some(ref p) => Some(p@),
            None => None,
        };
        let r = match target {
            None => step_result(false, "Tidal is not installed or path could not be found"),
            Some(t) => {
                let orig = t.join("original.asar");
                let app = t.join("app.asar");
                if !w.fs.exists_node(&t) {
                    step_result(false, "Tidal path does not exist")
                } else if !has_asar_child(&w.fs, &t) {
                    step_result(false, "No .asar files found - Tidal is not installed correctly")
                } else if !w.fs.exists_node(&orig) && !w.fs.exists_node(&app) {
                    step_result(false, "app.asar not found. Tidal installation may be corrupt.")
                } else {
                    let mut failed_backup = false;
                    if !w.fs.exists_node(&orig) {
                        if !w.fs.copy_file(&app, &orig) {
                            failed_backup = true;
                        }
                    }
                    if failed_backup {
                        step_result(false, "Failed to backup app.asar")
                    } else if w.fs.exists_node(&app) {
                        if w.fs.remove_file(&app) {
                            step_result(true, "Copy ASAR step completed")
                        } else {
                            step_result(false, "Failed to delete existing app.asar")
                        }
                    } else {
                        step_result(true, "Copy ASAR step completed")
                    }
                }
            },
        };
        proof {
            assert(log.deep_view() =~= old(log).deep_view() + Seq::<Seq<char>>::empty());
            assert(w@ == (WorldModel { fs: w@.fs, ..old(w)@ }));
            assert(resolved_target(self.overwrite_path, old(w)@, ropt));
            assert(step_out_matches(
                old(w)@,
                w@,
                r,
                old(log).deep_view(),
                log.deep_view(),
                spec_copy_install(old(w)@.fs, ropt),
            ));
        }
        r
    }
}

impl InstallStep for CopyAsarInstallStep {
    fn name(&self) -> &str {
        "Copy ASAR for Installation"
    }

    fn run(&self, w: &mut World, log: &mut Vec<SubLog>) -> StepResult {
        self.run_model(w, log)
    }
}

/// Restores the primary archive from its backup on uninstall.
pub struct CopyAsarUninstallStep {
    pub overwrite_path: Option<AppPath>,
}

/// What the restore step does to the target: the backup, which must
/// exist, is copied back over the primary name.
pub open spec fn spec_copy_uninstall(
    fs: Map<Seq<Seq<char>>, NodeModel>,
    ropt: Option<Seq<Seq<char>>>,
) -> StepOut {
    let subs = Seq::<Seq<char>>::empty();
    match ropt {
        None => StepOut {
            fs,
            success: false,
            message: "Invalid Tidal path"@,
            sublogs: subs,
        },
        Some(t) => {
            let orig = t.push("original.asar"@);
            let app = t.push("app.asar"@);
            if !fs.contains_key(orig) {
                StepOut { fs, success: false, message: "original.asar missing"@, sublogs: subs }
            } else if fs.contains_key(app) && !(fs[app] is File) {
                StepOut {
                    fs,
                    success: false,
                    message: "Failed to remove app.asar"@,
                    sublogs: subs,
                }
            } else {
                let fs1 = if fs.contains_key(app) && fs[app] is File {
                    fs.remove(app)
                } else {
                    fs
                };
                if fs1.contains_key(orig) && fs1[orig] is File {
                    StepOut {
                        fs: fs1.insert(app, fs1[orig]),
                        success: true,
                        message: "ASAR restored successfully"@,
                        sublogs: subs,
                    }
                } else {
                    StepOut {
                        fs: fs1,
                        success: false,
                        message: "Failed to restore app.asar"@,
                        sublogs: subs,
                    }
                }
            }
        },
    }
}

impl CopyAsarUninstallStep {
    pub fn run_model(&self, w: &mut World, log: &mut Vec<SubLog>) -> (r: StepResult)
        ensures
            exists|ropt: Option<Seq<Seq<char>>>|
                {
                    &&& #[trigger] resolved_target(self.overwrite_path, old(w)@, ropt)
                    &&& step_out_matches(
                        old(w)@,
                        final(w)@,
                        r,
                        old(log).deep_view(),
                        final(log).deep_view(),
                        spec_copy_uninstall(old(w)@.fs, ropt),
                    )
                },
    {
        let target = resolve_target(&self.overwrite_path, w);
        let ghost ropt: Option<Seq<Seq<char>>> = match target {
            Some(ref p) => Some(p@),
            None => None,
        };
        let r = match target {
            None => step_result(false, "Invalid Tidal path"),
            Some(t) => {
                let orig = t.join("original.asar");
                let app = t.join("app.asar");
                if !w.fs.exists_node(&orig) {
                    step_result(false, "original.asar missing")
                } else {
                    let mut removal_failed = false;
                    if w.fs.exists_node(&app) {
                        if !w.fs.remove_file(&app) {
                            removal_failed = true;
                        }
                    }
                    if removal_failed {
                        step_result(false, "Failed to remove app.asar")
                    } else if w.fs.copy_file(&orig, &app) {
                        step_result(true, "ASAR restored successfully")
                    } else {
                        step_result(false, "Failed to restore app.asar")
                    }
                }
            },
        };
        proof {
            assert(log.deep_view() =~= old(log).deep_view() + Seq::<Seq<char>>::empty());
            assert(w@ == (WorldModel { fs: w@.fs, ..old(w)@ }));
            assert(resolved_target(self.overwrite_path, old(w)@, ropt));
            assert(step_out_matches(
                old(w)@,
                w@,
                r,
                old(log).deep_view(),
                log.deep_view(),
                spec_copy_uninstall(old(w)@.fs, ropt),
            ));
        }
        r
    }
}

impl InstallStep for CopyAsarUninstallStep {
    fn name(&self) -> &str {
        "Restore original ASAR"
    }

    fn run(&self, w: &mut World, log: &mut Vec<SubLog>) -> StepResult {
        self.run_model(w, log)
    }
}

/// Brings an already-patched target back to a clean state before a fresh
/// install; every part of it is best-effort and the step never fails.
pub struct ReinstallCleanupStep {
    pub overwrite_path: Option<AppPath>,
}

/// What the cleanup step does to the target: where a backup exists the
/// primary archive is restored from it (skipped, as the real copy would
/// fail, where a directory occupies the primary name), and any injected
/// tree is removed; nothing here is fatal.
pub open spec fn spec_cleanup(
    fs: Map<Seq<Seq<char>>, NodeModel>,
    ropt: Option<Seq<Seq<char>>>,
) -> StepOut {
    let subs = Seq::<Seq<char>>::empty();
    match ropt {
        None => StepOut {
            fs,
            success: true,
            message: "Reinstall cleanup skipped"@,
            sublogs: subs,
        },
        Some(t) => {
            if !fs.contains_key(t) {
                StepOut {
                    fs,
                    success: true,
                    message: "Reinstall cleanup skipped"@,
                    sublogs: subs,
                }
            } else {
                let orig = t.push("original.asar"@);
                let app = t.push("app.asar"@);
                let luna = t.push("app"@);
                let fs1 = if fs.contains_key(orig) && fs.contains_key(app) && fs[app] is File {
                    fs.remove(app)
                } else {
                    fs
                };
                let fs2 = if fs.contains_key(orig) && !(fs1.contains_key(app) && fs1[app]
                    is Dir) && fs1.contains_key(orig) && fs1[orig] is File {
                    fs1.insert(app, fs1[orig])
                } else {
                    fs1
                };
                let fs3 = if fs2.contains_key(luna) {
                    without_subtree(fs2, luna)
                } else {
                    fs2
                };
                StepOut {
                    fs: fs3,
                    success: true,
                    message: "Reinstall cleanup completed"@,
                    sublogs: subs,
                }
            }
        },
    }
}

impl ReinstallCleanupStep {
    pub fn run_model(&self, w: &mut World, log: &mut Vec<SubLog>) -> (r: StepResult)
        ensures
            exists|ropt: Option<Seq<Seq<char>>>|
                {
                    &&& #[trigger] resolved_target(self.overwrite_path, old(w)@, ropt)
                    &&& step_out_matches(
                        old(w)@,
                        final(w)@,
                        r,
                        old(log).deep_view(),
                        final(log).deep_view(),
                        spec_cleanup(old(w)@.fs, ropt),
                    )
                },
    {
        let target = resolve_target(&self.overwrite_path, w);
        let ghost ropt: Option<Seq<Seq<char>>> = match target {
            Some(ref p) => Some(p@),
            None => None,
        };
        let r = match target {
            None => step_result(true, "Reinstall cleanup skipped"),
            Some(t) => {
                if !w.fs.exists_node(&t) {
                    step_result(true, "Reinstall cleanup skipped")
                } else {
                    let orig = t.join("original.asar");
                    let app = t.join("app.asar");
                    let luna = t.join("app");
                    if w.fs.exists_node(&orig) {
                        let _ = w.fs.remove_file(&app);
                        if !w.fs.is_dir(&app) {
                            let _ = w.fs.copy_file(&orig, &app);
                        }
                    }
                    if w.fs.exists_node(&luna) {
                        w.fs.remove_subtree(&luna);
                    }
                    step_result(true, "Reinstall cleanup completed")
                }
            },
        };
        proof {
            assert(log.deep_view() =~= old(log).deep_view() + Seq::<Seq<char>>::empty());
            assert(w@ == (WorldModel { fs: w@.fs, ..old(w)@ }));
            assert(resolved_target(self.overwrite_path, old(w)@, ropt));
            assert(step_out_matches(
                old(w)@,
                w@,
                r,
                old(log).deep_view(),
                log.deep_view(),
                spec_cleanup(old(w)@.fs, ropt),
            ));
        }
        r
    }
}

impl InstallStep for ReinstallCleanupStep {
    fn name(&self) -> &str {
        "Reinstall Cleanup"
    }

    fn run(&self, w: &mut World, log: &mut Vec<SubLog>) -> StepResult {
        self.run_model(w, log)
    }
}

/// Removes the injected tree from the target.
pub struct UninstallStep {
    pub overwrite_path: Option<AppPath>,
}

/// What the uninstall step does to the target: the injected subtree is
/// removed; its absence counts as success.
pub open spec fn spec_uninstall(
    fs: Map<Seq<Seq<char>>, NodeModel>,
    ropt: Option<Seq<Seq<char>>>,
) -> StepOut {
    let subs = Seq::<Seq<char>>::empty();
    match ropt {
        None => StepOut { fs, success: false, message: "Invalid Tidal path"@, sublogs: subs },
        Some(t) => {
            if !fs.contains_key(t) {
                StepOut { fs, success: false, message: "Invalid Tidal path"@, sublogs: subs }
            } else {
                let luna = t.push("app"@);
                if !fs.contains_key(luna) {
                    StepOut {
                        fs,
                        success: true,
                        message: "Nothing to uninstall"@,
                        sublogs: subs,
                    }
                } else {
                    StepOut {
                        fs: without_subtree(fs, luna),
                        success: true,
                        message: "Uninstallation completed successfully"@,
                        sublogs: subs,
                    }
                }
            }
        },
    }
}

impl UninstallStep {
    pub fn run_model(&self, w: &mut World, log: &mut Vec<SubLog>) -> (r: StepResult)
        ensures
            exists|ropt: Option<Seq<Seq<char>>>|
                {
                    &&& #[trigger] resolved_target(self.overwrite_path, old(w)@, ropt)
                    &&& step_out_matches(
                        old(w)@,
                        final(w)@,
                        r,
                        old(log).deep_view(),
                        final(log).deep_view(),
                        spec_uninstall(old(w)@.fs, ropt),
                    )
                },
    {
        let target = resolve_target(&self.overwrite_path, w);
        let ghost ropt: Option<Seq<Seq<char>>> = match target {
            Some(ref p) => Some(p@),
            None => None,
        };
        let r = match target {
            None => step_result(false, "Invalid Tidal path"),
            Some(t) => {
                if !w.fs.exists_node(&t) {
                    step_result(false, "Invalid Tidal path")
                } else {
                    let luna = t.join("app");
                    if !w.fs.exists_node(&luna) {
                        step_result(true, "Nothing to uninstall")
                    } else {
                        w.fs.remove_subtree(&luna);
                        step_result(true, "Uninstallation completed successfully")
                    }
                }
            },
        };
        proof {
            assert(log.deep_view() =~= old(log).deep_view() + Seq::<Seq<char>>::empty());
            assert(w@ == (WorldModel { fs: w@.fs, ..old(w)@ }));
            assert(resolved_target(self.overwrite_path, old(w)@, ropt));
            assert(step_out_matches(
                old(w)@,
                w@,
                r,
                old(log).deep_view(),
                log.deep_view(),
                spec_uninstall(old(w)@.fs, ropt),
            ));
        }
        r
    }
}

impl InstallStep for UninstallStep {
    fn name(&self) -> &str {
        "Uninstall TidaLuna"
    }

    fn run(&self, w: &mut World, log: &mut Vec<SubLog>) -> StepResult {
        self.run_model(w, log)
    }
}

/// Copies the extracted modification tree into the target and clears the
/// scratch directory.
pub struct InsertLunaStep {
    pub overwrite_path: Option<AppPath>,
}

/// What the injection step does: the extracted tree is mirrored below
/// the target's injected-tree name, and the scratch directory is
/// removed.
pub open spec fn spec_insert(
    fs: Map<Seq<Seq<char>>, NodeModel>,
    temp_root: Seq<Seq<char>>,
    ropt: Option<Seq<Seq<char>>>,
) -> StepOut {
    let subs = Seq::<Seq<char>>::empty();
    let temp = spec_temp_dir(temp_root);
    let src = temp.push("LunaExtracted"@);
    match ropt {
        None => StepOut {
            fs,
            success: false,
            message: "Tidal is not installed or path could not be found"@,
            sublogs: subs,
        },
        Some(t) => {
            if !fs.contains_key(t) {
                StepOut {
                    fs,
                    success: false,
                    message: "Tidal path does not exist"@,
                    sublogs: subs,
                }
            } else if !fs.contains_key(src) {
                StepOut {
                    fs,
                    success: false,
                    message: "Temporary Luna directory does not exist"@,
                    sublogs: subs,
                }
            } else {
                let destd = t.push("app"@);
                let fs1 = with_dir_all(fs, destd);
                let fs2 = subtree_copied(fs1, src, destd);
                let fs3 = without_subtree(fs2, temp);
                StepOut {
                    fs: fs3,
                    success: true,
                    message: "Insert Luna step completed successfully"@,
                    sublogs: subs,
                }
            }
        },
    }
}

impl InsertLunaStep {
    pub fn run_model(&self, w: &mut World, log: &mut Vec<SubLog>) -> (r: StepResult)
        ensures
            exists|ropt: Option<Seq<Seq<char>>>|
                {
                    &&& #[trigger] resolved_target(self.overwrite_path, old(w)@, ropt)
                    &&& step_out_matches(
                        old(w)@,
                        final(w)@,
                        r,
                        old(log).deep_view(),
                        final(log).deep_view(),
                        spec_insert(old(w)@.fs, old(w)@.temp_root, ropt),
                    )
                },
    {
        let temp = temp_dir_path(&w.temp_root);
        let src = temp.join("LunaExtracted");
        let target = resolve_target(&self.overwrite_path, w);
        let ghost ropt: Option<Seq<Seq<char>>> = match target {
            Some(ref p) => Some(p@),
            None => None,
        };
        let r = match target {
            None => step_result(false, "Tidal is not installed or path could not be found"),
            Some(t) => {
                if !w.fs.exists_node(&t) {
                    step_result(false, "Tidal path does not exist")
                } else if !w.fs.exists_node(&src) {
                    step_result(false, "Temporary Luna directory does not exist")
                } else {
                    let destd = t.join("app");
                    w.fs.make_dir_all(&destd);
                    w.fs.copy_subtree(&src, &destd);
                    w.fs.remove_subtree(&temp);
                    step_result(true, "Insert Luna step completed successfully")
                }
            },
        };
        proof {
            assert(log.deep_view() =~= old(log).deep_view() + Seq::<Seq<char>>::empty());
            assert(w@ == (WorldModel { fs: w@.fs, ..old(w)@ }));
            assert(resolved_target(self.overwrite_path, old(w)@, ropt));
            assert(step_out_matches(
                old(w)@,
                w@,
                r,
                old(log).deep_view(),
                log.deep_view(),
                spec_insert(old(w)@.fs, old(w)@.temp_root, ropt),
            ));
        }
        r
    }
}

impl InstallStep for InsertLunaStep {
    fn name(&self) -> &str {
        "Insert Luna"
    }

    fn run(&self, w: &mut World, log: &mut Vec<SubLog>) -> StepResult {
        self.run_model(w, log)
    }
}

/// Which binaries and commands, in order, may bring the host application
/// back up; built from the resources directory the pipeline worked on.
pub enum LaunchCandidate {
    Binary { binary: AppPath, args: Vec<String> },
    Command { program: String, args: Vec<String> },
    OpenBundle { bundle: AppPath },
}

/// The mathematical shape of a launch attempt.
pub enum LaunchCandidateModel {
    Binary { binary: Seq<Seq<char>>, args: Seq<Seq<char>> },
    Command { program: Seq<char>, args: Seq<Seq<char>> },
    OpenBundle { bundle: Seq<Seq<char>> },
}

impl View for LaunchCandidate {
    type V = LaunchCandidateModel;

    open spec fn view(&self) -> LaunchCandidateModel {
        match self {
            LaunchCandidate::Binary { binary, args } => LaunchCandidateModel::Binary {
                binary: binary@,
                args: args.deep_view(),
            },
            LaunchCandidate::Command { program, args } => LaunchCandidateModel::Command {
                program: program@,
                args: args.deep_view(),
            },
            LaunchCandidate::OpenBundle { bundle } => LaunchCandidateModel::OpenBundle {
                bundle: bundle@,
            },
        }
    }
}

impl DeepView for LaunchCandidate {
    type V = LaunchCandidateModel;

    open spec fn deep_view(&self) -> LaunchCandidateModel {
        self.view()
    }
}

/// A path's parent directory; an empty path stands for itself.
pub open spec fn parent_or_self(p: Seq<Seq<char>>) -> Seq<Seq<char>> {
    if p.len() > 0 {
        p.drop_last()
    } else {
        p
    }
}

/// The launch attempts for a platform, in the order the original tries
/// them: the application directory's binaries, then the surrounding
/// directory's, then the platform's generic launch commands.
pub open spec fn spec_launch_candidates(platform: Platform, resources: Seq<Seq<char>>) -> Seq<
    LaunchCandidateModel,
> {
    let parent = parent_or_self(resources);
    let grandparent = parent_or_self(parent);
    match platform {
        Platform::Windows => seq![
            LaunchCandidateModel::Binary {
                binary: parent.push("TIDAL.exe"@),
                args: Seq::empty(),
            },
            LaunchCandidateModel::Binary {
                binary: parent.push("Tidal.exe"@),
                args: Seq::empty(),
            },
            LaunchCandidateModel::Binary {
                binary: grandparent.push("TIDAL.exe"@),
                args: Seq::empty(),
            },
            LaunchCandidateModel::Binary {
                binary: grandparent.push("Update.exe"@),
                args: seq!["--processStart"@, "TIDAL.exe"@],
            },
        ],
        Platform::MacOs => seq![
            LaunchCandidateModel::Binary {
                binary: parent.push("MacOS"@).push("TIDAL"@),
                args: Seq::empty(),
            },
            LaunchCandidateModel::Binary {
                binary: parent.push("MacOS"@).push("Tidal"@),
                args: Seq::empty(),
            },
            LaunchCandidateModel::OpenBundle { bundle: grandparent },
        ],
        Platform::Linux => seq![
            LaunchCandidateModel::Binary {
                binary: parent.push("tidal-hifi"@),
                args: Seq::empty(),
            },
            LaunchCandidateModel::Binary { binary: parent.push("tidal"@), args: Seq::empty() },
            LaunchCandidateModel::Command { program: "tidal-hifi"@, args: Seq::empty() },
            LaunchCandidateModel::Command {
                program: "flatpak"@,
                args: seq!["run"@, "com.mastermindzh.tidal-hifi"@],
            },
        ],
        Platform::Other => Seq::empty(),
    }
}

/// The launch attempts for a platform, in the order they are tried.
pub fn build_launch_candidates(platform: Platform, resources_path: &AppPath) -> (r: Vec<
    LaunchCandidate,
>)
    ensures
        r.deep_view() == spec_launch_candidates(platform, resources_path@),
{
    let parent = match resources_path.parent() {
        Some(p) => p,
        None => resources_path.clone(),
    };
    let grandparent = match parent.parent() {
        Some(p) => p,
        None => parent.clone(),
    };
    proof {
        assert(parent@ == parent_or_self(resources_path@));
        assert(grandparent@ == parent_or_self(parent_or_self(resources_path@)));
    }
    let mut out: Vec<LaunchCandidate> = Vec::new();
    match platform {
        Platform::Windows => {
            let a0: Vec<String> = Vec::new();
            let a1: Vec<String> = Vec::new();
            let a2: Vec<String> = Vec::new();
            let mut update_args: Vec<String> = Vec::new();
            update_args.push("--processStart".to_owned());
            update_args.push("TIDAL.exe".to_owned());
            proof {
                assert(a0.deep_view() =~= Seq::<Seq<char>>::empty());
                assert(a1.deep_view() =~= Seq::<Seq<char>>::empty());
                assert(a2.deep_view() =~= Seq::<Seq<char>>::empty());
                assert(update_args.deep_view() =~= seq!["--processStart"@, "TIDAL.exe"@]);
            }
            out.push(LaunchCandidate::Binary { binary: parent.join("TIDAL.exe"), args: a0 });
            out.push(LaunchCandidate::Binary { binary: parent.join("Tidal.exe"), args: a1 });
            out.push(
                LaunchCandidate::Binary { binary: grandparent.join("TIDAL.exe"), args: a2 },
            );
            out.push(
                LaunchCandidate::Binary {
                    binary: grandparent.join("Update.exe"),
                    args: update_args,
                },
            );
        },
        Platform::MacOs => {
            let macos_dir = parent.join("MacOS");
            let a0: Vec<String> = Vec::new();
            let a1: Vec<String> = Vec::new();
            proof {
                assert(a0.deep_view() =~= Seq::<Seq<char>>::empty());
                assert(a1.deep_view() =~= Seq::<Seq<char>>::empty());
            }
            out.push(LaunchCandidate::Binary { binary: macos_dir.join("TIDAL"), args: a0 });
            out.push(LaunchCandidate::Binary { binary: macos_dir.join("Tidal"), args: a1 });
            out.push(LaunchCandidate::OpenBundle { bundle: grandparent });
        },
        Platform::Linux => {
            let a0: Vec<String> = Vec::new();
            let a1: Vec<String> = Vec::new();
            let a2: Vec<String> = Vec::new();
            let mut flatpak_args: Vec<String> = Vec::new();
            flatpak_args.push("run".to_owned());
            flatpak_args.push("com.mastermindzh.tidal-hifi".to_owned());
            proof {
                assert(a0.deep_view() =~= Seq::<Seq<char>>::empty());
                assert(a1.deep_view() =~= Seq::<Seq<char>>::empty());
                assert(a2.deep_view() =~= Seq::<Seq<char>>::empty());
                assert(flatpak_args.deep_view() =~= seq![
                    "run"@,
                    "com.mastermindzh.tidal-hifi"@,
                ]);
            }
            out.push(LaunchCandidate::Binary { binary: parent.join("tidal-hifi"), args: a0 });
            out.push(LaunchCandidate::Binary { binary: parent.join("tidal"), args: a1 });
            out.push(
                LaunchCandidate::Command { program: "tidal-hifi".to_owned(), args: a2 },
            );
            out.push(
                LaunchCandidate::Command { program: "flatpak".to_owned(), args: flatpak_args },
            );
        },
        Platform::Other => {},
    }
    proof {
        assert(out.deep_view() =~= spec_launch_candidates(platform, resources_path@));
    }
    out
}

} // verus!
